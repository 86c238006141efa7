use vstd::prelude::*;
use crate::bits::bit;
use crate::bits::bits_of;
use crate::bits::lemma_bits_of_zero;
use crate::bits::lemma_drop_lowest;
use crate::bits::lemma_lowest;
use crate::bits::single;
use crate::board::movegen::bishop_mask;
use crate::board::movegen::black_pawn_advances;
use crate::board::movegen::file_of;
use crate::board::movegen::generate_bishop_attacks;
use crate::board::movegen::generate_queen_attacks;
use crate::board::movegen::generate_rook_attacks;
use crate::board::movegen::king_mask;
use crate::board::movegen::knight_mask;
use crate::board::movegen::pawn_mask;
use crate::board::movegen::pawn_push_mask;
use crate::board::movegen::queen_mask;
use crate::board::movegen::rank_of;
use crate::board::movegen::rook_mask;
use crate::board::movegen::test_bit;
use crate::board::movegen::white_pawn_advances;
use crate::board::Board;
use crate::board::CheckState;
use crate::board::Position;
use crate::fold::gather;
use crate::fold::join;
use crate::bits::group_bit_lemmas;
use crate::bits::lemma_bits_of_members;
use crate::fold::lemma_gather_contains;
use crate::fold::lemma_gather_len;
use crate::fold::lemma_gather_member;
use crate::fold::lemma_gather_push;
use crate::fold::lemma_join_member;
use crate::fold::lemma_join_push;
use crate::types::bitboard::Bitboard;
use crate::types::castling::CastlingKind;
use crate::types::color::Color;
use crate::types::movelist::moves_to;
use crate::types::movelist::MoveList;
use crate::types::moves::Move;
use crate::types::moves::MoveType;
use crate::types::piece::Piece;
use crate::types::square::Square;

verus! {

impl Position {
    /// The squares to which a king of the side to move may step: next to a
    /// king, not attacked, and not held by a piece of its own side.
    pub open spec fn king_reach(self, cs: CheckState) -> u64 {
        join(
            bits_of(self.our(Piece::King)),
            |ks: int| !cs.check_space.0 & king_mask(ks) & !self.ours(),
        )
    }

    /// The moves of the king on `ks`: first the captures, then the quiet
    /// moves, each in increasing order of the target squares.
    pub open spec fn king_moves_from(self, cs: CheckState, ks: int) -> Seq<Move> {
        let reach = self.king_reach(cs);
        let captures = reach & self.theirs();
        let quiet = reach & !captures;
        moves_to(ks, bits_of(captures), 4) + moves_to(ks, bits_of(quiet), 0)
    }

    /// The king's moves.
    pub open spec fn king_moves(self, cs: CheckState) -> Seq<Move> {
        gather(bits_of(self.our(Piece::King)), |ks: int| self.king_moves_from(cs, ks))
    }

    /// The en passant square as a set: empty when there is none.
    pub open spec fn en_passant_word(self) -> u64 {
        single(self.state.en_passant.idx())
    }

    /// The squares to which the piece on `s` could go if neither pins nor
    /// checks mattered. A slider or a knight goes where it attacks, but for
    /// the squares of its own side. A pawn captures on the squares it attacks
    /// that the other side holds or that are the en passant square, and it
    /// advances. The king's moves are not counted here.
    pub open spec fn reach(self, s: int) -> u64 {
        match self.piece_at(s) {
            Piece::Rook => rook_mask(s, self.occupancy()) & !self.ours(),
            Piece::Bishop => bishop_mask(s, self.occupancy()) & !self.ours(),
            Piece::Queen => queen_mask(s, self.occupancy()) & !self.ours(),
            Piece::Knight => knight_mask(s) & !self.ours(),
            Piece::Pawn => (pawn_mask(self.side, s) & (self.theirs() | self.en_passant_word()))
                | pawn_push_mask(self.side, s, self.occupancy()),
            _ => 0,
        }
    }

    /// The squares to which the piece on `s` may go: where it could go, within
    /// its pin, and in check only where the first check is answered.
    pub open spec fn targets(self, cs: CheckState, pins: Seq<Bitboard>, s: int) -> u64 {
        let pinned = self.reach(s) & pins[s].0;
        if cs.first.checking_piece != Square::Null {
            pinned & cs.first.block_space.0
        } else {
            pinned
        }
    }

    /// The rank on which a pawn of the side to move promotes.
    pub open spec fn promotion_rank(self) -> int {
        if self.side == Color::White {
            7
        } else {
            0
        }
    }

    /// The moves of the piece on `s` to the square `t`. A pawn that reaches the
    /// last rank gives four promotions, to rook, queen, bishop and knight in
    /// that order; off its file it captures, en passant if the target is the
    /// en passant square; two ranks ahead is a double push. Another piece
    /// captures if the target is occupied.
    pub open spec fn moves_between(self, s: int, t: int) -> Seq<Move> {
        if self.piece_at(s) == Piece::Pawn {
            let advance = file_of(t) == file_of(s);
            if rank_of(t) == self.promotion_rank() {
                if advance {
                    seq![
                        Move::encode(s, t, 10),
                        Move::encode(s, t, 11),
                        Move::encode(s, t, 9),
                        Move::encode(s, t, 8),
                    ]
                } else {
                    seq![
                        Move::encode(s, t, 14),
                        Move::encode(s, t, 15),
                        Move::encode(s, t, 13),
                        Move::encode(s, t, 12),
                    ]
                }
            } else if !advance {
                if t == self.state.en_passant.idx() {
                    seq![Move::encode(s, t, 5)]
                } else {
                    seq![Move::encode(s, t, 4)]
                }
            } else if t == s + 16 || t == s - 16 {
                seq![Move::encode(s, t, 1)]
            } else {
                seq![Move::encode(s, t, 0)]
            }
        } else if self.piece_at(t) == Piece::Empty {
            seq![Move::encode(s, t, 0)]
        } else {
            seq![Move::encode(s, t, 4)]
        }
    }

    /// The moves of the piece on `s`, in increasing order of the target squares.
    pub open spec fn piece_moves(self, cs: CheckState, pins: Seq<Bitboard>, s: int) -> Seq<Move> {
        gather(bits_of(self.targets(cs, pins, s)), |t: int| self.moves_between(s, t))
    }

    /// The moves of the pieces other than the king, in increasing order of
    /// the squares they stand on.
    pub open spec fn other_moves(self, cs: CheckState, pins: Seq<Bitboard>) -> Seq<Move> {
        gather(
            bits_of(self.ours() & !self.our(Piece::King)),
            |s: int| self.piece_moves(cs, pins, s),
        )
    }

    /// Whether the side to move may castle in the given way: it holds the
    /// right, the squares between king and rook are empty, and the king's
    /// start, the square it crosses and the square it reaches are not attacked.
    pub open spec fn may_castle(self, cs: CheckState, kind: CastlingKind) -> bool {
        &&& self.state.castling.allows(kind)
        &&& kind.path_of() & self.occupancy() == 0
        &&& !bit(cs.check_space.0, kind.king_start())
        &&& !bit(cs.check_space.0, kind.king_transit())
        &&& !bit(cs.check_space.0, kind.king_target())
    }

    /// The castling move of the given kind, if the side to move may make it.
    pub open spec fn castling_moves(self, cs: CheckState, kind: CastlingKind) -> Seq<Move> {
        if self.may_castle(cs, kind) {
            seq![kind.move_of()]
        } else {
            Seq::empty()
        }
    }

    /// The two ways in which the side to move castles, kingside first.
    pub open spec fn castling_kinds(self) -> (CastlingKind, CastlingKind) {
        if self.side == Color::White {
            (CastlingKind::WhiteKingside, CastlingKind::WhiteQueenside)
        } else {
            (CastlingKind::BlackKingside, CastlingKind::BlackQueenside)
        }
    }

    /// The legal moves for a given check state and pin state: the king's
    /// moves, and unless two checks are recorded the moves of the other pieces
    /// and the castling moves. Pins and checks are judged by the squares of
    /// start and target alone: an en passant capture counts as legal though
    /// taking the pawn off uncovers the king along the rank, and it does not
    /// count as an answer to a check by the pawn that it takes.
    pub open spec fn legal_moves_from(self, cs: CheckState, pins: Seq<Bitboard>) -> Seq<Move> {
        if cs.second.checking_piece != Square::Null {
            self.king_moves(cs)
        } else {
            self.king_moves(cs) + self.other_moves(cs, pins) + self.castling_moves(
                cs,
                self.castling_kinds().0,
            ) + self.castling_moves(cs, self.castling_kinds().1)
        }
    }

    /// The legal moves of the position.
    pub open spec fn legal_moves(self) -> Seq<Move> {
        self.legal_moves_from(self.check_state(), self.pin_state())
    }
}

impl Board {
    /// The squares to which a king of the side to move may step under the
    /// given check state.
    pub fn generate_king_moves(&self, check_state: &CheckState) -> (bb: Bitboard)
        requires
            self.standard_bitboards.wf(),
        ensures
            bb.0 == self.position().king_reach(*check_state),
    {
        let our_king = self.our(Piece::King);
        let ours: u64 = self.colors[self.side_to_move.index()].0;
        let mut bb: u64 = 0;
        let mut rest = our_king;
        let ghost pos = self.position();
        let ghost f = |ks: int| !check_state.check_space.0 & king_mask(ks) & !pos.ours();
        let ghost mut done: Seq<int> = Seq::empty();
        assert(done + rest.squares() =~= rest.squares());
        while !rest.is_empty()
            invariant
                self.standard_bitboards.wf(),
                pos == self.position(),
                ours == pos.ours(),
                f == (|ks: int| !check_state.check_space.0 & king_mask(ks) & !pos.ours()),
                bits_of(pos.our(Piece::King)) == done + rest.squares(),
                bb == join(done, f),
            decreases rest.0,
        {
            proof {
                lemma_drop_lowest(rest.0);
                lemma_lowest(rest.0);
            }
            let ghost before = rest.squares();
            let king_square = rest.pop();
            let reachable_squares: u64 = !check_state.check_space.0
                & self.standard_bitboards.king_attacks[king_square.index()].0 & !ours;
            bb = bb | reachable_squares;
            proof {
                lemma_join_push(done, king_square.idx(), f);
                let next = done.push(king_square.idx());
                assert(next + rest.squares() =~= done + before);
                done = next;
            }
        }
        proof {
            lemma_bits_of_zero();
            assert(done + rest.squares() =~= done);
        }
        Bitboard(bb)
    }

    /// The squares to which the piece on the square could go if neither pins
    /// nor checks mattered.
    fn reach(&self, square: Square) -> (b: Bitboard)
        requires
            self.standard_bitboards.wf(),
            square != Square::Null,
        ensures
            b.0 == self.position().reach(square.idx()),
    {
        let s: usize = square.index();
        let our_pieces: u64 = self.colors[self.side_to_move.index()].0;
        let their_pieces: u64 = self.colors[self.side_to_move.opponent().index()].0;
        let full_occupancy = Bitboard(our_pieces | their_pieces);
        match self.mailbox[s] {
            Piece::Rook => Bitboard(
                generate_rook_attacks(&square, &full_occupancy).0 & !our_pieces,
            ),
            Piece::Bishop => Bitboard(
                generate_bishop_attacks(&square, &full_occupancy).0 & !our_pieces,
            ),
            Piece::Queen => Bitboard(
                generate_queen_attacks(&square, &full_occupancy).0 & !our_pieces,
            ),
            Piece::Knight => Bitboard(self.standard_bitboards.knight_attacks[s].0 & !our_pieces),
            Piece::Pawn => {
                let en_passant_bb = Bitboard::from(self.state.en_passant);
                let captures: u64 =
                    self.standard_bitboards.pawn_captures[self.side_to_move.index()][s].0 & (
                    their_pieces | en_passant_bb.0);
                let advances = match self.side_to_move {
                    Color::White => white_pawn_advances(&square, &full_occupancy),
                    Color::Black => black_pawn_advances(&square, &full_occupancy),
                };
                Bitboard(captures | advances.0)
            },
            _ => Bitboard(0),
        }
    }

    /// Adds the moves of the piece on `square` to `target`.
    fn add_moves_between(&self, mvs: &mut MoveList, square: Square, target: Square)
        requires
            square != Square::Null,
            target != Square::Null,
        ensures
            final(mvs)@ == old(mvs)@ + self.position().moves_between(square.idx(), target.idx()),
    {
        let ghost base = mvs@;
        let ghost s = square.idx();
        let ghost t = target.idx();
        let piece = self.mailbox[square.index()];
        match piece {
            Piece::Pawn => {
                let promotion_rank: usize = match self.side_to_move {
                    Color::White => 7,
                    Color::Black => 0,
                };
                let is_advance = target.file() == square.file();
                if target.rank() == promotion_rank {
                    if is_advance {
                        mvs.add(square, target, MoveType::PromotionToRook);
                        mvs.add(square, target, MoveType::PromotionToQueen);
                        mvs.add(square, target, MoveType::PromotionToBishop);
                        mvs.add(square, target, MoveType::PromotionToKnight);
                        assert(mvs@ =~= base + seq![
                            Move::encode(s, t, 10),
                            Move::encode(s, t, 11),
                            Move::encode(s, t, 9),
                            Move::encode(s, t, 8),
                        ]);
                    } else {
                        mvs.add(square, target, MoveType::PromotionCaptureToRook);
                        mvs.add(square, target, MoveType::PromotionCaptureToQueen);
                        mvs.add(square, target, MoveType::PromotionCaptureToBishop);
                        mvs.add(square, target, MoveType::PromotionCaptureToKnight);
                        assert(mvs@ =~= base + seq![
                            Move::encode(s, t, 14),
                            Move::encode(s, t, 15),
                            Move::encode(s, t, 13),
                            Move::encode(s, t, 12),
                        ]);
                    }
                } else if !is_advance {
                    if target.index() == self.state.en_passant.index() {
                        mvs.add(square, target, MoveType::EnPassant);
                        assert(mvs@ =~= base + seq![Move::encode(s, t, 5)]);
                    } else {
                        mvs.add(square, target, MoveType::Capture);
                        assert(mvs@ =~= base + seq![Move::encode(s, t, 4)]);
                    }
                } else if target.index() == square.shift(16).index() || target.index()
                    == square.shift(-16).index() {
                    mvs.add(square, target, MoveType::DoublePawnPush);
                    assert(mvs@ =~= base + seq![Move::encode(s, t, 1)]);
                } else {
                    mvs.add(square, target, MoveType::Quiet);
                    assert(mvs@ =~= base + seq![Move::encode(s, t, 0)]);
                }
            },
            _ => {
                let on_target = self.mailbox[target.index()];
                if on_target == Piece::Empty {
                    mvs.add(square, target, MoveType::Quiet);
                    assert(mvs@ =~= base + seq![Move::encode(s, t, 0)]);
                } else {
                    mvs.add(square, target, MoveType::Capture);
                    assert(mvs@ =~= base + seq![Move::encode(s, t, 4)]);
                }
            },
        }
    }

    /// Adds the moves of the piece on `square`.
    fn add_piece_moves(&self, mvs: &mut MoveList, square: Square)
        requires
            self.standard_bitboards.wf(),
            square != Square::Null,
        ensures
            final(mvs)@ == old(mvs)@ + self.position().piece_moves(
                self.checking_state,
                self.pinning_state@,
                square.idx(),
            ),
    {
        let in_check = self.checking_state.first.checking_piece.index() != 64;
        let pin: u64 = self.pinning_state[square.index()].0;
        let mut reachable_squares: u64 = self.reach(square).0 & pin;
        if in_check {
            reachable_squares = reachable_squares & self.checking_state.first.block_space.0;
        }
        let ghost pos = self.position();
        let ghost s = square.idx();
        let ghost f = |t: int| pos.moves_between(s, t);
        assert(reachable_squares == pos.targets(self.checking_state, self.pinning_state@, s));
        let mut rest = Bitboard(reachable_squares);
        let ghost mut done: Seq<int> = Seq::empty();
        assert(done + rest.squares() =~= rest.squares());
        assert(old(mvs)@ + gather(done, f) =~= old(mvs)@);
        while !rest.is_empty()
            invariant
                square != Square::Null,
                s == square.idx(),
                pos == self.position(),
                f == (|t: int| pos.moves_between(s, t)),
                bits_of(reachable_squares) == done + rest.squares(),
                mvs@ == old(mvs)@ + gather(done, f),
            decreases rest.0,
        {
            proof {
                lemma_drop_lowest(rest.0);
                lemma_lowest(rest.0);
            }
            let ghost before = rest.squares();
            let target = rest.pop();
            self.add_moves_between(mvs, square, target);
            proof {
                lemma_gather_push(done, target.idx(), f);
                let next = done.push(target.idx());
                assert(next + rest.squares() =~= done + before);
                assert(old(mvs)@ + (gather(done, f) + f(target.idx())) =~= (old(mvs)@ + gather(
                    done,
                    f,
                )) + f(target.idx()));
                done = next;
            }
        }
        proof {
            lemma_bits_of_zero();
            assert(done + rest.squares() =~= done);
        }
    }

    /// Adds the castling move of the given kind to the list if the side to
    /// move may make it.
    pub fn generate_castling(&self, kind: CastlingKind, list: &mut MoveList)
        ensures
            final(list)@ == old(list)@ + self.position().castling_moves(self.checking_state, kind),
    {
        assert(list@ + Seq::<Move>::empty() =~= list@);
        if !self.state.castling.is_allowed(kind) {
            return ;
        }
        let full_occupancies: u64 = self.colors[self.side_to_move.index()].0
            | self.colors[self.side_to_move.opponent().index()].0;
        if kind.path_mask().0 & full_occupancies != 0 {
            return ;
        }
        let check_squares = kind.check_squares();
        let mut i: usize = 0;
        while i < 3
            invariant
                i <= 3,
                list@ == old(list)@,
                list@ + Seq::<Move>::empty() == list@,
                check_squares[0].idx() == kind.king_start(),
                check_squares[1].idx() == kind.king_transit(),
                check_squares[2].idx() == kind.king_target(),
                forall|k: int|
                    0 <= k < i ==> !bit(
                        self.checking_state.check_space.0,
                        (#[trigger] check_squares[k]).idx(),
                    ),
            decreases 3 - i,
        {
            let sq = check_squares[i];
            if test_bit(self.checking_state.check_space.0, sq.index()) {
                return ;
            }
            i = i + 1;
        }
        assert(!bit(self.checking_state.check_space.0, check_squares[0].idx()));
        assert(!bit(self.checking_state.check_space.0, check_squares[1].idx()));
        assert(!bit(self.checking_state.check_space.0, check_squares[2].idx()));
        list.push(kind.castling_move());
        assert(list@ =~= old(list)@ + seq![kind.move_of()]);
    }

    /// The legal moves of the side to move, under the check state and the pin
    /// state that the board holds: the king's moves first, then the moves of
    /// the other pieces in increasing order of their squares, then castling.
    pub fn generate_legal_moves(&self) -> (mvs: MoveList)
        requires
            self.standard_bitboards.wf(),
        ensures
            mvs@ == self.position().legal_moves_from(self.checking_state, self.pinning_state@),
    {
        let mut mvs = MoveList::default();
        let check_state = self.checking_state;
        let our_pieces: u64 = self.colors[self.side_to_move.index()].0;
        let their_pieces: u64 = self.colors[self.side_to_move.opponent().index()].0;
        let our_king = self.our(Piece::King);
        let king_reachable_squares = self.generate_king_moves(&check_state);
        let captures = Bitboard(king_reachable_squares.0 & their_pieces);
        let non_captures = Bitboard(king_reachable_squares.0 & !captures.0);
        let ghost pos = self.position();
        let ghost pins = self.pinning_state@;
        let ghost kf = |ks: int| pos.king_moves_from(check_state, ks);
        let mut rest = our_king;
        let ghost mut done: Seq<int> = Seq::empty();
        assert(done + rest.squares() =~= rest.squares());
        assert(mvs@ =~= gather(done, kf));
        while !rest.is_empty()
            invariant
                pos == self.position(),
                check_state == self.checking_state,
                captures.0 == pos.king_reach(check_state) & pos.theirs(),
                non_captures.0 == pos.king_reach(check_state) & !captures.0,
                kf == (|ks: int| pos.king_moves_from(check_state, ks)),
                bits_of(pos.our(Piece::King)) == done + rest.squares(),
                mvs@ == gather(done, kf),
            decreases rest.0,
        {
            proof {
                lemma_drop_lowest(rest.0);
                lemma_lowest(rest.0);
            }
            let ghost before = rest.squares();
            let ghost listed = mvs@;
            let king_square = rest.pop();
            mvs.add_many(king_square, captures, MoveType::Capture);
            mvs.add_many(king_square, non_captures, MoveType::Quiet);
            proof {
                lemma_gather_push(done, king_square.idx(), kf);
                let next = done.push(king_square.idx());
                assert(next + rest.squares() =~= done + before);
                assert(mvs@ =~= listed + kf(king_square.idx()));
                done = next;
            }
        }
        proof {
            lemma_bits_of_zero();
            assert(done + rest.squares() =~= done);
        }
        if check_state.second.checking_piece.index() != 64 {
            return mvs;
        }
        let our_non_kings = Bitboard(our_pieces & !our_king.0);
        let ghost of = |s: int| pos.piece_moves(check_state, pins, s);
        let mut rest = our_non_kings;
        let ghost mut done: Seq<int> = Seq::empty();
        assert(done + rest.squares() =~= rest.squares());
        assert(mvs@ + gather(done, of) =~= mvs@);
        while !rest.is_empty()
            invariant
                self.standard_bitboards.wf(),
                pos == self.position(),
                pins == self.pinning_state@,
                check_state == self.checking_state,
                of == (|s: int| pos.piece_moves(check_state, pins, s)),
                bits_of(pos.ours() & !pos.our(Piece::King)) == done + rest.squares(),
                mvs@ == pos.king_moves(check_state) + gather(done, of),
            decreases rest.0,
        {
            proof {
                lemma_drop_lowest(rest.0);
                lemma_lowest(rest.0);
            }
            let ghost before = rest.squares();
            let ghost listed = mvs@;
            let square = rest.pop();
            self.add_piece_moves(&mut mvs, square);
            proof {
                lemma_gather_push(done, square.idx(), of);
                let next = done.push(square.idx());
                assert(next + rest.squares() =~= done + before);
                assert(pos.king_moves(check_state) + (gather(done, of) + of(square.idx())) =~= (
                pos.king_moves(check_state) + gather(done, of)) + of(square.idx()));
                done = next;
            }
        }
        proof {
            lemma_bits_of_zero();
            assert(done + rest.squares() =~= done);
        }
        if self.side_to_move == Color::White {
            self.generate_castling(CastlingKind::WhiteKingside, &mut mvs);
            self.generate_castling(CastlingKind::WhiteQueenside, &mut mvs);
        } else {
            self.generate_castling(CastlingKind::BlackKingside, &mut mvs);
            self.generate_castling(CastlingKind::BlackQueenside, &mut mvs);
        }
        mvs
    }
}

proof fn bv_castling_squares()
    by (bit_vector)
    ensures
        (0x0000_0000_0000_0060u64 >> 6u64) & 1 == 1,
        (0x0000_0000_0000_000eu64 >> 2u64) & 1 == 1,
        (0x6000_0000_0000_0000u64 >> 62u64) & 1 == 1,
        (0x0e00_0000_0000_0000u64 >> 58u64) & 1 == 1,
        (0x0000_0000_0000_0060u64 >> 5u64) & 1 == 1,
        (0x0000_0000_0000_000eu64 >> 3u64) & 1 == 1,
        (0x6000_0000_0000_0000u64 >> 61u64) & 1 == 1,
        (0x0e00_0000_0000_0000u64 >> 59u64) & 1 == 1,
{
}

/// The square that the king reaches and the square that it crosses lie on
/// the path that must be empty.
pub proof fn lemma_castling_path(kind: CastlingKind)
    ensures
        bit(kind.path_of(), kind.king_target()),
        bit(kind.path_of(), kind.king_transit()),
{
    bv_castling_squares();
}

impl Position {
    /// Whether `m` is a move of a king of the side to move from `ks` to `t`:
    /// the king stands on `ks`, it may step to `t`, and the move captures
    /// exactly if the other side holds `t`.
    pub open spec fn is_king_move(self, cs: CheckState, m: Move, ks: int, t: int) -> bool {
        &&& bit(self.our(Piece::King), ks)
        &&& bit(self.king_reach(cs), t)
        &&& m == Move::encode(
            ks,
            t,
            if bit(self.theirs(), t) {
                4
            } else {
                0
            },
        )
    }

    /// Whether `m` is one of the moves from `s` to `t` of a piece of the side
    /// to move that is no king.
    pub open spec fn is_piece_move(
        self,
        cs: CheckState,
        pins: Seq<Bitboard>,
        m: Move,
        s: int,
        t: int,
    ) -> bool {
        &&& bit(self.ours() & !self.our(Piece::King), s)
        &&& bit(self.targets(cs, pins, s), t)
        &&& self.moves_between(s, t).contains(m)
    }

    /// Whether `m` is a castling move that the side to move may make.
    pub open spec fn is_castling_move(self, cs: CheckState, m: Move, kind: CastlingKind) -> bool {
        &&& kind == self.castling_kinds().0 || kind == self.castling_kinds().1
        &&& self.may_castle(cs, kind)
        &&& m == kind.move_of()
    }

    /// Whether `m` is a move that the generator gives: a king's move, or with
    /// fewer than two checks a move of another piece or a castling move.
    pub open spec fn generates(self, cs: CheckState, pins: Seq<Bitboard>, m: Move) -> bool {
        ||| exists|ks: int, t: int| self.is_king_move(cs, m, ks, t)
        ||| cs.second.checking_piece == Square::Null && exists|s: int, t: int|
            self.is_piece_move(cs, pins, m, s, t)
        ||| cs.second.checking_piece == Square::Null && exists|kind: CastlingKind|
            self.is_castling_move(cs, m, kind)
    }

    /// Every king's move in the list is a move of a king to a square to which
    /// it may step.
    pub proof fn lemma_king_moves_member(self, cs: CheckState, k: int) -> (w: (int, int))
        requires
            0 <= k < self.king_moves(cs).len(),
        ensures
            self.is_king_move(cs, self.king_moves(cs)[k], w.0, w.1),
            0 <= w.0 < 64,
            0 <= w.1 < 64,
    {
        broadcast use group_bit_lemmas;

        let xs = bits_of(self.our(Piece::King));
        let f = |ks: int| self.king_moves_from(cs, ks);
        lemma_gather_member(xs, f, k);
        let (i, j) = choose|i: int, j: int|
            0 <= i < xs.len() && 0 <= j < f(xs[i]).len() && gather(xs, f)[k] == #[trigger] f(
                xs[i],
            )[j];
        let ks = xs[i];
        lemma_bits_of_members(self.our(Piece::King));
        let reach = self.king_reach(cs);
        let captures = reach & self.theirs();
        let quiet = reach & !captures;
        lemma_bits_of_members(captures);
        lemma_bits_of_members(quiet);
        let first = moves_to(ks, bits_of(captures), 4);
        if j < first.len() {
            let t = bits_of(captures)[j];
            assert(f(ks)[j] == Move::encode(ks, t, 4));
            (ks, t)
        } else {
            let t = bits_of(quiet)[j - first.len()];
            assert(f(ks)[j] == Move::encode(ks, t, 0));
            (ks, t)
        }
    }

    /// Every move of another piece in the list is a move of a piece of the
    /// side to move to a square to which it may go.
    pub proof fn lemma_other_moves_member(
        self,
        cs: CheckState,
        pins: Seq<Bitboard>,
        k: int,
    ) -> (w: (int, int))
        requires
            0 <= k < self.other_moves(cs, pins).len(),
        ensures
            self.is_piece_move(cs, pins, self.other_moves(cs, pins)[k], w.0, w.1),
            0 <= w.0 < 64,
            0 <= w.1 < 64,
    {
        let xs = bits_of(self.ours() & !self.our(Piece::King));
        let f = |s: int| self.piece_moves(cs, pins, s);
        lemma_gather_member(xs, f, k);
        let (i, j) = choose|i: int, j: int|
            0 <= i < xs.len() && 0 <= j < f(xs[i]).len() && gather(xs, f)[k] == #[trigger] f(
                xs[i],
            )[j];
        let s = xs[i];
        lemma_bits_of_members(self.ours() & !self.our(Piece::King));
        let ts = bits_of(self.targets(cs, pins, s));
        let g = |t: int| self.moves_between(s, t);
        lemma_gather_member(ts, g, j);
        let (a, b) = choose|a: int, b: int|
            0 <= a < ts.len() && 0 <= b < g(ts[a]).len() && gather(ts, g)[j] == #[trigger] g(
                ts[a],
            )[b];
        let t = ts[a];
        lemma_bits_of_members(self.targets(cs, pins, s));
        assert(self.moves_between(s, t)[b] == self.other_moves(cs, pins)[k]);
        (s, t)
    }

    /// Every move in the list is one that the generator gives.
    pub proof fn lemma_legal_moves_member(self, cs: CheckState, pins: Seq<Bitboard>, k: int)
        requires
            0 <= k < self.legal_moves_from(cs, pins).len(),
        ensures
            self.generates(cs, pins, self.legal_moves_from(cs, pins)[k]),
    {
        let m = self.legal_moves_from(cs, pins)[k];
        let kings = self.king_moves(cs);
        if k < kings.len() {
            let w = self.lemma_king_moves_member(cs, k);
            assert(self.is_king_move(cs, m, w.0, w.1));
        } else {
            let others = self.other_moves(cs, pins);
            let first = self.castling_moves(cs, self.castling_kinds().0);
            let second = self.castling_moves(cs, self.castling_kinds().1);
            if k < kings.len() + others.len() {
                let w = self.lemma_other_moves_member(cs, pins, k - kings.len());
                assert(self.is_piece_move(cs, pins, m, w.0, w.1));
            } else if k < kings.len() + others.len() + first.len() {
                assert(self.is_castling_move(cs, m, self.castling_kinds().0));
            } else {
                assert(self.is_castling_move(cs, m, self.castling_kinds().1));
            }
        }
    }
}

impl Position {
    /// Each of the moves between two squares leaves the first, reaches the
    /// second, and is no castling move.
    pub proof fn lemma_moves_between(self, s: int, t: int, m: Move)
        requires
            0 <= s < 64,
            0 <= t < 64,
            self.moves_between(s, t).contains(m),
        ensures
            m.start_idx() == s,
            m.target_idx() == t,
            !m.castles(),
    {
        let ms = self.moves_between(s, t);
        let j = choose|j: int| 0 <= j < ms.len() && ms[j] == m;
        assert(ms[j] == m);
        Move::lemma_encode(s, t, 0);
        Move::lemma_encode(s, t, 1);
        Move::lemma_encode(s, t, 4);
        Move::lemma_encode(s, t, 5);
        Move::lemma_encode(s, t, 8);
        Move::lemma_encode(s, t, 9);
        Move::lemma_encode(s, t, 10);
        Move::lemma_encode(s, t, 11);
        Move::lemma_encode(s, t, 12);
        Move::lemma_encode(s, t, 13);
        Move::lemma_encode(s, t, 14);
        Move::lemma_encode(s, t, 15);
    }

    /// No piece of the side to move can go to a square that its own side
    /// holds, if the two sides share no square and the en passant square is
    /// not held by the side to move.
    pub proof fn lemma_reach_avoids_own(self, s: int, t: int)
        requires
            self.ours() & self.theirs() == 0,
            !bit(self.ours(), self.state.en_passant.idx()),
            bit(self.reach(s), t),
        ensures
            !bit(self.ours(), t),
    {
        broadcast use group_bit_lemmas;

        if self.piece_at(s) == Piece::Pawn {
            assert(!(bit(self.ours(), t) && bit(self.theirs(), t))) by {
                assert(bit(self.ours() & self.theirs(), t) == (bit(self.ours(), t) && bit(
                    self.theirs(),
                    t,
                )));
            }
        }
    }

    /// Under two checks every legal move is a move of the king.
    pub proof fn lemma_double_check_moves_king(self, k: int)
        requires
            self.check_state().second.checking_piece != Square::Null,
            0 <= k < self.legal_moves().len(),
        ensures
            bit(self.our(Piece::King), self.legal_moves()[k].start_idx()),
    {
        let w = self.lemma_king_moves_member(self.check_state(), k);
        Move::lemma_encode(w.0, w.1, 0);
        Move::lemma_encode(w.0, w.1, 4);
    }

    /// A castling move is legal only if the side to move castles that way,
    /// holds the right, has the path empty, and neither the king's square nor
    /// the square it crosses nor the square it reaches is attacked.
    pub proof fn lemma_castling_is_safe(self, kind: CastlingKind, k: int)
        requires
            0 <= k < self.legal_moves().len(),
            self.legal_moves()[k] == kind.move_of(),
        ensures
            kind == self.castling_kinds().0 || kind == self.castling_kinds().1,
            self.may_castle(self.check_state(), kind),
    {
        let cs = self.check_state();
        let pins = self.pin_state();
        let m = kind.move_of();
        self.lemma_legal_moves_member(cs, pins, k);
        Move::lemma_encode(kind.king_start(), kind.king_target(), kind.tag());
        if exists|ks: int, t: int| self.is_king_move(cs, m, ks, t) {
            let (ks, t) = choose|ks: int, t: int| self.is_king_move(cs, m, ks, t);
            Move::lemma_decode(m);
            assert(m.tag() == 0 || m.tag() == 4) by {
                broadcast use group_bit_lemmas;

                lemma_join_member(
                    bits_of(self.our(Piece::King)),
                    |ks: int| !cs.check_space.0 & king_mask(ks) & !self.ours(),
                    t,
                );
                Move::lemma_encode(ks, t, 0);
                Move::lemma_encode(ks, t, 4);
            }
        } else if exists|s: int, t: int| self.is_piece_move(cs, pins, m, s, t) {
            let (s, t) = choose|s: int, t: int| self.is_piece_move(cs, pins, m, s, t);
            assert(0 <= s < 64 && 0 <= t < 64);
            self.lemma_moves_between(s, t, m);
        } else {
            let other = choose|other: CastlingKind| self.is_castling_move(cs, m, other);
            Move::lemma_encode(other.king_start(), other.king_target(), other.tag());
        }
    }

    /// No legal move ends on a square that the side to move holds, if the two
    /// sides share no square and the en passant square is not held by the
    /// side to move.
    pub proof fn lemma_no_friendly_capture(self, k: int)
        requires
            self.ours() & self.theirs() == 0,
            !bit(self.ours(), self.state.en_passant.idx()),
            0 <= k < self.legal_moves().len(),
        ensures
            !bit(self.ours(), self.legal_moves()[k].target_idx()),
    {
        broadcast use group_bit_lemmas;

        let cs = self.check_state();
        let pins = self.pin_state();
        let m = self.legal_moves()[k];
        self.lemma_legal_moves_member(cs, pins, k);
        if exists|ks: int, t: int| self.is_king_move(cs, m, ks, t) {
            let (ks, t) = choose|ks: int, t: int| self.is_king_move(cs, m, ks, t);
            lemma_join_member(
                bits_of(self.our(Piece::King)),
                |ks: int| !cs.check_space.0 & king_mask(ks) & !self.ours(),
                t,
            );
            Move::lemma_encode(ks, t, 0);
            Move::lemma_encode(ks, t, 4);
        } else if exists|s: int, t: int| self.is_piece_move(cs, pins, m, s, t) {
            let (s, t) = choose|s: int, t: int| self.is_piece_move(cs, pins, m, s, t);
            self.lemma_moves_between(s, t, m);
            self.lemma_reach_avoids_own(s, t);
        } else {
            let kind = choose|kind: CastlingKind| self.is_castling_move(cs, m, kind);
            Move::lemma_encode(kind.king_start(), kind.king_target(), kind.tag());
            lemma_castling_path(kind);
            assert(bit(kind.path_of() & self.occupancy(), kind.king_target()) == (bit(
                kind.path_of(),
                kind.king_target(),
            ) && bit(self.occupancy(), kind.king_target())));
        }
    }
}

impl Position {
    /// Every move that the generator gives is in the list.
    pub proof fn lemma_legal_moves_complete(self, cs: CheckState, pins: Seq<Bitboard>, m: Move)
        requires
            self.generates(cs, pins, m),
        ensures
            self.legal_moves_from(cs, pins).contains(m),
    {
        broadcast use group_bit_lemmas;

        let all = self.legal_moves_from(cs, pins);
        let kings = self.king_moves(cs);
        if exists|ks: int, t: int| self.is_king_move(cs, m, ks, t) {
            let (ks, t) = choose|ks: int, t: int| self.is_king_move(cs, m, ks, t);
            let xs = bits_of(self.our(Piece::King));
            let f = |ks: int| self.king_moves_from(cs, ks);
            lemma_bits_of_members(self.our(Piece::King));
            assert(xs.contains(ks));
            let i = choose|i: int| 0 <= i < xs.len() && xs[i] == ks;
            let reach = self.king_reach(cs);
            let captures = reach & self.theirs();
            let quiet = reach & !captures;
            lemma_bits_of_members(captures);
            lemma_bits_of_members(quiet);
            let first = moves_to(ks, bits_of(captures), 4);
            if bit(self.theirs(), t) {
                assert(bit(captures, t));
                assert(bits_of(captures).contains(t));
                let j = choose|j: int|
                    0 <= j < bits_of(captures).len() && bits_of(captures)[j] == t;
                assert(f(xs[i])[j] == m);
                lemma_gather_contains(xs, f, i, j);
            } else {
                assert(!bit(captures, t));
                assert(bit(quiet, t));
                assert(bits_of(quiet).contains(t));
                let j = choose|j: int| 0 <= j < bits_of(quiet).len() && bits_of(quiet)[j] == t;
                assert(f(xs[i])[first.len() + j] == m);
                lemma_gather_contains(xs, f, i, first.len() + j);
            }
            let k = choose|k: int| 0 <= k < kings.len() && kings[k] == m;
            assert(all[k] == m);
        } else {
            let others = self.other_moves(cs, pins);
            let first = self.castling_moves(cs, self.castling_kinds().0);
            let second = self.castling_moves(cs, self.castling_kinds().1);
            if exists|s: int, t: int| self.is_piece_move(cs, pins, m, s, t) {
                let (s, t) = choose|s: int, t: int| self.is_piece_move(cs, pins, m, s, t);
                let xs = bits_of(self.ours() & !self.our(Piece::King));
                let f = |s: int| self.piece_moves(cs, pins, s);
                lemma_bits_of_members(self.ours() & !self.our(Piece::King));
                assert(xs.contains(s));
                let i = choose|i: int| 0 <= i < xs.len() && xs[i] == s;
                let ts = bits_of(self.targets(cs, pins, s));
                let g = |t: int| self.moves_between(s, t);
                lemma_bits_of_members(self.targets(cs, pins, s));
                assert(ts.contains(t));
                let a = choose|a: int| 0 <= a < ts.len() && ts[a] == t;
                let b = choose|b: int|
                    0 <= b < self.moves_between(s, t).len() && self.moves_between(s, t)[b] == m;
                assert(g(ts[a])[b] == m);
                lemma_gather_contains(ts, g, a, b);
                let j = choose|j: int| 0 <= j < gather(ts, g).len() && gather(ts, g)[j] == m;
                assert(f(xs[i])[j] == m);
                lemma_gather_contains(xs, f, i, j);
                let k = choose|k: int| 0 <= k < others.len() && others[k] == m;
                assert(all[kings.len() + k] == m);
            } else {
                let kind = choose|kind: CastlingKind| self.is_castling_move(cs, m, kind);
                if kind == self.castling_kinds().0 {
                    assert(first[0] == m);
                    assert(all[(kings.len() + others.len()) as int] == m);
                } else {
                    assert(second[0] == m);
                    assert(all[(kings.len() + others.len() + first.len()) as int] == m);
                }
            }
        }
    }

    /// The list of legal moves holds exactly the moves that the generator
    /// gives.
    pub proof fn lemma_legal_moves_are_generated(self, m: Move)
        ensures
            self.legal_moves().contains(m) <==> self.generates(
                self.check_state(),
                self.pin_state(),
                m,
            ),
    {
        let cs = self.check_state();
        let pins = self.pin_state();
        if self.legal_moves().contains(m) {
            let k = choose|k: int| 0 <= k < self.legal_moves().len() && self.legal_moves()[k] == m;
            self.lemma_legal_moves_member(cs, pins, k);
        }
        if self.generates(cs, pins, m) {
            self.lemma_legal_moves_complete(cs, pins, m);
        }
    }
}

/// No position has more legal moves than this.
pub open spec fn most_moves() -> nat {
    24578
}

impl Position {
    /// The list of legal moves is never longer than `most_moves()`: each of at
    /// most 64 kings has at most 128 moves, each of at most 64 other pieces at
    /// most four moves to each of at most 64 squares, and two castling moves
    /// may follow.
    pub proof fn lemma_legal_moves_len(self, cs: CheckState, pins: Seq<Bitboard>)
        ensures
            self.legal_moves_from(cs, pins).len() <= most_moves(),
    {
        let kings = bits_of(self.our(Piece::King));
        let kf = |ks: int| self.king_moves_from(cs, ks);
        lemma_bits_of_members(self.our(Piece::King));
        let reach = self.king_reach(cs);
        lemma_bits_of_members(reach & self.theirs());
        lemma_bits_of_members(reach & !(reach & self.theirs()));
        assert forall|i: int| 0 <= i < kings.len() implies (#[trigger] kf(kings[i])).len()
            <= 128 by {}
        lemma_gather_len(kings, kf, 128);
        assert(kings.len() * 128 <= 64 * 128) by (nonlinear_arith)
            requires
                kings.len() <= 64,
        ;
        let others = bits_of(self.ours() & !self.our(Piece::King));
        let of = |s: int| self.piece_moves(cs, pins, s);
        lemma_bits_of_members(self.ours() & !self.our(Piece::King));
        assert forall|i: int| 0 <= i < others.len() implies (#[trigger] of(others[i])).len()
            <= 256 by {
            let s = others[i];
            let ts = bits_of(self.targets(cs, pins, s));
            let tf = |t: int| self.moves_between(s, t);
            lemma_bits_of_members(self.targets(cs, pins, s));
            assert forall|j: int| 0 <= j < ts.len() implies (#[trigger] tf(ts[j])).len() <= 4 by {}
            lemma_gather_len(ts, tf, 4);
            assert(ts.len() * 4 <= 64 * 4) by (nonlinear_arith)
                requires
                    ts.len() <= 64,
            ;
        }
        lemma_gather_len(others, of, 256);
        assert(others.len() * 256 <= 64 * 256) by (nonlinear_arith)
            requires
                others.len() <= 64,
        ;
    }
}

} // verus!
