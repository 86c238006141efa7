use vstd::prelude::*;
use crate::bits::bit;
use crate::bits::group_bit_lemmas;
use crate::bits::lemma_bits_equal;
use crate::bits::lemma_zero_iff_no_bits;
use crate::bits::single;
use crate::board::makemove::rook_squares;
use crate::board::makemove::square_behind;
use crate::bits::bits_of;
use crate::board::legal::lemma_castling_path;
use crate::board::movegen::file_of;
use crate::board::movegen::king_mask;
use crate::board::lines::lemma_between_castling;
use crate::board::movegen::lemma_pawn_mask;
use crate::board::movegen::pawn_mask;
use crate::board::movegen::pawn_push_mask;
use crate::board::CheckState;
use crate::fold::lemma_join_member;
use crate::types::castling::CastlingKind;
use crate::types::square::Square;
use crate::board::Position;
use crate::types::moves::FullMove;
use crate::types::moves::Move;
use crate::types::bitboard::Bitboard;
use crate::types::color::Color;
use crate::types::piece::Piece;

verus! {

impl Position {
    /// Whether a piece of the given kind and colour stands on the square of
    /// index `s`, in the record of the squares and in both sets.
    pub open spec fn holds(self, s: int, color: Color, piece: Piece) -> bool {
        &&& 0 <= s < 64
        &&& piece != Piece::Empty
        &&& self.mailbox[s] == piece
        &&& bit(self.pieces[piece.idx()].0, s)
        &&& bit(self.colors[color.idx()].0, s)
    }

    /// Whether nothing stands on the square of index `s`, in the record of
    /// the squares and in every set.
    pub open spec fn bare(self, s: int) -> bool {
        &&& 0 <= s < 64
        &&& self.mailbox[s] == Piece::Empty
        &&& forall|p: int| 0 <= p < 6 ==> !bit(#[trigger] self.pieces[p].0, s)
        &&& !bit(self.colors[0].0, s)
        &&& !bit(self.colors[1].0, s)
    }

    /// Taking a piece off and putting it back changes nothing.
    pub proof fn lemma_put_back(self, s: int, color: Color, piece: Piece)
        requires
            self.shaped(),
            self.holds(s, color, piece),
        ensures
            self.removed(s, color, piece).added(s, color, piece) == self,
    {
        broadcast use group_bit_lemmas;

        let r = self.removed(s, color, piece).added(s, color, piece);
        let c = self.colors[color.idx()].0;
        let p = self.pieces[piece.idx()].0;
        lemma_bits_equal((c & !single(s)) | single(s), c);
        lemma_bits_equal((p & !single(s)) | single(s), p);
        assert(r.colors =~= self.colors);
        assert(r.pieces =~= self.pieces);
        assert(r.mailbox =~= self.mailbox);
    }

    /// Putting a piece on a bare square and taking it off changes nothing.
    pub proof fn lemma_take_off(self, s: int, color: Color, piece: Piece)
        requires
            self.shaped(),
            self.bare(s),
            piece != Piece::Empty,
        ensures
            self.added(s, color, piece).removed(s, color, piece) == self,
    {
        broadcast use group_bit_lemmas;

        let r = self.added(s, color, piece).removed(s, color, piece);
        let c = self.colors[color.idx()].0;
        let p = self.pieces[piece.idx()].0;
        assert(!bit(p, s));
        lemma_bits_equal((c | single(s)) & !single(s), c);
        lemma_bits_equal((p | single(s)) & !single(s), p);
        assert(r.colors =~= self.colors);
        assert(r.pieces =~= self.pieces);
        assert(r.mailbox =~= self.mailbox);
    }

    /// The square that a piece is taken from is bare afterwards, if the sets
    /// and the record agreed on it.
    pub proof fn lemma_removed_bare(self, s: int, color: Color, piece: Piece)
        requires
            self.shaped(),
            self.holds(s, color, piece),
            self.agrees_at(s),
        ensures
            self.removed(s, color, piece).bare(s),
            self.removed(s, color, piece).shaped(),
    {
        broadcast use group_bit_lemmas;

        let r = self.removed(s, color, piece);
        assert forall|p: int| 0 <= p < 6 implies !bit(#[trigger] r.pieces[p].0, s) by {
            if p != piece.idx() {
                assert(r.pieces[p] == self.pieces[p]);
            }
        }
        if color.idx() == 0 {
            assert(r.colors[1] == self.colors[1]);
        } else {
            assert(r.colors[0] == self.colors[0]);
        }
    }

    /// Taking a piece from one square leaves every other square as it was.
    pub proof fn lemma_removed_elsewhere(self, s: int, color: Color, piece: Piece, t: int)
        requires
            self.shaped(),
            0 <= s < 64,
            piece != Piece::Empty,
            s != t,
        ensures
            self.removed(s, color, piece).shaped(),
            self.removed(s, color, piece).bare(t) == self.bare(t),
            forall|c: Color, p: Piece| #[trigger]
                self.removed(s, color, piece).holds(t, c, p) == self.holds(t, c, p),
            0 <= t < 64 ==> self.removed(s, color, piece).agrees_at(t) == self.agrees_at(t),
            0 <= t < 64 ==> self.removed(s, color, piece).mailbox[t] == self.mailbox[t],
    {
        broadcast use group_bit_lemmas;

        let r = self.removed(s, color, piece);
        assert forall|k: int| 0 <= k < 6 implies bit(#[trigger] r.pieces[k].0, t) == bit(
            self.pieces[k].0,
            t,
        ) by {}
        assert forall|k: int| 0 <= k < 2 implies bit(#[trigger] r.colors[k].0, t) == bit(
            self.colors[k].0,
            t,
        ) by {}
        assert(bit(r.colors[0].0, t) == bit(self.colors[0].0, t));
        assert(bit(r.colors[1].0, t) == bit(self.colors[1].0, t));
        if 0 <= t < 64 {
            assert(r.mailbox[t] == self.mailbox[t]);
            if self.bare(t) {
                assert forall|p: int| 0 <= p < 6 implies !bit(#[trigger] r.pieces[p].0, t) by {
                    assert(bit(r.pieces[p].0, t) == bit(self.pieces[p].0, t));
                }
            }
            if r.bare(t) {
                assert forall|p: int| 0 <= p < 6 implies !bit(#[trigger] self.pieces[p].0, t) by {
                    assert(bit(r.pieces[p].0, t) == bit(self.pieces[p].0, t));
                }
            }
            assert(r.agrees_at(t) == self.agrees_at(t)) by {
                assert forall|p: int| 0 <= p < 6 implies (bit(r.pieces[p].0, t) <==> bit(
                    self.pieces[p].0,
                    t,
                )) by {}
            }
        }
        assert forall|c: Color, p: Piece| #[trigger] r.holds(t, c, p) == self.holds(t, c, p) by {
            if 0 <= t < 64 && p != Piece::Empty {
                assert(bit(r.pieces[p.idx()].0, t) == bit(self.pieces[p.idx()].0, t));
                assert(bit(r.colors[c.idx()].0, t) == bit(self.colors[c.idx()].0, t));
            }
        }
    }

    /// Putting a piece on one square leaves every other square as it was.
    pub proof fn lemma_added_elsewhere(self, s: int, color: Color, piece: Piece, t: int)
        requires
            self.shaped(),
            0 <= s < 64,
            piece != Piece::Empty,
            s != t,
        ensures
            self.added(s, color, piece).shaped(),
            self.added(s, color, piece).bare(t) == self.bare(t),
            forall|c: Color, p: Piece| #[trigger]
                self.added(s, color, piece).holds(t, c, p) == self.holds(t, c, p),
            0 <= t < 64 ==> self.added(s, color, piece).agrees_at(t) == self.agrees_at(t),
            0 <= t < 64 ==> self.added(s, color, piece).mailbox[t] == self.mailbox[t],
    {
        broadcast use group_bit_lemmas;

        let r = self.added(s, color, piece);
        assert forall|k: int| 0 <= k < 6 implies bit(#[trigger] r.pieces[k].0, t) == bit(
            self.pieces[k].0,
            t,
        ) by {}
        assert(bit(r.colors[0].0, t) == bit(self.colors[0].0, t));
        assert(bit(r.colors[1].0, t) == bit(self.colors[1].0, t));
        if 0 <= t < 64 {
            assert(r.mailbox[t] == self.mailbox[t]);
            if self.bare(t) {
                assert forall|p: int| 0 <= p < 6 implies !bit(#[trigger] r.pieces[p].0, t) by {
                    assert(bit(r.pieces[p].0, t) == bit(self.pieces[p].0, t));
                }
            }
            if r.bare(t) {
                assert forall|p: int| 0 <= p < 6 implies !bit(#[trigger] self.pieces[p].0, t) by {
                    assert(bit(r.pieces[p].0, t) == bit(self.pieces[p].0, t));
                }
            }
            assert(r.agrees_at(t) == self.agrees_at(t)) by {
                assert forall|p: int| 0 <= p < 6 implies (bit(r.pieces[p].0, t) <==> bit(
                    self.pieces[p].0,
                    t,
                )) by {}
            }
        }
        assert forall|c: Color, p: Piece| #[trigger] r.holds(t, c, p) == self.holds(t, c, p) by {
            if 0 <= t < 64 && p != Piece::Empty {
                assert(bit(r.pieces[p.idx()].0, t) == bit(self.pieces[p.idx()].0, t));
                assert(bit(r.colors[c.idx()].0, t) == bit(self.colors[c.idx()].0, t));
            }
        }
    }

    /// A piece put on a bare square keeps sets and record in agreement.
    pub proof fn lemma_added_consistent(self, s: int, color: Color, piece: Piece)
        requires
            self.consistent(),
            self.bare(s),
            piece != Piece::Empty,
        ensures
            self.added(s, color, piece).consistent(),
    {
        broadcast use group_bit_lemmas;

        let r = self.added(s, color, piece);
        assert forall|t: int| 0 <= t < 64 implies #[trigger] r.agrees_at(t) by {
            assert(self.agrees_at(t));
            if t != s {
                self.lemma_added_elsewhere(s, color, piece, t);
            } else {
                assert forall|p: int| 0 <= p < 6 implies (bit(r.pieces[p].0, s)
                    <==> r.mailbox[s].idx() == p) by {
                    if p != piece.idx() {
                        assert(r.pieces[p] == self.pieces[p]);
                        assert(!bit(self.pieces[p].0, s));
                    }
                }
                if color.idx() == 0 {
                    assert(r.colors[1] == self.colors[1]);
                } else {
                    assert(r.colors[0] == self.colors[0]);
                }
            }
        }
    }

    /// Taking a piece from one square and putting a piece on another can be
    /// done in either order.
    pub proof fn lemma_swap(
        self,
        s: int,
        color: Color,
        piece: Piece,
        t: int,
        other_color: Color,
        other: Piece,
    )
        requires
            self.shaped(),
            0 <= s < 64,
            0 <= t < 64,
            s != t,
            piece != Piece::Empty,
            other != Piece::Empty,
        ensures
            self.removed(s, color, piece).added(t, other_color, other) == self.added(
                t,
                other_color,
                other,
            ).removed(s, color, piece),
    {
        let a = self.removed(s, color, piece).added(t, other_color, other);
        let b = self.added(t, other_color, other).removed(s, color, piece);
        lemma_word_swap(self.colors[color.idx()].0, s, t);
        lemma_word_swap(self.pieces[piece.idx()].0, s, t);
        assert(a.colors =~= b.colors);
        assert(a.pieces =~= b.pieces);
        assert(a.mailbox =~= b.mailbox);
    }

    /// Two pieces on different squares can be taken off in either order.
    pub proof fn lemma_swap_removed(
        self,
        s: int,
        color: Color,
        piece: Piece,
        t: int,
        other_color: Color,
        other: Piece,
    )
        requires
            self.shaped(),
            0 <= s < 64,
            0 <= t < 64,
            s != t,
            piece != Piece::Empty,
            other != Piece::Empty,
        ensures
            self.removed(s, color, piece).removed(t, other_color, other) == self.removed(
                t,
                other_color,
                other,
            ).removed(s, color, piece),
    {
        let a = self.removed(s, color, piece).removed(t, other_color, other);
        let b = self.removed(t, other_color, other).removed(s, color, piece);
        lemma_word_swap(self.colors[color.idx()].0, s, t);
        lemma_word_swap(self.pieces[piece.idx()].0, s, t);
        assert(a.colors =~= b.colors);
        assert(a.pieces =~= b.pieces);
        assert(a.mailbox =~= b.mailbox);
    }
}

impl Position {
    /// Whether the move suits the position, so that it can be made and taken
    /// back: a piece of the side to move stands on its start square; its
    /// target square is bare, or the move captures there a piece of the other
    /// side; what an en passant capture takes is a piece of the other side;
    /// and a castling move finds its rook on the corner and the rook's new
    /// square bare.
    pub open spec fn fits(self, mv: Move) -> bool {
        let s = mv.start_idx();
        let t = mv.target_idx();
        let c = self.capture_square(mv);
        &&& s != t
        &&& self.holds(s, self.side, self.piece_at(s))
        &&& self.bare(t) || (mv.captures() && mv.tag() != 5 && self.holds(
            t,
            self.side.other(),
            self.piece_at(t),
        ))
        &&& self.captured_by(mv) != Piece::Empty ==> self.holds(
            c,
            self.side.other(),
            self.captured_by(mv),
        )
        &&& mv.castles() ==> {
            &&& self.holds(Self::rook_from(mv), self.side, Piece::Rook)
            &&& self.bare(Self::rook_to(mv))
            &&& Self::rook_from(mv) != s
            &&& Self::rook_from(mv) != t
            &&& Self::rook_to(mv) != s
            &&& Self::rook_to(mv) != t
            &&& rook_squares(t) == Some((Self::rook_from(mv), Self::rook_to(mv)))
        }
    }

    /// A move that suits the position, made and taken back, leaves the pieces
    /// as they were.
    #[verifier::rlimit(30)]
    pub proof fn lemma_pieces_round_trip(self, mv: Move)
        requires
            self.consistent(),
            self.fits(mv),
        ensures
            self.pieces_after(mv).pieces_before(self.record_of(mv)) == self,
    {
        let s = mv.start_idx();
        let t = mv.target_idx();
        let us = self.side;
        let them = us.other();
        let p = self.piece_at(s);
        let c = self.capture_square(mv);
        let cap = self.captured_by(mv);
        let placed = self.placed_by(mv);
        let fm = self.record_of(mv);
        Move::lemma_decode(mv);
        assert(self.agrees_at(s));
        assert(self.agrees_at(t));
        assert(placed != Piece::Empty);
        assert(Self::placed_in(fm) == placed);
        let taken = self.without_captured(mv);
        let lifted = taken.removed(s, us, p);
        let landed = lifted.added(t, us, placed);
        // the square of the start is not the square of the capture
        if cap != Piece::Empty {
            assert(0 <= c < 64);
            assert(self.agrees_at(c));
            assert(c != s);
            self.lemma_removed_elsewhere(c, them, cap, s);
            if c == t {
                self.lemma_removed_bare(t, them, cap);
            } else {
                self.lemma_removed_elsewhere(c, them, cap, t);
            }
            self.lemma_put_back(c, them, cap);
        }
        assert(taken.shaped());
        assert(taken.bare(t));
        assert(taken.holds(s, us, p));
        taken.lemma_removed_elsewhere(s, us, p, t);
        assert(lifted.bare(t));
        lifted.lemma_take_off(t, us, placed);
        assert(landed.removed(t, us, placed) == lifted);
        if mv.castles() {
            let rf = Self::rook_from(mv);
            let rt = Self::rook_to(mv);
            assert(cap == Piece::Empty);
            assert(placed == p);
            let parted = landed.removed(rf, us, Piece::Rook);
            let castled = parted.added(rt, us, Piece::Rook);
            assert(self.pieces_after(mv) == castled);
            lifted.lemma_added_elsewhere(t, us, p, rf);
            landed.lemma_removed_elsewhere(rf, us, Piece::Rook, t);
            parted.lemma_swap(t, us, p, rt, us, Piece::Rook);
            landed.lemma_swap_removed(rf, us, Piece::Rook, t, us, p);
            assert(castled.removed(t, us, p) == lifted.removed(rf, us, Piece::Rook).added(
                rt,
                us,
                Piece::Rook,
            ));
            let q = lifted.removed(rf, us, Piece::Rook);
            self.lemma_removed_elsewhere(s, us, p, rf);
            self.lemma_removed_elsewhere(s, us, p, rt);
            lifted.lemma_removed_elsewhere(rf, us, Piece::Rook, rt);
            assert(q.bare(rt));
            q.lemma_take_off(rt, us, Piece::Rook);
            assert(lifted.holds(rf, us, Piece::Rook));
            lifted.lemma_put_back(rf, us, Piece::Rook);
            self.lemma_put_back(s, us, p);
            assert(castled.without_placed(fm) == q.added(rt, us, Piece::Rook));
            assert(castled.without_placed(fm).with_captured(fm) == q.added(rt, us, Piece::Rook));
            assert(castled.without_placed(fm).with_captured(fm).with_rook_back(fm) == lifted);
        } else {
            assert(self.pieces_after(mv) == landed);
            assert(landed.without_placed(fm) == lifted);
            if cap != Piece::Empty {
                taken.lemma_swap(s, us, p, c, them, cap);
                assert(lifted.added(c, them, cap) == self.removed(s, us, p));
                assert(lifted.with_captured(fm) == self.removed(s, us, p));
            } else {
                assert(lifted.with_captured(fm) == lifted);
            }
            self.lemma_put_back(s, us, p);
        }
    }

    /// A move that suits the position, made and taken back, leaves the
    /// position as it was.
    pub proof fn lemma_round_trip(self, mv: Move)
        requires
            self.consistent(),
            self.fits(mv),
        ensures
            !self.refuses(mv),
            self.after(mv).before(self.record_of(mv), self.state) == self,
    {
        reveal(Position::after);
        reveal(Position::before);
        self.lemma_pieces_round_trip(mv);
        let fm = self.record_of(mv);
        let done = self.pieces_after(mv);
        let turned = Position { side: self.side, ..self.after(mv) };
        turned.lemma_state_apart(done, fm);
    }

    /// What the pieces were before a recorded move does not depend on the state.
    pub proof fn lemma_state_apart(self, other: Position, fm: FullMove)
        requires
            self.side == other.side,
            self.colors == other.colors,
            self.pieces == other.pieces,
            self.mailbox == other.mailbox,
        ensures
            self.pieces_before(fm).side == other.pieces_before(fm).side,
            self.pieces_before(fm).colors == other.pieces_before(fm).colors,
            self.pieces_before(fm).pieces == other.pieces_before(fm).pieces,
            self.pieces_before(fm).mailbox == other.pieces_before(fm).mailbox,
    {
    }
}

impl Position {
    /// Whether a castling right of the side to move has its king and its rook
    /// where they started.
    pub open spec fn castling_sound(self, kind: CastlingKind) -> bool {
        self.state.castling.allows(kind) ==> self.holds(kind.king_start(), self.side, Piece::King)
            && self.holds(kind.rook_start(), self.side, Piece::Rook)
    }

    /// Whether the en passant square, if there is one, is bare and has a pawn
    /// of the other side behind it.
    pub open spec fn en_passant_sound(self) -> bool {
        self.state.en_passant != Square::Null ==> self.bare(self.state.en_passant.idx())
            && self.holds(
            square_behind(self.side, self.state.en_passant.idx()),
            self.side.other(),
            Piece::Pawn,
        )
    }

    /// Whether the position is one in which every legal move can be made and
    /// taken back: the sets and the record of the squares agree, the castling
    /// rights of the side to move have king and rook in place, and the en
    /// passant square has the pawn that passed it behind it.
    pub open spec fn sound(self) -> bool {
        &&& self.consistent()
        &&& self.castling_sound(self.castling_kinds().0)
        &&& self.castling_sound(self.castling_kinds().1)
        &&& self.en_passant_sound()
    }

    /// On a square where sets and record agree, a square that a side holds has
    /// a piece of that side, and a square that no side holds is bare.
    pub proof fn lemma_agreement(self, s: int)
        requires
            self.shaped(),
            0 <= s < 64,
            self.agrees_at(s),
        ensures
            bit(self.ours(), s) ==> self.holds(s, self.side, self.piece_at(s)),
            bit(self.theirs(), s) ==> self.holds(s, self.side.other(), self.piece_at(s)),
            !bit(self.ours(), s) && !bit(self.theirs(), s) ==> self.bare(s),
            self.piece_at(s) == Piece::Empty ==> self.bare(s),
            !(bit(self.ours(), s) && bit(self.theirs(), s)),
            forall|p: Piece| p != Piece::Empty && bit(self.of_kind(p), s) ==> self.piece_at(s) == p,
    {
        let m = self.mailbox[s];
        assert(m != Piece::Empty ==> bit(self.pieces[m.idx()].0, s));
        assert forall|p: Piece| p != Piece::Empty && bit(self.of_kind(p), s) implies self.piece_at(
            s,
        ) == p by {
            assert(self.mailbox[s].idx() == p.idx());
        }
    }

    /// Where sets and record agree on every square the two sides share no square.
    pub proof fn lemma_sides_apart(self)
        requires
            self.consistent(),
        ensures
            self.ours() & self.theirs() == 0,
    {
        broadcast use group_bit_lemmas;

        assert forall|i: int| 0 <= i < 64 implies !#[trigger] bit(
            self.ours() & self.theirs(),
            i,
        ) by {
            assert(self.agrees_at(i));
        }
        lemma_zero_iff_no_bits(self.ours() & self.theirs());
    }

    /// In a sound position every move of the king suits the position.
    pub proof fn lemma_king_move_fits(self, cs: CheckState, m: Move, ks: int, t: int)
        requires
            self.sound(),
            self.is_king_move(cs, m, ks, t),
        ensures
            self.fits(m),
    {
        broadcast use group_bit_lemmas;

        assert(0 <= ks < 64 && 0 <= t < 64);
        lemma_join_member(
            bits_of(self.our(Piece::King)),
            |ks: int| !cs.check_space.0 & king_mask(ks) & !self.ours(),
            t,
        );
        assert(!bit(self.ours(), t));
        assert(self.agrees_at(ks));
        assert(self.agrees_at(t));
        self.lemma_agreement(ks);
        self.lemma_agreement(t);
        Move::lemma_encode(ks, t, 0);
        Move::lemma_encode(ks, t, 4);
    }

    /// In a sound position every castling move that may be made suits the position.
    pub proof fn lemma_castling_move_fits(self, cs: CheckState, m: Move, kind: CastlingKind)
        requires
            self.sound(),
            self.is_castling_move(cs, m, kind),
        ensures
            self.fits(m),
    {
        broadcast use group_bit_lemmas;

        let s = kind.king_start();
        let t = kind.king_target();
        Move::lemma_encode(s, t, kind.tag());
        lemma_castling_path(kind);
        lemma_between_castling(s, t);
        assert(Self::rook_to(m) == kind.king_transit());
        assert(Self::rook_from(m) == kind.rook_start());
        assert(self.agrees_at(t));
        assert(self.agrees_at(kind.king_transit()));
        self.lemma_agreement(t);
        self.lemma_agreement(kind.king_transit());
        assert(bit(kind.path_of() & self.occupancy(), t) == (bit(kind.path_of(), t) && bit(
            self.occupancy(),
            t,
        )));
        assert(bit(kind.path_of() & self.occupancy(), kind.king_transit()) == (bit(
            kind.path_of(),
            kind.king_transit(),
        ) && bit(self.occupancy(), kind.king_transit())));
    }

    /// In a sound position every move of a piece other than the king suits
    /// the position.
    #[verifier::rlimit(30)]
    pub proof fn lemma_piece_move_fits(
        self,
        cs: CheckState,
        pins: Seq<Bitboard>,
        m: Move,
        s: int,
        t: int,
    )
        requires
            self.sound(),
            self.is_piece_move(cs, pins, m, s, t),
        ensures
            self.fits(m),
    {
        broadcast use group_bit_lemmas;

        assert(0 <= s < 64 && 0 <= t < 64);
        assert(bit(self.reach(s), t));
        assert(self.agrees_at(s));
        assert(self.agrees_at(t));
        self.lemma_agreement(s);
        self.lemma_agreement(t);
        self.lemma_moves_between(s, t, m);
        let ep = self.state.en_passant.idx();
        Square::lemma_idx_injective(self.state.en_passant, Square::Null);
        if self.state.en_passant != Square::Null {
            self.lemma_agreement(ep);
        }
        self.lemma_sides_apart();
        self.lemma_reach_avoids_own(s, t);
        let ms = self.moves_between(s, t);
        let j = choose|j: int| 0 <= j < ms.len() && ms[j] == m;
        Move::lemma_encode(s, t, 0);
        Move::lemma_encode(s, t, 1);
        Move::lemma_encode(s, t, 4);
        Move::lemma_encode(s, t, 5);
        Move::lemma_encode(s, t, 8);
        Move::lemma_encode(s, t, 9);
        Move::lemma_encode(s, t, 10);
        Move::lemma_encode(s, t, 11);
        Move::lemma_encode(s, t, 12);
        Move::lemma_encode(s, t, 13);
        Move::lemma_encode(s, t, 14);
        Move::lemma_encode(s, t, 15);
        if self.piece_at(s) == Piece::Pawn {
            lemma_pawn_mask(self.side, s);
            let pushes = pawn_push_mask(self.side, s, self.occupancy());
            if bit(pushes, t) {
                assert(file_of(t) == file_of(s));
                assert(!bit(self.occupancy(), t));
            } else {
                assert(bit(pawn_mask(self.side, s), t));
                assert(file_of(t) != file_of(s));
                assert(bit(self.theirs(), t) || t == ep);
                if t == ep {
                    let c = square_behind(self.side, t);
                    assert(0 <= c < 64);
                    assert(self.capture_square(Move::encode(s, t, 5)) == c);
                }
            }
        }
    }

    /// In a sound position every legal move suits the position.
    pub proof fn lemma_legal_moves_fit(self, k: int)
        requires
            self.sound(),
            0 <= k < self.legal_moves().len(),
        ensures
            self.fits(self.legal_moves()[k]),
    {
        let cs = self.check_state();
        let pins = self.pin_state();
        let m = self.legal_moves()[k];
        self.lemma_legal_moves_member(cs, pins, k);
        if exists|ks: int, t: int| self.is_king_move(cs, m, ks, t) {
            let (ks, t) = choose|ks: int, t: int| self.is_king_move(cs, m, ks, t);
            self.lemma_king_move_fits(cs, m, ks, t);
        } else if exists|s: int, t: int| self.is_piece_move(cs, pins, m, s, t) {
            let (s, t) = choose|s: int, t: int| self.is_piece_move(cs, pins, m, s, t);
            self.lemma_piece_move_fits(cs, pins, m, s, t);
        } else {
            let kind = choose|kind: CastlingKind| self.is_castling_move(cs, m, kind);
            self.lemma_castling_move_fits(cs, m, kind);
        }
    }

    /// In a sound position every legal move, made and taken back, leaves the
    /// position as it was.
    pub proof fn lemma_legal_round_trip(self, k: int)
        requires
            self.sound(),
            0 <= k < self.legal_moves().len(),
        ensures
            !self.refuses(self.legal_moves()[k]),
            self.after(self.legal_moves()[k]).before(
                self.record_of(self.legal_moves()[k]),
                self.state,
            ) == self,
    {
        self.lemma_legal_moves_fit(k);
        self.lemma_round_trip(self.legal_moves()[k]);
    }
}

/// Setting or clearing two different bits of a word can be done in either order.
pub proof fn lemma_word_swap(x: u64, s: int, t: int)
    requires
        s != t,
    ensures
        (x & !single(s)) | single(t) == (x | single(t)) & !single(s),
        (x & !single(s)) & !single(t) == (x & !single(t)) & !single(s),
{
    broadcast use group_bit_lemmas;

    lemma_bits_equal((x & !single(s)) | single(t), (x | single(t)) & !single(s));
    lemma_bits_equal((x & !single(s)) & !single(t), (x & !single(t)) & !single(s));
}

} // verus!
