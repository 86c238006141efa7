use vstd::prelude::*;
use crate::bits::bit;
use crate::bits::group_bit_lemmas;
use crate::bits::lemma_bits_equal;
use crate::bits::lemma_lowest_single;
use crate::bits::lowest;
use crate::bits::single;
use crate::board::lines::inside_run;
use crate::board::lines::lemma_between;
use crate::board::lines::lies_between;
use crate::board::lines::open_run;
use crate::board::lines::stride;
use crate::board::makemove::square_behind;
use crate::board::movegen::between_mask;
use crate::board::movegen::lemma_pawn_mask;
use crate::board::movegen::pawn_mask;
use crate::board::movegen::pawn_push_mask;
use crate::board::movegen::file_of;
use crate::board::movegen::test_bit;
use crate::board::Board;
use crate::board::Position;
use crate::types::castling::lemma_rights_kept;
use crate::types::castling::CastlingKind;
use crate::types::square::Square;
use crate::types::color::Color;
use crate::types::moves::Move;
use crate::types::piece::Piece;

verus! {

impl Position {
    /// A piece taken from its square keeps sets and record in agreement.
    pub proof fn lemma_removed_consistent(self, s: int, color: Color, piece: Piece)
        requires
            self.consistent(),
            self.holds(s, color, piece),
        ensures
            self.removed(s, color, piece).consistent(),
            self.removed(s, color, piece).bare(s),
    {
        let r = self.removed(s, color, piece);
        assert(self.agrees_at(s));
        self.lemma_removed_bare(s, color, piece);
        assert forall|t: int| 0 <= t < 64 implies #[trigger] r.agrees_at(t) by {
            assert(self.agrees_at(t));
            if t != s {
                self.lemma_removed_elsewhere(s, color, piece, t);
            }
        }
    }

    /// Whether the move changes what stands on the square of index `q`: its
    /// start, its target, the square of the piece it captures, and for a
    /// castling move the two squares of the rook.
    pub open spec fn touches(self, mv: Move, q: int) -> bool {
        ||| q == mv.start_idx()
        ||| q == mv.target_idx()
        ||| self.captured_by(mv) != Piece::Empty && q == self.capture_square(mv)
        ||| mv.castles() && (q == Self::rook_from(mv) || q == Self::rook_to(mv))
    }

    /// What stands where after a move that suits the position: sets and
    /// record agree, the start is bare, the target holds the piece put there,
    /// the rook of a castling move has gone from its corner to its new square,
    /// a pawn captured en passant has left its square, and every other square
    /// is as it was.
    #[verifier::rlimit(30)]
    pub proof fn lemma_pieces_after(self, mv: Move)
        requires
            self.consistent(),
            self.fits(mv),
        ensures
            self.pieces_after(mv).consistent(),
            self.pieces_after(mv).side == self.side,
            self.pieces_after(mv).state == self.state,
            self.pieces_after(mv).bare(mv.start_idx()),
            self.pieces_after(mv).holds(mv.target_idx(), self.side, self.placed_by(mv)),
            mv.castles() ==> self.pieces_after(mv).holds(
                Self::rook_to(mv),
                self.side,
                Piece::Rook,
            ) && self.pieces_after(mv).bare(Self::rook_from(mv)),
            self.captured_by(mv) != Piece::Empty && self.capture_square(mv) != mv.target_idx()
                ==> self.pieces_after(mv).bare(self.capture_square(mv)),
            forall|q: int|
                0 <= q < 64 && !self.touches(mv, q) ==> #[trigger] self.pieces_after(mv).bare(q)
                    == self.bare(q),
            forall|q: int, color: Color, piece: Piece|
                0 <= q < 64 && !self.touches(mv, q) ==> #[trigger] self.pieces_after(mv).holds(
                    q,
                    color,
                    piece,
                ) == self.holds(q, color, piece),
    {
        let s = mv.start_idx();
        let t = mv.target_idx();
        let us = self.side;
        let them = us.other();
        let p = self.piece_at(s);
        let c = self.capture_square(mv);
        let cap = self.captured_by(mv);
        let placed = self.placed_by(mv);
        Move::lemma_decode(mv);
        assert(self.agrees_at(s));
        assert(self.agrees_at(t));
        assert(placed != Piece::Empty);
        let taken = self.without_captured(mv);
        if cap != Piece::Empty {
            assert(self.agrees_at(c));
            assert(c != s);
            self.lemma_removed_consistent(c, them, cap);
            self.lemma_removed_elsewhere(c, them, cap, s);
            if c != t {
                self.lemma_removed_elsewhere(c, them, cap, t);
            }
        }
        assert(taken.consistent());
        assert(taken.holds(s, us, p));
        assert(taken.bare(t));
        let lifted = taken.removed(s, us, p);
        taken.lemma_removed_consistent(s, us, p);
        taken.lemma_removed_elsewhere(s, us, p, t);
        let landed = lifted.added(t, us, placed);
        lifted.lemma_added_consistent(t, us, placed);
        lifted.lemma_added_elsewhere(t, us, placed, s);
        assert(landed.bare(s));
        assert(landed.holds(t, us, placed)) by {
            broadcast use group_bit_lemmas;

        }
        if cap != Piece::Empty && c != t {
            taken.lemma_removed_elsewhere(s, us, p, c);
            lifted.lemma_added_elsewhere(t, us, placed, c);
        }
        let rf = Self::rook_from(mv);
        let rt = Self::rook_to(mv);
        if mv.castles() {
            taken.lemma_removed_elsewhere(s, us, p, rf);
            lifted.lemma_added_elsewhere(t, us, placed, rf);
            taken.lemma_removed_elsewhere(s, us, p, rt);
            lifted.lemma_added_elsewhere(t, us, placed, rt);
            let parted = landed.removed(rf, us, Piece::Rook);
            landed.lemma_removed_consistent(rf, us, Piece::Rook);
            landed.lemma_removed_elsewhere(rf, us, Piece::Rook, rt);
            landed.lemma_removed_elsewhere(rf, us, Piece::Rook, s);
            landed.lemma_removed_elsewhere(rf, us, Piece::Rook, t);
            let castled = parted.added(rt, us, Piece::Rook);
            parted.lemma_added_consistent(rt, us, Piece::Rook);
            parted.lemma_added_elsewhere(rt, us, Piece::Rook, rf);
            parted.lemma_added_elsewhere(rt, us, Piece::Rook, s);
            parted.lemma_added_elsewhere(rt, us, Piece::Rook, t);
            assert(castled.holds(rt, us, Piece::Rook)) by {
                broadcast use group_bit_lemmas;

            }
            assert(self.pieces_after(mv) == castled);
        } else {
            assert(self.pieces_after(mv) == landed);
        }
        let done = self.pieces_after(mv);
        assert forall|q: int| 0 <= q < 64 && !self.touches(mv, q) implies #[trigger] done.bare(q)
            == self.bare(q) by {
            if cap != Piece::Empty {
                self.lemma_removed_elsewhere(c, them, cap, q);
            }
            taken.lemma_removed_elsewhere(s, us, p, q);
            lifted.lemma_added_elsewhere(t, us, placed, q);
            if mv.castles() {
                let parted = landed.removed(rf, us, Piece::Rook);
                landed.lemma_removed_elsewhere(rf, us, Piece::Rook, q);
                parted.lemma_added_elsewhere(rt, us, Piece::Rook, q);
            }
        }
        assert forall|q: int, color: Color, piece: Piece|
            0 <= q < 64 && !self.touches(mv, q) implies #[trigger] done.holds(q, color, piece)
            == self.holds(q, color, piece) by {
            if cap != Piece::Empty {
                self.lemma_removed_elsewhere(c, them, cap, q);
                assert(taken.holds(q, color, piece) == self.holds(q, color, piece));
            }
            taken.lemma_removed_elsewhere(s, us, p, q);
            assert(lifted.holds(q, color, piece) == taken.holds(q, color, piece));
            lifted.lemma_added_elsewhere(t, us, placed, q);
            assert(landed.holds(q, color, piece) == lifted.holds(q, color, piece));
            if mv.castles() {
                let parted = landed.removed(rf, us, Piece::Rook);
                landed.lemma_removed_elsewhere(rf, us, Piece::Rook, q);
                assert(parted.holds(q, color, piece) == landed.holds(q, color, piece));
                parted.lemma_added_elsewhere(rt, us, Piece::Rook, q);
                assert(done.holds(q, color, piece) == parted.holds(q, color, piece));
            }
        }
    }
}

/// Between a square and the square two ranks from it on the same file lies
/// the one square that a pawn crosses on its double step.
#[verifier::rlimit(30)]
pub proof fn lemma_between_push(s: int, t: int)
    requires
        0 <= s < 64,
        0 <= t < 64,
        t == s + 16 || t == s - 16,
    ensures
        between_mask(s, t) == single((s + t) / 2),
        lowest(between_mask(s, t)) == (s + t) / 2,
{
    broadcast use group_bit_lemmas;

    let mid = (s + t) / 2;
    let step = mid - s;
    assert forall|x: int| 0 <= x < 64 implies #[trigger] bit(between_mask(s, t), x) == bit(
        single(mid),
        x,
    ) by {
        lemma_between(s, t, x);
        if x == mid {
            assert(open_run(s, 0, step, 2));
            assert(inside_run(s, step, 2, 1));
            assert(t == s + stride(2, step) && x == s + stride(1, step));
        }
        if lies_between(s, t, x) {
            let (d, n, k) = choose|d: int, n: int, k: int| #[trigger]
                inside_run(s, d, n, k) && t == s + stride(n, d) && x == s + stride(k, d);
            assert(d == step && n == 2 && k == 1);
        }
    }
    lemma_bits_equal(between_mask(s, t), single(mid));
    lemma_lowest_single(mid);
}

impl Position {
    /// Whether a castling right, of either side, has its king and its rook
    /// where they started.
    pub open spec fn right_sound(self, kind: CastlingKind) -> bool {
        self.state.castling.allows(kind) ==> self.holds(
            kind.king_start(),
            kind.side_of(),
            Piece::King,
        ) && self.holds(kind.rook_start(), kind.side_of(), Piece::Rook)
    }

    /// Whether the position is sound for both sides: the sets and the record
    /// of the squares agree, every castling right has king and rook in place,
    /// and the en passant square has the pawn that passed it behind it.
    pub open spec fn fully_sound(self) -> bool {
        &&& self.consistent()
        &&& self.right_sound(CastlingKind::WhiteKingside)
        &&& self.right_sound(CastlingKind::WhiteQueenside)
        &&& self.right_sound(CastlingKind::BlackKingside)
        &&& self.right_sound(CastlingKind::BlackQueenside)
        &&& self.en_passant_sound()
    }

    /// Whether the move suits the position and is what its tag says: a double
    /// pawn push is a pawn's move two ranks ahead from its home rank over a
    /// bare square, an en passant capture takes a pawn, and a castling move
    /// starts on the king's square of the side to move.
    pub open spec fn proper(self, mv: Move) -> bool {
        let s = mv.start_idx();
        let t = mv.target_idx();
        &&& self.fits(mv)
        &&& mv.tag() == 1 ==> {
            &&& self.piece_at(s) == Piece::Pawn
            &&& t == (if self.side == Color::White {
                s + 16
            } else {
                s - 16
            })
            &&& self.bare((s + t) / 2)
        }
        &&& mv.tag() == 5 ==> self.holds(
            square_behind(self.side, t),
            self.side.other(),
            Piece::Pawn,
        )
        &&& mv.castles() ==> s == (if self.side == Color::White {
            4int
        } else {
            60int
        })
    }

    /// A position that is sound for both sides is sound for the side to move.
    pub proof fn lemma_fully_sound(self)
        requires
            self.fully_sound(),
        ensures
            self.sound(),
    {
    }

    /// In a sound position every legal move is what its tag says.
    #[verifier::rlimit(30)]
    pub proof fn lemma_legal_moves_proper(self, k: int)
        requires
            self.sound(),
            0 <= k < self.legal_moves().len(),
        ensures
            self.proper(self.legal_moves()[k]),
    {
        broadcast use group_bit_lemmas;

        let cs = self.check_state();
        let pins = self.pin_state();
        let m = self.legal_moves()[k];
        self.lemma_legal_moves_fit(k);
        self.lemma_legal_moves_member(cs, pins, k);
        Move::lemma_decode(m);
        if exists|ks: int, t: int| self.is_king_move(cs, m, ks, t) {
            let (ks, t) = choose|ks: int, t: int| self.is_king_move(cs, m, ks, t);
            crate::fold::lemma_join_member(
                crate::bits::bits_of(self.our(Piece::King)),
                |ks: int| !cs.check_space.0 & crate::board::movegen::king_mask(ks) & !self.ours(),
                t,
            );
            Move::lemma_encode(ks, t, 0);
            Move::lemma_encode(ks, t, 4);
        } else if exists|s: int, t: int| self.is_piece_move(cs, pins, m, s, t) {
            let (s, t) = choose|s: int, t: int| self.is_piece_move(cs, pins, m, s, t);
            assert(0 <= s < 64 && 0 <= t < 64);
            self.lemma_moves_between(s, t, m);
            assert(bit(self.reach(s), t));
            let ms = self.moves_between(s, t);
            let j = choose|j: int| 0 <= j < ms.len() && ms[j] == m;
            Move::lemma_encode(s, t, 0);
            Move::lemma_encode(s, t, 1);
            Move::lemma_encode(s, t, 4);
            Move::lemma_encode(s, t, 5);
            Move::lemma_encode(s, t, 8);
            Move::lemma_encode(s, t, 9);
            Move::lemma_encode(s, t, 10);
            Move::lemma_encode(s, t, 11);
            Move::lemma_encode(s, t, 12);
            Move::lemma_encode(s, t, 13);
            Move::lemma_encode(s, t, 14);
            Move::lemma_encode(s, t, 15);
            Square::lemma_idx_injective(self.state.en_passant, Square::Null);
            if m.tag() == 1 {
                assert(self.piece_at(s) == Piece::Pawn);
                lemma_pawn_mask(self.side, s);
                assert(file_of(t) == file_of(s));
                assert(!bit(pawn_mask(self.side, s), t));
                assert(bit(pawn_push_mask(self.side, s, self.occupancy()), t));
                let mid = (s + t) / 2;
                assert(!bit(self.occupancy(), mid));
                assert(self.agrees_at(mid));
                self.lemma_agreement(mid);
            }
        } else {
            let kind = choose|kind: CastlingKind| self.is_castling_move(cs, m, kind);
            Move::lemma_encode(kind.king_start(), kind.king_target(), kind.tag());
        }
    }

    /// A move that is what its tag says leaves a position that is sound for
    /// both sides sound for both sides.
    #[verifier::rlimit(30)]
    pub proof fn lemma_sound_after(self, mv: Move)
        requires
            self.fully_sound(),
            self.proper(mv),
        ensures
            self.after(mv).fully_sound(),
    {
        reveal(Position::after);
        let s = mv.start_idx();
        let t = mv.target_idx();
        let done = self.pieces_after(mv);
        let next = self.after(mv);
        Move::lemma_decode(mv);
        self.lemma_pieces_after(mv);
        assert(next.colors == done.colors && next.pieces == done.pieces && next.mailbox
            == done.mailbox);
        assert forall|q: int| 0 <= q < 64 implies #[trigger] next.agrees_at(q) by {
            assert(done.agrees_at(q));
        }
        assert forall|q: int, color: Color, piece: Piece| #[trigger]
            next.holds(q, color, piece) == done.holds(q, color, piece) by {}
        assert forall|q: int| #[trigger] next.bare(q) == done.bare(q) by {}
        self.lemma_right_kept(mv, CastlingKind::WhiteKingside);
        self.lemma_right_kept(mv, CastlingKind::WhiteQueenside);
        self.lemma_right_kept(mv, CastlingKind::BlackKingside);
        self.lemma_right_kept(mv, CastlingKind::BlackQueenside);
        if mv.tag() == 1 {
            lemma_between_push(s, t);
            let mid = (s + t) / 2;
            Square::lemma_at(mid);
            Square::lemma_idx_injective(Square::at(mid), Square::Null);
            assert(!self.touches(mv, mid));
            assert(done.bare(mid) == self.bare(mid));
            assert(next.state.en_passant == Square::at(mid));
            assert(square_behind(next.side, mid) == t);
            assert(self.placed_by(mv) == Piece::Pawn);
        } else {
            assert(next.state.en_passant == Square::Null);
        }
    }

    /// A castling right that is held after the move still has its king and
    /// its rook in place.
    pub proof fn lemma_right_kept(self, mv: Move, kind: CastlingKind)
        requires
            self.fully_sound(),
            self.proper(mv),
        ensures
            self.state.castling.updated(mv.start_idx(), mv.target_idx()).allows(kind)
                ==> self.pieces_after(mv).holds(kind.king_start(), kind.side_of(), Piece::King)
                && self.pieces_after(mv).holds(kind.rook_start(), kind.side_of(), Piece::Rook),
    {
        let s = mv.start_idx();
        let t = mv.target_idx();
        Move::lemma_decode(mv);
        if self.state.castling.updated(s, t).allows(kind) {
            lemma_rights_kept(self.state.castling, s, t, kind);
            self.lemma_pieces_after(mv);
            assert(self.right_sound(kind));
            let king = kind.king_start();
            let rook = kind.rook_start();
            assert(self.holds(king, kind.side_of(), Piece::King));
            assert(self.holds(rook, kind.side_of(), Piece::Rook));
            if mv.castles() {
                crate::board::lines::lemma_between_castling(s, t);
            }
            assert(!self.touches(mv, king));
            assert(!self.touches(mv, rook));
        }
    }
}

impl Board {
    /// Whether a piece of the given kind and colour stands on the square.
    fn holds(&self, square: Square, color: Color, piece: Piece) -> (r: bool)
        ensures
            r == self.position().holds(square.idx(), color, piece),
    {
        let s: usize = square.index();
        let p: usize = piece.index();
        s < 64 && p < 6 && self.mailbox[s] == piece && test_bit(self.pieces[p].0, s) && test_bit(
            self.colors[color.index()].0,
            s,
        )
    }

    /// Whether sets and record of the squares agree on the square.
    fn agrees_at(&self, s: usize) -> (r: bool)
        requires
            s < 64,
        ensures
            r == self.position().agrees_at(s as int),
    {
        let white = test_bit(self.colors[0].0, s);
        let black = test_bit(self.colors[1].0, s);
        let kind: usize = self.mailbox[s].index();
        let mut p: usize = 0;
        while p < 6
            invariant
                p <= 6,
                s < 64,
                kind == self.mailbox@[s as int].idx(),
                forall|k: int|
                    0 <= k < p ==> (bit(#[trigger] self.pieces@[k].0, s as int) <==> kind == k),
            decreases 6 - p,
        {
            if test_bit(self.pieces[p].0, s) != (kind == p) {
                let ghost pos = self.position();
                assert(bit(pos.pieces[p as int].0, s as int) != (pos.mailbox[s as int].idx() == p));
                return false;
            }
            p = p + 1;
        }
        ((kind != 6) == (white || black)) && !(white && black)
    }

    /// Whether the right to castle in the given way, if it is held, has its
    /// king and its rook where they started.
    fn right_sound(&self, kind: CastlingKind) -> (r: bool)
        ensures
            r == self.position().right_sound(kind),
    {
        reveal(Square::idx);
        if !self.state.castling.is_allowed(kind) {
            return true;
        }
        let (color, king, rook) = match kind {
            CastlingKind::WhiteKingside => (Color::White, Square::E1, Square::H1),
            CastlingKind::WhiteQueenside => (Color::White, Square::E1, Square::A1),
            CastlingKind::BlackKingside => (Color::Black, Square::E8, Square::H8),
            CastlingKind::BlackQueenside => (Color::Black, Square::E8, Square::A8),
        };
        self.holds(king, color, Piece::King) && self.holds(rook, color, Piece::Rook)
    }

    /// Whether the position is sound for both sides: sets and record of the
    /// squares agree, every castling right has its king and its rook in place,
    /// and the en passant square is bare with a pawn of the other side behind
    /// it. From such a position every legal move can be made and taken back,
    /// and leaves such a position.
    pub fn is_sound(&self) -> (r: bool)
        ensures
            r == self.position().fully_sound(),
    {
        let mut s: usize = 0;
        while s < 64
            invariant
                s <= 64,
                forall|q: int| 0 <= q < s ==> #[trigger] self.position().agrees_at(q),
            decreases 64 - s,
        {
            if !self.agrees_at(s) {
                return false;
            }
            s = s + 1;
        }
        assert(self.position().consistent());
        if !(self.right_sound(CastlingKind::WhiteKingside) && self.right_sound(
            CastlingKind::WhiteQueenside,
        ) && self.right_sound(CastlingKind::BlackKingside) && self.right_sound(
            CastlingKind::BlackQueenside,
        )) {
            return false;
        }
        let en_passant = self.state.en_passant;
        let e: usize = en_passant.index();
        if e == 64 {
            return true;
        }
        proof {
            self.position().lemma_agreement(e as int);
        }
        let behind = match self.side_to_move {
            Color::White => en_passant.shift(-8),
            Color::Black => en_passant.shift(8),
        };
        self.mailbox[e] == Piece::Empty && self.holds(
            behind,
            self.side_to_move.opponent(),
            Piece::Pawn,
        )
    }
}

} // verus!
