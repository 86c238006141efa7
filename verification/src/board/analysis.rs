use vstd::prelude::*;
use crate::bits::bits_of;
use crate::bits::lemma_bits_of_members;
use crate::bits::lemma_bits_of_sorted;
use crate::fold::join;
use crate::fold::lemma_join_member;
use crate::bits::lemma_bits_of_zero;
use crate::bits::lemma_drop_lowest;
use crate::bits::lemma_lowest;
use crate::bits::lowest;
use crate::bits::single;
use crate::bits::bit;
use crate::board::movegen::between_mask;
use crate::board::lines::lemma_between;
use crate::board::lines::lies_between;
use crate::board::movegen::bishop_mask;
use crate::board::movegen::generate_bishop_attacks;
use crate::board::movegen::generate_queen_attacks;
use crate::board::movegen::generate_rook_attacks;
use crate::board::movegen::king_mask;
use crate::board::movegen::knight_mask;
use crate::board::movegen::pawn_mask;
use crate::board::movegen::queen_mask;
use crate::board::movegen::rook_mask;
use crate::board::movegen::StandardBitboards;
use crate::board::uniform_sets;
use crate::board::Board;
use crate::board::Check;
use crate::board::CheckState;
use crate::board::Position;
use crate::types::bitboard::Bitboard;
use crate::types::color::Color;
use crate::types::piece::Piece;
use crate::types::square::Square;

verus! {

/// The squares that a piece of the given kind and colour on `s` attacks on a
/// board with the squares `occ` occupied.
pub open spec fn attacks_of(piece: Piece, color: Color, s: int, occ: u64) -> u64 {
    match piece {
        Piece::Pawn => pawn_mask(color, s),
        Piece::Knight => knight_mask(s),
        Piece::Bishop => bishop_mask(s, occ),
        Piece::Rook => rook_mask(s, occ),
        Piece::Queen => queen_mask(s, occ),
        Piece::King => king_mask(s),
        Piece::Empty => 0,
    }
}

/// The squares on which a check by a piece of the given kind on `s` is
/// answered without moving the king on `king`: the checker's own square, and
/// for a slider the squares between it and the king.
pub open spec fn block_space_of(piece: Piece, s: int, king: int) -> u64 {
    match piece {
        Piece::Pawn | Piece::Knight => single(s),
        Piece::Bishop | Piece::Rook | Piece::Queen => between_mask(s, king) | single(s),
        _ => 0,
    }
}

/// The squares that a slider of the given kind on `s` attacks; nothing for
/// another kind.
pub open spec fn slider_mask(piece: Piece, s: int, occ: u64) -> u64 {
    match piece {
        Piece::Bishop => bishop_mask(s, occ),
        Piece::Rook => rook_mask(s, occ),
        Piece::Queen => queen_mask(s, occ),
        _ => 0,
    }
}

impl Position {
    /// The occupied squares as the other side's sliders see them: without the
    /// king of the side to move, which cannot hide behind itself.
    pub open spec fn seen_occupancy(self) -> u64 {
        self.occupancy() & !self.our(Piece::King)
    }

    /// The index of the square of the king of the side to move, 64 without one.
    pub open spec fn king_square(self) -> int {
        lowest(self.our(Piece::King))
    }

    /// The squares that the other side's sliders occupy.
    pub open spec fn their_sliders(self) -> u64 {
        self.their(Piece::Rook) | self.their(Piece::Bishop) | self.their(Piece::Queen)
    }

    /// What the piece on `s` attacks for the other side.
    pub open spec fn attacks_from(self, s: int) -> u64 {
        attacks_of(self.piece_at(s), self.side.other(), s, self.seen_occupancy())
    }

    /// Whether the piece on `s` gives check.
    pub open spec fn gives_check(self, s: int) -> bool {
        self.attacks_from(s) & self.our(Piece::King) != 0
    }

    /// The check state after the other side's piece on `s` is taken into
    /// account: its attacks join the attacked squares, and if it gives check
    /// it is recorded, in the first slot if that is free, else in the second.
    pub open spec fn check_step(self, acc: CheckState, s: int) -> CheckState {
        let space = Bitboard(acc.check_space.0 | self.attacks_from(s));
        if !self.gives_check(s) {
            CheckState { check_space: space, ..acc }
        } else {
            let check = Check {
                checking_piece: Square::at(s),
                block_space: Bitboard(block_space_of(self.piece_at(s), s, self.king_square())),
            };
            if acc.first.checking_piece == Square::Null {
                CheckState { check_space: space, first: check, second: acc.second }
            } else {
                CheckState { check_space: space, first: acc.first, second: check }
            }
        }
    }

    /// The check state after the pieces on `squares` are taken into account, in order.
    pub open spec fn check_fold(self, squares: Seq<int>) -> CheckState
        decreases squares.len(),
    {
        if squares.len() == 0 {
            CheckState::empty()
        } else {
            self.check_step(self.check_fold(squares.drop_last()), squares.last())
        }
    }

    /// The check state of the position: every piece of the other side is
    /// taken into account, in increasing order of the squares.
    pub open spec fn check_state(self) -> CheckState {
        self.check_fold(bits_of(self.theirs()))
    }

    /// The squares between the slider on `s` and the king that the slider
    /// would attack if only the king stood on the board.
    pub open spec fn pin_ray(self, s: int) -> u64 {
        slider_mask(self.piece_at(s), s, self.our(Piece::King)) & between_mask(
            s,
            self.king_square(),
        )
    }

    /// Whether the slider on `s` pins a piece: exactly one piece of the side
    /// to move, and none of the other side, stands between it and the king.
    pub open spec fn pins(self, s: int) -> bool {
        bits_of(self.pin_ray(s) & self.ours()).len() == 1 && bits_of(
            self.pin_ray(s) & self.theirs(),
        ).len() == 0
    }

    /// The pin state after the slider on `s` is taken into account: the piece
    /// that it pins may only go to the squares between slider and king and to
    /// the slider's own square.
    pub open spec fn pin_step(self, acc: Seq<Bitboard>, s: int) -> Seq<Bitboard> {
        if self.pins(s) {
            acc.update(
                lowest(self.pin_ray(s) & self.ours()),
                Bitboard(self.pin_ray(s) | single(s)),
            )
        } else {
            acc
        }
    }

    /// The pin state after the sliders on `squares` are taken into account, in order.
    pub open spec fn pin_fold(self, squares: Seq<int>) -> Seq<Bitboard>
        decreases squares.len(),
    {
        if squares.len() == 0 {
            Seq::new(64, |i: int| Bitboard(u64::MAX))
        } else {
            self.pin_step(self.pin_fold(squares.drop_last()), squares.last())
        }
    }

    /// The pin state of the position: for each square the squares to which a
    /// piece of the side to move on it is confined, all squares if it is not
    /// pinned.
    pub open spec fn pin_state(self) -> Seq<Bitboard> {
        self.pin_fold(bits_of(self.their_sliders()))
    }

    /// The pin state has an entry for each square.
    pub proof fn lemma_pin_fold_len(self, squares: Seq<int>)
        ensures
            self.pin_fold(squares).len() == 64,
        decreases squares.len(),
    {
        if squares.len() > 0 {
            self.lemma_pin_fold_len(squares.drop_last());
            lemma_bits_of_zero();
            lemma_lowest(self.pin_ray(squares.last()) & self.ours());
        }
    }
}

impl Position {
    /// The check that the piece on `s` gives: its square and the squares on
    /// which the check is answered.
    pub open spec fn check_by(self, s: int) -> Check {
        Check {
            checking_piece: Square::at(s),
            block_space: Bitboard(block_space_of(self.piece_at(s), s, self.king_square())),
        }
    }

    /// The attacked squares of a check state are the squares that the pieces
    /// taken into account attack.
    pub proof fn lemma_check_fold_space(self, squares: Seq<int>)
        ensures
            self.check_fold(squares).check_space.0 == join(squares, |s: int| self.attacks_from(s)),
        decreases squares.len(),
    {
        if squares.len() > 0 {
            self.lemma_check_fold_space(squares.drop_last());
        }
    }

    /// The checks of a check state: none is recorded exactly if no piece taken
    /// into account gives check; the first is the check by the first piece
    /// that gives one; a second is recorded exactly if two pieces give check,
    /// and it is the check by the last of them.
    pub proof fn lemma_check_fold_checks(self, squares: Seq<int>)
        requires
            forall|i: int| 0 <= i < squares.len() ==> 0 <= #[trigger] squares[i] < 64,
        ensures
            self.check_fold(squares).first.checking_piece == Square::Null <==> forall|i: int|
                0 <= i < squares.len() ==> !self.gives_check(#[trigger] squares[i]),
            self.check_fold(squares).first.checking_piece != Square::Null ==> exists|i: int|
                0 <= i < squares.len() && self.gives_check(#[trigger] squares[i])
                    && self.check_fold(squares).first == self.check_by(squares[i]) && forall|
                    j: int,
                | 0 <= j < i ==> !self.gives_check(#[trigger] squares[j]),
            self.check_fold(squares).second.checking_piece != Square::Null <==> exists|
                i: int,
                j: int,
            |
                0 <= i < j < squares.len() && self.gives_check(#[trigger] squares[i])
                    && self.gives_check(#[trigger] squares[j]),
            self.check_fold(squares).second.checking_piece != Square::Null ==> exists|j: int|
                0 <= j < squares.len() && self.gives_check(#[trigger] squares[j])
                    && self.check_fold(squares).second == self.check_by(squares[j]) && forall|
                    l: int,
                | j < l < squares.len() ==> !self.gives_check(#[trigger] squares[l]),
        decreases squares.len(),
    {
        let cs = self.check_fold(squares);
        Square::lemma_at(64);
        Square::lemma_idx_injective(Square::Null, Square::Null);
        if squares.len() > 0 {
            let front = squares.drop_last();
            let last = squares.last();
            let n = squares.len() - 1;
            let before = self.check_fold(front);
            self.lemma_check_fold_checks(front);
            Square::lemma_at(last);
            assert(forall|i: int| 0 <= i < n ==> front[i] == squares[i]);
            assert(squares[n] == last);
            if self.gives_check(last) {
                if before.first.checking_piece == Square::Null {
                    assert(cs.first == self.check_by(squares[n]));
                    assert forall|j: int| 0 <= j < n implies !self.gives_check(
                        #[trigger] squares[j],
                    ) by {
                        assert(!self.gives_check(front[j]));
                    }
                    assert(cs.second.checking_piece == Square::Null);
                    assert forall|i: int, j: int|
                        0 <= i < j < squares.len() && self.gives_check(#[trigger] squares[i])
                            && self.gives_check(#[trigger] squares[j]) implies false by {
                        assert(!self.gives_check(front[i]));
                    }
                } else {
                    let i = choose|i: int|
                        0 <= i < front.len() && self.gives_check(#[trigger] front[i])
                            && before.first == self.check_by(front[i]) && forall|j: int|
                            0 <= j < i ==> !self.gives_check(#[trigger] front[j]);
                    assert(self.gives_check(squares[i]) && cs.first == self.check_by(squares[i]));
                    assert forall|j: int| 0 <= j < i implies !self.gives_check(
                        #[trigger] squares[j],
                    ) by {
                        assert(!self.gives_check(front[j]));
                    }
                    assert(cs.second == self.check_by(squares[n]));
                    assert(self.gives_check(squares[i]) && self.gives_check(squares[n]));
                }
            } else {
                assert(cs.first == before.first && cs.second == before.second);
                if before.first.checking_piece == Square::Null {
                    assert forall|i: int| 0 <= i < squares.len() implies !self.gives_check(
                        #[trigger] squares[i],
                    ) by {
                        if i < n {
                            assert(!self.gives_check(front[i]));
                        }
                    }
                } else {
                    let i = choose|i: int|
                        0 <= i < front.len() && self.gives_check(#[trigger] front[i])
                            && before.first == self.check_by(front[i]) && forall|j: int|
                            0 <= j < i ==> !self.gives_check(#[trigger] front[j]);
                    assert(self.gives_check(squares[i]) && cs.first == self.check_by(squares[i]));
                    assert forall|j: int| 0 <= j < i implies !self.gives_check(
                        #[trigger] squares[j],
                    ) by {
                        assert(!self.gives_check(front[j]));
                    }
                }
                if before.second.checking_piece != Square::Null {
                    let (a, b) = choose|a: int, b: int|
                        0 <= a < b < front.len() && self.gives_check(#[trigger] front[a])
                            && self.gives_check(#[trigger] front[b]);
                    assert(self.gives_check(squares[a]) && self.gives_check(squares[b]));
                    let j = choose|j: int|
                        0 <= j < front.len() && self.gives_check(#[trigger] front[j])
                            && before.second == self.check_by(front[j]) && forall|l: int|
                            j < l < front.len() ==> !self.gives_check(#[trigger] front[l]);
                    assert(self.gives_check(squares[j]) && cs.second == self.check_by(
                        squares[j],
                    ));
                    assert forall|l: int| j < l < squares.len() implies !self.gives_check(
                        #[trigger] squares[l],
                    ) by {
                        if l < n {
                            assert(!self.gives_check(front[l]));
                        }
                    }
                } else {
                    assert forall|a: int, b: int|
                        0 <= a < b < squares.len() && self.gives_check(#[trigger] squares[a])
                            && self.gives_check(#[trigger] squares[b]) implies false by {
                        if b < n {
                            assert(self.gives_check(front[a]) && self.gives_check(front[b]));
                        }
                    }
                }
            }
        }
    }

    /// Whether a piece of the other side stands on `s` and gives check.
    pub open spec fn checks_from(self, s: int) -> bool {
        bit(self.theirs(), s) && self.gives_check(s)
    }

    /// The checks of the position. No check is recorded exactly if no piece of
    /// the other side gives check. The first check is the one from the lowest
    /// square. A second check is recorded exactly if pieces on two squares
    /// give check, and it is the one from the highest square.
    #[verifier::rlimit(30)]
    pub proof fn lemma_checks(self)
        ensures
            self.check_state().first.checking_piece == Square::Null <==> forall|s: int|
                !#[trigger] self.checks_from(s),
            self.check_state().first.checking_piece != Square::Null ==> exists|s: int| #[trigger]
                self.checks_from(s) && self.check_state().first == self.check_by(s) && forall|
                    x: int,
                | x < s ==> !#[trigger] self.checks_from(x),
            self.check_state().second.checking_piece != Square::Null <==> exists|s: int, x: int|
                s != x && #[trigger] self.checks_from(s) && #[trigger] self.checks_from(x),
            self.check_state().second.checking_piece != Square::Null ==> exists|s: int| #[trigger]
                self.checks_from(s) && self.check_state().second == self.check_by(s) && forall|
                    x: int,
                | x > s ==> !#[trigger] self.checks_from(x),
    {
        let squares = bits_of(self.theirs());
        let cs = self.check_state();
        lemma_bits_of_members(self.theirs());
        lemma_bits_of_sorted(self.theirs());
        self.lemma_check_fold_checks(squares);
        if cs.first.checking_piece == Square::Null {
            assert forall|s: int| !#[trigger] self.checks_from(s) by {
                if bit(self.theirs(), s) {
                    let i = choose|i: int| 0 <= i < squares.len() && squares[i] == s;
                    assert(!self.gives_check(squares[i]));
                }
            }
        } else {
            let i = choose|i: int|
                0 <= i < squares.len() && self.gives_check(#[trigger] squares[i]) && cs.first
                    == self.check_by(squares[i]) && forall|j: int|
                    0 <= j < i ==> !self.gives_check(#[trigger] squares[j]);
            let s = squares[i];
            assert(self.checks_from(s));
            assert forall|x: int| x < s implies !#[trigger] self.checks_from(x) by {
                if bit(self.theirs(), x) {
                    let j = choose|j: int| 0 <= j < squares.len() && squares[j] == x;
                    if j >= i {
                        assert(squares[i] <= squares[j]);
                    }
                    assert(!self.gives_check(squares[j]));
                }
            }
        }
        if cs.second.checking_piece != Square::Null {
            let (a, b) = choose|a: int, b: int|
                0 <= a < b < squares.len() && self.gives_check(#[trigger] squares[a])
                    && self.gives_check(#[trigger] squares[b]);
            assert(squares[a] < squares[b]);
            assert(self.checks_from(squares[a]) && self.checks_from(squares[b]));
            let j = choose|j: int|
                0 <= j < squares.len() && self.gives_check(#[trigger] squares[j]) && cs.second
                    == self.check_by(squares[j]) && forall|l: int|
                    j < l < squares.len() ==> !self.gives_check(#[trigger] squares[l]);
            let s = squares[j];
            assert(self.checks_from(s));
            assert forall|x: int| x > s implies !#[trigger] self.checks_from(x) by {
                if bit(self.theirs(), x) {
                    let l = choose|l: int| 0 <= l < squares.len() && squares[l] == x;
                    if l <= j {
                        assert(squares[l] <= squares[j]);
                    }
                    assert(!self.gives_check(squares[l]));
                }
            }
        }
        if exists|s: int, x: int|
            s != x && #[trigger] self.checks_from(s) && #[trigger] self.checks_from(x) {
            let (s, x) = choose|s: int, x: int|
                s != x && #[trigger] self.checks_from(s) && #[trigger] self.checks_from(x);
            let a = choose|a: int| 0 <= a < squares.len() && squares[a] == s;
            let b = choose|b: int| 0 <= b < squares.len() && squares[b] == x;
            if a < b {
                assert(self.gives_check(squares[a]) && self.gives_check(squares[b]));
            } else {
                assert(self.gives_check(squares[b]) && self.gives_check(squares[a]));
            }
        }
    }

    /// Whether the slider of the other side on `s` pins the piece of the side
    /// to move on `q`.
    pub open spec fn pins_square(self, s: int, q: int) -> bool {
        bit(self.their_sliders(), s) && self.pins(s) && lowest(self.pin_ray(s) & self.ours()) == q
    }

    /// The squares to which the slider on `s` confines the piece that it pins:
    /// the squares between it and the king, and its own square.
    pub open spec fn pin_mask(self, s: int) -> Bitboard {
        Bitboard(self.pin_ray(s) | single(s))
    }

    /// The entry of a pin state for the square `q`: all squares if none of the
    /// sliders taken into account pins a piece on `q`, else the squares to
    /// which the last of those that do confines it.
    #[verifier::rlimit(30)]
    pub proof fn lemma_pin_fold_entry(self, squares: Seq<int>, q: int)
        requires
            0 <= q < 64,
        ensures
            (forall|i: int|
                0 <= i < squares.len() ==> !(self.pins(#[trigger] squares[i]) && lowest(
                    self.pin_ray(squares[i]) & self.ours(),
                ) == q)) ==> self.pin_fold(squares)[q] == Bitboard(u64::MAX),
            (exists|i: int|
                0 <= i < squares.len() && self.pins(#[trigger] squares[i]) && lowest(
                    self.pin_ray(squares[i]) & self.ours(),
                ) == q) ==> exists|i: int|
                0 <= i < squares.len() && self.pins(#[trigger] squares[i]) && lowest(
                    self.pin_ray(squares[i]) & self.ours(),
                ) == q && self.pin_fold(squares)[q] == self.pin_mask(squares[i]) && forall|l: int|
                    i < l < squares.len() ==> !(self.pins(#[trigger] squares[l]) && lowest(
                        self.pin_ray(squares[l]) & self.ours(),
                    ) == q),
        decreases squares.len(),
    {
        if squares.len() > 0 {
            let front = squares.drop_last();
            let last = squares.last();
            let n = squares.len() - 1;
            self.lemma_pin_fold_entry(front, q);
            self.lemma_pin_fold_len(front);
            lemma_bits_of_zero();
            lemma_lowest(self.pin_ray(last) & self.ours());
            assert(forall|i: int| 0 <= i < n ==> front[i] == squares[i]);
            assert(squares[n] == last);
            let hit = self.pins(last) && lowest(self.pin_ray(last) & self.ours()) == q;
            if hit {
                assert(self.pin_fold(squares)[q] == self.pin_mask(squares[n]));
            } else {
                assert(self.pin_fold(squares)[q] == self.pin_fold(front)[q]);
                if exists|i: int|
                    0 <= i < squares.len() && self.pins(#[trigger] squares[i]) && lowest(
                        self.pin_ray(squares[i]) & self.ours(),
                    ) == q {
                    let a = choose|i: int|
                        0 <= i < squares.len() && self.pins(#[trigger] squares[i]) && lowest(
                            self.pin_ray(squares[i]) & self.ours(),
                        ) == q;
                    assert(self.pins(front[a]));
                    let i = choose|i: int|
                        0 <= i < front.len() && self.pins(#[trigger] front[i]) && lowest(
                            self.pin_ray(front[i]) & self.ours(),
                        ) == q && self.pin_fold(front)[q] == self.pin_mask(front[i]) && forall|
                            l: int,
                        |
                            i < l < front.len() ==> !(self.pins(#[trigger] front[l]) && lowest(
                                self.pin_ray(front[l]) & self.ours(),
                            ) == q);
                    assert(self.pins(squares[i]) && self.pin_fold(squares)[q] == self.pin_mask(
                        squares[i],
                    ));
                    assert forall|l: int| i < l < squares.len() implies !(self.pins(
                        #[trigger] squares[l],
                    ) && lowest(self.pin_ray(squares[l]) & self.ours()) == q) by {
                        if l < n {
                            assert(!(self.pins(front[l]) && lowest(
                                self.pin_ray(front[l]) & self.ours(),
                            ) == q));
                        }
                    }
                } else {
                    assert forall|i: int| 0 <= i < front.len() implies !(self.pins(
                        #[trigger] front[i],
                    ) && lowest(self.pin_ray(front[i]) & self.ours()) == q) by {
                        assert(front[i] == squares[i]);
                    }
                }
            }
        }
    }

    /// The pin state, square by square: a square on which no slider of the
    /// other side pins a piece has all squares as its entry; a square on which
    /// one does has the squares to which that slider confines the piece, the
    /// slider of the highest square if there are several.
    #[verifier::rlimit(30)]
    pub proof fn lemma_pins(self, q: int)
        requires
            0 <= q < 64,
        ensures
            (forall|s: int| !#[trigger] self.pins_square(s, q)) ==> self.pin_state()[q] == Bitboard(
                u64::MAX,
            ),
            (exists|s: int| #[trigger] self.pins_square(s, q)) ==> exists|s: int| #[trigger]
                self.pins_square(s, q) && self.pin_state()[q] == self.pin_mask(s) && forall|
                    x: int,
                | x > s ==> !#[trigger] self.pins_square(x, q),
    {
        let squares = bits_of(self.their_sliders());
        lemma_bits_of_members(self.their_sliders());
        lemma_bits_of_sorted(self.their_sliders());
        self.lemma_pin_fold_entry(squares, q);
        if forall|s: int| !#[trigger] self.pins_square(s, q) {
            assert forall|i: int| 0 <= i < squares.len() implies !(self.pins(
                #[trigger] squares[i],
            ) && lowest(self.pin_ray(squares[i]) & self.ours()) == q) by {
                assert(!self.pins_square(squares[i], q));
            }
        }
        if exists|s: int| #[trigger] self.pins_square(s, q) {
            let s = choose|s: int| #[trigger] self.pins_square(s, q);
            assert(squares.contains(s));
            let a = choose|a: int| 0 <= a < squares.len() && squares[a] == s;
            assert(self.pins(squares[a]));
            let i = choose|i: int|
                0 <= i < squares.len() && self.pins(#[trigger] squares[i]) && lowest(
                    self.pin_ray(squares[i]) & self.ours(),
                ) == q && self.pin_state()[q] == self.pin_mask(squares[i]) && forall|l: int|
                    i < l < squares.len() ==> !(self.pins(#[trigger] squares[l]) && lowest(
                        self.pin_ray(squares[l]) & self.ours(),
                    ) == q);
            let top = squares[i];
            assert(self.pins_square(top, q));
            assert forall|x: int| x > top implies !#[trigger] self.pins_square(x, q) by {
                if bit(self.their_sliders(), x) {
                    assert(squares.contains(x));
                    let l = choose|l: int| 0 <= l < squares.len() && squares[l] == x;
                    if l <= i {
                        assert(squares[l] <= squares[i]);
                    }
                    assert(!(self.pins(squares[l]) && lowest(self.pin_ray(squares[l]) & self.ours())
                        == q));
                }
            }
        }
    }

    /// A square is attacked exactly if a piece of the other side attacks it,
    /// the king of the side to move taken off the board.
    pub proof fn lemma_check_space(self, t: int)
        ensures
            bit(self.check_state().check_space.0, t) <==> exists|s: int|
                bit(self.theirs(), s) && bit(#[trigger] self.attacks_from(s), t),
    {
        let squares = bits_of(self.theirs());
        let f = |s: int| self.attacks_from(s);
        self.lemma_check_fold_space(squares);
        lemma_join_member(squares, f, t);
        lemma_bits_of_members(self.theirs());
        if bit(self.check_state().check_space.0, t) {
            let i = choose|i: int| 0 <= i < squares.len() && bit(#[trigger] f(squares[i]), t);
            assert(bit(self.theirs(), squares[i]));
            assert(bit(self.attacks_from(squares[i]), t));
        }
        if exists|s: int| bit(self.theirs(), s) && bit(#[trigger] self.attacks_from(s), t) {
            let s = choose|s: int| bit(self.theirs(), s) && bit(#[trigger] self.attacks_from(s), t);
            let i = choose|i: int| 0 <= i < squares.len() && squares[i] == s;
            assert(bit(f(squares[i]), t));
        }
    }
}

impl StandardBitboards {
    /// The squares between two squares, nothing if one of them is `Null`.
    pub fn between_of(&self, a: Square, b: Square) -> (r: Bitboard)
        requires
            self.wf(),
        ensures
            r.0 == between_mask(a.idx(), b.idx()),
            forall|t: int| #[trigger] r.has(t) <==> lies_between(a.idx(), b.idx(), t),
    {
        let i: usize = a.index();
        let j: usize = b.index();
        let r = if i < 64 && j < 64 {
            self.between[i][j]
        } else {
            Bitboard(0)
        };
        assert forall|t: int| #[trigger] r.has(t) <==> lies_between(a.idx(), b.idx(), t) by {
            lemma_between(a.idx(), b.idx(), t);
        }
        r
    }
}

impl Board {
    /// What the piece of the other side on the square attacks, the king of
    /// the side to move taken off the board.
    fn attacks_from(&self, square: Square) -> (b: Bitboard)
        requires
            self.standard_bitboards.wf(),
            square != Square::Null,
        ensures
            b.0 == self.position().attacks_from(square.idx()),
    {
        let s: usize = square.index();
        let them: Color = self.side_to_move.opponent();
        let our_king: u64 = self.our(Piece::King).0;
        let ours: u64 = self.colors[self.side_to_move.index()].0;
        let theirs: u64 = self.colors[them.index()].0;
        let occupancy_bitboard = Bitboard((ours | theirs) & !our_king);
        match self.mailbox[s] {
            Piece::Pawn => self.standard_bitboards.pawn_captures[them.index()][s],
            Piece::Knight => self.standard_bitboards.knight_attacks[s],
            Piece::Bishop => generate_bishop_attacks(&square, &occupancy_bitboard),
            Piece::Rook => generate_rook_attacks(&square, &occupancy_bitboard),
            Piece::Queen => generate_queen_attacks(&square, &occupancy_bitboard),
            Piece::King => self.standard_bitboards.king_attacks[s],
            Piece::Empty => Bitboard(0),
        }
    }

    /// The check state of the position: what the other side attacks, and the
    /// checks on the king of the side to move.
    pub fn calculate_check_state(&self) -> (answer: CheckState)
        requires
            self.standard_bitboards.wf(),
        ensures
            answer == self.position().check_state(),
    {
        let our_king = self.our(Piece::King);
        let king_square = our_king.lsb();
        let mut rest: Bitboard = self.colors[self.side_to_move.opponent().index()];
        let mut answer = CheckState::default();
        let ghost pos = self.position();
        let ghost mut done: Seq<int> = Seq::empty();
        assert(done + rest.squares() =~= rest.squares());
        while !rest.is_empty()
            invariant
                self.standard_bitboards.wf(),
                pos == self.position(),
                our_king.0 == pos.our(Piece::King),
                king_square.idx() == pos.king_square(),
                bits_of(pos.theirs()) == done + rest.squares(),
                answer == pos.check_fold(done),
            decreases rest.0,
        {
            proof {
                lemma_drop_lowest(rest.0);
                lemma_lowest(rest.0);
            }
            let ghost before = rest.squares();
            let square = rest.pop();
            let sq_bb = Bitboard::from(square);
            let piece = self.mailbox[square.index()];
            let check_space = self.attacks_from(square);
            answer.check_space = Bitboard(answer.check_space.0 | check_space.0);
            if check_space.0 & our_king.0 != 0 {
                let between = self.standard_bitboards.between_of(square, king_square);
                let block_space = match piece {
                    Piece::Pawn => sq_bb,
                    Piece::Knight => sq_bb,
                    Piece::Bishop => Bitboard(between.0 | sq_bb.0),
                    Piece::Rook => Bitboard(between.0 | sq_bb.0),
                    Piece::Queen => Bitboard(between.0 | sq_bb.0),
                    Piece::King => Bitboard(0),
                    Piece::Empty => Bitboard(0),
                };
                let check = Check { checking_piece: square, block_space };
                proof {
                    Square::lemma_idx_injective(square, Square::Null);
                }
                if answer.first.checking_piece.index() == 64 {
                    answer.first = check;
                } else {
                    answer.second = check;
                }
            }
            proof {
                let next = done.push(square.idx());
                assert(next.drop_last() =~= done);
                assert(next + rest.squares() =~= done + before);
                done = next;
            }
        }
        proof {
            lemma_bits_of_zero();
            assert(done + rest.squares() =~= done);
        }
        answer
    }

    /// The pin state of the position: for each square, the squares to which a
    /// piece of the side to move on it may go without exposing its king. The
    /// entry does not look at the kind of the piece.
    pub fn calculate_pin_state(&self) -> (pin_spaces: [Bitboard; 64])
        requires
            self.standard_bitboards.wf(),
        ensures
            pin_spaces@ == self.position().pin_state(),
    {
        let their_sliders = Bitboard(
            self.their(Piece::Rook).0 | self.their(Piece::Bishop).0 | self.their(Piece::Queen).0,
        );
        let our_king_bb = self.our(Piece::King);
        let our_king_square = our_king_bb.lsb();
        let universal_bitboard = Bitboard::universal();
        let mut pin_spaces: [Bitboard; 64] = uniform_sets(universal_bitboard);
        let mut rest: Bitboard = their_sliders;
        let ghost pos = self.position();
        let ghost mut done: Seq<int> = Seq::empty();
        assert(done + rest.squares() =~= rest.squares());
        assert(pin_spaces@ =~= pos.pin_fold(done));
        while !rest.is_empty()
            invariant
                self.standard_bitboards.wf(),
                pos == self.position(),
                our_king_bb.0 == pos.our(Piece::King),
                our_king_square.idx() == pos.king_square(),
                bits_of(pos.their_sliders()) == done + rest.squares(),
                pin_spaces@ == pos.pin_fold(done),
            decreases rest.0,
        {
            proof {
                lemma_drop_lowest(rest.0);
                lemma_lowest(rest.0);
                pos.lemma_pin_fold_len(done);
            }
            let ghost before = rest.squares();
            let square = rest.pop();
            let attack_space = match self.mailbox[square.index()] {
                Piece::Bishop => generate_bishop_attacks(&square, &our_king_bb),
                Piece::Rook => generate_rook_attacks(&square, &our_king_bb),
                Piece::Queen => generate_queen_attacks(&square, &our_king_bb),
                _ => Bitboard(0),
            };
            let between_space = Bitboard(
                attack_space.0 & self.standard_bitboards.between_of(square, our_king_square).0,
            );
            let our_betweeners = Bitboard(
                between_space.0 & self.colors[self.side_to_move.index()].0,
            );
            let their_betweeners = Bitboard(
                between_space.0 & self.colors[self.side_to_move.opponent().index()].0,
            );
            if our_betweeners.count() == 1 && their_betweeners.count() == 0 {
                let mut pin_bb = between_space;
                pin_bb.set(square);
                proof {
                    lemma_bits_of_zero();
                }
                let lsb = our_betweeners.lsb();
                pin_spaces[lsb.index()] = pin_bb;
            }
            proof {
                let next = done.push(square.idx());
                assert(next.drop_last() =~= done);
                assert(next + rest.squares() =~= done + before);
                done = next;
            }
        }
        proof {
            lemma_bits_of_zero();
            assert(done + rest.squares() =~= done);
        }
        pin_spaces
    }
}

} // verus!
