use vstd::prelude::*;
use crate::bits::bit;
use crate::bits::lemma_neutral;
use crate::bits::single;
use crate::board::lines::bishop_sees;
use crate::board::lines::lemma_bishop;
use crate::board::lines::lemma_rook;
use crate::board::lines::rook_sees;
use crate::board::movegen::bishop_mask;
use crate::board::movegen::file_of;
use crate::board::movegen::on_board;
use crate::board::movegen::queen_mask;
use crate::board::movegen::ray_mask;
use crate::board::movegen::rook_mask;
use crate::board::movegen::safe_step;
use crate::board::movegen::test_bit;
use crate::types::bitboard::Bitboard;
use crate::types::square::Square;

verus! {

/// The squares that a walk from `s` in steps of `offset` visits: each further
/// square of the board that `allowed` admits, up to and including the first
/// occupied one. A step of 0 goes nowhere.
pub open spec fn walk_mask(s: int, occ: u64, offset: int, allowed: spec_fn(Square) -> bool) -> u64
    decreases
        (if offset > 0 {
            64 - s
        } else {
            s + 1
        }),
{
    let to = s + offset;
    if offset == 0 || !on_board(s) || !on_board(to) || !allowed(Square::at(to)) {
        0
    } else if bit(occ, to) {
        single(to)
    } else {
        single(to) | walk_mask(to, occ, offset, allowed)
    }
}

/// Whether a walk that steps by `offset` has not run over the edge of the
/// board when it arrives on the square: a step towards the h-file must not
/// arrive on the a-file, nor a step towards the a-file on the h-file.
pub open spec fn arrives(offset: int, square: Square) -> bool {
    let file = file_of(square.idx());
    if offset == 1 || offset == 9 || offset == -7 {
        file != 0
    } else if offset == -1 || offset == -9 || offset == 7 {
        file != 7
    } else {
        true
    }
}

/// A walk along a rank, a file or a diagonal that a step over the edge ends
/// is the ray in that direction.
pub proof fn lemma_walk_is_ray(s: int, occ: u64, offset: int)
    requires
        offset == 1 || offset == -1 || offset == 8 || offset == -8 || offset == 7 || offset == -7
            || offset == 9 || offset == -9,
    ensures
        walk_mask(s, occ, offset, |square: Square| arrives(offset, square)) == ray_mask(
            s,
            occ,
            offset,
        ),
    decreases
        (if offset > 0 {
            64 - s
        } else {
            s + 1
        }),
{
    let to = s + offset;
    Square::lemma_at(to);
    if on_board(s) && on_board(to) {
        if safe_step(s, offset) && !bit(occ, to) {
            lemma_walk_is_ray(to, occ, offset);
        }
    }
}

/// Whether the test `predicate` computes `meaning`: whatever it returns for a
/// square is what `meaning` says of the square.
pub open spec fn computes<T: Fn(Square) -> bool>(
    predicate: T,
    meaning: spec_fn(Square) -> bool,
) -> bool {
    forall|s: Square, r: bool| #[trigger] predicate.ensures((s,), r) ==> r == meaning(s)
}

/// The squares that a walk from the square in steps of `offset` visits on a
/// board with the given squares occupied: the walk goes on while it stays on
/// the board and `predicate` admits the square it arrives on, and it ends on
/// the first occupied square, which belongs to the result.
pub fn ray_bitboard<T: Fn(Square) -> bool>(
    square: &Square,
    occupancy: &Bitboard,
    offset: i8,
    predicate: T,
) -> (b: Bitboard)
    requires
        forall|s: Square| predicate.requires((s,)),
    ensures
        forall|meaning: spec_fn(Square) -> bool|
            computes(predicate, meaning) ==> b.0 == #[trigger] walk_mask(
                square.idx(),
                occupancy.0,
                offset as int,
                meaning,
            ),
{
    let oc: u64 = occupancy.0;
    let mut dir_bitboard: u64 = 0;
    if offset == 0 {
        return Bitboard(0);
    }
    proof {
        lemma_neutral(0);
        Square::lemma_idx_injective(*square, Square::Null);
        assert forall|meaning: spec_fn(Square) -> bool| computes(predicate, meaning) implies 0
            | #[trigger] walk_mask(square.idx(), oc, offset as int, meaning) == walk_mask(
            square.idx(),
            oc,
            offset as int,
            meaning,
        ) by {
            lemma_neutral(walk_mask(square.idx(), oc, offset as int, meaning));
        }
    }
    let mut from: Square = *square;
    loop
        invariant_except_break
            offset != 0,
            forall|s: Square| predicate.requires((s,)),
            dir_bitboard | 0 == dir_bitboard,
            forall|meaning: spec_fn(Square) -> bool|
                computes(predicate, meaning) ==> dir_bitboard | #[trigger] walk_mask(
                    from.idx(),
                    oc,
                    offset as int,
                    meaning,
                ) == walk_mask(square.idx(), oc, offset as int, meaning),
        ensures
            forall|meaning: spec_fn(Square) -> bool|
                computes(predicate, meaning) ==> dir_bitboard == #[trigger] walk_mask(
                    square.idx(),
                    oc,
                    offset as int,
                    meaning,
                ),
        decreases
            (if offset > 0 {
                64 - from.idx()
            } else {
                from.idx() + 1
            }),
    {
        let current_square: Square = from.shift(offset);
        proof {
            Square::lemma_idx_injective(from, Square::Null);
            Square::lemma_idx_injective(current_square, Square::Null);
            Square::lemma_at(from.idx() + offset);
            Square::lemma_idx_injective(current_square, Square::at(from.idx() + offset));
        }
        if current_square.index() >= 64 {
            proof {
                assert forall|meaning: spec_fn(Square) -> bool|
                    computes(predicate, meaning) implies dir_bitboard == #[trigger] walk_mask(
                    square.idx(),
                    oc,
                    offset as int,
                    meaning,
                ) by {
                    assert(walk_mask(from.idx(), oc, offset as int, meaning) == 0);
                }
            }
            break ;
        }
        let admitted = predicate(current_square);
        if !admitted {
            proof {
                assert forall|meaning: spec_fn(Square) -> bool|
                    computes(predicate, meaning) implies dir_bitboard == #[trigger] walk_mask(
                    square.idx(),
                    oc,
                    offset as int,
                    meaning,
                ) by {
                    assert(walk_mask(from.idx(), oc, offset as int, meaning) == 0);
                }
            }
            break ;
        }
        let ghost before = dir_bitboard;
        let cur_bb: u64 = 1u64 << (current_square.index() as u64);
        dir_bitboard = dir_bitboard | cur_bb;
        let occupied = test_bit(oc, current_square.index());
        proof {
            lemma_neutral(dir_bitboard);
            assert forall|meaning: spec_fn(Square) -> bool|
                computes(predicate, meaning) implies (if occupied {
                dir_bitboard
            } else {
                dir_bitboard | #[trigger] walk_mask(
                    current_square.idx(),
                    oc,
                    offset as int,
                    meaning,
                )
            }) == walk_mask(square.idx(), oc, offset as int, meaning) by {
                let rest = walk_mask(current_square.idx(), oc, offset as int, meaning);
                assert(before | (cur_bb | rest) == (before | cur_bb) | rest) by (bit_vector);
                assert(meaning(current_square));
                assert(before | walk_mask(from.idx(), oc, offset as int, meaning) == walk_mask(
                    square.idx(),
                    oc,
                    offset as int,
                    meaning,
                ));
            }
        }
        if occupied {
            break ;
        }
        from = current_square;
    }
    Bitboard(dir_bitboard)
}

fn on_the_board(square: Square) -> (r: bool)
    ensures
        r == arrives(8, square),
{
    true
}

fn off_the_a_file(square: Square) -> (r: bool)
    ensures
        r == arrives(1, square),
{
    square.file() != 0
}

fn off_the_h_file(square: Square) -> (r: bool)
    ensures
        r == arrives(-1, square),
{
    square.file() != 7
}

/// The squares to which a rook on the square may move or which it guards.
pub fn generate_rook_moves(square: &Square, occupancy: &Bitboard) -> (b: Bitboard)
    ensures
        b.0 == rook_mask(square.idx(), occupancy.0),
        forall|t: int| #[trigger] b.has(t) <==> rook_sees(square.idx(), occupancy.0, t),
{
    let north_bitboard = ray_bitboard(square, occupancy, 8, on_the_board);
    let south_bitboard = ray_bitboard(square, occupancy, -8, on_the_board);
    let east_bitboard = ray_bitboard(square, occupancy, 1, off_the_a_file);
    let west_bitboard = ray_bitboard(square, occupancy, -1, off_the_h_file);
    proof {
        let s = square.idx();
        let occ = occupancy.0;
        assert forall|t: int| #[trigger] bit(rook_mask(s, occ), t) <==> rook_sees(s, occ, t) by {
            lemma_rook(s, occ, t);
        }
        lemma_walk_is_ray(s, occ, 8);
        lemma_walk_is_ray(s, occ, -8);
        lemma_walk_is_ray(s, occ, 1);
        lemma_walk_is_ray(s, occ, -1);
        assert(computes(on_the_board, |square: Square| arrives(8, square)));
        assert(computes(on_the_board, |square: Square| arrives(-8, square)));
        assert(computes(off_the_a_file, |square: Square| arrives(1, square)));
        assert(computes(off_the_h_file, |square: Square| arrives(-1, square)));
    }
    Bitboard(north_bitboard.0 | south_bitboard.0 | east_bitboard.0 | west_bitboard.0)
}

/// The squares to which a bishop on the square may move or which it guards.
pub fn generate_bishop_moves(square: &Square, occupancy: &Bitboard) -> (b: Bitboard)
    ensures
        b.0 == bishop_mask(square.idx(), occupancy.0),
        forall|t: int| #[trigger] b.has(t) <==> bishop_sees(square.idx(), occupancy.0, t),
{
    let ne_bitboard = ray_bitboard(square, occupancy, 9, off_the_a_file);
    let sw_bitboard = ray_bitboard(square, occupancy, -9, off_the_h_file);
    let nw_bitboard = ray_bitboard(square, occupancy, 7, off_the_h_file);
    let se_bitboard = ray_bitboard(square, occupancy, -7, off_the_a_file);
    proof {
        let s = square.idx();
        let occ = occupancy.0;
        assert forall|t: int| #[trigger]
            bit(bishop_mask(s, occ), t) <==> bishop_sees(s, occ, t) by {
            lemma_bishop(s, occ, t);
        }
        lemma_walk_is_ray(s, occ, 9);
        lemma_walk_is_ray(s, occ, -9);
        lemma_walk_is_ray(s, occ, 7);
        lemma_walk_is_ray(s, occ, -7);
        assert(computes(off_the_a_file, |square: Square| arrives(9, square)));
        assert(computes(off_the_h_file, |square: Square| arrives(-9, square)));
        assert(computes(off_the_h_file, |square: Square| arrives(7, square)));
        assert(computes(off_the_a_file, |square: Square| arrives(-7, square)));
    }
    Bitboard(ne_bitboard.0 | sw_bitboard.0 | nw_bitboard.0 | se_bitboard.0)
}

/// The squares to which a queen on the square may move or which it guards:
/// a rook's and a bishop's.
pub fn generate_queen_moves(square: &Square, occupancy: &Bitboard) -> (b: Bitboard)
    ensures
        b.0 == queen_mask(square.idx(), occupancy.0),
        forall|t: int| #[trigger]
            b.has(t) <==> rook_sees(square.idx(), occupancy.0, t) || bishop_sees(
                square.idx(),
                occupancy.0,
                t,
            ),
{
    let rook = generate_rook_moves(square, occupancy);
    let bishop = generate_bishop_moves(square, occupancy);
    let queen = Bitboard(rook.0 | bishop.0);
    assert forall|t: int| #[trigger]
        queen.has(t) <==> rook_sees(square.idx(), occupancy.0, t) || bishop_sees(
            square.idx(),
            occupancy.0,
            t,
        ) by {
        crate::bits::lemma_bit_or(rook.0, bishop.0, t);
        assert(queen.has(t) == (rook.has(t) || bishop.has(t)));
    }
    queen
}

} // verus!
