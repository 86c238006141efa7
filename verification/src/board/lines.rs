use vstd::prelude::*;
use crate::bits::bit;
use crate::bits::group_bit_lemmas;
use crate::bits::lemma_bits_equal;
use crate::bits::lemma_lowest_single;
use crate::bits::lowest;
use crate::bits::single;
use crate::board::geometry::lemma_triangle;
use crate::board::geometry::times;
use crate::board::movegen::between_mask;
use crate::board::movegen::bishop_mask;
use crate::board::movegen::file_of;
use crate::board::movegen::on_board;
use crate::board::movegen::rank_of;
use crate::board::movegen::ray_mask;
use crate::board::movegen::rook_mask;
use crate::board::movegen::safe_step;

verus! {

/// Whether `step` is one of the eight steps of a king: one file, one rank,
/// or both.
pub open spec fn is_king_stride(step: int) -> bool {
    step == 1 || step == -1 || step == 8 || step == -8 || step == 7 || step == -7 || step == 9
        || step == -9
}

/// The files that a king's step crosses: 1 towards the h-file, -1 towards the
/// a-file, 0 along a file.
pub open spec fn stride_files(step: int) -> int {
    if step == 1 || step == 9 || step == -7 {
        1
    } else if step == -1 || step == -9 || step == 7 {
        -1
    } else {
        0
    }
}

/// The ranks that a king's step crosses.
pub open spec fn stride_ranks(step: int) -> int {
    if step == 8 || step == 9 || step == 7 {
        1
    } else if step == -8 || step == -9 || step == -7 {
        -1
    } else {
        0
    }
}

/// `k` king's steps in the direction `step`, as a difference of indices.
pub open spec fn stride(k: int, step: int) -> int {
    times(k, stride_files(step)) + 8 * times(k, stride_ranks(step))
}

/// Whether the square `k` king's steps from `s` in the direction `step` lies
/// on the board and every square on the way to it is empty.
pub open spec fn open_run(s: int, occ: u64, step: int, k: int) -> bool {
    &&& 1 <= k
    &&& 0 <= file_of(s) + times(k, stride_files(step)) < 8
    &&& 0 <= rank_of(s) + times(k, stride_ranks(step)) < 8
    &&& forall|j: int| 1 <= j < k ==> !#[trigger] bit(occ, s + stride(j, step))
}

/// Whether a slider on `s` attacks `t` in the direction of the king's step
/// `step`: `t` lies some steps away in that direction, on the board, and
/// every square before it is empty.
pub open spec fn slides_to(s: int, occ: u64, step: int, t: int) -> bool {
    on_board(s) && exists|k: int|
        1 <= k <= 7 && t == s + stride(k, step) && #[trigger] open_run(s, occ, step, k)
}

/// Whether a rook on `s` attacks `t`: along its rank or its file.
pub open spec fn rook_sees(s: int, occ: u64, t: int) -> bool {
    slides_to(s, occ, 8, t) || slides_to(s, occ, -8, t) || slides_to(s, occ, 1, t) || slides_to(
        s,
        occ,
        -1,
        t,
    )
}

/// Whether a bishop on `s` attacks `t`: along one of its diagonals.
pub open spec fn bishop_sees(s: int, occ: u64, t: int) -> bool {
    slides_to(s, occ, 9, t) || slides_to(s, occ, -9, t) || slides_to(s, occ, 7, t) || slides_to(
        s,
        occ,
        -7,
        t,
    )
}

/// A king's step is safe exactly if it stays on the board, edge to edge and
/// side to side, and it then moves file and rank by its direction.
pub proof fn lemma_safe_stride(s: int, step: int)
    requires
        is_king_stride(step),
        on_board(s),
    ensures
        safe_step(s, step) <==> (0 <= file_of(s) + stride_files(step) < 8 && 0 <= rank_of(s)
            + stride_ranks(step) < 8),
        safe_step(s, step) ==> file_of(s + step) == file_of(s) + stride_files(step) && rank_of(
            s + step,
        ) == rank_of(s) + stride_ranks(step),
{
}

/// An open run of `k` steps ends on a square of the ray.
pub proof fn lemma_ray_reaches(s: int, occ: u64, step: int, k: int)
    requires
        is_king_stride(step),
        on_board(s),
        open_run(s, occ, step, k),
    ensures
        bit(ray_mask(s, occ, step), s + stride(k, step)),
        1 <= k <= 7,
    decreases k,
{
    broadcast use group_bit_lemmas;

    lemma_safe_stride(s, step);
    let to = s + step;
    assert(to == s + stride(1, step));
    if k > 1 {
        assert(!bit(occ, s + stride(1, step)));
        assert(open_run(to, occ, step, k - 1)) by {
            assert forall|j: int| 1 <= j < k - 1 implies !#[trigger] bit(
                occ,
                to + stride(j, step),
            ) by {
                assert(!bit(occ, s + stride(j + 1, step)));
            }
        }
        lemma_ray_reaches(to, occ, step, k - 1);
        assert(s + stride(k, step) == to + stride(k - 1, step));
    }
}

/// Every square of the ray ends an open run.
pub proof fn lemma_ray_only(s: int, occ: u64, step: int, t: int) -> (k: int)
    requires
        is_king_stride(step),
        on_board(s),
        bit(ray_mask(s, occ, step), t),
    ensures
        1 <= k <= 7,
        t == s + stride(k, step),
        open_run(s, occ, step, k),
    decreases
        (if step > 0 {
            64 - s
        } else {
            s + 1
        }),
{
    broadcast use group_bit_lemmas;

    lemma_safe_stride(s, step);
    let to = s + step;
    assert(to == s + stride(1, step));
    if t == to {
        assert(open_run(s, occ, step, 1));
        1
    } else {
        let k = lemma_ray_only(to, occ, step, t);
        assert(open_run(s, occ, step, k + 1)) by {
            assert forall|j: int| 1 <= j < k + 1 implies !#[trigger] bit(
                occ,
                s + stride(j, step),
            ) by {
                if j > 1 {
                    assert(!bit(occ, to + stride(j - 1, step)));
                }
            }
        }
        assert(t == s + stride(k + 1, step));
        k + 1
    }
}

/// The squares of a ray are those that an open run reaches: a slider attacks
/// the square `t` in the direction `step` exactly if `t` lies some steps away
/// in that direction, on the board, with only empty squares before it.
pub proof fn lemma_ray(s: int, occ: u64, step: int, t: int)
    requires
        is_king_stride(step),
    ensures
        bit(ray_mask(s, occ, step), t) <==> slides_to(s, occ, step, t),
{
    broadcast use group_bit_lemmas;

    if on_board(s) {
        if bit(ray_mask(s, occ, step), t) {
            let k = lemma_ray_only(s, occ, step, t);
            assert(open_run(s, occ, step, k));
        }
        if slides_to(s, occ, step, t) {
            let k = choose|k: int|
                1 <= k <= 7 && t == s + stride(k, step) && #[trigger] open_run(s, occ, step, k);
            lemma_ray_reaches(s, occ, step, k);
        }
    }
}

/// What a rook attacks, square by square: the squares of the four open runs
/// along its rank and its file.
pub proof fn lemma_rook(s: int, occ: u64, t: int)
    ensures
        bit(rook_mask(s, occ), t) <==> rook_sees(s, occ, t),
{
    broadcast use group_bit_lemmas;

    lemma_ray(s, occ, 8, t);
    lemma_ray(s, occ, -8, t);
    lemma_ray(s, occ, 1, t);
    lemma_ray(s, occ, -1, t);
}

/// What a bishop attacks, square by square: the squares of the four open
/// runs along its diagonals.
pub proof fn lemma_bishop(s: int, occ: u64, t: int)
    ensures
        bit(bishop_mask(s, occ), t) <==> bishop_sees(s, occ, t),
{
    broadcast use group_bit_lemmas;

    lemma_ray(s, occ, 9, t);
    lemma_ray(s, occ, -9, t);
    lemma_ray(s, occ, 7, t);
    lemma_ray(s, occ, -7, t);
}

/// Between a king's square and the square two files from it on the same
/// rank lies one square, the one next to the king.
#[verifier::rlimit(30)]
pub proof fn lemma_between_castling(king: int, target: int)
    requires
        king == 4 || king == 60,
        target == king + 2 || target == king - 2,
    ensures
        between_mask(king, target) == single((king + target) / 2),
        lowest(between_mask(king, target)) == (king + target) / 2,
{
    broadcast use group_bit_lemmas;

    let mid = (king + target) / 2;
    let a = single(target);
    let b = single(king);
    let toward = target - mid;
    lemma_bishop(king, a, target);
    lemma_rook(king, a, target);
    assert(open_run(king, a, toward, 2)) by {
        assert(king + stride(1, toward) == mid);
    }
    assert(target == king + stride(2, toward));
    assert(slides_to(king, a, toward, target));
    assert(!bit(bishop_mask(king, a), target));
    assert(bit(rook_mask(king, a), target));
    let w = rook_mask(king, a) & rook_mask(target, b);
    assert(between_mask(king, target) == w);
    assert forall|i: int| 0 <= i < 64 implies #[trigger] bit(w, i) == bit(single(mid), i) by {
        lemma_rook(king, a, i);
        lemma_rook(target, b, i);
        if i == mid {
            assert(open_run(king, a, toward, 1));
            assert(open_run(target, b, -toward, 1));
            assert(i == king + stride(1, toward));
            assert(i == target + stride(1, -toward));
            assert(slides_to(king, a, toward, i));
            assert(slides_to(target, b, -toward, i));
        } else if bit(w, i) {
            if slides_to(king, a, toward, i) {
                let k = choose|k: int|
                    1 <= k <= 7 && i == king + stride(k, toward) && #[trigger] open_run(
                        king,
                        a,
                        toward,
                        k,
                    );
                if k > 2 {
                    assert(bit(a, king + stride(2, toward)));
                }
            }
            if slides_to(target, b, -toward, i) {
                let k = choose|k: int|
                    1 <= k <= 7 && i == target + stride(k, -toward) && #[trigger] open_run(
                        target,
                        b,
                        -toward,
                        k,
                    );
                if k > 2 {
                    assert(bit(b, target + stride(2, -toward)));
                }
            }
            assert(false);
        }
    }
    lemma_bits_equal(w, single(mid));
    lemma_lowest_single(mid);
}

/// Whether the square `k` steps from `a` in the direction `step` is one of
/// the squares before the end of a run of `n` steps on the empty board.
pub open spec fn inside_run(a: int, step: int, n: int, k: int) -> bool {
    is_king_stride(step) && 1 <= k < n <= 7 && open_run(a, 0, step, n)
}

/// Whether `t` lies strictly between `a` and `b` on a rank, a file or a
/// diagonal: `b` lies some king's steps from `a` in one direction, and `t`
/// fewer steps in the same direction.
pub open spec fn lies_between(a: int, b: int, t: int) -> bool {
    on_board(a) && on_board(b) && exists|step: int, n: int, k: int| #[trigger]
        inside_run(a, step, n, k) && b == a + stride(n, step) && t == a + stride(k, step)
}

/// Where a run of `k` steps that stays on the board ends: file and rank have
/// each moved `k` times by the direction of the step.
pub proof fn lemma_run_end(s: int, step: int, k: int)
    requires
        is_king_stride(step),
        on_board(s),
        0 <= k <= 7,
        0 <= file_of(s) + times(k, stride_files(step)) < 8,
        0 <= rank_of(s) + times(k, stride_ranks(step)) < 8,
    ensures
        on_board(s + stride(k, step)),
        file_of(s + stride(k, step)) == file_of(s) + times(k, stride_files(step)),
        rank_of(s + stride(k, step)) == rank_of(s) + times(k, stride_ranks(step)),
{
}

/// Whether `t` lies `k` steps from `s` in the direction `step`, all on the board.
pub open spec fn steps_to(s: int, step: int, k: int, t: int) -> bool {
    &&& is_king_stride(step)
    &&& 1 <= k <= 7
    &&& on_board(s)
    &&& on_board(t)
    &&& file_of(t) == file_of(s) + times(k, stride_files(step))
    &&& rank_of(t) == rank_of(s) + times(k, stride_ranks(step))
}

/// A run that is open on some board ends `k` steps away, and is open on the
/// empty board.
pub proof fn lemma_open_run(s: int, occ: u64, step: int, k: int)
    requires
        is_king_stride(step),
        on_board(s),
        open_run(s, occ, step, k),
    ensures
        steps_to(s, step, k, s + stride(k, step)),
        open_run(s, 0, step, k),
        forall|j: int| 1 <= j <= k ==> #[trigger] steps_to(s, step, j, s + stride(j, step)),
{
    broadcast use group_bit_lemmas;

    lemma_run_end(s, step, k);
    assert forall|j: int| 1 <= j <= k implies #[trigger] steps_to(
        s,
        step,
        j,
        s + stride(j, step),
    ) by {
        lemma_run_end(s, step, j);
    }
}

/// Whether the king's step runs along a diagonal, for `diagonal`, or along
/// a rank or a file, for `!diagonal`.
pub open spec fn in_family(step: int, diagonal: bool) -> bool {
    if diagonal {
        step == 9 || step == -9 || step == 7 || step == -7
    } else {
        step == 8 || step == -8 || step == 1 || step == -1
    }
}

/// What a bishop, for `diagonal`, or a rook attacks.
pub open spec fn line_mask(s: int, occ: u64, diagonal: bool) -> u64 {
    if diagonal {
        bishop_mask(s, occ)
    } else {
        rook_mask(s, occ)
    }
}

/// A slider attacks exactly the squares to which it slides in a direction of
/// its family.
pub proof fn lemma_line(s: int, occ: u64, diagonal: bool, t: int)
    ensures
        bit(line_mask(s, occ, diagonal), t) <==> exists|step: int|
            in_family(step, diagonal) && #[trigger] slides_to(s, occ, step, t),
{
    lemma_rook(s, occ, t);
    lemma_bishop(s, occ, t);
    if diagonal {
        if bishop_sees(s, occ, t) {
            if slides_to(s, occ, 9, t) {
            } else if slides_to(s, occ, -9, t) {
            } else if slides_to(s, occ, 7, t) {
            } else {
                assert(slides_to(s, occ, -7, t));
            }
        }
    } else {
        if rook_sees(s, occ, t) {
            if slides_to(s, occ, 8, t) {
            } else if slides_to(s, occ, -8, t) {
            } else if slides_to(s, occ, 1, t) {
            } else {
                assert(slides_to(s, occ, -1, t));
            }
        }
    }
}

/// A square inside a run from `a` to `b` is attacked from both ends, and so
/// is `b` from `a`, when only the other end stands on the board.
pub proof fn lemma_inside_is_seen(a: int, b: int, t: int, step: int, n: int, k: int)
    requires
        on_board(a),
        inside_run(a, step, n, k),
        b == a + stride(n, step),
        t == a + stride(k, step),
    ensures
        slides_to(a, single(b), step, b),
        slides_to(a, single(b), step, t),
        slides_to(b, single(a), -step, t),
        on_board(b),
{
    broadcast use group_bit_lemmas;

    lemma_run_end(a, step, n);
    lemma_run_end(a, step, k);
    assert(open_run(a, single(b), step, n)) by {
        assert forall|j: int| 1 <= j < n implies !#[trigger] bit(
            single(b),
            a + stride(j, step),
        ) by {}
    }
    assert(open_run(a, single(b), step, k)) by {
        assert forall|j: int| 1 <= j < k implies !#[trigger] bit(
            single(b),
            a + stride(j, step),
        ) by {}
    }
    assert(open_run(b, single(a), -step, n - k)) by {
        assert forall|j: int| 1 <= j < n - k implies !#[trigger] bit(
            single(a),
            b + stride(j, -step),
        ) by {}
    }
    assert(t == b + stride(n - k, -step));
}

/// The direction and the number of steps in which a slider attacks a square.
pub proof fn lemma_line_run(s: int, occ: u64, diagonal: bool, t: int) -> (w: (int, int))
    requires
        bit(line_mask(s, occ, diagonal), t),
    ensures
        in_family(w.0, diagonal),
        1 <= w.1 <= 7,
        t == s + stride(w.1, w.0),
        open_run(s, occ, w.0, w.1),
        steps_to(s, w.0, w.1, t),
{
    lemma_line(s, occ, diagonal, t);
    let step = choose|step: int| in_family(step, diagonal) && #[trigger] slides_to(s, occ, step, t);
    let k = choose|k: int|
        1 <= k <= 7 && t == s + stride(k, step) && #[trigger] open_run(s, occ, step, k);
    lemma_run_end(s, step, k);
    (step, k)
}

/// A square that two sliders of one family attack, each standing alone on
/// the board before the other which it attacks, lies between them.
#[verifier::rlimit(30)]
pub proof fn lemma_seen_is_inside(a: int, b: int, t: int, diagonal: bool)
    requires
        on_board(a),
        on_board(b),
        bit(line_mask(a, single(b), diagonal), b),
        bit(line_mask(a, single(b), diagonal), t),
        bit(line_mask(b, single(a), diagonal), t),
    ensures
        lies_between(a, b, t),
{
    let (d1, n) = lemma_line_run(a, single(b), diagonal, b);
    let (d2, k) = lemma_line_run(a, single(b), diagonal, t);
    let (d3, m) = lemma_line_run(b, single(a), diagonal, t);
    lemma_triangle(
        diagonal,
        stride_files(d1),
        stride_ranks(d1),
        n,
        stride_files(d2),
        stride_ranks(d2),
        k,
        stride_files(d3),
        stride_ranks(d3),
        m,
    );
    if d2 == d1 {
        if k > n {
            crate::bits::lemma_bit_single(b, a + stride(n, d2));
            assert(bit(single(b), a + stride(n, d2)));
        }
        assert(open_run(a, 0, d1, n)) by {
            assert forall|j: int| 1 <= j < n implies !#[trigger] bit(0, a + stride(j, d1)) by {
                crate::bits::lemma_bit_zero(a + stride(j, d1));
            }
        }
        assert(inside_run(a, d1, n, k));
    } else {
        assert(d3 == -d1);
        crate::bits::lemma_bit_single(a, b + stride(n, d3));
        assert(bit(single(a), b + stride(n, d3)));
    }
}

/// The table of the squares between two squares holds exactly the squares
/// that lie strictly between them on a rank, a file or a diagonal.
#[verifier::rlimit(30)]
pub proof fn lemma_between(a: int, b: int, t: int)
    ensures
        bit(between_mask(a, b), t) <==> lies_between(a, b, t),
{
    broadcast use group_bit_lemmas;

    if on_board(a) && on_board(b) {
        let diagonal = bit(bishop_mask(a, single(b)), b);
        let straight = bit(rook_mask(a, single(b)), b);
        if bit(between_mask(a, b), t) {
            lemma_seen_is_inside(a, b, t, diagonal);
        }
        if lies_between(a, b, t) {
            let (step, n, k) = choose|step: int, n: int, k: int| #[trigger]
                inside_run(a, step, n, k) && b == a + stride(n, step) && t == a + stride(
                    k,
                    step,
                );
            lemma_inside_is_seen(a, b, t, step, n, k);
            lemma_line(a, single(b), true, b);
            lemma_line(a, single(b), false, b);
            lemma_line(a, single(b), in_family(step, true), t);
            lemma_line(b, single(a), in_family(step, true), t);
            assert(in_family(-step, in_family(step, true)));
            assert(in_family(step, in_family(step, true)));
            if in_family(step, true) {
                assert(diagonal);
            } else {
                if diagonal {
                    let d = choose|d: int|
                        in_family(d, true) && #[trigger] slides_to(a, single(b), d, b);
                    let q = choose|q: int|
                        1 <= q <= 7 && b == a + stride(q, d) && #[trigger] open_run(
                            a,
                            single(b),
                            d,
                            q,
                        );
                    lemma_open_run(a, single(b), d, q);
                    lemma_run_end(a, step, n);
                    assert(false);
                }
                assert(straight);
            }
        }
    } else {
        if lies_between(a, b, t) {
            assert(false);
        }
    }
}

} // verus!
