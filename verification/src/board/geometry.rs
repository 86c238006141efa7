use vstd::prelude::*;

verus! {

/// `k` times a direction of -1, 0 or 1.
pub open spec fn times(k: int, direction: int) -> int {
    if direction == 1 {
        k
    } else if direction == -1 {
        -k
    } else {
        0
    }
}

/// Whether `(x, y)` is the direction of a king's step along a diagonal, for
/// `diagonal`, or along a rank or a file.
pub open spec fn is_direction(x: int, y: int, diagonal: bool) -> bool {
    &&& -1 <= x <= 1
    &&& -1 <= y <= 1
    &&& if diagonal {
        x != 0 && y != 0
    } else {
        (x == 0) != (y == 0)
    }
}

/// Three runs in directions of one family that close a triangle lie on one
/// line: if `n` steps in the first direction and then `m` steps in the third
/// lead where `k` steps in the second lead, then either the second direction
/// is the first and the third is the first or its opposite, or the second and
/// the third are both opposite to the first.
pub proof fn lemma_triangle(
    diagonal: bool,
    x1: int,
    y1: int,
    n: int,
    x2: int,
    y2: int,
    k: int,
    x3: int,
    y3: int,
    m: int,
)
    requires
        is_direction(x1, y1, diagonal),
        is_direction(x2, y2, diagonal),
        is_direction(x3, y3, diagonal),
        1 <= n <= 7,
        1 <= k <= 7,
        1 <= m <= 7,
        times(n, x1) + times(m, x3) == times(k, x2),
        times(n, y1) + times(m, y3) == times(k, y2),
    ensures
        (x2 == x1 && y2 == y1 && k != n) || (x2 == -x1 && y2 == -y1 && x3 == -x1 && y3 == -y1 && m
            == n + k),
{
}

} // verus!
