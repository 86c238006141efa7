use vstd::prelude::*;
use vstd::std_specs::bits::u64_trailing_zeros;
use vstd::std_specs::bits::axiom_u64_trailing_zeros;

verus! {

/// Whether bit `i` of the word `x` is set. Indices outside `0..64` name no bit.
pub open spec fn bit(x: u64, i: int) -> bool {
    0 <= i < 64 && (x >> (i as u64)) & 1 == 1
}

/// The word with exactly bit `i` set, or zero when `i` names no bit.
pub open spec fn single(i: int) -> u64 {
    if 0 <= i < 64 {
        1u64 << (i as u64)
    } else {
        0
    }
}

/// The index of the lowest set bit of `x`, or 64 when `x` is zero.
pub open spec fn lowest(x: u64) -> int {
    u64_trailing_zeros(x) as int
}

/// The word `x` with its lowest set bit cleared.
pub open spec fn drop_lowest(x: u64) -> u64 {
    if x == 0 {
        0
    } else {
        x & ((x - 1) as u64)
    }
}

/// The set bits of `x` at or above index `i`, in increasing order.
pub open spec fn bits_from(x: u64, i: int) -> Seq<int>
    decreases 64 - i,
{
    if i < 0 || i >= 64 {
        Seq::empty()
    } else if bit(x, i) {
        seq![i] + bits_from(x, i + 1)
    } else {
        bits_from(x, i + 1)
    }
}

/// The set bits of `x`, in increasing order.
pub open spec fn bits_of(x: u64) -> Seq<int> {
    bits_from(x, 0)
}

proof fn bv_pointwise(a: u64, b: u64, i: u64)
    by (bit_vector)
    requires
        i < 64,
    ensures
        ((a | b) >> i) & 1 == 1 <==> ((a >> i) & 1 == 1 || (b >> i) & 1 == 1),
        ((a & b) >> i) & 1 == 1 <==> ((a >> i) & 1 == 1 && (b >> i) & 1 == 1),
        ((a ^ b) >> i) & 1 == 1 <==> ((a >> i) & 1 == 1) != ((b >> i) & 1 == 1),
        ((!a) >> i) & 1 == 1 <==> !((a >> i) & 1 == 1),
        (0u64 >> i) & 1 == 0,
        (0xffff_ffff_ffff_ffffu64 >> i) & 1 == 1,
        (a >> i) & 1 == 0 || (a >> i) & 1 == 1,
{
}

proof fn bv_single(s: u64, i: u64)
    by (bit_vector)
    requires
        s < 64,
        i < 64,
    ensures
        ((1u64 << s) >> i) & 1 == 1 <==> i == s,
{
}

proof fn bv_drop_lowest(x: u64, l: u64, j: u64)
    by (bit_vector)
    requires
        l < 64,
        j < 64,
        (x >> l) & 1 == 1,
        x << ((64 - l) as u64) == 0,
    ensures
        x != 0,
        ((x & ((x - 1) as u64)) >> j) & 1 == 1 <==> (j != l && (x >> j) & 1 == 1),
{
}

/// Membership in a union, an intersection, a symmetric difference and a complement.
pub broadcast proof fn lemma_bit_or(a: u64, b: u64, i: int)
    ensures
        #[trigger] bit(a | b, i) == (bit(a, i) || bit(b, i)),
{
    if 0 <= i < 64 {
        bv_pointwise(a, b, i as u64);
    }
}

pub broadcast proof fn lemma_bit_and(a: u64, b: u64, i: int)
    ensures
        #[trigger] bit(a & b, i) == (bit(a, i) && bit(b, i)),
{
    if 0 <= i < 64 {
        bv_pointwise(a, b, i as u64);
    }
}

pub broadcast proof fn lemma_bit_xor(a: u64, b: u64, i: int)
    ensures
        #[trigger] bit(a ^ b, i) == (0 <= i < 64 && bit(a, i) != bit(b, i)),
{
    if 0 <= i < 64 {
        bv_pointwise(a, b, i as u64);
    }
}

pub broadcast proof fn lemma_bit_not(a: u64, i: int)
    ensures
        #[trigger] bit(!a, i) == (0 <= i < 64 && !bit(a, i)),
{
    if 0 <= i < 64 {
        bv_pointwise(a, a, i as u64);
    }
}

pub broadcast proof fn lemma_bit_zero(i: int)
    ensures
        !#[trigger] bit(0, i),
{
    if 0 <= i < 64 {
        bv_pointwise(0, 0, i as u64);
    }
}

pub broadcast proof fn lemma_bit_full(i: int)
    ensures
        #[trigger] bit(0xffff_ffff_ffff_ffff, i) == (0 <= i < 64),
{
    if 0 <= i < 64 {
        bv_pointwise(0, 0, i as u64);
    }
}

pub broadcast proof fn lemma_bit_single(s: int, i: int)
    ensures
        #[trigger] bit(single(s), i) == (0 <= i < 64 && i == s),
{
    if 0 <= i < 64 {
        if 0 <= s < 64 {
            bv_single(s as u64, i as u64);
        } else {
            bv_pointwise(0, 0, i as u64);
        }
    }
}

pub broadcast group group_bit_lemmas {
    lemma_bit_or,
    lemma_bit_and,
    lemma_bit_xor,
    lemma_bit_not,
    lemma_bit_zero,
    lemma_bit_full,
    lemma_bit_single,
}

/// The lowest set bit of a nonzero word is set, and no bit below it is.
pub proof fn lemma_lowest(x: u64)
    ensures
        0 <= lowest(x) <= 64,
        x == 0 <==> lowest(x) == 64,
        x != 0 ==> bit(x, lowest(x)),
        forall|j: int| 0 <= j < lowest(x) ==> !#[trigger] bit(x, j),
{
    axiom_u64_trailing_zeros(x);
    assert forall|j: int| 0 <= j < lowest(x) implies !#[trigger] bit(x, j) by {
        let k: u64 = j as u64;
        assert((x >> k) & 1u64 == 0u64);
    }
}

/// The lowest bit of a word with one bit is that bit.
pub proof fn lemma_lowest_single(i: int)
    requires
        0 <= i < 64,
    ensures
        single(i) != 0,
        lowest(single(i)) == i,
{
    broadcast use group_bit_lemmas;

    lemma_lowest(single(i));
    assert(bit(single(i), i));
    if single(i) == 0 {
        assert(!bit(0, i));
    }
    assert(bit(single(i), lowest(single(i))));
}

/// Two words with the same bits are the same word.
pub proof fn lemma_bits_equal(a: u64, b: u64)
    requires
        forall|i: int| 0 <= i < 64 ==> #[trigger] bit(a, i) == bit(b, i),
    ensures
        a == b,
{
    broadcast use group_bit_lemmas;

    let d: u64 = a ^ b;
    lemma_lowest(d);
    if d != 0 {
        assert(bit(d, lowest(d)));
        assert(false);
    }
    assert(a ^ b == 0 ==> a == b) by (bit_vector);
}

/// A word is zero exactly when none of its bits is set.
pub proof fn lemma_zero_iff_no_bits(a: u64)
    ensures
        a == 0 <==> (forall|i: int| 0 <= i < 64 ==> !#[trigger] bit(a, i)),
{
    broadcast use group_bit_lemmas;

    if a != 0 {
        lemma_lowest(a);
        assert(bit(a, lowest(a)));
    }
}

/// Clearing the lowest set bit removes exactly that bit.
pub proof fn lemma_drop_lowest(x: u64)
    ensures
        forall|j: int| #[trigger] bit(drop_lowest(x), j) == (bit(x, j) && j != lowest(x)),
        x != 0 ==> drop_lowest(x) < x,
{
    broadcast use group_bit_lemmas;

    lemma_lowest(x);
    axiom_u64_trailing_zeros(x);
    if x != 0 {
        let l: u64 = lowest(x) as u64;
        assert(x << ((64 - l) as u64) == 0);
        assert forall|j: int| #[trigger]
            bit(drop_lowest(x), j) == (bit(x, j) && j != lowest(x)) by {
            if 0 <= j < 64 {
                bv_drop_lowest(x, l, j as u64);
            }
        }
        assert(x & ((x - 1) as u64) < x) by (bit_vector)
            requires
                x != 0,
        ;
    }
}

/// No set bit lies below `i`: listing from `i` is listing from the start.
pub proof fn lemma_bits_from_skip(x: u64, i: int, k: int)
    requires
        0 <= i <= k <= 64,
        forall|j: int| i <= j < k ==> !#[trigger] bit(x, j),
    ensures
        bits_from(x, i) == bits_from(x, k),
    decreases k - i,
{
    if i < k {
        lemma_bits_from_skip(x, i + 1, k);
    }
}

/// Two words that agree from `i` upward list the same bits from `i`.
pub proof fn lemma_bits_from_agree(x: u64, y: u64, i: int)
    requires
        0 <= i <= 64,
        forall|j: int| i <= j < 64 ==> #[trigger] bit(x, j) == bit(y, j),
    ensures
        bits_from(x, i) == bits_from(y, i),
    decreases 64 - i,
{
    if i < 64 {
        lemma_bits_from_agree(x, y, i + 1);
    }
}

/// The bits of a nonzero word are its lowest bit followed by the bits of the rest.
pub proof fn lemma_bits_of_unfold(x: u64)
    requires
        x != 0,
    ensures
        bits_of(x) == seq![lowest(x)] + bits_of(drop_lowest(x)),
{
    lemma_lowest(x);
    lemma_drop_lowest(x);
    let l = lowest(x);
    let y = drop_lowest(x);
    lemma_bits_from_skip(x, 0, l);
    lemma_bits_from_agree(x, y, l + 1);
    lemma_bits_from_skip(y, 0, l + 1);
}

/// Every listed bit is set, lies on the board, and every set bit is listed.
pub proof fn lemma_bits_from_members(x: u64, i: int)
    requires
        0 <= i <= 64,
    ensures
        forall|k: int|
            0 <= k < bits_from(x, i).len() ==> i <= #[trigger] bits_from(x, i)[k] < 64 && bit(
                x,
                bits_from(x, i)[k],
            ),
        forall|j: int| i <= j < 64 && #[trigger] bit(x, j) ==> bits_from(x, i).contains(j),
        bits_from(x, i).len() <= 64 - i,
    decreases 64 - i,
{
    if i < 64 {
        lemma_bits_from_members(x, i + 1);
        let rest = bits_from(x, i + 1);
        if bit(x, i) {
            let s = bits_from(x, i);
            assert(s[0] == i);
            assert forall|j: int| i <= j < 64 && bit(x, j) implies s.contains(j) by {
                if j == i {
                    assert(s[0] == j);
                } else {
                    let k = choose|k: int| 0 <= k < rest.len() && rest[k] == j;
                    assert(s[k + 1] == j);
                }
            }
        }
    }
}

/// The empty word lists no bit.
pub proof fn lemma_bits_of_zero()
    ensures
        bits_of(0) == Seq::<int>::empty(),
{
    broadcast use group_bit_lemmas;

    lemma_bits_from_members(0, 0);
    if bits_of(0).len() > 0 {
        assert(bit(0, bits_of(0)[0]));
    }
    assert(bits_of(0) =~= Seq::<int>::empty());
}

/// What joining or meeting a word with the empty or the full word gives.
pub proof fn lemma_neutral(x: u64)
    by (bit_vector)
    ensures
        x | 0 == x,
        0 | x == x,
        x & 0 == 0,
        0 & x == 0,
        x ^ 0 == x,
        x & !0u64 == x,
        x & 0xffff_ffff_ffff_ffffu64 == x,
        x | x == x,
        x & x == x,
{
}

/// The listed bits increase.
pub proof fn lemma_bits_from_sorted(x: u64, i: int)
    requires
        0 <= i <= 64,
    ensures
        forall|a: int, b: int|
            0 <= a < b < bits_from(x, i).len() ==> bits_from(x, i)[a] < bits_from(x, i)[b],
    decreases 64 - i,
{
    if i < 64 {
        lemma_bits_from_sorted(x, i + 1);
        lemma_bits_from_members(x, i + 1);
        let rest = bits_from(x, i + 1);
        let s = bits_from(x, i);
        if bit(x, i) {
            assert forall|a: int, b: int| 0 <= a < b < s.len() implies s[a] < s[b] by {
                assert(s[b] == rest[b - 1]);
                if a > 0 {
                    assert(s[a] == rest[a - 1]);
                }
            }
        }
    }
}

/// The bits of a word are listed in increasing order.
pub proof fn lemma_bits_of_sorted(x: u64)
    ensures
        forall|a: int, b: int| 0 <= a < b < bits_of(x).len() ==> bits_of(x)[a] < bits_of(x)[b],
{
    lemma_bits_from_sorted(x, 0);
}

/// Every listed bit of a word is set, and every set bit is listed.
pub proof fn lemma_bits_of_members(x: u64)
    ensures
        forall|k: int|
            0 <= k < bits_of(x).len() ==> 0 <= #[trigger] bits_of(x)[k] < 64 && bit(
                x,
                bits_of(x)[k],
            ),
        forall|j: int| #[trigger] bit(x, j) ==> bits_of(x).contains(j),
        bits_of(x).len() <= 64,
{
    lemma_bits_from_members(x, 0);
}

} // verus!
