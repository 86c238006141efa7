use vstd::prelude::*;
use crate::bits::bit;
use crate::bits::group_bit_lemmas;
use crate::types::moves::Move;

verus! {

/// The moves that `f` gives for each element of `xs`, one run after the other.
pub open spec fn gather(xs: Seq<int>, f: spec_fn(int) -> Seq<Move>) -> Seq<Move>
    decreases xs.len(),
{
    if xs.len() == 0 {
        Seq::empty()
    } else {
        gather(xs.drop_last(), f) + f(xs.last())
    }
}

/// The union of the sets that `f` gives for the elements of `xs`.
pub open spec fn join(xs: Seq<int>, f: spec_fn(int) -> u64) -> u64
    decreases xs.len(),
{
    if xs.len() == 0 {
        0
    } else {
        join(xs.drop_last(), f) | f(xs.last())
    }
}

/// Gathering over one more element adds that element's moves at the end.
pub proof fn lemma_gather_push(xs: Seq<int>, x: int, f: spec_fn(int) -> Seq<Move>)
    ensures
        gather(xs.push(x), f) == gather(xs, f) + f(x),
{
    assert(xs.push(x).drop_last() =~= xs);
}

/// Joining over one more element adds that element's set.
pub proof fn lemma_join_push(xs: Seq<int>, x: int, f: spec_fn(int) -> u64)
    ensures
        join(xs.push(x), f) == join(xs, f) | f(x),
{
    assert(xs.push(x).drop_last() =~= xs);
}

/// Every gathered move is one that `f` gives for some element.
pub proof fn lemma_gather_member(xs: Seq<int>, f: spec_fn(int) -> Seq<Move>, k: int)
    requires
        0 <= k < gather(xs, f).len(),
    ensures
        exists|i: int, j: int|
            0 <= i < xs.len() && 0 <= j < f(xs[i]).len() && gather(xs, f)[k] == #[trigger] f(
                xs[i],
            )[j],
    decreases xs.len(),
{
    if xs.len() > 0 {
        let head = gather(xs.drop_last(), f);
        if k < head.len() {
            lemma_gather_member(xs.drop_last(), f, k);
            let (i, j) = choose|i: int, j: int|
                0 <= i < xs.drop_last().len() && 0 <= j < f(xs.drop_last()[i]).len() && head[k]
                    == #[trigger] f(xs.drop_last()[i])[j];
            assert(xs.drop_last()[i] == xs[i]);
            assert(gather(xs, f)[k] == f(xs[i])[j]);
        } else {
            let i = xs.len() - 1;
            let j = k - head.len();
            assert(gather(xs, f)[k] == f(xs[i])[j]);
        }
    }
}

/// A square belongs to the joined set exactly when it belongs to the set of
/// some element.
pub proof fn lemma_join_member(xs: Seq<int>, f: spec_fn(int) -> u64, t: int)
    ensures
        bit(join(xs, f), t) <==> exists|i: int| 0 <= i < xs.len() && bit(#[trigger] f(xs[i]), t),
    decreases xs.len(),
{
    broadcast use group_bit_lemmas;

    if xs.len() > 0 {
        let front = xs.drop_last();
        lemma_join_member(front, f, t);
        if bit(join(xs, f), t) {
            if bit(f(xs.last()), t) {
                assert(bit(f(xs[xs.len() - 1]), t));
            } else {
                let i = choose|i: int| 0 <= i < front.len() && bit(#[trigger] f(front[i]), t);
                assert(bit(f(xs[i]), t));
            }
        }
        if exists|i: int| 0 <= i < xs.len() && bit(#[trigger] f(xs[i]), t) {
            let i = choose|i: int| 0 <= i < xs.len() && bit(#[trigger] f(xs[i]), t);
            if i < xs.len() - 1 {
                assert(bit(f(front[i]), t));
            }
        }
    }
}

/// Gathering holds at most `bound` moves for each element, if `f` gives at
/// most `bound` moves for each of them.
pub proof fn lemma_gather_len(xs: Seq<int>, f: spec_fn(int) -> Seq<Move>, bound: nat)
    requires
        forall|i: int| 0 <= i < xs.len() ==> (#[trigger] f(xs[i])).len() <= bound,
    ensures
        gather(xs, f).len() <= xs.len() * bound,
    decreases xs.len(),
{
    if xs.len() > 0 {
        let front = xs.drop_last();
        assert forall|i: int| 0 <= i < front.len() implies (#[trigger] f(front[i])).len()
            <= bound by {
            assert(front[i] == xs[i]);
        }
        lemma_gather_len(front, f, bound);
        assert(f(xs.last()) == f(xs[xs.len() - 1]));
        assert((xs.len() - 1) * bound + bound == xs.len() * bound) by (nonlinear_arith);
    } else {
        assert(0 * bound == 0) by (nonlinear_arith);
    }
}

/// Every move that `f` gives for an element is gathered.
pub proof fn lemma_gather_contains(xs: Seq<int>, f: spec_fn(int) -> Seq<Move>, i: int, j: int)
    requires
        0 <= i < xs.len(),
        0 <= j < f(xs[i]).len(),
    ensures
        gather(xs, f).contains(f(xs[i])[j]),
    decreases xs.len(),
{
    let front = gather(xs.drop_last(), f);
    if i == xs.len() - 1 {
        assert(gather(xs, f)[front.len() + j] == f(xs[i])[j]);
    } else {
        assert(xs.drop_last()[i] == xs[i]);
        lemma_gather_contains(xs.drop_last(), f, i, j);
        let k = choose|k: int| 0 <= k < front.len() && front[k] == f(xs[i])[j];
        assert(gather(xs, f)[k] == f(xs[i])[j]);
    }
}

} // verus!
