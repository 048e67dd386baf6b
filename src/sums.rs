//! Weighted sums over sequences, and how they change under the edits the
//! ledger performs.
use vstd::prelude::*;

verus! {

/// The sum of `w` over the elements of `s`.
pub open spec fn sum_of<A>(s: Seq<A>, w: spec_fn(A) -> int) -> int
    decreases s.len(),
{
    if s.len() == 0 {
        0
    } else {
        sum_of(s.drop_last(), w) + w(s.last())
    }
}

pub proof fn lemma_sum_push<A>(s: Seq<A>, v: A, w: spec_fn(A) -> int)
    ensures
        sum_of(s.push(v), w) == sum_of(s, w) + w(v),
{
    assert(s.push(v).drop_last() =~= s);
}

pub proof fn lemma_sum_concat<A>(a: Seq<A>, b: Seq<A>, w: spec_fn(A) -> int)
    ensures
        sum_of(a + b, w) == sum_of(a, w) + sum_of(b, w),
    decreases b.len(),
{
    if b.len() == 0 {
        assert(a + b =~= a);
    } else {
        lemma_sum_concat(a, b.drop_last(), w);
        assert((a + b).drop_last() =~= a + b.drop_last());
    }
}

/// Splits a sum around the element at `i`.
pub proof fn lemma_sum_split<A>(s: Seq<A>, i: int, w: spec_fn(A) -> int)
    requires
        0 <= i < s.len(),
    ensures
        sum_of(s, w) == sum_of(s.take(i), w) + w(s[i]) + sum_of(s.skip(i + 1), w),
{
    assert(s =~= s.take(i).push(s[i]) + s.skip(i + 1));
    lemma_sum_concat(s.take(i).push(s[i]), s.skip(i + 1), w);
    lemma_sum_push(s.take(i), s[i], w);
}

pub proof fn lemma_sum_update<A>(s: Seq<A>, i: int, v: A, w: spec_fn(A) -> int)
    requires
        0 <= i < s.len(),
    ensures
        sum_of(s.update(i, v), w) == sum_of(s, w) - w(s[i]) + w(v),
{
    let t = s.update(i, v);
    lemma_sum_split(s, i, w);
    lemma_sum_split(t, i, w);
    assert(t.take(i) =~= s.take(i));
    assert(t.skip(i + 1) =~= s.skip(i + 1));
}

pub proof fn lemma_sum_remove<A>(s: Seq<A>, i: int, w: spec_fn(A) -> int)
    requires
        0 <= i < s.len(),
    ensures
        sum_of(s.remove(i), w) == sum_of(s, w) - w(s[i]),
{
    lemma_sum_split(s, i, w);
    assert(s.remove(i) =~= s.take(i) + s.skip(i + 1));
    lemma_sum_concat(s.take(i), s.skip(i + 1), w);
}

pub proof fn lemma_sum_zero<A>(s: Seq<A>, w: spec_fn(A) -> int)
    requires
        forall|j: int| 0 <= j < s.len() ==> w(#[trigger] s[j]) == 0,
    ensures
        sum_of(s, w) == 0,
    decreases s.len(),
{
    if s.len() > 0 {
        lemma_sum_zero(s.drop_last(), w);
        assert(w(s[s.len() - 1]) == 0);
    }
}

pub proof fn lemma_sum_nonneg<A>(s: Seq<A>, w: spec_fn(A) -> int)
    requires
        forall|x: A| #[trigger] w(x) >= 0,
    ensures
        sum_of(s, w) >= 0,
    decreases s.len(),
{
    if s.len() > 0 {
        lemma_sum_nonneg(s.drop_last(), w);
        assert(w(s.last()) >= 0);
    }
}

/// Where `i` is the only element of nonzero weight, the sum is its weight.
pub proof fn lemma_sum_single<A>(s: Seq<A>, i: int, w: spec_fn(A) -> int)
    requires
        0 <= i < s.len(),
        forall|j: int| 0 <= j < s.len() && j != i ==> w(#[trigger] s[j]) == 0,
    ensures
        sum_of(s, w) == w(s[i]),
{
    lemma_sum_split(s, i, w);
    let a = s.take(i);
    let b = s.skip(i + 1);
    assert forall|j: int| 0 <= j < a.len() implies w(#[trigger] a[j]) == 0 by {
        assert(a[j] == s[j]);
    }
    assert forall|j: int| 0 <= j < b.len() implies w(#[trigger] b[j]) == 0 by {
        assert(b[j] == s[j + i + 1]);
    }
    lemma_sum_zero(a, w);
    lemma_sum_zero(b, w);
}

/// With weights that are never negative, one element weighs no more than the sum.
pub proof fn lemma_sum_bound<A>(s: Seq<A>, i: int, w: spec_fn(A) -> int)
    requires
        0 <= i < s.len(),
        forall|x: A| #[trigger] w(x) >= 0,
    ensures
        w(s[i]) <= sum_of(s, w),
{
    lemma_sum_split(s, i, w);
    lemma_sum_nonneg(s.take(i), w);
    lemma_sum_nonneg(s.skip(i + 1), w);
}

} // verus!
