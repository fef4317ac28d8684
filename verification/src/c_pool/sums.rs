use vstd::prelude::*;

verus! {

/// The sum of the items of `s`.
pub open spec fn sum(s: Seq<int>) -> int
    decreases s.len(),
{
    if s.len() == 0 {
        0
    } else {
        sum(s.drop_last()) + s.last()
    }
}

/// An item added at the end adds itself to the sum.
pub proof fn lemma_sum_push(s: Seq<int>, v: int)
    ensures
        sum(s.push(v)) == sum(s) + v,
{
    assert(s.push(v).drop_last() =~= s);
}

/// An item that is replaced changes the sum by the difference.
pub proof fn lemma_sum_update(s: Seq<int>, i: int, v: int)
    requires
        0 <= i < s.len(),
    ensures
        sum(s.update(i, v)) == sum(s) - s[i] + v,
    decreases s.len(),
{
    if i == s.len() - 1 {
        assert(s.update(i, v).drop_last() =~= s.drop_last());
    } else {
        lemma_sum_update(s.drop_last(), i, v);
        assert(s.update(i, v).drop_last() =~= s.drop_last().update(i, v));
    }
}

/// Where no item is negative, no item is above the sum.
pub proof fn lemma_sum_bounds(s: Seq<int>, i: int)
    requires
        forall|j: int| 0 <= j < s.len() ==> s[j] >= 0,
        0 <= i < s.len(),
    ensures
        0 <= s[i] <= sum(s),
    decreases s.len(),
{
    lemma_sum_nonnegative(s.drop_last());
    if i < s.len() - 1 {
        lemma_sum_bounds(s.drop_last(), i);
    }
}

/// Where no item is negative, the sum is not.
pub proof fn lemma_sum_nonnegative(s: Seq<int>)
    requires
        forall|j: int| 0 <= j < s.len() ==> s[j] >= 0,
    ensures
        0 <= sum(s),
    decreases s.len(),
{
    if s.len() > 0 {
        lemma_sum_nonnegative(s.drop_last());
    }
}

} // verus!
