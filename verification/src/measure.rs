use vstd::prelude::*;

verus! {

/// The sum of a sequence of natural numbers.
pub open spec fn sum_of(s: Seq<nat>) -> nat
    decreases s.len(),
{
    if s.len() == 0 {
        0
    } else {
        sum_of(s.drop_last()) + s.last()
    }
}

/// `m` is the largest element of `s`, or 0 when `s` is empty.
pub open spec fn is_max_of(s: Seq<nat>, m: int) -> bool {
    &&& forall|i: int| 0 <= i < s.len() ==> #[trigger] s[i] <= m
    &&& s.len() == 0 ==> m == 0
    &&& s.len() > 0 ==> exists|i: int| 0 <= i < s.len() && #[trigger] s[i] == m
}

/// `m` is the smallest element of `s`, or 0 when `s` is empty.
pub open spec fn is_min_of(s: Seq<nat>, m: int) -> bool {
    &&& forall|i: int| 0 <= i < s.len() ==> m <= #[trigger] s[i]
    &&& s.len() == 0 ==> m == 0
    &&& s.len() > 0 ==> exists|i: int| 0 <= i < s.len() && #[trigger] s[i] == m
}

/// Appending an element adds it to the sum.
pub proof fn lemma_sum_push(s: Seq<nat>, x: nat)
    ensures
        sum_of(s.push(x)) == sum_of(s) + x,
{
    assert(s.push(x).drop_last() =~= s);
}

/// Each element is at most the sum.
pub proof fn lemma_sum_bounds_element(s: Seq<nat>, i: int)
    requires
        0 <= i < s.len(),
    ensures
        s[i] <= sum_of(s),
    decreases s.len(),
{
    if i < s.len() - 1 {
        lemma_sum_bounds_element(s.drop_last(), i);
    }
}

/// The sum of a prefix is at most the whole sum.
pub proof fn lemma_sum_prefix(s: Seq<nat>, n: int)
    requires
        0 <= n <= s.len(),
    ensures
        sum_of(s.take(n)) <= sum_of(s),
    decreases s.len(),
{
    if n < s.len() {
        assert(s.drop_last().take(n) =~= s.take(n));
        lemma_sum_prefix(s.drop_last(), n);
    } else {
        assert(s.take(n) =~= s);
    }
}

} // verus!
