//! Sums over integer sequences, with the facts the ledger and the queue
//! distributor need: how a sum reacts to `push`, `update` and `remove`, and
//! elementwise bounds.

use vstd::prelude::*;

verus! {

pub open spec fn sum_ints(s: Seq<int>) -> int
    decreases s.len(),
{
    if s.len() == 0 {
        0
    } else {
        sum_ints(s.drop_last()) + s.last()
    }
}

pub proof fn lemma_sum_push(s: Seq<int>, x: int)
    ensures
        sum_ints(s.push(x)) == sum_ints(s) + x,
{
    assert(s.push(x).drop_last() =~= s);
}

pub proof fn lemma_sum_update(s: Seq<int>, i: int, x: int)
    requires
        0 <= i < s.len(),
    ensures
        sum_ints(s.update(i, x)) == sum_ints(s) - s[i] + x,
    decreases s.len(),
{
    if i == s.len() - 1 {
        assert(s.update(i, x).drop_last() =~= s.drop_last());
    } else {
        assert(s.update(i, x).drop_last() =~= s.drop_last().update(i, x));
        lemma_sum_update(s.drop_last(), i, x);
    }
}

/// If every element is at most `b`, the sum is at most `b` per element.
pub proof fn lemma_sum_upper(s: Seq<int>, b: int)
    requires
        forall|i: int| 0 <= i < s.len() ==> s[i] <= b,
    ensures
        sum_ints(s) <= b * s.len(),
    decreases s.len(),
{
    if s.len() > 0 {
        lemma_sum_upper(s.drop_last(), b);
        assert(b * s.len() == b * (s.len() - 1) + b) by (nonlinear_arith);
    }
}

/// With nonnegative elements, the sum of a prefix never exceeds the whole.
pub proof fn lemma_sum_take_le(s: Seq<int>, i: int)
    requires
        0 <= i <= s.len(),
        forall|k: int| 0 <= k < s.len() ==> s[k] >= 0,
    ensures
        sum_ints(s.take(i)) <= sum_ints(s),
    decreases s.len() - i,
{
    if i == s.len() {
        assert(s.take(i) =~= s);
    } else {
        assert(s.take(i + 1).drop_last() =~= s.take(i));
        assert(s.take(i + 1).last() == s[i]);
        lemma_sum_take_le(s, i + 1);
    }
}

/// If every element is at least `m`, the sum is at least `m` per element.
pub proof fn lemma_sum_lower(s: Seq<int>, m: int)
    requires
        forall|i: int| 0 <= i < s.len() ==> s[i] >= m,
    ensures
        sum_ints(s) >= m * s.len(),
    decreases s.len(),
{
    if s.len() > 0 {
        lemma_sum_lower(s.drop_last(), m);
        assert(m * s.len() == m * (s.len() - 1) + m) by (nonlinear_arith);
    }
}

} // verus!
