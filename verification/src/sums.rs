//! Weighted sums over sequences.
//!
//! `seq_sum(s, f)` adds `f(x)` over every element `x` of `s`. The engine uses
//! it to measure objective sequences (total price, earned amount, refundable
//! deposits, completed count) and the token uses it for the total supply held
//! across all accounts.

use vstd::prelude::*;

verus! {

/// The sum of `f(x)` over the elements `x` of `s`, in order.
pub open spec fn seq_sum<A>(s: Seq<A>, f: spec_fn(A) -> int) -> int
    decreases s.len(),
{
    if s.len() == 0 {
        0
    } else {
        seq_sum(s.drop_last(), f) + f(s.last())
    }
}

/// Appending one element adds its weight.
pub proof fn lemma_seq_sum_push<A>(s: Seq<A>, f: spec_fn(A) -> int, x: A)
    ensures
        seq_sum(s.push(x), f) == seq_sum(s, f) + f(x),
{
    assert(s.push(x).drop_last() =~= s);
}

/// Extending a prefix by one element adds that element's weight.
pub proof fn lemma_seq_sum_take_step<A>(s: Seq<A>, f: spec_fn(A) -> int, i: int)
    requires
        0 <= i < s.len(),
    ensures
        seq_sum(s.take(i + 1), f) == seq_sum(s.take(i), f) + f(s[i]),
{
    assert(s.take(i + 1).drop_last() =~= s.take(i));
    assert(s.take(i + 1).last() == s[i]);
}

/// The whole sequence is its own full prefix.
pub proof fn lemma_seq_sum_take_all<A>(s: Seq<A>, f: spec_fn(A) -> int)
    ensures
        seq_sum(s.take(s.len() as int), f) == seq_sum(s, f),
{
    assert(s.take(s.len() as int) =~= s);
}

/// Replacing the element at `i` shifts the sum by the difference in weight.
pub proof fn lemma_seq_sum_update<A>(s: Seq<A>, f: spec_fn(A) -> int, i: int, x: A)
    requires
        0 <= i < s.len(),
    ensures
        seq_sum(s.update(i, x), f) == seq_sum(s, f) - f(s[i]) + f(x),
    decreases s.len(),
{
    let t = s.update(i, x);
    if i == s.len() - 1 {
        assert(t.drop_last() =~= s.drop_last());
    } else {
        assert(t.drop_last() =~= s.drop_last().update(i, x));
        lemma_seq_sum_update(s.drop_last(), f, i, x);
    }
}

/// Sequences whose elements weigh the same, position by position, sum the
/// same.
pub proof fn lemma_seq_sum_pointwise<A, B>(
    s1: Seq<A>,
    s2: Seq<B>,
    f: spec_fn(A) -> int,
    g: spec_fn(B) -> int,
)
    requires
        s1.len() == s2.len(),
        forall|i: int| 0 <= i < s1.len() ==> f(s1[i]) == g(s2[i]),
    ensures
        seq_sum(s1, f) == seq_sum(s2, g),
    decreases s1.len(),
{
    if s1.len() > 0 {
        lemma_seq_sum_pointwise(s1.drop_last(), s2.drop_last(), f, g);
    }
}

/// All weights zero gives sum zero.
pub proof fn lemma_seq_sum_zero<A>(s: Seq<A>, f: spec_fn(A) -> int)
    requires
        forall|i: int| 0 <= i < s.len() ==> f(s[i]) == 0,
    ensures
        seq_sum(s, f) == 0,
    decreases s.len(),
{
    if s.len() > 0 {
        lemma_seq_sum_zero(s.drop_last(), f);
    }
}

/// With nonnegative weights, a prefix sums to at most the whole.
pub proof fn lemma_seq_sum_take_le<A>(s: Seq<A>, f: spec_fn(A) -> int, i: int)
    requires
        0 <= i <= s.len(),
        forall|j: int| 0 <= j < s.len() ==> f(s[j]) >= 0,
    ensures
        seq_sum(s.take(i), f) <= seq_sum(s, f),
    decreases s.len() - i,
{
    if i == s.len() {
        lemma_seq_sum_take_all(s, f);
    } else {
        lemma_seq_sum_take_step(s, f, i);
        lemma_seq_sum_take_le(s, f, i + 1);
    }
}

/// A pointwise bound on the weights bounds the sums.
pub proof fn lemma_seq_sum_le<A>(s: Seq<A>, f: spec_fn(A) -> int, g: spec_fn(A) -> int)
    requires
        forall|i: int| 0 <= i < s.len() ==> f(s[i]) <= g(s[i]),
    ensures
        seq_sum(s, f) <= seq_sum(s, g),
    decreases s.len(),
{
    if s.len() > 0 {
        lemma_seq_sum_le(s.drop_last(), f, g);
    }
}

/// Nonnegative weights give a nonnegative sum.
pub proof fn lemma_seq_sum_nonneg<A>(s: Seq<A>, f: spec_fn(A) -> int)
    requires
        forall|i: int| 0 <= i < s.len() ==> f(s[i]) >= 0,
    ensures
        seq_sum(s, f) >= 0,
    decreases s.len(),
{
    if s.len() > 0 {
        lemma_seq_sum_nonneg(s.drop_last(), f);
    }
}

/// With nonnegative weights, each element's weight is at most the sum.
pub proof fn lemma_seq_sum_elem_le<A>(s: Seq<A>, f: spec_fn(A) -> int, i: int)
    requires
        0 <= i < s.len(),
        forall|j: int| 0 <= j < s.len() ==> f(s[j]) >= 0,
    ensures
        f(s[i]) <= seq_sum(s, f),
    decreases s.len(),
{
    if i == s.len() - 1 {
        lemma_seq_sum_nonneg(s.drop_last(), f);
    } else {
        lemma_seq_sum_elem_le(s.drop_last(), f, i);
    }
}

} // verus!
