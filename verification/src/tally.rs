//! Sums of sequences of natural numbers, and the facts about them that the
//! counts over a grid rest on.

use vstd::prelude::*;

verus! {

/// The sum of the numbers in `s`.
pub open spec fn sum(s: Seq<nat>) -> nat
    decreases s.len(),
{
    if s.len() == 0 {
        0
    } else {
        sum(s.drop_last()) + s.last()
    }
}

/// Replacing one number changes the sum by the difference.
pub proof fn lemma_sum_update(s: Seq<nat>, i: int, x: nat)
    requires
        0 <= i < s.len(),
    ensures
        sum(s.update(i, x)) + s[i] == sum(s) + x,
    decreases s.len(),
{
    if i == s.len() - 1 {
        assert(s.update(i, x).drop_last() =~= s.drop_last());
    } else {
        lemma_sum_update(s.drop_last(), i, x);
        assert(s.update(i, x).drop_last() =~= s.drop_last().update(i, x));
    }
}

/// No single number exceeds the sum.
pub proof fn lemma_sum_covers(s: Seq<nat>, i: int)
    requires
        0 <= i < s.len(),
    ensures
        s[i] <= sum(s),
{
    lemma_sum_update(s, i, 0);
}

/// Where every number is at most `b`, the sum is at most `len * b`.
pub proof fn lemma_sum_bounded(s: Seq<nat>, b: nat)
    requires
        forall|i: int| 0 <= i < s.len() ==> s[i] <= b,
    ensures
        sum(s) <= s.len() * b,
    decreases s.len(),
{
    if s.len() > 0 {
        lemma_sum_bounded(s.drop_last(), b);
        assert(sum(s) <= (s.len() - 1) * b + b);
        assert((s.len() - 1) * b + b == s.len() * b) by (nonlinear_arith);
    }
}

/// Raising numbers in place never lowers the sum.
pub proof fn lemma_sum_monotone(a: Seq<nat>, b: Seq<nat>)
    requires
        a.len() == b.len(),
        forall|i: int| 0 <= i < a.len() ==> a[i] <= b[i],
    ensures
        sum(a) <= sum(b),
    decreases a.len(),
{
    if a.len() > 0 {
        lemma_sum_monotone(a.drop_last(), b.drop_last());
    }
}

/// The sum is zero exactly when every number is.
pub proof fn lemma_sum_zero(s: Seq<nat>)
    ensures
        sum(s) == 0 <==> forall|i: int| 0 <= i < s.len() ==> s[i] == 0,
    decreases s.len(),
{
    if s.len() > 0 {
        lemma_sum_zero(s.drop_last());
        if sum(s) == 0 {
            assert forall|i: int| 0 <= i < s.len() implies s[i] == 0 by {
                if i < s.len() - 1 {
                    assert(s.drop_last()[i] == s[i]);
                }
            }
        }
        if forall|i: int| 0 <= i < s.len() ==> s[i] == 0 {
            assert forall|i: int| 0 <= i < s.drop_last().len() implies s.drop_last()[i] == 0 by {
                assert(s.drop_last()[i] == s[i]);
            }
            assert(s.last() == 0);
        }
    }
}

/// The sum of a sequence of zeros is zero.
pub proof fn lemma_sum_zeros(s: Seq<nat>)
    requires
        forall|i: int| 0 <= i < s.len() ==> s[i] == 0,
    ensures
        sum(s) == 0,
{
    lemma_sum_zero(s);
}

/// Adding two sequences place by place adds their sums.
pub proof fn lemma_sum_add(a: Seq<nat>, b: Seq<nat>, both: Seq<nat>)
    requires
        a.len() == both.len(),
        b.len() == both.len(),
        forall|i: int| 0 <= i < both.len() ==> both[i] == a[i] + b[i],
    ensures
        sum(both) == sum(a) + sum(b),
    decreases both.len(),
{
    if both.len() > 0 {
        lemma_sum_add(a.drop_last(), b.drop_last(), both.drop_last());
    }
}

/// The sum is the first number plus the sum of the rest.
pub proof fn lemma_sum_first(s: Seq<nat>)
    requires
        s.len() > 0,
    ensures
        sum(s) == s[0] + sum(s.subrange(1, s.len() as int)),
    decreases s.len(),
{
    let rest = s.subrange(1, s.len() as int);
    if s.len() == 1 {
        assert(sum(s.drop_last()) == 0);
        assert(sum(rest) == 0);
    } else {
        lemma_sum_first(s.drop_last());
        assert(rest.drop_last() =~= s.drop_last().subrange(1, s.len() - 1));
        assert(rest.last() == s.last());
        assert(sum(rest) == sum(rest.drop_last()) + rest.last());
        assert(s.drop_last()[0] == s[0]);
    }
}

/// Where `shifted` holds the numbers of `s` moved one place up, a zero
/// coming in at the front and the last number falling off, the sums differ
/// by that last number.
pub proof fn lemma_sum_shifted_up(s: Seq<nat>, shifted: Seq<nat>)
    requires
        s.len() > 0,
        shifted.len() == s.len(),
        shifted[0] == 0,
        forall|i: int| 1 <= i < s.len() ==> shifted[i] == s[i - 1],
    ensures
        sum(shifted) + s.last() == sum(s),
{
    lemma_sum_first(shifted);
    assert(shifted.subrange(1, s.len() as int) =~= s.drop_last());
}

/// Where `shifted` holds the numbers of `s` moved one place down, a zero
/// coming in at the end and the first number falling off, the sums differ
/// by that first number.
pub proof fn lemma_sum_shifted_down(s: Seq<nat>, shifted: Seq<nat>)
    requires
        s.len() > 0,
        shifted.len() == s.len(),
        shifted.last() == 0,
        forall|i: int| 0 <= i < s.len() - 1 ==> shifted[i] == s[i + 1],
    ensures
        sum(shifted) + s[0] == sum(s),
{
    lemma_sum_first(s);
    assert(shifted.drop_last() =~= s.subrange(1, s.len() as int));
}

} // verus!
