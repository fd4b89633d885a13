//! The rounding policy of the ledger: a recipient with `percentage` percent is
//! owed the floor of that percentage of everything collected so far. What the
//! floors leave over stays in the ledger.

use vstd::prelude::*;

verus! {

/// The cumulative amount owed to a recipient holding `percentage` percent once
/// `total` has been collected.
pub open spec fn share_of(total: nat, percentage: nat) -> nat {
    (total * percentage) / 100
}

/// The sum of a sequence of amounts.
pub open spec fn sum(amounts: Seq<nat>) -> nat
    decreases amounts.len(),
{
    if amounts.len() == 0 {
        0
    } else {
        sum(amounts.drop_last()) + amounts.last()
    }
}

/// The shares owed to each of a list of percentages once `total` has been
/// collected.
pub open spec fn shares_of(percentages: Seq<nat>, total: nat) -> Seq<nat> {
    Seq::new(percentages.len(), |i: int| share_of(total, percentages[i]))
}

/// Computes a recipient's cumulative share in double width, so that the
/// product cannot overflow before the division.
pub fn entitled_share(total_collected: u64, percentage: u8) -> (share: u64)
    requires
        percentage <= 100,
    ensures
        share == share_of(total_collected as nat, percentage as nat),
        share <= total_collected,
{
    assert((total_collected as u128) * (percentage as u128) <= 100 * (total_collected as u128))
        by (nonlinear_arith)
        requires
            percentage <= 100,
    ;
    let wide: u128 = (total_collected as u128) * (percentage as u128);
    let share: u128 = wide / 100;
    share as u64
}

/// A share never shrinks when more is collected.
pub proof fn lemma_share_monotone(earlier: nat, later: nat, percentage: nat)
    requires
        earlier <= later,
    ensures
        share_of(earlier, percentage) <= share_of(later, percentage),
{
    assert(earlier * percentage <= later * percentage) by (nonlinear_arith)
        requires
            earlier <= later,
    ;
    assert((earlier * percentage) / 100 <= (later * percentage) / 100) by (nonlinear_arith)
        requires
            earlier * percentage <= later * percentage,
    ;
}

/// Extending a prefix by one element adds that element to the sum.
pub proof fn lemma_sum_step(amounts: Seq<nat>, i: int)
    requires
        0 <= i < amounts.len(),
    ensures
        sum(amounts.take(i + 1)) == sum(amounts.take(i)) + amounts[i],
{
    assert(amounts.take(i + 1).drop_last() =~= amounts.take(i));
}

/// The sum of a prefix is at most the sum of the whole.
pub proof fn lemma_sum_prefix(amounts: Seq<nat>, i: int)
    requires
        0 <= i <= amounts.len(),
    ensures
        sum(amounts.take(i)) <= sum(amounts),
    decreases amounts.len(),
{
    if i == amounts.len() {
        assert(amounts.take(i) =~= amounts);
    } else {
        lemma_sum_prefix(amounts.drop_last(), i);
        assert(amounts.drop_last().take(i) =~= amounts.take(i));
    }
}

/// A sequence that is pointwise below another has the smaller sum.
pub proof fn lemma_sum_pointwise(lower: Seq<nat>, upper: Seq<nat>)
    requires
        lower.len() == upper.len(),
        forall|i: int| 0 <= i < lower.len() ==> lower[i] <= upper[i],
    ensures
        sum(lower) <= sum(upper),
    decreases lower.len(),
{
    if lower.len() > 0 {
        lemma_sum_pointwise(lower.drop_last(), upper.drop_last());
    }
}

/// A sequence that is pointwise below another, yet sums to no less, is that
/// other sequence.
pub proof fn lemma_sum_equal_pointwise(lower: Seq<nat>, upper: Seq<nat>)
    requires
        lower.len() == upper.len(),
        forall|i: int| 0 <= i < lower.len() ==> lower[i] <= upper[i],
        sum(upper) <= sum(lower),
    ensures
        lower =~= upper,
    decreases lower.len(),
{
    if lower.len() > 0 {
        lemma_sum_pointwise(lower.drop_last(), upper.drop_last());
        lemma_sum_equal_pointwise(lower.drop_last(), upper.drop_last());
        assert(lower.last() == upper.last());
        assert(lower =~= lower.drop_last().push(lower.last()));
        assert(upper =~= upper.drop_last().push(upper.last()));
    }
}

/// Replacing one element changes the sum by the difference.
pub proof fn lemma_sum_update(amounts: Seq<nat>, i: int, value: nat)
    requires
        0 <= i < amounts.len(),
    ensures
        sum(amounts.update(i, value)) + amounts[i] == sum(amounts) + value,
    decreases amounts.len(),
{
    let changed = amounts.update(i, value);
    if i == amounts.len() - 1 {
        assert(changed.drop_last() =~= amounts.drop_last());
    } else {
        lemma_sum_update(amounts.drop_last(), i, value);
        assert(changed.drop_last() =~= amounts.drop_last().update(i, value));
    }
}

/// Floors lose less than one unit per recipient: a hundred times the shares,
/// plus at most 99 for each percentage, make up the percentages' part of the
/// total.
pub proof fn lemma_shares_residue(percentages: Seq<nat>, total: nat)
    ensures
        100 * sum(shares_of(percentages, total)) <= total * sum(percentages),
        total * sum(percentages) <= 100 * sum(shares_of(percentages, total)) + 99
            * percentages.len(),
    decreases percentages.len(),
{
    if percentages.len() > 0 {
        let front = percentages.drop_last();
        let p = percentages.last();
        lemma_shares_residue(front, total);
        assert(shares_of(percentages, total).drop_last() =~= shares_of(front, total));
        assert(shares_of(percentages, total).last() == share_of(total, p));
        let s = share_of(total, p);
        assert(100 * s <= total * p && total * p <= 100 * s + 99) by (nonlinear_arith)
            requires
                s == (total * p) / 100,
        ;
        assert(total * (sum(front) + p) == total * sum(front) + total * p)
            by (nonlinear_arith);
    } else {
        assert(total * 0 == 0) by (nonlinear_arith);
    }
}

/// When the percentages sum to 100, the shares never exceed the total, and
/// fall short of it by fewer units than there are recipients.
pub proof fn lemma_shares_conserve(percentages: Seq<nat>, total: nat)
    requires
        sum(percentages) == 100,
    ensures
        percentages.len() >= 1,
        sum(shares_of(percentages, total)) <= total,
        total - sum(shares_of(percentages, total)) <= percentages.len() - 1,
{
    lemma_shares_residue(percentages, total);
    let owed = sum(shares_of(percentages, total));
    let n = percentages.len();
    assert(owed <= total && total - owed <= n - 1 && n >= 1) by (nonlinear_arith)
        requires
            100 * owed <= total * 100,
            total * 100 <= 100 * owed + 99 * n,
            sum(percentages) == 100,
            n == 0 ==> sum(percentages) == 0,
    ;
}

/// In a list of amounts that sums to at most 100, no entry is above 100.
pub proof fn lemma_percentage_bound(all: Seq<nat>, i: int)
    requires
        0 <= i < all.len(),
        sum(all) <= 100,
    ensures
        all[i] <= 100,
{
    lemma_sum_step(all, i);
    lemma_sum_prefix(all, i + 1);
}

} // verus!
