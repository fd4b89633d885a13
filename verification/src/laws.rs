//! What holds of every valid ledger, whatever deposits and claims it has seen.

use crate::errors::EventErrors;
use crate::ledger::{claims, percentages, SplitView};
use crate::shares::{
    lemma_percentage_bound, lemma_share_monotone, lemma_shares_conserve,
    lemma_sum_equal_pointwise, lemma_sum_pointwise, lemma_sum_update, shares_of, sum,
};
use anchor_lang::prelude::Pubkey;
use vstd::prelude::*;

verus! {

/// Conservation. While a table sums to 100 and nobody is overpaid, the payouts
/// never exceed what was collected: they stay within what is owed, what is
/// owed stays within what was collected, and what is owed falls short of what
/// was collected by fewer units than there are recipients.
pub proof fn lemma_conservation(split: SplitView)
    requires
        split.table_valid(),
        split.within_shares(),
    ensures
        split.recipients.len() >= 1,
        split.total_claimed() <= split.total_collected,
        split.total_claimed() <= split.total_entitled(),
        split.total_entitled() <= split.total_collected,
        split.total_collected - split.total_entitled() <= split.recipients.len() - 1,
{
    let owed = shares_of(percentages(split.recipients), split.total_collected);
    assert forall|i: int| 0 <= i < split.recipients.len() implies claims(split.recipients)[i]
        <= owed[i] by {
        assert(split.recipients[i].claimed <= split.entitled(i));
    }
    lemma_sum_pointwise(claims(split.recipients), owed);
    lemma_shares_conserve(percentages(split.recipients), split.total_collected);
}

/// A deposit into a valid ledger leaves it valid.
pub proof fn lemma_deposit_keeps_valid(split: SplitView, amount: nat)
    requires
        split.wf(),
        split.deposit_result(amount) is Ok,
    ensures
        split.deposited(amount).wf(),
{
    let after = split.deposited(amount);
    assert forall|i: int| 0 <= i < after.recipients.len() implies after.recipients[i].claimed
        <= #[trigger] after.entitled(i) by {
        assert(split.recipients[i].claimed <= split.entitled(i));
        lemma_share_monotone(
            split.total_collected,
            after.total_collected,
            split.recipients[i].percentage as nat,
        );
    }
}

/// A claim on a valid ledger leaves it valid, raises the sum of payouts by
/// exactly the amount paid, and leaves the claimant with nothing more to claim.
pub proof fn lemma_claim_keeps_valid(split: SplitView, index: nat, claimant: Pubkey)
    requires
        split.wf(),
        split.claim_result(index, claimant) is Ok,
    ensures
        split.is_active,
        split.claimed_by(index as int).wf(),
        split.claimed_by(index as int).total_claimed() == split.total_claimed() + split.claimable(
            index as int,
        ),
        split.claimed_by(index as int).claimable(index as int) == 0,
{
    let i = index as int;
    let after = split.claimed_by(i);
    lemma_conservation(split);
    if !split.is_active {
        lemma_closed_pays_nothing(split, index, claimant);
    }
    assert(split.recipients[i].claimed <= split.entitled(i));
    assert(split.entitled(i) <= split.total_collected) by {
        let p = split.recipients[i].percentage as nat;
        let t = split.total_collected;
        lemma_percentage_bound(percentages(split.recipients), i);
        assert((t * p) / 100 <= t) by (nonlinear_arith)
            requires
                p <= 100,
        ;
    }
    assert(percentages(after.recipients) =~= percentages(split.recipients));
    assert forall|j: int| 0 <= j < after.recipients.len() implies after.recipients[j].claimed
        <= #[trigger] after.entitled(j) by {
        assert(split.recipients[j].claimed <= split.entitled(j));
    }
    assert(claims(after.recipients) =~= claims(split.recipients).update(i, split.entitled(i)));
    lemma_sum_update(claims(split.recipients), i, split.entitled(i));
}

/// Closing a valid ledger leaves it valid.
pub proof fn lemma_close_keeps_valid(split: SplitView, requester: Pubkey)
    requires
        split.wf(),
        split.close_result(requester) is Ok,
    ensures
        split.closed().wf(),
{
    let after = split.closed();
    assert forall|i: int| 0 <= i < after.recipients.len() implies after.recipients[i].claimed
        <= #[trigger] after.entitled(i) by {
        assert(split.recipients[i].claimed <= split.entitled(i));
    }
}

/// A closed ledger pays nothing: whoever claims, on whatever position, is
/// rejected.
pub proof fn lemma_closed_pays_nothing(split: SplitView, index: nat, claimant: Pubkey)
    requires
        split.wf(),
        !split.is_active,
    ensures
        split.claim_result(index, claimant) is Err,
{
    if index < split.recipients.len() {
        let owed = shares_of(percentages(split.recipients), split.total_collected);
        lemma_conservation(split);
        assert forall|i: int| 0 <= i < split.recipients.len() implies claims(split.recipients)[i]
            <= owed[i] by {
            assert(split.recipients[i].claimed <= split.entitled(i));
        }
        lemma_sum_equal_pointwise(claims(split.recipients), owed);
        assert(claims(split.recipients)[index as int] == owed[index as int]);
    }
}

/// Two claims in a row on the same position, with no deposit in between: when
/// the recorded wallet claims while something is owed to it, the first claim
/// pays a positive amount, and the second is rejected because nothing is left
/// to claim.
pub proof fn lemma_claim_twice(split: SplitView, index: nat, claimant: Pubkey)
    requires
        split.wf(),
        index < split.recipients.len(),
        split.recipients[index as int].wallet == claimant,
        split.recipients[index as int].claimed < split.entitled(index as int),
    ensures
        split.claim_result(index, claimant) == Ok::<(SplitView, nat), EventErrors>(
            (split.claimed_by(index as int), split.claimable(index as int)),
        ),
        split.claimable(index as int) > 0,
        split.claimed_by(index as int).claim_result(index, claimant) == Err::<
            (SplitView, nat),
            EventErrors,
        >(EventErrors::NothingToClaim),
{
    lemma_claim_keeps_valid(split, index, claimant);
}

/// The residue blocks closure. The creator can close a valid ledger exactly
/// when every recipient has been paid all it is owed and the shares left no
/// remainder: what the floors leave over is never handed out, and a ledger
/// that holds any of it stays open.
pub proof fn lemma_close_needs_no_residue(split: SplitView)
    requires
        split.wf(),
    ensures
        split.close_result(split.creator) is Ok <==> (split.total_entitled()
            == split.total_collected && forall|i: int|
            0 <= i < split.recipients.len() ==> #[trigger] split.claimable(i) == 0),
{
    let owed = shares_of(percentages(split.recipients), split.total_collected);
    let paid = claims(split.recipients);
    lemma_conservation(split);
    assert forall|i: int| 0 <= i < split.recipients.len() implies paid[i] <= owed[i] by {
        assert(split.recipients[i].claimed <= split.entitled(i));
    }
    if split.close_result(split.creator) is Ok {
        lemma_sum_equal_pointwise(paid, owed);
        assert forall|i: int| 0 <= i < split.recipients.len() implies #[trigger] split.claimable(i)
            == 0 by {
            assert(paid[i] == owed[i]);
        }
    }
    if split.total_entitled() == split.total_collected && (forall|i: int|
        0 <= i < split.recipients.len() ==> #[trigger] split.claimable(i) == 0) {
        assert forall|i: int| 0 <= i < split.recipients.len() implies owed[i] <= paid[i] by {
            assert(split.claimable(i) == 0);
            assert(split.recipients[i].claimed <= split.entitled(i));
        }
        lemma_sum_pointwise(owed, paid);
    }
}

/// A claim never pays more than the floor of the claimant's percentage of
/// everything collected, less what the claimant was paid before.
pub proof fn lemma_claim_bounded(split: SplitView, index: nat, claimant: Pubkey)
    requires
        split.wf(),
        split.claim_result(index, claimant) is Ok,
    ensures
        split.claim_result(index, claimant).unwrap().1 == (split.total_collected
            * split.recipients[index as int].percentage) / 100
            - split.recipients[index as int].claimed,
{
    assert(split.recipients[index as int].claimed <= split.entitled(index as int));
}

/// Deposits add up: after a run of deposits the total has grown by their sum,
/// and nothing else has changed.
pub proof fn lemma_deposits_add_up(split: SplitView, amounts: Seq<nat>)
    ensures
        split.after_deposits(amounts) == split.deposited(sum(amounts)),
    decreases amounts.len(),
{
    if amounts.len() > 0 {
        lemma_deposits_add_up(split, amounts.drop_last());
    }
}

/// In a valid ledger whose total is the sum of the deposits `amounts`, what a
/// claim pays and what the claimant was paid before add up to the floor of the
/// claimant's percentage of that sum.
pub proof fn lemma_claim_bounded_by_deposits(
    split: SplitView,
    amounts: Seq<nat>,
    index: nat,
    claimant: Pubkey,
)
    requires
        split.wf(),
        split.total_collected == sum(amounts),
        split.claim_result(index, claimant) is Ok,
    ensures
        split.claim_result(index, claimant).unwrap().1 + split.recipients[index as int].claimed
            == (sum(amounts) * split.recipients[index as int].percentage) / 100,
{
    lemma_claim_bounded(split, index, claimant);
}

/// Whatever a valid ledger accepts, its source, creator and recipient table
/// stay as they were, and neither the total nor any recipient's payouts go
/// down.
pub proof fn lemma_steps_only_grow(
    split: SplitView,
    amount: nat,
    index: nat,
    claimant: Pubkey,
    requester: Pubkey,
)
    requires
        split.wf(),
    ensures
        split.deposit_result(amount) is Ok ==> split.grows_into(
            split.deposit_result(amount).unwrap(),
        ),
        split.claim_result(index, claimant) is Ok ==> split.grows_into(
            split.claim_result(index, claimant).unwrap().0,
        ),
        split.close_result(requester) is Ok ==> split.grows_into(
            split.close_result(requester).unwrap(),
        ),
{
    if split.claim_result(index, claimant) is Ok {
        lemma_claim_keeps_valid(split, index, claimant);
        assert(split.recipients[index as int].claimed <= split.entitled(index as int));
    }
}

/// A closed ledger stays as it is: it rejects every deposit and every claim,
/// and closing it again changes nothing.
pub proof fn lemma_closed_is_final(
    split: SplitView,
    amount: nat,
    index: nat,
    claimant: Pubkey,
    requester: Pubkey,
)
    requires
        split.wf(),
        !split.is_active,
    ensures
        split.deposit_result(amount) == Err::<SplitView, EventErrors>(EventErrors::LedgerInactive),
        split.claim_result(index, claimant) is Err,
        split.close_result(requester) is Ok ==> split.close_result(requester).unwrap() == split,
{
    lemma_closed_pays_nothing(split, index, claimant);
}

/// A claim by anyone but the wallet recorded at a valid position is rejected as
/// unauthorized.
pub proof fn lemma_claim_needs_recipient(split: SplitView, index: nat, claimant: Pubkey)
    requires
        index < split.recipients.len(),
        split.recipients[index as int].wallet != claimant,
    ensures
        split.claim_result(index, claimant) == Err::<(SplitView, nat), EventErrors>(
            EventErrors::UnauthorizedRecipient,
        ),
{
}

/// Once every recipient has claimed all it is owed, what remains in a valid
/// ledger is fewer units than there are recipients.
pub proof fn lemma_residue_after_full_claims(split: SplitView)
    requires
        split.wf(),
        forall|i: int| 0 <= i < split.recipients.len() ==> #[trigger] split.claimable(i) == 0,
    ensures
        split.total_claimed() <= split.total_collected,
        split.total_collected - split.total_claimed() <= split.recipients.len() - 1,
{
    let owed = shares_of(percentages(split.recipients), split.total_collected);
    lemma_conservation(split);
    assert forall|i: int| 0 <= i < split.recipients.len() implies owed[i] <= claims(
        split.recipients,
    )[i] by {
        assert(split.claimable(i) == 0);
        assert(split.recipients[i].claimed <= split.entitled(i));
    }
    lemma_sum_pointwise(owed, claims(split.recipients));
}

} // verus!
