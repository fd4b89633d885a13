//! The operations on a ledger: creation, deposit, claim and closure, and the
//! check that a stored ledger is valid.

use crate::errors::EventErrors;
use crate::identity::same_key;
use crate::laws::{
    lemma_claim_keeps_valid, lemma_close_keeps_valid, lemma_conservation,
    lemma_deposit_keeps_valid,
};
use crate::ledger::{
    claims, fresh_recipients, input_percentages, percentages, DepositEvent, Recipient,
    RecipientInput, RoyaltySplit, SplitView,
};
use crate::shares::{entitled_share, lemma_percentage_bound, lemma_sum_prefix, lemma_sum_step, sum};
use anchor_lang::prelude::Pubkey;
use vstd::prelude::*;

verus! {

/// Creates the ledger of the revenue source `nft_mint`, owned by `creator`,
/// with nothing collected and nothing claimed. The proposal is rejected unless
/// its percentages sum to exactly 100.
pub fn initialize_split(
    nft_mint: Pubkey,
    creator: Pubkey,
    recipients_data: Vec<RecipientInput>,
    bump: u8,
) -> (created: Result<RoyaltySplit, EventErrors>)
    ensures
        match created {
            Ok(split) => {
                &&& sum(input_percentages(recipients_data@)) == 100
                &&& split@ == SplitView::fresh(nft_mint, creator, recipients_data@, bump)
                &&& split.wf()
            },
            Err(e) => {
                &&& sum(input_percentages(recipients_data@)) != 100
                &&& e == EventErrors::SumExceed100Error
            },
        },
{
    let n: usize = recipients_data.len();
    let mut recipients: Vec<Recipient> = Vec::new();
    let mut i: usize = 0;
    while i < n
        invariant
            i <= n,
            n == recipients_data.len(),
            recipients@ =~= fresh_recipients(recipients_data@).take(i as int),
        decreases n - i,
    {
        let input: RecipientInput = recipients_data[i];
        recipients.push(
            Recipient { wallet: input.wallet, percentage: input.percentage, claimed: 0 },
        );
        i += 1;
    }
    proof {
        assert(recipients@ =~= fresh_recipients(recipients_data@));
        assert(percentages(recipients@) =~= input_percentages(recipients_data@));
    }
    if !table_sums_to_hundred(&recipients) {
        return Err(EventErrors::SumExceed100Error);
    }
    let split = RoyaltySplit {
        nft_mint,
        creator,
        recipients,
        total_collected: 0,
        is_active: true,
        bump,
    };
    Ok(split)
}

/// Whether the percentages of a recipient table sum to exactly 100.
pub fn table_sums_to_hundred(recipients: &Vec<Recipient>) -> (valid: bool)
    ensures
        valid == (sum(percentages(recipients@)) == 100),
{
    let ghost all = percentages(recipients@);
    let n: usize = recipients.len();
    let mut total: u8 = 0;
    let mut i: usize = 0;
    while i < n
        invariant
            i <= n,
            n == recipients.len(),
            all == percentages(recipients@),
            total <= 100,
            total as nat == sum(all.take(i as int)),
        decreases n - i,
    {
        let p: u8 = recipients[i].percentage;
        proof {
            lemma_sum_step(all, i as int);
            lemma_sum_prefix(all, i + 1);
        }
        if p > 100 - total {
            return false;
        }
        total = total + p;
        i += 1;
    }
    proof {
        assert(all.take(n as int) =~= all);
    }
    total == 100
}

/// Records a deposit of `amount` by `depositor` and returns the notification
/// to publish. A closed ledger, or a total that would leave the range of the
/// counter, rejects the deposit and changes nothing.
pub fn deposit_royalty(
    royalty_split: &mut RoyaltySplit,
    depositor: Pubkey,
    amount: u64,
) -> (done: Result<DepositEvent, EventErrors>)
    requires
        old(royalty_split).wf(),
    ensures
        final(royalty_split).wf(),
        match done {
            Ok(event) => {
                &&& old(royalty_split)@.deposit_result(amount as nat) == Ok::<
                    SplitView,
                    EventErrors,
                >(final(royalty_split)@)
                &&& event.nft_mint == old(royalty_split).nft_mint
                &&& event.amount == amount
                &&& event.depositor == depositor
            },
            Err(e) => {
                &&& old(royalty_split)@.deposit_result(amount as nat) == Err::<
                    SplitView,
                    EventErrors,
                >(e)
                &&& *final(royalty_split) == *old(royalty_split)
            },
        },
{
    if !royalty_split.is_active {
        return Err(EventErrors::LedgerInactive);
    }
    if amount > u64::MAX - royalty_split.total_collected {
        return Err(EventErrors::Overflow);
    }
    proof {
        lemma_deposit_keeps_valid(royalty_split@, amount as nat);
    }
    royalty_split.total_collected = royalty_split.total_collected + amount;
    Ok(DepositEvent { nft_mint: royalty_split.nft_mint, amount, depositor })
}

/// Pays the recipient at `recipient_index` everything it is owed and has not
/// yet been paid, and returns the amount. The claim is rejected, and changes
/// nothing, when the index is no position of the table, when `claimant` is not
/// the wallet recorded there, or when nothing is left to claim.
pub fn claim_share(
    royalty_split: &mut RoyaltySplit,
    claimant: Pubkey,
    recipient_index: u64,
) -> (paid: Result<u64, EventErrors>)
    requires
        old(royalty_split).wf(),
    ensures
        final(royalty_split).wf(),
        match paid {
            Ok(amount) => {
                &&& old(royalty_split)@.claim_result(recipient_index as nat, claimant) == Ok::<
                    (SplitView, nat),
                    EventErrors,
                >((final(royalty_split)@, amount as nat))
                &&& amount > 0
            },
            Err(e) => {
                &&& old(royalty_split)@.claim_result(recipient_index as nat, claimant) == Err::<
                    (SplitView, nat),
                    EventErrors,
                >(e)
                &&& *final(royalty_split) == *old(royalty_split)
            },
        },
{
    let n: usize = royalty_split.recipients.len();
    if recipient_index >= n as u64 {
        return Err(EventErrors::InvalidRecipientIndex);
    }
    let index: usize = recipient_index as usize;
    let recipient: Recipient = royalty_split.recipients[index];
    if !same_key(&recipient.wallet, &claimant) {
        return Err(EventErrors::UnauthorizedRecipient);
    }
    proof {
        lemma_percentage_bound(percentages(royalty_split@.recipients), index as int);
        assert(recipient.claimed <= royalty_split@.entitled(index as int));
    }
    let total_share: u64 = entitled_share(royalty_split.total_collected, recipient.percentage);
    let claimable: u64 = total_share - recipient.claimed;
    if claimable == 0 {
        return Err(EventErrors::NothingToClaim);
    }
    proof {
        lemma_claim_keeps_valid(royalty_split@, recipient_index as nat, claimant);
    }
    royalty_split.recipients.set(
        index,
        Recipient {
            wallet: recipient.wallet,
            percentage: recipient.percentage,
            claimed: total_share,
        },
    );
    proof {
        assert(royalty_split@.recipients =~= old(royalty_split)@.claimed_by(
            index as int,
        ).recipients);
    }
    Ok(claimable)
}

/// The sum of everything paid out of a ledger in which nobody is overpaid.
pub fn total_claimed(royalty_split: &RoyaltySplit) -> (total: u64)
    requires
        royalty_split@.table_valid(),
        royalty_split@.within_shares(),
    ensures
        total == royalty_split@.total_claimed(),
        total <= royalty_split.total_collected,
{
    let ghost paid = claims(royalty_split@.recipients);
    proof {
        lemma_conservation(royalty_split@);
    }
    let n: usize = royalty_split.recipients.len();
    let mut total: u64 = 0;
    let mut i: usize = 0;
    while i < n
        invariant
            i <= n,
            n == royalty_split.recipients.len(),
            paid == claims(royalty_split@.recipients),
            sum(paid) <= royalty_split.total_collected,
            total as nat == sum(paid.take(i as int)),
        decreases n - i,
    {
        proof {
            lemma_sum_step(paid, i as int);
            lemma_sum_prefix(paid, i + 1);
        }
        total = total + royalty_split.recipients[i].claimed;
        i += 1;
    }
    proof {
        assert(paid.take(n as int) =~= paid);
    }
    total
}

/// Closes the ledger at the creator's request, once every collected unit has
/// been claimed. Any other requester, or any unclaimed unit, rejects the
/// request and changes nothing. A unit that rounding left over counts as
/// unclaimed: it is never handed out, and it keeps the ledger open.
pub fn close_split(royalty_split: &mut RoyaltySplit, requester: Pubkey) -> (done: Result<
    (),
    EventErrors,
>)
    requires
        old(royalty_split).wf(),
    ensures
        final(royalty_split).wf(),
        match done {
            Ok(_) => old(royalty_split)@.close_result(requester) == Ok::<SplitView, EventErrors>(
                final(royalty_split)@,
            ),
            Err(e) => {
                &&& old(royalty_split)@.close_result(requester) == Err::<SplitView, EventErrors>(e)
                &&& *final(royalty_split) == *old(royalty_split)
            },
        },
{
    if !same_key(&royalty_split.creator, &requester) {
        return Err(EventErrors::UnauthorizedClose);
    }
    let claimed: u64 = total_claimed(royalty_split);
    if claimed != royalty_split.total_collected {
        return Err(EventErrors::UnclaimedFundsRemaining);
    }
    proof {
        lemma_close_keeps_valid(royalty_split@, requester);
    }
    royalty_split.is_active = false;
    Ok(())
}



impl Clone for RoyaltySplit {
    /// A copy with the same state.
    fn clone(&self) -> (copy: Self)
        ensures
            copy@ == self@,
    {
        let n: usize = self.recipients.len();
        let mut recipients: Vec<Recipient> = Vec::new();
        let mut i: usize = 0;
        while i < n
            invariant
                i <= n,
                n == self.recipients.len(),
                recipients@ =~= self.recipients@.take(i as int),
            decreases n - i,
        {
            recipients.push(self.recipients[i]);
            i += 1;
        }
        assert(recipients@ =~= self.recipients@);
        RoyaltySplit {
            nft_mint: self.nft_mint,
            creator: self.creator,
            recipients,
            total_collected: self.total_collected,
            is_active: self.is_active,
            bump: self.bump,
        }
    }
}

impl RoyaltySplit {
    /// Checks the validity of a ledger that was read back from storage.
    pub fn is_well_formed(&self) -> (valid: bool)
        ensures
            valid == self.wf(),
    {
        if !table_sums_to_hundred(&self.recipients) {
            return false;
        }
        let n: usize = self.recipients.len();
        let mut i: usize = 0;
        while i < n
            invariant
                i <= n,
                n == self.recipients.len(),
                self@.table_valid(),
                forall|k: int|
                    0 <= k < i ==> self@.recipients[k].claimed <= #[trigger] self@.entitled(k),
            decreases n - i,
        {
            let recipient: Recipient = self.recipients[i];
            proof {
                lemma_percentage_bound(percentages(self@.recipients), i as int);
            }
            let owed: u64 = entitled_share(self.total_collected, recipient.percentage);
            if recipient.claimed > owed {
                assert(self@.recipients[i as int].claimed > self@.entitled(i as int));
                return false;
            }
            i += 1;
        }
        if self.is_active {
            return true;
        }
        total_claimed(self) == self.total_collected
    }
}

} // verus!
