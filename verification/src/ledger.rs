//! The split ledger as data and as mathematics: the stored record, its
//! abstract state, what makes a state valid, and what each operation turns a
//! state into.

use crate::errors::EventErrors;
use crate::shares::{share_of, shares_of, sum};
use anchor_lang::prelude::Pubkey;
use vstd::prelude::*;

verus! {

/// One row of a new recipient table, as the creator supplies it.
#[derive(Clone, Copy, Debug, PartialEq, Eq)]
pub struct RecipientInput {
    pub wallet: Pubkey,
    pub percentage: u8,
}

/// One row of a ledger's recipient table. `wallet` and `percentage` are fixed
/// at creation; `claimed` is the cumulative amount paid out to the wallet.
#[derive(Clone, Copy, Debug, PartialEq, Eq)]
pub struct Recipient {
    pub wallet: Pubkey,
    pub percentage: u8,
    pub claimed: u64,
}

/// The ledger of one revenue source.
#[derive(Debug, PartialEq, Eq)]
pub struct RoyaltySplit {
    pub nft_mint: Pubkey,
    pub creator: Pubkey,
    pub recipients: Vec<Recipient>,
    pub total_collected: u64,
    pub is_active: bool,
    pub bump: u8,
}

/// What a successful deposit announces to outside observers.
#[derive(Clone, Copy, Debug, PartialEq, Eq)]
pub struct DepositEvent {
    pub nft_mint: Pubkey,
    pub amount: u64,
    pub depositor: Pubkey,
}

/// The mathematical state of a ledger.
pub struct SplitView {
    pub nft_mint: Pubkey,
    pub creator: Pubkey,
    pub recipients: Seq<Recipient>,
    pub total_collected: nat,
    pub is_active: bool,
    pub bump: u8,
}

/// The percentages of a recipient table, in order.
pub open spec fn percentages(recipients: Seq<Recipient>) -> Seq<nat> {
    Seq::new(recipients.len(), |i: int| recipients[i].percentage as nat)
}

/// The cumulative payouts of a recipient table, in order.
pub open spec fn claims(recipients: Seq<Recipient>) -> Seq<nat> {
    Seq::new(recipients.len(), |i: int| recipients[i].claimed as nat)
}

/// The percentages of a proposed recipient table, in order.
pub open spec fn input_percentages(inputs: Seq<RecipientInput>) -> Seq<nat> {
    Seq::new(inputs.len(), |i: int| inputs[i].percentage as nat)
}

/// The recipient table that a proposal turns into: same wallets, same
/// percentages, nothing claimed.
pub open spec fn fresh_recipients(inputs: Seq<RecipientInput>) -> Seq<Recipient> {
    Seq::new(
        inputs.len(),
        |i: int|
            Recipient { wallet: inputs[i].wallet, percentage: inputs[i].percentage, claimed: 0 },
    )
}

/// Two recipient tables with the same wallets and percentages, in the same
/// order.
pub open spec fn same_table(earlier: Seq<Recipient>, later: Seq<Recipient>) -> bool {
    &&& earlier.len() == later.len()
    &&& forall|i: int|
        0 <= i < earlier.len() ==> {
            &&& (#[trigger] later[i]).wallet == earlier[i].wallet
            &&& later[i].percentage == earlier[i].percentage
        }
}

impl SplitView {
    /// Whether `later` can follow `self`: same source, creator and table, and
    /// no counter lower than before.
    pub open spec fn grows_into(self, later: SplitView) -> bool {
        &&& later.nft_mint == self.nft_mint
        &&& later.creator == self.creator
        &&& later.bump == self.bump
        &&& same_table(self.recipients, later.recipients)
        &&& later.total_collected >= self.total_collected
        &&& forall|i: int|
            0 <= i < self.recipients.len() ==> (#[trigger] later.recipients[i]).claimed
                >= self.recipients[i].claimed
    }

    /// The state of a ledger right after creation.
    pub open spec fn fresh(
        nft_mint: Pubkey,
        creator: Pubkey,
        inputs: Seq<RecipientInput>,
        bump: u8,
    ) -> SplitView {
        SplitView {
            nft_mint,
            creator,
            recipients: fresh_recipients(inputs),
            total_collected: 0,
            is_active: true,
            bump,
        }
    }

    /// The percentages of the table sum to exactly 100.
    pub open spec fn table_valid(self) -> bool {
        sum(percentages(self.recipients)) == 100
    }

    /// The cumulative amount owed to the recipient at `index`.
    pub open spec fn entitled(self, index: int) -> nat {
        share_of(self.total_collected, self.recipients[index].percentage as nat)
    }

    /// No recipient has been paid more than it is owed.
    pub open spec fn within_shares(self) -> bool {
        forall|i: int|
            0 <= i < self.recipients.len() ==> self.recipients[i].claimed <= #[trigger] self.entitled(
                i,
            )
    }

    /// The sum of everything paid out so far.
    pub open spec fn total_claimed(self) -> nat {
        sum(claims(self.recipients))
    }

    /// The sum of everything owed so far, paid or not.
    pub open spec fn total_entitled(self) -> nat {
        sum(shares_of(percentages(self.recipients), self.total_collected))
    }

    /// The validity of a ledger: a table that sums to 100, nobody overpaid, a
    /// total that fits the stored counter, and nothing left unclaimed once
    /// closed.
    pub open spec fn wf(self) -> bool {
        &&& self.table_valid()
        &&& self.within_shares()
        &&& self.total_collected <= u64::MAX
        &&& !self.is_active ==> self.total_claimed() == self.total_collected
    }

    /// What the recipient at `index` can be paid now.
    pub open spec fn claimable(self, index: int) -> nat {
        (self.entitled(index) - self.recipients[index].claimed) as nat
    }

    /// The state after `amount` more has been collected.
    pub open spec fn deposited(self, amount: nat) -> SplitView {
        SplitView { total_collected: self.total_collected + amount, ..self }
    }

    /// The state after each of `amounts` has been collected in turn.
    pub open spec fn after_deposits(self, amounts: Seq<nat>) -> SplitView
        decreases amounts.len(),
    {
        if amounts.len() == 0 {
            self
        } else {
            self.after_deposits(amounts.drop_last()).deposited(amounts.last())
        }
    }

    /// The state after the recipient at `index` has been paid all it is owed.
    pub open spec fn claimed_by(self, index: int) -> SplitView {
        SplitView {
            recipients: self.recipients.update(
                index,
                Recipient { claimed: self.entitled(index) as u64, ..self.recipients[index] },
            ),
            ..self
        }
    }

    /// The state after closing.
    pub open spec fn closed(self) -> SplitView {
        SplitView { is_active: false, ..self }
    }

    /// The outcome of a deposit of `amount`: the next state, or the reason for
    /// which the deposit is rejected.
    pub open spec fn deposit_result(self, amount: nat) -> Result<SplitView, EventErrors> {
        if !self.is_active {
            Err(EventErrors::LedgerInactive)
        } else if self.total_collected + amount > u64::MAX {
            Err(EventErrors::Overflow)
        } else {
            Ok(self.deposited(amount))
        }
    }

    /// The outcome of a claim on position `index` by `claimant`: the next
    /// state and the amount paid, or the reason for which the claim is
    /// rejected.
    pub open spec fn claim_result(self, index: nat, claimant: Pubkey) -> Result<
        (SplitView, nat),
        EventErrors,
    > {
        if index >= self.recipients.len() {
            Err(EventErrors::InvalidRecipientIndex)
        } else if self.recipients[index as int].wallet != claimant {
            Err(EventErrors::UnauthorizedRecipient)
        } else if self.claimable(index as int) == 0 {
            Err(EventErrors::NothingToClaim)
        } else {
            Ok((self.claimed_by(index as int), self.claimable(index as int)))
        }
    }

    /// The outcome of a request by `requester` to close: the next state, or the
    /// reason for which the request is rejected.
    pub open spec fn close_result(self, requester: Pubkey) -> Result<SplitView, EventErrors> {
        if self.creator != requester {
            Err(EventErrors::UnauthorizedClose)
        } else if self.total_claimed() != self.total_collected {
            Err(EventErrors::UnclaimedFundsRemaining)
        } else {
            Ok(self.closed())
        }
    }
}

impl View for RoyaltySplit {
    type V = SplitView;

    open spec fn view(&self) -> SplitView {
        SplitView {
            nft_mint: self.nft_mint,
            creator: self.creator,
            recipients: self.recipients@,
            total_collected: self.total_collected as nat,
            is_active: self.is_active,
            bump: self.bump,
        }
    }
}

impl RoyaltySplit {
    /// The ledger is valid.
    pub open spec fn wf(&self) -> bool {
        self@.wf()
    }

}

} // verus!
