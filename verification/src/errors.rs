//! The reasons for which a ledger operation is rejected.

use vstd::prelude::*;

verus! {

/// Every rejection happens before any state is changed.
#[derive(Clone, Copy, Debug, PartialEq, Eq, Structural)]
pub enum EventErrors {
    /// The percentages of a new recipient table do not sum to exactly 100.
    SumExceed100Error,
    /// The recipient index is not a position of the recipient table.
    InvalidRecipientIndex,
    /// The claimant is not the recipient recorded at the given index.
    UnauthorizedRecipient,
    /// The recipient has already claimed everything it is currently owed.
    NothingToClaim,
    /// Someone other than the creator asked to close the ledger.
    UnauthorizedClose,
    /// Closing was asked for while collected funds are still unclaimed.
    UnclaimedFundsRemaining,
    /// A ledger for the same revenue source already exists.
    DuplicateLedger,
    /// The ledger has been closed and accepts nothing further.
    LedgerInactive,
    /// The running total would leave the range of a `u64`.
    Overflow,
}

impl EventErrors {
    /// The text that accompanies each rejection.
    pub open spec fn text(self) -> Seq<char> {
        match self {
            EventErrors::SumExceed100Error => "The sum of percentages exceed 100."@,
            EventErrors::InvalidRecipientIndex => "Invalid recipient index"@,
            EventErrors::UnauthorizedRecipient => "Recipient is unauthorized"@,
            EventErrors::NothingToClaim => "Nothing to claim, the amount is 0"@,
            EventErrors::UnauthorizedClose => "Only creator can close the split."@,
            EventErrors::UnclaimedFundsRemaining => "Cannot close with unclaimed funds remaining."@,
            EventErrors::DuplicateLedger => "A split for this mint already exists."@,
            EventErrors::LedgerInactive => "The split has been closed."@,
            EventErrors::Overflow => "The total collected would overflow."@,
        }
    }

    /// Returns the text that accompanies the rejection.
    pub fn message(&self) -> (text: String)
        ensures
            text@ == self.text(),
    {
        match self {
            EventErrors::SumExceed100Error => String::from_str(
                "The sum of percentages exceed 100.",
            ),
            EventErrors::InvalidRecipientIndex => String::from_str("Invalid recipient index"),
            EventErrors::UnauthorizedRecipient => String::from_str("Recipient is unauthorized"),
            EventErrors::NothingToClaim => String::from_str("Nothing to claim, the amount is 0"),
            EventErrors::UnauthorizedClose => String::from_str("Only creator can close the split."),
            EventErrors::UnclaimedFundsRemaining => String::from_str(
                "Cannot close with unclaimed funds remaining.",
            ),
            EventErrors::DuplicateLedger => String::from_str(
                "A split for this mint already exists.",
            ),
            EventErrors::LedgerInactive => String::from_str("The split has been closed."),
            EventErrors::Overflow => String::from_str("The total collected would overflow."),
        }
    }
}

} // verus!
