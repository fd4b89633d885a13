//! A proportional revenue-split ledger: funds deposited for a revenue source
//! are owed to a fixed table of recipients by percentage, claimed piecemeal,
//! and the ledger closes only once every collected unit has been claimed.

pub mod errors;
pub mod identity;
pub mod shares;
pub mod ledger;
pub mod laws;
pub mod operations;
pub mod registry;

pub use errors::EventErrors;
pub use ledger::{DepositEvent, Recipient, RecipientInput, RoyaltySplit};
pub use operations::{claim_share, close_split, deposit_royalty, initialize_split};
pub use registry::SplitRegistry;
