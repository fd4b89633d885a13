//! Account addresses, as `anchor_lang` represents them.

use anchor_lang::prelude::Pubkey;
use vstd::prelude::*;

verus! {

/// The account address type of `anchor_lang` (re-exported from the Solana
/// program SDK). Its contents are opaque to the verifier: the ledger only
/// stores addresses and compares them.
#[verifier::external_type_specification]
#[verifier::external_body]
pub struct ExPubkey(Pubkey);

/// Calls `PartialEq::eq` on two `Pubkey`s. The address type derives its
/// equality from its 32 bytes, so the call answers `true` exactly when both
/// arguments are the same address.
#[verifier::external_body]
pub(crate) fn same_key(a: &Pubkey, b: &Pubkey) -> (same: bool)
    ensures
        same == (*a == *b),
{
    a == b
}

} // verus!
