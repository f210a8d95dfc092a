//! Typed errors of the ledger operations.

use vstd::prelude::*;

verus! {

/// The failure kinds of the ledger, as a flat enumeration.  Every operation
/// validates its inputs completely before mutating anything, so a returned
/// error always means the state is exactly as it was before the call.
#[derive(Debug)]
pub enum PSP34Error {
    /// Room for restrictions added by layers built on top of the core; the
    /// core itself never returns it.
    Custom(String),
    /// An owner tried to grant an approval on its own token to itself.
    SelfApprove,
    /// The caller holds neither the token nor an allowance covering it.
    NotApproved,
    /// The token is already present in the ledger.  Identifiers are drawn
    /// from a counter that never repeats, so the core itself never returns
    /// it.
    TokenExists,
    /// The token is not present in the ledger, or is not held by the
    /// account the call named.
    TokenNotExists,
    /// Minting would exceed the maximum supply or exhaust the identifier
    /// counter.
    ReachedMaxSupply,
    /// The transfer target cannot accept the token; the payload names the
    /// reason.
    SafeTransferCheckFailed(String),
    /// An enumeration index lies outside the listed range.  The enumeration
    /// getters signal this with `None` instead, so the core itself never
    /// returns it.
    OutOfBoundsIndex,
    /// The approval cannot be changed by this caller.  The core adopts the
    /// permissive reading in which a single-token grant beside a blanket
    /// grant is redundant rather than an error, so the core itself never
    /// returns it.
    NotAllowedToApprove,
}

/// The reason recorded when a transfer or mint names the reserved all-zero
/// account as its target.
pub open spec fn spec_zeroed_target_reason() -> Seq<char> {
    "'to' account is zeroed"@
}

/// The error returned when a transfer or mint names the reserved all-zero
/// account as its target.
pub fn zeroed_target_error() -> (e: PSP34Error)
    ensures
        e matches PSP34Error::SafeTransferCheckFailed(m) && m@ == spec_zeroed_target_reason(),
{
    let m = "'to' account is zeroed".to_string();
    proof {
        broadcast use vstd::string::to_string_from_display_ensures_for_str;

    }
    PSP34Error::SafeTransferCheckFailed(m)
}

} // verus!
