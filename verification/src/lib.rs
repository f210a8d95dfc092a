//! Bookkeeping core of a non-fungible-token ledger.
//!
//! The crate tracks which account owns which uniquely identified token, who
//! may act on a token on an owner's behalf, per-token attributes, and
//! enumerable listings of all tokens and of each owner's tokens.  Every
//! operation is specified by a contract and verified: the ownership map, the
//! enumeration arrays with their inverse position structure, and the
//! two-tier approval registry are proved to stay mutually consistent under
//! mint, burn, transfer and approve, and every failing call is proved to
//! leave the state exactly as it was.
//!
//! The host environment (call dispatch, caller authentication, event
//! emission, storage persistence) is outside this crate: operations take the
//! caller as a plain value and return a list of event records for the host
//! to emit.

pub mod allowances;
pub mod assoc;
pub mod attributes;
pub mod data;
pub mod enumeration;
pub mod errors;
pub mod events;
pub mod traits;
pub mod types;

pub use allowances::AllowanceRegistry;
pub use attributes::AttributeStore;
pub use data::PSP34Data;
pub use enumeration::EnumerationIndex;
pub use errors::PSP34Error;
pub use events::EventView;
pub use events::PSP34Event;
pub use traits::PSP34Burnable;
pub use traits::PSP34Enumerable;
pub use traits::PSP34Metadata;
pub use traits::PSP34Mintable;
pub use traits::PSP34;
pub use types::AccountId;
pub use types::Balance;
pub use types::Id;
pub use types::IdView;
