//! Capability interfaces of a token ledger host.
//!
//! The ledger in this crate supports every operation these traits describe;
//! a host embedding [`crate::PSP34Data`] exposes them by resolving its
//! caller once per call and forwarding to the ledger, emitting the returned
//! event records.  They are independent capability sets, not a hierarchy: a
//! minimal host may offer only the base interface and leave minting,
//! burning, enumeration or metadata out.

use vstd::prelude::*;

use crate::errors::PSP34Error;
use crate::types::AccountId;
use crate::types::Balance;
use crate::types::Id;

verus! {

/// The base interface of a token ledger.
pub trait PSP34 {
    /// The collection identifier of this ledger.
    fn collection_id(&self) -> Id;

    /// How many tokens `owner` holds.
    fn balance_of(&self, owner: AccountId) -> u32;

    /// The holder of `id`, when the token exists.
    fn owner_of(&self, id: Id) -> Option<AccountId>;

    /// Whether `operator` is approved by `owner` to withdraw `id`; with
    /// `id == None`, whether it is approved for all of `owner`'s tokens.
    fn allowance(&self, owner: AccountId, operator: AccountId, id: Option<Id>) -> bool;

    /// Grants or withdraws an approval on the caller's behalf.
    fn approve(&mut self, operator: AccountId, id: Option<Id>, approved: bool) -> Result<
        (),
        PSP34Error,
    >;

    /// Transfers `id` from the caller to `to`.
    fn transfer(&mut self, to: AccountId, id: Id, data: Vec<u8>) -> Result<(), PSP34Error>;

    /// Transfers `id` from `from` to `to` on the caller's behalf.
    fn transfer_from(&mut self, from: AccountId, to: AccountId, id: Id, data: Vec<u8>) -> Result<
        (),
        PSP34Error,
    >;

    /// How many tokens exist.
    fn total_supply(&self) -> Balance;

    /// The supply cap, or `None` when unbounded.
    fn max_supply(&self) -> Option<Balance>;
}

/// Minting capability.
pub trait PSP34Mintable {
    /// Mints a fresh token to `account`.
    fn mint(&mut self, account: AccountId) -> Result<(), PSP34Error>;

    /// Mints a fresh token to `account` and writes attributes under it.
    fn mint_with_attributes(
        &mut self,
        account: AccountId,
        attributes: Vec<(Vec<u8>, Vec<u8>)>,
    ) -> Result<(), PSP34Error>;
}

/// Burning capability.
pub trait PSP34Burnable {
    /// Burns a token held by `account`.
    fn burn(&mut self, account: AccountId, id: Id) -> Result<(), PSP34Error>;
}

/// Enumeration capability.
pub trait PSP34Enumerable {
    /// The token at `index` of `owner`'s token list.
    fn owners_token_by_index(&self, owner: AccountId, index: u128) -> Option<Id>;

    /// The token at `index` of the collection's token list.
    fn token_by_index(&self, index: u128) -> Option<Id>;
}

/// Metadata capability.
pub trait PSP34Metadata {
    /// The attribute of `id` for the given `key`.
    fn get_attribute(&self, id: Id, key: Vec<u8>) -> Option<Vec<u8>>;
}

} // verus!
