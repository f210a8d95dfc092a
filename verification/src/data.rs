//! The ownership ledger.
//!
//! [`PSP34Data`] is one explicit state aggregate: the ownership map, the
//! global and per-owner enumeration indices, the approval registry and the
//! attribute store, together with the supply counters.  Every public
//! operation validates its inputs completely before mutating anything, so an
//! error return leaves the state exactly as it was, and every operation
//! preserves the well-formedness predicate [`PSP34Data::wf`] that ties the
//! structures together.

use vstd::prelude::*;
use vstd::pervasive::VecAdditionalExecFns;

use crate::allowances::AllowanceRegistry;
use crate::assoc::kv_keys;
use crate::assoc::kv_lookup;
use crate::assoc::lemma_kv_lookup_at_index;
use crate::assoc::lemma_kv_lookup_is_some;
use crate::assoc::lemma_kv_lookup_push;
use crate::assoc::lemma_kv_lookup_to_index;
use crate::assoc::lemma_kv_lookup_update;
use crate::assoc::lemma_kv_swap_pop;
use crate::assoc::lemma_push_contains;
use crate::assoc::lemma_push_distinct;
use crate::attributes::AttributeStore;
use crate::enumeration::EnumerationIndex;
use crate::errors::spec_zeroed_target_reason;
use crate::errors::zeroed_target_error;
use crate::errors::PSP34Error;
use crate::events::opt_id_view;
use crate::events::EventView;
use crate::events::PSP34Event;
use crate::types::AccountId;
use crate::types::clone_bytes;
use crate::types::Balance;
use crate::types::Id;
use crate::types::IdView;

verus! {

/// The bookkeeping state of one token collection.
pub struct PSP34Data {
    /// Which account holds which token; an entry here is the definition of
    /// "the token exists".
    owners: Vec<(Id, AccountId)>,
    /// Dense enumeration of every existing token.
    all_tokens: EnumerationIndex,
    /// Dense enumeration of each holder's tokens, keyed by account.
    owned_tokens: Vec<(AccountId, EnumerationIndex)>,
    /// Single-token and blanket approvals.
    allowances: AllowanceRegistry,
    /// Per-token key/value attributes.
    attributes: AttributeStore,
    /// Number of existing tokens.
    total_supply: Balance,
    /// Cap on `total_supply`; `None` means unbounded.
    max_supply: Option<Balance>,
    /// The identifier the next mint will use.  Minted identifiers are drawn
    /// from this counter and never reused, not even after a burn.
    next_id: Balance,
}

/// The sequence after swap-and-pop removal of `x`: the last element moves
/// into `x`'s position and the sequence shrinks by one.
pub open spec fn swap_pop(s: Seq<IdView>, x: IdView) -> Seq<IdView> {
    s.update(s.index_of(x), s.last()).drop_last()
}

/// The approval registry reads the same in `post` as in `pre`.
pub open spec fn same_allowances(pre: PSP34Data, post: PSP34Data) -> bool {
    &&& (forall|o: AccountId, p: AccountId, t: IdView| #[trigger]
        post.spec_single(o, p, t) == pre.spec_single(o, p, t))
    &&& (forall|o: AccountId, p: AccountId| #[trigger] post.spec_blanket(o, p) == pre.spec_blanket(
        o,
        p,
    ))
}

/// Every attribute reads the same in `post` as in `pre`.
pub open spec fn same_attributes(pre: PSP34Data, post: PSP34Data) -> bool {
    forall|q: IdView, k: Seq<u8>| #[trigger] post.spec_attribute(q, k) == pre.spec_attribute(q, k)
}

/// Exactly the state change of a successful mint of `id` to `account`:
/// the identifier is the counter value, it becomes owned by `account`,
/// both enumerations grow by it at the end, the counters advance, and no
/// other ownership, enumeration or approval changes.
pub open spec fn mint_transition(
    pre: PSP34Data,
    post: PSP34Data,
    account: AccountId,
    id: IdView,
) -> bool {
    &&& id == IdView::U128(pre.spec_next_id())
    &&& post.spec_owner_of(id) == Some(account)
    &&& (forall|q: IdView| q != id ==> #[trigger] post.spec_owner_of(q) == pre.spec_owner_of(q))
    &&& post.spec_all_tokens() == pre.spec_all_tokens().push(id)
    &&& post.spec_owned(account) == pre.spec_owned(account).push(id)
    &&& (forall|a: AccountId| a != account ==> #[trigger] post.spec_owned(a) == pre.spec_owned(a))
    &&& post.spec_total_supply() == pre.spec_total_supply() + 1
    &&& post.spec_next_id() == pre.spec_next_id() + 1
    &&& post.spec_max_supply() == pre.spec_max_supply()
    &&& same_allowances(pre, post)
}

/// Exactly the state change of a successful burn of `id` from `account`:
/// ownership ends, both enumerations shrink by swap-and-pop, the supply
/// falls by one, and nothing else changes.  Approvals and attributes
/// recorded for the burned identifier are left behind deliberately: the
/// identifier counter never repeats it, so they can never cover a live
/// token again.
pub open spec fn burn_transition(
    pre: PSP34Data,
    post: PSP34Data,
    account: AccountId,
    id: IdView,
) -> bool {
    &&& pre.spec_owner_of(id) == Some(account)
    &&& post.spec_owner_of(id) is None
    &&& (forall|q: IdView| q != id ==> #[trigger] post.spec_owner_of(q) == pre.spec_owner_of(q))
    &&& post.spec_all_tokens() == swap_pop(pre.spec_all_tokens(), id)
    &&& post.spec_owned(account) == swap_pop(pre.spec_owned(account), id)
    &&& (forall|a: AccountId| a != account ==> #[trigger] post.spec_owned(a) == pre.spec_owned(a))
    &&& post.spec_total_supply() == pre.spec_total_supply() - 1
    &&& post.spec_next_id() == pre.spec_next_id()
    &&& post.spec_max_supply() == pre.spec_max_supply()
    &&& same_allowances(pre, post)
    &&& same_attributes(pre, post)
}

/// Exactly the state change of a successful transfer of `id` from `from`
/// to `to`: ownership moves, `from`'s enumeration loses the token by
/// swap-and-pop, `to`'s gains it at the end, every single-token approval
/// `from` granted for it is withdrawn, and nothing else changes.
pub open spec fn transfer_transition(
    pre: PSP34Data,
    post: PSP34Data,
    from: AccountId,
    to: AccountId,
    id: IdView,
) -> bool {
    &&& pre.spec_owner_of(id) == Some(from)
    &&& post.spec_owner_of(id) == Some(to)
    &&& (forall|q: IdView| q != id ==> #[trigger] post.spec_owner_of(q) == pre.spec_owner_of(q))
    &&& post.spec_all_tokens() == pre.spec_all_tokens()
    &&& (if from == to {
        post.spec_owned(to) == swap_pop(pre.spec_owned(to), id).push(id)
    } else {
        post.spec_owned(from) == swap_pop(pre.spec_owned(from), id) && post.spec_owned(to)
            == pre.spec_owned(to).push(id)
    })
    &&& (forall|a: AccountId|
        a != from && a != to ==> #[trigger] post.spec_owned(a) == pre.spec_owned(a))
    &&& post.spec_total_supply() == pre.spec_total_supply()
    &&& post.spec_next_id() == pre.spec_next_id()
    &&& post.spec_max_supply() == pre.spec_max_supply()
    &&& (forall|o: AccountId, p: AccountId, t: IdView| #[trigger]
        post.spec_single(o, p, t) == (pre.spec_single(o, p, t) && !(o == from && t == id)))
    &&& (forall|o: AccountId, p: AccountId| #[trigger] post.spec_blanket(o, p) == pre.spec_blanket(
        o,
        p,
    ))
    &&& same_attributes(pre, post)
}

/// Ownership, enumerations, counters and attributes read the same in
/// `post` as in `pre`: only the approval registry may differ.
pub open spec fn same_ledger(pre: PSP34Data, post: PSP34Data) -> bool {
    &&& (forall|q: IdView| #[trigger] post.spec_owner_of(q) == pre.spec_owner_of(q))
    &&& post.spec_all_tokens() == pre.spec_all_tokens()
    &&& (forall|a: AccountId| #[trigger] post.spec_owned(a) == pre.spec_owned(a))
    &&& post.spec_total_supply() == pre.spec_total_supply()
    &&& post.spec_next_id() == pre.spec_next_id()
    &&& post.spec_max_supply() == pre.spec_max_supply()
    &&& same_attributes(pre, post)
}

/// The view of a list of attribute writes.
pub open spec fn attrs_view(attrs: Seq<(Vec<u8>, Vec<u8>)>) -> Seq<(Seq<u8>, Seq<u8>)> {
    attrs.map_values(|p: (Vec<u8>, Vec<u8>)| (p.0@, p.1@))
}

/// The value `key` holds after the writes in `attrs` are applied in order
/// over `prior`: the last write to `key` wins.
pub open spec fn spec_written(
    attrs: Seq<(Seq<u8>, Seq<u8>)>,
    key: Seq<u8>,
    prior: Option<Seq<u8>>,
) -> Option<Seq<u8>>
    decreases attrs.len(),
{
    if attrs.len() == 0 {
        prior
    } else if attrs.last().0 == key {
        Some(attrs.last().1)
    } else {
        spec_written(attrs.drop_last(), key, prior)
    }
}

impl PSP34Data {
    /// The ownership bindings.
    pub closed spec fn spec_owners(&self) -> Seq<(IdView, AccountId)> {
        self.owners@.map_values(|p: (Id, AccountId)| (p.0@, p.1))
    }

    /// The holder of `id`, when the token exists.
    pub open spec fn spec_owner_of(&self, id: IdView) -> Option<AccountId> {
        kv_lookup(self.spec_owners(), id)
    }

    /// Whether the token exists.
    pub open spec fn spec_exists(&self, id: IdView) -> bool {
        self.spec_owner_of(id) is Some
    }

    /// The global enumeration: every existing token, densely listed.
    pub closed spec fn spec_all_tokens(&self) -> Seq<IdView> {
        self.all_tokens@
    }

    /// The per-owner enumeration slots.
    pub closed spec fn spec_slots(&self) -> Seq<(AccountId, Seq<IdView>)> {
        self.owned_tokens@.map_values(|p: (AccountId, EnumerationIndex)| (p.0, p.1@))
    }

    /// The enumeration of `account`'s tokens.
    pub open spec fn spec_owned(&self, account: AccountId) -> Seq<IdView> {
        match kv_lookup(self.spec_slots(), account) {
            Some(s) => s,
            None => Seq::empty(),
        }
    }

    /// How many tokens `account` holds.
    pub open spec fn spec_balance(&self, account: AccountId) -> nat {
        self.spec_owned(account).len()
    }

    pub closed spec fn spec_total_supply(&self) -> Balance {
        self.total_supply
    }

    pub closed spec fn spec_max_supply(&self) -> Option<Balance> {
        self.max_supply
    }

    /// The identifier the next successful mint will take.
    pub closed spec fn spec_next_id(&self) -> Balance {
        self.next_id
    }

    /// Whether `operator` holds a grant from `owner` scoped to `token`.
    pub closed spec fn spec_single(
        &self,
        owner: AccountId,
        operator: AccountId,
        token: IdView,
    ) -> bool {
        self.allowances.spec_single(owner, operator, token)
    }

    /// Whether `operator` holds a blanket grant from `owner`.
    pub closed spec fn spec_blanket(&self, owner: AccountId, operator: AccountId) -> bool {
        self.allowances.spec_blanket(owner, operator)
    }

    /// The effective allowance: a blanket grant covers every token, a
    /// single-token grant only its own.
    pub open spec fn spec_allowance(
        &self,
        owner: AccountId,
        operator: AccountId,
        token: Option<IdView>,
    ) -> bool {
        match token {
            Some(t) => self.spec_single(owner, operator, t) || self.spec_blanket(owner, operator),
            None => self.spec_blanket(owner, operator),
        }
    }

    /// The attribute value bound to `key` under `id`.
    pub closed spec fn spec_attribute(&self, id: IdView, key: Seq<u8>) -> Option<Seq<u8>> {
        self.attributes.spec_get(id, key)
    }

    /// Whether `account` may move `token`: it is the holder, or it holds an
    /// effective allowance from the holder.  The reserved zero account may
    /// never move anything.
    pub open spec fn spec_owner_or_approved(&self, account: AccountId, token: IdView) -> bool {
        match self.spec_owner_of(token) {
            Some(owner) => account != AccountId::spec_zero() && (owner == account
                || self.spec_single(owner, account, token) || self.spec_blanket(owner, account)),
            None => false,
        }
    }

    /// Whether a mint can succeed: the supply cap is not reached and the
    /// identifier counter is not exhausted.
    pub open spec fn spec_can_mint(&self) -> bool {
        &&& match self.spec_max_supply() {
            Some(m) => self.spec_total_supply() < m,
            None => true,
        }
        &&& self.spec_next_id() < Balance::MAX
    }

    /// The approval and attribute components are internally well-formed.
    pub closed spec fn components_wf(&self) -> bool {
        self.allowances.wf() && self.attributes.wf()
    }

    /// The consistency invariant every operation preserves.
    pub open spec fn wf(&self) -> bool {
        // each token has one owner entry
        &&& kv_keys(self.spec_owners()).no_duplicates()
        // the global enumeration lists each existing token exactly once
        &&& self.spec_all_tokens().no_duplicates()
        &&& (forall|id: IdView|
            self.spec_all_tokens().contains(id) <==> #[trigger] self.spec_owner_of(id) is Some)
        &&& self.spec_total_supply() == self.spec_all_tokens().len()
        // each account has at most one slot, densely listing its tokens
        &&& kv_keys(self.spec_slots()).no_duplicates()
        &&& (forall|k: int|
            0 <= k < self.spec_slots().len() ==> (#[trigger] self.spec_slots()[k]).1.no_duplicates())
        &&& (forall|k: int|
            0 <= k < self.spec_slots().len() ==> (#[trigger] self.spec_slots()[k]).1.len()
                <= u32::MAX)
        &&& (forall|id: IdView, a: AccountId| #[trigger]
            self.spec_owned(a).contains(id) <==> self.spec_owner_of(id) == Some(a))
        // the zero account owns nothing
        &&& (forall|j: int|
            0 <= j < self.spec_owners().len() ==> (#[trigger] self.spec_owners()[j]).1
                != AccountId::spec_zero())
        // every existing token was drawn from the identifier counter
        &&& (forall|j: int|
            0 <= j < self.spec_owners().len() ==> ((#[trigger] self.spec_owners()[j]).0 matches IdView::U128(v)
                && v < self.spec_next_id()))
        // supply accounting
        &&& (self.spec_max_supply() matches Some(m) ==> self.spec_total_supply() <= m)
        &&& self.spec_total_supply() <= self.spec_next_id()
        &&& self.components_wf()
    }

    /// A fresh, empty ledger with the given supply cap (`None`: unbounded).
    pub fn new(max_supply: Option<Balance>) -> (r: PSP34Data)
        ensures
            r.wf(),
            r.spec_total_supply() == 0,
            r.spec_max_supply() == max_supply,
            r.spec_next_id() == 0,
            r.spec_all_tokens() == Seq::<IdView>::empty(),
            forall|id: IdView| #[trigger] r.spec_owner_of(id) is None,
            forall|a: AccountId| #[trigger] r.spec_owned(a) == Seq::<IdView>::empty(),
            forall|o: AccountId, p: AccountId, t: IdView| !#[trigger] r.spec_single(o, p, t),
            forall|o: AccountId, p: AccountId| !#[trigger] r.spec_blanket(o, p),
            forall|id: IdView, k: Seq<u8>| #[trigger] r.spec_attribute(id, k) is None,
    {
        let r = PSP34Data {
            owners: Vec::new(),
            all_tokens: EnumerationIndex::new(),
            owned_tokens: Vec::new(),
            allowances: AllowanceRegistry::new(),
            attributes: AttributeStore::new(),
            total_supply: 0,
            max_supply,
            next_id: 0,
        };
        proof {
            assert(r.spec_owners() =~= Seq::<(IdView, AccountId)>::empty());
            assert(r.spec_slots() =~= Seq::<(AccountId, Seq<IdView>)>::empty());
            assert(kv_keys(r.spec_owners()) =~= Seq::<IdView>::empty());
            assert(kv_keys(r.spec_slots()) =~= Seq::<AccountId>::empty());
        }
        r
    }

    /// How many tokens exist.
    pub fn total_supply(&self) -> (r: Balance)
        ensures
            r == self.spec_total_supply(),
    {
        self.total_supply
    }

    /// The supply cap, or `None` when unbounded.
    pub fn max_supply(&self) -> (r: Option<Balance>)
        ensures
            r == self.spec_max_supply(),
    {
        self.max_supply
    }

    /// Looks for the ownership entry of `id`; returns its position.
    fn find_owner_index(&self, id: &Id) -> (r: Option<usize>)
        ensures
            match r {
                Some(i) => i < self.spec_owners().len() && self.spec_owners()[i as int].0 == id@,
                None => forall|j: int|
                    0 <= j < self.spec_owners().len() ==> (#[trigger] self.spec_owners()[j]).0
                        != id@,
            },
    {
        let mut i: usize = 0;
        while i < self.owners.len()
            invariant
                i <= self.owners@.len(),
                forall|j: int| 0 <= j < i ==> (#[trigger] self.spec_owners()[j]).0 != id@,
            decreases self.owners@.len() - i,
        {
            if &self.owners[i].0 == id {
                return Some(i);
            }
            i += 1;
        }
        None
    }

    /// Looks for `account`'s enumeration slot; returns its position.
    fn find_slot(&self, account: AccountId) -> (r: Option<usize>)
        ensures
            match r {
                Some(k) => k < self.spec_slots().len() && self.spec_slots()[k as int].0 == account,
                None => forall|j: int|
                    0 <= j < self.spec_slots().len() ==> (#[trigger] self.spec_slots()[j]).0
                        != account,
            },
    {
        let mut i: usize = 0;
        while i < self.owned_tokens.len()
            invariant
                i <= self.owned_tokens@.len(),
                forall|j: int| 0 <= j < i ==> (#[trigger] self.spec_slots()[j]).0 != account,
            decreases self.owned_tokens@.len() - i,
        {
            if self.owned_tokens[i].0 == account {
                return Some(i);
            }
            i += 1;
        }
        None
    }

    /// The holder of `id`, or `None` when the token does not exist.
    pub fn owner_of(&self, id: Id) -> (r: Option<AccountId>)
        requires
            self.wf(),
        ensures
            r == self.spec_owner_of(id@),
    {
        match self.find_owner_index(&id) {
            Some(i) => {
                proof {
                    lemma_kv_lookup_at_index(self.spec_owners(), i as int);
                }
                Some(self.owners[i].1)
            },
            None => {
                proof {
                    lemma_kv_lookup_is_some(self.spec_owners(), id@);
                }
                None
            },
        }
    }

    /// How many tokens `owner` holds; zero for an account never seen.
    pub fn balance_of(&self, owner: AccountId) -> (r: u32)
        requires
            self.wf(),
        ensures
            r as nat == self.spec_balance(owner),
    {
        match self.find_slot(owner) {
            Some(k) => {
                proof {
                    lemma_kv_lookup_at_index(self.spec_slots(), k as int);
                }
                self.owned_tokens[k].1.len() as u32
            },
            None => {
                proof {
                    lemma_kv_lookup_is_some(self.spec_slots(), owner);
                }
                0
            },
        }
    }

    /// Whether `operator` is approved by `owner` to withdraw `id`; with
    /// `id == None`, whether it is approved for all of `owner`'s tokens.
    pub fn allowance(&self, owner: AccountId, operator: AccountId, id: Option<Id>) -> (r: bool)
        ensures
            r == self.spec_allowance(owner, operator, opt_id_view(id)),
    {
        match id {
            Some(token) => self.allowances.allowance(owner, operator, Some(&token)),
            None => self.allowances.allowance(owner, operator, None),
        }
    }

    /// Whether `account` may move `token` (holder, or approved for it).
    fn owner_or_approved(&self, account: AccountId, token: &Id) -> (r: bool)
        requires
            self.wf(),
        ensures
            r == self.spec_owner_or_approved(account, token@),
    {
        match self.owner_of(token.duplicate()) {
            Some(owner) => {
                !account.is_zero() && (owner == account || self.allowances.is_allowed_single(
                    owner,
                    account,
                    token,
                ) || self.allowances.is_allowed_all(owner, account))
            },
            None => false,
        }
    }

    /// The token at `index` in the global enumeration, or `None` when
    /// `index` is out of range.
    pub fn token_by_index(&self, index: u128) -> (r: Option<Id>)
        ensures
            match r {
                Some(x) => index < self.spec_all_tokens().len() && x@
                    == self.spec_all_tokens()[index as int],
                None => index >= self.spec_all_tokens().len(),
            },
    {
        if index >= self.all_tokens.len() as u128 {
            return None;
        }
        self.all_tokens.at(index as usize)
    }

    /// The token at `index` in `owner`'s enumeration, or `None` when
    /// `index` is out of range.
    pub fn owners_token_by_index(&self, owner: AccountId, index: u128) -> (r: Option<Id>)
        requires
            self.wf(),
        ensures
            match r {
                Some(x) => index < self.spec_owned(owner).len() && x@
                    == self.spec_owned(owner)[index as int],
                None => index >= self.spec_owned(owner).len(),
            },
    {
        match self.find_slot(owner) {
            Some(k) => {
                proof {
                    lemma_kv_lookup_at_index(self.spec_slots(), k as int);
                }
                if index >= self.owned_tokens[k].1.len() as u128 {
                    return None;
                }
                self.owned_tokens[k].1.at(index as usize)
            },
            None => {
                proof {
                    lemma_kv_lookup_is_some(self.spec_slots(), owner);
                }
                None
            },
        }
    }

    /// The three slot conditions of [`PSP34Data::wf`]: distinct account
    /// keys, duplicate-free slots, and slots small enough to count in u32.
    pub open spec fn slots_wf(&self) -> bool {
        &&& kv_keys(self.spec_slots()).no_duplicates()
        &&& (forall|k: int|
            0 <= k < self.spec_slots().len() ==> (#[trigger] self.spec_slots()[k]).1.no_duplicates())
        &&& (forall|k: int|
            0 <= k < self.spec_slots().len() ==> (#[trigger] self.spec_slots()[k]).1.len()
                <= u32::MAX)
    }

    /// Appends `id` to `account`'s enumeration slot, creating the slot when
    /// the account has none yet.  Touches nothing else.
    fn slot_add(&mut self, account: AccountId, id: Id)
        requires
            old(self).slots_wf(),
            !old(self).spec_owned(account).contains(id@),
            old(self).spec_owned(account).len() < u32::MAX,
        ensures
            final(self).slots_wf(),
            final(self).spec_owned(account) == old(self).spec_owned(account).push(id@),
            forall|a: AccountId|
                a != account ==> #[trigger] final(self).spec_owned(a) == old(self).spec_owned(a),
            final(self).owners == old(self).owners,
            final(self).all_tokens == old(self).all_tokens,
            final(self).allowances == old(self).allowances,
            final(self).attributes == old(self).attributes,
            final(self).total_supply == old(self).total_supply,
            final(self).max_supply == old(self).max_supply,
            final(self).next_id == old(self).next_id,
    {
        let ghost slots0 = old(self).spec_slots();
        match self.find_slot(account) {
            Some(k) => {
                proof {
                    lemma_kv_lookup_at_index(slots0, k as int);
                }
                let mut pair = self.owned_tokens.swap_remove(k);
                proof {
                    assert(self.spec_slots() =~= slots0.update(k as int, slots0.last()).drop_last());
                    assert(pair.1@ == old(self).spec_owned(account));
                }
                let ghost mid = self.spec_slots();
                pair.1.add(id);
                self.owned_tokens.push(pair);
                proof {
                    let slots1 = self.spec_slots();
                    let entry = (account, old(self).spec_owned(account).push(id@));
                    assert(slots1 =~= mid.push(entry));
                    assert forall|a: AccountId| true implies #[trigger] kv_lookup(slots1, a) == (
                    if a == account {
                        Some(entry.1)
                    } else {
                        kv_lookup(slots0, a)
                    }) by {
                        lemma_kv_lookup_push(mid, entry.0, entry.1, a);
                        lemma_kv_swap_pop(slots0, k as int, a);
                    }
                    lemma_kv_swap_pop::<AccountId, Seq<IdView>>(slots0, k as int, account);
                    lemma_kv_lookup_is_some(mid, account);
                    assert forall|j: int|
                        0 <= j < kv_keys(mid).len() implies kv_keys(mid)[j] != account by {
                        assert(mid[j].0 != account);
                    }
                    assert(!kv_keys(mid).contains(account));
                    lemma_push_distinct(kv_keys(mid), account);
                    assert(kv_keys(slots1) =~= kv_keys(mid).push(account));
                    crate::assoc::lemma_distinct_keys_distinct_pairs(slots0);
                    crate::assoc::lemma_swap_pop_distinct(slots0, k as int);
                    assert forall|k2: int|
                        0 <= k2 < slots1.len() implies (#[trigger] slots1[k2]).1.no_duplicates()
                        && slots1[k2].1.len() <= u32::MAX by {
                        if k2 < mid.len() {
                            assert(mid.contains(mid[k2]));
                            assert(slots0.contains(mid[k2]));
                            let j = choose|j: int| 0 <= j < slots0.len() && slots0[j] == mid[k2];
                            assert(slots0[j].1.no_duplicates() && slots0[j].1.len() <= u32::MAX);
                        }
                    }
                }
            },
            None => {
                proof {
                    lemma_kv_lookup_is_some(slots0, account);
                    assert(old(self).spec_owned(account) =~= Seq::<IdView>::empty());
                }
                let mut ei = EnumerationIndex::new();
                ei.add(id);
                self.owned_tokens.push((account, ei));
                proof {
                    let slots1 = self.spec_slots();
                    let entry = (account, old(self).spec_owned(account).push(id@));
                    assert(slots1 =~= slots0.push(entry));
                    assert forall|a: AccountId| true implies #[trigger] kv_lookup(slots1, a) == (
                    if a == account {
                        Some(entry.1)
                    } else {
                        kv_lookup(slots0, a)
                    }) by {
                        lemma_kv_lookup_push(slots0, entry.0, entry.1, a);
                    }
                    assert forall|j: int|
                        0 <= j < kv_keys(slots0).len() implies kv_keys(slots0)[j] != account by {
                        assert(slots0[j].0 != account);
                    }
                    assert(!kv_keys(slots0).contains(account));
                    lemma_push_distinct(kv_keys(slots0), account);
                    assert(kv_keys(slots1) =~= kv_keys(slots0).push(account));
                    assert forall|k2: int|
                        0 <= k2 < slots1.len() implies (#[trigger] slots1[k2]).1.no_duplicates()
                        && slots1[k2].1.len() <= u32::MAX by {
                        if k2 < slots0.len() {
                            assert(slots1[k2] == slots0[k2]);
                        }
                    }
                }
            },
        }
    }

    /// Removes `id` from `account`'s enumeration slot by swap-and-pop.
    /// Touches nothing else.
    fn slot_remove(&mut self, account: AccountId, id: &Id)
        requires
            old(self).slots_wf(),
            old(self).spec_owned(account).contains(id@),
        ensures
            final(self).slots_wf(),
            final(self).spec_owned(account) == swap_pop(old(self).spec_owned(account), id@),
            forall|a: AccountId|
                a != account ==> #[trigger] final(self).spec_owned(a) == old(self).spec_owned(a),
            final(self).owners == old(self).owners,
            final(self).all_tokens == old(self).all_tokens,
            final(self).allowances == old(self).allowances,
            final(self).attributes == old(self).attributes,
            final(self).total_supply == old(self).total_supply,
            final(self).max_supply == old(self).max_supply,
            final(self).next_id == old(self).next_id,
    {
        let ghost slots0 = old(self).spec_slots();
        let kopt = self.find_slot(account);
        proof {
            if kopt is None {
                lemma_kv_lookup_is_some(slots0, account);
                assert(old(self).spec_owned(account) =~= Seq::<IdView>::empty());
                assert(false);
            }
        }
        let k = kopt.unwrap();
        proof {
            lemma_kv_lookup_at_index(slots0, k as int);
        }
        let mut pair = self.owned_tokens.swap_remove(k);
        proof {
            assert(self.spec_slots() =~= slots0.update(k as int, slots0.last()).drop_last());
            assert(pair.1@ == old(self).spec_owned(account));
        }
        let ghost mid = self.spec_slots();
        pair.1.remove(id);
        self.owned_tokens.push(pair);
        proof {
            let slots1 = self.spec_slots();
            let entry = (account, swap_pop(old(self).spec_owned(account), id@));
            assert(slots1 =~= mid.push(entry));
            assert forall|a: AccountId| true implies #[trigger] kv_lookup(slots1, a) == (
            if a == account {
                Some(entry.1)
            } else {
                kv_lookup(slots0, a)
            }) by {
                lemma_kv_lookup_push(mid, entry.0, entry.1, a);
                lemma_kv_swap_pop(slots0, k as int, a);
            }
            lemma_kv_swap_pop::<AccountId, Seq<IdView>>(slots0, k as int, account);
            lemma_kv_lookup_is_some(mid, account);
            assert forall|j: int|
                0 <= j < kv_keys(mid).len() implies kv_keys(mid)[j] != account by {
                assert(mid[j].0 != account);
            }
            assert(!kv_keys(mid).contains(account));
            lemma_push_distinct(kv_keys(mid), account);
            assert(kv_keys(slots1) =~= kv_keys(mid).push(account));
            crate::assoc::lemma_distinct_keys_distinct_pairs(slots0);
            crate::assoc::lemma_swap_pop_distinct(slots0, k as int);
            assert forall|k2: int|
                0 <= k2 < slots1.len() implies (#[trigger] slots1[k2]).1.no_duplicates()
                && slots1[k2].1.len() <= u32::MAX by {
                if k2 < mid.len() {
                    assert(mid.contains(mid[k2]));
                    assert(slots0.contains(mid[k2]));
                    let j = choose|j: int| 0 <= j < slots0.len() && slots0[j] == mid[k2];
                    assert(slots0[j].1.no_duplicates() && slots0[j].1.len() <= u32::MAX);
                }
            }
        }
    }

    /// With well-formed slots, every per-owner enumeration is
    /// duplicate-free.
    proof fn lemma_owned_distinct(self, account: AccountId)
        requires
            self.slots_wf(),
        ensures
            self.spec_owned(account).no_duplicates(),
            self.spec_owned(account).len() <= u32::MAX,
    {
        if kv_lookup(self.spec_slots(), account) is Some {
            lemma_kv_lookup_to_index(self.spec_slots(), account);
            let j = choose|j: int|
                0 <= j < self.spec_slots().len() && #[trigger] self.spec_slots()[j] == (
                account,
                kv_lookup(self.spec_slots(), account)->Some_0,
            );
            assert(self.spec_slots()[j].1.no_duplicates());
        }
    }

    /// Burns `id`, which must be held by `account`.  Both enumerations
    /// shrink by swap-and-pop and the supply falls by one; the identifier
    /// counter never hands the identifier out again.  Approvals and
    /// attributes recorded under it are left behind as unreachable residue.
    /// On success the single event is the burn transfer.
    ///
    /// Fails with `TokenNotExists` when the token does not exist or is not
    /// held by `account`; a failing call changes nothing.
    pub fn burn(&mut self, account: AccountId, id: Id) -> (r: Result<Vec<PSP34Event>, PSP34Error>)
        requires
            old(self).wf(),
        ensures
            final(self).wf(),
            r is Err <==> old(self).spec_owner_of(id@) != Some(account),
            match r {
                Ok(events) => ({
                    &&& burn_transition(*old(self), *final(self), account, id@)
                    &&& events@.len() == 1
                    &&& events@[0]@ == (EventView::Transfer {
                        from: Some(account),
                        to: None,
                        id: id@,
                    })
                }),
                Err(e) => ({
                    &&& *final(self) == *old(self)
                    &&& e is TokenNotExists
                }),
            },
    {
        let held = match self.owner_of(id.duplicate()) {
            Some(a) => a == account,
            None => false,
        };
        if !held {
            return Err(PSP34Error::TokenNotExists);
        }
        let ghost pre = *self;
        let ghost idv = id@;
        proof {
            assert(pre.spec_all_tokens().contains(idv));
            assert(pre.spec_owned(account).contains(idv));
        }
        self.total_supply = self.total_supply - 1;
        self.all_tokens.remove(&id);
        let oidx = self.find_owner_index(&id);
        proof {
            assert(self.spec_owners() == pre.spec_owners());
            if oidx is None {
                lemma_kv_lookup_is_some(pre.spec_owners(), idv);
                assert(false);
            }
        }
        let oi = oidx.unwrap();
        let _ = self.owners.swap_remove(oi);
        proof {
            let prev = pre.spec_owners();
            assert(self.spec_owners() =~= prev.update(oi as int, prev.last()).drop_last());
        }
        self.slot_remove(account, &id);
        let mut events: Vec<PSP34Event> = Vec::new();
        events.push(PSP34Event::Transfer { from: Some(account), to: None, id });
        proof {
            let prev = pre.spec_owners();
            assert(self.spec_owners() =~= prev.update(oi as int, prev.last()).drop_last());
            assert forall|q: IdView| true implies #[trigger] self.spec_owner_of(q) == (if q == idv {
                None::<AccountId>
            } else {
                pre.spec_owner_of(q)
            }) by {
                lemma_kv_swap_pop(prev, oi as int, q);
            }
            lemma_kv_swap_pop::<IdView, AccountId>(prev, oi as int, idv);
            // surviving owner entries all stand in the old list
            assert forall|j: int|
                0 <= j < self.spec_owners().len() implies ((#[trigger] self.spec_owners()[j]).1
                != AccountId::spec_zero() && (self.spec_owners()[j].0 matches IdView::U128(v) && v
                < self.spec_next_id())) by {
                if j == oi {
                    assert(self.spec_owners()[j] == prev[prev.len() - 1]);
                } else {
                    assert(self.spec_owners()[j] == prev[j]);
                }
            }
            // the global enumeration drops exactly the burned token
            assert forall|q: IdView|
                self.spec_all_tokens().contains(q) <==> #[trigger] self.spec_owner_of(q)
                    is Some by {
                assert(pre.spec_all_tokens().contains(q) <==> pre.spec_owner_of(q) is Some);
            }
            // per-owner membership stays in step with ownership
            pre.lemma_owned_distinct(account);
            assert(pre.spec_owned(account).contains(idv));
            let pos = pre.spec_owned(account).index_of(idv);
            assert(pre.spec_owned(account)[pos] == idv && 0 <= pos < pre.spec_owned(account).len());
            crate::assoc::lemma_swap_pop_distinct(pre.spec_owned(account), pos);
            assert forall|q: IdView, a: AccountId| #[trigger]
                self.spec_owned(a).contains(q) <==> self.spec_owner_of(q) == Some(a) by {
                assert(pre.spec_owned(a).contains(q) <==> pre.spec_owner_of(q) == Some(a));
                if a == account {
                    assert(self.spec_owned(a) == swap_pop(pre.spec_owned(account), idv));
                } else {
                    assert(self.spec_owned(a) == pre.spec_owned(a));
                    if q == idv {
                        assert(pre.spec_owner_of(idv) == Some(account));
                    }
                }
            }
            assert(self.wf());
            assert(burn_transition(pre, *self, account, idv));
        }
        Ok(events)
    }

    /// Mints a fresh token to `account` and writes the given attributes
    /// under it, later entries overwriting earlier ones with the same key.
    /// The identifier is drawn from the monotonic counter, so it can never
    /// collide with an existing token.  On success the events are the mint
    /// transfer followed by one record per attribute write.
    ///
    /// Fails with `SafeTransferCheckFailed` when `account` is the reserved
    /// zero account, and with `ReachedMaxSupply` when the supply cap is
    /// reached or the identifier counter is exhausted; a failing call
    /// changes nothing.
    pub fn mint_with_attributes(
        &mut self,
        account: AccountId,
        attributes: Vec<(Vec<u8>, Vec<u8>)>,
    ) -> (r: Result<Vec<PSP34Event>, PSP34Error>)
        requires
            old(self).wf(),
            old(self).spec_balance(account) < u32::MAX,
        ensures
            final(self).wf(),
            r is Err <==> (account == AccountId::spec_zero() || !old(self).spec_can_mint()),
            match r {
                Ok(events) => ({
                    let id = IdView::U128(old(self).spec_next_id());
                    &&& mint_transition(*old(self), *final(self), account, id)
                    &&& (forall|q: IdView, k: Seq<u8>| #[trigger]
                        final(self).spec_attribute(q, k) == (if q == id {
                            spec_written(attrs_view(attributes@), k, old(self).spec_attribute(q, k))
                        } else {
                            old(self).spec_attribute(q, k)
                        }))
                    &&& events@.len() == 1 + attributes@.len()
                    &&& events@[0]@ == (EventView::Transfer { from: None, to: Some(account), id })
                    &&& (forall|j: int|
                        0 <= j < attributes@.len() ==> #[trigger] events@[j + 1]@ == (
                        EventView::AttributeSet {
                            id,
                            key: attributes@[j].0@,
                            data: attributes@[j].1@,
                        }))
                }),
                Err(e) => ({
                    &&& *final(self) == *old(self)
                    &&& (account == AccountId::spec_zero() ==> (e matches PSP34Error::SafeTransferCheckFailed(m)
                        && m@ == spec_zeroed_target_reason()))
                    &&& (account != AccountId::spec_zero() ==> e is ReachedMaxSupply)
                }),
            },
    {
        if account.is_zero() {
            return Err(zeroed_target_error());
        }
        match self.max_supply {
            Some(m) => {
                if self.total_supply >= m {
                    return Err(PSP34Error::ReachedMaxSupply);
                }
            },
            None => {},
        }
        if self.next_id == Balance::MAX {
            return Err(PSP34Error::ReachedMaxSupply);
        }
        let ghost pre = *self;
        let idnum = self.next_id;
        let ghost id = IdView::U128(idnum);
        proof {
            lemma_kv_lookup_is_some(pre.spec_owners(), id);
            if pre.spec_owner_of(id) is Some {
                let j = choose|j: int|
                    0 <= j < pre.spec_owners().len() && #[trigger] pre.spec_owners()[j].0 == id;
                assert(pre.spec_owners()[j].0 matches IdView::U128(v) && v < pre.spec_next_id());
                assert(false);
            }
            assert(!pre.spec_all_tokens().contains(id));
            assert(!pre.spec_owned(account).contains(id));
        }
        self.total_supply = self.total_supply + 1;
        self.next_id = idnum + 1;
        self.owners.push((Id::U128(idnum), account));
        proof {
            assert(self.spec_owners() =~= pre.spec_owners().push((id, account)));
        }
        self.all_tokens.add(Id::U128(idnum));
        self.slot_add(account, Id::U128(idnum));
        let ghost post_mint = *self;
        proof {
            assert forall|q: IdView| true implies #[trigger] self.spec_owner_of(q) == (if q == id {
                Some(account)
            } else {
                pre.spec_owner_of(q)
            }) by {
                lemma_kv_lookup_push(pre.spec_owners(), id, account, q);
            }
            assert forall|j: int|
                0 <= j < kv_keys(pre.spec_owners()).len() implies kv_keys(pre.spec_owners())[j]
                != id by {
                assert(pre.spec_owners()[j].0 != id);
            }
            assert(!kv_keys(pre.spec_owners()).contains(id));
            lemma_push_distinct(kv_keys(pre.spec_owners()), id);
            assert(kv_keys(self.spec_owners()) =~= kv_keys(pre.spec_owners()).push(id));
            lemma_push_contains(pre.spec_all_tokens(), id);
            lemma_push_contains(pre.spec_owned(account), id);
            assert forall|q: IdView, a: AccountId| #[trigger]
                self.spec_owned(a).contains(q) <==> self.spec_owner_of(q) == Some(a) by {
                assert(pre.spec_owned(a).contains(q) <==> pre.spec_owner_of(q) == Some(a));
                if a == account {
                    assert(self.spec_owned(a) == pre.spec_owned(a).push(id));
                } else {
                    assert(self.spec_owned(a) == pre.spec_owned(a));
                }
            }
            assert(self.wf());
            assert(mint_transition(pre, *self, account, id));
        }
        let mut events: Vec<PSP34Event> = Vec::new();
        events.push(PSP34Event::Transfer { from: None, to: Some(account), id: Id::U128(idnum) });
        let mut i: usize = 0;
        #[verifier::loop_isolation(false)]
        while i < attributes.len()
            invariant
                i <= attributes@.len(),
                self.attributes.wf(),
                forall|q: IdView, k: Seq<u8>| #[trigger]
                    self.spec_attribute(q, k) == (if q == id {
                        spec_written(
                            attrs_view(attributes@.take(i as int)),
                            k,
                            pre.spec_attribute(q, k),
                        )
                    } else {
                        pre.spec_attribute(q, k)
                    }),
                self.owners == post_mint.owners,
                self.all_tokens == post_mint.all_tokens,
                self.owned_tokens == post_mint.owned_tokens,
                self.allowances == post_mint.allowances,
                self.total_supply == post_mint.total_supply,
                self.max_supply == post_mint.max_supply,
                self.next_id == post_mint.next_id,
                events@.len() == 1 + i,
                events@[0]@ == (EventView::Transfer { from: None, to: Some(account), id }),
                forall|j: int|
                    0 <= j < i ==> #[trigger] events@[j + 1]@ == (EventView::AttributeSet {
                        id,
                        key: attributes@[j].0@,
                        data: attributes@[j].1@,
                    }),
            decreases attributes@.len() - i,
        {
            let ghost at_start = *self;
            let key = clone_bytes(&attributes[i].0);
            let value = clone_bytes(&attributes[i].1);
            self.attributes.set(Id::U128(idnum), key, value);
            let ekey = clone_bytes(&attributes[i].0);
            let evalue = clone_bytes(&attributes[i].1);
            events.push(PSP34Event::AttributeSet { id: Id::U128(idnum), key: ekey, data: evalue });
            proof {
                let tv = attrs_view(attributes@.take(i + 1));
                let tp = attrs_view(attributes@.take(i as int));
                assert(tv.drop_last() =~= tp);
                assert(tv.last() == (attributes@[i as int].0@, attributes@[i as int].1@));
                assert forall|q: IdView, k: Seq<u8>| #[trigger]
                    self.spec_attribute(q, k) == (if q == id {
                        spec_written(tv, k, pre.spec_attribute(q, k))
                    } else {
                        pre.spec_attribute(q, k)
                    }) by {
                    assert(at_start.spec_attribute(q, k) == (if q == id {
                        spec_written(tp, k, pre.spec_attribute(q, k))
                    } else {
                        pre.spec_attribute(q, k)
                    }));
                    if q == id {
                        assert(spec_written(tv, k, pre.spec_attribute(q, k)) == (if tv.last().0
                            == k {
                            Some(tv.last().1)
                        } else {
                            spec_written(tp, k, pre.spec_attribute(q, k))
                        }));
                    }
                }
                assert forall|j: int|
                    0 <= j < i + 1 implies #[trigger] events@[j + 1]@ == (EventView::AttributeSet {
                    id,
                    key: attributes@[j].0@,
                    data: attributes@[j].1@,
                }) by {
                    if j == i {
                        assert(events@[j + 1] == events@.last());
                    }
                }
            }
            i += 1;
        }
        proof {
            assert(attributes@.take(attributes@.len() as int) =~= attributes@);
            assert(self.spec_owners() == post_mint.spec_owners());
            assert(self.spec_slots() == post_mint.spec_slots());
            assert(self.spec_all_tokens() == post_mint.spec_all_tokens());
            assert forall|q: IdView| self.spec_all_tokens().contains(q) <==> #[trigger]
                self.spec_owner_of(q) is Some by {
                assert(post_mint.spec_all_tokens().contains(q) <==> post_mint.spec_owner_of(q)
                    is Some);
            }
            assert forall|q: IdView, a: AccountId| #[trigger]
                self.spec_owned(a).contains(q) <==> self.spec_owner_of(q) == Some(a) by {
                assert(post_mint.spec_owned(a).contains(q) <==> post_mint.spec_owner_of(q) == Some(
                    a,
                ));
                assert(self.spec_owned(a) == post_mint.spec_owned(a));
            }
            assert(self.components_wf());
            assert(self.wf());
            assert forall|q: IdView|
                q != id implies #[trigger] self.spec_owner_of(q) == pre.spec_owner_of(q) by {
                assert(post_mint.spec_owner_of(q) == pre.spec_owner_of(q));
            }
            assert forall|a: AccountId|
                a != account implies #[trigger] self.spec_owned(a) == pre.spec_owned(a) by {
                assert(post_mint.spec_owned(a) == pre.spec_owned(a));
            }
            assert forall|o: AccountId, p: AccountId, t: IdView| #[trigger]
                self.spec_single(o, p, t) == pre.spec_single(o, p, t) by {
                assert(post_mint.spec_single(o, p, t) == pre.spec_single(o, p, t));
            }
            assert forall|o: AccountId, p: AccountId| #[trigger]
                self.spec_blanket(o, p) == pre.spec_blanket(o, p) by {
                assert(post_mint.spec_blanket(o, p) == pre.spec_blanket(o, p));
            }
            assert(self.spec_owned(account) == post_mint.spec_owned(account));
            assert(mint_transition(pre, *self, account, id));
        }
        Ok(events)
    }

    /// Mints a fresh token to `account`.  The identifier is drawn from the
    /// monotonic counter, so it can never collide with an existing token.
    /// On success the single event is the mint transfer.
    ///
    /// Fails with `SafeTransferCheckFailed` when `account` is the reserved
    /// zero account, and with `ReachedMaxSupply` when the supply cap is
    /// reached or the identifier counter is exhausted; a failing call
    /// changes nothing.
    pub fn mint(&mut self, account: AccountId) -> (r: Result<Vec<PSP34Event>, PSP34Error>)
        requires
            old(self).wf(),
            old(self).spec_balance(account) < u32::MAX,
        ensures
            final(self).wf(),
            r is Err <==> (account == AccountId::spec_zero() || !old(self).spec_can_mint()),
            match r {
                Ok(events) => ({
                    let id = IdView::U128(old(self).spec_next_id());
                    &&& mint_transition(*old(self), *final(self), account, id)
                    &&& same_attributes(*old(self), *final(self))
                    &&& events@.len() == 1
                    &&& events@[0]@ == (EventView::Transfer { from: None, to: Some(account), id })
                }),
                Err(e) => ({
                    &&& *final(self) == *old(self)
                    &&& (account == AccountId::spec_zero() ==> (e matches PSP34Error::SafeTransferCheckFailed(m)
                        && m@ == spec_zeroed_target_reason()))
                    &&& (account != AccountId::spec_zero() ==> e is ReachedMaxSupply)
                }),
            },
    {
        let r = self.mint_with_attributes(account, Vec::new());
        proof {
            if r is Ok {
                assert(attrs_view(Seq::<(Vec<u8>, Vec<u8>)>::empty()) =~= Seq::<(
                    Seq<u8>,
                    Seq<u8>,
                )>::empty());
            }
        }
        r
    }

    /// Transfers `id` to `to` on behalf of `caller`.  The token must
    /// exist, `from` must be its holder, `to` must not be the reserved zero
    /// account, and `caller` must be the holder or hold an effective
    /// allowance for the token.  Every single-token approval `from` granted
    /// for the token is withdrawn: an approval does not survive a transfer.
    /// On success the single event is the transfer record.
    ///
    /// Fails with `TokenNotExists` when the token does not exist, with
    /// `SafeTransferCheckFailed` when `to` is the zero account, and with
    /// `NotApproved` when `caller` lacks permission or `from` is not the
    /// holder; a failing call changes nothing.
    pub fn transfer_from(
        &mut self,
        caller: AccountId,
        from: AccountId,
        to: AccountId,
        id: Id,
        _data: Vec<u8>,
    ) -> (r: Result<Vec<PSP34Event>, PSP34Error>)
        requires
            old(self).wf(),
            from == to || old(self).spec_balance(to) < u32::MAX,
        ensures
            final(self).wf(),
            r is Err <==> (!old(self).spec_exists(id@) || to == AccountId::spec_zero()
                || !old(self).spec_owner_or_approved(caller, id@) || old(self).spec_owner_of(id@)
                != Some(from)),
            match r {
                Ok(events) => ({
                    &&& transfer_transition(*old(self), *final(self), from, to, id@)
                    &&& events@.len() == 1
                    &&& events@[0]@ == (EventView::Transfer {
                        from: Some(from),
                        to: Some(to),
                        id: id@,
                    })
                }),
                Err(e) => ({
                    &&& *final(self) == *old(self)
                    &&& (!old(self).spec_exists(id@) ==> e is TokenNotExists)
                    &&& (old(self).spec_exists(id@) && to == AccountId::spec_zero() ==> (
                    e matches PSP34Error::SafeTransferCheckFailed(m) && m@
                        == spec_zeroed_target_reason()))
                    &&& (old(self).spec_exists(id@) && to != AccountId::spec_zero() ==> e
                        is NotApproved)
                }),
            },
    {
        let owner = match self.owner_of(id.duplicate()) {
            Some(o) => o,
            None => {
                return Err(PSP34Error::TokenNotExists);
            },
        };
        if to.is_zero() {
            return Err(zeroed_target_error());
        }
        if !self.owner_or_approved(caller, &id) {
            return Err(PSP34Error::NotApproved);
        }
        if owner != from {
            return Err(PSP34Error::NotApproved);
        }
        let ghost pre = *self;
        let ghost idv = id@;
        // an approval does not survive a transfer
        self.allowances.clear_token(from, &id);
        // move the ownership entry to the new holder
        let oidx = self.find_owner_index(&id);
        proof {
            assert(self.spec_owners() == pre.spec_owners());
            if oidx is None {
                lemma_kv_lookup_is_some(pre.spec_owners(), idv);
                assert(false);
            }
        }
        let oi = oidx.unwrap();
        self.owners.set(oi, (id.duplicate(), to));
        proof {
            let prev = pre.spec_owners();
            assert(self.spec_owners() =~= prev.update(oi as int, (idv, to)));
            assert forall|q: IdView| true implies #[trigger] self.spec_owner_of(q) == (if q == idv {
                Some(to)
            } else {
                pre.spec_owner_of(q)
            }) by {
                lemma_kv_lookup_update(prev, oi as int, (idv, to), q);
            }
            lemma_kv_lookup_update(prev, oi as int, (idv, to), idv);
            assert(pre.spec_owned(from).contains(idv));
            pre.lemma_owned_distinct(from);
            if from == to {
                let pos = pre.spec_owned(from).index_of(idv);
                assert(pre.spec_owned(from)[pos] == idv && 0 <= pos < pre.spec_owned(from).len());
                crate::assoc::lemma_swap_pop_distinct(pre.spec_owned(from), pos);
            }
        }
        // update both holders' enumerations
        self.slot_remove(from, &id);
        proof {
            if from == to {
                pre.lemma_owned_distinct(from);
            } else {
                assert(self.spec_owned(to) == pre.spec_owned(to));
            }
        }
        self.slot_add(to, id.duplicate());
        let mut events: Vec<PSP34Event> = Vec::new();
        events.push(PSP34Event::Transfer { from: Some(from), to: Some(to), id });
        proof {
            let prev = pre.spec_owners();
            assert(self.spec_owners() =~= prev.update(oi as int, (idv, to)));
            assert forall|q: IdView| true implies #[trigger] self.spec_owner_of(q) == (if q == idv {
                Some(to)
            } else {
                pre.spec_owner_of(q)
            }) by {
                lemma_kv_lookup_update(prev, oi as int, (idv, to), q);
            }
            // surviving owner entries: the moved one plus the untouched rest
            assert forall|j: int|
                0 <= j < self.spec_owners().len() implies ((#[trigger] self.spec_owners()[j]).1
                != AccountId::spec_zero() && (self.spec_owners()[j].0 matches IdView::U128(v) && v
                < self.spec_next_id())) by {
                if j != oi {
                    assert(self.spec_owners()[j] == prev[j]);
                } else {
                    assert(prev[j].0 == idv);
                }
            }
            assert forall|q: IdView|
                self.spec_all_tokens().contains(q) <==> #[trigger] self.spec_owner_of(q)
                    is Some by {
                assert(pre.spec_all_tokens().contains(q) <==> pre.spec_owner_of(q) is Some);
            }
            // per-owner membership stays in step with ownership
            pre.lemma_owned_distinct(from);
            assert(pre.spec_owned(from).contains(idv));
            let pos = pre.spec_owned(from).index_of(idv);
            assert(pre.spec_owned(from)[pos] == idv && 0 <= pos < pre.spec_owned(from).len());
            crate::assoc::lemma_swap_pop_distinct(pre.spec_owned(from), pos);
            lemma_push_contains(swap_pop(pre.spec_owned(from), idv), idv);
            if from != to {
                lemma_push_contains(pre.spec_owned(to), idv);
            }
            assert forall|q: IdView, a: AccountId| #[trigger]
                self.spec_owned(a).contains(q) <==> self.spec_owner_of(q) == Some(a) by {
                assert(pre.spec_owned(a).contains(q) <==> pre.spec_owner_of(q) == Some(a));
                assert(pre.spec_owned(to).contains(q) <==> pre.spec_owner_of(q) == Some(to));
                if from == to && a == to {
                    assert(self.spec_owned(a) == swap_pop(pre.spec_owned(from), idv).push(idv));
                } else if a == from {
                    assert(self.spec_owned(a) == swap_pop(pre.spec_owned(from), idv));
                } else if a == to {
                    assert(self.spec_owned(a) == pre.spec_owned(to).push(idv));
                } else {
                    assert(self.spec_owned(a) == pre.spec_owned(a));
                    if q == idv {
                        assert(pre.spec_owner_of(idv) == Some(from));
                    }
                }
            }
            assert(self.wf());
            assert(transfer_transition(pre, *self, from, to, idv));
        }
        Ok(events)
    }

    /// Transfers `id` from the caller `from` to `to`: the same operation
    /// as [`PSP34Data::transfer_from`] with `from` acting for itself.
    pub fn transfer(
        &mut self,
        from: AccountId,
        to: AccountId,
        id: Id,
        _data: Vec<u8>,
    ) -> (r: Result<Vec<PSP34Event>, PSP34Error>)
        requires
            old(self).wf(),
            from == to || old(self).spec_balance(to) < u32::MAX,
        ensures
            final(self).wf(),
            r is Err <==> (!old(self).spec_exists(id@) || to == AccountId::spec_zero()
                || !old(self).spec_owner_or_approved(from, id@) || old(self).spec_owner_of(id@)
                != Some(from)),
            match r {
                Ok(events) => ({
                    &&& transfer_transition(*old(self), *final(self), from, to, id@)
                    &&& events@.len() == 1
                    &&& events@[0]@ == (EventView::Transfer {
                        from: Some(from),
                        to: Some(to),
                        id: id@,
                    })
                }),
                Err(e) => ({
                    &&& *final(self) == *old(self)
                    &&& (!old(self).spec_exists(id@) ==> e is TokenNotExists)
                    &&& (old(self).spec_exists(id@) && to == AccountId::spec_zero() ==> (
                    e matches PSP34Error::SafeTransferCheckFailed(m) && m@
                        == spec_zeroed_target_reason()))
                    &&& (old(self).spec_exists(id@) && to != AccountId::spec_zero() ==> e
                        is NotApproved)
                }),
            },
    {
        self.transfer_from(from, from, to, id, _data)
    }

    /// Grants or withdraws an approval.  With `id == Some(t)` the grant is
    /// scoped to `t`: the token must exist, a holder cannot approve itself,
    /// the caller must be the holder or already hold an effective allowance
    /// on `t` from the holder, and the grant is recorded for the holder.  A
    /// single-token grant beside an existing blanket grant is permitted and
    /// redundant, not an error.  With `id == None` the caller sets or
    /// clears its blanket grant for `operator` directly, with no checks.
    /// On success the single event is the approval record.
    ///
    /// Fails with `TokenNotExists` when the named token does not exist,
    /// with `SelfApprove` when a holder would approve itself, and with
    /// `NotApproved` when the caller is neither holder nor approved; a
    /// failing call changes nothing.
    pub fn approve(
        &mut self,
        caller: AccountId,
        operator: AccountId,
        id: Option<Id>,
        approved: bool,
    ) -> (r: Result<Vec<PSP34Event>, PSP34Error>)
        requires
            old(self).wf(),
        ensures
            final(self).wf(),
            r is Err <==> (match opt_id_view(id) {
                Some(t) => !old(self).spec_exists(t) || (approved && old(self).spec_owner_of(t)
                    == Some(operator)) || !(old(self).spec_owner_of(t) == Some(caller) || (
                old(self).spec_owner_of(t) matches Some(o) && old(self).spec_allowance(
                    o,
                    caller,
                    Some(t),
                ))),
                None => false,
            }),
            match r {
                Ok(events) => ({
                    &&& same_ledger(*old(self), *final(self))
                    &&& events@.len() == 1
                    &&& match opt_id_view(id) {
                        Some(t) => ({
                            let owner = old(self).spec_owner_of(t)->Some_0;
                            &&& (forall|o: AccountId, p: AccountId, t2: IdView| #[trigger]
                                final(self).spec_single(o, p, t2) == (if o == owner && p == operator
                                    && t2 == t {
                                    approved
                                } else {
                                    old(self).spec_single(o, p, t2)
                                }))
                            &&& (forall|o: AccountId, p: AccountId| #[trigger]
                                final(self).spec_blanket(o, p) == old(self).spec_blanket(o, p))
                            &&& events@[0]@ == (EventView::Approval {
                                owner,
                                operator,
                                id: Some(t),
                                approved,
                            })
                        }),
                        None => ({
                            &&& (forall|o: AccountId, p: AccountId| #[trigger]
                                final(self).spec_blanket(o, p) == (if o == caller && p == operator {
                                    approved
                                } else {
                                    old(self).spec_blanket(o, p)
                                }))
                            &&& (forall|o: AccountId, p: AccountId, t2: IdView| #[trigger]
                                final(self).spec_single(o, p, t2) == old(self).spec_single(
                                    o,
                                    p,
                                    t2,
                                ))
                            &&& events@[0]@ == (EventView::Approval {
                                owner: caller,
                                operator,
                                id: None,
                                approved,
                            })
                        }),
                    }
                }),
                Err(e) => ({
                    &&& *final(self) == *old(self)
                    &&& match opt_id_view(id) {
                        Some(t) => ({
                            &&& (!old(self).spec_exists(t) ==> e is TokenNotExists)
                            &&& (old(self).spec_exists(t) && approved && old(self).spec_owner_of(t)
                                == Some(operator) ==> e is SelfApprove)
                            &&& (old(self).spec_exists(t) && !(approved && old(self).spec_owner_of(
                                t,
                            ) == Some(operator)) ==> e is NotApproved)
                        }),
                        None => false,
                    }
                }),
            },
    {
        let ghost pre = *self;
        match id {
            Some(token) => {
                let owner = match self.owner_of(token.duplicate()) {
                    Some(o) => o,
                    None => {
                        return Err(PSP34Error::TokenNotExists);
                    },
                };
                if approved && owner == operator {
                    return Err(PSP34Error::SelfApprove);
                }
                if owner != caller && !self.allowances.allowance(owner, caller, Some(&token)) {
                    return Err(PSP34Error::NotApproved);
                }
                if approved {
                    self.allowances.add_single(owner, operator, &token);
                } else {
                    self.allowances.remove_single(owner, operator, &token);
                }
                let mut events: Vec<PSP34Event> = Vec::new();
                events.push(
                    PSP34Event::Approval { owner, operator, id: Some(token), approved },
                );
                proof {
                    self.lemma_same_ledger_wf(pre);
                }
                Ok(events)
            },
            None => {
                self.allowances.set_blanket(caller, operator, approved);
                let mut events: Vec<PSP34Event> = Vec::new();
                events.push(
                    PSP34Event::Approval { owner: caller, operator, id: None, approved },
                );
                proof {
                    self.lemma_same_ledger_wf(pre);
                }
                Ok(events)
            },
        }
    }

    /// A state that differs from a well-formed one only in its approval
    /// registry, which is itself well-formed, is well-formed.
    proof fn lemma_same_ledger_wf(self, pre: PSP34Data)
        requires
            pre.wf(),
            self.owners == pre.owners,
            self.all_tokens == pre.all_tokens,
            self.owned_tokens == pre.owned_tokens,
            self.attributes == pre.attributes,
            self.total_supply == pre.total_supply,
            self.max_supply == pre.max_supply,
            self.next_id == pre.next_id,
            self.allowances.wf(),
        ensures
            self.wf(),
            same_ledger(pre, self),
    {
        assert(self.spec_owners() == pre.spec_owners());
        assert(self.spec_slots() == pre.spec_slots());
        assert(self.spec_all_tokens() == pre.spec_all_tokens());
        assert forall|q: IdView|
            self.spec_all_tokens().contains(q) <==> #[trigger] self.spec_owner_of(q) is Some by {
            assert(pre.spec_all_tokens().contains(q) <==> pre.spec_owner_of(q) is Some);
        }
        assert forall|q: IdView, a: AccountId| #[trigger]
            self.spec_owned(a).contains(q) <==> self.spec_owner_of(q) == Some(a) by {
            assert(pre.spec_owned(a).contains(q) <==> pre.spec_owner_of(q) == Some(a));
        }
        assert(self.components_wf());
        assert(self.wf());
        assert forall|q: IdView| true implies #[trigger] self.spec_owner_of(q)
            == pre.spec_owner_of(q) by {}
        assert forall|a: AccountId| true implies #[trigger] self.spec_owned(a) == pre.spec_owned(
            a,
        ) by {}
        assert forall|q: IdView, k: Seq<u8>| true implies #[trigger] self.spec_attribute(q, k)
            == pre.spec_attribute(q, k) by {}
    }

    /// The set of existing tokens.
    pub open spec fn spec_token_domain(&self) -> Set<IdView> {
        Set::new(|id: IdView| self.spec_exists(id))
    }

    /// The set of tokens `account` holds.
    pub open spec fn spec_holdings(&self, account: AccountId) -> Set<IdView> {
        Set::new(|id: IdView| self.spec_owner_of(id) == Some(account))
    }

    /// Supply invariant law: the total supply equals the length of the
    /// global enumeration, which equals the number of existing tokens.
    pub proof fn lemma_supply_invariant(self)
        requires
            self.wf(),
        ensures
            self.spec_total_supply() == self.spec_all_tokens().len(),
            self.spec_token_domain().finite(),
            self.spec_total_supply() == self.spec_token_domain().len(),
    {
        broadcast use vstd::seq_lib::seq_to_set_is_finite;

        assert(self.spec_token_domain() =~= self.spec_all_tokens().to_set());
        self.spec_all_tokens().unique_seq_to_set();
    }

    /// Balance invariant law: an account's balance equals the length of its
    /// enumeration slot, which equals the number of tokens it holds.
    pub proof fn lemma_balance_invariant(self, account: AccountId)
        requires
            self.wf(),
        ensures
            self.spec_balance(account) == self.spec_owned(account).len(),
            self.spec_holdings(account).finite(),
            self.spec_balance(account) == self.spec_holdings(account).len(),
    {
        broadcast use vstd::seq_lib::seq_to_set_is_finite;

        assert(self.slots_wf());
        self.lemma_owned_distinct(account);
        assert(self.spec_holdings(account) =~= self.spec_owned(account).to_set());
        self.spec_owned(account).unique_seq_to_set();
    }

    /// Freshness law: the identifier the next mint will take never names an
    /// existing token, so a mint can never collide with one.
    pub proof fn lemma_next_id_fresh(self)
        requires
            self.wf(),
        ensures
            !self.spec_exists(IdView::U128(self.spec_next_id())),
    {
        let id = IdView::U128(self.spec_next_id());
        lemma_kv_lookup_is_some(self.spec_owners(), id);
        if self.spec_exists(id) {
            let j = choose|j: int|
                0 <= j < self.spec_owners().len() && #[trigger] self.spec_owners()[j].0 == id;
            assert(self.spec_owners()[j].0 matches IdView::U128(v) && v < self.spec_next_id());
            assert(false);
        }
    }

    /// Round-trip law: a successful mint of `id` to `account` leaves the
    /// token owned by `account` and standing at position
    /// `total_supply - 1` of the global enumeration.
    pub proof fn lemma_mint_round_trip(
        pre: PSP34Data,
        post: PSP34Data,
        account: AccountId,
        id: IdView,
    )
        requires
            pre.wf(),
            mint_transition(pre, post, account, id),
        ensures
            post.spec_owner_of(id) == Some(account),
            post.spec_total_supply() >= 1,
            post.spec_all_tokens()[post.spec_total_supply() - 1] == id,
    {
        assert(post.spec_all_tokens().last() == id);
    }

    /// Approval-clearing law: a transfer of `id` away from `from` leaves no
    /// single-token grant of `from` for `id` behind, whoever held one.
    pub proof fn lemma_transfer_clears_allowance(
        pre: PSP34Data,
        post: PSP34Data,
        from: AccountId,
        to: AccountId,
        id: IdView,
    )
        requires
            transfer_transition(pre, post, from, to, id),
        ensures
            forall|p: AccountId| !#[trigger] post.spec_single(from, p, id),
    {
    }

    /// The attribute value stored for `key` under `id`.
    pub fn get_attribute(&self, id: Id, key: Vec<u8>) -> (r: Option<Vec<u8>>)
        requires
            self.wf(),
        ensures
            match r {
                Some(v) => self.spec_attribute(id@, key@) == Some(v@),
                None => self.spec_attribute(id@, key@) is None,
            },
    {
        self.attributes.get(&id, &key)
    }
}

} // verus!
