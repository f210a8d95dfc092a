//! Two-tier approval registry.

use vstd::prelude::*;

use crate::assoc::lemma_push_contains;
use crate::assoc::lemma_push_distinct;
use crate::assoc::lemma_swap_pop_distinct;
use crate::types::AccountId;
use crate::types::Id;
use crate::types::IdView;

verus! {

/// Approvals granted by owners to operators: either scoped to a single
/// token or blanket over all of the owner's tokens.  Both tiers have set
/// semantics — granting an approval that already stands, or withdrawing one
/// that does not, is a no-op, not an error.
pub struct AllowanceRegistry {
    single: Vec<(AccountId, AccountId, Id)>,
    blanket: Vec<(AccountId, AccountId)>,
}

impl AllowanceRegistry {
    /// The single-token grants as (owner, operator, token) triples.
    pub closed spec fn spec_singles(&self) -> Seq<(AccountId, AccountId, IdView)> {
        self.single@.map_values(|t: (AccountId, AccountId, Id)| (t.0, t.1, t.2@))
    }

    /// The blanket grants as (owner, operator) pairs.
    pub closed spec fn spec_blankets(&self) -> Seq<(AccountId, AccountId)> {
        self.blanket@
    }

    /// Each grant is recorded at most once.
    pub open spec fn wf(&self) -> bool {
        self.spec_singles().no_duplicates() && self.spec_blankets().no_duplicates()
    }

    /// Whether `operator` holds a grant from `owner` scoped to `token`.
    pub open spec fn spec_single(&self, owner: AccountId, operator: AccountId, token: IdView) -> bool {
        self.spec_singles().contains((owner, operator, token))
    }

    /// Whether `operator` holds a blanket grant from `owner`.
    pub open spec fn spec_blanket(&self, owner: AccountId, operator: AccountId) -> bool {
        self.spec_blankets().contains((owner, operator))
    }

    /// The effective allowance: a blanket grant covers every token, a
    /// single-token grant only its own.
    pub open spec fn spec_allowance(
        &self,
        owner: AccountId,
        operator: AccountId,
        token: Option<IdView>,
    ) -> bool {
        match token {
            Some(t) => self.spec_single(owner, operator, t) || self.spec_blanket(owner, operator),
            None => self.spec_blanket(owner, operator),
        }
    }

    pub fn new() -> (r: AllowanceRegistry)
        ensures
            r.wf(),
            r.spec_singles() == Seq::<(AccountId, AccountId, IdView)>::empty(),
            r.spec_blankets() == Seq::<(AccountId, AccountId)>::empty(),
    {
        let r = AllowanceRegistry { single: Vec::new(), blanket: Vec::new() };
        proof {
            assert(r.spec_singles() =~= Seq::<(AccountId, AccountId, IdView)>::empty());
        }
        r
    }

    /// Looks for the single-token grant (owner, operator, token); returns
    /// its position.
    fn find_single(&self, owner: AccountId, operator: AccountId, token: &Id) -> (r: Option<usize>)
        ensures
            match r {
                Some(i) => i < self.spec_singles().len() && self.spec_singles()[i as int] == (
                    owner,
                    operator,
                    token@,
                ),
                None => !self.spec_single(owner, operator, token@),
            },
    {
        let mut i: usize = 0;
        while i < self.single.len()
            invariant
                i <= self.single@.len(),
                forall|j: int| 0 <= j < i ==> self.spec_singles()[j] != (owner, operator, token@),
            decreases self.single@.len() - i,
        {
            let entry = &self.single[i];
            if entry.0 == owner && entry.1 == operator && &entry.2 == token {
                return Some(i);
            }
            i += 1;
        }
        None
    }

    /// Looks for the blanket grant (owner, operator); returns its position.
    fn find_blanket(&self, owner: AccountId, operator: AccountId) -> (r: Option<usize>)
        ensures
            match r {
                Some(i) => i < self.spec_blankets().len() && self.spec_blankets()[i as int] == (
                    owner,
                    operator,
                ),
                None => !self.spec_blanket(owner, operator),
            },
    {
        let mut i: usize = 0;
        while i < self.blanket.len()
            invariant
                i <= self.blanket@.len(),
                forall|j: int| 0 <= j < i ==> self.spec_blankets()[j] != (owner, operator),
            decreases self.blanket@.len() - i,
        {
            let entry = &self.blanket[i];
            if entry.0 == owner && entry.1 == operator {
                return Some(i);
            }
            i += 1;
        }
        None
    }

    /// Whether `operator` may act on `token` by a grant scoped to it.
    pub fn is_allowed_single(&self, owner: AccountId, operator: AccountId, token: &Id) -> (r: bool)
        ensures
            r == self.spec_single(owner, operator, token@),
    {
        self.find_single(owner, operator, token).is_some()
    }

    /// Whether `operator` may act on all of `owner`'s tokens.
    pub fn is_allowed_all(&self, owner: AccountId, operator: AccountId) -> (r: bool)
        ensures
            r == self.spec_blanket(owner, operator),
    {
        self.find_blanket(owner, operator).is_some()
    }

    /// The effective allowance for `token`, or the blanket allowance when
    /// `token` is `None`.
    pub fn allowance(&self, owner: AccountId, operator: AccountId, token: Option<&Id>) -> (r: bool)
        ensures
            match token {
                Some(t) => r == self.spec_allowance(owner, operator, Some(t@)),
                None => r == self.spec_allowance(owner, operator, None::<IdView>),
            },
    {
        match token {
            Some(t) => {
                self.is_allowed_single(owner, operator, t) || self.is_allowed_all(owner, operator)
            },
            None => self.is_allowed_all(owner, operator),
        }
    }

    /// Records a single-token grant; a grant that already stands is left as
    /// it is.
    pub fn add_single(&mut self, owner: AccountId, operator: AccountId, token: &Id)
        requires
            old(self).wf(),
        ensures
            final(self).wf(),
            forall|o: AccountId, p: AccountId, t: IdView| #[trigger]
                final(self).spec_single(o, p, t) == (old(self).spec_single(o, p, t) || (o == owner
                    && p == operator && t == token@)),
            final(self).spec_blankets() == old(self).spec_blankets(),
    {
        if self.find_single(owner, operator, token).is_none() {
            self.single.push((owner, operator, token.duplicate()));
            proof {
                let prev = old(self).spec_singles();
                assert(self.spec_singles() =~= prev.push((owner, operator, token@)));
                lemma_push_contains(prev, (owner, operator, token@));
                lemma_push_distinct(prev, (owner, operator, token@));
            }
        }
    }

    /// Withdraws a single-token grant; a grant that does not stand is left
    /// as it is.
    pub fn remove_single(&mut self, owner: AccountId, operator: AccountId, token: &Id)
        requires
            old(self).wf(),
        ensures
            final(self).wf(),
            forall|o: AccountId, p: AccountId, t: IdView| #[trigger]
                final(self).spec_single(o, p, t) == (old(self).spec_single(o, p, t) && !(o == owner
                    && p == operator && t == token@)),
            final(self).spec_blankets() == old(self).spec_blankets(),
    {
        if let Some(i) = self.find_single(owner, operator, token) {
            let _ = self.single.swap_remove(i);
            proof {
                let prev = old(self).spec_singles();
                assert(self.spec_singles() =~= prev.update(i as int, prev.last()).drop_last());
                lemma_swap_pop_distinct(prev, i as int);
            }
        }
    }

    /// Sets or clears a blanket grant; repeating a setting is a no-op.
    pub fn set_blanket(&mut self, owner: AccountId, operator: AccountId, approved: bool)
        requires
            old(self).wf(),
        ensures
            final(self).wf(),
            forall|o: AccountId, p: AccountId| #[trigger]
                final(self).spec_blanket(o, p) == (if o == owner && p == operator {
                    approved
                } else {
                    old(self).spec_blanket(o, p)
                }),
            final(self).spec_singles() == old(self).spec_singles(),
    {
        let found = self.find_blanket(owner, operator);
        if approved {
            if found.is_none() {
                self.blanket.push((owner, operator));
                proof {
                    let prev = old(self).spec_blankets();
                    lemma_push_contains(prev, (owner, operator));
                    lemma_push_distinct(prev, (owner, operator));
                }
            }
        } else {
            if let Some(i) = found {
                let _ = self.blanket.swap_remove(i);
                proof {
                    let prev = old(self).spec_blankets();
                    lemma_swap_pop_distinct(prev, i as int);
                }
            }
        }
    }

    /// Withdraws every single-token grant that `owner` gave for `token`, to
    /// any operator.  Blanket grants are untouched.
    pub fn clear_token(&mut self, owner: AccountId, token: &Id)
        requires
            old(self).wf(),
        ensures
            final(self).wf(),
            forall|o: AccountId, p: AccountId, t: IdView| #[trigger]
                final(self).spec_single(o, p, t) == (old(self).spec_single(o, p, t) && !(o == owner
                    && t == token@)),
            final(self).spec_blankets() == old(self).spec_blankets(),
    {
        let mut i: usize = 0;
        while i < self.single.len()
            invariant
                old(self).wf(),
                self.spec_singles().no_duplicates(),
                self.spec_blankets() == old(self).spec_blankets(),
                i <= self.single@.len(),
                forall|x: (AccountId, AccountId, IdView)| #[trigger]
                    self.spec_singles().contains(x) ==> old(self).spec_singles().contains(x),
                forall|x: (AccountId, AccountId, IdView)| #[trigger]
                    old(self).spec_singles().contains(x) && !(x.0 == owner && x.2 == token@)
                    ==> self.spec_singles().contains(x),
                forall|j: int|
                    0 <= j < i ==> !(#[trigger] self.spec_singles()[j].0 == owner
                        && self.spec_singles()[j].2 == token@),
            decreases self.single@.len() - i,
        {
            let entry = &self.single[i];
            let matches_token = entry.0 == owner && &entry.2 == token;
            if matches_token {
                proof {
                    lemma_swap_pop_distinct(self.spec_singles(), i as int);
                }
                let ghost prev = self.spec_singles();
                let _ = self.single.swap_remove(i);
                proof {
                    assert(self.spec_singles() =~= prev.update(i as int, prev.last()).drop_last());
                }
            } else {
                i += 1;
            }
        }
        proof {
            assert forall|x: (AccountId, AccountId, IdView)| #[trigger]
                self.spec_singles().contains(x) implies (old(self).spec_singles().contains(x) && !(
            x.0 == owner && x.2 == token@)) by {
                let j = choose|j: int|
                    0 <= j < self.spec_singles().len() && self.spec_singles()[j] == x;
                assert(!(self.spec_singles()[j].0 == owner && self.spec_singles()[j].2 == token@));
            }
        }
    }
}

} // verus!
