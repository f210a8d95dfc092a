//! Dense enumeration of token identifiers.

use vstd::prelude::*;

use crate::assoc::lemma_swap_pop_distinct;
use crate::types::Id;
use crate::types::IdView;

verus! {

/// A dense array of distinct token identifiers supporting constant-time
/// removal from the middle: the removed slot is overwritten with the last
/// element and the array shrinks by one (swap-and-pop).  Removal therefore
/// does not preserve the relative order of the survivors, but it preserves
/// the bijection between elements and positions.
pub struct EnumerationIndex {
    items: Vec<Id>,
}

impl View for EnumerationIndex {
    type V = Seq<IdView>;

    closed spec fn view(&self) -> Seq<IdView> {
        self.items@.map_values(|id: Id| id@)
    }
}

impl EnumerationIndex {
    /// All stored identifiers are distinct.
    pub open spec fn wf(&self) -> bool {
        self@.no_duplicates()
    }

    pub fn new() -> (r: EnumerationIndex)
        ensures
            r@ == Seq::<IdView>::empty(),
            r.wf(),
    {
        let r = EnumerationIndex { items: Vec::new() };
        proof {
            assert(r@ =~= Seq::<IdView>::empty());
        }
        r
    }

    pub fn len(&self) -> (n: usize)
        ensures
            n == self@.len(),
    {
        self.items.len()
    }

    /// Whether `id` is listed.
    pub fn contains(&self, id: &Id) -> (r: bool)
        ensures
            r == self@.contains(id@),
    {
        self.position_of(id).is_some()
    }

    /// The position of `id`: the first index holding it, if any.
    pub fn position_of(&self, id: &Id) -> (r: Option<usize>)
        ensures
            match r {
                Some(i) => i < self@.len() && self@[i as int] == id@ && (forall|j: int|
                    0 <= j < i ==> self@[j] != id@),
                None => !self@.contains(id@),
            },
    {
        let mut i: usize = 0;
        while i < self.items.len()
            invariant
                i <= self@.len(),
                self@.len() == self.items@.len(),
                forall|j: int| 0 <= j < i ==> self@[j] != id@,
            decreases self.items.len() - i,
        {
            let cur: &Id = &self.items[i];
            if cur == id {
                return Some(i);
            }
            i += 1;
        }
        None
    }

    /// The identifier at `index`, or `None` when `index` is out of range.
    pub fn at(&self, index: usize) -> (r: Option<Id>)
        ensures
            match r {
                Some(x) => index < self@.len() && x@ == self@[index as int],
                None => index >= self@.len(),
            },
    {
        if index < self.items.len() {
            Some(self.items[index].duplicate())
        } else {
            None
        }
    }

    /// Appends a fresh identifier at the end.
    pub fn add(&mut self, id: Id)
        requires
            old(self).wf(),
            !old(self)@.contains(id@),
        ensures
            final(self).wf(),
            final(self)@ == old(self)@.push(id@),
    {
        self.items.push(id);
        proof {
            assert(self@ =~= old(self)@.push(id@));
            assert forall|j1: int, j2: int|
                0 <= j1 < j2 < self@.len() implies self@[j1] != self@[j2] by {
                if j2 == self@.len() - 1 {
                    assert(old(self)@[j1] == self@[j1]);
                    assert(old(self)@[j1] != id@);
                } else {
                    assert(old(self)@[j1] == self@[j1]);
                    assert(old(self)@[j2] == self@[j2]);
                }
            }
            assert(self@.no_duplicates());
        }
    }

    /// Removes a listed identifier by swap-and-pop: the last element moves
    /// into the vacated position and the array shrinks by one.
    pub fn remove(&mut self, id: &Id)
        requires
            old(self).wf(),
            old(self)@.contains(id@),
        ensures
            final(self).wf(),
            final(self)@ == old(self)@.update(old(self)@.index_of(id@), old(self)@.last())
                .drop_last(),
            final(self)@.len() == old(self)@.len() - 1,
            forall|x: IdView| #[trigger]
                final(self)@.contains(x) <==> (old(self)@.contains(x) && x != id@),
    {
        let pos = self.position_of(id).unwrap();
        let _ = self.items.swap_remove(pos);
        proof {
            let prev = old(self)@;
            assert(self@ =~= prev.update(pos as int, prev.last()).drop_last());
            let ios = prev.index_of(id@);
            assert(prev[ios] == id@ && 0 <= ios < prev.len());
            assert(ios == pos);
            lemma_swap_pop_distinct(prev, pos as int);
        }
    }
}

/// Index bijection law: in a well-formed enumeration, looking up the
/// position of the element stored at any index gives back that index.
pub proof fn lemma_index_bijection(s: Seq<IdView>)
    requires
        s.no_duplicates(),
    ensures
        forall|i: int| 0 <= i < s.len() ==> #[trigger] s.index_of(s[i]) == i,
{
    assert forall|i: int| 0 <= i < s.len() implies #[trigger] s.index_of(s[i]) == i by {
        assert(s.contains(s[i]));
        let j = s.index_of(s[i]);
        assert(s[j] == s[i] && 0 <= j < s.len());
    }
}

} // verus!
