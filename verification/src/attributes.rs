//! Per-token attribute storage.

use vstd::prelude::*;
use vstd::pervasive::VecAdditionalExecFns;

use crate::assoc::kv_keys;
use crate::assoc::kv_lookup;
use crate::assoc::lemma_kv_lookup_at_index;
use crate::assoc::lemma_kv_lookup_is_some;
use crate::assoc::lemma_kv_lookup_push;
use crate::assoc::lemma_kv_lookup_update;
use crate::assoc::lemma_push_distinct;
use crate::types::bytes_eq;
use crate::types::clone_bytes;
use crate::types::Id;
use crate::types::IdView;

verus! {

/// Arbitrary key/value byte strings scoped to a token identifier.  The
/// store keeps no connection to the ledger: attributes may be written for
/// an identifier that does not (or does not yet) exist, which lets a mint
/// write its attributes in either order.
pub struct AttributeStore {
    entries: Vec<(Id, Vec<u8>, Vec<u8>)>,
}

impl AttributeStore {
    /// The stored bindings, keyed by (token, attribute key).
    pub closed spec fn spec_entries(&self) -> Seq<((IdView, Seq<u8>), Seq<u8>)> {
        self.entries@.map_values(|t: (Id, Vec<u8>, Vec<u8>)| ((t.0@, t.1@), t.2@))
    }

    /// Each (token, key) pair is bound at most once.
    pub open spec fn wf(&self) -> bool {
        kv_keys(self.spec_entries()).no_duplicates()
    }

    /// The value bound to `key` under `id`.
    pub open spec fn spec_get(&self, id: IdView, key: Seq<u8>) -> Option<Seq<u8>> {
        kv_lookup(self.spec_entries(), (id, key))
    }

    pub fn new() -> (r: AttributeStore)
        ensures
            r.wf(),
            forall|id: IdView, key: Seq<u8>| #[trigger] r.spec_get(id, key) is None,
    {
        let r = AttributeStore { entries: Vec::new() };
        proof {
            assert(r.spec_entries() =~= Seq::<((IdView, Seq<u8>), Seq<u8>)>::empty());
        }
        r
    }

    /// Looks for the binding of (id, key); returns its position.
    fn find(&self, id: &Id, key: &Vec<u8>) -> (r: Option<usize>)
        ensures
            match r {
                Some(i) => i < self.spec_entries().len() && self.spec_entries()[i as int].0 == (
                    id@,
                    key@,
                ),
                None => forall|j: int|
                    0 <= j < self.spec_entries().len() ==> (#[trigger] self.spec_entries()[j]).0
                        != (id@, key@),
            },
    {
        let mut i: usize = 0;
        while i < self.entries.len()
            invariant
                i <= self.entries@.len(),
                forall|j: int| 0 <= j < i ==> (#[trigger] self.spec_entries()[j]).0 != (id@, key@),
            decreases self.entries@.len() - i,
        {
            let entry = &self.entries[i];
            if &entry.0 == id && bytes_eq(&entry.1, key) {
                return Some(i);
            }
            i += 1;
        }
        None
    }

    /// The value stored for `key` under `id`, or `None` when absent.
    pub fn get(&self, id: &Id, key: &Vec<u8>) -> (r: Option<Vec<u8>>)
        requires
            self.wf(),
        ensures
            match r {
                Some(v) => self.spec_get(id@, key@) == Some(v@),
                None => self.spec_get(id@, key@) is None,
            },
    {
        match self.find(id, key) {
            Some(i) => {
                proof {
                    lemma_kv_lookup_at_index(self.spec_entries(), i as int);
                }
                Some(clone_bytes(&self.entries[i].2))
            },
            None => {
                proof {
                    lemma_kv_lookup_is_some(self.spec_entries(), (id@, key@));
                }
                None
            },
        }
    }

    /// Binds `value` to `key` under `id`, overwriting any earlier binding.
    pub fn set(&mut self, id: Id, key: Vec<u8>, value: Vec<u8>)
        requires
            old(self).wf(),
        ensures
            final(self).wf(),
            forall|q: IdView, k: Seq<u8>| #[trigger]
                final(self).spec_get(q, k) == (if q == id@ && k == key@ {
                    Some(value@)
                } else {
                    old(self).spec_get(q, k)
                }),
    {
        let ghost prev = self.spec_entries();
        let ghost newkey = (id@, key@);
        let ghost p = ((id@, key@), value@);
        match self.find(&id, &key) {
            Some(i) => {
                self.entries.set(i, (id, key, value));
                proof {
                    assert(self.spec_entries() =~= prev.update(i as int, p));
                    assert forall|q: IdView, k: Seq<u8>| #[trigger]
                        self.spec_get(q, k) == (if q == id@ && k == key@ {
                            Some(value@)
                        } else {
                            kv_lookup(prev, (q, k))
                        }) by {
                        lemma_kv_lookup_update(prev, i as int, p, (q, k));
                    }
                    lemma_kv_lookup_update(prev, i as int, p, newkey);
                    assert(kv_keys(self.spec_entries()) =~= kv_keys(prev));
                }
            },
            None => {
                self.entries.push((id, key, value));
                proof {
                    assert(self.spec_entries() =~= prev.push(p));
                    assert forall|q: IdView, k: Seq<u8>| #[trigger]
                        self.spec_get(q, k) == (if q == id@ && k == key@ {
                            Some(value@)
                        } else {
                            kv_lookup(prev, (q, k))
                        }) by {
                        lemma_kv_lookup_push(prev, p.0, p.1, (q, k));
                    }
                    assert forall|j: int|
                        0 <= j < kv_keys(prev).len() implies kv_keys(prev)[j] != newkey by {
                        assert((prev[j]).0 != (id@, key@));
                    }
                    assert(!kv_keys(prev).contains(newkey));
                    lemma_push_distinct(kv_keys(prev), newkey);
                    assert(kv_keys(self.spec_entries()) =~= kv_keys(prev).push(newkey));
                }
            },
        }
    }
}

} // verus!
