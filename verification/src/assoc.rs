//! Association-list model.
//!
//! The ledger stores each of its maps as a vector of key/value pairs whose
//! keys are pairwise distinct.  These spec functions give such a sequence
//! its meaning as a partial map, and the lemmas cover the three ways the
//! ledger edits one: appending a fresh binding, overwriting the value at a
//! position, and removing the binding at a position by moving the last
//! element into its place (swap-and-pop).

use vstd::prelude::*;

verus! {

/// The keys of an association list, in order.
pub open spec fn kv_keys<K, V>(s: Seq<(K, V)>) -> Seq<K> {
    s.map_values(|p: (K, V)| p.0)
}

/// The value bound to `k`; when keys repeat, the last binding wins.
pub open spec fn kv_lookup<K, V>(s: Seq<(K, V)>, k: K) -> Option<V>
    decreases s.len(),
{
    if s.len() == 0 {
        None
    } else if s.last().0 == k {
        Some(s.last().1)
    } else {
        kv_lookup(s.drop_last(), k)
    }
}

/// A key has a binding exactly when it occurs in the list.
pub proof fn lemma_kv_lookup_is_some<K, V>(s: Seq<(K, V)>, k: K)
    ensures
        kv_lookup(s, k) is Some <==> exists|j: int| 0 <= j < s.len() && #[trigger] s[j].0 == k,
    decreases s.len(),
{
    if s.len() != 0 {
        lemma_kv_lookup_is_some(s.drop_last(), k);
        if s.last().0 == k {
            assert(s[s.len() - 1].0 == k);
        } else if exists|j: int| 0 <= j < s.len() && #[trigger] s[j].0 == k {
            let j = choose|j: int| 0 <= j < s.len() && #[trigger] s[j].0 == k;
            assert(s.drop_last()[j].0 == k);
        }
    }
}

/// A successful lookup names a pair that stands in the list.
pub proof fn lemma_kv_lookup_to_index<K, V>(s: Seq<(K, V)>, k: K)
    requires
        kv_lookup(s, k) is Some,
    ensures
        exists|j: int|
            0 <= j < s.len() && #[trigger] s[j] == (k, kv_lookup(s, k)->Some_0),
    decreases s.len(),
{
    if s.last().0 == k {
        assert(s[s.len() - 1] == (k, kv_lookup(s, k)->Some_0));
    } else {
        lemma_kv_lookup_to_index(s.drop_last(), k);
        let j = choose|j: int|
            0 <= j < s.drop_last().len() && #[trigger] s.drop_last()[j] == (
            k,
            kv_lookup(s.drop_last(), k)->Some_0,
        );
        assert(s[j] == (k, kv_lookup(s, k)->Some_0));
    }
}

/// With distinct keys, the binding at any position is the lookup result.
pub proof fn lemma_kv_lookup_at_index<K, V>(s: Seq<(K, V)>, i: int)
    requires
        kv_keys(s).no_duplicates(),
        0 <= i < s.len(),
    ensures
        kv_lookup(s, s[i].0) == Some(s[i].1),
    decreases s.len(),
{
    if i == s.len() - 1 {
        assert(s.last() == s[i]);
    } else {
        assert(kv_keys(s)[i] != kv_keys(s)[s.len() - 1]);
        assert(s.last().0 != s[i].0);
        assert(kv_keys(s.drop_last()) =~= kv_keys(s).drop_last());
        lemma_kv_lookup_at_index(s.drop_last(), i);
        assert(s.drop_last()[i] == s[i]);
    }
}

/// Appending a fresh pair adds one binding and keeps the others.
pub proof fn lemma_kv_lookup_push<K, V>(s: Seq<(K, V)>, k: K, v: V, q: K)
    ensures
        kv_lookup(s.push((k, v)), q) == if q == k {
            Some(v)
        } else {
            kv_lookup(s, q)
        },
        kv_keys(s.push((k, v))) =~= kv_keys(s).push(k),
{
    assert(s.push((k, v)).drop_last() =~= s);
}

/// Overwriting the value at a position, keeping its key, rebinds that key
/// alone and leaves the key sequence as it was.
pub proof fn lemma_kv_lookup_update<K, V>(s: Seq<(K, V)>, i: int, p: (K, V), q: K)
    requires
        kv_keys(s).no_duplicates(),
        0 <= i < s.len(),
        s[i].0 == p.0,
    ensures
        kv_lookup(s.update(i, p), q) == if q == p.0 {
            Some(p.1)
        } else {
            kv_lookup(s, q)
        },
        kv_keys(s.update(i, p)) =~= kv_keys(s),
    decreases s.len(),
{
    assert(kv_keys(s.update(i, p)) =~= kv_keys(s));
    if i == s.len() - 1 {
        assert(s.update(i, p).last() == p);
        assert(s.update(i, p).drop_last() =~= s.drop_last());
        if p.0 != q {
            assert(s.last().0 != q);
        }
    } else {
        assert(s.update(i, p).last() == s.last());
        assert(s.update(i, p).drop_last() =~= s.drop_last().update(i, p));
        assert(kv_keys(s.drop_last()) =~= kv_keys(s).drop_last());
        lemma_kv_lookup_update(s.drop_last(), i, p, q);
        assert(s.drop_last()[i] == s[i]);
        if s.last().0 == q {
            assert(kv_keys(s)[i] != kv_keys(s)[s.len() - 1]);
            assert(q != p.0);
        }
    }
}

/// Distinct keys make the pairs themselves distinct.
pub proof fn lemma_distinct_keys_distinct_pairs<K, V>(s: Seq<(K, V)>)
    requires
        kv_keys(s).no_duplicates(),
    ensures
        s.no_duplicates(),
{
    assert forall|j1: int, j2: int| 0 <= j1 < j2 < s.len() implies s[j1] != s[j2] by {
        assert(kv_keys(s)[j1] != kv_keys(s)[j2]);
    }
}

/// Appending an element extends the membership of a sequence by exactly it.
pub proof fn lemma_push_contains<T>(s: Seq<T>, a: T)
    ensures
        forall|x: T| #[trigger] s.push(a).contains(x) <==> (s.contains(x) || x == a),
{
    assert forall|x: T| #[trigger] s.push(a).contains(x) implies (s.contains(x) || x == a) by {
        let j = choose|j: int| 0 <= j < s.push(a).len() && s.push(a)[j] == x;
        if j < s.len() {
            assert(s[j] == x);
        }
    }
    assert forall|x: T| s.contains(x) || x == a implies #[trigger] s.push(a).contains(x) by {
        if s.contains(x) {
            let j = choose|j: int| 0 <= j < s.len() && s[j] == x;
            assert(s.push(a)[j] == x);
        } else {
            assert(s.push(a)[s.len() as int] == x);
        }
    }
}

/// Appending an element that does not occur keeps a sequence
/// duplicate-free.
pub proof fn lemma_push_distinct<T>(s: Seq<T>, a: T)
    requires
        s.no_duplicates(),
        !s.contains(a),
    ensures
        s.push(a).no_duplicates(),
{
    assert forall|j1: int, j2: int|
        0 <= j1 < j2 < s.push(a).len() implies s.push(a)[j1] != s.push(a)[j2] by {
        if j2 == s.len() {
            assert(s[j1] != a);
        }
    }
}

/// Swap-and-pop on a duplicate-free sequence: the element at `i` leaves,
/// every other element stays, and the sequence stays duplicate-free.
pub proof fn lemma_swap_pop_distinct<T>(s: Seq<T>, i: int)
    requires
        s.no_duplicates(),
        0 <= i < s.len(),
    ensures
        s.update(i, s.last()).drop_last().len() == s.len() - 1,
        s.update(i, s.last()).drop_last().no_duplicates(),
        forall|x: T|
            #[trigger] s.update(i, s.last()).drop_last().contains(x) <==> (s.contains(x) && x
                != s[i]),
{
    let r = s.update(i, s.last()).drop_last();
    let n = s.len() - 1;
    assert forall|x: T| #[trigger] r.contains(x) implies (s.contains(x) && x != s[i]) by {
        let j = choose|j: int| 0 <= j < r.len() && r[j] == x;
        if j == i {
            assert(s[n] == x);
            assert(i < n ==> s[i] != s[n]);
        } else {
            assert(s[j] == x);
            assert(s[j] != s[i]);
        }
    }
    assert forall|x: T| s.contains(x) && x != s[i] implies #[trigger] r.contains(x) by {
        let j = choose|j: int| 0 <= j < s.len() && s[j] == x;
        if j == n {
            assert(i != n);
            assert(r[i] == x);
        } else {
            assert(j != i);
            assert(r[j] == x);
        }
    }
    assert forall|j1: int, j2: int| 0 <= j1 < j2 < r.len() implies r[j1] != r[j2] by {
        let a1: int = if j1 == i { n } else { j1 };
        let a2: int = if j2 == i { n } else { j2 };
        assert(r[j1] == s[a1]);
        assert(r[j2] == s[a2]);
        assert(a1 != a2);
    }
    assert(r.no_duplicates());
}

/// Swap-and-pop on an association list with distinct keys removes exactly
/// the binding whose key stands at `i`.
pub proof fn lemma_kv_swap_pop<K, V>(s: Seq<(K, V)>, i: int, q: K)
    requires
        kv_keys(s).no_duplicates(),
        0 <= i < s.len(),
    ensures
        kv_keys(s.update(i, s.last()).drop_last()).no_duplicates(),
        kv_lookup(s.update(i, s.last()).drop_last(), q) == if q == s[i].0 {
            None::<V>
        } else {
            kv_lookup(s, q)
        },
{
    let r = s.update(i, s.last()).drop_last();
    let ks = kv_keys(s);
    assert(kv_keys(r) =~= ks.update(i, ks.last()).drop_last());
    lemma_swap_pop_distinct(ks, i);
    assert forall|j1: int, j2: int| 0 <= j1 < j2 < s.len() implies s[j1] != s[j2] by {
        assert(ks[j1] != ks[j2]);
    }
    assert(s.no_duplicates());
    lemma_swap_pop_distinct(s, i);
    if q == s[i].0 {
        lemma_kv_lookup_is_some(r, q);
        if kv_lookup(r, q) is Some {
            let j = choose|j: int| 0 <= j < r.len() && #[trigger] r[j].0 == q;
            assert(kv_keys(r)[j] == q);
            assert(kv_keys(r).contains(q));
            assert(ks[i] == q);
            assert(ks.contains(q));
        }
    } else {
        match kv_lookup(s, q) {
            Some(v) => {
                lemma_kv_lookup_to_index(s, q);
                let j = choose|j: int| 0 <= j < s.len() && #[trigger] s[j] == (q, v);
                assert(s.contains((q, v)));
                assert(r.contains((q, v)));
                let j2 = choose|j2: int| 0 <= j2 < r.len() && r[j2] == (q, v);
                lemma_kv_lookup_at_index(r, j2);
            },
            None => {
                lemma_kv_lookup_is_some(s, q);
                lemma_kv_lookup_is_some(r, q);
                if kv_lookup(r, q) is Some {
                    let j = choose|j: int| 0 <= j < r.len() && #[trigger] r[j].0 == q;
                    assert(r.contains(r[j]));
                    assert(s.contains(r[j]));
                    let j2 = choose|j2: int| 0 <= j2 < s.len() && s[j2] == r[j];
                    assert(s[j2].0 == q);
                }
            },
        }
    }
}

} // verus!
