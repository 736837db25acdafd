//! A map from keys to values that is kept as a list in the order of the
//! keys. A map has exactly one such listing, so whatever is computed from the
//! listing depends on the map alone, not on the order of insertion.

use crate::crypto::PublicKey;
use crate::keys::{key_order, lemma_lt_irreflexive, lemma_lt_transitive, spec_key_lt, KeyOrder};
use vstd::prelude::*;

verus! {

/// A key with the value stored under it.
#[derive(Debug, PartialEq, Eq)]
pub struct Entry<V> {
    pub key: PublicKey,
    pub value: V,
}

/// Whether the keys of the entries strictly ascend.
pub open spec fn spec_sorted<V>(entries: Seq<Entry<V>>) -> bool {
    forall|i: int, j: int| 0 <= i < j < entries.len() ==> spec_key_lt(entries[i].key, entries[j].key)
}

/// Whether position `i` of the entries holds `key`.
pub open spec fn spec_key_at<V>(entries: Seq<Entry<V>>, key: PublicKey, i: int) -> bool {
    0 <= i < entries.len() && entries[i].key == key
}

/// Whether some entry has the key.
pub open spec fn spec_has_key<V>(entries: Seq<Entry<V>>, key: PublicKey) -> bool {
    exists|i: int| spec_key_at(entries, key, i)
}

/// The position of an entry with the key.
pub open spec fn spec_index_of<V>(entries: Seq<Entry<V>>, key: PublicKey) -> int {
    choose|i: int| spec_key_at(entries, key, i)
}

/// The map that the entries stand for.
pub open spec fn spec_to_map<V>(entries: Seq<Entry<V>>) -> Map<PublicKey, V> {
    Map::new(
        |k: PublicKey| spec_has_key(entries, k),
        |k: PublicKey| entries[spec_index_of(entries, k)].value,
    )
}

/// Whether the entries are the ascending listing of the map.
pub open spec fn spec_lists<V>(entries: Seq<Entry<V>>, m: Map<PublicKey, V>) -> bool {
    spec_sorted(entries) && spec_to_map(entries) == m
}

/// The ascending listing of a map's entries.
pub open spec fn spec_listing<V>(m: Map<PublicKey, V>) -> Seq<Entry<V>> {
    choose|entries: Seq<Entry<V>>| spec_lists(entries, m)
}

/// In ascending entries every position is the only one with its key.
pub proof fn lemma_index_unique<V>(entries: Seq<Entry<V>>, i: int)
    requires
        spec_sorted(entries),
        0 <= i < entries.len(),
    ensures
        spec_has_key(entries, entries[i].key),
        spec_index_of(entries, entries[i].key) == i,
        spec_to_map(entries).dom().contains(entries[i].key),
        spec_to_map(entries)[entries[i].key] == entries[i].value,
{
    let key = entries[i].key;
    assert(spec_key_at(entries, key, i));
    let j = spec_index_of(entries, key);
    assert(spec_key_at(entries, key, j));
    if j < i {
        lemma_lt_irreflexive(entries[j].key, entries[i].key);
    } else if i < j {
        lemma_lt_irreflexive(entries[i].key, entries[j].key);
    }
}

/// Two ascending listings of the same map agree up to any position that both have.
proof fn lemma_listing_prefix<V>(a: Seq<Entry<V>>, b: Seq<Entry<V>>, k: int)
    requires
        spec_sorted(a),
        spec_sorted(b),
        spec_to_map(a) == spec_to_map(b),
        0 <= k <= a.len(),
        k <= b.len(),
    ensures
        forall|i: int| 0 <= i < k ==> a[i] == b[i],
    decreases k,
{
    if k > 0 {
        lemma_listing_prefix(a, b, k - 1);
        let n = k - 1;
        let m = spec_to_map(a);
        lemma_index_unique(a, n);
        lemma_index_unique(b, n);
        // a[n]'s key sits somewhere in b, and b[n]'s key somewhere in a.
        assert(m.dom().contains(a[n].key));
        assert(spec_has_key(b, a[n].key));
        let j = spec_index_of(b, a[n].key);
        assert(spec_key_at(b, a[n].key, j));
        assert(spec_has_key(a, b[n].key));
        let i = spec_index_of(a, b[n].key);
        assert(spec_key_at(a, b[n].key, i));
        if j < n {
            assert(a[j] == b[j]);
            lemma_lt_irreflexive(a[j].key, a[n].key);
        }
        if i < n {
            assert(a[i] == b[i]);
            lemma_lt_irreflexive(b[i].key, b[n].key);
        }
        if j > n {
            // b[n] < b[j] = a[n] <= a[i] = b[n]
            if i > n {
                lemma_lt_transitive(b[n].key, b[j].key, a[i].key);
            }
            lemma_lt_irreflexive(b[n].key, b[n].key);
        }
        assert(j == n);
        lemma_index_unique(b, j);
        assert(a[n].value == m[a[n].key]);
        assert(b[n].value == m[b[n].key]);
    }
}

/// A map has at most one ascending listing.
pub proof fn lemma_listing_unique<V>(a: Seq<Entry<V>>, b: Seq<Entry<V>>)
    requires
        spec_sorted(a),
        spec_sorted(b),
        spec_to_map(a) == spec_to_map(b),
    ensures
        a == b,
{
    let m = spec_to_map(a);
    if a.len() <= b.len() {
        lemma_listing_prefix(a, b, a.len() as int);
        if a.len() < b.len() {
            let n = a.len() as int;
            lemma_index_unique(b, n);
            assert(spec_has_key(a, b[n].key));
            let i = spec_index_of(a, b[n].key);
            assert(spec_key_at(a, b[n].key, i));
            assert(a[i] == b[i]);
            lemma_lt_irreflexive(b[i].key, b[n].key);
        }
    } else {
        lemma_listing_prefix(a, b, b.len() as int);
        let n = b.len() as int;
        lemma_index_unique(a, n);
        assert(spec_has_key(b, a[n].key));
        let j = spec_index_of(b, a[n].key);
        assert(spec_key_at(b, a[n].key, j));
        assert(a[j] == b[j]);
        lemma_lt_irreflexive(a[j].key, a[n].key);
    }
    assert(a =~= b);
}

/// Ascending entries are the listing of the map they stand for.
proof fn lemma_listing_of<V>(entries: Seq<Entry<V>>)
    requires
        spec_sorted(entries),
    ensures
        spec_listing(spec_to_map(entries)) == entries,
{
    let m = spec_to_map(entries);
    assert(spec_lists(entries, m));
    lemma_listing_unique(spec_listing(m), entries);
}

/// Putting a new entry where the order wants it keeps the entries ascending
/// and adds the entry to the map.
proof fn lemma_insert_entry<V>(entries: Seq<Entry<V>>, p: int, e: Entry<V>)
    requires
        spec_sorted(entries),
        0 <= p <= entries.len(),
        forall|i: int| 0 <= i < p ==> spec_key_lt(entries[i].key, e.key),
        forall|i: int| p <= i < entries.len() ==> spec_key_lt(e.key, entries[i].key),
    ensures
        spec_sorted(entries.insert(p, e)),
        spec_to_map(entries.insert(p, e)) == spec_to_map(entries).insert(e.key, e.value),
{
    let new = entries.insert(p, e);
    assert forall|i: int, j: int| 0 <= i < j < new.len() implies spec_key_lt(new[i].key, new[j].key) by {
        if j < p {
        } else if j == p {
        } else if i < p {
            assert(new[j] == entries[j - 1]);
        } else if i == p {
            assert(new[j] == entries[j - 1]);
        } else {
            assert(new[i] == entries[i - 1]);
            assert(new[j] == entries[j - 1]);
        }
    }
    let m1 = spec_to_map(new);
    let m2 = spec_to_map(entries).insert(e.key, e.value);
    assert forall|k: PublicKey| m1.dom().contains(k) <==> m2.dom().contains(k) by {
        if m1.dom().contains(k) {
            let i = spec_index_of(new, k);
            assert(spec_key_at(new, k, i));
            if i < p {
                assert(spec_key_at(entries, k, i));
            } else if i > p {
                assert(spec_key_at(entries, k, i - 1));
            }
        }
        if m2.dom().contains(k) {
            if k == e.key {
                assert(spec_key_at(new, k, p));
            } else {
                let i = spec_index_of(entries, k);
                assert(spec_key_at(entries, k, i));
                if i < p {
                    assert(spec_key_at(new, k, i));
                } else {
                    assert(spec_key_at(new, k, i + 1));
                }
            }
        }
    }
    assert forall|k: PublicKey| m1.dom().contains(k) implies m1[k] == m2[k] by {
        let i = spec_index_of(new, k);
        assert(spec_key_at(new, k, i));
        lemma_index_unique(new, i);
        if i < p {
            lemma_index_unique(entries, i);
            lemma_lt_irreflexive(entries[i].key, e.key);
        } else if i > p {
            lemma_index_unique(entries, i - 1);
            lemma_lt_irreflexive(e.key, entries[i - 1].key);
        }
    }
    assert(m1 =~= m2);
}

/// Replacing the value of an entry keeps the entries ascending and changes
/// the map at that key only.
proof fn lemma_update_entry<V>(entries: Seq<Entry<V>>, p: int, e: Entry<V>)
    requires
        spec_sorted(entries),
        0 <= p < entries.len(),
        entries[p].key == e.key,
    ensures
        spec_sorted(entries.update(p, e)),
        spec_to_map(entries.update(p, e)) == spec_to_map(entries).insert(e.key, e.value),
{
    let new = entries.update(p, e);
    assert forall|i: int, j: int| 0 <= i < j < new.len() implies spec_key_lt(new[i].key, new[j].key) by {
        assert(new[i].key == entries[i].key);
        assert(new[j].key == entries[j].key);
    }
    let m1 = spec_to_map(new);
    let m2 = spec_to_map(entries).insert(e.key, e.value);
    assert forall|k: PublicKey| m1.dom().contains(k) <==> m2.dom().contains(k) by {
        if m1.dom().contains(k) {
            let i = spec_index_of(new, k);
            assert(spec_key_at(new, k, i));
            assert(spec_key_at(entries, k, i));
        }
        if m2.dom().contains(k) {
            if k == e.key {
                assert(spec_key_at(new, k, p));
            } else {
                let i = spec_index_of(entries, k);
                assert(spec_key_at(entries, k, i));
                assert(spec_key_at(new, k, i));
            }
        }
    }
    assert forall|k: PublicKey| m1.dom().contains(k) implies m1[k] == m2[k] by {
        let i = spec_index_of(new, k);
        assert(spec_key_at(new, k, i));
        lemma_index_unique(new, i);
        if i < p {
            lemma_index_unique(entries, i);
            lemma_lt_irreflexive(entries[i].key, entries[p].key);
        } else if i > p {
            lemma_index_unique(entries, i);
            lemma_lt_irreflexive(entries[p].key, entries[i].key);
        }
    }
    assert(m1 =~= m2);
}

/// A map from keys to values, kept in the order of the keys.
#[derive(Debug)]
pub struct SortedStore<V> {
    entries: Vec<Entry<V>>,
}

impl<V> View for SortedStore<V> {
    type V = Map<PublicKey, V>;

    closed spec fn view(&self) -> Map<PublicKey, V> {
        spec_to_map(self.entries@)
    }
}

impl<V> SortedStore<V> {
    /// The invariant of the store: its keys strictly ascend.
    pub closed spec fn wf(&self) -> bool {
        spec_sorted(self.entries@)
    }

    /// The entries in the order of their keys.
    pub closed spec fn listing(&self) -> Seq<Entry<V>> {
        self.entries@
    }

    /// The entries are the one ascending listing of the store's map.
    pub proof fn lemma_listing(&self)
        requires
            self.wf(),
        ensures
            self.listing() == spec_listing(self@),
            spec_lists(self.listing(), self@),
    {
        lemma_listing_of(self.entries@);
    }

    /// The empty store.
    pub fn new() -> (r: Self)
        ensures
            r.wf(),
            r@ == Map::<PublicKey, V>::empty(),
    {
        let r = SortedStore { entries: Vec::new() };
        assert(r@ =~= Map::<PublicKey, V>::empty());
        r
    }

    /// The number of entries.
    pub fn len(&self) -> (r: usize)
        ensures
            r == self.listing().len(),
    {
        self.entries.len()
    }

    /// The entry at position `i` of the listing.
    pub fn entry(&self, i: usize) -> (r: &Entry<V>)
        requires
            i < self.listing().len(),
        ensures
            *r == self.listing()[i as int],
    {
        &self.entries[i]
    }

    /// Where `key` stands among the entries, and whether it is there.
    fn position(&self, key: &PublicKey) -> (r: (usize, bool))
        requires
            self.wf(),
        ensures
            r.0 <= self.entries@.len(),
            forall|i: int| 0 <= i < r.0 ==> spec_key_lt(self.entries@[i].key, *key),
            forall|i: int| r.0 <= i < self.entries@.len() && !r.1 ==> spec_key_lt(*key, self.entries@[i].key),
            r.1 ==> r.0 < self.entries@.len() && self.entries@[r.0 as int].key == *key,
            r.1 == self@.dom().contains(*key),
            r.1 ==> self@[*key] == self.entries@[r.0 as int].value,
    {
        let mut i: usize = 0;
        while i < self.entries.len()
            invariant
                self.wf(),
                i <= self.entries@.len(),
                forall|j: int| 0 <= j < i ==> spec_key_lt(self.entries@[j].key, *key),
            decreases self.entries@.len() - i,
        {
            match key_order(&self.entries[i].key, key) {
                KeyOrder::Before => {
                    i += 1;
                },
                KeyOrder::Same => {
                    proof {
                        lemma_index_unique(self.entries@, i as int);
                    }
                    return (i, true);
                },
                KeyOrder::After => {
                    proof {
                        assert forall|j: int| i <= j < self.entries@.len() implies spec_key_lt(
                            *key,
                            self.entries@[j].key,
                        ) by {
                            if i < j {
                                lemma_lt_transitive(*key, self.entries@[i as int].key, self.entries@[j].key);
                            }
                        }
                        self.lemma_absent(*key, i as int);
                    }
                    return (i, false);
                },
            }
        }
        proof {
            self.lemma_absent(*key, i as int);
        }
        (i, false)
    }

    /// A key that lies strictly between two neighbours is not in the store.
    proof fn lemma_absent(&self, key: PublicKey, p: int)
        requires
            0 <= p <= self.entries@.len(),
            forall|i: int| 0 <= i < p ==> spec_key_lt(self.entries@[i].key, key),
            forall|i: int| p <= i < self.entries@.len() ==> spec_key_lt(key, self.entries@[i].key),
        ensures
            !self@.dom().contains(key),
    {
        if spec_has_key(self.entries@, key) {
            let i = spec_index_of(self.entries@, key);
            assert(spec_key_at(self.entries@, key, i));
            if i < p {
                lemma_lt_irreflexive(self.entries@[i].key, key);
            } else {
                lemma_lt_irreflexive(key, self.entries@[i].key);
            }
        }
    }

    /// Whether the store has an entry for `key`.
    pub fn contains(&self, key: &PublicKey) -> (r: bool)
        requires
            self.wf(),
        ensures
            r == self@.dom().contains(*key),
    {
        self.position(key).1
    }

    /// The value stored under `key`, if there is one.
    pub fn get(&self, key: &PublicKey) -> (r: Option<&V>)
        requires
            self.wf(),
        ensures
            r == (if self@.dom().contains(*key) { Some(&self@[*key]) } else { None }),
    {
        let (p, found) = self.position(key);
        if found {
            Some(&self.entries[p].value)
        } else {
            None
        }
    }

    /// The value stored under `key`, to be changed in place. Where the store
    /// has none, `fresh` is stored there first.
    pub fn get_mut_or(&mut self, key: &PublicKey, fresh: V) -> (r: &mut V)
        requires
            old(self).wf(),
        ensures
            *r == (if old(self)@.dom().contains(*key) { old(self)@[*key] } else { fresh }),
            final(self).wf(),
            final(self)@ == old(self)@.insert(*key, *final(r)),
    {
        let (p, found) = self.position(key);
        if !found {
            proof {
                lemma_insert_entry(self.entries@, p as int, Entry { key: *key, value: fresh });
            }
            self.entries.insert(p, Entry { key: *key, value: fresh });
        }
        let ghost before = self.entries@;
        proof {
            lemma_index_unique(before, p as int);
        }
        let r = &mut self.entries[p].value;
        proof {
            let e = Entry { key: *key, value: *final(r) };
            lemma_update_entry(before, p as int, e);
            assert(old(self)@.insert(*key, before[p as int].value).insert(*key, *final(r)) =~= old(self)@.insert(
                *key,
                *final(r),
            ));
        }
        r
    }

    /// Stores `value` under `key`, in place of what was there.
    pub fn put(&mut self, key: &PublicKey, value: V)
        requires
            old(self).wf(),
        ensures
            final(self).wf(),
            final(self)@ == old(self)@.insert(*key, value),
    {
        let (p, found) = self.position(key);
        let e = Entry { key: *key, value };
        if found {
            proof {
                lemma_update_entry(self.entries@, p as int, e);
            }
            self.entries.set(p, e);
        } else {
            proof {
                lemma_insert_entry(self.entries@, p as int, e);
            }
            self.entries.insert(p, e);
        }
    }
}

} // verus!
