//! A map from keys to records whose contents are committed to by one hash
//! that does not depend on the order of insertion, with proofs that a key is
//! present with a given record, or absent.
//!
//! The entries are kept in the order of their keys. The commitment is the
//! hash of a binary trie over the bits of the keys: a subtree without entries
//! hashes to zero, one with a single entry to the hash of that entry, and any
//! other to the hash of its two halves.

use crate::crypto;
use crate::crypto::{
    hash, spec_collision_free, spec_hash, spec_none_hashes_to_zero, spec_told_apart, spec_zero_hash, PublicKey,
};
use crate::keys::{key_bit, lemma_lt_within_prefix, spec_bit, spec_prefix_eq};
use crate::store::{
    lemma_index_unique, spec_has_key, spec_index_of, spec_key_at, spec_listing, spec_lists, spec_sorted,
    spec_to_map, Entry, SortedStore,
};
use vstd::prelude::*;

verus! {

/// A value that a map can hold: it has a byte form that the map commits to.
pub trait Record: Sized {
    /// The bytes that stand for the value.
    spec fn spec_bytes(&self) -> Seq<u8>;

    /// The bytes that stand for the value.
    fn to_bytes(&self) -> (r: Vec<u8>)
        ensures
            r@ == self.spec_bytes(),
    ;

    /// A copy of the value.
    fn replica(&self) -> (r: Self)
        ensures
            r == *self,
    ;
}

/// Why a map proof was turned down.
#[derive(Clone, Copy, Debug, PartialEq, Eq, Structural)]
pub enum MapProofError {
    /// The path is longer than a key, or ends at an entry that does not lie on
    /// the way to the key in question.
    MalformedProof,
    /// The proof hashes to another root than the one it was held against.
    UnmatchedRootHash,
}

/// What a map proof finds at the end of the path to a key.
#[derive(Debug, PartialEq, Eq)]
pub enum ProofEnd<V> {
    /// No entry lies that way.
    Empty,
    /// The one entry that lies that way has another key.
    Other { key: PublicKey, value_hash: crypto::Hash },
    /// The entry for the key, with its value.
    Found(V),
}

/// A proof that a key is in a map with a given value, or that it is not:
/// the hashes of the subtrees beside the path to the key, from the root
/// down, and what lies at the end of the path.
#[derive(Debug, PartialEq, Eq)]
pub struct MapProof<V> {
    pub path: Vec<crypto::Hash>,
    pub end: ProofEnd<V>,
}

/// The hash of a value's bytes.
pub open spec fn spec_value_hash<V: Record>(value: V) -> crypto::Hash {
    spec_hash(value.spec_bytes())
}

/// The bytes that are hashed for a subtree that holds one entry.
pub open spec fn spec_leaf_input(key: PublicKey, value_hash: crypto::Hash) -> Seq<u8> {
    seq![0u8] + key@ + value_hash@
}

/// The bytes that are hashed for a subtree that holds two entries or more.
pub open spec fn spec_branch_input(left: crypto::Hash, right: crypto::Hash) -> Seq<u8> {
    seq![1u8] + left@ + right@
}

/// The hash of a subtree that holds one entry.
pub open spec fn spec_leaf_node(key: PublicKey, value_hash: crypto::Hash) -> crypto::Hash {
    spec_hash(spec_leaf_input(key, value_hash))
}

/// The hash of a subtree that holds two entries or more.
pub open spec fn spec_branch_node(left: crypto::Hash, right: crypto::Hash) -> crypto::Hash {
    spec_hash(spec_branch_input(left, right))
}

/// The first position in `lo .. hi` whose key has bit `d` set, or `hi`.
pub open spec fn spec_split<V>(entries: Seq<Entry<V>>, lo: int, hi: int, d: int) -> int
    decreases hi - lo,
{
    if lo >= hi {
        hi
    } else if spec_bit(entries[lo].key, d) {
        lo
    } else {
        spec_split(entries, lo + 1, hi, d)
    }
}

/// The hash of the subtree that holds the entries at `lo .. hi`, which agree
/// on their first `d` bits.
pub open spec fn spec_trie_hash<V: Record>(entries: Seq<Entry<V>>, lo: int, hi: int, d: int) -> crypto::Hash
    decreases (if d < 256 { 256 - d } else { 0 }),
{
    if hi - lo <= 0 {
        spec_zero_hash()
    } else if hi - lo == 1 {
        spec_leaf_node(entries[lo].key, spec_value_hash(entries[lo].value))
    } else if d >= 256 || d < 0 {
        spec_zero_hash()
    } else {
        let mid = spec_split(entries, lo, hi, d);
        spec_branch_node(spec_trie_hash(entries, lo, mid, d + 1), spec_trie_hash(entries, mid, hi, d + 1))
    }
}

/// The root hash of a map: the hash of the trie over its ascending listing.
pub open spec fn spec_map_root<V: Record>(m: Map<PublicKey, V>) -> crypto::Hash {
    spec_trie_hash(spec_listing(m), 0, spec_listing(m).len() as int, 0)
}

/// The path from the subtree over `lo .. hi` at depth `d` towards `key`: the
/// hashes of the subtrees left aside, and what lies at the end.
pub open spec fn spec_path<V: Record>(entries: Seq<Entry<V>>, lo: int, hi: int, d: int, key: PublicKey) -> (
    Seq<crypto::Hash>,
    ProofEnd<V>,
)
    decreases (if d < 256 { 256 - d } else { 0 }),
{
    if hi - lo <= 0 {
        (Seq::empty(), ProofEnd::Empty)
    } else if hi - lo == 1 {
        if entries[lo].key == key {
            (Seq::empty(), ProofEnd::Found(entries[lo].value))
        } else {
            (
                Seq::empty(),
                ProofEnd::Other { key: entries[lo].key, value_hash: spec_value_hash(entries[lo].value) },
            )
        }
    } else if d >= 256 || d < 0 {
        (Seq::empty(), ProofEnd::Empty)
    } else {
        let mid = spec_split(entries, lo, hi, d);
        if spec_bit(key, d) {
            let rest = spec_path(entries, mid, hi, d + 1, key);
            (seq![spec_trie_hash(entries, lo, mid, d + 1)] + rest.0, rest.1)
        } else {
            let rest = spec_path(entries, lo, mid, d + 1, key);
            (seq![spec_trie_hash(entries, mid, hi, d + 1)] + rest.0, rest.1)
        }
    }
}

/// The proof that a map gives for a key.
pub open spec fn spec_map_proof<V: Record>(m: Map<PublicKey, V>, key: PublicKey) -> (Seq<crypto::Hash>, ProofEnd<V>) {
    spec_path(spec_listing(m), 0, spec_listing(m).len() as int, 0, key)
}

/// The hash of what lies at the end of a path to `key`.
pub open spec fn spec_end_hash<V: Record>(end: ProofEnd<V>, key: PublicKey) -> crypto::Hash {
    match end {
        ProofEnd::Empty => spec_zero_hash(),
        ProofEnd::Other { key: other, value_hash } => spec_leaf_node(other, value_hash),
        ProofEnd::Found(value) => spec_leaf_node(key, spec_value_hash(value)),
    }
}

/// The hash of the subtree at depth `d` on the way to `key`, given the
/// hashes left aside below it and the hash at the end of the path.
pub open spec fn spec_fold(path: Seq<crypto::Hash>, key: PublicKey, d: int, end: crypto::Hash) -> crypto::Hash
    decreases path.len(),
{
    if path.len() == 0 {
        end
    } else {
        let below = spec_fold(path.drop_first(), key, d + 1, end);
        if spec_bit(key, d) {
            spec_branch_node(path[0], below)
        } else {
            spec_branch_node(below, path[0])
        }
    }
}

/// Whether the end of a path of `n` steps can belong to a proof for `key`.
pub open spec fn spec_end_fits<V>(end: ProofEnd<V>, key: PublicKey, n: int) -> bool {
    match end {
        ProofEnd::Other { key: other, value_hash } => other != key && spec_prefix_eq(other, key, n),
        _ => true,
    }
}

/// The verdict on a proof for `key` held against a root hash: the value
/// under the key, or none where the key is absent, or the reason for
/// turning the proof down.
pub open spec fn spec_check<V: Record>(path: Seq<crypto::Hash>, end: ProofEnd<V>, root: crypto::Hash, key: PublicKey) -> Result<
    Option<V>,
    MapProofError,
> {
    if path.len() > 256 || !spec_end_fits(end, key, path.len() as int) {
        Err(MapProofError::MalformedProof)
    } else if spec_fold(path, key, 0, spec_end_hash(end, key)) != root {
        Err(MapProofError::UnmatchedRootHash)
    } else {
        match end {
            ProofEnd::Found(value) => Ok(Some(value)),
            _ => Ok(None),
        }
    }
}

/// The split lies in the range; before it bit `d` is clear, and at it the bit is set.
proof fn lemma_split<V>(entries: Seq<Entry<V>>, lo: int, hi: int, d: int)
    requires
        0 <= lo <= hi <= entries.len(),
    ensures
        lo <= spec_split(entries, lo, hi, d) <= hi,
        forall|i: int| lo <= i < spec_split(entries, lo, hi, d) ==> !spec_bit(entries[i].key, d),
        spec_split(entries, lo, hi, d) < hi ==> spec_bit(entries[spec_split(entries, lo, hi, d)].key, d),
    decreases hi - lo,
{
    if lo < hi && !spec_bit(entries[lo].key, d) {
        lemma_split(entries, lo + 1, hi, d);
    }
}

/// A path folds back to the hash of the subtree it started from, and is no
/// longer than the bits that were left.
proof fn lemma_path_folds<V: Record>(entries: Seq<Entry<V>>, lo: int, hi: int, d: int, key: PublicKey)
    requires
        0 <= lo <= hi <= entries.len(),
        0 <= d <= 256,
        hi - lo == 1 ==> spec_prefix_eq(entries[lo].key, key, d),
    ensures
        spec_fold(
            spec_path(entries, lo, hi, d, key).0,
            key,
            d,
            spec_end_hash(spec_path(entries, lo, hi, d, key).1, key),
        ) == spec_trie_hash(entries, lo, hi, d),
        spec_path(entries, lo, hi, d, key).0.len() <= 256 - d,
    decreases 256 - d,
{
    if hi - lo >= 2 && d < 256 {
        let mid = spec_split(entries, lo, hi, d);
        lemma_split(entries, lo, hi, d);
        let left = spec_trie_hash(entries, lo, mid, d + 1);
        let right = spec_trie_hash(entries, mid, hi, d + 1);
        if spec_bit(key, d) {
            let rest = spec_path(entries, mid, hi, d + 1, key);
            let whole = seq![left] + rest.0;
            assert(whole.drop_first() =~= rest.0);
            assert(whole[0] == left);
            if hi - mid == 1 {
                lemma_path_folds_single(entries, mid, d + 1, key);
            } else {
                lemma_path_folds(entries, mid, hi, d + 1, key);
            }
        } else {
            let rest = spec_path(entries, lo, mid, d + 1, key);
            let whole = seq![right] + rest.0;
            assert(whole.drop_first() =~= rest.0);
            assert(whole[0] == right);
            if mid - lo == 1 {
                lemma_path_folds_single(entries, lo, d + 1, key);
            } else {
                lemma_path_folds(entries, lo, mid, d + 1, key);
            }
        }
    }
}

/// The path into a subtree with one entry is empty and folds to that entry's hash.
proof fn lemma_path_folds_single<V: Record>(entries: Seq<Entry<V>>, lo: int, d: int, key: PublicKey)
    requires
        0 <= lo < entries.len(),
    ensures
        spec_fold(
            spec_path(entries, lo, lo + 1, d, key).0,
            key,
            d,
            spec_end_hash(spec_path(entries, lo, lo + 1, d, key).1, key),
        ) == spec_trie_hash(entries, lo, lo + 1, d),
        spec_path(entries, lo, lo + 1, d, key).0.len() == 0,
{
}

/// What lies at the end of the path to `key` tells whether the key is among
/// the entries, and with which value.
proof fn lemma_path_end<V: Record>(entries: Seq<Entry<V>>, lo: int, hi: int, d: int, key: PublicKey)
    requires
        spec_sorted(entries),
        0 <= lo <= hi <= entries.len(),
        0 <= d <= 256,
        forall|i: int| lo <= i < hi ==> spec_prefix_eq(entries[i].key, key, d),
        forall|i: int| 0 <= i < entries.len() && !(lo <= i < hi) ==> entries[i].key != key,
    ensures
        match spec_path(entries, lo, hi, d, key).1 {
            ProofEnd::Found(value) => spec_to_map(entries).dom().contains(key) && spec_to_map(entries)[key]
                == value,
            ProofEnd::Empty => !spec_to_map(entries).dom().contains(key),
            ProofEnd::Other { key: other, value_hash } => !spec_to_map(entries).dom().contains(key)
                && other != key && spec_prefix_eq(
                other,
                key,
                d + spec_path(entries, lo, hi, d, key).0.len(),
            ),
        },
    decreases 256 - d,
{
    if hi - lo <= 0 {
        if spec_has_key(entries, key) {
            let i = spec_index_of(entries, key);
            assert(spec_key_at(entries, key, i));
        }
    } else if hi - lo == 1 {
        if entries[lo].key == key {
            lemma_index_unique(entries, lo);
        } else {
            if spec_has_key(entries, key) {
                let i = spec_index_of(entries, key);
                assert(spec_key_at(entries, key, i));
            }
        }
    } else if d >= 256 {
        assert(spec_prefix_eq(entries[lo].key, entries[lo + 1].key, 256)) by {
            assert(spec_prefix_eq(entries[lo].key, key, d));
            assert(spec_prefix_eq(entries[lo + 1].key, key, d));
        }
        lemma_lt_within_prefix(entries[lo].key, entries[lo + 1].key, 256);
    } else {
        let mid = spec_split(entries, lo, hi, d);
        lemma_split(entries, lo, hi, d);
        // Past the split every key has the bit set: the keys ascend and agree before it.
        assert forall|i: int| mid <= i < hi implies spec_bit(entries[i].key, d) by {
            if mid < i {
                assert(spec_prefix_eq(entries[mid].key, entries[i].key, d)) by {
                    assert(spec_prefix_eq(entries[mid].key, key, d));
                    assert(spec_prefix_eq(entries[i].key, key, d));
                }
                lemma_lt_within_prefix(entries[mid].key, entries[i].key, d);
            }
        }
        if spec_bit(key, d) {
            assert forall|i: int| mid <= i < hi implies spec_prefix_eq(entries[i].key, key, d + 1) by {
                assert(spec_prefix_eq(entries[i].key, key, d));
            }
            lemma_path_end(entries, mid, hi, d + 1, key);
            let rest = spec_path(entries, mid, hi, d + 1, key);
            assert((seq![spec_trie_hash(entries, lo, mid, d + 1)] + rest.0).len() == 1 + rest.0.len());
        } else {
            assert forall|i: int| lo <= i < mid implies spec_prefix_eq(entries[i].key, key, d + 1) by {
                assert(spec_prefix_eq(entries[i].key, key, d));
            }
            lemma_path_end(entries, lo, mid, d + 1, key);
            let rest = spec_path(entries, lo, mid, d + 1, key);
            assert((seq![spec_trie_hash(entries, mid, hi, d + 1)] + rest.0).len() == 1 + rest.0.len());
        }
    }
}

/// The proof that ascending entries give for a key checks out against their
/// root, and tells the value under the key, or that there is none.
proof fn lemma_entries_proof_checks<V: Record>(entries: Seq<Entry<V>>, key: PublicKey)
    requires
        spec_sorted(entries),
    ensures
        spec_check(
            spec_path(entries, 0, entries.len() as int, 0, key).0,
            spec_path(entries, 0, entries.len() as int, 0, key).1,
            spec_trie_hash(entries, 0, entries.len() as int, 0),
            key,
        ) == Ok::<Option<V>, MapProofError>(
            if spec_to_map(entries).dom().contains(key) {
                Some(spec_to_map(entries)[key])
            } else {
                None
            },
        ),
{
    let n = entries.len() as int;
    lemma_path_folds(entries, 0, n, 0, key);
    lemma_path_end(entries, 0, n, 0, key);
}

/// The proof that a map gives for a key checks out against the map's own
/// root, and tells the value under the key, or that there is none.
pub proof fn lemma_map_proof_checks<V: Record>(map: ProofMap<V>, key: PublicKey)
    requires
        map.wf(),
    ensures
        spec_check(spec_map_proof(map@, key).0, spec_map_proof(map@, key).1, spec_map_root(map@), key) == Ok::<
            Option<V>,
            MapProofError,
        >(if map@.dom().contains(key) { Some(map@[key]) } else { None }),
{
    map.store.lemma_listing();
    lemma_entries_proof_checks(map.store.listing(), key);
}

/// Two branches with a different child are hashed from different bytes.
proof fn lemma_branch_input_differs(l1: crypto::Hash, r1: crypto::Hash, l2: crypto::Hash, r2: crypto::Hash)
    requires
        l1 != l2 || r1 != r2,
    ensures
        spec_branch_input(l1, r1) != spec_branch_input(l2, r2),
{
    let x = spec_branch_input(l1, r1);
    let y = spec_branch_input(l2, r2);
    if x == y {
        assert(x.subrange(1, 33) =~= l1@);
        assert(y.subrange(1, 33) =~= l2@);
        assert(x.subrange(33, 65) =~= r1@);
        assert(y.subrange(33, 65) =~= r2@);
        if l1 != l2 {
            crypto::lemma_hash_view_differs(l1, l2);
        } else {
            crypto::lemma_hash_view_differs(r1, r2);
        }
    }
}

/// The byte strings that are hashed in folding a path.
pub open spec fn spec_fold_inputs(path: Seq<crypto::Hash>, key: PublicKey, d: int, end: crypto::Hash) -> Set<
    Seq<u8>,
>
    decreases path.len(),
{
    if path.len() == 0 {
        Set::empty()
    } else {
        let below = spec_fold(path.drop_first(), key, d + 1, end);
        spec_fold_inputs(path.drop_first(), key, d + 1, end).insert(
            if spec_bit(key, d) {
                spec_branch_input(path[0], below)
            } else {
                spec_branch_input(below, path[0])
            },
        )
    }
}

/// The byte strings that are hashed for the end of a path to `key`.
pub open spec fn spec_end_inputs<V: Record>(end: ProofEnd<V>, key: PublicKey) -> Set<Seq<u8>> {
    match end {
        ProofEnd::Empty => Set::empty(),
        ProofEnd::Other { key: other, value_hash } => Set::empty().insert(spec_leaf_input(other, value_hash)),
        ProofEnd::Found(value) => Set::empty().insert(value.spec_bytes()).insert(
            spec_leaf_input(key, spec_value_hash(value)),
        ),
    }
}

/// The byte strings that are hashed in checking a proof for `key`.
pub open spec fn spec_check_inputs<V: Record>(path: Seq<crypto::Hash>, end: ProofEnd<V>, key: PublicKey) -> Set<
    Seq<u8>,
> {
    spec_fold_inputs(path, key, 0, spec_end_hash(end, key)) + spec_end_inputs(end, key)
}

/// The byte strings that are hashed in computing the hash of the subtree
/// over the entries at `lo .. hi`.
pub open spec fn spec_trie_inputs<V: Record>(entries: Seq<Entry<V>>, lo: int, hi: int, d: int) -> Set<Seq<u8>>
    decreases (if d < 256 { 256 - d } else { 0 }),
{
    if hi - lo <= 0 {
        Set::empty()
    } else if hi - lo == 1 {
        Set::empty().insert(entries[lo].value.spec_bytes()).insert(
            spec_leaf_input(entries[lo].key, spec_value_hash(entries[lo].value)),
        )
    } else if d >= 256 || d < 0 {
        Set::empty()
    } else {
        let mid = spec_split(entries, lo, hi, d);
        (spec_trie_inputs(entries, lo, mid, d + 1) + spec_trie_inputs(entries, mid, hi, d + 1)).insert(
            spec_branch_input(spec_trie_hash(entries, lo, mid, d + 1), spec_trie_hash(entries, mid, hi, d + 1)),
        )
    }
}

/// The byte strings that are hashed in computing the root of a map.
pub open spec fn spec_map_inputs<V: Record>(m: Map<PublicKey, V>) -> Set<Seq<u8>> {
    spec_trie_inputs(spec_listing(m), 0, spec_listing(m).len() as int, 0)
}

/// What a proof that checks out says of a key, held against the map: a
/// value with the bytes of the one the map has under the key, or that the
/// map has none.
pub open spec fn spec_agrees<V: Record>(end: ProofEnd<V>, m: Map<PublicKey, V>, key: PublicKey) -> bool {
    match end {
        ProofEnd::Found(value) => m.dom().contains(key) && m[key].spec_bytes() == value.spec_bytes(),
        _ => !m.dom().contains(key),
    }
}

/// The bytes hashed for a leaf and those hashed for a branch differ.
proof fn lemma_leaf_is_no_branch(key: PublicKey, value_hash: crypto::Hash, left: crypto::Hash, right: crypto::Hash)
    ensures
        spec_leaf_input(key, value_hash) != spec_branch_input(left, right),
{
    assert(spec_leaf_input(key, value_hash)[0] == 0u8);
    assert(spec_branch_input(left, right)[0] == 1u8);
}

/// Two leaves that are hashed from the same bytes have the same key and value hash.
proof fn lemma_leaf_input_determines(k1: PublicKey, h1: crypto::Hash, k2: PublicKey, h2: crypto::Hash)
    requires
        spec_leaf_input(k1, h1) == spec_leaf_input(k2, h2),
    ensures
        k1 == k2,
        h1 == h2,
{
    let x = spec_leaf_input(k1, h1);
    let y = spec_leaf_input(k2, h2);
    assert(x.subrange(1, 33) =~= k1@);
    assert(y.subrange(1, 33) =~= k2@);
    assert(x.subrange(33, 65) =~= h1@);
    assert(y.subrange(33, 65) =~= h2@);
    crypto::lemma_array32_ext(k1.bytes, k2.bytes);
    crypto::lemma_array32_ext(h1.bytes, h2.bytes);
}

/// A path that folds to the hash of a subtree of the map ends at what the
/// map holds on the way to the key, unless two of the byte strings hashed on
/// either side collide, or one of them has the all-zero digest.
proof fn lemma_path_sound<V: Record>(
    entries: Seq<Entry<V>>,
    lo: int,
    hi: int,
    d: int,
    key: PublicKey,
    path: Seq<crypto::Hash>,
    end: ProofEnd<V>,
    inputs: Set<Seq<u8>>,
)
    requires
        spec_sorted(entries),
        0 <= lo <= hi <= entries.len(),
        0 <= d,
        d + path.len() <= 256,
        forall|i: int| lo <= i < hi ==> spec_prefix_eq(entries[i].key, key, d),
        forall|i: int| 0 <= i < entries.len() && !(lo <= i < hi) ==> entries[i].key != key,
        spec_end_fits(end, key, d + path.len()),
        spec_fold(path, key, d, spec_end_hash(end, key)) == spec_trie_hash(entries, lo, hi, d),
        spec_fold_inputs(path, key, d, spec_end_hash(end, key)).subset_of(inputs),
        spec_end_inputs(end, key).subset_of(inputs),
        spec_trie_inputs(entries, lo, hi, d).subset_of(inputs),
        spec_collision_free(inputs),
        spec_none_hashes_to_zero(inputs),
    ensures
        spec_agrees(end, spec_to_map(entries), key),
    decreases path.len(),
{
    let n = hi - lo;
    let m = spec_to_map(entries);
    let end_hash = spec_end_hash(end, key);
    // What the map hashes at this node.
    if n >= 2 && d >= 256 {
        assert(spec_prefix_eq(entries[lo].key, entries[lo + 1].key, 256)) by {
            assert(spec_prefix_eq(entries[lo].key, key, d));
            assert(spec_prefix_eq(entries[lo + 1].key, key, d));
        }
        lemma_lt_within_prefix(entries[lo].key, entries[lo + 1].key, 256);
    }
    let mid = spec_split(entries, lo, hi, d);
    let branch = spec_branch_input(spec_trie_hash(entries, lo, mid, d + 1), spec_trie_hash(entries, mid, hi, d + 1));
    let leaf = spec_leaf_input(entries[lo].key, spec_value_hash(entries[lo].value));
    if n >= 2 {
        assert(spec_trie_inputs(entries, lo, hi, d).contains(branch));
    }
    if n == 1 {
        assert(spec_trie_inputs(entries, lo, hi, d).contains(leaf));
        assert(spec_trie_inputs(entries, lo, hi, d).contains(entries[lo].value.spec_bytes()));
        lemma_index_unique(entries, lo);
    }
    if n <= 1 && !(n == 1 && entries[lo].key == key) {
        // Nothing under this node has the key.
        if spec_has_key(entries, key) {
            let i = spec_index_of(entries, key);
            assert(spec_key_at(entries, key, i));
        }
    }
    if path.len() == 0 {
        match end {
            ProofEnd::Empty => {},
            ProofEnd::Other { key: other, value_hash } => {
                let mine = spec_leaf_input(other, value_hash);
                assert(spec_end_inputs(end, key).contains(mine));
                if n == 1 {
                    assert(spec_told_apart(mine, leaf));
                    lemma_leaf_input_determines(other, value_hash, entries[lo].key, spec_value_hash(entries[lo].value));
                } else if n >= 2 {
                    assert(spec_told_apart(mine, branch));
                    lemma_leaf_is_no_branch(
                        other,
                        value_hash,
                        spec_trie_hash(entries, lo, mid, d + 1),
                        spec_trie_hash(entries, mid, hi, d + 1),
                    );
                }
            },
            ProofEnd::Found(value) => {
                let mine = spec_leaf_input(key, spec_value_hash(value));
                assert(spec_end_inputs(end, key).contains(mine));
                assert(spec_end_inputs(end, key).contains(value.spec_bytes()));
                if n == 1 {
                    assert(spec_told_apart(mine, leaf));
                    lemma_leaf_input_determines(
                        key,
                        spec_value_hash(value),
                        entries[lo].key,
                        spec_value_hash(entries[lo].value),
                    );
                    assert(spec_told_apart(value.spec_bytes(), entries[lo].value.spec_bytes()));
                } else if n >= 2 {
                    assert(spec_told_apart(mine, branch));
                    lemma_leaf_is_no_branch(
                        key,
                        spec_value_hash(value),
                        spec_trie_hash(entries, lo, mid, d + 1),
                        spec_trie_hash(entries, mid, hi, d + 1),
                    );
                }
            },
        }
    } else {
        let rest = path.drop_first();
        let below = spec_fold(rest, key, d + 1, end_hash);
        let mine = if spec_bit(key, d) {
            spec_branch_input(path[0], below)
        } else {
            spec_branch_input(below, path[0])
        };
        assert(spec_fold_inputs(path, key, d, end_hash).contains(mine));
        if n == 1 {
            assert(spec_told_apart(leaf, mine));
            if spec_bit(key, d) {
                lemma_leaf_is_no_branch(entries[lo].key, spec_value_hash(entries[lo].value), path[0], below);
            } else {
                lemma_leaf_is_no_branch(entries[lo].key, spec_value_hash(entries[lo].value), below, path[0]);
            }
        } else if n >= 2 {
            assert(spec_told_apart(mine, branch));
            lemma_split(entries, lo, hi, d);
            let left = spec_trie_hash(entries, lo, mid, d + 1);
            let right = spec_trie_hash(entries, mid, hi, d + 1);
            assert forall|i: int| mid <= i < hi implies spec_bit(entries[i].key, d) by {
                if mid < i {
                    assert(spec_prefix_eq(entries[mid].key, entries[i].key, d)) by {
                        assert(spec_prefix_eq(entries[mid].key, key, d));
                        assert(spec_prefix_eq(entries[i].key, key, d));
                    }
                    lemma_lt_within_prefix(entries[mid].key, entries[i].key, d);
                }
            }
            assert(spec_fold_inputs(rest, key, d + 1, end_hash).subset_of(inputs));
            if spec_bit(key, d) {
                if below != right {
                    lemma_branch_input_differs(path[0], below, left, right);
                }
                assert forall|i: int| mid <= i < hi implies spec_prefix_eq(entries[i].key, key, d + 1) by {
                    assert(spec_prefix_eq(entries[i].key, key, d));
                }
                assert(spec_trie_inputs(entries, mid, hi, d + 1).subset_of(inputs));
                lemma_path_sound(entries, mid, hi, d + 1, key, rest, end, inputs);
            } else {
                if below != left {
                    lemma_branch_input_differs(below, path[0], left, right);
                }
                assert forall|i: int| lo <= i < mid implies spec_prefix_eq(entries[i].key, key, d + 1) by {
                    assert(spec_prefix_eq(entries[i].key, key, d));
                }
                assert(spec_trie_inputs(entries, lo, mid, d + 1).subset_of(inputs));
                lemma_path_sound(entries, lo, mid, d + 1, key, rest, end, inputs);
            }
        }
    }
}

/// A proof that checks out against the root of a map tells the truth about
/// the key: it shows a value with the bytes of the one that the map has, or
/// shows the key absent where the map has none. This holds unless two of
/// the byte strings that are hashed in checking the proof or in computing
/// the root collide, or one of them has the all-zero digest.
pub proof fn lemma_check_sound<V: Record>(
    map: ProofMap<V>,
    path: Seq<crypto::Hash>,
    end: ProofEnd<V>,
    key: PublicKey,
)
    requires
        map.wf(),
        spec_check(path, end, spec_map_root(map@), key) is Ok,
        spec_collision_free(spec_check_inputs(path, end, key) + spec_map_inputs(map@)),
        spec_none_hashes_to_zero(spec_check_inputs(path, end, key) + spec_map_inputs(map@)),
    ensures
        spec_agrees(end, map@, key),
{
    map.store.lemma_listing();
    let entries = map.store.listing();
    let inputs = spec_check_inputs(path, end, key) + spec_map_inputs(map@);
    lemma_path_sound(entries, 0, entries.len() as int, 0, key, path, end, inputs);
}

/// A value whose bytes differ from those of the value that the map has
/// under a key is turned down under that key, whatever path it comes with.
/// This holds unless two of the byte strings that are hashed in checking
/// the proof or in computing the root collide, or one of them has the
/// all-zero digest.
pub proof fn lemma_altered_value_is_refused<V: Record>(
    map: ProofMap<V>,
    path: Seq<crypto::Hash>,
    key: PublicKey,
    altered: V,
)
    requires
        map.wf(),
        path.len() <= 256,
        map@.dom().contains(key) ==> altered.spec_bytes() != map@[key].spec_bytes(),
        spec_collision_free(spec_check_inputs(path, ProofEnd::Found(altered), key) + spec_map_inputs(map@)),
        spec_none_hashes_to_zero(spec_check_inputs(path, ProofEnd::Found(altered), key) + spec_map_inputs(map@)),
    ensures
        spec_check(path, ProofEnd::Found(altered), spec_map_root(map@), key) == Err::<Option<V>, MapProofError>(
            MapProofError::UnmatchedRootHash,
        ),
{
    if spec_check(path, ProofEnd::Found(altered), spec_map_root(map@), key) is Ok {
        lemma_check_sound(map, path, ProofEnd::Found(altered), key);
    }
}

/// A proof that checks out against one root is turned down against every other.
pub proof fn lemma_check_binds_root<V: Record>(
    path: Seq<crypto::Hash>,
    end: ProofEnd<V>,
    root: crypto::Hash,
    other: crypto::Hash,
    key: PublicKey,
)
    requires
        spec_check(path, end, root, key) is Ok,
        other != root,
    ensures
        spec_check(path, end, other, key) == Err::<Option<V>, MapProofError>(MapProofError::UnmatchedRootHash),
{
}

/// Two maps with the same keys and values list their entries alike and
/// have the same root, however each came by its contents.
pub proof fn lemma_same_contents_same_root<V: Record>(a: ProofMap<V>, b: ProofMap<V>)
    requires
        a.wf(),
        b.wf(),
        a@ == b@,
    ensures
        a.listing() == b.listing(),
        spec_map_root(a@) == spec_map_root(b@),
{
    a.lemma_listing();
    b.lemma_listing();
}

/// The root of a map does not depend on the order in which two different
/// keys were put: either order gives the same map, and so the same root.
pub proof fn lemma_root_order_independent<V: Record>(m: Map<PublicKey, V>, k1: PublicKey, v1: V, k2: PublicKey, v2: V)
    requires
        k1 != k2,
    ensures
        m.insert(k1, v1).insert(k2, v2) == m.insert(k2, v2).insert(k1, v1),
        spec_map_root(m.insert(k1, v1).insert(k2, v2)) == spec_map_root(m.insert(k2, v2).insert(k1, v1)),
{
    assert(m.insert(k1, v1).insert(k2, v2) =~= m.insert(k2, v2).insert(k1, v1));
}

/// The hash of a value's bytes.
fn value_hash<V: Record>(value: &V) -> (r: crypto::Hash)
    ensures
        r == spec_value_hash(*value),
{
    let bytes = value.to_bytes();
    hash(bytes.as_slice())
}

/// The hash of a subtree that holds one entry.
fn leaf_node(key: &PublicKey, value_hash: &crypto::Hash) -> (r: crypto::Hash)
    ensures
        r == spec_leaf_node(*key, *value_hash),
{
    let mut buf: Vec<u8> = Vec::new();
    buf.push(0u8);
    buf.extend_from_slice(key.bytes.as_slice());
    buf.extend_from_slice(value_hash.bytes.as_slice());
    assert(buf@ =~= seq![0u8] + key@ + value_hash@);
    hash(buf.as_slice())
}

/// The hash of a subtree that holds two entries or more.
fn branch_node(left: &crypto::Hash, right: &crypto::Hash) -> (r: crypto::Hash)
    ensures
        r == spec_branch_node(*left, *right),
{
    let mut buf: Vec<u8> = Vec::new();
    buf.push(1u8);
    buf.extend_from_slice(left.bytes.as_slice());
    buf.extend_from_slice(right.bytes.as_slice());
    assert(buf@ =~= seq![1u8] + left@ + right@);
    hash(buf.as_slice())
}

/// An authenticated map from keys to records.
#[derive(Debug)]
pub struct ProofMap<V> {
    store: SortedStore<V>,
}

impl<V> View for ProofMap<V> {
    type V = Map<PublicKey, V>;

    closed spec fn view(&self) -> Map<PublicKey, V> {
        self.store@
    }
}

impl<V: Record> ProofMap<V> {
    /// The invariant of the map: its keys strictly ascend.
    pub closed spec fn wf(&self) -> bool {
        self.store.wf()
    }

    /// The entries in the order of their keys.
    pub closed spec fn listing(&self) -> Seq<Entry<V>> {
        self.store.listing()
    }

    /// The entries are the one ascending listing of the map.
    pub proof fn lemma_listing(&self)
        requires
            self.wf(),
        ensures
            self.listing() == spec_listing(self@),
            spec_lists(self.listing(), self@),
    {
        self.store.lemma_listing();
    }

    /// The empty map.
    pub fn new() -> (r: Self)
        ensures
            r.wf(),
            r@ == Map::<PublicKey, V>::empty(),
    {
        ProofMap { store: SortedStore::new() }
    }

    /// The number of entries.
    pub fn len(&self) -> (r: usize)
        ensures
            r == self.listing().len(),
    {
        self.store.len()
    }

    /// The entry at position `i` of the listing.
    pub fn entry(&self, i: usize) -> (r: &Entry<V>)
        requires
            i < self.listing().len(),
        ensures
            *r == self.listing()[i as int],
    {
        self.store.entry(i)
    }

    /// Whether the map has an entry for `key`.
    pub fn contains(&self, key: &PublicKey) -> (r: bool)
        requires
            self.wf(),
        ensures
            r == self@.dom().contains(*key),
    {
        self.store.contains(key)
    }

    /// The value stored under `key`, if there is one.
    pub fn get(&self, key: &PublicKey) -> (r: Option<V>)
        requires
            self.wf(),
        ensures
            r == (if self@.dom().contains(*key) { Some(self@[*key]) } else { None }),
    {
        match self.store.get(key) {
            Some(v) => Some(v.replica()),
            None => None,
        }
    }

    /// Stores `value` under `key`, in place of what was there.
    pub fn put(&mut self, key: &PublicKey, value: V)
        requires
            old(self).wf(),
        ensures
            final(self).wf(),
            final(self)@ == old(self)@.insert(*key, value),
    {
        self.store.put(key, value);
    }

    fn split(&self, lo: usize, hi: usize, d: usize) -> (mid: usize)
        requires
            lo <= hi <= self.listing().len(),
            d < 256,
        ensures
            mid == spec_split(self.listing(), lo as int, hi as int, d as int),
            lo <= mid <= hi,
    {
        let mut i: usize = lo;
        while i < hi
            invariant
                lo <= i <= hi <= self.listing().len(),
                d < 256,
                spec_split(self.listing(), i as int, hi as int, d as int) == spec_split(
                    self.listing(),
                    lo as int,
                    hi as int,
                    d as int,
                ),
            decreases hi - i,
        {
            if key_bit(&self.store.entry(i).key, d) {
                return i;
            }
            i += 1;
        }
        i
    }

    fn trie_hash(&self, lo: usize, hi: usize, d: usize) -> (r: crypto::Hash)
        requires
            lo <= hi <= self.listing().len(),
            d <= 256,
        ensures
            r == spec_trie_hash(self.listing(), lo as int, hi as int, d as int),
        decreases 256 - d,
    {
        if hi - lo == 0 {
            crypto::Hash::zero()
        } else if hi - lo == 1 {
            let e = self.store.entry(lo);
            let vh = value_hash(&e.value);
            leaf_node(&e.key, &vh)
        } else if d >= 256 {
            crypto::Hash::zero()
        } else {
            let mid = self.split(lo, hi, d);
            let left = self.trie_hash(lo, mid, d + 1);
            let right = self.trie_hash(mid, hi, d + 1);
            branch_node(&left, &right)
        }
    }

    /// The hash that commits to the keys and values of the map.
    pub fn merkle_root(&self) -> (r: crypto::Hash)
        requires
            self.wf(),
        ensures
            r == spec_map_root(self@),
    {
        proof {
            self.store.lemma_listing();
        }
        self.trie_hash(0, self.store.len(), 0)
    }

    fn path_from(&self, lo: usize, hi: usize, d: usize, key: &PublicKey, path: &mut Vec<crypto::Hash>) -> (r:
        ProofEnd<V>)
        requires
            lo <= hi <= self.listing().len(),
            d <= 256,
        ensures
            final(path)@ == old(path)@ + spec_path(self.listing(), lo as int, hi as int, d as int, *key).0,
            r == spec_path(self.listing(), lo as int, hi as int, d as int, *key).1,
        decreases 256 - d,
    {
        if hi - lo == 0 {
            assert(path@ =~= old(path)@ + Seq::<crypto::Hash>::empty());
            ProofEnd::Empty
        } else if hi - lo == 1 {
            assert(path@ =~= old(path)@ + Seq::<crypto::Hash>::empty());
            let e = self.store.entry(lo);
            if e.key.same(key) {
                ProofEnd::Found(e.value.replica())
            } else {
                ProofEnd::Other { key: e.key, value_hash: value_hash(&e.value) }
            }
        } else if d >= 256 {
            assert(path@ =~= old(path)@ + Seq::<crypto::Hash>::empty());
            ProofEnd::Empty
        } else {
            let mid = self.split(lo, hi, d);
            if key_bit(key, d) {
                let aside = self.trie_hash(lo, mid, d + 1);
                path.push(aside);
                let end = self.path_from(mid, hi, d + 1, key, path);
                proof {
                    let rest = spec_path(self.listing(), mid as int, hi as int, d + 1, *key);
                    assert(path@ =~= old(path)@ + (seq![aside] + rest.0));
                }
                end
            } else {
                let aside = self.trie_hash(mid, hi, d + 1);
                path.push(aside);
                let end = self.path_from(lo, mid, d + 1, key, path);
                proof {
                    let rest = spec_path(self.listing(), lo as int, mid as int, d + 1, *key);
                    assert(path@ =~= old(path)@ + (seq![aside] + rest.0));
                }
                end
            }
        }
    }

    /// The proof that `key` is in the map with its value, or that it is not.
    pub fn get_proof(&self, key: &PublicKey) -> (r: MapProof<V>)
        requires
            self.wf(),
        ensures
            r.path@ == spec_map_proof(self@, *key).0,
            r.end == spec_map_proof(self@, *key).1,
    {
        proof {
            self.store.lemma_listing();
        }
        let mut path: Vec<crypto::Hash> = Vec::new();
        let end = self.path_from(0, self.store.len(), 0, key, &mut path);
        assert(path@ =~= spec_map_proof(self@, *key).0);
        MapProof { path, end }
    }
}

impl<V: Record> MapProof<V> {
    /// Whether the end of the path can belong to a proof for `key`.
    fn end_fits(&self, key: &PublicKey) -> (r: bool)
        requires
            self.path@.len() <= 256,
        ensures
            r == spec_end_fits(self.end, *key, self.path@.len() as int),
    {
        match &self.end {
            ProofEnd::Other { key: other, value_hash } => {
                if other.same(key) {
                    return false;
                }
                let n = self.path.len();
                let mut j: usize = 0;
                while j < n
                    invariant
                        j <= n <= 256,
                        n == self.path@.len(),
                        *other != *key,
                        self.end == (ProofEnd::<V>::Other { key: *other, value_hash: *value_hash }),
                        spec_prefix_eq(*other, *key, j as int),
                    decreases n - j,
                {
                    if key_bit(other, j) != key_bit(key, j) {
                        assert(spec_bit(*other, j as int) != spec_bit(*key, j as int));
                        return false;
                    }
                    j += 1;
                }
                true
            },
            _ => true,
        }
    }

    /// The hash of what lies at the end of the path.
    fn end_hash(&self, key: &PublicKey) -> (r: crypto::Hash)
        ensures
            r == spec_end_hash(self.end, *key),
    {
        match &self.end {
            ProofEnd::Empty => crypto::Hash::zero(),
            ProofEnd::Other { key: other, value_hash } => leaf_node(other, value_hash),
            ProofEnd::Found(value) => {
                let vh = value_hash(value);
                leaf_node(key, &vh)
            },
        }
    }

    /// Holds the proof against a root hash. Gives the value that the proof
    /// shows under `key`, or none where it shows the key absent, or the
    /// reason why the proof does not belong to a map with that root.
    pub fn check(&self, root: crypto::Hash, key: &PublicKey) -> (r: Result<Option<V>, MapProofError>)
        ensures
            r == spec_check(self.path@, self.end, root, *key),
    {
        let n = self.path.len();
        if n > 256 {
            return Err(MapProofError::MalformedProof);
        }
        if !self.end_fits(key) {
            return Err(MapProofError::MalformedProof);
        }
        let end = self.end_hash(key);
        let mut h = end;
        let mut i: usize = n;
        assert(self.path@.subrange(n as int, n as int) =~= Seq::<crypto::Hash>::empty());
        while i > 0
            invariant
                i <= n <= 256,
                n == self.path@.len(),
                h == spec_fold(self.path@.subrange(i as int, n as int), *key, i as int, end),
            decreases i,
        {
            i -= 1;
            proof {
                let upper = self.path@.subrange(i as int, n as int);
                assert(upper.drop_first() =~= self.path@.subrange(i + 1, n as int));
                assert(upper[0] == self.path@[i as int]);
            }
            h = if key_bit(key, i) {
                branch_node(&self.path[i], &h)
            } else {
                branch_node(&h, &self.path[i])
            };
        }
        assert(self.path@.subrange(0, n as int) =~= self.path@);
        if !h.same(&root) {
            return Err(MapProofError::UnmatchedRootHash);
        }
        match &self.end {
            ProofEnd::Found(value) => Ok(Some(value.replica())),
            _ => Ok(None),
        }
    }
}

} // verus!
