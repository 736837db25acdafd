//! An append-only list whose contents and order are committed to by one hash,
//! with proofs that a range of it holds given elements.
//!
//! The elements sit at the leaves of a binary tree over a power-of-two number
//! of positions. A node hashes its two children, or its left child alone where
//! the list ends before the right one begins.

use crate::crypto;
use crate::crypto::{hash, spec_collision_free, spec_hash, spec_told_apart, spec_zero_hash};
use vstd::prelude::*;

verus! {

/// Why a list proof was turned down.
#[derive(Clone, Copy, Debug, PartialEq, Eq, Structural)]
pub enum ListProofError {
    /// An element stands where the tree has an inner node, or past the end of the list.
    UnexpectedLeaf,
    /// An inner node stands where the tree has a leaf, or has the wrong number of children.
    UnexpectedBranch,
    /// The proof hashes to another root than the one it was held against.
    UnmatchedRootHash,
}

/// A part of the tree over a list: the elements of a range, and the hashes of
/// everything beside them.
#[derive(Debug, PartialEq, Eq)]
pub enum ListProof {
    /// An element of the list.
    Leaf(crypto::Hash),
    /// A subtree that the proof does not open, given by its hash.
    Hashed(crypto::Hash),
    /// A node with both children.
    Branch(Box<ListProof>, Box<ListProof>),
    /// A node whose right child lies wholly past the end of the list.
    Single(Box<ListProof>),
}

/// An append-only list of hashes.
#[derive(Debug)]
pub struct ProofList {
    items: Vec<crypto::Hash>,
}

/// Whether `w` is a power of two.
pub open spec fn is_pow2(w: int) -> bool
    decreases w,
{
    w == 1 || (w > 1 && w % 2 == 0 && is_pow2(w / 2))
}

/// The first of `w`, `2w`, `4w`, ... that is at least `len`.
pub open spec fn spec_capacity_from(w: int, len: int) -> int
    decreases (if w < len { len - w } else { 0 }),
{
    if w >= len || w <= 0 {
        w
    } else {
        spec_capacity_from(2 * w, len)
    }
}

/// The number of leaf positions of the tree over a list of `len` elements.
pub open spec fn spec_capacity(len: int) -> int {
    spec_capacity_from(1, len)
}

/// The hash of a leaf that holds `value`.
pub open spec fn spec_leaf_hash(value: crypto::Hash) -> crypto::Hash {
    spec_hash(value@)
}

/// The hash of a node with two children.
pub open spec fn spec_pair_hash(left: crypto::Hash, right: crypto::Hash) -> crypto::Hash {
    spec_hash(left@ + right@)
}

/// The hash of a node with a left child only.
pub open spec fn spec_single_hash(left: crypto::Hash) -> crypto::Hash {
    spec_hash(left@)
}

/// The hash of the subtree over positions `lo .. lo + width`.
pub open spec fn spec_subtree_hash(items: Seq<crypto::Hash>, lo: int, width: int) -> crypto::Hash
    decreases width,
{
    if width <= 1 {
        spec_leaf_hash(items[lo])
    } else {
        let half = width / 2;
        let left = spec_subtree_hash(items, lo, half);
        if lo + half < items.len() {
            spec_pair_hash(left, spec_subtree_hash(items, lo + half, half))
        } else {
            spec_single_hash(left)
        }
    }
}

/// The root hash of a list: the zero hash when it is empty, else the hash of
/// the whole tree.
pub open spec fn spec_list_root(items: Seq<crypto::Hash>) -> crypto::Hash {
    if items.len() == 0 {
        spec_zero_hash()
    } else {
        spec_subtree_hash(items, 0, spec_capacity(items.len() as int))
    }
}

/// The proof for `from .. to`, restricted to the subtree over `lo .. lo + width`.
pub open spec fn spec_build_proof(items: Seq<crypto::Hash>, lo: int, width: int, from: int, to: int) -> ListProof
    decreases width,
{
    if to <= lo || lo + width <= from || to <= from {
        ListProof::Hashed(spec_subtree_hash(items, lo, width))
    } else if width <= 1 {
        ListProof::Leaf(items[lo])
    } else {
        let half = width / 2;
        let left = spec_build_proof(items, lo, half, from, to);
        if lo + half < items.len() {
            ListProof::Branch(Box::new(left), Box::new(spec_build_proof(items, lo + half, half, from, to)))
        } else {
            ListProof::Single(Box::new(left))
        }
    }
}

/// The proof that a list gives for the elements at `from .. to`.
pub open spec fn spec_range_proof(items: Seq<crypto::Hash>, from: int, to: int) -> ListProof {
    if items.len() == 0 {
        ListProof::Hashed(spec_zero_hash())
    } else {
        spec_build_proof(items, 0, spec_capacity(items.len() as int), from, to)
    }
}

/// What a proof placed over positions `lo .. lo + width` of a list of `len`
/// elements hashes to, and the elements it opens with their positions, or the
/// reason why it does not fit there.
pub open spec fn spec_collect(node: ListProof, lo: int, width: int, len: int) -> Result<(crypto::Hash, Seq<(u64, crypto::Hash)>), ListProofError>
    decreases node,
{
    match node {
        ListProof::Leaf(value) => {
            if width != 1 || lo >= len {
                Err(ListProofError::UnexpectedLeaf)
            } else {
                Ok((spec_leaf_hash(value), seq![(lo as u64, value)]))
            }
        },
        ListProof::Hashed(h) => Ok((h, Seq::empty())),
        ListProof::Branch(left, right) => {
            if width <= 1 || lo + width / 2 >= len {
                Err(ListProofError::UnexpectedBranch)
            } else {
                match spec_collect(*left, lo, width / 2, len) {
                    Err(e) => Err(e),
                    Ok((lh, le)) => match spec_collect(*right, lo + width / 2, width / 2, len) {
                        Err(e) => Err(e),
                        Ok((rh, re)) => Ok((spec_pair_hash(lh, rh), le + re)),
                    },
                }
            }
        },
        ListProof::Single(left) => {
            if width <= 1 || lo + width / 2 < len {
                Err(ListProofError::UnexpectedBranch)
            } else {
                match spec_collect(*left, lo, width / 2, len) {
                    Err(e) => Err(e),
                    Ok((lh, le)) => Ok((spec_single_hash(lh), le)),
                }
            }
        },
    }
}

/// The verdict on a proof held against a root hash and a length: the
/// elements it opens, each with its position, or the reason for turning it down.
pub open spec fn spec_validate(node: ListProof, root: crypto::Hash, len: u64) -> Result<Seq<(u64, crypto::Hash)>, ListProofError> {
    match spec_collect(node, 0, spec_capacity(len as int), len as int) {
        Err(e) => Err(e),
        Ok((h, entries)) => if h == root {
            Ok(entries)
        } else {
            Err(ListProofError::UnmatchedRootHash)
        },
    }
}

/// The elements at positions `from .. to`, each with its position.
pub open spec fn spec_entries(items: Seq<crypto::Hash>, from: int, to: int) -> Seq<(u64, crypto::Hash)> {
    if from < to {
        Seq::new((to - from) as nat, |i: int| ((from + i) as u64, items[from + i]))
    } else {
        Seq::empty()
    }
}

/// The larger of two integers.
pub open spec fn spec_max(a: int, b: int) -> int {
    if a >= b { a } else { b }
}

/// The smaller of two integers.
pub open spec fn spec_min(a: int, b: int) -> int {
    if a <= b { a } else { b }
}

/// Half of a power of two above one is a power of two, and twice it is the whole.
proof fn lemma_pow2_half(w: int)
    requires
        is_pow2(w),
        w > 1,
    ensures
        is_pow2(w / 2),
        2 * (w / 2) == w,
        w / 2 >= 1,
{
}

/// The capacity reached from a power of two is a power of two no smaller than
/// the length, and below twice the length where the start is.
proof fn lemma_capacity_from(w: int, len: int)
    requires
        is_pow2(w),
        w < 2 * len || w == 1,
    ensures
        is_pow2(spec_capacity_from(w, len)),
        spec_capacity_from(w, len) >= len,
        spec_capacity_from(w, len) >= 1,
        spec_capacity_from(w, len) < 2 * len || spec_capacity_from(w, len) == 1,
    decreases (if w < len { len - w } else { 0 }),
{
    assert(w >= 1) by {
        reveal_with_fuel(is_pow2, 1);
    }
    if w >= len {
    } else {
        assert(is_pow2(2 * w)) by {
            assert((2 * w) / 2 == w);
        }
        lemma_capacity_from(2 * w, len);
    }
}

/// The proof that a list builds for a range, placed where it was built, hashes
/// to the subtree's hash and opens exactly the range's elements that lie there.
proof fn lemma_build_collect(items: Seq<crypto::Hash>, lo: int, width: int, from: int, to: int)
    requires
        is_pow2(width),
        0 <= lo < items.len(),
        items.len() <= u64::MAX,
        0 <= from,
        to <= items.len(),
    ensures
        spec_collect(spec_build_proof(items, lo, width, from, to), lo, width, items.len() as int) == Ok::<
            (crypto::Hash, Seq<(u64, crypto::Hash)>),
            ListProofError,
        >(
            (
                spec_subtree_hash(items, lo, width),
                spec_entries(items, spec_max(from, lo), spec_min(to, lo + width)),
            ),
        ),
    decreases width,
{
    let len = items.len() as int;
    let a = spec_max(from, lo);
    let b = spec_min(to, lo + width);
    if to <= lo || lo + width <= from || to <= from {
        assert(spec_entries(items, a, b) =~= Seq::empty());
    } else if width <= 1 {
        assert(width == 1) by {
            reveal_with_fuel(is_pow2, 1);
        }
        assert(spec_entries(items, a, b) =~= seq![(lo as u64, items[lo])]);
    } else {
        lemma_pow2_half(width);
        let half = width / 2;
        lemma_build_collect(items, lo, half, from, to);
        let le = spec_entries(items, spec_max(from, lo), spec_min(to, lo + half));
        if lo + half < len {
            lemma_build_collect(items, lo + half, half, from, to);
            let re = spec_entries(items, spec_max(from, lo + half), spec_min(to, lo + half + half));
            assert(le + re =~= spec_entries(items, a, b));
        } else {
            assert(le =~= spec_entries(items, a, b));
        }
    }
}

/// A list's proof for any range checks out against the list's own root and
/// length, and opens exactly the elements of that range, in order.
pub proof fn lemma_range_proof_validates(items: Seq<crypto::Hash>, from: int, to: int)
    requires
        items.len() <= u64::MAX,
        0 <= from,
        to <= items.len(),
    ensures
        spec_validate(spec_range_proof(items, from, to), spec_list_root(items), items.len() as u64)
            == Ok::<Seq<(u64, crypto::Hash)>, ListProofError>(spec_entries(items, from, to)),
{
    let len = items.len() as int;
    if len == 0 {
        assert(spec_entries(items, from, to) =~= Seq::empty());
    } else {
        assert(is_pow2(1));
        lemma_capacity_from(1, len);
        let cap = spec_capacity(len);
        lemma_build_collect(items, 0, cap, from, to);
        assert(spec_entries(items, spec_max(from, 0), spec_min(to, cap)) =~= spec_entries(items, from, to));
    }
}

/// Whether the positions of the entries lie in `lo .. hi` and strictly ascend.
pub open spec fn spec_in_order(entries: Seq<(u64, crypto::Hash)>, lo: int, hi: int) -> bool {
    &&& forall|i: int| 0 <= i < entries.len() ==> lo <= (#[trigger] entries[i]).0 < hi
    &&& forall|i: int, j: int| 0 <= i < j < entries.len() ==> entries[i].0 < entries[j].0
}

/// Whatever a proof opens, it opens at positions of the list that lie under
/// the node where the proof is placed, the earlier position first.
proof fn lemma_collect_in_order(node: ListProof, lo: int, width: int, len: int)
    requires
        is_pow2(width),
        0 <= lo,
        len <= u64::MAX,
        spec_collect(node, lo, width, len) is Ok,
    ensures
        spec_in_order(spec_collect(node, lo, width, len)->Ok_0.1, lo, spec_min(lo + width, len)),
    decreases node,
{
    match node {
        ListProof::Leaf(_) => {},
        ListProof::Hashed(_) => {},
        ListProof::Branch(left, right) => {
            lemma_pow2_half(width);
            let half = width / 2;
            lemma_collect_in_order(*left, lo, half, len);
            lemma_collect_in_order(*right, lo + half, half, len);
            let le = spec_collect(*left, lo, half, len)->Ok_0.1;
            let re = spec_collect(*right, lo + half, half, len)->Ok_0.1;
            let all = le + re;
            assert forall|i: int| 0 <= i < all.len() implies lo <= (#[trigger] all[i]).0 < spec_min(
                lo + width,
                len,
            ) by {
                if i >= le.len() {
                    assert(all[i] == re[i - le.len()]);
                } else {
                    assert(all[i] == le[i]);
                }
            }
            assert forall|i: int, j: int| 0 <= i < j < all.len() implies all[i].0 < all[j].0 by {
                if j < le.len() {
                    assert(all[i] == le[i] && all[j] == le[j]);
                } else if i >= le.len() {
                    assert(all[i] == re[i - le.len()] && all[j] == re[j - le.len()]);
                } else {
                    assert(all[i] == le[i] && all[j] == re[j - le.len()]);
                }
            }
        },
        ListProof::Single(left) => {
            lemma_pow2_half(width);
            lemma_collect_in_order(*left, lo, width / 2, len);
        },
    }
}

/// The entries of a proof that checks out stand at positions of the list,
/// the earlier position first.
pub proof fn lemma_validate_in_order(node: ListProof, root: crypto::Hash, len: u64)
    requires
        spec_validate(node, root, len) is Ok,
    ensures
        spec_in_order(spec_validate(node, root, len)->Ok_0, 0, len as int),
{
    assert(is_pow2(1));
    lemma_capacity_from(1, len as int);
    lemma_collect_in_order(node, 0, spec_capacity(len as int), len as int);
}

/// The byte strings that are hashed in collecting a proof placed over
/// positions `lo .. lo + width` of a list of `len` elements.
pub open spec fn spec_collect_inputs(node: ListProof, lo: int, width: int, len: int) -> Set<Seq<u8>>
    decreases node,
{
    let half = width / 2;
    match node {
        ListProof::Leaf(value) => Set::empty().insert(value@),
        ListProof::Hashed(_) => Set::empty(),
        ListProof::Branch(left, right) => {
            let below = spec_collect_inputs(*left, lo, half, len) + spec_collect_inputs(
                *right,
                lo + half,
                half,
                len,
            );
            if spec_collect(*left, lo, half, len) is Ok && spec_collect(*right, lo + half, half, len) is Ok {
                below.insert(
                    spec_collect(*left, lo, half, len)->Ok_0.0@ + spec_collect(
                        *right,
                        lo + half,
                        half,
                        len,
                    )->Ok_0.0@,
                )
            } else {
                below
            }
        },
        ListProof::Single(left) => {
            let below = spec_collect_inputs(*left, lo, half, len);
            if spec_collect(*left, lo, half, len) is Ok {
                below.insert(spec_collect(*left, lo, half, len)->Ok_0.0@)
            } else {
                below
            }
        },
    }
}

/// The byte strings that are hashed in checking a proof against a list of
/// `len` elements.
pub open spec fn spec_validate_inputs(node: ListProof, len: u64) -> Set<Seq<u8>> {
    spec_collect_inputs(node, 0, spec_capacity(len as int), len as int)
}

/// The byte strings that are hashed in computing the hash of the subtree
/// over positions `lo .. lo + width`.
pub open spec fn spec_subtree_inputs(items: Seq<crypto::Hash>, lo: int, width: int) -> Set<Seq<u8>>
    decreases width,
{
    if width <= 1 {
        Set::empty().insert(items[lo]@)
    } else {
        let half = width / 2;
        let left = spec_subtree_inputs(items, lo, half);
        if lo + half < items.len() {
            (left + spec_subtree_inputs(items, lo + half, half)).insert(
                spec_subtree_hash(items, lo, half)@ + spec_subtree_hash(items, lo + half, half)@,
            )
        } else {
            left.insert(spec_subtree_hash(items, lo, half)@)
        }
    }
}

/// The byte strings that are hashed in computing the root of a list.
pub open spec fn spec_list_inputs(items: Seq<crypto::Hash>) -> Set<Seq<u8>> {
    if items.len() == 0 {
        Set::empty()
    } else {
        spec_subtree_inputs(items, 0, spec_capacity(items.len() as int))
    }
}

/// Whether the list holds each entry at its position.
pub open spec fn spec_holds(items: Seq<crypto::Hash>, entries: Seq<(u64, crypto::Hash)>) -> bool {
    forall|i: int|
        0 <= i < entries.len() ==> (#[trigger] entries[i]).0 < items.len() && items[entries[i].0 as int]
            == entries[i].1
}

/// A proof that hashes to what the list hashes to at the same place opens
/// only elements that the list holds at those positions, unless two byte
/// strings that are hashed on either side collide.
proof fn lemma_collect_sound(node: ListProof, items: Seq<crypto::Hash>, lo: int, width: int, inputs: Set<Seq<u8>>)
    requires
        is_pow2(width),
        0 <= lo,
        items.len() <= u64::MAX,
        spec_collect(node, lo, width, items.len() as int) is Ok,
        spec_collect(node, lo, width, items.len() as int)->Ok_0.0 == spec_subtree_hash(items, lo, width),
        spec_collect_inputs(node, lo, width, items.len() as int).subset_of(inputs),
        spec_subtree_inputs(items, lo, width).subset_of(inputs),
        spec_collision_free(inputs),
    ensures
        spec_holds(items, spec_collect(node, lo, width, items.len() as int)->Ok_0.1),
    decreases node,
{
    let len = items.len() as int;
    let half = width / 2;
    match node {
        ListProof::Leaf(value) => {
            assert(spec_collect_inputs(node, lo, width, len).contains(value@));
            assert(spec_subtree_inputs(items, lo, width).contains(items[lo]@));
            assert(spec_told_apart(value@, items[lo]@));
            crypto::lemma_hash_from_view(value);
            crypto::lemma_hash_from_view(items[lo]);
        },
        ListProof::Hashed(_) => {},
        ListProof::Branch(left, right) => {
            lemma_pow2_half(width);
            let l = spec_collect(*left, lo, half, len)->Ok_0;
            let r = spec_collect(*right, lo + half, half, len)->Ok_0;
            let a = spec_subtree_hash(items, lo, half);
            let b = spec_subtree_hash(items, lo + half, half);
            let x = l.0@ + r.0@;
            let y = a@ + b@;
            assert(spec_collect_inputs(node, lo, width, len).contains(x));
            assert(spec_subtree_inputs(items, lo, width).contains(y));
            assert(spec_told_apart(x, y));
            assert(x.subrange(0, 32) =~= l.0@);
            assert(y.subrange(0, 32) =~= a@);
            assert(x.subrange(32, 64) =~= r.0@);
            assert(y.subrange(32, 64) =~= b@);
            crypto::lemma_hash_from_view(l.0);
            crypto::lemma_hash_from_view(r.0);
            crypto::lemma_hash_from_view(a);
            crypto::lemma_hash_from_view(b);
            assert(spec_collect_inputs(*left, lo, half, len).subset_of(inputs));
            assert(spec_collect_inputs(*right, lo + half, half, len).subset_of(inputs));
            assert(spec_subtree_inputs(items, lo, half).subset_of(inputs));
            assert(spec_subtree_inputs(items, lo + half, half).subset_of(inputs));
            lemma_collect_sound(*left, items, lo, half, inputs);
            lemma_collect_sound(*right, items, lo + half, half, inputs);
            let all = l.1 + r.1;
            assert forall|i: int| 0 <= i < all.len() implies (#[trigger] all[i]).0 < items.len()
                && items[all[i].0 as int] == all[i].1 by {
                if i < l.1.len() {
                    assert(all[i] == l.1[i]);
                } else {
                    assert(all[i] == r.1[i - l.1.len()]);
                }
            }
        },
        ListProof::Single(left) => {
            lemma_pow2_half(width);
            let l = spec_collect(*left, lo, half, len)->Ok_0;
            let a = spec_subtree_hash(items, lo, half);
            assert(spec_collect_inputs(node, lo, width, len).contains(l.0@));
            assert(spec_subtree_inputs(items, lo, width).contains(a@));
            assert(spec_told_apart(l.0@, a@));
            crypto::lemma_hash_from_view(l.0);
            crypto::lemma_hash_from_view(a);
            assert(spec_collect_inputs(*left, lo, half, len).subset_of(inputs));
            assert(spec_subtree_inputs(items, lo, half).subset_of(inputs));
            lemma_collect_sound(*left, items, lo, half, inputs);
        },
    }
}

/// A proof that checks out against the root of a list opens only elements
/// that the list holds at those positions. This holds unless two of the
/// byte strings that are hashed in checking the proof or in computing the
/// root collide.
pub proof fn lemma_validate_sound(node: ListProof, items: Seq<crypto::Hash>)
    requires
        0 < items.len() <= u64::MAX,
        spec_validate(node, spec_list_root(items), items.len() as u64) is Ok,
        spec_collision_free(spec_validate_inputs(node, items.len() as u64) + spec_list_inputs(items)),
    ensures
        spec_holds(items, spec_validate(node, spec_list_root(items), items.len() as u64)->Ok_0),
{
    assert(is_pow2(1));
    lemma_capacity_from(1, items.len() as int);
    let inputs = spec_validate_inputs(node, items.len() as u64) + spec_list_inputs(items);
    lemma_collect_sound(node, items, 0, spec_capacity(items.len() as int), inputs);
}

/// Appending to a list leaves alone the hash of every subtree that lies
/// wholly before the new element.
proof fn lemma_subtree_unchanged(items: Seq<crypto::Hash>, x: crypto::Hash, lo: int, width: int)
    requires
        is_pow2(width),
        0 <= lo,
        lo + width <= items.len(),
    ensures
        spec_subtree_hash(items.push(x), lo, width) == spec_subtree_hash(items, lo, width),
    decreases width,
{
    if width > 1 {
        lemma_pow2_half(width);
        lemma_subtree_unchanged(items, x, lo, width / 2);
        lemma_subtree_unchanged(items, x, lo + width / 2, width / 2);
    } else {
        assert(width == 1) by {
            reveal_with_fuel(is_pow2, 1);
        }
    }
}

/// The hash of a full subtree at the start of a list differs from that of
/// its left half, unless two byte strings hashed in the subtree collide.
proof fn lemma_left_spine(items: Seq<crypto::Hash>, width: int, inputs: Set<Seq<u8>>)
    requires
        is_pow2(width),
        2 <= width <= items.len(),
        spec_subtree_inputs(items, 0, width).subset_of(inputs),
        spec_collision_free(inputs),
    ensures
        spec_subtree_hash(items, 0, width) != spec_subtree_hash(items, 0, width / 2),
    decreases width,
{
    lemma_pow2_half(width);
    let half = width / 2;
    let whole = spec_subtree_hash(items, 0, half)@ + spec_subtree_hash(items, half, half)@;
    assert(spec_subtree_inputs(items, 0, width).contains(whole));
    assert(spec_subtree_inputs(items, 0, half).subset_of(inputs));
    if half == 1 {
        let part = items[0]@;
        assert(spec_subtree_inputs(items, 0, half).contains(part));
        assert(spec_told_apart(whole, part));
        assert(whole.len() != part.len());
    } else {
        lemma_pow2_half(half);
        let quarter = half / 2;
        let part = spec_subtree_hash(items, 0, quarter)@ + spec_subtree_hash(items, quarter, quarter)@;
        assert(spec_subtree_inputs(items, 0, half).contains(part));
        assert(spec_told_apart(whole, part));
        lemma_left_spine(items, half, inputs);
        if whole == part {
            assert(whole.subrange(0, 32) =~= spec_subtree_hash(items, 0, half)@);
            assert(part.subrange(0, 32) =~= spec_subtree_hash(items, 0, quarter)@);
            crypto::lemma_hash_from_view(spec_subtree_hash(items, 0, half));
            crypto::lemma_hash_from_view(spec_subtree_hash(items, 0, quarter));
        }
    }
}

/// Appending to a list changes the hash of every subtree that the list
/// reaches into and that covers the new element, unless two byte strings
/// hashed in the subtree before or after collide.
proof fn lemma_subtree_changes(items: Seq<crypto::Hash>, x: crypto::Hash, lo: int, width: int, inputs: Set<Seq<u8>>)
    requires
        is_pow2(width),
        0 <= lo < items.len(),
        items.len() < lo + width,
        spec_subtree_inputs(items, lo, width).subset_of(inputs),
        spec_subtree_inputs(items.push(x), lo, width).subset_of(inputs),
        spec_collision_free(inputs),
    ensures
        spec_subtree_hash(items.push(x), lo, width) != spec_subtree_hash(items, lo, width),
    decreases width,
{
    let n = items.len() as int;
    let longer = items.push(x);
    assert(width > 1) by {
        reveal_with_fuel(is_pow2, 1);
    }
    lemma_pow2_half(width);
    let half = width / 2;
    let before = spec_subtree_hash(items, lo, half);
    let after = spec_subtree_hash(longer, lo, half);
    assert(spec_subtree_inputs(items, lo, half).subset_of(inputs));
    assert(spec_subtree_inputs(longer, lo, half).subset_of(inputs));
    if n < lo + half {
        // The new element falls into the left half; there is no right half yet.
        lemma_subtree_changes(items, x, lo, half, inputs);
        assert(spec_subtree_inputs(items, lo, width).contains(before@));
        assert(spec_subtree_inputs(longer, lo, width).contains(after@));
        assert(spec_told_apart(before@, after@));
        crypto::lemma_hash_view_differs(before, after);
    } else {
        lemma_subtree_unchanged(items, x, lo, half);
        let right_after = spec_subtree_hash(longer, lo + half, half);
        let whole_after = after@ + right_after@;
        assert(spec_subtree_inputs(longer, lo, width).contains(whole_after));
        if n == lo + half {
            // The new element starts the right half.
            assert(spec_subtree_inputs(items, lo, width).contains(before@));
            assert(spec_told_apart(before@, whole_after));
            assert(before@.len() != whole_after.len());
        } else {
            let right_before = spec_subtree_hash(items, lo + half, half);
            let whole_before = before@ + right_before@;
            assert(spec_subtree_inputs(items, lo, width).contains(whole_before));
            assert(spec_subtree_inputs(items, lo + half, half).subset_of(inputs));
            assert(spec_subtree_inputs(longer, lo + half, half).subset_of(inputs));
            lemma_subtree_changes(items, x, lo + half, half, inputs);
            assert(spec_told_apart(whole_before, whole_after));
            if whole_before == whole_after {
                assert(whole_before.subrange(32, 64) =~= right_before@);
                assert(whole_after.subrange(32, 64) =~= right_after@);
                crypto::lemma_hash_view_differs(right_before, right_after);
            }
        }
    }
}

/// The capacity for one element more is the same capacity where there is
/// room, and twice the capacity where the list is full.
proof fn lemma_capacity_step(w: int, len: int)
    requires
        1 <= w,
        1 <= len,
    ensures
        spec_capacity_from(w, len + 1) == (if spec_capacity_from(w, len) > len {
            spec_capacity_from(w, len)
        } else {
            2 * spec_capacity_from(w, len)
        }),
    decreases (if w < len { len - w } else { 0 }),
{
    if w < len {
        lemma_capacity_step(2 * w, len);
    } else if w == len {
        assert(spec_capacity_from(2 * w, len + 1) == 2 * w);
    }
}

/// Appending to a list that is not empty changes its root. This holds
/// unless two of the byte strings that are hashed in computing the root
/// before or after collide.
pub proof fn lemma_push_changes_root(items: Seq<crypto::Hash>, x: crypto::Hash)
    requires
        0 < items.len(),
        spec_collision_free(spec_list_inputs(items) + spec_list_inputs(items.push(x))),
    ensures
        spec_list_root(items.push(x)) != spec_list_root(items),
{
    let n = items.len() as int;
    let longer = items.push(x);
    let inputs = spec_list_inputs(items) + spec_list_inputs(longer);
    let cap = spec_capacity(n);
    assert(is_pow2(1));
    lemma_capacity_from(1, n);
    lemma_capacity_step(1, n);
    if cap > n {
        lemma_subtree_changes(items, x, 0, cap, inputs);
    } else {
        // The list is full: the old tree becomes the left half of the new one.
        lemma_subtree_unchanged(items, x, 0, cap);
        assert((2 * cap) / 2 == cap);
        let old_root = spec_subtree_hash(items, 0, cap);
        let right = spec_subtree_hash(longer, cap, cap);
        let whole = old_root@ + right@;
        assert(spec_subtree_inputs(longer, 0, 2 * cap).contains(whole));
        if cap == 1 {
            let part = items[0]@;
            assert(spec_subtree_inputs(items, 0, cap).contains(part));
            assert(spec_told_apart(whole, part));
            assert(whole.len() != part.len());
        } else {
            lemma_pow2_half(cap);
            let half = cap / 2;
            let part = spec_subtree_hash(items, 0, half)@ + spec_subtree_hash(items, half, half)@;
            assert(spec_subtree_inputs(items, 0, cap).contains(part));
            assert(spec_told_apart(whole, part));
            lemma_left_spine(items, cap, inputs);
            if whole == part {
                assert(whole.subrange(0, 32) =~= old_root@);
                assert(part.subrange(0, 32) =~= spec_subtree_hash(items, 0, half)@);
                crypto::lemma_hash_from_view(old_root);
                crypto::lemma_hash_from_view(spec_subtree_hash(items, 0, half));
            }
        }
    }
}

/// A proof that checks out against one root is turned down against every other.
pub proof fn lemma_validate_binds_root(node: ListProof, root: crypto::Hash, other: crypto::Hash, len: u64)
    requires
        spec_validate(node, root, len) is Ok,
        other != root,
    ensures
        spec_validate(node, other, len) == Err::<Seq<(u64, crypto::Hash)>, ListProofError>(
            ListProofError::UnmatchedRootHash,
        ),
{
}

impl View for ProofList {
    type V = Seq<crypto::Hash>;

    closed spec fn view(&self) -> Seq<crypto::Hash> {
        self.items@
    }
}

/// The number of leaf positions of the tree over `len` elements.
fn capacity(len: usize) -> (w: u128)
    ensures
        w == spec_capacity(len as int),
        is_pow2(w as int),
        w >= len,
        w >= 1,
        w < 0x2_0000_0000_0000_0000,
{
    capacity64(len as u64)
}

/// The number of leaf positions of the tree over `len` elements.
fn capacity64(len: u64) -> (w: u128)
    ensures
        w == spec_capacity(len as int),
        is_pow2(w as int),
        w >= len,
        w >= 1,
        w < 0x2_0000_0000_0000_0000,
{
    let mut w: u128 = 1;
    assert(is_pow2(1));
    while w < len as u128
        invariant
            is_pow2(w as int),
            w < 2 * len || w == 1,
            spec_capacity_from(w as int, len as int) == spec_capacity(len as int),
        decreases (if w < len { len - w } else { 0 }),
    {
        proof {
            assert((2 * w) / 2 == w);
        }
        w = w * 2;
    }
    proof {
        reveal_with_fuel(is_pow2, 1);
    }
    w
}

/// Hashes a node with two children.
fn pair_hash(left: &crypto::Hash, right: &crypto::Hash) -> (r: crypto::Hash)
    ensures
        r == spec_pair_hash(*left, *right),
{
    let mut buf: Vec<u8> = Vec::new();
    buf.extend_from_slice(left.bytes.as_slice());
    buf.extend_from_slice(right.bytes.as_slice());
    assert(buf@ =~= left@ + right@);
    hash(buf.as_slice())
}

/// Hashes a node with a left child only, or a leaf that holds `value`.
fn single_hash(value: &crypto::Hash) -> (r: crypto::Hash)
    ensures
        r == spec_hash(value@),
{
    hash(value.bytes.as_slice())
}

impl ProofList {
    /// A list is never longer than a position can count.
    pub proof fn lemma_bounded(&self)
        ensures
            self@.len() <= u64::MAX,
    {
        assert(self.items@.len() == self.items.len());
    }

    /// The empty list.
    pub fn new() -> (r: ProofList)
        ensures
            r@ == Seq::<crypto::Hash>::empty(),
    {
        ProofList { items: Vec::new() }
    }

    /// The number of elements.
    pub fn len(&self) -> (r: u64)
        ensures
            r == self@.len(),
    {
        self.items.len() as u64
    }

    /// Whether the list holds nothing.
    pub fn is_empty(&self) -> (r: bool)
        ensures
            r == (self@.len() == 0),
    {
        self.items.len() == 0
    }

    /// The element at `index`, if the list is that long.
    pub fn get(&self, index: u64) -> (r: Option<crypto::Hash>)
        ensures
            r == (if index < self@.len() { Some(self@[index as int]) } else { None }),
    {
        if index < self.items.len() as u64 {
            Some(self.items[index as usize])
        } else {
            None
        }
    }

    /// Appends an element.
    pub fn push(&mut self, value: crypto::Hash)
        ensures
            final(self)@ == old(self)@.push(value),
    {
        self.items.push(value);
    }

    /// A copy of the list.
    pub fn replica(&self) -> (r: ProofList)
        ensures
            r@ == self@,
    {
        let mut items: Vec<crypto::Hash> = Vec::new();
        let mut i: usize = 0;
        while i < self.items.len()
            invariant
                i <= self.items@.len(),
                items@ == self.items@.subrange(0, i as int),
            decreases self.items@.len() - i,
        {
            items.push(self.items[i]);
            assert(items@ =~= self.items@.subrange(0, i + 1));
            i += 1;
        }
        assert(items@ =~= self.items@);
        ProofList { items }
    }

    /// All elements in order.
    pub fn to_vec(&self) -> (r: Vec<crypto::Hash>)
        ensures
            r@ == self@,
    {
        self.replica().items
    }

    fn subtree_hash(&self, lo: usize, width: u128) -> (r: crypto::Hash)
        requires
            lo < self@.len(),
            is_pow2(width as int),
        ensures
            r == spec_subtree_hash(self@, lo as int, width as int),
        decreases width,
    {
        if width <= 1 {
            single_hash(&self.items[lo])
        } else {
            proof {
                lemma_pow2_half(width as int);
            }
            let half: u128 = width / 2;
            let left = self.subtree_hash(lo, half);
            if half < (self.items.len() - lo) as u128 {
                let right = self.subtree_hash(lo + half as usize, half);
                pair_hash(&left, &right)
            } else {
                single_hash(&left)
            }
        }
    }

    /// The hash that commits to the elements and their order.
    pub fn merkle_root(&self) -> (r: crypto::Hash)
        ensures
            r == spec_list_root(self@),
    {
        if self.items.len() == 0 {
            crypto::Hash::zero()
        } else {
            self.subtree_hash(0, capacity(self.items.len()))
        }
    }

    fn build_proof(&self, lo: usize, width: u128, from: u64, to: u64) -> (r: ListProof)
        requires
            lo < self@.len(),
            is_pow2(width as int),
            width < 0x2_0000_0000_0000_0000,
        ensures
            r == spec_build_proof(self@, lo as int, width as int, from as int, to as int),
        decreases width,
    {
        if to as u128 <= lo as u128 || lo as u128 + width <= from as u128 || to <= from {
            ListProof::Hashed(self.subtree_hash(lo, width))
        } else if width <= 1 {
            ListProof::Leaf(self.items[lo])
        } else {
            proof {
                lemma_pow2_half(width as int);
            }
            let half: u128 = width / 2;
            let left = self.build_proof(lo, half, from, to);
            if half < (self.items.len() - lo) as u128 {
                let right = self.build_proof(lo + half as usize, half, from, to);
                ListProof::Branch(Box::new(left), Box::new(right))
            } else {
                ListProof::Single(Box::new(left))
            }
        }
    }

    /// The proof for the elements at `from .. to`. A range that reaches past
    /// the end is cut there; an empty one gives a proof that opens nothing.
    pub fn get_range_proof(&self, from: u64, to: u64) -> (r: ListProof)
        ensures
            r == spec_range_proof(self@, from as int, to as int),
    {
        if self.items.len() == 0 {
            ListProof::Hashed(crypto::Hash::zero())
        } else {
            self.build_proof(0, capacity(self.items.len()), from, to)
        }
    }
}

impl ListProof {
    fn collect(&self, lo: u64, width: u128, len: u64, out: &mut Vec<(u64, crypto::Hash)>) -> (r: Result<crypto::Hash, ListProofError>)
        requires
            lo <= len,
        ensures
            match spec_collect(*self, lo as int, width as int, len as int) {
                Ok((h, entries)) => r == Ok::<crypto::Hash, ListProofError>(h) && final(out)@ == old(out)@ + entries,
                Err(e) => r == Err::<crypto::Hash, ListProofError>(e),
            },
        decreases self,
    {
        match self {
            ListProof::Leaf(value) => {
                if width != 1 || lo >= len {
                    Err(ListProofError::UnexpectedLeaf)
                } else {
                    out.push((lo, *value));
                    assert(out@ =~= old(out)@ + seq![(lo, *value)]);
                    Ok(single_hash(value))
                }
            },
            ListProof::Hashed(h) => {
                assert(out@ =~= old(out)@ + Seq::<(u64, crypto::Hash)>::empty());
                Ok(*h)
            },
            ListProof::Branch(left, right) => {
                let half: u128 = width / 2;
                if width <= 1 || half >= (len - lo) as u128 {
                    Err(ListProofError::UnexpectedBranch)
                } else {
                    match left.collect(lo, half, len, out) {
                        Err(e) => Err(e),
                        Ok(lh) => {
                            let ghost mid = out@;
                            match right.collect(lo + half as u64, half, len, out) {
                                Err(e) => Err(e),
                                Ok(rh) => {
                                    proof {
                                        let le = spec_collect(**left, lo as int, half as int, len as int)->Ok_0.1;
                                        let re = spec_collect(**right, lo + half, half as int, len as int)->Ok_0.1;
                                        assert(out@ =~= old(out)@ + (le + re));
                                    }
                                    Ok(pair_hash(&lh, &rh))
                                },
                            }
                        },
                    }
                }
            },
            ListProof::Single(left) => {
                let half: u128 = width / 2;
                if width <= 1 || half < (len - lo) as u128 {
                    Err(ListProofError::UnexpectedBranch)
                } else {
                    match left.collect(lo, half, len, out) {
                        Err(e) => Err(e),
                        Ok(lh) => Ok(single_hash(&lh)),
                    }
                }
            },
        }
    }

    /// Holds the proof against a root hash and a length. Gives the elements
    /// that the proof opens, each with its position, or the reason why the
    /// proof does not belong to a list with that root and length.
    pub fn validate(&self, merkle_root: crypto::Hash, len: u64) -> (r: Result<Vec<(u64, crypto::Hash)>, ListProofError>)
        ensures
            match spec_validate(*self, merkle_root, len) {
                Ok(entries) => r.is_ok() && r->Ok_0@ == entries,
                Err(e) => r == Err::<Vec<(u64, crypto::Hash)>, ListProofError>(e),
            },
    {
        let mut out: Vec<(u64, crypto::Hash)> = Vec::new();
        let width = capacity64(len);
        match self.collect(0, width, len, &mut out) {
            Err(e) => Err(e),
            Ok(h) => {
                if h.same(&merkle_root) {
                    assert(out@ =~= spec_collect(*self, 0, width as int, len as int)->Ok_0.1);
                    Ok(out)
                } else {
                    Err(ListProofError::UnmatchedRootHash)
                }
            },
        }
    }
}

} // verus!
