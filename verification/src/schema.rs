//! The records of the ledger and the state that holds them: the map of
//! candidates, the map of electors, and one history list for each candidate.

use crate::crypto;
use crate::crypto::PublicKey;
use crate::proof_list::{spec_list_root, ProofList};
use crate::proof_map::{spec_map_root, ProofMap, Record};
use crate::store::SortedStore;
use vstd::bytes::{
    lemma_auto_spec_u64_to_from_le_bytes, spec_u64_from_le_bytes, spec_u64_to_le_bytes, u64_to_le_bytes,
};
use vstd::prelude::*;
use vstd::utf8::{encode_utf8, encode_utf8_decode_utf8};

verus! {

/// Someone who can be voted for.
#[derive(Debug, PartialEq, Eq)]
pub struct Candidate {
    pub pub_key: PublicKey,
    pub name: String,
    /// The root hash of the candidate's history list.
    pub history_hash: crypto::Hash,
    /// The number of votes received.
    pub voices: u64,
}

/// Someone who can vote, once.
#[derive(Debug, PartialEq, Eq)]
pub struct Elector {
    pub pub_key: PublicKey,
    pub name: String,
    /// Whether the elector may still vote: true from registration until the vote.
    pub eligible: bool,
}

impl Candidate {
    /// The bytes that stand for a candidate with these fields.
    pub open spec fn spec_encoding(pub_key: PublicKey, name: Seq<char>, history_hash: crypto::Hash, voices: u64) -> Seq<u8> {
        pub_key@ + history_hash@ + spec_u64_to_le_bytes(voices) + encode_utf8(name)
    }

    /// A candidate with the given fields.
    pub fn new(pub_key: &PublicKey, name: &str, history_hash: &crypto::Hash, voices: u64) -> (r: Candidate)
        ensures
            r.pub_key == *pub_key,
            r.name@ == name@,
            r.history_hash == *history_hash,
            r.voices == voices,
    {
        Candidate { pub_key: *pub_key, name: name.to_owned(), history_hash: *history_hash, voices }
    }

    /// The candidate after one more vote, with the new root of the history.
    pub fn add_voice(self, history_hash: &crypto::Hash) -> (r: Candidate)
        requires
            self.voices < u64::MAX,
        ensures
            r == (Candidate { history_hash: *history_hash, voices: (self.voices + 1) as u64, ..self }),
    {
        Candidate { pub_key: self.pub_key, name: self.name, history_hash: *history_hash, voices: self.voices + 1 }
    }

    /// The key that names the candidate.
    pub fn pub_key(&self) -> (r: &PublicKey)
        ensures
            *r == self.pub_key,
    {
        &self.pub_key
    }

    /// The candidate's name.
    pub fn name(&self) -> (r: &str)
        ensures
            r@ == self.name@,
    {
        self.name.as_str()
    }

    /// The root hash of the candidate's history list.
    pub fn history_hash(&self) -> (r: &crypto::Hash)
        ensures
            *r == self.history_hash,
    {
        &self.history_hash
    }

    /// The number of votes received.
    pub fn voices(&self) -> (r: u64)
        ensures
            r == self.voices,
    {
        self.voices
    }
}

impl Record for Candidate {
    open spec fn spec_bytes(&self) -> Seq<u8> {
        Candidate::spec_encoding(self.pub_key, self.name@, self.history_hash, self.voices)
    }

    fn to_bytes(&self) -> (r: Vec<u8>) {
        let mut buf: Vec<u8> = Vec::new();
        buf.extend_from_slice(self.pub_key.bytes.as_slice());
        buf.extend_from_slice(self.history_hash.bytes.as_slice());
        let count = u64_to_le_bytes(self.voices);
        buf.extend_from_slice(count.as_slice());
        buf.extend_from_slice(self.name.as_str().as_bytes());
        assert(buf@ =~= self.spec_bytes());
        buf
    }

    fn replica(&self) -> (r: Candidate) {
        Candidate {
            pub_key: self.pub_key,
            name: self.name.clone(),
            history_hash: self.history_hash,
            voices: self.voices,
        }
    }
}

impl Elector {
    /// The bytes that stand for an elector with these fields.
    pub open spec fn spec_encoding(pub_key: PublicKey, name: Seq<char>, eligible: bool) -> Seq<u8> {
        pub_key@ + seq![if eligible { 1u8 } else { 0u8 }] + encode_utf8(name)
    }

    /// An elector with the given fields.
    pub fn new(pub_key: &PublicKey, name: &str, has_vote: bool) -> (r: Elector)
        ensures
            r.pub_key == *pub_key,
            r.name@ == name@,
            r.eligible == has_vote,
    {
        Elector { pub_key: *pub_key, name: name.to_owned(), eligible: has_vote }
    }

    /// The elector after the vote: no longer eligible.
    pub fn vote(self) -> (r: Elector)
        ensures
            r == (Elector { eligible: false, ..self }),
    {
        Elector { pub_key: self.pub_key, name: self.name, eligible: false }
    }

    /// The key that names the elector.
    pub fn pub_key(&self) -> (r: &PublicKey)
        ensures
            *r == self.pub_key,
    {
        &self.pub_key
    }

    /// The elector's name.
    pub fn name(&self) -> (r: &str)
        ensures
            r@ == self.name@,
    {
        self.name.as_str()
    }

    /// Whether the elector still has a vote to give.
    pub fn has_vote(&self) -> (r: bool)
        ensures
            r == self.eligible,
    {
        self.eligible
    }
}

impl Record for Elector {
    open spec fn spec_bytes(&self) -> Seq<u8> {
        Elector::spec_encoding(self.pub_key, self.name@, self.eligible)
    }

    fn to_bytes(&self) -> (r: Vec<u8>) {
        let mut buf: Vec<u8> = Vec::new();
        buf.extend_from_slice(self.pub_key.bytes.as_slice());
        buf.push(if self.eligible { 1u8 } else { 0u8 });
        buf.extend_from_slice(self.name.as_str().as_bytes());
        assert(buf@ =~= self.spec_bytes());
        buf
    }

    fn replica(&self) -> (r: Elector) {
        Elector { pub_key: self.pub_key, name: self.name.clone(), eligible: self.eligible }
    }
}

/// Two candidates that differ in key, name, root or votes have different bytes.
pub proof fn lemma_candidate_bytes_differ(a: Candidate, b: Candidate)
    requires
        a.pub_key != b.pub_key || a.name@ != b.name@ || a.history_hash != b.history_hash || a.voices
            != b.voices,
    ensures
        a.spec_bytes() != b.spec_bytes(),
{
    let x = a.spec_bytes();
    let y = b.spec_bytes();
    if x == y {
        lemma_auto_spec_u64_to_from_le_bytes();
        let ca = spec_u64_to_le_bytes(a.voices);
        let cb = spec_u64_to_le_bytes(b.voices);
        let na = encode_utf8(a.name@);
        let nb = encode_utf8(b.name@);
        assert(x.subrange(0, 32) =~= a.pub_key@);
        assert(y.subrange(0, 32) =~= b.pub_key@);
        assert(x.subrange(32, 64) =~= a.history_hash@);
        assert(y.subrange(32, 64) =~= b.history_hash@);
        assert(x.subrange(64, 72) =~= ca);
        assert(y.subrange(64, 72) =~= cb);
        assert(x.subrange(72, x.len() as int) =~= na);
        assert(y.subrange(72, y.len() as int) =~= nb);
        crypto::lemma_array32_ext(a.pub_key.bytes, b.pub_key.bytes);
        crypto::lemma_array32_ext(a.history_hash.bytes, b.history_hash.bytes);
        assert(spec_u64_from_le_bytes(ca) == a.voices);
        assert(spec_u64_from_le_bytes(cb) == b.voices);
        encode_utf8_decode_utf8(a.name@);
        encode_utf8_decode_utf8(b.name@);
    }
}

/// The three regions of the ledger: candidates, electors, and the history
/// lists, one for each owner key.
#[derive(Debug)]
pub struct LedgerState {
    pub candidates: ProofMap<Candidate>,
    pub electorate: ProofMap<Elector>,
    pub history: SortedStore<ProofList>,
}

impl LedgerState {
    /// The ledger with nothing in it.
    pub fn new() -> (r: LedgerState)
        ensures
            r.candidates.wf(),
            r.electorate.wf(),
            r.history.wf(),
            r.candidates@ == Map::<PublicKey, Candidate>::empty(),
            r.electorate@ == Map::<PublicKey, Elector>::empty(),
            r.history@ == Map::<PublicKey, ProofList>::empty(),
    {
        LedgerState { candidates: ProofMap::new(), electorate: ProofMap::new(), history: SortedStore::new() }
    }
}

/// The ledger's view of a state: typed access to its three regions.
#[derive(Debug)]
pub struct VoteSchema<T> {
    pub view: T,
}

impl<T> VoteSchema<T> {
    /// The schema over a state.
    pub fn new(snapshot: T) -> (r: Self)
        ensures
            r.view == snapshot,
    {
        VoteSchema { view: snapshot }
    }
}

/// The history of `key` in a family of lists: empty where the family has none.
pub open spec fn spec_history_of(family: Map<PublicKey, ProofList>, key: PublicKey) -> Seq<crypto::Hash> {
    if family.dom().contains(key) {
        family[key]@
    } else {
        Seq::empty()
    }
}

/// Whether `after` is `before` with `value` appended to the list of `key`
/// and every other list untouched.
pub open spec fn spec_history_pushed(
    before: Map<PublicKey, ProofList>,
    after: Map<PublicKey, ProofList>,
    key: PublicKey,
    value: crypto::Hash,
) -> bool {
    &&& after.dom() == before.dom().insert(key)
    &&& after[key]@ == spec_history_of(before, key).push(value)
    &&& forall|k: PublicKey| k != key && before.dom().contains(k) ==> after[k] == before[k]
}

impl VoteSchema<LedgerState> {
    /// The candidates by key.
    pub open spec fn spec_candidates(&self) -> Map<PublicKey, Candidate> {
        self.view.candidates@
    }

    /// The electors by key.
    pub open spec fn spec_electorate(&self) -> Map<PublicKey, Elector> {
        self.view.electorate@
    }

    /// The history list of `key`, empty where none was started.
    pub open spec fn spec_history(&self, key: PublicKey) -> Seq<crypto::Hash> {
        spec_history_of(self.view.history@, key)
    }

    /// The two roots that commit to the state, candidates first.
    pub open spec fn spec_state_hash(&self) -> Seq<crypto::Hash> {
        seq![spec_map_root(self.spec_candidates()), spec_map_root(self.spec_electorate())]
    }

    /// Whether the three regions are each in order.
    pub open spec fn wf(&self) -> bool {
        &&& self.view.candidates.wf()
        &&& self.view.electorate.wf()
        &&& self.view.history.wf()
    }

    /// Whether the records and the histories fit each other. Every record is
    /// stored under its own key. Every candidate has a history list, which
    /// holds the registration and one entry for each vote received, and
    /// whose root the record carries. Nobody else has a history list.
    pub open spec fn coherent(&self) -> bool {
        &&& forall|k: PublicKey| #[trigger]
            self.spec_candidates().dom().contains(k) ==> {
                &&& self.spec_candidates()[k].pub_key == k
                &&& self.view.history@.dom().contains(k)
                &&& self.spec_history(k).len() == self.spec_candidates()[k].voices + 1
                &&& self.spec_candidates()[k].history_hash == spec_list_root(self.spec_history(k))
            }
        &&& forall|k: PublicKey| #[trigger]
            self.view.history@.dom().contains(k) ==> self.spec_candidates().dom().contains(k)
        &&& forall|k: PublicKey| #[trigger]
            self.spec_electorate().dom().contains(k) ==> self.spec_electorate()[k].pub_key == k
    }

    /// The invariant of the ledger: its regions are in order, and its
    /// records and histories fit each other.
    pub open spec fn consistent(&self) -> bool {
        self.wf() && self.coherent()
    }

    /// The two roots that commit to the state: that of the candidates, then
    /// that of the electors.
    pub fn state_hash(&self) -> (r: Vec<crypto::Hash>)
        requires
            self.wf(),
        ensures
            r@ == self.spec_state_hash(),
    {
        let mut r: Vec<crypto::Hash> = Vec::new();
        r.push(self.view.candidates.merkle_root());
        r.push(self.view.electorate.merkle_root());
        assert(r@ =~= self.spec_state_hash());
        r
    }

    /// The map of candidates.
    pub fn candidates(&self) -> (r: &ProofMap<Candidate>)
        ensures
            *r == self.view.candidates,
    {
        &self.view.candidates
    }

    /// The candidate stored under `pub_key`, if there is one.
    pub fn candidate(&self, pub_key: &PublicKey) -> (r: Option<Candidate>)
        requires
            self.wf(),
        ensures
            r == (if self.spec_candidates().dom().contains(*pub_key) {
                Some(self.spec_candidates()[*pub_key])
            } else {
                None
            }),
    {
        self.view.candidates.get(pub_key)
    }

    /// The map of electors.
    pub fn electorate(&self) -> (r: &ProofMap<Elector>)
        ensures
            *r == self.view.electorate,
    {
        &self.view.electorate
    }

    /// The elector stored under `pub_key`, if there is one.
    pub fn elector(&self, pub_key: &PublicKey) -> (r: Option<Elector>)
        requires
            self.wf(),
        ensures
            r == (if self.spec_electorate().dom().contains(*pub_key) {
                Some(self.spec_electorate()[*pub_key])
            } else {
                None
            }),
    {
        self.view.electorate.get(pub_key)
    }

    /// The history list of `public_key`: empty where none was started.
    pub fn vote_history(&self, public_key: &PublicKey) -> (r: ProofList)
        requires
            self.wf(),
        ensures
            r@ == self.spec_history(*public_key),
    {
        match self.view.history.get(public_key) {
            Some(list) => list.replica(),
            None => ProofList::new(),
        }
    }

    /// The map of candidates, to be changed.
    pub fn candidate_mut(&mut self) -> (r: &mut ProofMap<Candidate>)
        ensures
            *r == old(self).view.candidates,
            final(self).view.candidates == *final(r),
            final(self).view.electorate == old(self).view.electorate,
            final(self).view.history == old(self).view.history,
    {
        &mut self.view.candidates
    }

    /// The map of electors, to be changed.
    pub fn electorate_mut(&mut self) -> (r: &mut ProofMap<Elector>)
        ensures
            *r == old(self).view.electorate,
            final(self).view.electorate == *final(r),
            final(self).view.candidates == old(self).view.candidates,
            final(self).view.history == old(self).view.history,
    {
        &mut self.view.electorate
    }

    /// The history list of `public_key`, to be changed. It is started where
    /// there was none.
    pub fn vote_history_mut(&mut self, public_key: &PublicKey) -> (r: &mut ProofList)
        requires
            old(self).view.history.wf(),
        ensures
            r@ == old(self).spec_history(*public_key),
            old(self).view.history@.dom().contains(*public_key) ==> *r == old(self).view.history@[*public_key],
            final(self).view.history.wf(),
            final(self).view.history@ == old(self).view.history@.insert(*public_key, *final(r)),
            final(self).view.candidates == old(self).view.candidates,
            final(self).view.electorate == old(self).view.electorate,
    {
        self.view.history.get_mut_or(public_key, ProofList::new())
    }
}

} // verus!
