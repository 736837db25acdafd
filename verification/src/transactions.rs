//! The three kinds of transaction and what each does to the ledger.
//!
//! A transaction is applied in full or not at all: where it is turned down,
//! the ledger is left as it was.

use crate::crypto;
use crate::crypto::{ed25519_accepts, ed25519_signature, hash, sign, verify, PublicKey, SecretKey, Signature};
use crate::errors::Error;
use crate::proof_list::spec_list_root;
use crate::schema::{spec_history_pushed, Candidate, Elector, LedgerState, VoteSchema};
use crate::service::VOTING_SERVICE;
use vstd::bytes::{lemma_auto_spec_u16_to_from_le_bytes, spec_u16_to_le_bytes, u16_to_le_bytes};
use vstd::prelude::*;
use vstd::utf8::{encode_utf8, encode_utf8_decode_utf8, encode_utf8_valid_utf8, valid_utf8};

verus! {

/// The message number of `CreateCandidate`.
pub const CREATE_CANDIDATE_ID: u8 = 0;

/// The message number of `CreateElector`.
pub const CREATE_ELECTOR_ID: u8 = 1;

/// The message number of `Vote`.
pub const VOTE_ID: u8 = 2;

/// The bytes that open every message of this service: the service's number,
/// then the message's.
pub open spec fn spec_header(message_id: u8) -> Seq<u8> {
    spec_u16_to_le_bytes(VOTING_SERVICE) + seq![message_id]
}

/// The signed part of a message that carries a key and a name.
pub open spec fn spec_named_payload(message_id: u8, pub_key: PublicKey, name: Seq<char>) -> Seq<u8> {
    spec_header(message_id) + pub_key@ + encode_utf8(name)
}

/// The signed part of a vote.
pub open spec fn spec_vote_payload(elector: PublicKey, candidate: PublicKey) -> Seq<u8> {
    spec_header(VOTE_ID) + elector@ + candidate@
}

fn header(message_id: u8) -> (r: Vec<u8>)
    ensures
        r@ == spec_header(message_id),
{
    let mut buf = u16_to_le_bytes(VOTING_SERVICE);
    buf.push(message_id);
    assert(buf@ =~= spec_header(message_id));
    buf
}

fn named_payload(message_id: u8, pub_key: &PublicKey, name: &str) -> (r: Vec<u8>)
    ensures
        r@ == spec_named_payload(message_id, *pub_key, name@),
{
    let mut buf = header(message_id);
    buf.extend_from_slice(pub_key.bytes.as_slice());
    buf.extend_from_slice(name.as_bytes());
    assert(buf@ =~= spec_named_payload(message_id, *pub_key, name@));
    buf
}

fn vote_payload(elector: &PublicKey, candidate: &PublicKey) -> (r: Vec<u8>)
    ensures
        r@ == spec_vote_payload(*elector, *candidate),
{
    let mut buf = header(VOTE_ID);
    buf.extend_from_slice(elector.bytes.as_slice());
    buf.extend_from_slice(candidate.bytes.as_slice());
    assert(buf@ =~= spec_vote_payload(*elector, *candidate));
    buf
}

fn with_signature(payload: Vec<u8>, signature: &Signature) -> (r: Vec<u8>)
    ensures
        r@ == payload@ + signature@,
{
    let mut buf = payload;
    buf.extend_from_slice(signature.bytes.as_slice());
    assert(buf@ =~= payload@ + signature@);
    buf
}

/// Registers a candidate under a key.
#[derive(Debug, PartialEq, Eq)]
pub struct CreateCandidate {
    pub pub_key: PublicKey,
    pub name: String,
    pub signature: Signature,
}

/// Registers an elector under a key.
#[derive(Debug, PartialEq, Eq)]
pub struct CreateElector {
    pub pub_key: PublicKey,
    pub name: String,
    pub signature: Signature,
}

/// Gives an elector's vote to a candidate.
#[derive(Debug, PartialEq, Eq)]
pub struct Vote {
    pub elector: PublicKey,
    pub candidate: PublicKey,
    pub signature: Signature,
}

/// How a transaction that was handed in ended.
#[derive(Clone, Copy, Debug, PartialEq, Eq, Structural)]
pub enum Status {
    /// The signature is not valid: the transaction never reached the ledger.
    Rejected,
    /// The transaction was applied.
    Success,
    /// The transaction reached the ledger and was turned down there.
    Failure(Error),
}

/// Any transaction of the voting service.
#[derive(Debug, PartialEq, Eq)]
pub enum VotingTransactions {
    CreateCandidate(CreateCandidate),
    CreateElector(CreateElector),
    Vote(Vote),
}

impl CreateCandidate {
    /// Whether applying the transaction can lead from `before` to `after`:
    /// the change it makes where it succeeds, none where it fails.
    pub open spec fn spec_step(&self, before: VoteSchema<LedgerState>, after: VoteSchema<LedgerState>) -> bool {
        if self.spec_outcome(before) is Ok {
            self.spec_applied(before, after)
        } else {
            after == before
        }
    }

    /// The bytes that the signature is over.
    pub open spec fn spec_payload(&self) -> Seq<u8> {
        spec_named_payload(CREATE_CANDIDATE_ID, self.pub_key, self.name@)
    }

    /// The serialized signed form.
    pub open spec fn spec_raw(&self) -> Seq<u8> {
        self.spec_payload() + self.signature@
    }

    /// The hash that identifies the transaction.
    pub open spec fn spec_hash(&self) -> crypto::Hash {
        crypto::spec_hash(self.spec_raw())
    }

    /// Whether the signature is valid for the key that the transaction names.
    pub open spec fn spec_verify(&self) -> bool {
        ed25519_accepts(self.pub_key@, self.spec_payload(), self.signature@)
    }

    /// The record that the transaction creates.
    pub open spec fn spec_candidate(&self) -> Candidate {
        Candidate {
            pub_key: self.pub_key,
            name: self.name,
            history_hash: spec_list_root(seq![self.spec_hash()]),
            voices: 0,
        }
    }

    /// How the transaction ends on a given state.
    pub open spec fn spec_outcome(&self, state: VoteSchema<LedgerState>) -> Result<(), Error> {
        if state.spec_candidates().dom().contains(self.pub_key) {
            Err(Error::CandidateAlreadyExists)
        } else {
            Ok(())
        }
    }

    /// Whether `after` is what the transaction makes of `before` when it succeeds.
    pub open spec fn spec_applied(&self, before: VoteSchema<LedgerState>, after: VoteSchema<LedgerState>) -> bool {
        &&& after.spec_candidates() == before.spec_candidates().insert(self.pub_key, self.spec_candidate())
        &&& after.view.electorate == before.view.electorate
        &&& spec_history_pushed(before.view.history@, after.view.history@, self.pub_key, self.spec_hash())
    }

    /// The transaction with the signature that `secret_key` gives.
    pub fn new(pub_key: &PublicKey, name: &str, secret_key: &SecretKey) -> (r: CreateCandidate)
        ensures
            r.pub_key == *pub_key,
            r.name@ == name@,
            r.signature@ == ed25519_signature(secret_key@, r.spec_payload()),
    {
        let payload = named_payload(CREATE_CANDIDATE_ID, pub_key, name);
        let signature = sign(payload.as_slice(), secret_key);
        CreateCandidate { pub_key: *pub_key, name: name.to_owned(), signature }
    }

    /// The key of the candidate.
    pub fn pub_key(&self) -> (r: &PublicKey)
        ensures
            *r == self.pub_key,
    {
        &self.pub_key
    }

    /// The name of the candidate.
    pub fn name(&self) -> (r: &str)
        ensures
            r@ == self.name@,
    {
        self.name.as_str()
    }

    /// The serialized signed form.
    pub fn raw(&self) -> (r: Vec<u8>)
        ensures
            r@ == self.spec_raw(),
    {
        with_signature(named_payload(CREATE_CANDIDATE_ID, &self.pub_key, self.name.as_str()), &self.signature)
    }

    /// The hash that identifies the transaction.
    pub fn hash(&self) -> (r: crypto::Hash)
        ensures
            r == self.spec_hash(),
    {
        let raw = self.raw();
        hash(raw.as_slice())
    }

    /// Whether the signature is valid for the candidate's key.
    pub fn verify(&self) -> (r: bool)
        ensures
            r == self.spec_verify(),
    {
        let payload = named_payload(CREATE_CANDIDATE_ID, &self.pub_key, self.name.as_str());
        verify(&self.signature, payload.as_slice(), &self.pub_key)
    }

    /// A copy of the transaction.
    pub fn replica(&self) -> (r: CreateCandidate)
        ensures
            r == *self,
    {
        CreateCandidate { pub_key: self.pub_key, name: self.name.clone(), signature: self.signature }
    }

    /// Registers the candidate, with no votes and a history that holds this
    /// transaction. Fails where the key is taken.
    pub fn execute(&self, schema: &mut VoteSchema<LedgerState>) -> (r: Result<(), Error>)
        requires
            old(schema).consistent(),
        ensures
            final(schema).consistent(),
            r == self.spec_outcome(*old(schema)),
            self.spec_step(*old(schema), *final(schema)),
    {
        if schema.candidate(&self.pub_key).is_none() {
            let tx_hash = self.hash();
            let history = schema.vote_history_mut(&self.pub_key);
            history.push(tx_hash);
            let history_hash = history.merkle_root();
            assert(history@ =~= seq![tx_hash]);
            let candidate = Candidate {
                pub_key: self.pub_key,
                name: self.name.clone(),
                history_hash,
                voices: 0,
            };
            schema.candidate_mut().put(&self.pub_key, candidate);
            proof {
                let before = *old(schema);
                let after = *schema;
                assert(!before.view.history@.dom().contains(self.pub_key));
                assert forall|k: PublicKey| #[trigger]
                    after.spec_candidates().dom().contains(k) implies {
                    &&& after.spec_candidates()[k].pub_key == k
                    &&& after.view.history@.dom().contains(k)
                    &&& after.spec_history(k).len() == after.spec_candidates()[k].voices + 1
                    &&& after.spec_candidates()[k].history_hash == spec_list_root(after.spec_history(k))
                } by {
                    if k != self.pub_key {
                        assert(before.spec_candidates().dom().contains(k));
                        assert(before.view.history@.dom().contains(k));
                    }
                }
                assert forall|k: PublicKey| #[trigger]
                    after.view.history@.dom().contains(k) implies after.spec_candidates().dom().contains(k) by {
                    if k != self.pub_key {
                        assert(before.view.history@.dom().contains(k));
                    }
                }
                assert(after.spec_electorate() == before.spec_electorate());
                assert forall|k: PublicKey| #[trigger]
                    after.spec_electorate().dom().contains(k) implies after.spec_electorate()[k].pub_key
                    == k by {
                    assert(before.spec_electorate().dom().contains(k));
                }
            }
            Ok(())
        } else {
            Err(Error::CandidateAlreadyExists)
        }
    }
}

impl CreateElector {
    /// Whether applying the transaction can lead from `before` to `after`:
    /// the change it makes where it succeeds, none where it fails.
    pub open spec fn spec_step(&self, before: VoteSchema<LedgerState>, after: VoteSchema<LedgerState>) -> bool {
        if self.spec_outcome(before) is Ok {
            self.spec_applied(before, after)
        } else {
            after == before
        }
    }

    /// The bytes that the signature is over.
    pub open spec fn spec_payload(&self) -> Seq<u8> {
        spec_named_payload(CREATE_ELECTOR_ID, self.pub_key, self.name@)
    }

    /// The serialized signed form.
    pub open spec fn spec_raw(&self) -> Seq<u8> {
        self.spec_payload() + self.signature@
    }

    /// The hash that identifies the transaction.
    pub open spec fn spec_hash(&self) -> crypto::Hash {
        crypto::spec_hash(self.spec_raw())
    }

    /// Whether the signature is valid for the key that the transaction names.
    pub open spec fn spec_verify(&self) -> bool {
        ed25519_accepts(self.pub_key@, self.spec_payload(), self.signature@)
    }

    /// The record that the transaction creates.
    pub open spec fn spec_elector(&self) -> Elector {
        Elector { pub_key: self.pub_key, name: self.name, eligible: true }
    }

    /// How the transaction ends on a given state.
    pub open spec fn spec_outcome(&self, state: VoteSchema<LedgerState>) -> Result<(), Error> {
        if state.spec_electorate().dom().contains(self.pub_key) {
            Err(Error::ElectorAlreadyExists)
        } else {
            Ok(())
        }
    }

    /// Whether `after` is what the transaction makes of `before` when it succeeds.
    pub open spec fn spec_applied(&self, before: VoteSchema<LedgerState>, after: VoteSchema<LedgerState>) -> bool {
        &&& after.spec_electorate() == before.spec_electorate().insert(self.pub_key, self.spec_elector())
        &&& after.view.candidates == before.view.candidates
        &&& after.view.history == before.view.history
    }

    /// The transaction with the signature that `secret_key` gives.
    pub fn new(pub_key: &PublicKey, name: &str, secret_key: &SecretKey) -> (r: CreateElector)
        ensures
            r.pub_key == *pub_key,
            r.name@ == name@,
            r.signature@ == ed25519_signature(secret_key@, r.spec_payload()),
    {
        let payload = named_payload(CREATE_ELECTOR_ID, pub_key, name);
        let signature = sign(payload.as_slice(), secret_key);
        CreateElector { pub_key: *pub_key, name: name.to_owned(), signature }
    }

    /// The key of the elector.
    pub fn pub_key(&self) -> (r: &PublicKey)
        ensures
            *r == self.pub_key,
    {
        &self.pub_key
    }

    /// The name of the elector.
    pub fn name(&self) -> (r: &str)
        ensures
            r@ == self.name@,
    {
        self.name.as_str()
    }

    /// The serialized signed form.
    pub fn raw(&self) -> (r: Vec<u8>)
        ensures
            r@ == self.spec_raw(),
    {
        with_signature(named_payload(CREATE_ELECTOR_ID, &self.pub_key, self.name.as_str()), &self.signature)
    }

    /// The hash that identifies the transaction.
    pub fn hash(&self) -> (r: crypto::Hash)
        ensures
            r == self.spec_hash(),
    {
        let raw = self.raw();
        hash(raw.as_slice())
    }

    /// Whether the signature is valid for the elector's key.
    pub fn verify(&self) -> (r: bool)
        ensures
            r == self.spec_verify(),
    {
        let payload = named_payload(CREATE_ELECTOR_ID, &self.pub_key, self.name.as_str());
        verify(&self.signature, payload.as_slice(), &self.pub_key)
    }

    /// A copy of the transaction.
    pub fn replica(&self) -> (r: CreateElector)
        ensures
            r == *self,
    {
        CreateElector { pub_key: self.pub_key, name: self.name.clone(), signature: self.signature }
    }

    /// Registers the elector, eligible to vote. Fails where the key is taken.
    pub fn execute(&self, schema: &mut VoteSchema<LedgerState>) -> (r: Result<(), Error>)
        requires
            old(schema).consistent(),
        ensures
            final(schema).consistent(),
            r == self.spec_outcome(*old(schema)),
            self.spec_step(*old(schema), *final(schema)),
    {
        if schema.elector(&self.pub_key).is_none() {
            let elector = Elector { pub_key: self.pub_key, name: self.name.clone(), eligible: true };
            schema.electorate_mut().put(&self.pub_key, elector);
            proof {
                let before = *old(schema);
                let after = *schema;
                assert forall|k: PublicKey| #[trigger]
                    after.spec_electorate().dom().contains(k) implies after.spec_electorate()[k].pub_key
                    == k by {
                    if k != self.pub_key {
                        assert(before.spec_electorate().dom().contains(k));
                    }
                }
                assert(after.view.candidates == before.view.candidates);
                assert(after.spec_candidates() == before.spec_candidates());
                assert(after.view.history@ == before.view.history@);
                assert forall|k: PublicKey| #[trigger]
                    after.spec_candidates().dom().contains(k) implies {
                    &&& after.spec_candidates()[k].pub_key == k
                    &&& after.view.history@.dom().contains(k)
                } by {
                    assert(before.spec_candidates().dom().contains(k));
                }
            }
            Ok(())
        } else {
            Err(Error::ElectorAlreadyExists)
        }
    }
}

impl Vote {
    /// Whether applying the transaction can lead from `before` to `after`:
    /// the change it makes where it succeeds, none where it fails.
    pub open spec fn spec_step(&self, before: VoteSchema<LedgerState>, after: VoteSchema<LedgerState>) -> bool {
        if self.spec_outcome(before) is Ok {
            self.spec_applied(before, after)
        } else {
            after == before
        }
    }

    /// The bytes that the signature is over.
    pub open spec fn spec_payload(&self) -> Seq<u8> {
        spec_vote_payload(self.elector, self.candidate)
    }

    /// The serialized signed form.
    pub open spec fn spec_raw(&self) -> Seq<u8> {
        self.spec_payload() + self.signature@
    }

    /// The hash that identifies the transaction.
    pub open spec fn spec_hash(&self) -> crypto::Hash {
        crypto::spec_hash(self.spec_raw())
    }

    /// Whether the signature is valid for the elector's key.
    pub open spec fn spec_verify(&self) -> bool {
        ed25519_accepts(self.elector@, self.spec_payload(), self.signature@)
    }

    /// How the transaction ends on a given state.
    pub open spec fn spec_outcome(&self, state: VoteSchema<LedgerState>) -> Result<(), Error> {
        if !state.spec_electorate().dom().contains(self.elector) {
            Err(Error::ElectorNotFound)
        } else if !state.spec_candidates().dom().contains(self.candidate) {
            Err(Error::CandidateNotFound)
        } else if !state.spec_electorate()[self.elector].eligible {
            Err(Error::AlreadyVoted)
        } else {
            Ok(())
        }
    }

    /// The elector's record after the vote.
    pub open spec fn spec_elector_after(&self, before: VoteSchema<LedgerState>) -> Elector {
        Elector { eligible: false, ..before.spec_electorate()[self.elector] }
    }

    /// The candidate's record after the vote.
    pub open spec fn spec_candidate_after(&self, before: VoteSchema<LedgerState>) -> Candidate {
        Candidate {
            history_hash: spec_list_root(before.spec_history(self.candidate).push(self.spec_hash())),
            voices: (before.spec_candidates()[self.candidate].voices + 1) as u64,
            ..before.spec_candidates()[self.candidate]
        }
    }

    /// Whether `after` is what the transaction makes of `before` when it succeeds.
    pub open spec fn spec_applied(&self, before: VoteSchema<LedgerState>, after: VoteSchema<LedgerState>) -> bool {
        &&& after.spec_electorate() == before.spec_electorate().insert(
            self.elector,
            self.spec_elector_after(before),
        )
        &&& after.spec_candidates() == before.spec_candidates().insert(
            self.candidate,
            self.spec_candidate_after(before),
        )
        &&& spec_history_pushed(before.view.history@, after.view.history@, self.candidate, self.spec_hash())
    }

    /// The transaction with the signature that `secret_key` gives.
    pub fn new(elector: &PublicKey, candidate: &PublicKey, secret_key: &SecretKey) -> (r: Vote)
        ensures
            r.elector == *elector,
            r.candidate == *candidate,
            r.signature@ == ed25519_signature(secret_key@, r.spec_payload()),
    {
        let payload = vote_payload(elector, candidate);
        let signature = sign(payload.as_slice(), secret_key);
        Vote { elector: *elector, candidate: *candidate, signature }
    }

    /// The key of the elector who votes.
    pub fn elector(&self) -> (r: &PublicKey)
        ensures
            *r == self.elector,
    {
        &self.elector
    }

    /// The key of the candidate voted for.
    pub fn candidate(&self) -> (r: &PublicKey)
        ensures
            *r == self.candidate,
    {
        &self.candidate
    }

    /// The serialized signed form.
    pub fn raw(&self) -> (r: Vec<u8>)
        ensures
            r@ == self.spec_raw(),
    {
        with_signature(vote_payload(&self.elector, &self.candidate), &self.signature)
    }

    /// The hash that identifies the transaction.
    pub fn hash(&self) -> (r: crypto::Hash)
        ensures
            r == self.spec_hash(),
    {
        let raw = self.raw();
        hash(raw.as_slice())
    }

    /// Whether the signature is valid for the elector's key.
    pub fn verify(&self) -> (r: bool)
        ensures
            r == self.spec_verify(),
    {
        let payload = vote_payload(&self.elector, &self.candidate);
        verify(&self.signature, payload.as_slice(), &self.elector)
    }

    /// A copy of the transaction.
    pub fn replica(&self) -> (r: Vote)
        ensures
            r == *self,
    {
        Vote { elector: self.elector, candidate: self.candidate, signature: self.signature }
    }

    /// Counts the vote: the transaction enters the candidate's history, the
    /// candidate gains a vote and the new root of the history, and the
    /// elector stops being eligible. Fails where the elector or the
    /// candidate is unknown, or the elector has voted.
    pub fn execute(&self, schema: &mut VoteSchema<LedgerState>) -> (r: Result<(), Error>)
        requires
            old(schema).consistent(),
        ensures
            final(schema).consistent(),
            r == self.spec_outcome(*old(schema)),
            self.spec_step(*old(schema), *final(schema)),
    {
        let elector = match schema.elector(&self.elector) {
            Some(val) => val,
            None => {
                return Err(Error::ElectorNotFound);
            },
        };
        let candidate = match schema.candidate(&self.candidate) {
            Some(val) => val,
            None => {
                return Err(Error::CandidateNotFound);
            },
        };
        if elector.has_vote() {
            let tx_hash = self.hash();
            let history = schema.vote_history_mut(candidate.pub_key());
            history.push(tx_hash);
            let history_hash = history.merkle_root();
            let entries = history.len();
            assert(candidate.voices + 2 == entries);
            let elector = elector.vote();
            let candidate = candidate.add_voice(&history_hash);
            schema.electorate_mut().put(&self.elector, elector);
            schema.candidate_mut().put(&self.candidate, candidate);
            Ok(())
        } else {
            Err(Error::AlreadyVoted)
        }
    }
}

impl VotingTransactions {
    /// The hash that identifies the transaction.
    pub open spec fn spec_hash(&self) -> crypto::Hash {
        match self {
            VotingTransactions::CreateCandidate(tx) => tx.spec_hash(),
            VotingTransactions::CreateElector(tx) => tx.spec_hash(),
            VotingTransactions::Vote(tx) => tx.spec_hash(),
        }
    }

    /// Whether the signature is valid for the key that the transaction names.
    pub open spec fn spec_verify(&self) -> bool {
        match self {
            VotingTransactions::CreateCandidate(tx) => tx.spec_verify(),
            VotingTransactions::CreateElector(tx) => tx.spec_verify(),
            VotingTransactions::Vote(tx) => tx.spec_verify(),
        }
    }

    /// How the transaction ends on a given state.
    pub open spec fn spec_outcome(&self, state: VoteSchema<LedgerState>) -> Result<(), Error> {
        match self {
            VotingTransactions::CreateCandidate(tx) => tx.spec_outcome(state),
            VotingTransactions::CreateElector(tx) => tx.spec_outcome(state),
            VotingTransactions::Vote(tx) => tx.spec_outcome(state),
        }
    }

    /// Whether applying the transaction can lead from `before` to `after`:
    /// the change it makes where it succeeds, none where it fails.
    pub open spec fn spec_step(&self, before: VoteSchema<LedgerState>, after: VoteSchema<LedgerState>) -> bool {
        if self.spec_outcome(before) is Ok {
            self.spec_applied(before, after)
        } else {
            after == before
        }
    }

    /// The key of the candidate whose record and history the transaction
    /// can change, if it can change any.
    pub open spec fn spec_candidate_key(&self) -> Option<PublicKey> {
        match self {
            VotingTransactions::CreateCandidate(tx) => Some(tx.pub_key),
            VotingTransactions::CreateElector(_) => None,
            VotingTransactions::Vote(tx) => Some(tx.candidate),
        }
    }

    /// The key of the elector whose record the transaction can change, if
    /// it can change any.
    pub open spec fn spec_elector_key(&self) -> Option<PublicKey> {
        match self {
            VotingTransactions::CreateCandidate(_) => None,
            VotingTransactions::CreateElector(tx) => Some(tx.pub_key),
            VotingTransactions::Vote(tx) => Some(tx.elector),
        }
    }

    /// How the transaction ends when it is handed in for a given state.
    pub open spec fn spec_status(&self, state: VoteSchema<LedgerState>) -> Status {
        if !self.spec_verify() {
            Status::Rejected
        } else {
            match self.spec_outcome(state) {
                Ok(()) => Status::Success,
                Err(e) => Status::Failure(e),
            }
        }
    }

    /// Whether `after` is what the transaction makes of `before` when it succeeds.
    pub open spec fn spec_applied(&self, before: VoteSchema<LedgerState>, after: VoteSchema<LedgerState>) -> bool {
        match self {
            VotingTransactions::CreateCandidate(tx) => tx.spec_applied(before, after),
            VotingTransactions::CreateElector(tx) => tx.spec_applied(before, after),
            VotingTransactions::Vote(tx) => tx.spec_applied(before, after),
        }
    }

    /// The hash that identifies the transaction.
    pub fn hash(&self) -> (r: crypto::Hash)
        ensures
            r == self.spec_hash(),
    {
        match self {
            VotingTransactions::CreateCandidate(tx) => tx.hash(),
            VotingTransactions::CreateElector(tx) => tx.hash(),
            VotingTransactions::Vote(tx) => tx.hash(),
        }
    }

    /// Whether the signature is valid for the key that the transaction names.
    pub fn verify(&self) -> (r: bool)
        ensures
            r == self.spec_verify(),
    {
        match self {
            VotingTransactions::CreateCandidate(tx) => tx.verify(),
            VotingTransactions::CreateElector(tx) => tx.verify(),
            VotingTransactions::Vote(tx) => tx.verify(),
        }
    }

    /// A copy of the transaction.
    pub fn replica(&self) -> (r: VotingTransactions)
        ensures
            r == *self,
    {
        match self {
            VotingTransactions::CreateCandidate(tx) => VotingTransactions::CreateCandidate(tx.replica()),
            VotingTransactions::CreateElector(tx) => VotingTransactions::CreateElector(tx.replica()),
            VotingTransactions::Vote(tx) => VotingTransactions::Vote(tx.replica()),
        }
    }

    /// Applies the transaction where its signature is valid, and turns it
    /// away, with the ledger untouched, where it is not.
    pub fn process(&self, schema: &mut VoteSchema<LedgerState>) -> (r: Status)
        requires
            old(schema).consistent(),
        ensures
            final(schema).consistent(),
            r == self.spec_status(*old(schema)),
            r is Rejected ==> *final(schema) == *old(schema),
            !(r is Rejected) ==> self.spec_step(*old(schema), *final(schema)),
    {
        if !self.verify() {
            return Status::Rejected;
        }
        match self.execute(schema) {
            Ok(()) => Status::Success,
            Err(e) => Status::Failure(e),
        }
    }

    /// Applies the transaction to the ledger, whichever kind it is.
    pub fn execute(&self, schema: &mut VoteSchema<LedgerState>) -> (r: Result<(), Error>)
        requires
            old(schema).consistent(),
        ensures
            final(schema).consistent(),
            r == self.spec_outcome(*old(schema)),
            self.spec_step(*old(schema), *final(schema)),
    {
        match self {
            VotingTransactions::CreateCandidate(tx) => tx.execute(schema),
            VotingTransactions::CreateElector(tx) => tx.execute(schema),
            VotingTransactions::Vote(tx) => tx.execute(schema),
        }
    }
}

/// Why bytes are no transaction of this service.
#[derive(Clone, Copy, Debug, PartialEq, Eq, Structural)]
pub enum ParseError {
    /// There is no room for a header and a signature.
    TooShort,
    /// The header names another service.
    WrongService,
    /// The header names no message of this service.
    UnknownMessage,
    /// The body is shorter than its keys, or a vote is longer than its two keys.
    WrongLength,
    /// The name is not UTF-8.
    InvalidName,
}

/// Why `raw` is not the serialized signed form of a transaction, or nothing
/// where it is.
pub open spec fn spec_parse_error(raw: Seq<u8>) -> Option<ParseError> {
    if raw.len() < 3 + 64 {
        Some(ParseError::TooShort)
    } else if raw.subrange(0, 2) != spec_u16_to_le_bytes(VOTING_SERVICE) {
        Some(ParseError::WrongService)
    } else if raw[2] == VOTE_ID {
        if raw.len() != 3 + 32 + 32 + 64 {
            Some(ParseError::WrongLength)
        } else {
            None
        }
    } else if raw[2] == CREATE_CANDIDATE_ID || raw[2] == CREATE_ELECTOR_ID {
        if raw.len() < 3 + 32 + 64 {
            Some(ParseError::WrongLength)
        } else if !valid_utf8(raw.subrange(35, raw.len() - 64)) {
            Some(ParseError::InvalidName)
        } else {
            None
        }
    } else {
        Some(ParseError::UnknownMessage)
    }
}

/// Calls `String::from_utf8`, which gives the string that the bytes encode
/// where they are valid UTF-8, and an error where they are not.
#[verifier::external_body]
fn string_from_utf8(bytes: Vec<u8>) -> (r: Option<String>)
    ensures
        r is Some <==> valid_utf8(bytes@),
        r is Some ==> encode_utf8(r->Some_0@) == bytes@,
{
    String::from_utf8(bytes).ok()
}

/// The 32 bytes of `raw` from `at` on.
fn read32(raw: &[u8], at: usize) -> (r: [u8; 32])
    requires
        at + 32 <= raw@.len(),
    ensures
        r@ == raw@.subrange(at as int, at + 32),
{
    let len = raw.len();
    let mut out = [0u8; 32];
    let mut i: usize = 0;
    while i < 32
        invariant
            i <= 32,
            at + 32 <= raw@.len() == len,
            forall|j: int| 0 <= j < i ==> out@[j] == raw@[at + j],
        decreases 32 - i,
    {
        out[i] = raw[at + i];
        i += 1;
    }
    assert(out@ =~= raw@.subrange(at as int, at + 32));
    out
}

/// The 64 bytes of `raw` from `at` on.
fn read64(raw: &[u8], at: usize) -> (r: [u8; 64])
    requires
        at + 64 <= raw@.len(),
    ensures
        r@ == raw@.subrange(at as int, at + 64),
{
    let len = raw.len();
    let mut out = [0u8; 64];
    let mut i: usize = 0;
    while i < 64
        invariant
            i <= 64,
            at + 64 <= raw@.len() == len,
            forall|j: int| 0 <= j < i ==> out@[j] == raw@[at + j],
        decreases 64 - i,
    {
        out[i] = raw[at + i];
        i += 1;
    }
    assert(out@ =~= raw@.subrange(at as int, at + 64));
    out
}

/// The bytes of `raw` at `from .. to`.
fn read_bytes(raw: &[u8], from: usize, to: usize) -> (r: Vec<u8>)
    requires
        from <= to <= raw@.len(),
    ensures
        r@ == raw@.subrange(from as int, to as int),
{
    let mut out: Vec<u8> = Vec::new();
    let mut i: usize = from;
    while i < to
        invariant
            from <= i <= to <= raw@.len(),
            out@ == raw@.subrange(from as int, i as int),
        decreases to - i,
    {
        out.push(raw[i]);
        assert(out@ =~= raw@.subrange(from as int, i + 1));
        i += 1;
    }
    out
}

/// The header of every transaction is three bytes long.
proof fn lemma_header_len(message_id: u8)
    ensures
        spec_header(message_id).len() == 3,
        spec_header(message_id)[2] == message_id,
        spec_header(message_id).subrange(0, 2) == spec_u16_to_le_bytes(VOTING_SERVICE),
{
    lemma_auto_spec_u16_to_from_le_bytes();
    assert(spec_header(message_id).subrange(0, 2) =~= spec_u16_to_le_bytes(VOTING_SERVICE));
}

/// The serialized signed form of every transaction parses.
pub proof fn lemma_raw_parses(tx: VotingTransactions)
    ensures
        spec_parse_error(tx.spec_raw()) is None,
{
    match tx {
        VotingTransactions::CreateCandidate(c) => {
            lemma_header_len(CREATE_CANDIDATE_ID);
            let raw = c.spec_raw();
            let name = encode_utf8(c.name@);
            encode_utf8_valid_utf8(c.name@);
            assert(raw.subrange(0, 2) =~= spec_header(CREATE_CANDIDATE_ID).subrange(0, 2));
            assert(raw.subrange(35, raw.len() - 64) =~= name);
        },
        VotingTransactions::CreateElector(e) => {
            lemma_header_len(CREATE_ELECTOR_ID);
            let raw = e.spec_raw();
            let name = encode_utf8(e.name@);
            encode_utf8_valid_utf8(e.name@);
            assert(raw.subrange(0, 2) =~= spec_header(CREATE_ELECTOR_ID).subrange(0, 2));
            assert(raw.subrange(35, raw.len() - 64) =~= name);
        },
        VotingTransactions::Vote(v) => {
            lemma_header_len(VOTE_ID);
            let raw = v.spec_raw();
            assert(raw.subrange(0, 2) =~= spec_header(VOTE_ID).subrange(0, 2));
        },
    }
}

/// The kind of a transaction, as its header numbers it.
pub open spec fn spec_message_id(tx: VotingTransactions) -> u8 {
    match tx {
        VotingTransactions::CreateCandidate(_) => CREATE_CANDIDATE_ID,
        VotingTransactions::CreateElector(_) => CREATE_ELECTOR_ID,
        VotingTransactions::Vote(_) => VOTE_ID,
    }
}

/// Whether two transactions are of the same kind and agree on every key,
/// on the characters of the name, and on the signature.
pub open spec fn spec_same_content(a: VotingTransactions, b: VotingTransactions) -> bool {
    match (a, b) {
        (VotingTransactions::CreateCandidate(x), VotingTransactions::CreateCandidate(y)) => x.pub_key
            == y.pub_key && x.name@ == y.name@ && x.signature == y.signature,
        (VotingTransactions::CreateElector(x), VotingTransactions::CreateElector(y)) => x.pub_key == y.pub_key
            && x.name@ == y.name@ && x.signature == y.signature,
        (VotingTransactions::Vote(x), VotingTransactions::Vote(y)) => x.elector == y.elector && x.candidate
            == y.candidate && x.signature == y.signature,
        _ => false,
    }
}

/// The key, the name's bytes and the signature of a serialized transaction
/// that carries a name stand at fixed places in it.
proof fn lemma_named_layout(message_id: u8, pub_key: PublicKey, name: Seq<char>, signature: Signature)
    ensures
        ({
            let raw = spec_named_payload(message_id, pub_key, name) + signature@;
            &&& raw.len() == 3 + 32 + encode_utf8(name).len() + 64
            &&& raw[2] == message_id
            &&& raw.subrange(3, 35) == pub_key@
            &&& raw.subrange(35, raw.len() - 64) == encode_utf8(name)
            &&& raw.subrange(raw.len() - 64, raw.len() as int) == signature@
        }),
{
    lemma_header_len(message_id);
    let raw = spec_named_payload(message_id, pub_key, name) + signature@;
    assert(raw.subrange(3, 35) =~= pub_key@);
    assert(raw.subrange(35, raw.len() - 64) =~= encode_utf8(name));
    assert(raw.subrange(raw.len() - 64, raw.len() as int) =~= signature@);
}

/// The two keys and the signature of a serialized vote stand at fixed places in it.
proof fn lemma_vote_layout(elector: PublicKey, candidate: PublicKey, signature: Signature)
    ensures
        ({
            let raw = spec_vote_payload(elector, candidate) + signature@;
            &&& raw.len() == 3 + 32 + 32 + 64
            &&& raw[2] == VOTE_ID
            &&& raw.subrange(3, 35) == elector@
            &&& raw.subrange(35, 67) == candidate@
            &&& raw.subrange(67, 131) == signature@
        }),
{
    lemma_header_len(VOTE_ID);
    let raw = spec_vote_payload(elector, candidate) + signature@;
    assert(raw.subrange(3, 35) =~= elector@);
    assert(raw.subrange(35, 67) =~= candidate@);
    assert(raw.subrange(67, 131) =~= signature@);
}

/// Two signatures with the same bytes are the same signature.
proof fn lemma_signature_ext(a: Signature, b: Signature)
    requires
        a@ == b@,
    ensures
        a == b,
{
    crypto::lemma_array64_ext(a.bytes, b.bytes);
}

/// Two keys with the same bytes are the same key.
proof fn lemma_key_ext(a: PublicKey, b: PublicKey)
    requires
        a@ == b@,
    ensures
        a == b,
{
    crypto::lemma_array32_ext(a.bytes, b.bytes);
}

/// The serialized signed form determines the transaction: two transactions
/// with the same form are of the same kind and have the same content.
pub proof fn lemma_raw_determines_transaction(a: VotingTransactions, b: VotingTransactions)
    requires
        a.spec_raw() == b.spec_raw(),
    ensures
        spec_same_content(a, b),
{
    match a {
        VotingTransactions::CreateCandidate(x) => {
            lemma_named_layout(CREATE_CANDIDATE_ID, x.pub_key, x.name@, x.signature);
        },
        VotingTransactions::CreateElector(x) => {
            lemma_named_layout(CREATE_ELECTOR_ID, x.pub_key, x.name@, x.signature);
        },
        VotingTransactions::Vote(x) => {
            lemma_vote_layout(x.elector, x.candidate, x.signature);
        },
    }
    match b {
        VotingTransactions::CreateCandidate(y) => {
            lemma_named_layout(CREATE_CANDIDATE_ID, y.pub_key, y.name@, y.signature);
        },
        VotingTransactions::CreateElector(y) => {
            lemma_named_layout(CREATE_ELECTOR_ID, y.pub_key, y.name@, y.signature);
        },
        VotingTransactions::Vote(y) => {
            lemma_vote_layout(y.elector, y.candidate, y.signature);
        },
    }
    match (a, b) {
        (VotingTransactions::CreateCandidate(x), VotingTransactions::CreateCandidate(y)) => {
            lemma_key_ext(x.pub_key, y.pub_key);
            lemma_signature_ext(x.signature, y.signature);
            encode_utf8_decode_utf8(x.name@);
            encode_utf8_decode_utf8(y.name@);
        },
        (VotingTransactions::CreateElector(x), VotingTransactions::CreateElector(y)) => {
            lemma_key_ext(x.pub_key, y.pub_key);
            lemma_signature_ext(x.signature, y.signature);
            encode_utf8_decode_utf8(x.name@);
            encode_utf8_decode_utf8(y.name@);
        },
        (VotingTransactions::Vote(x), VotingTransactions::Vote(y)) => {
            lemma_key_ext(x.elector, y.elector);
            lemma_key_ext(x.candidate, y.candidate);
            lemma_signature_ext(x.signature, y.signature);
        },
        _ => {},
    }
}

impl VotingTransactions {
    /// The serialized signed form.
    pub open spec fn spec_raw(&self) -> Seq<u8> {
        match self {
            VotingTransactions::CreateCandidate(tx) => tx.spec_raw(),
            VotingTransactions::CreateElector(tx) => tx.spec_raw(),
            VotingTransactions::Vote(tx) => tx.spec_raw(),
        }
    }

    /// The serialized signed form.
    pub fn raw(&self) -> (r: Vec<u8>)
        ensures
            r@ == self.spec_raw(),
    {
        match self {
            VotingTransactions::CreateCandidate(tx) => tx.raw(),
            VotingTransactions::CreateElector(tx) => tx.raw(),
            VotingTransactions::Vote(tx) => tx.raw(),
        }
    }

    /// Reads a transaction from its serialized signed form. The result
    /// serializes to the bytes given; bytes that no transaction serializes
    /// to are refused, with the reason.
    pub fn tx_from_raw(raw: &[u8]) -> (r: Result<VotingTransactions, ParseError>)
        ensures
            r is Ok <==> spec_parse_error(raw@) is None,
            r is Ok ==> r->Ok_0.spec_raw() == raw@,
            r is Err ==> spec_parse_error(raw@) == Some(r->Err_0),
    {
        let len = raw.len();
        if len < 3 + 64 {
            return Err(ParseError::TooShort);
        }
        let service = u16_to_le_bytes(VOTING_SERVICE);
        proof {
            lemma_auto_spec_u16_to_from_le_bytes();
            if raw@[0] == service@[0] && raw@[1] == service@[1] {
                assert(raw@.subrange(0, 2) =~= service@);
            } else {
                assert(raw@.subrange(0, 2)[0] == raw@[0]);
                assert(raw@.subrange(0, 2)[1] == raw@[1]);
            }
        }
        if raw[0] != service[0] || raw[1] != service[1] {
            return Err(ParseError::WrongService);
        }
        let message_id = raw[2];
        proof {
            lemma_header_len(message_id);
            assert(raw@.subrange(0, 3) =~= spec_header(message_id));
        }
        if message_id == VOTE_ID {
            if len != 3 + 32 + 32 + 64 {
                return Err(ParseError::WrongLength);
            }
            let vote = Vote {
                elector: PublicKey { bytes: read32(raw, 3) },
                candidate: PublicKey { bytes: read32(raw, 35) },
                signature: Signature { bytes: read64(raw, 67) },
            };
            assert(vote.spec_raw() =~= raw@);
            Ok(VotingTransactions::Vote(vote))
        } else if message_id == CREATE_CANDIDATE_ID || message_id == CREATE_ELECTOR_ID {
            if len < 3 + 32 + 64 {
                return Err(ParseError::WrongLength);
            }
            let pub_key = PublicKey { bytes: read32(raw, 3) };
            let signature = Signature { bytes: read64(raw, len - 64) };
            let name = match string_from_utf8(read_bytes(raw, 35, len - 64)) {
                Some(name) => name,
                None => {
                    return Err(ParseError::InvalidName);
                },
            };
            if message_id == CREATE_CANDIDATE_ID {
                let tx = CreateCandidate { pub_key, name, signature };
                assert(tx.spec_raw() =~= raw@);
                Ok(VotingTransactions::CreateCandidate(tx))
            } else {
                let tx = CreateElector { pub_key, name, signature };
                assert(tx.spec_raw() =~= raw@);
                Ok(VotingTransactions::CreateElector(tx))
            }
        } else {
            Err(ParseError::UnknownMessage)
        }
    }
}

} // verus!
