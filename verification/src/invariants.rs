//! What holds of the ledger across transactions: records are created once
//! and never removed, votes only grow, and an elector votes once.

use crate::crypto;
use crate::crypto::{spec_collision_free, PublicKey};
use crate::errors::Error;
use crate::proof_list::{
    lemma_push_changes_root, lemma_range_proof_validates, spec_entries, spec_list_inputs, spec_list_root,
    spec_range_proof, spec_validate, ListProofError,
};
use crate::schema::{LedgerState, VoteSchema};
use crate::transactions::{CreateCandidate, CreateElector, Vote, VotingTransactions};
use vstd::prelude::*;

verus! {

/// The history list of a candidate is never longer than a position can count.
pub proof fn lemma_history_bounded(state: VoteSchema<LedgerState>, key: PublicKey)
    ensures
        state.spec_history(key).len() <= u64::MAX,
{
    if state.view.history@.dom().contains(key) {
        state.view.history@[key].lemma_bounded();
    }
}

/// A candidate that has just been registered has no votes, and a history
/// of one entry, the registration itself. Whatever range of that history is
/// asked for, the empty one included, the history's proof for it checks out
/// against the root that the candidate's record carries.
pub proof fn lemma_created_candidate(
    tx: CreateCandidate,
    before: VoteSchema<LedgerState>,
    after: VoteSchema<LedgerState>,
    from: int,
    to: int,
)
    requires
        before.coherent(),
        tx.spec_outcome(before) is Ok,
        tx.spec_step(before, after),
        0 <= from,
        to <= 1,
    ensures
        after.spec_candidates().dom().contains(tx.pub_key),
        after.spec_candidates()[tx.pub_key].voices == 0,
        after.spec_candidates()[tx.pub_key].name == tx.name,
        after.spec_history(tx.pub_key) == seq![tx.spec_hash()],
        spec_validate(
            spec_range_proof(after.spec_history(tx.pub_key), from, to),
            after.spec_candidates()[tx.pub_key].history_hash,
            1,
        ) == Ok::<Seq<(u64, crypto::Hash)>, ListProofError>(
            spec_entries(after.spec_history(tx.pub_key), from, to),
        ),
{
    assert(!before.view.history@.dom().contains(tx.pub_key));
    let history = after.spec_history(tx.pub_key);
    assert(history =~= seq![tx.spec_hash()]);
    lemma_range_proof_validates(history, from, to);
}

/// A second registration of a candidate under a key that a first one took
/// fails, and leaves the ledger, the first one's record with it, as it was.
pub proof fn lemma_candidate_registered_once(
    first: CreateCandidate,
    second: CreateCandidate,
    s0: VoteSchema<LedgerState>,
    s1: VoteSchema<LedgerState>,
    s2: VoteSchema<LedgerState>,
)
    requires
        first.spec_outcome(s0) is Ok,
        first.spec_step(s0, s1),
        second.pub_key == first.pub_key,
        second.spec_step(s1, s2),
    ensures
        second.spec_outcome(s1) == Err::<(), Error>(Error::CandidateAlreadyExists),
        s2 == s1,
        s2.spec_candidates()[first.pub_key].name == first.name,
        s2.spec_candidates()[first.pub_key].voices == 0,
{
}

/// A second registration of an elector under a key that a first one took
/// fails, and leaves the ledger, the first one's record with it, as it was.
pub proof fn lemma_elector_registered_once(
    first: CreateElector,
    second: CreateElector,
    s0: VoteSchema<LedgerState>,
    s1: VoteSchema<LedgerState>,
    s2: VoteSchema<LedgerState>,
)
    requires
        first.spec_outcome(s0) is Ok,
        first.spec_step(s0, s1),
        second.pub_key == first.pub_key,
        second.spec_step(s1, s2),
    ensures
        second.spec_outcome(s1) == Err::<(), Error>(Error::ElectorAlreadyExists),
        s2 == s1,
        s2.spec_electorate()[first.pub_key].name == first.name,
        s2.spec_electorate()[first.pub_key].eligible,
{
}

/// Registering under a key that is taken fails, whoever took it and
/// whatever happened since, and changes nothing.
pub proof fn lemma_taken_key_is_refused(
    tx: VotingTransactions,
    before: VoteSchema<LedgerState>,
    after: VoteSchema<LedgerState>,
)
    requires
        tx.spec_step(before, after),
        match tx {
            VotingTransactions::CreateCandidate(c) => before.spec_candidates().dom().contains(c.pub_key),
            VotingTransactions::CreateElector(e) => before.spec_electorate().dom().contains(e.pub_key),
            VotingTransactions::Vote(_) => false,
        },
    ensures
        match tx {
            VotingTransactions::CreateCandidate(_) => tx.spec_outcome(before) == Err::<(), Error>(
                Error::CandidateAlreadyExists,
            ),
            VotingTransactions::CreateElector(_) => tx.spec_outcome(before) == Err::<(), Error>(
                Error::ElectorAlreadyExists,
            ),
            VotingTransactions::Vote(_) => true,
        },
        after == before,
{
}

/// A vote that succeeds takes the elector's eligibility, gives the
/// candidate exactly one vote more, appends the vote to the candidate's
/// history and sets the record's root to that of the longer history. Any
/// later vote of the same elector for a registered candidate fails with
/// `AlreadyVoted` and changes nothing.
pub proof fn lemma_vote_counts_once(
    vote: Vote,
    again: Vote,
    s0: VoteSchema<LedgerState>,
    s1: VoteSchema<LedgerState>,
    s2: VoteSchema<LedgerState>,
)
    requires
        s0.coherent(),
        vote.spec_outcome(s0) is Ok,
        vote.spec_step(s0, s1),
        again.elector == vote.elector,
        s1.spec_candidates().dom().contains(again.candidate),
        again.spec_step(s1, s2),
    ensures
        !s1.spec_electorate()[vote.elector].eligible,
        s1.spec_candidates()[vote.candidate].voices == s0.spec_candidates()[vote.candidate].voices + 1,
        s1.spec_history(vote.candidate) == s0.spec_history(vote.candidate).push(vote.spec_hash()),
        s1.spec_candidates()[vote.candidate].history_hash == spec_list_root(s1.spec_history(vote.candidate)),
        again.spec_outcome(s1) == Err::<(), Error>(Error::AlreadyVoted),
        s2 == s1,
{
    lemma_history_bounded(s0, vote.candidate);
}

/// A vote that succeeds changes the root that the candidate's record
/// carries. This holds unless two of the byte strings that are hashed in
/// computing the root of the history before or after the vote collide.
pub proof fn lemma_vote_changes_root(vote: Vote, s0: VoteSchema<LedgerState>, s1: VoteSchema<LedgerState>)
    requires
        s0.coherent(),
        vote.spec_outcome(s0) is Ok,
        vote.spec_step(s0, s1),
        spec_collision_free(
            spec_list_inputs(s0.spec_history(vote.candidate)) + spec_list_inputs(
                s0.spec_history(vote.candidate).push(vote.spec_hash()),
            ),
        ),
    ensures
        s1.spec_candidates()[vote.candidate].history_hash != s0.spec_candidates()[vote.candidate].history_hash,
{
    lemma_history_bounded(s0, vote.candidate);
    lemma_push_changes_root(s0.spec_history(vote.candidate), vote.spec_hash());
}

/// Whatever a transaction does to a ledger whose records and histories fit
/// each other, they still fit afterwards.
pub proof fn lemma_step_keeps_coherence(
    tx: VotingTransactions,
    before: VoteSchema<LedgerState>,
    after: VoteSchema<LedgerState>,
)
    requires
        before.coherent(),
        tx.spec_step(before, after),
    ensures
        after.coherent(),
{
    if tx.spec_outcome(before) is Ok {
        let named = tx.spec_candidate_key();
        match tx {
            VotingTransactions::CreateCandidate(c) => {
                assert(!before.view.history@.dom().contains(c.pub_key));
                assert(after.spec_history(c.pub_key) =~= seq![c.spec_hash()]);
            },
            VotingTransactions::CreateElector(e) => {
                assert(after.spec_candidates() == before.spec_candidates());
                assert(after.view.history@ == before.view.history@);
            },
            VotingTransactions::Vote(v) => {
                lemma_history_bounded(before, v.candidate);
            },
        }
        assert forall|k: PublicKey| #[trigger] after.spec_candidates().dom().contains(k) implies {
            &&& after.spec_candidates()[k].pub_key == k
            &&& after.view.history@.dom().contains(k)
            &&& after.spec_history(k).len() == after.spec_candidates()[k].voices + 1
            &&& after.spec_candidates()[k].history_hash == spec_list_root(after.spec_history(k))
        } by {
            if named != Some(k) {
                assert(before.spec_candidates().dom().contains(k));
                assert(before.view.history@.dom().contains(k));
            }
        }
        assert forall|k: PublicKey| #[trigger]
            after.view.history@.dom().contains(k) implies after.spec_candidates().dom().contains(k) by {
            if named != Some(k) {
                assert(before.view.history@.dom().contains(k));
            }
        }
        assert forall|k: PublicKey| #[trigger]
            after.spec_electorate().dom().contains(k) implies after.spec_electorate()[k].pub_key == k by {
            if tx.spec_elector_key() != Some(k) {
                assert(before.spec_electorate().dom().contains(k));
            }
        }
    }
}

/// No transaction removes a record, renames anyone, takes a vote away from
/// a candidate, or gives an elector the vote back. A candidate's root
/// changes only where the candidate gains a vote.
pub proof fn lemma_step_keeps_records(
    tx: VotingTransactions,
    before: VoteSchema<LedgerState>,
    after: VoteSchema<LedgerState>,
    key: PublicKey,
)
    requires
        before.coherent(),
        tx.spec_step(before, after),
    ensures
        before.spec_candidates().dom().contains(key) ==> {
            &&& after.spec_candidates().dom().contains(key)
            &&& after.spec_candidates()[key].pub_key == before.spec_candidates()[key].pub_key
            &&& after.spec_candidates()[key].name == before.spec_candidates()[key].name
            &&& after.spec_candidates()[key].voices >= before.spec_candidates()[key].voices
            &&& after.spec_candidates()[key].voices == before.spec_candidates()[key].voices
                ==> after.spec_candidates()[key].history_hash == before.spec_candidates()[key].history_hash
        },
        before.spec_electorate().dom().contains(key) ==> {
            &&& after.spec_electorate().dom().contains(key)
            &&& after.spec_electorate()[key].pub_key == before.spec_electorate()[key].pub_key
            &&& after.spec_electorate()[key].name == before.spec_electorate()[key].name
            &&& after.spec_electorate()[key].eligible ==> before.spec_electorate()[key].eligible
        },
{
    match tx {
        VotingTransactions::Vote(vote) => {
            lemma_history_bounded(before, vote.candidate);
        },
        _ => {},
    }
}

/// A transaction changes nothing but the records it names: every other
/// candidate keeps its record and its history, and every other elector
/// keeps its record.
pub proof fn lemma_step_is_local(
    tx: VotingTransactions,
    before: VoteSchema<LedgerState>,
    after: VoteSchema<LedgerState>,
    key: PublicKey,
)
    requires
        tx.spec_step(before, after),
    ensures
        tx.spec_candidate_key() != Some(key) ==> {
            &&& after.spec_candidates().dom().contains(key) == before.spec_candidates().dom().contains(key)
            &&& before.spec_candidates().dom().contains(key) ==> after.spec_candidates()[key]
                == before.spec_candidates()[key]
            &&& after.spec_history(key) == before.spec_history(key)
        },
        tx.spec_elector_key() != Some(key) ==> {
            &&& after.spec_electorate().dom().contains(key) == before.spec_electorate().dom().contains(key)
            &&& before.spec_electorate().dom().contains(key) ==> after.spec_electorate()[key]
                == before.spec_electorate()[key]
        },
{
}

} // verus!
