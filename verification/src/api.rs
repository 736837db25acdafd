//! The read side of the ledger: lookups, the list of candidates, the results
//! with their proofs, and the block in which an elector voted.
//!
//! Every query works on a state that no longer changes and, where it needs
//! the transactions themselves, on the log of those that were committed.

use crate::crypto;
use crate::crypto::{spec_collision_free, spec_none_hashes_to_zero, PublicKey};
use crate::proof_list::{
    lemma_range_proof_validates, spec_entries, spec_range_proof, spec_validate, ListProof, ListProofError,
};
use crate::proof_map::{
    lemma_altered_value_is_refused, lemma_map_proof_checks, spec_check, spec_check_inputs, spec_map_inputs,
    spec_map_proof, MapProof, MapProofError, ProofEnd, Record,
};
use crate::schema::{lemma_candidate_bytes_differ, Candidate, Elector, LedgerState, VoteSchema};
use crate::store::{lemma_index_unique, spec_index_of, spec_key_at, Entry};
use crate::transactions::VotingTransactions;
use vstd::prelude::*;

verus! {

/// Why a query gave no answer.
#[derive(Debug, PartialEq, Eq)]
pub enum ApiError {
    /// What was asked for is not there.
    NotFound(String),
    /// The transaction's signature is not valid for the key it names.
    InvalidTransaction,
}

/// The receipt for a transaction that was accepted for broadcast.
#[derive(Debug, PartialEq, Eq)]
pub struct TransactionResponse {
    pub tx_hash: crypto::Hash,
}

/// Asks for a candidate by key.
#[derive(Debug, PartialEq, Eq)]
pub struct CandidateQuery {
    pub pub_key: PublicKey,
}

/// Asks for an elector by key.
#[derive(Debug, PartialEq, Eq)]
pub struct ElectorQuery {
    pub pub_key: PublicKey,
}

/// A transaction with the height of the block that committed it.
#[derive(Debug, PartialEq, Eq)]
pub struct CommittedTransaction {
    pub transaction: VotingTransactions,
    pub height: u64,
}

/// A candidate's history: the transactions it names, and the proof that
/// they are the whole list, in order.
#[derive(Debug)]
pub struct VotingHistory {
    pub transactions: Vec<VotingTransactions>,
    pub history_proof: ListProof,
}

/// What the results say of one candidate. The candidate's share of the
/// vote is `candidate.voices` out of `total_votes`.
#[derive(Debug)]
pub struct CandidateInfo {
    pub candidate: Candidate,
    pub total_votes: u128,
    pub proof: MapProof<Candidate>,
    pub history: VotingHistory,
}

/// The results of the vote, with the two roots that tie them to the
/// commitment of a block.
#[derive(Debug)]
pub struct VotingResults {
    pub candidates: Vec<CandidateInfo>,
    pub state_hash: Vec<crypto::Hash>,
}

/// The queries of the voting service.
#[derive(Clone, Copy, Debug)]
pub struct PublicApi;

/// The sum of the votes of the first `n` candidates of a listing.
pub open spec fn spec_votes_upto(listing: Seq<Entry<Candidate>>, n: int) -> int
    decreases n,
{
    if n <= 0 {
        0
    } else {
        spec_votes_upto(listing, n - 1) + listing[n - 1].value.voices
    }
}

/// The sum of the votes of all candidates of a listing.
pub open spec fn spec_total_votes(listing: Seq<Entry<Candidate>>) -> int {
    spec_votes_upto(listing, listing.len() as int)
}

/// Whether position `i` of the log holds the transaction with hash `h`,
/// and no earlier position does.
pub open spec fn spec_first_with_hash(log: Seq<CommittedTransaction>, h: crypto::Hash, i: int) -> bool {
    &&& 0 <= i < log.len()
    &&& log[i].transaction.spec_hash() == h
    &&& forall|j: int| 0 <= j < i ==> log[j].transaction.spec_hash() != h
}

/// Whether the log holds a transaction with hash `h`.
pub open spec fn spec_known(log: Seq<CommittedTransaction>, h: crypto::Hash) -> bool {
    exists|i: int| 0 <= i < log.len() && log[i].transaction.spec_hash() == h
}

/// Whether the log holds a transaction for each hash in `hashes`.
pub open spec fn spec_all_known(log: Seq<CommittedTransaction>, hashes: Seq<crypto::Hash>) -> bool {
    forall|n: int| 0 <= n < hashes.len() ==> spec_known(log, hashes[n])
}

/// Whether `tx` is the first transaction of the log with hash `h`.
pub open spec fn spec_resolves_to(log: Seq<CommittedTransaction>, h: crypto::Hash, tx: VotingTransactions) -> bool {
    exists|i: int| spec_first_with_hash(log, h, i) && log[i].transaction == tx
}

/// Whether `transactions` are, one for one, the first transactions of the
/// log with the hashes in `hashes`.
pub open spec fn spec_resolved(
    log: Seq<CommittedTransaction>,
    hashes: Seq<crypto::Hash>,
    transactions: Seq<VotingTransactions>,
) -> bool {
    &&& transactions.len() == hashes.len()
    &&& forall|n: int| 0 <= n < hashes.len() ==> spec_resolves_to(log, hashes[n], #[trigger] transactions[n])
}

/// Whether the transaction is a vote by the elector with the given key.
pub open spec fn spec_is_vote_by(tx: VotingTransactions, key: PublicKey) -> bool {
    match tx {
        VotingTransactions::Vote(vote) => vote.elector == key,
        _ => false,
    }
}

/// Whether position `i` of the log holds a vote by `key`, and no earlier
/// position does.
pub open spec fn spec_first_vote_at(log: Seq<CommittedTransaction>, key: PublicKey, i: int) -> bool {
    &&& 0 <= i < log.len()
    &&& spec_is_vote_by(log[i].transaction, key)
    &&& forall|j: int| 0 <= j < i ==> !spec_is_vote_by(log[j].transaction, key)
}

/// Whether `info` is what the results say of `candidate` in the given
/// state, with the given total of votes.
pub open spec fn spec_info_of(
    schema: VoteSchema<LedgerState>,
    log: Seq<CommittedTransaction>,
    candidate: Candidate,
    total: int,
    info: CandidateInfo,
) -> bool {
    let history = schema.spec_history(candidate.pub_key);
    &&& info.candidate == candidate
    &&& info.total_votes == total
    &&& info.proof.path@ == spec_map_proof(schema.spec_candidates(), candidate.pub_key).0
    &&& info.proof.end == spec_map_proof(schema.spec_candidates(), candidate.pub_key).1
    &&& info.history.history_proof == spec_range_proof(history, 0, history.len() as int)
    &&& spec_resolved(log, history, info.history.transactions@)
}

/// Whether `results` are the results of the vote in the given state.
pub open spec fn spec_results_of(
    schema: VoteSchema<LedgerState>,
    log: Seq<CommittedTransaction>,
    results: VotingResults,
) -> bool {
    let listing = schema.view.candidates.listing();
    &&& results.state_hash@ == schema.spec_state_hash()
    &&& results.candidates@.len() == listing.len()
    &&& forall|i: int|
        0 <= i < listing.len() ==> spec_info_of(
            schema,
            log,
            listing[i].value,
            spec_total_votes(listing),
            #[trigger] results.candidates@[i],
        )
}

/// Whether every transaction that a candidate's history names is in the log.
pub open spec fn spec_histories_known(schema: VoteSchema<LedgerState>, log: Seq<CommittedTransaction>) -> bool {
    forall|k: PublicKey| #[trigger]
        schema.spec_candidates().dom().contains(k) ==> spec_all_known(log, schema.spec_history(k))
}

/// The sum of the votes of `n` candidates is at most `n` times the most
/// that one can have.
proof fn lemma_votes_bound(listing: Seq<Entry<Candidate>>, n: int)
    requires
        0 <= n <= listing.len(),
    ensures
        0 <= spec_votes_upto(listing, n) <= n * u64::MAX,
    decreases n,
{
    if n > 0 {
        lemma_votes_bound(listing, n - 1);
        assert((n - 1) * u64::MAX + u64::MAX == n * u64::MAX) by (nonlinear_arith);
    }
}

/// Where nobody has voted, every candidate has no votes.
pub proof fn lemma_no_votes(listing: Seq<Entry<Candidate>>, n: int, i: int)
    requires
        0 <= i < n <= listing.len(),
        spec_votes_upto(listing, n) == 0,
    ensures
        listing[i].value.voices == 0,
    decreases n,
{
    lemma_votes_bound(listing, n - 1);
    if i < n - 1 {
        lemma_no_votes(listing, n - 1, i);
    }
}

/// What the results say of a candidate can be checked against the state's
/// commitment alone: the inclusion proof shows the candidate's record under
/// the root of the candidates, and the history proof shows the whole
/// history, in order, under the root that the record carries.
pub proof fn lemma_info_verifies(
    schema: VoteSchema<LedgerState>,
    log: Seq<CommittedTransaction>,
    candidate: Candidate,
    total: int,
    info: CandidateInfo,
)
    requires
        schema.consistent(),
        schema.spec_candidates().dom().contains(candidate.pub_key),
        schema.spec_candidates()[candidate.pub_key] == candidate,
        spec_info_of(schema, log, candidate, total, info),
    ensures
        spec_check(info.proof.path@, info.proof.end, schema.spec_state_hash()[0], candidate.pub_key) == Ok::<
            Option<Candidate>,
            MapProofError,
        >(Some(candidate)),
        spec_validate(
            info.history.history_proof,
            candidate.history_hash,
            schema.spec_history(candidate.pub_key).len() as u64,
        ) == Ok::<Seq<(u64, crypto::Hash)>, ListProofError>(
            spec_entries(
                schema.spec_history(candidate.pub_key),
                0,
                schema.spec_history(candidate.pub_key).len() as int,
            ),
        ),
{
    lemma_map_proof_checks(schema.view.candidates, candidate.pub_key);
    let history = schema.spec_history(candidate.pub_key);
    schema.view.history@[candidate.pub_key].lemma_bounded();
    lemma_range_proof_validates(history, 0, history.len() as int);
}

/// A record that differs from the one the results give, in key, name, root
/// or votes, fails the check of the inclusion proof that came with it. This
/// holds unless two of the byte strings that are hashed in checking the
/// proof or in computing the root of the candidates collide, or one of them
/// has the all-zero digest.
pub proof fn lemma_altered_candidate_is_refused(
    schema: VoteSchema<LedgerState>,
    log: Seq<CommittedTransaction>,
    candidate: Candidate,
    total: int,
    info: CandidateInfo,
    altered: Candidate,
)
    requires
        schema.consistent(),
        schema.spec_candidates().dom().contains(candidate.pub_key),
        schema.spec_candidates()[candidate.pub_key] == candidate,
        spec_info_of(schema, log, candidate, total, info),
        altered.pub_key != candidate.pub_key || altered.name@ != candidate.name@ || altered.history_hash
            != candidate.history_hash || altered.voices != candidate.voices,
        spec_collision_free(
            spec_check_inputs(info.proof.path@, ProofEnd::Found(altered), candidate.pub_key) + spec_map_inputs(
                schema.spec_candidates(),
            ),
        ),
        spec_none_hashes_to_zero(
            spec_check_inputs(info.proof.path@, ProofEnd::Found(altered), candidate.pub_key) + spec_map_inputs(
                schema.spec_candidates(),
            ),
        ),
    ensures
        spec_check(
            info.proof.path@,
            ProofEnd::Found(altered),
            schema.spec_state_hash()[0],
            candidate.pub_key,
        ) == Err::<Option<Candidate>, MapProofError>(MapProofError::UnmatchedRootHash),
{
    lemma_info_verifies(schema, log, candidate, total, info);
    lemma_candidate_bytes_differ(altered, candidate);
    lemma_altered_value_is_refused(schema.view.candidates, info.proof.path@, candidate.pub_key, altered);
}

impl PublicApi {
    /// The first transaction of the log with the given hash.
    fn find_transaction(log: &Vec<CommittedTransaction>, h: &crypto::Hash) -> (r: Option<usize>)
        ensures
            match r {
                Some(i) => spec_first_with_hash(log@, *h, i as int),
                None => !spec_known(log@, *h),
            },
    {
        let mut i: usize = 0;
        while i < log.len()
            invariant
                i <= log@.len(),
                forall|j: int| 0 <= j < i ==> log@[j].transaction.spec_hash() != *h,
            decreases log@.len() - i,
        {
            if log[i].transaction.hash().same(h) {
                return Some(i);
            }
            i += 1;
        }
        None
    }

    /// The transactions that a history names, in order, or nothing where
    /// the log lacks one of them.
    fn resolve(log: &Vec<CommittedTransaction>, hashes: &Vec<crypto::Hash>) -> (r: Option<Vec<VotingTransactions>>)
        ensures
            match r {
                Some(transactions) => spec_resolved(log@, hashes@, transactions@),
                None => !spec_all_known(log@, hashes@),
            },
    {
        let mut transactions: Vec<VotingTransactions> = Vec::new();
        let mut n: usize = 0;
        while n < hashes.len()
            invariant
                n <= hashes@.len(),
                spec_resolved(log@, hashes@.subrange(0, n as int), transactions@),
            decreases hashes@.len() - n,
        {
            match Self::find_transaction(log, &hashes[n]) {
                None => {
                    return None;
                },
                Some(i) => {
                    let ghost before = transactions@;
                    transactions.push(log[i].transaction.replica());
                    proof {
                        let upto = hashes@.subrange(0, n + 1);
                        assert forall|m: int| 0 <= m < upto.len() implies spec_resolves_to(
                            log@,
                            upto[m],
                            #[trigger] transactions@[m],
                        ) by {
                            if m < n {
                                assert(hashes@.subrange(0, n as int)[m] == upto[m]);
                                assert(transactions@[m] == before[m]);
                                assert(spec_resolves_to(log@, hashes@.subrange(0, n as int)[m], before[m]));
                            } else {
                                assert(spec_first_with_hash(log@, upto[m], i as int));
                            }
                        }
                    }
                    n += 1;
                },
            }
        }
        assert(hashes@.subrange(0, n as int) =~= hashes@);
        Some(transactions)
    }

    /// What the results say of one candidate: the record, the total it is
    /// measured against, the proof that the record is in the map of
    /// candidates, and the history with its proof. Nothing where the log
    /// lacks a transaction that the history names.
    fn get_candidate_info(
        schema: &VoteSchema<LedgerState>,
        log: &Vec<CommittedTransaction>,
        candidate: Candidate,
        total_votes_number: u128,
    ) -> (r: Option<CandidateInfo>)
        requires
            schema.wf(),
        ensures
            match r {
                Some(info) => spec_info_of(*schema, log@, candidate, total_votes_number as int, info),
                None => !spec_all_known(log@, schema.spec_history(candidate.pub_key)),
            },
    {
        let history = schema.vote_history(candidate.pub_key());
        let history_proof = history.get_range_proof(0, history.len());
        let hashes = history.to_vec();
        let transactions = match Self::resolve(log, &hashes) {
            Some(transactions) => transactions,
            None => {
                return None;
            },
        };
        let to_candidate_proof = schema.candidates().get_proof(candidate.pub_key());
        Some(
            CandidateInfo {
                candidate,
                total_votes: total_votes_number,
                proof: to_candidate_proof,
                history: VotingHistory { transactions, history_proof },
            },
        )
    }

    /// The results of the vote: for every candidate the record, the total
    /// of all votes, and the proofs, together with the state's two roots.
    /// Fails where the log lacks a transaction that a history names.
    pub fn results(schema: &VoteSchema<LedgerState>, log: &Vec<CommittedTransaction>) -> (r: Result<
        VotingResults,
        ApiError,
    >)
        requires
            schema.consistent(),
        ensures
            r is Ok <==> spec_histories_known(*schema, log@),
            match r {
                Ok(results) => spec_results_of(*schema, log@, results),
                Err(ApiError::NotFound(message)) => message@ == "Transaction not found"@,
                Err(_) => false,
            },
    {
        let idx = schema.candidates();
        let ghost listing = idx.listing();
        let count = idx.len();
        let mut total_votes_number: u128 = 0;
        let mut i: usize = 0;
        while i < count
            invariant
                i <= count,
                count == listing.len(),
                listing == idx.listing(),
                total_votes_number == spec_votes_upto(listing, i as int),
            decreases count - i,
        {
            proof {
                lemma_votes_bound(listing, i as int);
                assert(i * u64::MAX <= usize::MAX * u64::MAX) by (nonlinear_arith)
                    requires
                        i <= usize::MAX,
                ;
            }
            total_votes_number = total_votes_number + idx.entry(i).value.voices() as u128;
            i += 1;
        }
        let mut candidates: Vec<CandidateInfo> = Vec::new();
        let mut i: usize = 0;
        while i < count
            invariant
                i <= count,
                count == listing.len(),
                listing == idx.listing(),
                *idx == schema.view.candidates,
                schema.consistent(),
                total_votes_number == spec_total_votes(listing),
                candidates@.len() == i,
                forall|j: int|
                    0 <= j < i ==> spec_info_of(
                        *schema,
                        log@,
                        listing[j].value,
                        spec_total_votes(listing),
                        #[trigger] candidates@[j],
                    ),
            decreases count - i,
        {
            let candidate = idx.entry(i).value.replica();
            match Self::get_candidate_info(schema, log, candidate, total_votes_number) {
                None => {
                    proof {
                        idx.lemma_listing();
                        lemma_index_unique(listing, i as int);
                        let k = listing[i as int].key;
                        assert(schema.spec_candidates().dom().contains(k));
                        assert(schema.spec_candidates()[k].pub_key == k);
                    }
                    return Err(ApiError::NotFound("Transaction not found".to_owned()));
                },
                Some(info) => {
                    candidates.push(info);
                },
            }
            i += 1;
        }
        proof {
            idx.lemma_listing();
            assert forall|k: PublicKey| #[trigger]
                schema.spec_candidates().dom().contains(k) implies spec_all_known(
                log@,
                schema.spec_history(k),
            ) by {
                let j = spec_index_of(listing, k);
                assert(spec_key_at(listing, k, j));
                lemma_index_unique(listing, j);
                let history = schema.spec_history(k);
                let transactions = candidates@[j].history.transactions@;
                assert(spec_resolved(log@, history, transactions));
                assert forall|n: int| 0 <= n < history.len() implies spec_known(log@, history[n]) by {
                    assert(spec_resolves_to(log@, history[n], transactions[n]));
                }
            }
        }
        Ok(VotingResults { candidates, state_hash: schema.state_hash() })
    }

    /// Accepts a transaction for broadcast where its signature is valid, and
    /// gives its hash as the receipt.
    pub fn post_candidate(query: VotingTransactions) -> (r: Result<TransactionResponse, ApiError>)
        ensures
            match r {
                Ok(response) => query.spec_verify() && response.tx_hash == query.spec_hash(),
                Err(ApiError::InvalidTransaction) => !query.spec_verify(),
                Err(_) => false,
            },
    {
        if query.verify() {
            Ok(TransactionResponse { tx_hash: query.hash() })
        } else {
            Err(ApiError::InvalidTransaction)
        }
    }

    /// The elector with the key asked for.
    pub fn get_elector(schema: &VoteSchema<LedgerState>, query: ElectorQuery) -> (r: Result<Elector, ApiError>)
        requires
            schema.wf(),
        ensures
            match r {
                Ok(elector) => schema.spec_electorate().dom().contains(query.pub_key) && elector
                    == schema.spec_electorate()[query.pub_key],
                Err(ApiError::NotFound(message)) => !schema.spec_electorate().dom().contains(query.pub_key)
                    && message@ == "Elector not found"@,
                Err(_) => false,
            },
    {
        match schema.elector(&query.pub_key) {
            Some(elector) => Ok(elector),
            None => Err(ApiError::NotFound("Elector not found".to_owned())),
        }
    }

    /// The candidate with the key asked for.
    pub fn get_candidate(schema: &VoteSchema<LedgerState>, query: CandidateQuery) -> (r: Result<
        Candidate,
        ApiError,
    >)
        requires
            schema.wf(),
        ensures
            match r {
                Ok(candidate) => schema.spec_candidates().dom().contains(query.pub_key) && candidate
                    == schema.spec_candidates()[query.pub_key],
                Err(ApiError::NotFound(message)) => !schema.spec_candidates().dom().contains(query.pub_key)
                    && message@ == "Candidate not found"@,
                Err(_) => false,
            },
    {
        match schema.candidate(&query.pub_key) {
            Some(candidate) => Ok(candidate),
            None => Err(ApiError::NotFound("Candidate not found".to_owned())),
        }
    }

    /// The height of the block that committed the first vote of the
    /// elector with the key asked for.
    pub fn get_block_number(log: &Vec<CommittedTransaction>, query: ElectorQuery) -> (r: Result<u64, ApiError>)
        ensures
            match r {
                Ok(height) => exists|i: int|
                    spec_first_vote_at(log@, query.pub_key, i) && height == log@[i].height,
                Err(ApiError::NotFound(message)) => (forall|i: int|
                    0 <= i < log@.len() ==> !spec_is_vote_by(log@[i].transaction, query.pub_key)) && message@
                    == "Transaction not found"@,
                Err(_) => false,
            },
    {
        let mut i: usize = 0;
        while i < log.len()
            invariant
                i <= log@.len(),
                forall|j: int| 0 <= j < i ==> !spec_is_vote_by(log@[j].transaction, query.pub_key),
            decreases log@.len() - i,
        {
            let found = match &log[i].transaction {
                VotingTransactions::Vote(vote) => query.pub_key.same(vote.elector()),
                _ => false,
            };
            if found {
                assert(spec_first_vote_at(log@, query.pub_key, i as int));
                return Ok(log[i].height);
            }
            i += 1;
        }
        Err(ApiError::NotFound("Transaction not found".to_owned()))
    }

    /// All candidates, in the order of their keys.
    pub fn get_candidates(schema: &VoteSchema<LedgerState>) -> (r: Result<Vec<Candidate>, ApiError>)
        ensures
            r is Ok,
            r->Ok_0@.len() == schema.view.candidates.listing().len(),
            forall|i: int|
                0 <= i < r->Ok_0@.len() ==> r->Ok_0@[i] == schema.view.candidates.listing()[i].value,
    {
        let idx = schema.candidates();
        let mut candidates: Vec<Candidate> = Vec::new();
        let mut i: usize = 0;
        while i < idx.len()
            invariant
                i <= idx.listing().len(),
                candidates@.len() == i,
                forall|j: int| 0 <= j < i ==> candidates@[j] == idx.listing()[j].value,
            decreases idx.listing().len() - i,
        {
            candidates.push(idx.entry(i).value.replica());
            i += 1;
        }
        Ok(candidates)
    }
}

} // verus!
