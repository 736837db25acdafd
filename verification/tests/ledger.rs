use voting_service::api::{
    ApiError, CandidateQuery, CommittedTransaction, ElectorQuery, PublicApi,
};
use voting_service::crypto;
use voting_service::crypto::{gen_keypair_from_seed, hash, PublicKey, SecretKey, Signature};
use voting_service::errors::Error;
use voting_service::proof_list::ProofList;
use voting_service::proof_map::{MapProof, MapProofError, ProofEnd, Record};
use voting_service::schema::{Candidate, Elector, LedgerState, VoteSchema};
use voting_service::service::{VotingService, SERVICE_NAME, VOTING_SERVICE};
use voting_service::transactions::{CreateCandidate, CreateElector, Status, Vote, VotingTransactions};
use voting_service::ServiceFactory;

type Ledger = VoteSchema<LedgerState>;

struct Chain {
    ledger: Ledger,
    log: Vec<CommittedTransaction>,
    height: u64,
}

fn keys(n: u8) -> (PublicKey, SecretKey) {
    gen_keypair_from_seed(&[n; 32])
}

fn chain() -> Chain {
    Chain { ledger: VoteSchema::new(LedgerState::new()), log: Vec::new(), height: 0 }
}

fn commit(chain: &mut Chain, block: Vec<VotingTransactions>) -> Vec<Result<(), Error>> {
    chain.height += 1;
    let mut outcomes = Vec::new();
    for tx in block {
        assert!(tx.verify());
        outcomes.push(tx.execute(&mut chain.ledger));
        chain.log.push(CommittedTransaction { transaction: tx, height: chain.height });
    }
    outcomes
}

fn candidate_tx(n: u8, name: &str) -> VotingTransactions {
    let (public, secret) = keys(n);
    VotingTransactions::CreateCandidate(CreateCandidate::new(&public, name, &secret))
}

fn elector_tx(n: u8, name: &str) -> VotingTransactions {
    let (public, secret) = keys(n);
    VotingTransactions::CreateElector(CreateElector::new(&public, name, &secret))
}

fn vote_tx(elector: u8, candidate: u8) -> VotingTransactions {
    let (public, secret) = keys(elector);
    VotingTransactions::Vote(Vote::new(&public, &keys(candidate).0, &secret))
}

fn percent(votes: u64, total: u128) -> f64 {
    if total == 0 {
        0.0
    } else {
        votes as f64 / total as f64 * 100.0
    }
}

fn fingerprint(ledger: &Ledger) -> (Vec<crypto::Hash>, Vec<Candidate>, Vec<crypto::Hash>) {
    let candidates = PublicApi::get_candidates(ledger).unwrap();
    let histories = candidates.iter().map(|c| ledger.vote_history(c.pub_key()).merkle_root()).collect();
    (ledger.state_hash(), candidates, histories)
}

#[test]
fn error_codes_and_descriptions_are_stable() {
    let all = [
        (Error::CandidateAlreadyExists, 0, "Candidate already exists"),
        (Error::ElectorAlreadyExists, 1, "Elector already exists"),
        (Error::ElectorNotFound, 2, "Elector doesn't exist"),
        (Error::CandidateNotFound, 3, "Candidate doesn't exist"),
        (Error::AlreadyVoted, 4, "The voter has already voted."),
    ];
    for (error, code, description) in all {
        assert_eq!(error.code(), code);
        assert_eq!(error.description(), description);
    }
}

#[test]
fn service_is_known_by_number_and_name() {
    assert_eq!(VOTING_SERVICE, 13);
    assert_eq!(SERVICE_NAME, "voting");
    assert_eq!(VotingService.service_id(), 13);
    assert_eq!(VotingService.service_name(), "voting");
    let mut factory = ServiceFactory;
    assert_eq!(factory.service_name(), "voting");
    assert_eq!(factory.make_service().service_id(), 13);
}

#[test]
fn records_are_encoded_field_by_field() {
    let (public, _) = keys(1);
    let root = hash(b"history");
    let candidate = Candidate::new(&public, "Jo", &root, 258);
    let mut expected = public.bytes.to_vec();
    expected.extend_from_slice(&root.bytes);
    expected.extend_from_slice(&[2, 1, 0, 0, 0, 0, 0, 0]);
    expected.extend_from_slice(b"Jo");
    assert_eq!(candidate.to_bytes(), expected);

    let elector = Elector::new(&public, "Den", true);
    let mut expected = public.bytes.to_vec();
    expected.push(1);
    expected.extend_from_slice(b"Den");
    assert_eq!(elector.to_bytes(), expected);
    assert_eq!(elector.replica().vote().to_bytes()[32], 0);
    assert_eq!(elector.replica(), elector);
    assert_eq!(candidate.replica(), candidate);
}

#[test]
fn add_voice_counts_one_more_and_takes_the_new_root() {
    let (public, _) = keys(1);
    let candidate = Candidate::new(&public, "John", &hash(b"old"), 41);
    let after = candidate.add_voice(&hash(b"new"));
    assert_eq!(after.voices(), 42);
    assert_eq!(after.history_hash(), &hash(b"new"));
    assert_eq!(after.name(), "John");
    assert_eq!(after.pub_key(), &public);
}

#[test]
fn elector_keeps_name_and_key_when_voting() {
    let (public, _) = keys(1);
    let after = Elector::new(&public, "Den", true).vote();
    assert_eq!(after.has_vote(), false);
    assert_eq!(after.name(), "Den");
    assert_eq!(after.pub_key(), &public);
    assert_eq!(after.vote().has_vote(), false);
}

#[test]
fn transactions_are_serialized_with_header_and_signature() {
    let (public, secret) = keys(1);
    let tx = CreateCandidate::new(&public, "John", &secret);
    let mut expected = vec![13u8, 0, 0];
    expected.extend_from_slice(&public.bytes);
    expected.extend_from_slice(b"John");
    let payload = expected.clone();
    expected.extend_from_slice(&tx.signature.bytes);
    assert_eq!(tx.raw(), expected);
    assert_eq!(tx.hash(), hash(&expected));
    assert_eq!(tx.signature, voting_service::crypto::sign(&payload, &secret));

    let tx = CreateElector::new(&public, "Den", &secret);
    assert_eq!(&tx.raw()[..3], &[13u8, 0, 1]);
    assert_eq!(tx.raw().len(), 3 + 32 + 3 + 64);
    assert_eq!(tx.hash(), hash(&tx.raw()));

    let (other, _) = keys(2);
    let tx = Vote::new(&public, &other, &secret);
    let mut expected = vec![13u8, 0, 2];
    expected.extend_from_slice(&public.bytes);
    expected.extend_from_slice(&other.bytes);
    expected.extend_from_slice(&tx.signature.bytes);
    assert_eq!(tx.raw(), expected);
    assert_eq!(tx.hash(), hash(&expected));
    assert_eq!(VotingTransactions::Vote(tx.replica()).hash(), tx.hash());
}

#[test]
fn signature_must_be_the_named_keys() {
    let (public, secret) = keys(1);
    let (other, other_secret) = keys(2);
    assert!(CreateCandidate::new(&public, "John", &secret).verify());
    assert!(!CreateCandidate::new(&public, "John", &other_secret).verify());
    assert!(CreateElector::new(&public, "Den", &secret).verify());
    assert!(!CreateElector::new(&public, "Den", &other_secret).verify());
    assert!(Vote::new(&public, &other, &secret).verify());
    // A vote is signed by the elector, not by the candidate.
    assert!(!Vote::new(&public, &other, &other_secret).verify());
    let renamed = CreateCandidate {
        pub_key: public,
        name: "Jon".to_owned(),
        signature: CreateCandidate::new(&public, "John", &secret).signature,
    };
    assert!(!renamed.verify());
}

#[test]
fn submission_gives_the_hash_or_refuses_the_signature() {
    let (public, secret) = keys(1);
    let (_, other_secret) = keys(2);
    let good = CreateCandidate::new(&public, "John", &secret);
    let receipt = PublicApi::post_candidate(VotingTransactions::CreateCandidate(good.replica())).unwrap();
    assert_eq!(receipt.tx_hash, good.hash());
    let forged = CreateElector::new(&public, "Den", &other_secret);
    assert_eq!(
        PublicApi::post_candidate(VotingTransactions::CreateElector(forged)),
        Err(ApiError::InvalidTransaction)
    );
    let unsigned = Vote { elector: public, candidate: public, signature: Signature::new([0u8; 64]) };
    assert_eq!(
        PublicApi::post_candidate(VotingTransactions::Vote(unsigned)),
        Err(ApiError::InvalidTransaction)
    );
}

#[test]
fn new_candidate_has_no_votes_and_a_history_of_its_registration() {
    let mut chain = chain();
    let tx = candidate_tx(1, "John");
    let tx_hash = tx.hash();
    assert_eq!(commit(&mut chain, vec![tx]), vec![Ok(())]);
    let candidate = chain.ledger.candidate(&keys(1).0).unwrap();
    assert_eq!(candidate.voices(), 0);
    let history = chain.ledger.vote_history(&keys(1).0);
    assert_eq!(history.to_vec(), vec![tx_hash]);
    let mut expected = ProofList::new();
    expected.push(tx_hash);
    assert_eq!(candidate.history_hash(), &expected.merkle_root());
    assert_eq!(candidate.history_hash(), &hash(&tx_hash.bytes));
    // The proof over the empty range, and the one over the whole history, check out.
    assert_eq!(history.get_range_proof(0, 0).validate(*candidate.history_hash(), 1), Ok(vec![]));
    assert_eq!(history.get_range_proof(1, 1).validate(*candidate.history_hash(), 1), Ok(vec![]));
    assert_eq!(
        history.get_range_proof(0, 1).validate(*candidate.history_hash(), 1),
        Ok(vec![(0, tx_hash)])
    );
}

#[test]
fn candidates_with_distinct_keys_all_start_with_no_votes() {
    let mut chain = chain();
    let block: Vec<VotingTransactions> = (1..=20).map(|n| candidate_tx(n, "same name")).collect();
    let outcomes = commit(&mut chain, block);
    assert!(outcomes.iter().all(|o| o.is_ok()));
    for n in 1..=20 {
        let candidate = chain.ledger.candidate(&keys(n).0).unwrap();
        assert_eq!(candidate.voices(), 0);
        let history = chain.ledger.vote_history(candidate.pub_key());
        assert_eq!(history.len(), 1);
        assert_eq!(history.get_range_proof(0, 0).validate(*candidate.history_hash(), 1), Ok(vec![]));
    }
}

#[test]
fn taken_keys_are_refused_and_nothing_changes() {
    let mut chain = chain();
    commit(&mut chain, vec![candidate_tx(1, "John"), elector_tx(2, "Den")]);
    let before = fingerprint(&chain.ledger);
    let outcomes = commit(&mut chain, vec![candidate_tx(1, "Johnny"), elector_tx(2, "Denny")]);
    assert_eq!(outcomes, vec![Err(Error::CandidateAlreadyExists), Err(Error::ElectorAlreadyExists)]);
    assert_eq!(fingerprint(&chain.ledger), before);
    assert_eq!(chain.ledger.candidate(&keys(1).0).unwrap().name(), "John");
    assert_eq!(chain.ledger.elector(&keys(2).0).unwrap().name(), "Den");
    assert!(chain.ledger.elector(&keys(2).0).unwrap().has_vote());
}

#[test]
fn one_key_can_name_a_candidate_and_an_elector() {
    let mut chain = chain();
    let outcomes = commit(&mut chain, vec![candidate_tx(1, "John"), elector_tx(1, "John"), vote_tx(1, 1)]);
    assert_eq!(outcomes, vec![Ok(()), Ok(()), Ok(())]);
    assert_eq!(chain.ledger.candidate(&keys(1).0).unwrap().voices(), 1);
}

#[test]
fn vote_of_an_unknown_elector_is_refused() {
    let mut chain = chain();
    commit(&mut chain, vec![candidate_tx(1, "John")]);
    let before = fingerprint(&chain.ledger);
    assert_eq!(commit(&mut chain, vec![vote_tx(2, 1)]), vec![Err(Error::ElectorNotFound)]);
    // Where both are unknown, the elector is missed first.
    assert_eq!(commit(&mut chain, vec![vote_tx(2, 3)]), vec![Err(Error::ElectorNotFound)]);
    assert_eq!(fingerprint(&chain.ledger), before);
    assert!(chain.ledger.elector(&keys(2).0).is_none());
}

#[test]
fn vote_for_an_unknown_candidate_is_refused() {
    let mut chain = chain();
    commit(&mut chain, vec![elector_tx(2, "Den")]);
    let before = chain.ledger.state_hash();
    assert_eq!(commit(&mut chain, vec![vote_tx(2, 1)]), vec![Err(Error::CandidateNotFound)]);
    assert_eq!(chain.ledger.state_hash(), before);
    assert!(chain.ledger.elector(&keys(2).0).unwrap().has_vote());
    assert_eq!(chain.ledger.vote_history(&keys(1).0).len(), 0);
    // The vote is still there to give.
    commit(&mut chain, vec![candidate_tx(1, "John")]);
    assert_eq!(commit(&mut chain, vec![vote_tx(2, 1)]), vec![Ok(())]);
}

#[test]
fn vote_counts_once_and_enters_the_candidates_history() {
    let mut chain = chain();
    let created = candidate_tx(1, "John");
    let created_hash = created.hash();
    commit(&mut chain, vec![created, candidate_tx(3, "Jane"), elector_tx(2, "Den")]);
    let root_before = *chain.ledger.candidate(&keys(1).0).unwrap().history_hash();
    let electors_before = chain.ledger.state_hash()[1];

    let vote = vote_tx(2, 1);
    let vote_hash = vote.hash();
    assert_eq!(commit(&mut chain, vec![vote]), vec![Ok(())]);

    let candidate = chain.ledger.candidate(&keys(1).0).unwrap();
    assert_eq!(candidate.voices(), 1);
    assert_ne!(candidate.history_hash(), &root_before);
    assert_eq!(chain.ledger.elector(&keys(2).0).unwrap().has_vote(), false);
    assert_ne!(chain.ledger.state_hash()[1], electors_before);
    // The history is the candidate's, not the elector's.
    let history = chain.ledger.vote_history(&keys(1).0);
    assert_eq!(history.to_vec(), vec![created_hash, vote_hash]);
    assert_eq!(candidate.history_hash(), &history.merkle_root());
    assert_eq!(chain.ledger.vote_history(&keys(2).0).len(), 0);
    assert_eq!(chain.ledger.candidate(&keys(3).0).unwrap().voices(), 0);

    let before = fingerprint(&chain.ledger);
    assert_eq!(commit(&mut chain, vec![vote_tx(2, 1)]), vec![Err(Error::AlreadyVoted)]);
    assert_eq!(commit(&mut chain, vec![vote_tx(2, 3)]), vec![Err(Error::AlreadyVoted)]);
    assert_eq!(fingerprint(&chain.ledger), before);
    // A spent vote is not missed before an unknown candidate is.
    assert_eq!(commit(&mut chain, vec![vote_tx(2, 9)]), vec![Err(Error::CandidateNotFound)]);
    assert_eq!(fingerprint(&chain.ledger), before);
}

#[test]
fn state_hash_is_the_candidates_root_then_the_electors_root() {
    let mut chain = chain();
    assert_eq!(chain.ledger.state_hash(), vec![crypto::Hash::zero(), crypto::Hash::zero()]);
    commit(&mut chain, vec![candidate_tx(1, "John")]);
    let after_candidate = chain.ledger.state_hash();
    assert_eq!(after_candidate.len(), 2);
    assert_eq!(after_candidate[0], chain.ledger.candidates().merkle_root());
    assert_ne!(after_candidate[0], crypto::Hash::zero());
    assert_eq!(after_candidate[1], crypto::Hash::zero());
    commit(&mut chain, vec![elector_tx(2, "Den")]);
    let after_elector = chain.ledger.state_hash();
    assert_eq!(after_elector[0], after_candidate[0]);
    assert_eq!(after_elector[1], chain.ledger.electorate().merkle_root());
    assert_ne!(after_elector[1], crypto::Hash::zero());
    assert_eq!(VotingService.state_hash(&chain.ledger), after_elector);
}

#[test]
fn state_hash_is_the_same_whatever_order_the_records_came_in() {
    let mut forward = chain();
    commit(&mut forward, vec![candidate_tx(1, "A"), candidate_tx(2, "B"), elector_tx(3, "X"), elector_tx(4, "Y")]);
    let mut backward = chain();
    commit(&mut backward, vec![elector_tx(4, "Y"), elector_tx(3, "X"), candidate_tx(2, "B"), candidate_tx(1, "A")]);
    assert_eq!(forward.ledger.state_hash(), backward.ledger.state_hash());
}

#[test]
fn lookups_report_what_is_missing() {
    let mut chain = chain();
    commit(&mut chain, vec![candidate_tx(1, "John"), elector_tx(2, "Den")]);
    assert_eq!(
        PublicApi::get_candidate(&chain.ledger, CandidateQuery { pub_key: keys(2).0 }),
        Err(ApiError::NotFound("Candidate not found".to_owned()))
    );
    assert_eq!(
        PublicApi::get_elector(&chain.ledger, ElectorQuery { pub_key: keys(1).0 }),
        Err(ApiError::NotFound("Elector not found".to_owned()))
    );
    assert_eq!(
        PublicApi::get_block_number(&chain.log, ElectorQuery { pub_key: keys(2).0 }),
        Err(ApiError::NotFound("Transaction not found".to_owned()))
    );
    assert_eq!(
        PublicApi::get_candidate(&chain.ledger, CandidateQuery { pub_key: keys(1).0 }).unwrap().name(),
        "John"
    );
    assert_eq!(PublicApi::get_elector(&chain.ledger, ElectorQuery { pub_key: keys(2).0 }).unwrap().name(), "Den");
}

#[test]
fn candidates_are_listed_in_key_order() {
    let mut chain = chain();
    assert_eq!(PublicApi::get_candidates(&chain.ledger).unwrap(), vec![]);
    commit(&mut chain, (1..=6).map(|n| candidate_tx(n, "c")).collect());
    let listed = PublicApi::get_candidates(&chain.ledger).unwrap();
    assert_eq!(listed.len(), 6);
    let mut sorted: Vec<[u8; 32]> = (1..=6).map(|n| keys(n).0.bytes).collect();
    sorted.sort();
    assert_eq!(listed.iter().map(|c| c.pub_key().bytes).collect::<Vec<_>>(), sorted);
}

#[test]
fn vote_block_is_the_block_of_the_first_vote() {
    let mut chain = chain();
    commit(&mut chain, vec![candidate_tx(1, "A"), elector_tx(2, "X"), elector_tx(3, "Y")]);
    commit(&mut chain, vec![]);
    commit(&mut chain, vec![vote_tx(3, 1)]);
    commit(&mut chain, vec![vote_tx(2, 1), vote_tx(3, 1)]);
    commit(&mut chain, vec![vote_tx(2, 1)]);
    assert_eq!(PublicApi::get_block_number(&chain.log, ElectorQuery { pub_key: keys(2).0 }), Ok(4));
    assert_eq!(PublicApi::get_block_number(&chain.log, ElectorQuery { pub_key: keys(3).0 }), Ok(3));
    // A candidate's key names no vote, though votes name it.
    assert!(PublicApi::get_block_number(&chain.log, ElectorQuery { pub_key: keys(1).0 }).is_err());
    assert!(PublicApi::get_block_number(&Vec::new(), ElectorQuery { pub_key: keys(2).0 }).is_err());
}

#[test]
fn three_votes_for_two_candidates() {
    let mut chain = chain();
    let (a, b, x, y, z) = (1, 2, 3, 4, 5);
    commit(&mut chain, vec![candidate_tx(a, "A"), candidate_tx(b, "B")]);
    commit(&mut chain, vec![elector_tx(x, "X"), elector_tx(y, "Y"), elector_tx(z, "Z")]);
    let outcomes = commit(&mut chain, vec![vote_tx(x, a), vote_tx(y, b), vote_tx(z, a)]);
    assert_eq!(outcomes, vec![Ok(()), Ok(()), Ok(())]);

    let results = PublicApi::results(&chain.ledger, &chain.log).unwrap();
    assert_eq!(results.candidates.len(), 2);
    let of_a = results.candidates.iter().find(|c| c.candidate.name() == "A").unwrap();
    let of_b = results.candidates.iter().find(|c| c.candidate.name() == "B").unwrap();
    assert_eq!(of_a.candidate.voices(), 2);
    assert_eq!(of_b.candidate.voices(), 1);
    assert_eq!(of_a.total_votes, 3);
    assert_eq!(of_b.total_votes, 3);
    let percent_a = percent(of_a.candidate.voices(), of_a.total_votes);
    let percent_b = percent(of_b.candidate.voices(), of_b.total_votes);
    assert_eq!((percent_a * 10.0).round() / 10.0, 66.7);
    assert_eq!((percent_b * 10.0).round() / 10.0, 33.3);
    assert!((percent_a + percent_b - 100.0).abs() < 1e-9);

    assert_eq!(PublicApi::get_block_number(&chain.log, ElectorQuery { pub_key: keys(x).0 }), Ok(3));
    assert_eq!(of_a.history.transactions.len(), 3);
    assert_eq!(of_a.history.transactions[0], candidate_tx(a, "A"));
    assert_eq!(of_a.history.transactions[1], vote_tx(x, a));
    assert_eq!(of_a.history.transactions[2], vote_tx(z, a));
    assert_eq!(of_b.history.transactions, vec![candidate_tx(b, "B"), vote_tx(y, b)]);
}

#[test]
fn results_without_votes_give_everyone_nothing() {
    let mut chain = chain();
    let empty = PublicApi::results(&chain.ledger, &chain.log).unwrap();
    assert_eq!(empty.candidates.len(), 0);
    assert_eq!(empty.state_hash, vec![crypto::Hash::zero(), crypto::Hash::zero()]);
    commit(&mut chain, vec![candidate_tx(1, "A"), candidate_tx(2, "B"), elector_tx(3, "X")]);
    let results = PublicApi::results(&chain.ledger, &chain.log).unwrap();
    assert_eq!(results.candidates.len(), 2);
    for info in results.candidates.iter() {
        assert_eq!(info.total_votes, 0);
        assert_eq!(info.candidate.voices(), 0);
        assert_eq!(percent(info.candidate.voices(), info.total_votes), 0.0);
    }
}

#[test]
fn results_can_be_checked_against_the_state_hash() {
    let mut chain = chain();
    commit(&mut chain, (1..=5).map(|n| candidate_tx(n, "c")).collect());
    commit(&mut chain, (10..=20).map(|n| elector_tx(n, "e")).collect());
    commit(&mut chain, (10..=20).map(|n| vote_tx(n, 1 + n % 3)).collect());
    let results = PublicApi::results(&chain.ledger, &chain.log).unwrap();
    assert_eq!(results.state_hash, chain.ledger.state_hash());
    let candidates_root = results.state_hash[0];
    let mut sum: u128 = 0;
    for info in results.candidates.iter() {
        let key = *info.candidate.pub_key();
        assert_eq!(info.proof.check(candidates_root, &key), Ok(Some(info.candidate.replica())));
        let len = info.candidate.voices() + 1;
        let opened = info.history.history_proof.validate(*info.candidate.history_hash(), len).unwrap();
        assert_eq!(opened.len() as u64, len);
        for (n, (position, tx_hash)) in opened.iter().enumerate() {
            assert_eq!(*position, n as u64);
            assert_eq!(*tx_hash, info.history.transactions[n].hash());
        }
        assert_eq!(info.total_votes, 11);
        sum += info.candidate.voices() as u128;
    }
    assert_eq!(sum, 11);
}

#[test]
fn altered_results_fail_the_check() {
    let mut chain = chain();
    commit(&mut chain, vec![candidate_tx(1, "A"), candidate_tx(2, "B"), elector_tx(3, "X"), vote_tx(3, 1)]);
    let results = PublicApi::results(&chain.ledger, &chain.log).unwrap();
    let root = results.state_hash[0];
    let info = results.candidates.iter().find(|c| c.candidate.name() == "A").unwrap();
    let key = *info.candidate.pub_key();
    let honest = info.candidate.replica();
    let altered = [
        Candidate::new(&key, "A", honest.history_hash(), 2),
        Candidate::new(&key, "a", honest.history_hash(), 1),
        Candidate::new(&key, "A", &hash(b"other"), 1),
        Candidate::new(&keys(2).0, "A", honest.history_hash(), 1),
    ];
    for candidate in altered {
        let proof = MapProof { path: info.proof.path.clone(), end: ProofEnd::Found(candidate) };
        assert_eq!(proof.check(root, &key), Err(MapProofError::UnmatchedRootHash));
    }
    // The honest record does not check out against another state.
    commit(&mut chain, vec![elector_tx(4, "Y"), vote_tx(4, 2)]);
    let later = chain.ledger.state_hash()[0];
    assert_eq!(info.proof.check(later, &key), Err(MapProofError::UnmatchedRootHash));
    // Nor does the history check out against a root other than the record's.
    assert!(info.history.history_proof.validate(hash(b"other"), 2).is_err());
}

#[test]
fn results_fail_where_the_log_lacks_a_transaction() {
    let mut chain = chain();
    commit(&mut chain, vec![candidate_tx(1, "A"), elector_tx(3, "X"), vote_tx(3, 1)]);
    chain.log.pop();
    assert_eq!(
        PublicApi::results(&chain.ledger, &chain.log).err(),
        Some(ApiError::NotFound("Transaction not found".to_owned()))
    );
}

#[test]
fn schema_hands_out_its_parts_for_change() {
    let mut ledger: Ledger = VoteSchema::new(LedgerState::new());
    let (public, _) = keys(1);
    ledger.candidate_mut().put(&public, Candidate::new(&public, "John", &crypto::Hash::zero(), 0));
    ledger.electorate_mut().put(&public, Elector::new(&public, "Den", true));
    ledger.vote_history_mut(&public).push(hash(b"one"));
    ledger.vote_history_mut(&public).push(hash(b"two"));
    assert_eq!(ledger.candidate(&public).unwrap().name(), "John");
    assert_eq!(ledger.elector(&public).unwrap().name(), "Den");
    assert_eq!(ledger.vote_history(&public).to_vec(), vec![hash(b"one"), hash(b"two")]);
    assert_eq!(ledger.vote_history(&keys(2).0).len(), 0);
    assert_eq!(ledger.candidates().len(), 1);
    assert_eq!(ledger.electorate().len(), 1);
}

#[test]
fn forged_transactions_never_reach_the_ledger() {
    let mut chain = chain();
    commit(&mut chain, vec![candidate_tx(1, "A"), elector_tx(2, "X")]);
    let before = fingerprint(&chain.ledger);
    let (elector, _) = keys(2);
    let (candidate, candidate_secret) = keys(1);
    let (stranger, stranger_secret) = keys(9);
    let forged = [
        VotingTransactions::Vote(Vote::new(&elector, &candidate, &candidate_secret)),
        VotingTransactions::CreateCandidate(CreateCandidate::new(&elector, "X", &stranger_secret)),
        VotingTransactions::CreateElector(CreateElector::new(&candidate, "A", &stranger_secret)),
        // Forged and, besides, bound to fail: the signature is what it is turned away for.
        VotingTransactions::Vote(Vote::new(&stranger, &candidate, &candidate_secret)),
        VotingTransactions::CreateCandidate(CreateCandidate::new(&candidate, "A", &stranger_secret)),
    ];
    for tx in forged.iter() {
        assert_eq!(tx.process(&mut chain.ledger), Status::Rejected);
        assert_eq!(fingerprint(&chain.ledger), before);
    }
    assert!(chain.ledger.elector(&elector).unwrap().has_vote());
}

#[test]
fn signed_transactions_are_applied_or_fail_with_their_code() {
    let mut ledger: Ledger = VoteSchema::new(LedgerState::new());
    assert_eq!(candidate_tx(1, "A").process(&mut ledger), Status::Success);
    assert_eq!(candidate_tx(1, "A").process(&mut ledger), Status::Failure(Error::CandidateAlreadyExists));
    assert_eq!(elector_tx(2, "X").process(&mut ledger), Status::Success);
    assert_eq!(elector_tx(2, "Y").process(&mut ledger), Status::Failure(Error::ElectorAlreadyExists));
    assert_eq!(vote_tx(3, 1).process(&mut ledger), Status::Failure(Error::ElectorNotFound));
    assert_eq!(vote_tx(2, 3).process(&mut ledger), Status::Failure(Error::CandidateNotFound));
    assert_eq!(vote_tx(2, 1).process(&mut ledger), Status::Success);
    assert_eq!(vote_tx(2, 1).process(&mut ledger), Status::Failure(Error::AlreadyVoted));
    assert_eq!(ledger.candidate(&keys(1).0).unwrap().voices(), 1);
}
