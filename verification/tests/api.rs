use voting_service::api::{
    ApiError, CandidateQuery, CommittedTransaction, ElectorQuery, PublicApi, VotingResults,
};
use voting_service::crypto;
use voting_service::crypto::{gen_keypair_from_seed, PublicKey, SecretKey};
use voting_service::errors::Error;
use voting_service::schema::{Candidate, Elector, LedgerState, VoteSchema};
use voting_service::transactions::{CreateCandidate, CreateElector, Vote, VotingTransactions};

#[test]
fn create_candidate() {
    let mut api = create_testkit();
    let (john_tx, _) = api.create_candidate("John");
    let (john_1_tx, _) = api.create_candidate("John_1");
    api.create_block();

    api.assert_tx_success(john_tx.hash());
    api.assert_tx_success(john_1_tx.hash());

    let john = api.get_candidate(*john_tx.pub_key()).unwrap();
    assert_eq!(john.pub_key(), john_tx.pub_key());
    assert_eq!(john.name(), john_tx.name());
    assert_eq!(john.voices(), 0);

    let john_1 = api.get_candidate(*john_1_tx.pub_key()).unwrap();
    assert_eq!(john_1.pub_key(), john_1_tx.pub_key());
    assert_eq!(john_1.name(), john_1_tx.name());
    assert_eq!(john_1.voices(), 0);

    let candidates = api.get_candidates();
    assert_eq!(2, candidates.len());
    assert_eq!(
        true,
        candidates
            .iter()
            .any(|c| c.pub_key() == john.pub_key() && c.name() == john.name() && john.voices() == 0)
    );
    assert_eq!(
        true,
        candidates
            .iter()
            .any(|c| c.pub_key() == john_1.pub_key() && c.name() == john_1.name() && john_1.voices() == 0)
    );
}

#[test]
fn create_elector() {
    let mut api = create_testkit();
    let (den_tx, _) = api.create_elector("Den");
    api.create_block();

    api.assert_tx_success(den_tx.hash());
    let den = api.get_elector(*den_tx.pub_key()).unwrap();

    assert_eq!(den.pub_key(), den_tx.pub_key());
    assert_eq!(den.name(), den_tx.name());
    assert_eq!(den.has_vote(), true);
}

#[test]
fn vote() {
    let mut api = create_testkit();
    let (den_1_tx, den_1_seq) = api.create_elector("Den lee");
    let (den_2_tx, den_2_seq) = api.create_elector("Den_2");
    let (john_1_tx, _) = api.create_candidate("John Forbes Nash");
    let (john_2_tx, _) = api.create_candidate("John_2");
    api.create_block();

    api.assert_tx_success(den_1_tx.hash());
    api.assert_tx_success(john_2_tx.hash());

    let vote_1 = api.vote(john_1_tx.pub_key(), den_1_tx.pub_key(), &den_1_seq);
    let vote_2 = api.vote(john_2_tx.pub_key(), den_2_tx.pub_key(), &den_2_seq);
    api.create_block();
    api.assert_tx_success(vote_1.hash());
    api.assert_tx_success(vote_2.hash());

    let vote_3 = api.vote(john_1_tx.pub_key(), den_2_tx.pub_key(), &den_2_seq);
    let vote_4 = api.vote(john_2_tx.pub_key(), den_1_tx.pub_key(), &den_1_seq);
    api.create_block();

    api.assert_tx_status(vote_3.hash(), "error", 4, "The voter has already voted.");
    api.assert_tx_status(vote_4.hash(), "error", 4, "The voter has already voted.");

    let john_1 = api.get_candidate(*john_1_tx.pub_key()).unwrap();
    let john_2 = api.get_candidate(*john_2_tx.pub_key()).unwrap();
    assert_eq!(john_1.voices(), 1);
    assert_eq!(john_2.voices(), 1);

    let den_1 = api.get_elector(*den_1_tx.pub_key()).unwrap();
    let den_2 = api.get_elector(*den_2_tx.pub_key()).unwrap();
    assert_eq!(den_1.has_vote(), false);
    assert_eq!(den_2.has_vote(), false);
}

#[test]
fn get_block_number() {
    let mut api = create_testkit();
    let (den_1_tx, den_1_seq) = api.create_elector("Den_1");
    api.create_block();
    let (john_1_tx, _) = api.create_candidate("John_1");
    api.create_block();
    api.vote(john_1_tx.pub_key(), den_1_tx.pub_key(), &den_1_seq);
    api.create_block();

    assert_eq!(Some(3), api.get_block_number(*den_1_tx.pub_key()));
}

#[test]
fn results() {
    let mut api = create_testkit();
    let (den_1_tx, den_1_seq) = api.create_elector("Den_1");
    let (den_2_tx, den_2_seq) = api.create_elector("Den_2");
    let (den_3_tx, den_3_seq) = api.create_elector("Den_3");

    let (john_1_tx, _) = api.create_candidate("John_1");
    let (john_2_tx, _) = api.create_candidate("John_2");
    api.create_block();
    api.vote(john_1_tx.pub_key(), den_1_tx.pub_key(), &den_1_seq);
    api.vote(john_2_tx.pub_key(), den_2_tx.pub_key(), &den_2_seq);
    api.vote(john_1_tx.pub_key(), den_3_tx.pub_key(), &den_3_seq);
    api.create_block();

    let res = api.get_results();
    assert_eq!(2, res.candidates.len());

    assert_eq!(
        true,
        res.candidates
            .iter()
            .any(|c| c.candidate.name() == "John_1" && c.candidate.voices() == 2)
    );
    assert_eq!(
        true,
        res.candidates
            .iter()
            .any(|c| c.candidate.name() == "John_2" && c.candidate.voices() == 1)
    );
}

struct Api {
    schema: VoteSchema<LedgerState>,
    pool: Vec<VotingTransactions>,
    log: Vec<CommittedTransaction>,
    statuses: Vec<(crypto::Hash, Result<(), Error>)>,
    height: u64,
}

impl Api {
    fn keypair_for(name: &str) -> (PublicKey, SecretKey) {
        let mut seed = [0u8; 32];
        for (i, b) in name.bytes().enumerate() {
            seed[i % 32] ^= b.wrapping_add(i as u8);
        }
        gen_keypair_from_seed(&seed)
    }

    fn post(&mut self, tx: VotingTransactions) -> crypto::Hash {
        let copy = tx.replica();
        let response = PublicApi::post_candidate(tx).unwrap();
        self.pool.push(copy);
        response.tx_hash
    }

    fn create_candidate(&mut self, name: &str) -> (CreateCandidate, SecretKey) {
        let (pubkey, key) = Api::keypair_for(name);
        let tx = CreateCandidate::new(&pubkey, name, &key);
        let tx_hash = self.post(VotingTransactions::CreateCandidate(tx.replica()));
        assert_eq!(tx_hash, tx.hash());
        (tx, key)
    }

    fn create_elector(&mut self, name: &str) -> (CreateElector, SecretKey) {
        let (pubkey, key) = Api::keypair_for(name);
        let tx = CreateElector::new(&pubkey, name, &key);
        let tx_hash = self.post(VotingTransactions::CreateElector(tx.replica()));
        assert_eq!(tx_hash, tx.hash());
        (tx, key)
    }

    fn vote(
        &mut self,
        candidate_pub_key: &PublicKey,
        elector_pub_key: &PublicKey,
        elector_sec_key: &SecretKey,
    ) -> Vote {
        let tx = Vote::new(elector_pub_key, candidate_pub_key, elector_sec_key);
        let tx_hash = self.post(VotingTransactions::Vote(tx.replica()));
        assert_eq!(tx_hash, tx.hash());
        tx
    }

    fn create_block(&mut self) {
        self.height += 1;
        let pool: Vec<VotingTransactions> = self.pool.drain(..).collect();
        for tx in pool {
            let status = tx.execute(&mut self.schema);
            self.statuses.push((tx.hash(), status));
            self.log.push(CommittedTransaction { transaction: tx, height: self.height });
        }
    }

    fn assert_tx_status(&self, tx_hash: crypto::Hash, kind: &str, code: u8, description: &str) {
        let status = self
            .statuses
            .iter()
            .find(|s| s.0 == tx_hash)
            .expect("Unknown transaction");
        match status.1 {
            Ok(()) => assert_eq!(kind, "success"),
            Err(e) => {
                assert_eq!(kind, "error");
                assert_eq!(e.code(), code);
                assert_eq!(e.description(), description);
            }
        }
    }

    fn assert_tx_success(&self, tx_hash: crypto::Hash) {
        self.assert_tx_status(tx_hash, "success", 0, "");
    }

    fn get_elector(&self, pub_key: PublicKey) -> Option<Elector> {
        PublicApi::get_elector(&self.schema, ElectorQuery { pub_key }).ok()
    }

    fn get_block_number(&self, pub_key: PublicKey) -> Option<u64> {
        PublicApi::get_block_number(&self.log, ElectorQuery { pub_key }).ok()
    }

    fn get_candidate(&self, pub_key: PublicKey) -> Option<Candidate> {
        PublicApi::get_candidate(&self.schema, CandidateQuery { pub_key }).ok()
    }

    fn get_candidates(&self) -> Vec<Candidate> {
        PublicApi::get_candidates(&self.schema).unwrap()
    }

    fn get_results(&self) -> VotingResults {
        let results: Result<VotingResults, ApiError> = PublicApi::results(&self.schema, &self.log);
        results.unwrap()
    }
}

fn create_testkit() -> Api {
    Api {
        schema: VoteSchema::new(LedgerState::new()),
        pool: Vec::new(),
        log: Vec::new(),
        statuses: Vec::new(),
        height: 0,
    }
}
