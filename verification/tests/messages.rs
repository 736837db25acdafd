use voting_service::crypto::{gen_keypair_from_seed, Signature};
use voting_service::service::VotingService;
use voting_service::transactions::{
    CreateCandidate, CreateElector, ParseError, Vote, VotingTransactions, CREATE_CANDIDATE_ID,
    CREATE_ELECTOR_ID, VOTE_ID,
};

fn samples() -> Vec<VotingTransactions> {
    let (public, secret) = gen_keypair_from_seed(&[1u8; 32]);
    let (other, _) = gen_keypair_from_seed(&[2u8; 32]);
    vec![
        VotingTransactions::CreateCandidate(CreateCandidate::new(&public, "John Forbes Nash", &secret)),
        VotingTransactions::CreateCandidate(CreateCandidate::new(&public, "", &secret)),
        VotingTransactions::CreateElector(CreateElector::new(&public, "Дэн 李", &secret)),
        VotingTransactions::Vote(Vote::new(&public, &other, &secret)),
    ]
}

#[test]
fn message_numbers_are_stable() {
    assert_eq!(CREATE_CANDIDATE_ID, 0);
    assert_eq!(CREATE_ELECTOR_ID, 1);
    assert_eq!(VOTE_ID, 2);
}

#[test]
fn serialized_transactions_are_read_back() {
    for tx in samples() {
        let raw = tx.raw();
        let read = VotingTransactions::tx_from_raw(&raw).unwrap();
        assert_eq!(read, tx);
        assert_eq!(read.raw(), raw);
        assert_eq!(read.hash(), tx.hash());
        assert!(read.verify());
        assert_eq!(VotingService.tx_from_raw(&raw), Ok(tx));
    }
}

#[test]
fn bytes_without_room_for_header_and_signature_are_too_short() {
    assert_eq!(VotingTransactions::tx_from_raw(&[]), Err(ParseError::TooShort));
    assert_eq!(VotingTransactions::tx_from_raw(&[13, 0, 2]), Err(ParseError::TooShort));
    assert_eq!(VotingTransactions::tx_from_raw(&[13u8; 66]), Err(ParseError::TooShort));
}

#[test]
fn another_services_message_is_refused() {
    for tx in samples() {
        let mut raw = tx.raw();
        raw[0] = 14;
        assert_eq!(VotingTransactions::tx_from_raw(&raw), Err(ParseError::WrongService));
        let mut raw = tx.raw();
        raw[1] = 1;
        assert_eq!(VotingTransactions::tx_from_raw(&raw), Err(ParseError::WrongService));
    }
}

#[test]
fn unknown_message_number_is_refused() {
    for tx in samples() {
        let mut raw = tx.raw();
        raw[2] = 3;
        assert_eq!(VotingTransactions::tx_from_raw(&raw), Err(ParseError::UnknownMessage));
        raw[2] = 255;
        assert_eq!(VotingTransactions::tx_from_raw(&raw), Err(ParseError::UnknownMessage));
    }
}

#[test]
fn vote_of_the_wrong_length_is_refused() {
    let vote = samples().pop().unwrap().raw();
    assert_eq!(vote.len(), 131);
    let mut longer = vote.clone();
    longer.push(0);
    assert_eq!(VotingTransactions::tx_from_raw(&longer), Err(ParseError::WrongLength));
    assert_eq!(VotingTransactions::tx_from_raw(&vote[..130]), Err(ParseError::WrongLength));
}

#[test]
fn registration_without_room_for_the_key_is_refused() {
    let mut raw = vec![13u8, 0, 0];
    raw.extend_from_slice(&[7u8; 31 + 64]);
    assert_eq!(VotingTransactions::tx_from_raw(&raw), Err(ParseError::WrongLength));
    raw[2] = 1;
    assert_eq!(VotingTransactions::tx_from_raw(&raw), Err(ParseError::WrongLength));
    raw.push(7);
    match VotingTransactions::tx_from_raw(&raw) {
        Ok(VotingTransactions::CreateElector(tx)) => {
            assert_eq!(tx.name(), "");
            assert_eq!(tx.pub_key().bytes, [7u8; 32]);
            assert_eq!(tx.signature, Signature::new([7u8; 64]));
        }
        other => panic!("an elector with an empty name, not {:?}", other),
    }
}

#[test]
fn name_that_is_not_utf8_is_refused() {
    let (public, secret) = gen_keypair_from_seed(&[1u8; 32]);
    let tx = CreateCandidate::new(&public, "John", &secret);
    let mut raw = tx.raw();
    raw[35] = 0xff;
    assert_eq!(VotingTransactions::tx_from_raw(&raw), Err(ParseError::InvalidName));
    let mut raw = tx.raw();
    raw[38] = 0xc3;
    assert_eq!(VotingTransactions::tx_from_raw(&raw), Err(ParseError::InvalidName));
}

#[test]
fn read_transaction_with_a_forged_signature_does_not_verify() {
    for tx in samples() {
        let mut raw = tx.raw();
        let last = raw.len() - 1;
        raw[last] ^= 1;
        let read = VotingTransactions::tx_from_raw(&raw).unwrap();
        assert!(!read.verify());
        assert_ne!(read.hash(), tx.hash());
    }
}
