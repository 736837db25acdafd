//! The identity of the voting service on a node.

use crate::crypto;
use crate::schema::{LedgerState, VoteSchema};
use crate::transactions::{spec_parse_error, ParseError, VotingTransactions};
use vstd::prelude::*;

verus! {

/// The number under which the service is known to a node.
pub const VOTING_SERVICE: u16 = 13;

/// The name under which the service is known to a node.
pub const SERVICE_NAME: &'static str = "voting";

/// The voting service.
#[derive(Clone, Copy, Debug)]
pub struct VotingService;

impl VotingService {
    /// The number of the service.
    pub fn service_id(&self) -> (r: u16)
        ensures
            r == VOTING_SERVICE,
    {
        VOTING_SERVICE
    }

    /// The name of the service.
    pub fn service_name(&self) -> (r: &'static str)
        ensures
            r@ == SERVICE_NAME@,
    {
        SERVICE_NAME
    }

    /// The hashes by which the service's state enters a block's commitment:
    /// the root of the candidates, then the root of the electors.
    pub fn state_hash(&self, snapshot: &VoteSchema<LedgerState>) -> (r: Vec<crypto::Hash>)
        requires
            snapshot.wf(),
        ensures
            r@ == snapshot.spec_state_hash(),
    {
        snapshot.state_hash()
    }

    /// Reads a transaction of the service from its serialized signed form.
    pub fn tx_from_raw(&self, raw: &[u8]) -> (r: Result<VotingTransactions, ParseError>)
        ensures
            r is Ok <==> spec_parse_error(raw@) is None,
            r is Ok ==> r->Ok_0.spec_raw() == raw@,
            r is Err ==> spec_parse_error(raw@) == Some(r->Err_0),
    {
        VotingTransactions::tx_from_raw(raw)
    }
}

} // verus!
