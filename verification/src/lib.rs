//! A candidate/elector voting ledger over authenticated indexes.

use vstd::prelude::*;

pub mod api;
pub mod crypto;
pub mod errors;
pub mod invariants;
pub mod keys;
pub mod proof_list;
pub mod proof_map;
pub mod schema;
pub mod service;
pub mod store;
pub mod transactions;

verus! {

/// Builds the voting service for a node.
#[derive(Clone, Copy, Debug)]
pub struct ServiceFactory;

impl ServiceFactory {
    /// The name of the service that the factory builds.
    pub fn service_name(&self) -> (r: &'static str)
        ensures
            r@ == service::SERVICE_NAME@,
    {
        service::SERVICE_NAME
    }

    /// The service.
    pub fn make_service(&mut self) -> (r: service::VotingService) {
        service::VotingService
    }
}

} // verus!
