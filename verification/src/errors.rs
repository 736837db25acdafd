//! The ways in which a transaction can be turned down when it is applied.

use vstd::prelude::*;

verus! {

/// Why a transaction left the ledger unchanged.
#[derive(Clone, Copy, Debug, PartialEq, Eq, Structural)]
pub enum Error {
    /// A candidate with this key is already registered.
    CandidateAlreadyExists,
    /// An elector with this key is already registered.
    ElectorAlreadyExists,
    /// No elector with this key is registered.
    ElectorNotFound,
    /// No candidate with this key is registered.
    CandidateNotFound,
    /// The elector has spent the one vote.
    AlreadyVoted,
}

impl Error {
    /// The stable code of the error.
    pub open spec fn spec_code(&self) -> u8 {
        match self {
            Error::CandidateAlreadyExists => 0,
            Error::ElectorAlreadyExists => 1,
            Error::ElectorNotFound => 2,
            Error::CandidateNotFound => 3,
            Error::AlreadyVoted => 4,
        }
    }

    /// The description of the error.
    pub open spec fn spec_description(&self) -> Seq<char> {
        match self {
            Error::CandidateAlreadyExists => "Candidate already exists"@,
            Error::ElectorAlreadyExists => "Elector already exists"@,
            Error::ElectorNotFound => "Elector doesn't exist"@,
            Error::CandidateNotFound => "Candidate doesn't exist"@,
            Error::AlreadyVoted => "The voter has already voted."@,
        }
    }

    /// The stable code of the error.
    pub fn code(&self) -> (r: u8)
        ensures
            r == self.spec_code(),
    {
        match self {
            Error::CandidateAlreadyExists => 0,
            Error::ElectorAlreadyExists => 1,
            Error::ElectorNotFound => 2,
            Error::CandidateNotFound => 3,
            Error::AlreadyVoted => 4,
        }
    }

    /// The description of the error.
    pub fn description(&self) -> (r: String)
        ensures
            r@ == self.spec_description(),
    {
        match self {
            Error::CandidateAlreadyExists => "Candidate already exists".to_owned(),
            Error::ElectorAlreadyExists => "Elector already exists".to_owned(),
            Error::ElectorNotFound => "Elector doesn't exist".to_owned(),
            Error::CandidateNotFound => "Candidate doesn't exist".to_owned(),
            Error::AlreadyVoted => "The voter has already voted.".to_owned(),
        }
    }
}

} // verus!
