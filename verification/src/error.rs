//! What can go wrong when an extrinsic is offered to the pool.

use vstd::prelude::*;
use crate::extrinsic::UncheckedExtrinsic;
use crate::primitives::H256;

verus! {

/// Why an extrinsic could not be checked.
#[derive(Clone, Copy, Debug, PartialEq, Eq)]
pub enum Reason {
    /// The chain could not answer the lookup of the sender's address.
    ApiError,
    /// The signature does not fit the sender and the payload.
    BadSignature,
}

impl Reason {
    /// The text of this reason.
    pub open spec fn text(self) -> Seq<char> {
        match self {
            Reason::ApiError => "API error."@,
            Reason::BadSignature => "bad signature in extrinsic"@,
        }
    }

    /// A short description for logs.
    pub fn description(&self) -> (text: &'static str)
        ensures
            text@ == self.text(),
    {
        match self {
            Reason::ApiError => "API error.",
            Reason::BadSignature => "bad signature in extrinsic",
        }
    }
}

/// Why the pool did not take an extrinsic.
#[derive(Debug)]
pub enum Error {
    /// It carries no signature: inherents are made by block production and never pooled.
    IsInherent(UncheckedExtrinsic),
    /// The bytes did not decode to an extrinsic.
    InvalidExtrinsicFormat,
    /// The sender could not be checked.
    VerificationFailed(Reason),
    /// The pool already holds this extrinsic, or one of the same sender and nonce. Carries the
    /// hash of the record that is in the pool, so that a caller can still name it to its peers.
    AlreadyImported(H256),
    /// The pool is full and holds nothing that may be evicted to make room.
    CapacityExceeded,
}

} // verus!
