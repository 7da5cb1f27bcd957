//! Turning a decoded extrinsic into a pool record.

use vstd::prelude::*;
use crate::error::{Error, Reason};
use crate::extrinsic::{UncheckedExtrinsic, UncheckedExtrinsicView};
use crate::hashing::{blake2_256, blake2_256_digest};
use crate::primitives::{AccountId, CheckedBlockId, H256};
use crate::verified::{TransactionView, VerifiedTransaction};

verus! {

/// What the chain and the signature check said about the sender of one extrinsic.
#[derive(Clone, Copy, Debug, PartialEq, Eq)]
pub enum Resolution {
    /// The address resolves to `id`; `signature_valid` tells whether the signature fits that
    /// account and the payload.
    Account { id: AccountId, signature_valid: bool },
    /// The chain knows no account under the address at this block.
    NoAccount,
    /// The lookup itself failed.
    ApiError,
}

/// Verifies extrinsics against the chain's view at one block.
#[derive(Clone, Copy, Debug)]
pub struct Verifier {
    /// The block whose state the resolutions were read from.
    pub at_block: CheckedBlockId,
}

/// What verification owes for an extrinsic with the given resolution and content hash:
/// the record, or the reason for refusing it. `None` as the reason stands for an inherent.
pub open spec fn verification(
    uxt: UncheckedExtrinsicView,
    resolution: Resolution,
    hash: H256,
) -> Result<TransactionView, Option<Reason>> {
    if uxt.signature.is_none() {
        Err(None)
    } else {
        match resolution {
            Resolution::ApiError => Err(Some(Reason::ApiError)),
            Resolution::NoAccount => Ok(TransactionView { original: uxt, sender: None, hash }),
            Resolution::Account { id, signature_valid } => if signature_valid {
                Ok(TransactionView { original: uxt, sender: Some(id), hash })
            } else {
                Err(Some(Reason::BadSignature))
            },
        }
    }
}

/// Whether `result` is what [`verification`] owes for `uxt`.
pub open spec fn is_verification_of(
    result: Result<VerifiedTransaction, Error>,
    uxt: UncheckedExtrinsicView,
    resolution: Resolution,
    hash: H256,
) -> bool {
    match verification(uxt, resolution, hash) {
        Ok(record) => result matches Ok(tx) && tx@ == record,
        Err(None) => result matches Err(Error::IsInherent(x)) && x@ == uxt,
        Err(Some(reason)) => result matches Err(Error::VerificationFailed(r)) && r == reason,
    }
}

impl Verifier {
    /// A verifier for the state at `at_block`.
    pub fn new(at_block: CheckedBlockId) -> (verifier: Self)
        ensures
            verifier.at_block == at_block,
    {
        Verifier { at_block }
    }

    /// Verifies `uxt`, whose content hash is already known to be `hash`.
    ///
    /// An inherent is refused. A failed lookup or a signature that does not fit is refused. An
    /// address that the chain cannot resolve yet is no failure: the record is kept without a
    /// sender.
    pub fn verify_hashed(&self, uxt: UncheckedExtrinsic, resolution: Resolution, hash: H256) -> (result:
        Result<VerifiedTransaction, Error>)
        ensures
            is_verification_of(result, uxt@, resolution, hash),
    {
        if !uxt.is_signed() {
            return Err(Error::IsInherent(uxt));
        }
        match resolution {
            Resolution::ApiError => Err(Error::VerificationFailed(Reason::ApiError)),
            Resolution::NoAccount => Ok(VerifiedTransaction::new(uxt, None, hash)),
            Resolution::Account { id, signature_valid } => {
                if signature_valid {
                    Ok(VerifiedTransaction::new(uxt, Some(id), hash))
                } else {
                    Err(Error::VerificationFailed(Reason::BadSignature))
                }
            },
        }
    }

    /// Verifies `uxt`: hashes its canonical encoding and builds the record as
    /// [`Verifier::verify_hashed`] does.
    pub fn verify_transaction(&self, uxt: UncheckedExtrinsic, resolution: Resolution) -> (result:
        Result<VerifiedTransaction, Error>)
        ensures
            is_verification_of(result, uxt@, resolution, blake2_256(uxt@.encoded)),
    {
        let hash = blake2_256_digest(uxt.encoded.as_slice());
        self.verify_hashed(uxt, resolution, hash)
    }
}

} // verus!
