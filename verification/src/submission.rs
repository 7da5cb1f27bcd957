//! Extrinsics offered to the pool, and what becomes of the pool and of the caller's answer.

use vstd::prelude::*;
use crate::error::Error;
use crate::extrinsic::{UncheckedExtrinsic, UncheckedExtrinsicView};
use crate::hashing::blake2_256;
use crate::model::{after_import, import, lemma_import_keeps_valid, valid, Import, Options};
use crate::primitives::H256;
use crate::verified::TransactionView;
use crate::verify::{verification, Resolution};

verus! {

/// One extrinsic offered to the pool, with what the chain said about its sender.
#[derive(Debug)]
pub struct Submission {
    /// The decoded extrinsic; `None` where the bytes did not decode.
    pub extrinsic: Option<UncheckedExtrinsic>,
    /// The resolution of the sender's address. It is not read where the bytes did not decode.
    pub resolution: Resolution,
}

/// Whether `result` is what a caller is told of the outcome `outcome` of importing a record
/// with the content hash `hash`.
pub open spec fn reports(result: Result<H256, Error>, hash: H256, outcome: Import) -> bool {
    match outcome {
        Import::Imported(_) => result matches Ok(imported) && imported == hash,
        Import::AlreadyImported(held) => result matches Err(Error::AlreadyImported(named))
            && named == held,
        Import::CapacityExceeded => result matches Err(Error::CapacityExceeded),
    }
}

/// The records after the extrinsic `uxt`, with the resolution `resolution` and the content
/// hash `hash`, was offered to the pool `s`.
pub open spec fn after_submission(
    s: Seq<TransactionView>,
    uxt: UncheckedExtrinsicView,
    resolution: Resolution,
    hash: H256,
    options: Options,
) -> Seq<TransactionView> {
    match verification(uxt, resolution, hash) {
        Ok(record) => after_import(s, record, options),
        Err(_) => s,
    }
}

/// Whether `result` is what a caller is told when `uxt` is offered to the pool `s`.
pub open spec fn answers(
    result: Result<H256, Error>,
    s: Seq<TransactionView>,
    uxt: UncheckedExtrinsicView,
    resolution: Resolution,
    hash: H256,
    options: Options,
) -> bool {
    match verification(uxt, resolution, hash) {
        Ok(record) => reports(result, hash, import(s, record, options)),
        Err(None) => result matches Err(Error::IsInherent(inherent)) && inherent@ == uxt,
        Err(Some(reason)) => result matches Err(Error::VerificationFailed(given)) && given
            == reason,
    }
}

/// The records after `item` was offered to the pool `s`: an extrinsic that decoded is
/// verified under the BLAKE2-256 digest of its canonical encoding and imported.
pub open spec fn after_item(s: Seq<TransactionView>, item: Submission, options: Options) -> Seq<
    TransactionView,
> {
    match item.extrinsic {
        Some(uxt) => after_submission(
            s,
            uxt@,
            item.resolution,
            blake2_256(uxt@.encoded),
            options,
        ),
        None => s,
    }
}

/// The records after the items were offered to the pool `s`, one after the other.
pub open spec fn after_batch(s: Seq<TransactionView>, items: Seq<Submission>, options: Options) -> Seq<
    TransactionView,
>
    decreases items.len(),
{
    if items.len() == 0 {
        s
    } else {
        after_item(after_batch(s, items.drop_last(), options), items.last(), options)
    }
}

/// However many extrinsics are submitted, the pool keeps its rules: no two records share a
/// hash, no two fully verified records of one sender share a nonce, and the bounds hold.
pub proof fn lemma_batch_keeps_valid(
    s: Seq<TransactionView>,
    items: Seq<Submission>,
    options: Options,
)
    requires
        valid(s, options),
    ensures
        valid(after_batch(s, items, options), options),
    decreases items.len(),
{
    if items.len() > 0 {
        lemma_batch_keeps_valid(s, items.drop_last(), options);
        let before = after_batch(s, items.drop_last(), options);
        if let Some(uxt) = items.last().extrinsic {
            if let Ok(record) = verification(
                uxt@,
                items.last().resolution,
                blake2_256(uxt@.encoded),
            ) {
                lemma_import_keeps_valid(before, record, options);
            }
        }
    }
}

/// Whether `result` is what a caller is told when `item` is offered to the pool `s`.
pub open spec fn item_answered(
    result: Result<H256, Error>,
    s: Seq<TransactionView>,
    item: Submission,
    options: Options,
) -> bool {
    match item.extrinsic {
        Some(uxt) => answers(
            result,
            s,
            uxt@,
            item.resolution,
            blake2_256(uxt@.encoded),
            options,
        ),
        None => result matches Err(Error::InvalidExtrinsicFormat),
    }
}

} // verus!
