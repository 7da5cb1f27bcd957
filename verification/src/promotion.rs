//! Records whose sender the chain could not resolve, and their promotion once it can.

use vstd::prelude::*;
use crate::model::{after_import, clashes, holds_hash, position_of_hash, Options};
use crate::primitives::{Address, H256};
use crate::verified::TransactionView;
use crate::verify::{verification, Resolution};

verus! {

/// The hash and the address of each record of `s` without a sender, in their order.
pub open spec fn unresolved_of(s: Seq<TransactionView>) -> Seq<(H256, Address)>
    decreases s.len(),
{
    if s.len() == 0 {
        Seq::empty()
    } else if s.last().is_fully_verified() {
        unresolved_of(s.drop_last())
    } else {
        unresolved_of(s.drop_last()).push((s.last().hash, s.last().original.signed))
    }
}

/// What the record with the content hash `hash` becomes when its sender is resolved by
/// `resolution`; `None` where the pool holds no such record without a sender, or the
/// resolution gives it none.
pub open spec fn resolved_form(
    s: Seq<TransactionView>,
    hash: H256,
    resolution: Resolution,
) -> Option<TransactionView> {
    if holds_hash(s, hash) {
        let record = s[position_of_hash(s, hash)];
        match verification(record.original, resolution, hash) {
            Ok(resolved) => if record.sender.is_none() && resolved.sender.is_some() {
                Some(resolved)
            } else {
                None
            },
            Err(_) => None,
        }
    } else {
        None
    }
}

/// Whether the record with the content hash `hash` is promoted under `resolution`: it has a
/// resolved form, and the sender has no record that clashes with it.
pub open spec fn can_promote(s: Seq<TransactionView>, hash: H256, resolution: Resolution) -> bool {
    match resolved_form(s, hash, resolution) {
        Some(resolved) => forall|i: int| !clashes(s, resolved, i),
        None => false,
    }
}

/// The records after the attempt to promote the record with the content hash `hash`: where
/// it is promoted, it leaves its place and is imported in its resolved form.
pub open spec fn after_promotion(
    s: Seq<TransactionView>,
    hash: H256,
    resolution: Resolution,
    options: Options,
) -> Seq<TransactionView> {
    if can_promote(s, hash, resolution) {
        after_import(
            s.remove(position_of_hash(s, hash)),
            resolved_form(s, hash, resolution).unwrap(),
            options,
        )
    } else {
        s
    }
}

/// The records after the attempts to promote, one after the other.
pub open spec fn after_retries(
    s: Seq<TransactionView>,
    resolutions: Seq<(H256, Resolution)>,
    options: Options,
) -> Seq<TransactionView>
    decreases resolutions.len(),
{
    if resolutions.len() == 0 {
        s
    } else {
        after_promotion(
            after_retries(s, resolutions.drop_last(), options),
            resolutions.last().0,
            resolutions.last().1,
            options,
        )
    }
}

/// How many of the attempts promote a record.
pub open spec fn promotions(
    s: Seq<TransactionView>,
    resolutions: Seq<(H256, Resolution)>,
    options: Options,
) -> nat
    decreases resolutions.len(),
{
    if resolutions.len() == 0 {
        0
    } else {
        promotions(s, resolutions.drop_last(), options) + if can_promote(
            after_retries(s, resolutions.drop_last(), options),
            resolutions.last().0,
            resolutions.last().1,
        ) {
            1nat
        } else {
            0nat
        }
    }
}

} // verus!
