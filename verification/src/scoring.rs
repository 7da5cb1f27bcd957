//! Ordering, replacement and scores of the records of one sender.

use core::cmp::Ordering;
use vstd::prelude::*;
use crate::verified::{TransactionView, VerifiedTransaction};

verus! {

/// What to do with a new record that meets an old one of the same sender.
#[derive(Clone, Copy, Debug, PartialEq, Eq, Structural)]
pub enum Choice {
    /// The new record is refused.
    RejectNew,
    /// The old record leaves in favour of the new one.
    ReplaceOld,
    /// Both stay.
    InsertNew,
}

/// Why scores are computed anew.
#[derive(Clone, Copy, Debug, PartialEq, Eq)]
pub enum Change {
    /// A record was inserted at the position.
    InsertedAt(usize),
    /// The record at the position was removed.
    RemovedAt(usize),
    /// The record at the position was replaced.
    ReplacedAt(usize),
    /// So many records were culled.
    Culled(usize),
    /// Something outside the pool asked for it.
    Event,
}

/// Scoring of pooled transactions.
///
/// Records of one sender are ordered by nonce. There are no fees: every fully verified record
/// scores the same, and one whose sender is still unresolved scores below them.
#[derive(Clone, Copy, Debug)]
pub struct Scoring;

/// The score of a record: 1 once its sender is resolved, 0 before.
pub open spec fn score_of(tx: TransactionView) -> u64 {
    if tx.is_fully_verified() {
        1
    } else {
        0
    }
}

/// The replacement choice between `old`, which is in the pool, and `new`: a fully verified
/// record keeps its nonce to itself; everything else may stand side by side.
pub open spec fn choice_between(old: TransactionView, new: TransactionView) -> Choice {
    if old.is_fully_verified() && old.index() == new.index() {
        Choice::RejectNew
    } else {
        Choice::InsertNew
    }
}

/// Whether `old` makes way when the pool needs room: only a record without a sender does.
pub open spec fn gives_way(old: TransactionView) -> bool {
    !old.is_fully_verified()
}

impl Scoring {
    /// Orders two records of one sender by nonce.
    pub fn compare(&self, old: &VerifiedTransaction, other: &VerifiedTransaction) -> (order:
        Ordering)
        ensures
            match order {
                Ordering::Less => old@.index() < other@.index(),
                Ordering::Equal => old@.index() == other@.index(),
                Ordering::Greater => old@.index() > other@.index(),
            },
    {
        let a: u32 = old.index();
        let b: u32 = other.index();
        if a < b {
            Ordering::Less
        } else if a == b {
            Ordering::Equal
        } else {
            Ordering::Greater
        }
    }

    /// Decides between a record of the pool and a new one that would stand at its place.
    pub fn choice(&self, old: &VerifiedTransaction, new: &VerifiedTransaction) -> (choice: Choice)
        ensures
            choice == choice_between(old@, new@),
    {
        if old.is_fully_verified() && old.index() == new.index() {
            return Choice::RejectNew;
        }
        // Both are kept, even with equal nonces: among records that cannot be adjudicated yet
        // at most one will turn out to be valid.
        Choice::InsertNew
    }

    /// Writes the score of each record of `xts` to the same position of `scores`.
    pub fn update_scores(
        &self,
        xts: &Vec<VerifiedTransaction>,
        scores: &mut Vec<u64>,
        change: Change,
    )
        requires
            xts.len() <= old(scores).len(),
        ensures
            final(scores).len() == old(scores).len(),
            forall|i: int| 0 <= i < xts.len() ==> final(scores)[i] == score_of(#[trigger] xts[i]@),
            forall|i: int|
                xts.len() <= i < old(scores).len() ==> final(scores)[i] == old(scores)[i],
    {
        let mut i: usize = 0;
        while i < xts.len()
            invariant
                i <= xts.len() <= scores.len(),
                scores.len() == old(scores).len(),
                forall|k: int| 0 <= k < i ==> scores[k] == score_of(#[trigger] xts[k]@),
                forall|k: int| xts.len() <= k < scores.len() ==> scores[k] == old(scores)[k],
            decreases xts.len() - i,
        {
            if !xts[i].is_fully_verified() {
                scores.set(i, 0);
            } else {
                scores.set(i, 1);
            }
            i += 1;
        }
    }

    /// Whether `old` is to be pushed out of a full pool to make room for `new`.
    pub fn should_replace(&self, old: &VerifiedTransaction, new: &VerifiedTransaction) -> (replace:
        bool)
        ensures
            replace == gives_way(old@),
    {
        !old.is_fully_verified()
    }
}

} // verus!
