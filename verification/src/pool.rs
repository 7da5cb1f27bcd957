//! The pool engine: verified records under a count and a byte bound.

use vstd::prelude::*;
use crate::error::Error;
use crate::extrinsic::UncheckedExtrinsic;
use crate::hashing::blake2_256;
use crate::model::{
    after_import, clashes, fits, holds_hash, import, is_slot, is_worst, leaves_before,
    lemma_clash_at_slot, lemma_import_keeps_valid, lemma_remove_keeps_valid,
    lemma_room_can_be_made, lemma_sender_runs, lemma_sender_runs_bound, lemma_slot_unique,
    lemma_total_size_covers, lemma_total_size_insert, lemma_total_size_prefix,
    lemma_total_size_remove, lemma_verified_bounds, lemma_worst, make_room, position_of_hash,
    sender_runs, senders_of, slot, total_size, valid, verified_count, verified_size, without,
    worst, Options,
};
use crate::primitives::{same_bytes, same_sender, Address, CheckedBlockId, H256};
use crate::promotion::{after_promotion, after_retries, can_promote, promotions, unresolved_of};
use crate::propagation::{broadcast, hashes_of, names, peers_of, Propagations};
use crate::ready::{Readiness, Ready};
use crate::scoring::{score_of, Change, Choice, Scoring};
use crate::submission::{
    after_batch, after_submission, answers, item_answered, reports, Submission,
};
use crate::sweep::sweep;
use crate::verified::{TransactionView, VerifiedTransaction};
use crate::verify::{Resolution, Verifier};

verus! {

/// The mathematical values of a sequence of records.
pub open spec fn views(records: Seq<VerifiedTransaction>) -> Seq<TransactionView> {
    Seq::new(records.len(), |i: int| records[i]@)
}

/// Light pool status. It is cheap to compute.
#[derive(Clone, Copy, Debug, PartialEq, Eq)]
pub struct LightStatus {
    /// Bytes charged against the byte bound.
    pub mem_usage: usize,
    /// Number of records in the pool.
    pub transaction_count: usize,
    /// Number of senders with a record in the pool; the records without a sender count as
    /// one more.
    pub senders: usize,
}

/// Full pool status: how a pass would judge the records, and what they weigh.
#[derive(Clone, Copy, Debug, PartialEq, Eq)]
pub struct Status {
    /// Bytes charged against the byte bound.
    pub mem_usage: usize,
    /// Number of stale records.
    pub stalled: usize,
    /// Number of ready records.
    pub pending: usize,
    /// Number of records that are not ready yet.
    pub future: usize,
}

/// The pending-transaction pool.
///
/// It holds verified records, those of one sender side by side in ascending nonce order, and
/// never more than its options allow.
#[derive(Debug)]
pub struct TransactionPool {
    options: Options,
    scoring: Scoring,
    records: Vec<VerifiedTransaction>,
    scores: Vec<u64>,
    mem_usage: usize,
    propagations: Propagations,
}

impl View for TransactionPool {
    type V = Seq<TransactionView>;

    /// The records of the pool, in the order in which a pass meets them.
    closed spec fn view(&self) -> Seq<TransactionView> {
        views(self.records@)
    }
}

impl TransactionPool {
    /// The bounds that the pool was made with.
    pub closed spec fn limits(&self) -> Options {
        self.options
    }

    /// For each transaction, by its hash, the peers it is known to have been sent to.
    pub closed spec fn propagation(&self) -> Map<H256, Seq<Seq<char>>> {
        self.propagations@
    }

    /// The bookkeeping agrees with the records: one score for each record, and the byte count
    /// is the sum of the encoded sizes.
    pub closed spec fn consistent(&self) -> bool {
        &&& self.propagations.wf()
        &&& self.scores@.len() == self.records@.len()
        &&& forall|i: int|
            0 <= i < self.records@.len() ==> self.scores@[i] == score_of(#[trigger] self.records@[i]@)
        &&& self.mem_usage == total_size(self@)
    }

    /// The pool is well formed: its bookkeeping is right and its records keep the pool's rules.
    pub open spec fn wf(&self) -> bool {
        self.consistent() && valid(self@, self.limits())
    }

    /// Create a new, empty transaction pool.
    pub fn new(options: Options) -> (pool: Self)
        ensures
            pool.wf(),
            pool@ == Seq::<TransactionView>::empty(),
            pool.limits() == options,
            pool.propagation() == Map::<H256, Seq<Seq<char>>>::empty(),
    {
        let pool = TransactionPool {
            options,
            scoring: Scoring,
            records: Vec::new(),
            scores: Vec::new(),
            mem_usage: 0,
            propagations: Propagations::new(),
        };
        assert(pool@ =~= Seq::<TransactionView>::empty());
        pool
    }

    /// The position of the record with the content hash `hash`, if the pool holds one.
    fn position_of(&self, hash: &H256) -> (found: Option<usize>)
        ensures
            match found {
                Some(at) => at < self@.len() && self@[at as int].hash == *hash,
                None => !holds_hash(self@, *hash),
            },
    {
        let mut i: usize = 0;
        while i < self.records.len()
            invariant
                i <= self.records.len(),
                forall|k: int| 0 <= k < i ==> self@[k].hash != *hash,
            decreases self.records.len() - i,
        {
            if same_bytes(self.records[i].hash(), hash) {
                return Some(i);
            }
            i += 1;
        }
        None
    }

    /// The place of a new record among the records of the pool.
    fn slot_of(&self, tx: &VerifiedTransaction) -> (at: usize)
        requires
            self.wf(),
        ensures
            is_slot(self@, tx@, at as int),
            at as int == slot(self@, tx@),
    {
        let sender = tx.sender();
        let index: u32 = tx.index();
        let mut behind: Option<usize> = None;
        let mut i: usize = 0;
        while i < self.records.len()
            invariant
                self.wf(),
                i <= self.records.len(),
                sender == tx@.sender,
                index == tx@.index(),
                forall|k: int| 0 <= k < i && self@[k].sender == sender ==> self@[k].index() < index,
                match behind {
                    Some(b) => 0 < b <= i && self@[b - 1].sender == sender && forall|k: int|
                        b <= k < i ==> self@[k].sender != sender,
                    None => forall|k: int| 0 <= k < i ==> self@[k].sender != sender,
                },
            decreases self.records.len() - i,
        {
            if same_sender(&self.records[i].sender(), &sender) {
                if self.records[i].index() >= index {
                    proof {
                        // the records of one sender are in ascending order: from here on
                        // none has a lower nonce
                        assert forall|k: int|
                            i <= k < self@.len() && self@[k].sender == sender implies self@[k].index()
                            >= index by {
                            if i < k {
                                assert(self@[i as int].index() <= self@[k].index());
                            }
                        }
                        assert(is_slot(self@, tx@, i as int));
                        lemma_slot_unique(self@, tx@, i as int);
                    }
                    return i;
                }
                behind = Some(i + 1);
            }
            i += 1;
        }
        let at = match behind {
            Some(b) => b,
            None => self.records.len(),
        };
        proof {
            if behind.is_some() {
                // the sender's records stand side by side and end right before `at`
                assert forall|k: int| at <= k < self@.len() implies self@[k].sender != sender by {}
            }
            assert(is_slot(self@, tx@, at as int));
            lemma_slot_unique(self@, tx@, at as int);
        }
        at
    }

    /// The position of the record that leaves first when room is needed.
    fn worst_index(&self) -> (at: usize)
        requires
            self.consistent(),
            self@.len() > 0,
        ensures
            is_worst(self@, at as int),
            at as int == worst(self@),
    {
        let mut at: usize = 0;
        let mut i: usize = 1;
        while i < self.records.len()
            invariant
                self.consistent(),
                0 <= at < i <= self.records.len(),
                forall|k: int| 0 <= k < i ==> leaves_before(self@, at as int, k),
            decreases self.records.len() - i,
        {
            let lower = self.scores[i] < self.scores[at] || (self.scores[i] == self.scores[at]
                && self.records[i].encoded_size() < self.records[at].encoded_size());
            assert(self.scores@[i as int] == score_of(self.records@[i as int]@));
            assert(self.scores@[at as int] == score_of(self.records@[at as int]@));
            if lower {
                proof {
                    assert forall|k: int| 0 <= k < i + 1 implies leaves_before(
                        self@,
                        i as int,
                        k,
                    ) by {
                        if k < i {
                            assert(leaves_before(self@, at as int, k));
                        }
                    }
                }
                at = i;
            }
            i += 1;
        }
        proof {
            assert(is_worst(self@, at as int));
            lemma_worst(self@);
        }
        at
    }

    /// Takes the record at `at` out of the pool.
    fn take_out(&mut self, at: usize) -> (gone: VerifiedTransaction)
        requires
            old(self).wf(),
            at < old(self)@.len(),
        ensures
            final(self).wf(),
            final(self).limits() == old(self).limits(),
            final(self).propagation() == old(self).propagation(),
            final(self)@ == old(self)@.remove(at as int),
            gone@ == old(self)@[at as int],
    {
        proof {
            lemma_total_size_remove(self@, at as int);
            lemma_remove_keeps_valid(self@, self.limits(), at as int);
            lemma_total_size_covers(self@, at as int);
        }
        let gone = self.records.remove(at);
        self.scores.remove(at);
        self.mem_usage = self.mem_usage - gone.encoded_size();
        self.scoring.update_scores(&self.records, &mut self.scores, Change::RemovedAt(at));
        assert(self@ =~= old(self)@.remove(at as int));
        gone
    }

    /// Whether `tx` can be added without breaking a bound.
    fn has_room_for(&self, tx: &VerifiedTransaction) -> (room: bool)
        requires
            self.consistent(),
        ensures
            room == fits(self@, tx@, self.limits()),
    {
        let size: usize = tx.encoded_size();
        self.records.len() < self.options.max_count && size <= self.options.max_bytes
            && self.mem_usage <= self.options.max_bytes - size
    }

    /// Whether room can be made for `tx`: whether it fits beside the records that do not give
    /// way to it.
    fn room_can_be_made(&self, tx: &VerifiedTransaction) -> (can: bool)
        requires
            self.wf(),
        ensures
            can == make_room(self@, tx@, self.limits()).is_some(),
    {
        let mut count: usize = 0;
        let mut bytes: usize = 0;
        let mut i: usize = 0;
        while i < self.records.len()
            invariant
                self.wf(),
                i <= self.records.len(),
                count == verified_count(self@.take(i as int)),
                bytes == verified_size(self@.take(i as int)),
            decreases self.records.len() - i,
        {
            proof {
                assert(self@.take(i + 1).drop_last() =~= self@.take(i as int));
                lemma_verified_bounds(self@.take(i + 1));
                lemma_total_size_prefix(self@, i + 1);
            }
            if !self.scoring.should_replace(&self.records[i], tx) {
                count = count + 1;
                bytes = bytes + self.records[i].encoded_size();
            }
            i += 1;
        }
        proof {
            assert(self@.take(i as int) =~= self@);
            lemma_room_can_be_made(self@, tx@, self.limits());
        }
        let size: usize = tx.encoded_size();
        count < self.options.max_count && size <= self.options.max_bytes && bytes
            <= self.options.max_bytes - size
    }

    /// Puts a verified record into the pool, as [`import`] says.
    ///
    /// A record that the pool holds already, or that clashes with one of its sender, is
    /// refused with the hash of the record in the pool. Where the record does not fit, records
    /// without a sender are evicted, smallest first; where that cannot make room, the record
    /// is refused and the pool stays as it was.
    pub fn import(&mut self, tx: VerifiedTransaction) -> (result: Result<H256, Error>)
        requires
            old(self).wf(),
        ensures
            final(self).wf(),
            final(self).limits() == old(self).limits(),
            final(self).propagation() == old(self).propagation(),
            reports(result, tx@.hash, import(old(self)@, tx@, old(self).limits())),
            final(self)@ == after_import(old(self)@, tx@, old(self).limits()),
    {
        let hash: H256 = *tx.hash();
        if self.position_of(&hash).is_some() {
            return Err(Error::AlreadyImported(hash));
        }
        let at = self.slot_of(&tx);
        proof {
            lemma_clash_at_slot(self@, tx@, at as int);
        }
        if at < self.records.len() && same_sender(&self.records[at].sender(), &tx.sender()) {
            match self.scoring.choice(&self.records[at], &tx) {
                Choice::RejectNew => {
                    assert(clashes(self@, tx@, at as int));
                    return Err(Error::AlreadyImported(*self.records[at].hash()));
                },
                _ => {},
            }
        }
        assert(forall|i: int| !clashes(self@, tx@, i));
        if !self.room_can_be_made(&tx) {
            return Err(Error::CapacityExceeded);
        }
        while !self.has_room_for(&tx)
            invariant
                self.wf(),
                self.limits() == old(self).limits(),
                self.propagation() == old(self).propagation(),
                make_room(self@, tx@, self.limits()) == make_room(
                    old(self)@,
                    tx@,
                    old(self).limits(),
                ),
                make_room(self@, tx@, self.limits()).is_some(),
            decreases self@.len(),
        {
            let worst = self.worst_index();
            self.take_out(worst);
        }
        proof {
            lemma_import_keeps_valid(old(self)@, tx@, old(self).limits());
        }
        let at = self.slot_of(&tx);
        let ghost rest = self@;
        proof {
            lemma_total_size_insert(rest, at as int, tx@);
        }
        self.mem_usage = self.mem_usage + tx.encoded_size();
        self.records.insert(at, tx);
        self.scores.insert(at, 0);
        self.scoring.update_scores(&self.records, &mut self.scores, Change::InsertedAt(at));
        assert(self@ =~= rest.insert(at as int, tx@));
        Ok(hash)
    }

    /// Verifies `uxt` against the state at `at` and imports the record.
    ///
    /// An extrinsic that does not pass verification leaves the pool as it was. One that does
    /// is imported as [`TransactionPool::import`] says, with the BLAKE2-256 digest of its
    /// canonical encoding as content hash.
    pub fn import_unchecked_extrinsic(
        &mut self,
        at: CheckedBlockId,
        uxt: UncheckedExtrinsic,
        resolution: Resolution,
    ) -> (result: Result<H256, Error>)
        requires
            old(self).wf(),
        ensures
            final(self).wf(),
            final(self).limits() == old(self).limits(),
            final(self).propagation() == old(self).propagation(),
            answers(
                result,
                old(self)@,
                uxt@,
                resolution,
                blake2_256(uxt@.encoded),
                old(self).limits(),
            ),
            final(self)@ == after_submission(
                old(self)@,
                uxt@,
                resolution,
                blake2_256(uxt@.encoded),
                old(self).limits(),
            ),
    {
        match Verifier::new(at).verify_transaction(uxt, resolution) {
            Ok(tx) => self.import(tx),
            Err(refused) => Err(refused),
        }
    }

    /// Offers each extrinsic of `xts` to the pool, in their order, and reports on each by
    /// itself: one that is refused changes nothing and does not stop the others.
    pub fn submit(&mut self, verifier: &Verifier, xts: &Vec<Submission>) -> (results: Vec<
        Result<H256, Error>,
    >)
        requires
            old(self).wf(),
        ensures
            final(self).wf(),
            final(self).limits() == old(self).limits(),
            final(self).propagation() == old(self).propagation(),
            results.len() == xts.len(),
            final(self)@ == after_batch(old(self)@, xts@, old(self).limits()),
            forall|i: int|
                0 <= i < xts.len() ==> item_answered(
                    #[trigger] results[i],
                    after_batch(old(self)@, xts@.take(i), old(self).limits()),
                    xts[i],
                    old(self).limits(),
                ),
    {
        let ghost start = self@;
        let ghost limits = self.limits();
        let mut results: Vec<Result<H256, Error>> = Vec::new();
        let mut i: usize = 0;
        assert(xts@.take(0) =~= Seq::<Submission>::empty());
        while i < xts.len()
            invariant
                self.wf(),
                self.limits() == limits,
                self.propagation() == old(self).propagation(),
                i <= xts.len(),
                results.len() == i,
                self@ == after_batch(start, xts@.take(i as int), limits),
                forall|k: int|
                    0 <= k < i ==> item_answered(
                        #[trigger] results[k],
                        after_batch(start, xts@.take(k), limits),
                        xts[k],
                        limits,
                    ),
            decreases xts.len() - i,
        {
            let ghost told = results@;
            let result = match &xts[i].extrinsic {
                Some(uxt) => match verifier.verify_transaction(uxt.clone(), xts[i].resolution) {
                    Ok(tx) => self.import(tx),
                    Err(refused) => Err(refused),
                },
                None => Err(Error::InvalidExtrinsicFormat),
            };
            results.push(result);
            proof {
                assert(xts@.take(i + 1).drop_last() =~= xts@.take(i as int));
                assert(xts@.take(i + 1).last() == xts[i as int]);
                assert forall|k: int| 0 <= k < i + 1 implies item_answered(
                    #[trigger] results[k],
                    after_batch(start, xts@.take(k), limits),
                    xts[k],
                    limits,
                ) by {
                    if k < i {
                        assert(results[k] == told[k]);
                    }
                }
            }
            i += 1;
        }
        proof {
            assert(xts@.take(i as int) =~= xts@);
        }
        results
    }

    /// Removes the record with the content hash `hash` and hands it back. A pool that holds
    /// no such record stays as it is.
    pub fn remove(&mut self, hash: &H256) -> (removed: Option<VerifiedTransaction>)
        requires
            old(self).wf(),
        ensures
            final(self).wf(),
            final(self).limits() == old(self).limits(),
            final(self).propagation() == old(self).propagation(),
            final(self)@ == without(old(self)@, *hash),
            match removed {
                Some(tx) => holds_hash(old(self)@, *hash) && tx@ == old(self)@[position_of_hash(
                    old(self)@,
                    *hash,
                )],
                None => !holds_hash(old(self)@, *hash),
            },
    {
        match self.position_of(hash) {
            Some(at) => {
                proof {
                    // no other record has this hash
                    let chosen = position_of_hash(self@, *hash);
                    assert(self@[chosen].hash == self@[at as int].hash);
                    assert(chosen == at);
                }
                Some(self.take_out(at))
            },
            None => None,
        }
    }

    /// One pass over the pool with the evaluator `ready`: stale records leave the pool, and
    /// copies of the ready ones are handed back in the order in which they were met.
    pub fn cull_pending(&mut self, ready: &mut Ready) -> (pending: Vec<VerifiedTransaction>)
        requires
            old(self).wf(),
        ensures
            final(self).wf(),
            final(self).limits() == old(self).limits(),
            final(self).propagation() == old(self).propagation(),
            final(self)@ == sweep(old(self)@, old(ready).known(), old(ready).chain()).kept,
            views(pending@) == sweep(old(self)@, old(ready).known(), old(ready).chain()).ready,
            final(ready).known() == sweep(
                old(self)@,
                old(ready).known(),
                old(ready).chain(),
            ).known,
            final(ready).chain() == old(ready).chain(),
            final(ready).at_block() == old(ready).at_block(),
    {
        let ghost start = self@;
        let ghost known = ready.known();
        let ghost chain = ready.chain();
        let ghost mut done: int = 0;
        let mut pending: Vec<VerifiedTransaction> = Vec::new();
        let mut i: usize = 0;
        assert(self@ =~= sweep(start.take(0), known, chain).kept + start.skip(0));
        assert(views(pending@) =~= sweep(start.take(0), known, chain).ready);
        while i < self.records.len()
            invariant
                self.wf(),
                self.limits() == old(self).limits(),
                self.propagation() == old(self).propagation(),
                0 <= done <= start.len(),
                i <= self.records.len(),
                self@ == sweep(start.take(done), known, chain).kept + start.skip(done),
                i == sweep(start.take(done), known, chain).kept.len(),
                views(pending@) == sweep(start.take(done), known, chain).ready,
                ready.known() == sweep(start.take(done), known, chain).known,
                ready.chain() == chain,
                ready.at_block() == old(ready).at_block(),
            decreases self.records.len() - i,
        {
            let ghost before = sweep(start.take(done), known, chain);
            let ghost here = self@;
            proof {
                assert(here.len() == before.kept.len() + start.skip(done).len());
                assert(done < start.len());
                assert(here[i as int] == start.skip(done)[0]);
                assert(start.take(done + 1).drop_last() =~= start.take(done));
                assert(start.take(done + 1).last() == start[done]);
            }
            let verdict = ready.is_ready(&self.records[i]);
            match verdict {
                Readiness::Stale => {
                    self.take_out(i);
                    assert(self@ =~= before.kept + start.skip(done + 1));
                },
                Readiness::Ready => {
                    let copy = self.records[i].clone();
                    pending.push(copy);
                    i += 1;
                    assert(self@ =~= before.kept.push(start[done]) + start.skip(done + 1));
                    assert(views(pending@) =~= before.ready.push(start[done]));
                },
                Readiness::Future => {
                    i += 1;
                    assert(self@ =~= before.kept.push(start[done]) + start.skip(done + 1));
                },
            }
            proof {
                done = done + 1;
            }
        }
        proof {
            assert(done == start.len());
            assert(start.take(done) =~= start);
            assert(self@ =~= sweep(start, known, chain).kept);
        }
        pending
    }

    /// Culls the stale records and hands the ready ones to `f`: one pass over the pool with
    /// the evaluator `ready`. Records of one sender are met in ascending nonce order. Returns
    /// what `f` returns.
    pub fn cull_and_get_pending<T, F: FnOnce(Vec<VerifiedTransaction>) -> T>(
        &mut self,
        ready: Ready,
        f: F,
    ) -> (out: T)
        requires
            old(self).wf(),
            forall|pending: Vec<VerifiedTransaction>| call_requires(f, (pending,)),
        ensures
            final(self).wf(),
            final(self).limits() == old(self).limits(),
            final(self).propagation() == old(self).propagation(),
            final(self)@ == sweep(old(self)@, ready.known(), ready.chain()).kept,
            exists|pending: Vec<VerifiedTransaction>|
                views(pending@) == sweep(old(self)@, ready.known(), ready.chain()).ready
                    && call_ensures(f, (pending,), out),
    {
        let mut ready = ready;
        let pending = self.cull_pending(&mut ready);
        f(pending)
    }

    /// Computes the full status of the pool: how many records a pass with `ready` would find
    /// stale, ready and not ready yet. The pool stays as it is.
    pub fn status(&self, ready: Ready) -> (status: Status)
        requires
            self.wf(),
        ensures
            status.mem_usage == total_size(self@),
            status.stalled == self@.len() - sweep(self@, ready.known(), ready.chain()).kept.len(),
            status.pending == sweep(self@, ready.known(), ready.chain()).ready.len(),
            status.future == sweep(self@, ready.known(), ready.chain()).kept.len() - sweep(
                self@,
                ready.known(),
                ready.chain(),
            ).ready.len(),
    {
        let mut ready = ready;
        let ghost known = ready.known();
        let ghost chain = ready.chain();
        let mut status = Status { mem_usage: self.mem_usage, stalled: 0, pending: 0, future: 0 };
        let mut i: usize = 0;
        while i < self.records.len()
            invariant
                i <= self.records.len(),
                status.mem_usage == total_size(self@),
                status.stalled == i - sweep(self@.take(i as int), known, chain).kept.len(),
                status.pending == sweep(self@.take(i as int), known, chain).ready.len(),
                status.future == sweep(self@.take(i as int), known, chain).kept.len() - sweep(
                    self@.take(i as int),
                    known,
                    chain,
                ).ready.len(),
                status.stalled + status.pending + status.future == i,
                ready.known() == sweep(self@.take(i as int), known, chain).known,
                ready.chain() == chain,
            decreases self.records.len() - i,
        {
            proof {
                assert(self@.take(i + 1).drop_last() =~= self@.take(i as int));
                assert(self@.take(i + 1).last() == self@[i as int]);
            }
            match ready.is_ready(&self.records[i]) {
                Readiness::Stale => {
                    status.stalled = status.stalled + 1;
                },
                Readiness::Ready => {
                    status.pending = status.pending + 1;
                },
                Readiness::Future => {
                    status.future = status.future + 1;
                },
            }
            i += 1;
        }
        assert(self@.take(i as int) =~= self@);
        status
    }

    /// Returns light status of the pool.
    pub fn light_status(&self) -> (status: LightStatus)
        requires
            self.wf(),
        ensures
            status.mem_usage == total_size(self@),
            status.transaction_count == self@.len(),
            status.senders == senders_of(self@).len(),
    {
        let mut senders: usize = 0;
        let mut i: usize = 0;
        while i < self.records.len()
            invariant
                i <= self.records.len(),
                senders == sender_runs(self@.take(i as int)),
            decreases self.records.len() - i,
        {
            proof {
                assert(self@.take(i + 1).drop_last() =~= self@.take(i as int));
                lemma_sender_runs_bound(self@.take(i as int));
            }
            if i == 0 || !same_sender(&self.records[i - 1].sender(), &self.records[i].sender()) {
                senders = senders + 1;
            }
            i += 1;
        }
        proof {
            assert(self@.take(i as int) =~= self@);
            lemma_sender_runs(self@);
        }
        LightStatus { mem_usage: self.mem_usage, transaction_count: self.records.len(), senders }
    }

    /// Copies of all records, in the order of the pool.
    pub fn all(&self) -> (list: Vec<VerifiedTransaction>)
        ensures
            views(list@) == self@,
    {
        let mut list: Vec<VerifiedTransaction> = Vec::new();
        let mut i: usize = 0;
        while i < self.records.len()
            invariant
                i <= self.records.len(),
                list.len() == i,
                forall|k: int| 0 <= k < i ==> list@[k]@ == self.records@[k]@,
            decreases self.records.len() - i,
        {
            let copy = self.records[i].clone();
            list.push(copy);
            i += 1;
        }
        assert(views(list@) =~= self@);
        list
    }

    /// The records whose sender is not resolved yet: the hash of each and the address that
    /// the chain is to be asked for, in the order of the pool.
    pub fn unresolved(&self) -> (list: Vec<(H256, Address)>)
        ensures
            list@ == unresolved_of(self@),
    {
        let mut list: Vec<(H256, Address)> = Vec::new();
        let mut i: usize = 0;
        while i < self.records.len()
            invariant
                i <= self.records.len(),
                list@ == unresolved_of(self@.take(i as int)),
            decreases self.records.len() - i,
        {
            proof {
                assert(self@.take(i + 1).drop_last() =~= self@.take(i as int));
            }
            if !self.records[i].is_fully_verified() {
                let hash: H256 = *self.records[i].hash();
                list.push((hash, self.records[i].as_transaction().signed));
            }
            i += 1;
        }
        assert(self@.take(i as int) =~= self@);
        list
    }

    /// Verifies the record with the content hash `hash` again, with a resolution read at the
    /// verifier's block, and promotes it where its sender is resolved now. Tells whether it
    /// was promoted.
    ///
    /// The record moves to the records of its sender. It stays as it is where the pool holds
    /// no record of that hash without a sender, where the verification does not resolve the
    /// sender, or where the sender already has a record of that nonce.
    pub fn promote(&mut self, verifier: &Verifier, hash: &H256, resolution: Resolution) -> (done:
        bool)
        requires
            old(self).wf(),
        ensures
            final(self).wf(),
            final(self).limits() == old(self).limits(),
            final(self).propagation() == old(self).propagation(),
            done == can_promote(old(self)@, *hash, resolution),
            final(self)@ == after_promotion(old(self)@, *hash, resolution, old(self).limits()),
    {
        let at = match self.position_of(hash) {
            Some(at) => at,
            None => {
                return false;
            },
        };
        proof {
            // no other record has this hash
            let chosen = position_of_hash(self@, *hash);
            assert(self@[chosen].hash == self@[at as int].hash);
            assert(chosen == at);
        }
        if self.records[at].is_fully_verified() {
            return false;
        }
        let original = self.records[at].as_transaction().clone();
        let tx = match verifier.verify_hashed(original, resolution, *hash) {
            Ok(tx) => tx,
            Err(_) => {
                return false;
            },
        };
        if !tx.is_fully_verified() {
            return false;
        }
        let place = self.slot_of(&tx);
        proof {
            lemma_clash_at_slot(self@, tx@, place as int);
        }
        if place < self.records.len() && same_sender(&self.records[place].sender(), &tx.sender()) {
            match self.scoring.choice(&self.records[place], &tx) {
                Choice::RejectNew => {
                    assert(clashes(self@, tx@, place as int));
                    return false;
                },
                _ => {},
            }
        }
        let ghost before = self@;
        let ghost rest = before.remove(at as int);
        proof {
            assert(forall|i: int| !clashes(before, tx@, i));
            lemma_total_size_remove(before, at as int);
            lemma_total_size_covers(before, at as int);
            assert forall|i: int| 0 <= i < rest.len() implies rest[i] == before[if i < at {
                i
            } else {
                i + 1
            }] by {}
            assert(!holds_hash(rest, *hash));
            assert forall|i: int| !clashes(rest, tx@, i) by {
                if clashes(rest, tx@, i) {
                    assert(clashes(before, tx@, if i < at { i } else { i + 1 }));
                }
            }
            assert(fits(rest, tx@, self.limits()));
        }
        self.take_out(at);
        self.import(tx).is_ok()
    }

    /// Verifies again the records whose sender was not resolved: each pair of `resolutions`
    /// names a record by its hash and gives the resolution of its address at the verifier's
    /// block. The records are promoted one after the other, as [`TransactionPool::promote`]
    /// does. Returns how many were promoted.
    pub fn retry_verification(
        &mut self,
        verifier: &Verifier,
        resolutions: &Vec<(H256, Resolution)>,
    ) -> (promoted: usize)
        requires
            old(self).wf(),
        ensures
            final(self).wf(),
            final(self).limits() == old(self).limits(),
            final(self).propagation() == old(self).propagation(),
            final(self)@ == after_retries(old(self)@, resolutions@, old(self).limits()),
            promoted == promotions(old(self)@, resolutions@, old(self).limits()),
    {
        let ghost start = self@;
        let ghost limits = self.limits();
        let mut promoted: usize = 0;
        let mut i: usize = 0;
        assert(resolutions@.take(0) =~= Seq::<(H256, Resolution)>::empty());
        while i < resolutions.len()
            invariant
                self.wf(),
                self.limits() == limits,
                self.propagation() == old(self).propagation(),
                i <= resolutions.len(),
                self@ == after_retries(start, resolutions@.take(i as int), limits),
                promoted == promotions(start, resolutions@.take(i as int), limits),
                promoted <= i,
            decreases resolutions.len() - i,
        {
            proof {
                assert(resolutions@.take(i + 1).drop_last() =~= resolutions@.take(i as int));
            }
            let hash: H256 = resolutions[i].0;
            if self.promote(verifier, &hash, resolutions[i].1) {
                promoted = promoted + 1;
            }
            i += 1;
        }
        assert(resolutions@.take(i as int) =~= resolutions@);
        promoted
    }

    /// Records which transactions have been sent to which peers.
    ///
    /// Each pair of `propagations` names a transaction by its hash and the peers it was sent
    /// to. What is known of transactions that have left the pool is dropped first; then the
    /// peers are added for each transaction that is in the pool, and pairs that name another
    /// are passed over. The records of the pool stay as they are.
    pub fn on_broadcasted(&mut self, propagations: &Vec<(H256, Vec<String>)>)
        requires
            old(self).wf(),
        ensures
            final(self).wf(),
            final(self).limits() == old(self).limits(),
            final(self)@ == old(self)@,
            final(self).propagation() == broadcast(
                old(self).propagation().restrict(hashes_of(old(self)@)),
                old(self)@,
                propagations@,
            ),
    {
        let ghost known = self.propagation();
        let ghost held = hashes_of(self@);
        let mut i: usize = 0;
        while i < self.propagations.len()
            invariant
                self.wf(),
                self.limits() == old(self).limits(),
                self@ == old(self)@,
                held == hashes_of(self@),
                i <= self.propagations.count(),
                forall|hash: H256| #[trigger]
                    self.propagation().contains_key(hash) ==> known.contains_key(hash)
                        && self.propagation()[hash] == known[hash],
                forall|hash: H256|
                    known.contains_key(hash) && held.contains(hash)
                        ==> #[trigger] self.propagation().contains_key(hash),
                forall|k: int| 0 <= k < i ==> held.contains(#[trigger] self.propagations.key(k)),
            decreases self.propagations.count() - i,
        {
            let ghost before = self.propagation();
            let hash: H256 = self.propagations.hash_at(i);
            if self.position_of(&hash).is_some() {
                i += 1;
            } else {
                self.propagations.forget_at(i);
                proof {
                    assert(self.propagation() == before.remove(hash));
                    assert(!held.contains(hash));
                    assert forall|other: H256| #[trigger]
                        self.propagation().contains_key(other) implies known.contains_key(other)
                        && self.propagation()[other] == known[other] by {
                        assert(before.contains_key(other));
                    }
                    assert forall|other: H256|
                        known.contains_key(other) && held.contains(
                            other,
                        ) implies #[trigger] self.propagation().contains_key(other) by {
                        assert(before.contains_key(other));
                    }
                }
            }
        }
        proof {
            self.propagations.lemma_entries();
            assert(self.propagation() =~= known.restrict(held));
        }
        let ghost pruned = self.propagation();
        let mut j: usize = 0;
        assert(propagations@.take(0) =~= Seq::<(H256, Vec<String>)>::empty());
        while j < propagations.len()
            invariant
                self.wf(),
                self.limits() == old(self).limits(),
                self@ == old(self)@,
                j <= propagations.len(),
                self.propagation() == broadcast(pruned, self@, propagations@.take(j as int)),
            decreases propagations.len() - j,
        {
            proof {
                assert(propagations@.take(j + 1).drop_last() =~= propagations@.take(j as int));
            }
            let hash: H256 = propagations[j].0;
            if self.position_of(&hash).is_some() {
                self.propagations.add(hash, &propagations[j].1);
            }
            j += 1;
        }
        assert(propagations@.take(j as int) =~= propagations@);
    }

    /// The peers that the transaction `hash` is known to have been sent to.
    pub fn propagated_to(&self, hash: &H256) -> (peers: Vec<String>)
        requires
            self.wf(),
        ensures
            names(peers@) == peers_of(self.propagation(), *hash),
    {
        self.propagations.sent_to(hash)
    }

    /// Returns current pool options.
    pub fn options(&self) -> (options: Options)
        ensures
            options == self.limits(),
    {
        self.options
    }
}

} // verus!
