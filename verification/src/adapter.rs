//! The pool as a source and a sink of transactions for the gossip between peers.

use vstd::prelude::*;
use crate::error::Error;
use crate::extrinsic::{UncheckedExtrinsic, UncheckedExtrinsicView};
use crate::hashing::blake2_256;
use crate::model::{announced, holds_hash, import, lemma_import_twice, valid, Options};
use crate::nonces::Nonces;
use crate::pool::{views, TransactionPool};
use crate::propagation::{broadcast, hashes_of};
use crate::submission::after_submission;
use crate::primitives::{CheckedBlockId, H256};
use crate::ready::Ready;
use crate::sweep::sweep;
use crate::verified::TransactionView;
use crate::verify::{verification, Resolution};

verus! {

/// Transaction pool adapter.
///
/// It hands the ready transactions to the network and takes in what the peers send, where
/// the node is set up to do so.
#[derive(Debug)]
pub struct TransactionPoolAdapter {
    imports_external_transactions: bool,
    pool: TransactionPool,
}

/// The hash that is named to the peer who sent the extrinsic `uxt`.
pub open spec fn announced_for(
    s: Seq<TransactionView>,
    uxt: UncheckedExtrinsicView,
    resolution: Resolution,
    hash: H256,
    options: Options,
) -> Option<H256> {
    match verification(uxt, resolution, hash) {
        Ok(record) => announced(import(s, record, options), hash),
        Err(_) => None,
    }
}

/// Offering an extrinsic a second time changes nothing and names the same hash.
pub proof fn lemma_import_is_idempotent(
    s: Seq<TransactionView>,
    uxt: UncheckedExtrinsicView,
    resolution: Resolution,
    hash: H256,
    options: Options,
)
    requires
        valid(s, options),
    ensures
        after_submission(
            after_submission(s, uxt, resolution, hash, options),
            uxt,
            resolution,
            hash,
            options,
        ) == after_submission(s, uxt, resolution, hash, options),
        announced_for(
            after_submission(s, uxt, resolution, hash, options),
            uxt,
            resolution,
            hash,
            options,
        ) == announced_for(s, uxt, resolution, hash, options),
{
    if let Ok(record) = verification(uxt, resolution, hash) {
        lemma_import_twice(s, record, options);
    }
}

/// A transaction that the pool holds under the digest of its encoding is known when its
/// bytes come back from a peer: whatever the chain says of the sender now, short of a failure,
/// the hash of the record in the pool is named and the pool stays as it is.
pub proof fn lemma_listed_transaction_is_known(
    s: Seq<TransactionView>,
    at: int,
    uxt: UncheckedExtrinsicView,
    resolution: Resolution,
    options: Options,
)
    requires
        0 <= at < s.len(),
        s[at].hash == blake2_256(s[at].original.encoded),
        uxt.encoded == s[at].original.encoded,
        verification(uxt, resolution, blake2_256(uxt.encoded)).is_ok(),
    ensures
        announced_for(s, uxt, resolution, blake2_256(uxt.encoded), options) == Some(s[at].hash),
        after_submission(s, uxt, resolution, blake2_256(uxt.encoded), options) == s,
{
    let record = verification(uxt, resolution, blake2_256(uxt.encoded)).unwrap();
    assert(s[at].hash == record.hash);
    assert(holds_hash(s, record.hash));
}

/// Whether `list` names the hash and the canonical encoding of each record of `ready`, in
/// their order.
pub open spec fn lists(list: Seq<(H256, Vec<u8>)>, ready: Seq<TransactionView>) -> bool {
    &&& list.len() == ready.len()
    &&& forall|i: int|
        0 <= i < list.len() ==> (#[trigger] list[i]).0 == ready[i].hash && list[i].1@
            == ready[i].original.encoded
}

impl TransactionPoolAdapter {
    /// Whether transactions that peers send are taken in.
    pub closed spec fn imports(&self) -> bool {
        self.imports_external_transactions
    }

    /// The pool behind the adapter.
    pub closed spec fn pool(&self) -> TransactionPool {
        self.pool
    }

    /// An adapter for `pool`.
    pub fn new(imports_external_transactions: bool, pool: TransactionPool) -> (adapter: Self)
        ensures
            adapter.imports() == imports_external_transactions,
            adapter.pool() == pool,
    {
        TransactionPoolAdapter { imports_external_transactions, pool }
    }

    /// Whether transactions that peers send are taken in.
    pub fn imports_external(&self) -> (imports: bool)
        ensures
            imports == self.imports(),
    {
        self.imports_external_transactions
    }

    /// Gives the pool back.
    pub fn into_pool(self) -> (pool: TransactionPool)
        ensures
            pool == self.pool(),
    {
        self.pool
    }

    /// The hash and the canonical encoding of each ready transaction.
    ///
    /// `best` is the chain's best block as the chain client certified it, and `api` holds the
    /// nonces that the chain records there. A pass over the pool with a fresh evaluator culls
    /// the stale records and lists the ready ones. Where the chain could not be asked, `best`
    /// is `None`: the list is empty and the pool stays as it is.
    pub fn transactions(&mut self, best: Option<CheckedBlockId>, api: Nonces) -> (list: Vec<
        (H256, Vec<u8>),
    >)
        requires
            old(self).pool().wf(),
        ensures
            final(self).pool().wf(),
            final(self).imports() == old(self).imports(),
            final(self).pool().limits() == old(self).pool().limits(),
            final(self).pool().propagation() == old(self).pool().propagation(),
            match best {
                Some(_) => {
                    let pass = sweep(old(self).pool()@, Map::empty(), api@);
                    final(self).pool()@ == pass.kept && lists(list@, pass.ready)
                },
                None => final(self).pool()@ == old(self).pool()@ && list@.len() == 0,
            },
    {
        let id = match best {
            Some(id) => id,
            None => {
                return Vec::new();
            },
        };
        let mut ready = Ready::create(id, api);
        let pending = self.pool.cull_pending(&mut ready);
        let mut list: Vec<(H256, Vec<u8>)> = Vec::new();
        let mut i: usize = 0;
        while i < pending.len()
            invariant
                i <= pending.len(),
                lists(list@, views(pending@).take(i as int)),
            decreases pending.len() - i,
        {
            let hash: H256 = *pending[i].hash();
            list.push((hash, pending[i].primitive_extrinsic()));
            i += 1;
        }
        assert(views(pending@).take(i as int) =~= views(pending@));
        list
    }

    /// Takes in a transaction that a peer sent and names its hash.
    ///
    /// `transaction` is the decoded extrinsic, `None` where the bytes did not decode. Nothing
    /// is taken in where the node does not import from peers, or the bytes did not decode, or
    /// the pool refuses the extrinsic. A transaction that the pool holds already is no
    /// failure: the hash of the record in the pool is named, so that the peer can be answered
    /// without the transaction being sent out again.
    pub fn import(
        &mut self,
        transaction: Option<UncheckedExtrinsic>,
        at: CheckedBlockId,
        resolution: Resolution,
    ) -> (hash: Option<H256>)
        requires
            old(self).pool().wf(),
        ensures
            final(self).pool().wf(),
            final(self).imports() == old(self).imports(),
            final(self).pool().limits() == old(self).pool().limits(),
            final(self).pool().propagation() == old(self).pool().propagation(),
            match transaction {
                Some(uxt) if old(self).imports() => hash == announced_for(
                    old(self).pool()@,
                    uxt@,
                    resolution,
                    blake2_256(uxt@.encoded),
                    old(self).pool().limits(),
                ) && final(self).pool()@ == after_submission(
                    old(self).pool()@,
                    uxt@,
                    resolution,
                    blake2_256(uxt@.encoded),
                    old(self).pool().limits(),
                ),
                _ => hash.is_none() && final(self).pool()@ == old(self).pool()@,
            },
    {
        if !self.imports_external_transactions {
            return None;
        }
        match transaction {
            Some(uxt) => match self.pool.import_unchecked_extrinsic(at, uxt, resolution) {
                Ok(hash) => Some(hash),
                Err(Error::AlreadyImported(hash)) => Some(hash),
                Err(_) => None,
            },
            None => None,
        }
    }

    /// Tells the pool which transactions have been sent to which peers, as
    /// [`TransactionPool::on_broadcasted`] records it.
    pub fn on_broadcasted(&mut self, propagations: &Vec<(H256, Vec<String>)>)
        requires
            old(self).pool().wf(),
        ensures
            final(self).pool().wf(),
            final(self).imports() == old(self).imports(),
            final(self).pool().limits() == old(self).pool().limits(),
            final(self).pool()@ == old(self).pool()@,
            final(self).pool().propagation() == broadcast(
                old(self).pool().propagation().restrict(hashes_of(old(self).pool()@)),
                old(self).pool()@,
                propagations@,
            ),
    {
        self.pool.on_broadcasted(propagations)
    }

    /// The pool behind the adapter.
    pub fn pool_ref(&self) -> (pool: &TransactionPool)
        ensures
            *pool == self.pool(),
    {
        &self.pool
    }
}

} // verus!
