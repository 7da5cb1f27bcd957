//! Readiness of pooled records against the chain's nonces at one block.

use vstd::prelude::*;
use crate::nonces::Nonces;
use crate::primitives::{AccountId, CheckedBlockId, Index};
use crate::verified::{TransactionView, VerifiedTransaction};

verus! {

/// Whether a record can go into the next block.
#[derive(Clone, Copy, Debug, PartialEq, Eq, Structural)]
pub enum Readiness {
    /// Its nonce has been used up: the record will never be includable.
    Stale,
    /// Its nonce is the one expected next.
    Ready,
    /// Its nonce lies ahead, or its sender is not resolved yet.
    Future,
}

/// The nonce that a sweep expects next of `account`: the one it remembers, else the one the
/// chain records, else, where the chain gave none, the largest nonce there is.
pub open spec fn expected_nonce(
    known: Map<AccountId, Index>,
    chain: Map<AccountId, Index>,
    account: AccountId,
) -> Index {
    if known.contains_key(account) {
        known[account]
    } else if chain.contains_key(account) {
        chain[account]
    } else {
        Index::MAX
    }
}

/// The verdict on a record with nonce `index` of a sender whose next nonce is `expected`.
pub open spec fn readiness_of(index: Index, expected: Index) -> Readiness {
    if index > expected {
        Readiness::Future
    } else if index == expected {
        Readiness::Ready
    } else {
        Readiness::Stale
    }
}

/// The nonce after `nonce`; the largest nonce is followed by itself.
pub open spec fn nonce_after(nonce: Index) -> Index {
    if nonce == Index::MAX {
        nonce
    } else {
        (nonce + 1) as Index
    }
}

/// One judgement: the verdict on `tx`, and what the sweep remembers afterwards.
///
/// A record without a sender is always in the future and leaves no trace. For any other, the
/// sender's expected nonce moves on by one whatever the verdict was, so that the next record
/// of that sender is judged as if this one had been included.
pub open spec fn judge(
    known: Map<AccountId, Index>,
    chain: Map<AccountId, Index>,
    tx: TransactionView,
) -> (Map<AccountId, Index>, Readiness) {
    match tx.sender {
        None => (known, Readiness::Future),
        Some(account) => {
            let expected = expected_nonce(known, chain, account);
            (known.insert(account, nonce_after(expected)), readiness_of(tx.index(), expected))
        },
    }
}

/// Readiness evaluator for one sweep over the pool.
///
/// It holds the nonces that the chain records at one block and remembers, for each sender it
/// has met, the nonce it expects next. Each sweep starts with a fresh evaluator.
#[derive(Debug)]
pub struct Ready {
    at_block: CheckedBlockId,
    api: Nonces,
    known_nonces: Nonces,
}

impl Ready {
    /// The block whose nonces the evaluator judges by.
    pub closed spec fn at_block(self) -> CheckedBlockId {
        self.at_block
    }

    /// The next nonce that the chain records for each account it could answer for.
    pub closed spec fn chain(self) -> Map<AccountId, Index> {
        self.api@
    }

    /// The next nonce expected of each sender met so far.
    pub closed spec fn known(self) -> Map<AccountId, Index> {
        self.known_nonces@
    }

    /// Create a new readiness evaluator at the given block, from the nonces that the chain
    /// records there. An account that `api` does not mention counts as one the chain could not
    /// answer for.
    pub fn create(at: CheckedBlockId, api: Nonces) -> (ready: Self)
        ensures
            ready.at_block() == at,
            ready.chain() == api@,
            ready.known() == Map::<AccountId, Index>::empty(),
    {
        Ready { at_block: at, api, known_nonces: Nonces::new() }
    }

    /// The verdict on `xt`, as [`judge`] gives it.
    pub fn is_ready(&mut self, xt: &VerifiedTransaction) -> (verdict: Readiness)
        ensures
            (final(self).known(), verdict) == judge(old(self).known(), old(self).chain(), xt@),
            final(self).chain() == old(self).chain(),
            final(self).at_block() == old(self).at_block(),
    {
        let sender = match xt.sender() {
            Some(sender) => sender,
            None => {
                return Readiness::Future;
            },
        };
        let next_index: Index = match self.known_nonces.get(&sender) {
            Some(known) => known,
            None => match self.api.get(&sender) {
                Some(recorded) => recorded,
                None => Index::MAX,
            },
        };
        let index: Index = xt.index();
        let verdict = if index > next_index {
            Readiness::Future
        } else if index == next_index {
            Readiness::Ready
        } else {
            Readiness::Stale
        };
        // remember to increment the expected nonce
        self.known_nonces.set(sender, next_index.saturating_add(1));
        verdict
    }
}

impl Clone for Ready {
    fn clone(&self) -> (copy: Self)
        ensures
            copy.at_block() == self.at_block(),
            copy.chain() == self.chain(),
            copy.known() == self.known(),
    {
        Ready {
            at_block: self.at_block,
            api: self.api.clone(),
            known_nonces: self.known_nonces.clone(),
        }
    }
}

} // verus!
