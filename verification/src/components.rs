//! The kinds of node and what each does with the pool.

use vstd::prelude::*;
use crate::adapter::TransactionPoolAdapter;
use crate::pool::TransactionPool;

verus! {

/// What a kind of node decides about its transaction pool and its part in consensus.
pub trait Components {
    /// Whether this kind of node takes in the transactions that peers send.
    spec fn imports_external_transactions(&self) -> bool;

    /// Whether this kind of node takes part in consensus.
    spec fn takes_part_in_consensus(&self) -> bool;

    /// Whether this kind of node takes in the transactions that peers send.
    fn imports_from_peers(&self) -> (imports: bool)
        ensures
            imports == self.imports_external_transactions(),
    ;

    /// Create network transaction pool adapter.
    fn build_network_tx_pool(&self, pool: TransactionPool) -> (adapter: TransactionPoolAdapter)
        ensures
            adapter.imports() == self.imports_external_transactions(),
            adapter.pool() == pool,
    ;

    /// Whether a consensus service is to be created.
    fn builds_consensus(&self) -> (builds: bool)
        ensures
            builds == self.takes_part_in_consensus(),
    ;
}

/// Components for full service.
#[derive(Clone, Copy, Debug)]
pub struct FullComponents {
    /// Is this a validator node?
    pub is_validator: bool,
}

impl Components for FullComponents {
    open spec fn imports_external_transactions(&self) -> bool {
        true
    }

    open spec fn takes_part_in_consensus(&self) -> bool {
        self.is_validator
    }

    fn imports_from_peers(&self) -> (imports: bool) {
        true
    }

    fn build_network_tx_pool(&self, pool: TransactionPool) -> (adapter: TransactionPoolAdapter) {
        TransactionPoolAdapter::new(self.imports_from_peers(), pool)
    }

    fn builds_consensus(&self) -> (builds: bool) {
        self.is_validator
    }
}

/// Components for light service.
#[derive(Clone, Copy, Debug)]
pub struct LightComponents;

impl Components for LightComponents {
    open spec fn imports_external_transactions(&self) -> bool {
        false
    }

    open spec fn takes_part_in_consensus(&self) -> bool {
        false
    }

    fn imports_from_peers(&self) -> (imports: bool) {
        false
    }

    fn build_network_tx_pool(&self, pool: TransactionPool) -> (adapter: TransactionPoolAdapter) {
        TransactionPoolAdapter::new(self.imports_from_peers(), pool)
    }

    fn builds_consensus(&self) -> (builds: bool) {
        false
    }
}

} // verus!
