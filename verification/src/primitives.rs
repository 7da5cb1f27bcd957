//! Plain chain values that the pool reads: identities, hashes, nonces and block references.

use vstd::prelude::*;

verus! {

/// Public identity of an account.
pub type AccountId = [u8; 32];

/// 256-bit hash value.
pub type H256 = [u8; 32];

/// Per-sender transaction counter (the nonce).
pub type Index = u32;

/// Short numeric alias under which the chain may know an account.
pub type AccountIndex = u64;

/// Height of a block.
pub type BlockNumber = u64;

/// The way an extrinsic names its sender.
#[derive(Clone, Copy, Debug, PartialEq, Eq)]
pub enum Address {
    /// The account itself.
    Id(AccountId),
    /// An alias that the chain has to resolve to an account.
    Index(AccountIndex),
}

/// A reference to a block, by hash or by height.
#[derive(Clone, Copy, Debug, PartialEq, Eq)]
pub enum BlockId {
    Hash(H256),
    Number(BlockNumber),
}

/// A block reference that the chain client has certified as resolvable against local state.
#[derive(Clone, Copy, Debug, PartialEq, Eq)]
pub struct CheckedBlockId {
    id: BlockId,
}

impl CheckedBlockId {
    /// The block that was certified.
    pub closed spec fn id(self) -> BlockId {
        self.id
    }

    /// Records that the chain client accepted `id`.
    pub fn certified(id: BlockId) -> (checked: Self)
        ensures
            checked.id() == id,
    {
        CheckedBlockId { id }
    }

    /// The certified block reference.
    pub fn block_id(&self) -> (id: &BlockId)
        ensures
            *id == self.id(),
    {
        &self.id
    }
}

/// Whether two 32-byte values hold the same bytes.
pub fn same_bytes(a: &[u8; 32], b: &[u8; 32]) -> (same: bool)
    ensures
        same == (*a == *b),
{
    let mut i: usize = 0;
    while i < 32
        invariant
            i <= 32,
            forall|k: int| 0 <= k < i ==> a[k] == b[k],
        decreases 32 - i,
    {
        if a[i] != b[i] {
            return false;
        }
        i += 1;
    }
    assert(*a =~= *b);
    true
}

/// Whether two optional senders are the same: both absent, or both the same account.
pub fn same_sender(a: &Option<AccountId>, b: &Option<AccountId>) -> (same: bool)
    ensures
        same == (*a == *b),
{
    match (a, b) {
        (Some(x), Some(y)) => same_bytes(x, y),
        (None, None) => true,
        _ => false,
    }
}

/// The byte string as a fresh vector.
pub fn copy_bytes(bytes: &Vec<u8>) -> (copy: Vec<u8>)
    ensures
        copy@ == bytes@,
{
    bytes.clone()
}

} // verus!
