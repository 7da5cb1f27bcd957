//! The record that the pool keeps of one extrinsic.

use vstd::prelude::*;
use crate::extrinsic::{
    checked_form, CheckedExtrinsic, CheckedExtrinsicView, UncheckedExtrinsic,
    UncheckedExtrinsicView,
};
use crate::primitives::{copy_bytes, AccountId, Index, H256};

verus! {

/// A non-inherent extrinsic that passed verification.
///
/// It is *fully verified* when its sender has been resolved to an account; the checked form is
/// present exactly then. A record without a sender is kept until the chain can resolve it.
#[derive(Debug)]
pub struct VerifiedTransaction {
    original: UncheckedExtrinsic,
    inner: Option<CheckedExtrinsic>,
    sender: Option<AccountId>,
    hash: H256,
    encoded_size: usize,
}

/// Mathematical value of a [`VerifiedTransaction`].
pub struct TransactionView {
    /// The extrinsic as it came in.
    pub original: UncheckedExtrinsicView,
    /// The resolved sender, if any.
    pub sender: Option<AccountId>,
    /// The content hash.
    pub hash: H256,
}

impl TransactionView {
    /// The sender's nonce.
    pub open spec fn index(self) -> Index {
        self.original.index
    }

    /// Length of the canonical encoding.
    pub open spec fn encoded_size(self) -> nat {
        self.original.encoded.len()
    }

    /// Whether the extrinsic carries a signature.
    pub open spec fn is_signed(self) -> bool {
        self.original.signature.is_some()
    }

    /// Whether the sender has been resolved.
    pub open spec fn is_fully_verified(self) -> bool {
        self.sender.is_some()
    }

    /// The checked form, present exactly on a fully verified record.
    pub open spec fn inner(self) -> Option<CheckedExtrinsicView> {
        match self.sender {
            Some(account) => Some(checked_form(self.original, account)),
            None => None,
        }
    }
}

impl View for VerifiedTransaction {
    type V = TransactionView;

    closed spec fn view(&self) -> TransactionView {
        TransactionView { original: self.original@, sender: self.sender, hash: self.hash }
    }
}

impl VerifiedTransaction {
    #[verifier::type_invariant]
    spec fn consistent(self) -> bool {
        &&& self.original.signature.is_some()
        &&& self.encoded_size == self.original.encoded@.len()
        &&& match (self.inner, self.sender) {
            (Some(checked), Some(account)) => checked@ == checked_form(self.original@, account),
            (None, None) => true,
            _ => false,
        }
    }

    /// Builds the record of the signed extrinsic `original` with the given sender and content
    /// hash.
    pub(crate) fn new(original: UncheckedExtrinsic, sender: Option<AccountId>, hash: H256) -> (record:
        Self)
        requires
            original@.signature.is_some(),
        ensures
            record@ == (TransactionView { original: original@, sender, hash }),
    {
        let inner = match sender {
            Some(account) => Some(
                CheckedExtrinsic {
                    signed: account,
                    index: original.index,
                    function: copy_bytes(&original.function),
                },
            ),
            None => None,
        };
        let encoded_size = original.encoded.len();
        VerifiedTransaction { original, inner, sender, hash, encoded_size }
    }

    /// Access the underlying transaction. It carries a signature.
    pub fn as_transaction(&self) -> (original: &UncheckedExtrinsic)
        ensures
            original@ == self@.original,
            self@.is_signed(),
    {
        proof {
            use_type_invariant(self);
        }
        &self.original
    }

    /// The canonical encoding of the underlying transaction.
    pub fn primitive_extrinsic(&self) -> (bytes: Vec<u8>)
        ensures
            bytes@ == self@.original.encoded,
    {
        copy_bytes(&self.original.encoded)
    }

    /// Consume the verified transaction, yielding the checked counterpart.
    pub fn into_inner(self) -> (inner: Option<CheckedExtrinsic>)
        ensures
            match inner {
                Some(checked) => self@.inner() == Some(checked@),
                None => self@.inner().is_none(),
            },
    {
        proof {
            use_type_invariant(&self);
        }
        self.inner
    }

    /// Get the 256-bit hash of this transaction.
    pub fn hash(&self) -> (hash: &H256)
        ensures
            *hash == self@.hash,
    {
        &self.hash
    }

    /// Get the account ID of the sender of this transaction.
    pub fn sender(&self) -> (sender: Option<AccountId>)
        ensures
            sender == self@.sender,
    {
        self.sender
    }

    /// Get the nonce of this transaction.
    pub fn index(&self) -> (index: Index)
        ensures
            index == self@.index(),
    {
        self.original.index
    }

    /// Get encoded size of the transaction.
    pub fn encoded_size(&self) -> (size: usize)
        ensures
            size == self@.encoded_size(),
    {
        proof {
            use_type_invariant(self);
        }
        self.encoded_size
    }

    /// What the pool charges against its byte bound for this record: the encoded size.
    pub fn mem_usage(&self) -> (size: usize)
        ensures
            size == self@.encoded_size(),
    {
        self.encoded_size()
    }

    /// Returns `true` if the sender of the transaction has been resolved.
    pub fn is_fully_verified(&self) -> (full: bool)
        ensures
            full == self@.is_fully_verified(),
    {
        proof {
            use_type_invariant(self);
        }
        self.inner.is_some()
    }
}

impl Clone for VerifiedTransaction {
    fn clone(&self) -> (copy: Self)
        ensures
            copy@ == self@,
    {
        proof {
            use_type_invariant(self);
        }
        let inner = match &self.inner {
            Some(checked) => Some(checked.clone()),
            None => None,
        };
        VerifiedTransaction {
            original: self.original.clone(),
            inner,
            sender: self.sender,
            hash: self.hash,
            encoded_size: self.encoded_size,
        }
    }
}

} // verus!
