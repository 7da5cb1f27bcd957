//! The decoded form of an extrinsic, before and after its sender has been resolved.

use vstd::prelude::*;
use crate::primitives::{AccountId, Address, Index, copy_bytes};

verus! {

/// An extrinsic as it was decoded from the wire.
///
/// The pool reads the sender's address, the nonce and whether a signature is present.
/// The call payload, the signature and the canonical encoding are carried as bytes.
#[derive(Debug)]
pub struct UncheckedExtrinsic {
    /// Who claims to have sent it.
    pub signed: Address,
    /// The sender's nonce.
    pub index: Index,
    /// The runtime call, encoded.
    pub function: Vec<u8>,
    /// The signature over sender, nonce and call; absent on an inherent.
    pub signature: Option<Vec<u8>>,
    /// The canonical encoding of the whole extrinsic.
    pub encoded: Vec<u8>,
}

/// Mathematical value of an [`UncheckedExtrinsic`].
pub struct UncheckedExtrinsicView {
    pub signed: Address,
    pub index: Index,
    pub function: Seq<u8>,
    pub signature: Option<Seq<u8>>,
    pub encoded: Seq<u8>,
}

impl View for UncheckedExtrinsic {
    type V = UncheckedExtrinsicView;

    open spec fn view(&self) -> UncheckedExtrinsicView {
        UncheckedExtrinsicView {
            signed: self.signed,
            index: self.index,
            function: self.function@,
            signature: match self.signature {
                Some(s) => Some(s@),
                None => None,
            },
            encoded: self.encoded@,
        }
    }
}

impl UncheckedExtrinsic {
    /// Whether the extrinsic carries a signature. One without is an inherent.
    pub fn is_signed(&self) -> (signed: bool)
        ensures
            signed == self@.signature.is_some(),
    {
        self.signature.is_some()
    }
}

impl Clone for UncheckedExtrinsic {
    fn clone(&self) -> (copy: Self)
        ensures
            copy@ == self@,
    {
        let signature = match &self.signature {
            Some(s) => Some(copy_bytes(s)),
            None => None,
        };
        UncheckedExtrinsic {
            signed: self.signed,
            index: self.index,
            function: copy_bytes(&self.function),
            signature,
            encoded: copy_bytes(&self.encoded),
        }
    }
}

/// An extrinsic whose signature has been verified and whose sender is a resolved account.
#[derive(Debug)]
pub struct CheckedExtrinsic {
    /// The account that sent it.
    pub signed: AccountId,
    /// The sender's nonce.
    pub index: Index,
    /// The runtime call, encoded.
    pub function: Vec<u8>,
}

/// Mathematical value of a [`CheckedExtrinsic`].
pub struct CheckedExtrinsicView {
    pub signed: AccountId,
    pub index: Index,
    pub function: Seq<u8>,
}

impl View for CheckedExtrinsic {
    type V = CheckedExtrinsicView;

    open spec fn view(&self) -> CheckedExtrinsicView {
        CheckedExtrinsicView { signed: self.signed, index: self.index, function: self.function@ }
    }
}

impl Clone for CheckedExtrinsic {
    fn clone(&self) -> (copy: Self)
        ensures
            copy@ == self@,
    {
        CheckedExtrinsic {
            signed: self.signed,
            index: self.index,
            function: copy_bytes(&self.function),
        }
    }
}

/// The checked form that `original` has once its sender is known to be `sender`.
pub open spec fn checked_form(
    original: UncheckedExtrinsicView,
    sender: AccountId,
) -> CheckedExtrinsicView {
    CheckedExtrinsicView { signed: sender, index: original.index, function: original.function }
}

} // verus!
