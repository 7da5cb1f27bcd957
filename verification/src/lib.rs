//! Pending-transaction pool of a blockchain node.
//!
//! Signed extrinsics are verified against the chain's view at one block, stored per sender in
//! ascending nonce order under a count and a byte bound, and handed out when their nonce is the
//! one the chain expects next.
//!
//! The pool never asks the chain itself. Whoever calls it reads what the chain says (the
//! account behind an address, the nonce of an account, whether a signature fits) and hands that
//! in as plain values. The pool is a sequential object: a node shares it behind a lock.
//!
//! - [`verify`] turns a decoded extrinsic into a [`VerifiedTransaction`];
//! - [`scoring`] orders the records of one sender and decides what gives way;
//! - [`ready`] judges records against the chain's nonces;
//! - [`pool`] is the engine, and [`model`], [`sweep`], [`submission`] and [`promotion`] say
//!   what its operations compute and what holds of them;
//! - [`adapter`] and [`components`] present the pool to the network.

pub mod adapter;
pub mod components;
pub mod error;
pub mod extrinsic;
pub mod hashing;
pub mod model;
pub mod nonces;
pub mod pool;
pub mod primitives;
pub mod promotion;
pub mod propagation;
pub mod ready;
pub mod scoring;
pub mod submission;
pub mod sweep;
pub mod verified;
pub mod verify;

pub use crate::adapter::TransactionPoolAdapter;
pub use crate::components::{Components, FullComponents, LightComponents};
pub use crate::error::{Error, Reason};
pub use crate::extrinsic::{CheckedExtrinsic, UncheckedExtrinsic};
pub use crate::model::Options;
pub use crate::nonces::Nonces;
pub use crate::pool::{LightStatus, Status, TransactionPool};
pub use crate::primitives::{
    AccountId, AccountIndex, Address, BlockId, BlockNumber, CheckedBlockId, Index, H256,
};
pub use crate::ready::{Readiness, Ready};
pub use crate::scoring::{Change, Choice, Scoring};
pub use crate::submission::Submission;
pub use crate::verified::VerifiedTransaction;
pub use crate::verify::{Resolution, Verifier};
