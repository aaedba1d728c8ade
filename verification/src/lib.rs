//! Transaction admission and state-virtualization core for an
//! Ethereum-compatible execution environment hosted on a flat
//! key-value store.
//!
//! The crate covers the storage key codec, the account state accessor,
//! the legacy transaction decoder, the meta-transaction authenticator,
//! the admission pipeline and the staged code-upgrade state machine.

pub mod engine;
pub mod meta_parsing;
pub mod parameters;
pub mod rlp;
pub mod storage;
pub mod store;
pub mod transaction;
pub mod types;

use vstd::prelude::*;

verus! {

} // verus!
