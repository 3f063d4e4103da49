//! An append-only, tamper-evident ledger of opaque records: each block is
//! digested with SHA-256, signed with a fresh per-block ECDSA keypair, and
//! chained to its predecessor by a second-layer hash. The chain manager owns
//! the in-memory sequence of blocks and the record store mirroring it;
//! construction, linkage, reward scheduling, persistence and validation are
//! specified and proved here, over named results for the outside hash and
//! signature engines. Durable storage of the records themselves is the
//! caller's concern.

use vstd::prelude::*;

pub mod block;
pub mod chain;
pub mod codec;
pub mod crypto;
pub mod store;

pub use block::Block;
pub use chain::{Blockchain, KeyRecord};
pub use store::LedgerStore;

verus! {

/// The failure kinds that ledger operations surface to the caller.
#[derive(Debug, Clone, Copy, PartialEq, Eq, Structural)]
pub enum BlockchainError {
    /// The backing store could not be read or written.
    StoreError,
    /// A persisted record could not be decoded into a block.
    DeserializeError,
    /// A load was attempted on an empty store.
    NoBlocksFound,
    /// The signing engine failed to produce a keypair or signature.
    SigningError,
    /// The halving interval was zero.
    ConfigError,
}

} // verus!
