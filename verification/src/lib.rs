//! Core of a cross-chain bridge watcher: it scans a shielded ledger for
//! incoming payments whose memo names a recipient on the destination chain,
//! builds a fixed-depth Merkle inclusion proof for each detection, packs the
//! fixed-shape circuit input, and tracks which transactions were already
//! reported so confirmation updates are pushed exactly when needed.
//!
//! The ledger transport, shielded-note decryption and the HTTP submission
//! service are external collaborators; this crate holds the bookkeeping and
//! proof-shaping logic that must be byte-exact.

pub mod assembler;
pub mod bytes;
pub mod errors;
pub mod hashing;
pub mod merkle;
pub mod scanner;
pub mod tracker;
