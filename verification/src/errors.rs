use vstd::prelude::*;

verus! {

/// Failures the watcher core reports on malformed input or on misuse of the
/// confirmation tracker. Transport-level failures (transient fetch errors,
/// submission rejections) are events of the scan loop, not values of this
/// type.
#[derive(Clone, Copy, Debug, PartialEq, Eq, Structural)]
pub enum WatcherError {
    /// A hash that must be exactly 32 bytes long had another length.
    InvalidHashLength,
    /// More leaves were supplied than a tree of the fixed depth can hold.
    ProofDepthExceeded,
    /// More output slots were supplied than the circuit can express.
    TooManyOutputs,
    /// `record_new` was called for a transaction id already recorded.
    DuplicateTxid,
    /// `record_update` was called for a transaction id never recorded.
    UnknownTxid,
}

} // verus!
