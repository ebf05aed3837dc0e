use crate::errors::WatcherError;
use crate::tracker::spec_lookup;
use crate::tracker::ConfirmationTracker;
use vstd::prelude::*;

verus! {

/// How many blocks one batch may cover.
pub const SCAN_WINDOW: u64 = 20;

/// Poll interval while the cursor stands at the tip, in seconds.
pub const IDLE_POLL_SECS: u64 = 10;

/// Delay before retrying a transiently failed fetch, in seconds.
pub const RETRY_DELAY_SECS: u64 = 5;

/// Pause between two processed batches, in seconds.
pub const BATCH_DELAY_SECS: u64 = 3;

/// How many blocks behind the tip a fresh scanner starts.
pub const START_LOOKBACK: u64 = 5;

/// Where the scan loop stands between suspension points.
#[derive(Clone, Copy, Debug, PartialEq, Eq, Structural)]
pub enum ScanState {
    /// Asking the ledger for its current tip.
    FetchingTip,
    /// Asking for the block range from the cursor up to `end`.
    FetchingBlocks { end: u64 },
    /// Working through the fetched range that ends at `end`.
    ProcessingBlocks { end: u64 },
    /// At the tip: waiting one poll interval before asking again.
    Waiting,
}

/// What the outside world reports back to the loop.
#[derive(Clone, Copy, Debug, PartialEq, Eq, Structural)]
pub enum ScanEvent {
    /// The ledger answered a tip query.
    TipFetched { tip: u64 },
    /// A tip or block-range request failed transiently.
    FetchFailed,
    /// The requested block range arrived.
    BlocksFetched,
    /// Every block of the current range was processed.
    BlocksProcessed,
    /// The requested sleep elapsed.
    WaitElapsed,
}

/// What the host must do next.
#[derive(Clone, Copy, Debug, PartialEq, Eq, Structural)]
pub enum ScanAction {
    /// Ask the ledger for its tip, then report the answer.
    FetchTip,
    /// Ask for blocks `start ..= end`, then report the answer.
    FetchBlocks { start: u64, end: u64 },
    /// Process the fetched blocks in ledger order, then report completion.
    ProcessBlocks,
    /// Sleep `secs` seconds, then report `WaitElapsed`.
    Sleep { secs: u64 },
}

/// Which events can answer which states: the loop requests one thing at a
/// time, so only the matching answer, or the end of a requested sleep, can
/// arrive.
pub open spec fn event_fits(state: ScanState, event: ScanEvent) -> bool {
    match state {
        ScanState::FetchingTip => event is TipFetched || event is FetchFailed
            || event is WaitElapsed,
        ScanState::FetchingBlocks { .. } => event is BlocksFetched || event is FetchFailed
            || event is WaitElapsed,
        ScanState::ProcessingBlocks { .. } => event is BlocksProcessed,
        ScanState::Waiting => event is WaitElapsed,
    }
}

/// The bounded batch the scanner may request: nothing while the cursor
/// stands at or past the tip; otherwise the range from the cursor to at
/// most `window` blocks further, and never past the tip.
pub fn compute_range(cursor: u64, tip: u64, window: u64) -> (r: Option<(u64, u64)>)
    ensures
        cursor >= tip ==> r is None,
        cursor < tip ==> (r matches Some(p) && p.0 == cursor && p.1 == (if cursor + window <= tip {
            cursor + window
        } else {
            tip as int
        }) && cursor <= p.1 <= tip),
{
    if cursor >= tip {
        None
    } else {
        let end = if tip - cursor > window {
            cursor + window
        } else {
            tip
        };
        Some((cursor, end))
    }
}

/// The scan loop's owned position: the next height to scan, and the state
/// the loop stands in. The cursor advances only after a whole range was
/// processed, so a transient failure never skips a block.
pub struct Scanner {
    pub cursor: u64,
    pub state: ScanState,
}

impl Scanner {
    /// While a range is being fetched or processed, the cursor stands at
    /// its start, strictly below its end.
    pub open spec fn wf(self) -> bool {
        match self.state {
            ScanState::FetchingBlocks { end } => self.cursor < end,
            ScanState::ProcessingBlocks { end } => self.cursor < end,
            _ => true,
        }
    }

    /// A scanner that starts `START_LOOKBACK` blocks behind the given tip
    /// (at height 0 for a shorter chain) and first asks for the tip again.
    pub fn new(tip: u64) -> (s: Scanner)
        ensures
            s.wf(),
            s.state == ScanState::FetchingTip,
            s.cursor == if tip >= START_LOOKBACK {
                tip - START_LOOKBACK
            } else {
                0int
            },
    {
        let cursor = if tip >= START_LOOKBACK {
            tip - START_LOOKBACK
        } else {
            0
        };
        Scanner { cursor, state: ScanState::FetchingTip }
    }

    /// One transition of the scan loop. The whole table:
    /// a fresh tip at or below the cursor sends the loop waiting (no block
    /// request is ever issued at the tip); a higher tip requests the bounded
    /// range from the cursor, never past the tip; a transient fetch failure
    /// keeps the state and asks for a fixed delay, so the same request is
    /// re-issued after the sleep; a fetched range is processed; a processed
    /// range advances the cursor to its end — the only transition that moves
    /// it — and returns to the tip query after a short pause.
    pub fn step(&mut self, event: ScanEvent) -> (action: ScanAction)
        requires
            old(self).wf(),
            event_fits(old(self).state, event),
        ensures
            final(self).wf(),
            !(event is BlocksProcessed) ==> final(self).cursor == old(self).cursor,
            event is FetchFailed ==> final(self).state == old(self).state && action == (
            ScanAction::Sleep { secs: RETRY_DELAY_SECS }),
            event matches ScanEvent::TipFetched { tip } ==> (old(self).cursor >= tip
                ==> final(self).state == ScanState::Waiting && action == (ScanAction::Sleep {
                secs: IDLE_POLL_SECS,
            })),
            event matches ScanEvent::TipFetched { tip } ==> (old(self).cursor < tip ==> {
                let end = if old(self).cursor + SCAN_WINDOW <= tip {
                    old(self).cursor + SCAN_WINDOW
                } else {
                    tip as int
                };
                final(self).state == (ScanState::FetchingBlocks { end: end as u64 }) && action == (
                ScanAction::FetchBlocks { start: old(self).cursor, end: end as u64 }) && end <= tip
            }),
            old(self).state is FetchingTip && event is WaitElapsed ==> final(self).state
                == ScanState::FetchingTip && action == ScanAction::FetchTip,
            old(self).state matches ScanState::FetchingBlocks { end } ==> (event is WaitElapsed
                ==> final(self).state == old(self).state && action == (ScanAction::FetchBlocks {
                start: old(self).cursor,
                end,
            })),
            old(self).state matches ScanState::FetchingBlocks { end } ==> (event is BlocksFetched
                ==> final(self).state == (ScanState::ProcessingBlocks { end }) && action
                == ScanAction::ProcessBlocks),
            old(self).state matches ScanState::ProcessingBlocks { end } ==> (event
                is BlocksProcessed ==> final(self).cursor == end && final(self).state
                == ScanState::FetchingTip && action == (ScanAction::Sleep {
                secs: BATCH_DELAY_SECS,
            })),
            old(self).state is Waiting && event is WaitElapsed ==> final(self).state
                == ScanState::FetchingTip && action == ScanAction::FetchTip,
    {
        match event {
            ScanEvent::FetchFailed => ScanAction::Sleep { secs: RETRY_DELAY_SECS },
            ScanEvent::TipFetched { tip } => {
                match compute_range(self.cursor, tip, SCAN_WINDOW) {
                    None => {
                        self.state = ScanState::Waiting;
                        ScanAction::Sleep { secs: IDLE_POLL_SECS }
                    },
                    Some(range) => {
                        self.state = ScanState::FetchingBlocks { end: range.1 };
                        ScanAction::FetchBlocks { start: range.0, end: range.1 }
                    },
                }
            },
            ScanEvent::WaitElapsed => {
                match self.state {
                    ScanState::FetchingBlocks { end } => ScanAction::FetchBlocks {
                        start: self.cursor,
                        end,
                    },
                    ScanState::Waiting => {
                        self.state = ScanState::FetchingTip;
                        ScanAction::FetchTip
                    },
                    _ => ScanAction::FetchTip,
                }
            },
            ScanEvent::BlocksFetched => {
                match self.state {
                    ScanState::FetchingBlocks { end } => {
                        self.state = ScanState::ProcessingBlocks { end };
                        ScanAction::ProcessBlocks
                    },
                    _ => {
                        assert(false);
                        ScanAction::FetchTip
                    },
                }
            },
            ScanEvent::BlocksProcessed => {
                match self.state {
                    ScanState::ProcessingBlocks { end } => {
                        self.cursor = end;
                        self.state = ScanState::FetchingTip;
                        ScanAction::Sleep { secs: BATCH_DELAY_SECS }
                    },
                    _ => {
                        assert(false);
                        ScanAction::FetchTip
                    },
                }
            },
        }
    }
}

/// What the scanner does with one transaction of a block, given only the
/// tracker: an unknown transaction is decrypted and evaluated; a known one
/// is skipped, or has a confirmation update pushed when the fresh count
/// exceeds the recorded one by more than one.
#[derive(Clone, Copy, Debug, PartialEq, Eq, Structural)]
pub enum TxDisposition {
    /// Already reported and the count jumped: push an update.
    PushUpdate,
    /// Already reported and nothing worth pushing: skip.
    Skip,
    /// Never reported: decrypt and evaluate the transaction.
    Decrypt,
}

/// Decides the handling of one transaction in a block.
pub fn classify_tx(tracker: &ConfirmationTracker, txid: &Vec<u8>, confirmations: u32) -> (r:
    TxDisposition)
    ensures
        spec_lookup(tracker@, txid@) is None ==> r == TxDisposition::Decrypt,
        spec_lookup(tracker@, txid@) matches Some(prev) && confirmations > prev + 1 ==> r
            == TxDisposition::PushUpdate,
        spec_lookup(tracker@, txid@) matches Some(prev) && confirmations <= prev + 1 ==> r
            == TxDisposition::Skip,
{
    match tracker.lookup(txid) {
        None => TxDisposition::Decrypt,
        Some(_) => {
            if tracker.should_update(txid, confirmations) {
                TxDisposition::PushUpdate
            } else {
                TxDisposition::Skip
            }
        },
    }
}

/// Applies a submission outcome to the tracker: an accepted detection is
/// recorded, so it is never submitted twice; a rejected one is left
/// unrecorded, so the next pass over its block decrypts, evaluates and
/// submits it again — at-least-once delivery, never a silent drop.
pub fn record_submission_outcome(
    tracker: &mut ConfirmationTracker,
    txid: &Vec<u8>,
    confirmations: u32,
    accepted: bool,
) -> (r: Result<(), WatcherError>)
    requires
        old(tracker).wf(),
    ensures
        final(tracker).wf(),
        !accepted ==> final(tracker)@ == old(tracker)@ && r == Ok::<(), WatcherError>(()),
        accepted && spec_lookup(old(tracker)@, txid@) is None ==> final(tracker)@ == old(
            tracker,
        )@.push((txid@, confirmations)) && r == Ok::<(), WatcherError>(()),
        accepted && spec_lookup(old(tracker)@, txid@) is Some ==> final(tracker)@ == old(tracker)@
            && r == Err::<(), WatcherError>(WatcherError::DuplicateTxid),
{
    if accepted {
        tracker.record_new(txid, confirmations)
    } else {
        Ok(())
    }
}

/// The index of the first zero byte of a memo, or its length when none.
pub open spec fn first_zero(m: Seq<u8>) -> int
    decreases m.len(),
{
    if m.len() == 0 {
        0
    } else if m[0] == 0 {
        0
    } else {
        1 + first_zero(m.drop_first())
    }
}

/// The memo text: its bytes up to the first zero byte.
pub open spec fn spec_memo_text(m: Seq<u8>) -> Seq<u8> {
    m.take(first_zero(m))
}

/// What `first_zero` names: no zero byte before it, a zero byte (or the
/// memo's end) at it.
pub proof fn lemma_first_zero(m: Seq<u8>)
    ensures
        0 <= first_zero(m) <= m.len(),
        forall|j: int| 0 <= j < first_zero(m) ==> m[j] != 0,
        first_zero(m) < m.len() ==> m[first_zero(m)] == 0,
    decreases m.len(),
{
    if m.len() > 0 && m[0] != 0 {
        lemma_first_zero(m.drop_first());
        assert forall|j: int| 0 <= j < first_zero(m) implies m[j] != 0 by {
            if j > 0 {
                assert(m.drop_first()[j - 1] != 0);
            }
        }
    }
}

/// Whether a memo text is a destination-chain recipient address: exactly 42
/// bytes of printable ASCII starting with "0x".
pub open spec fn is_recipient(text: Seq<u8>) -> bool {
    &&& text.len() == 42
    &&& text[0] == 48u8
    &&& text[1] == 120u8
    &&& forall|j: int| 0 <= j < text.len() ==> 32 <= #[trigger] text[j] < 127
}

/// The memo's text: its bytes up to the first zero byte.
pub fn memo_text(memo: &Vec<u8>) -> (r: Vec<u8>)
    ensures
        r@ == spec_memo_text(memo@),
{
    let mut r: Vec<u8> = Vec::new();
    let mut i: usize = 0;
    while i < memo.len()
        invariant
            i <= memo@.len(),
            r@.len() == i,
            forall|j: int| 0 <= j < i ==> r@[j] == memo@[j] && memo@[j] != 0,
        decreases memo@.len() - i,
    {
        if memo[i] == 0 {
            proof {
                lemma_first_zero(memo@);
                assert(first_zero(memo@) == i as int);
                assert(r@ =~= spec_memo_text(memo@));
            }
            return r;
        }
        r.push(memo[i]);
        i = i + 1;
    }
    proof {
        lemma_first_zero(memo@);
        assert(first_zero(memo@) == memo@.len() as int);
        assert(r@ =~= spec_memo_text(memo@));
    }
    r
}

/// The recipient address a memo carries, when its text has the address
/// form; `None` otherwise.
pub fn memo_recipient(memo: &Vec<u8>) -> (r: Option<Vec<u8>>)
    ensures
        is_recipient(spec_memo_text(memo@)) ==> (r matches Some(t) && t@ == spec_memo_text(memo@)),
        !is_recipient(spec_memo_text(memo@)) ==> r is None,
{
    let text = memo_text(memo);
    if text.len() != 42 {
        return None;
    }
    if text[0] != 48u8 || text[1] != 120u8 {
        return None;
    }
    let mut i: usize = 0;
    while i < text.len()
        invariant
            i <= text@.len(),
            forall|j: int| 0 <= j < i ==> 32 <= #[trigger] text@[j] < 127,
            text@ == spec_memo_text(memo@),
        decreases text@.len() - i,
    {
        if text[i] < 32 || text[i] >= 127 {
            return None;
        }
        i = i + 1;
    }
    Some(text)
}

/// One decrypted shielded output: its value in the ledger's smallest unit
/// and its raw memo bytes.
pub struct ShieldedOutput {
    pub value: u64,
    pub memo: Vec<u8>,
}

/// The total value of a list of outputs, unbounded.
pub open spec fn sum_values(outs: Seq<ShieldedOutput>) -> nat
    decreases outs.len(),
{
    if outs.len() == 0 {
        0
    } else {
        (sum_values(outs.drop_last()) + outs.last().value) as nat
    }
}

/// The recipient named by the last output whose memo text has the address
/// form, if any output's does.
pub open spec fn last_recipient(outs: Seq<ShieldedOutput>) -> Option<Seq<u8>>
    decreases outs.len(),
{
    if outs.len() == 0 {
        None
    } else if is_recipient(spec_memo_text(outs.last().memo@)) {
        Some(spec_memo_text(outs.last().memo@))
    } else {
        last_recipient(outs.drop_last())
    }
}

/// Evaluates the decrypted outputs of one transaction: sums their values
/// (saturating at `u64::MAX`) and extracts the recipient address, the last
/// address-formed memo winning as each output overwrites the candidate.
pub fn evaluate_outputs(outs: &Vec<ShieldedOutput>) -> (r: (u64, Option<Vec<u8>>))
    ensures
        r.0 == if sum_values(outs@) <= u64::MAX {
            sum_values(outs@) as int
        } else {
            u64::MAX as int
        },
        match last_recipient(outs@) {
            Some(t) => r.1 matches Some(v) && v@ == t,
            None => r.1 is None,
        },
{
    let mut total: u64 = 0;
    let mut recipient: Option<Vec<u8>> = None;
    let mut i: usize = 0;
    while i < outs.len()
        invariant
            i <= outs@.len(),
            total == if sum_values(outs@.take(i as int)) <= u64::MAX {
                sum_values(outs@.take(i as int)) as int
            } else {
                u64::MAX as int
            },
            match last_recipient(outs@.take(i as int)) {
                Some(t) => recipient matches Some(v) && v@ == t,
                None => recipient is None,
            },
        decreases outs@.len() - i,
    {
        proof {
            assert(outs@.take(i + 1).drop_last() =~= outs@.take(i as int));
            assert(outs@.take(i + 1).last() == outs@[i as int]);
        }
        let v = outs[i].value;
        total = if total > u64::MAX - v {
            u64::MAX
        } else {
            total + v
        };
        match memo_recipient(&outs[i].memo) {
            Some(t) => {
                recipient = Some(t);
            },
            None => {},
        }
        i = i + 1;
    }
    proof {
        assert(outs@.take(outs@.len() as int) =~= outs@);
    }
    (total, recipient)
}

} // verus!
