use bridge_watcher::scanner::{
    classify_tx, compute_range, evaluate_outputs, memo_recipient, memo_text,
    record_submission_outcome, ScanAction, ScanEvent, ScanState, Scanner, ShieldedOutput,
    TxDisposition, BATCH_DELAY_SECS, IDLE_POLL_SECS, RETRY_DELAY_SECS, SCAN_WINDOW,
};
use bridge_watcher::tracker::ConfirmationTracker;

fn txid(b: u8) -> Vec<u8> {
    vec![b; 32]
}

fn memo_of(text: &str) -> Vec<u8> {
    let mut m = text.as_bytes().to_vec();
    m.resize(512, 0);
    m
}

/// At the tip, no block range is requested: the loop waits instead.
#[test]
fn at_tip_guard() {
    let mut s = Scanner { cursor: 100, state: ScanState::FetchingTip };
    let action = s.step(ScanEvent::TipFetched { tip: 100 });
    assert_eq!(action, ScanAction::Sleep { secs: IDLE_POLL_SECS });
    assert_eq!(s.state, ScanState::Waiting);
    assert_eq!(s.cursor, 100);

    let mut s = Scanner { cursor: 105, state: ScanState::FetchingTip };
    let action = s.step(ScanEvent::TipFetched { tip: 100 });
    assert!(!matches!(action, ScanAction::FetchBlocks { .. }));
    assert_eq!(s.state, ScanState::Waiting);
}

/// The requested range never reaches past the tip.
#[test]
fn range_bounded_by_tip() {
    assert_eq!(compute_range(100, 105, 20), Some((100, 105)));
    assert_eq!(compute_range(100, 200, 20), Some((100, 120)));
    assert_eq!(compute_range(100, 100, 20), None);
    assert_eq!(compute_range(105, 100, 20), None);
    assert_eq!(compute_range(0, 1, 20), Some((0, 1)));
    assert_eq!(compute_range(100, 121, 20), Some((100, 120)));
    assert_eq!(compute_range(100, 120, 20), Some((100, 120)));
}

/// One full turn of the loop: tip, range, blocks, processing, advance.
#[test]
fn scan_loop_turn() {
    let mut s = Scanner::new(100);
    assert_eq!(s.cursor, 95);
    assert_eq!(s.state, ScanState::FetchingTip);

    let action = s.step(ScanEvent::TipFetched { tip: 130 });
    assert_eq!(action, ScanAction::FetchBlocks { start: 95, end: 95 + SCAN_WINDOW });
    let action = s.step(ScanEvent::BlocksFetched);
    assert_eq!(action, ScanAction::ProcessBlocks);
    let action = s.step(ScanEvent::BlocksProcessed);
    assert_eq!(action, ScanAction::Sleep { secs: BATCH_DELAY_SECS });
    assert_eq!(s.cursor, 95 + SCAN_WINDOW);
    assert_eq!(s.state, ScanState::FetchingTip);
    let action = s.step(ScanEvent::WaitElapsed);
    assert_eq!(action, ScanAction::FetchTip);
}

/// A transient failure keeps the position: the same range is re-requested
/// after the delay, and no block is skipped.
#[test]
fn transient_failure_retries_same_range() {
    let mut s = Scanner { cursor: 50, state: ScanState::FetchingTip };
    let action = s.step(ScanEvent::TipFetched { tip: 60 });
    assert_eq!(action, ScanAction::FetchBlocks { start: 50, end: 60 });
    let action = s.step(ScanEvent::FetchFailed);
    assert_eq!(action, ScanAction::Sleep { secs: RETRY_DELAY_SECS });
    assert_eq!(s.cursor, 50);
    let action = s.step(ScanEvent::WaitElapsed);
    assert_eq!(action, ScanAction::FetchBlocks { start: 50, end: 60 });
}

#[test]
fn memo_text_stops_at_first_zero() {
    assert_eq!(memo_text(&vec![65, 66, 0, 67]), vec![65, 66]);
    assert_eq!(memo_text(&vec![0, 65]), Vec::<u8>::new());
    assert_eq!(memo_text(&vec![65, 66]), vec![65, 66]);
    assert_eq!(memo_text(&Vec::new()), Vec::<u8>::new());
}

#[test]
fn memo_recipient_accepts_address_form() {
    let addr = "0x00aa11bb22cc33dd44ee55ff66778899aabbccdd";
    assert_eq!(addr.len(), 42);
    assert_eq!(memo_recipient(&memo_of(addr)), Some(addr.as_bytes().to_vec()));
    // Without padding it is accepted too.
    assert_eq!(
        memo_recipient(&addr.as_bytes().to_vec()),
        Some(addr.as_bytes().to_vec())
    );
}

#[test]
fn memo_recipient_rejects_other_forms() {
    assert_eq!(memo_recipient(&memo_of("thanks for lunch")), None);
    // Right length, wrong prefix.
    assert_eq!(memo_recipient(&memo_of("1x00aa11bb22cc33dd44ee55ff66778899aabbccdd")), None);
    // Prefix right, one byte short / long.
    assert_eq!(memo_recipient(&memo_of("0x00aa11bb22cc33dd44ee55ff66778899aabbccd")), None);
    assert_eq!(memo_recipient(&memo_of("0x00aa11bb22cc33dd44ee55ff66778899aabbccdd5")), None);
    // Unprintable byte inside.
    let mut m = memo_of("0x00aa11bb22cc33dd44ee55ff66778899aabbccdd");
    m[10] = 7;
    assert_eq!(memo_recipient(&m), None);
    assert_eq!(memo_recipient(&vec![0u8; 512]), None);
}

#[test]
fn evaluate_outputs_sums_and_picks_last_recipient() {
    let a = "0x00aa11bb22cc33dd44ee55ff66778899aabbccdd";
    let b = "0x1111111111111111111111111111111111111111";
    let outs = vec![
        ShieldedOutput { value: 100, memo: memo_of(a) },
        ShieldedOutput { value: 5, memo: memo_of("note") },
        ShieldedOutput { value: 20, memo: memo_of(b) },
    ];
    let (total, recipient) = evaluate_outputs(&outs);
    assert_eq!(total, 125);
    assert_eq!(recipient, Some(b.as_bytes().to_vec()));

    let outs = vec![ShieldedOutput { value: 7, memo: memo_of("hello") }];
    let (total, recipient) = evaluate_outputs(&outs);
    assert_eq!(total, 7);
    assert_eq!(recipient, None);

    let (total, recipient) = evaluate_outputs(&Vec::new());
    assert_eq!(total, 0);
    assert_eq!(recipient, None);
}

#[test]
fn evaluate_outputs_saturates() {
    let outs = vec![
        ShieldedOutput { value: u64::MAX - 1, memo: Vec::new() },
        ShieldedOutput { value: 5, memo: Vec::new() },
    ];
    let (total, _) = evaluate_outputs(&outs);
    assert_eq!(total, u64::MAX);
}

#[test]
fn classify_tx_routes_by_tracker() {
    let mut t = ConfirmationTracker::new();
    let id = txid(0x10);
    assert_eq!(classify_tx(&t, &id, 3), TxDisposition::Decrypt);
    t.record_new(&id, 3).unwrap();
    assert_eq!(classify_tx(&t, &id, 3), TxDisposition::Skip);
    assert_eq!(classify_tx(&t, &id, 4), TxDisposition::Skip);
    assert_eq!(classify_tx(&t, &id, 5), TxDisposition::PushUpdate);
}

/// Scenario: a submission that the backend rejects is not recorded, so the
/// next pass over the block detects the same transaction again; once
/// accepted, it is recorded and never re-submitted.
#[test]
fn rejected_submission_is_retried() {
    let mut t = ConfirmationTracker::new();
    let id = txid(0x20);
    assert_eq!(classify_tx(&t, &id, 2), TxDisposition::Decrypt);

    // The backend rejects: nothing recorded, still eligible next pass.
    record_submission_outcome(&mut t, &id, 2, false).unwrap();
    assert_eq!(t.lookup(&id), None);
    assert_eq!(classify_tx(&t, &id, 3), TxDisposition::Decrypt);

    // The backend accepts: recorded, not re-detected.
    record_submission_outcome(&mut t, &id, 3, true).unwrap();
    assert_eq!(t.lookup(&id), Some(3));
    assert_eq!(classify_tx(&t, &id, 4), TxDisposition::Skip);
}
