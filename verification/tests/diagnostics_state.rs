use open_with_browser::diagnostics::DiagnosticsState;

#[test]
fn record_creates_entries_and_enforces_capacity() {
    let mut state = DiagnosticsState::default();

    for i in 0..510 {
        state.record(&format!("event #{i}"));
    }

    let snapshot = state.snapshot();
    // Max entries is 500; ensure oldest entries dropped
    assert_eq!(snapshot.len(), 500);
    assert!(snapshot.first().unwrap().message.starts_with("event #10"));
    assert!(snapshot.last().unwrap().message.starts_with("event #509"));
}

#[test]
fn clear_removes_all_entries() {
    let mut state = DiagnosticsState::default();
    state.record("first");
    state.record("second");

    assert_eq!(state.snapshot().len(), 2);

    state.clear();

    assert!(state.snapshot().is_empty());
}

#[test]
fn record_returns_fresh_ids_and_timestamps() {
    let mut state = DiagnosticsState::new();
    let a = state.record("one");
    let b = state.record("two");
    assert_eq!(a.id.len(), 36);
    assert_eq!(b.id.len(), 36);
    assert_ne!(a.id, b.id);
    assert!(!a.timestamp.is_empty());
    assert_eq!(a.message, "one");
}

#[test]
fn export_joins_timestamped_lines() {
    let mut state = DiagnosticsState::new();
    state.record("alpha");
    state.record("beta");
    let text = state.export();
    let lines: Vec<&str> = text.split('\n').collect();
    assert_eq!(lines.len(), 2);
    assert!(lines[0].starts_with('['));
    assert!(lines[0].ends_with("] alpha"));
    assert!(lines[1].ends_with("] beta"));
}

#[test]
fn recent_first_orders_by_timestamp_descending() {
    let mut state = DiagnosticsState::new();
    for i in 0..8 {
        state.record(&format!("event #{i}"));
    }

    let ordered = state.recent_first();
    assert_eq!(ordered.len(), 8);
    for pair in ordered.windows(2) {
        assert!(pair[0].timestamp >= pair[1].timestamp);
    }
    // Same entries, reordered at most.
    let mut messages: Vec<String> = ordered.iter().map(|e| e.message.clone()).collect();
    messages.sort();
    let expected: Vec<String> = (0..8).map(|i| format!("event #{i}")).collect();
    let mut expected_sorted = expected.clone();
    expected_sorted.sort();
    assert_eq!(messages, expected_sorted);
}
