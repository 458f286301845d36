use teleport_helper::watcher::{
    content_is_ready, watch, WatchOutcome, WatchReport, WatchStep, Watcher, MAX_ATTEMPTS,
    POLL_INTERVAL_MS,
};

#[test]
fn marker_needs_its_two_leading_spaces() {
    assert!(content_is_ready("banner\n  export AWS_ACCESS_KEY_ID=AKIA\n"));
    assert!(content_is_ready("x  export AWS_ACCESS_KEY_ID="));
    assert!(!content_is_ready(" export AWS_ACCESS_KEY_ID=AKIA"));
    assert!(!content_is_ready("export AWS_ACCESS_KEY_ID=AKIA"));
    assert!(!content_is_ready("  export AWS_SECRET_ACCESS_KEY=x"));
    assert!(!content_is_ready(""));
}

#[test]
fn watcher_budget_is_ten_seconds() {
    assert_eq!(MAX_ATTEMPTS, 20);
    assert_eq!(POLL_INTERVAL_MS, 500);
}

#[test]
fn watcher_times_out_after_twenty_fruitless_looks() {
    let looks: Vec<Option<String>> = (0..25).map(|_| Some("starting...\n".to_string())).collect();
    let report = watch(&looks);
    assert_eq!(
        report,
        WatchReport { outcome: WatchOutcome::TimedOut, polls: 20, waited_ms: 10_000 }
    );
    assert!(report.waited_ms >= 9_000 && report.waited_ms <= 12_000);
}

#[test]
fn missing_artifact_counts_as_not_ready_yet() {
    let looks: Vec<Option<String>> = (0..20).map(|_| None).collect();
    assert_eq!(watch(&looks).outcome, WatchOutcome::TimedOut);
    let mut watcher = Watcher::new();
    assert_eq!(watcher.observe(None), WatchStep::Wait);
    assert_eq!(watcher.attempts, 1);
}

#[test]
fn watcher_is_ready_at_the_first_marker() {
    let mut looks: Vec<Option<String>> = vec![None, Some("".to_string()), Some("x".to_string())];
    looks.push(Some("  export AWS_ACCESS_KEY_ID=AKIA\n".to_string()));
    looks.push(Some("later".to_string()));
    assert_eq!(
        watch(&looks),
        WatchReport { outcome: WatchOutcome::Ready, polls: 4, waited_ms: 1_500 }
    );
    let at_once = vec![Some("  export AWS_ACCESS_KEY_ID=".to_string())];
    assert_eq!(
        watch(&at_once),
        WatchReport { outcome: WatchOutcome::Ready, polls: 1, waited_ms: 0 }
    );
}

#[test]
fn marker_at_the_twentieth_look_is_in_time_at_the_twenty_first_too_late() {
    let mut looks: Vec<Option<String>> = (0..19).map(|_| None).collect();
    looks.push(Some("  export AWS_ACCESS_KEY_ID=A".to_string()));
    assert_eq!(
        watch(&looks),
        WatchReport { outcome: WatchOutcome::Ready, polls: 20, waited_ms: 9_500 }
    );
    let mut late: Vec<Option<String>> = (0..20).map(|_| None).collect();
    late.push(Some("  export AWS_ACCESS_KEY_ID=A".to_string()));
    assert_eq!(watch(&late).outcome, WatchOutcome::TimedOut);
}

#[test]
fn watch_is_pending_while_looks_run_out() {
    let looks: Vec<Option<String>> = (0..3).map(|_| None).collect();
    assert_eq!(
        watch(&looks),
        WatchReport { outcome: WatchOutcome::Pending, polls: 3, waited_ms: 1_500 }
    );
    assert_eq!(
        watch(&Vec::new()),
        WatchReport { outcome: WatchOutcome::Pending, polls: 0, waited_ms: 0 }
    );
}

#[test]
fn watcher_steps_one_look_at_a_time() {
    let mut watcher = Watcher::new();
    for i in 0..19 {
        assert_eq!(watcher.observe(Some("nothing yet")), WatchStep::Wait, "look {}", i);
    }
    assert_eq!(watcher.attempts, 19);
    assert_eq!(watcher.observe(Some("nothing yet")), WatchStep::TimedOut);
    assert_eq!(watcher.attempts, 20);
    let mut other = Watcher::new();
    assert_eq!(other.observe(Some("  export AWS_ACCESS_KEY_ID=x")), WatchStep::Ready);
    assert_eq!(other.attempts, 0);
}
