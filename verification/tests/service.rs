use better_awake::history::{History, HistoryEntry, MAX_HISTORY_ENTRIES, StartedSession};
use better_awake::ipc::MAX_HISTORY_PAGE;
use better_awake::service::{history_page, merged_why, record_attention, startup_load_detail};
use better_awake::session::{SessionOrigin, SessionPolicy};
use better_awake::store::StoreError;

fn entry(session_id: u64, reason: &str) -> HistoryEntry {
    HistoryEntry::record(StartedSession {
        session_id,
        started_at_unix_seconds: 1_000 + session_id,
        origin: SessionOrigin::Manual,
        rule_id: None,
        reasons: vec![reason.to_string()],
        effective_policy: SessionPolicy::quick_default(),
        battery_stop_percent: Some(20),
    })
}

#[test]
fn one_reason_is_handed_over_as_written_and_several_are_counted() {
    assert_eq!(merged_why(&Vec::new()), "");
    assert_eq!(merged_why(&vec!["Build".to_string()]), "Build");
    assert_eq!(
        merged_why(&vec!["Build".to_string(), "Download".to_string()]),
        "2 active reasons"
    );
}

#[test]
fn a_history_page_is_newest_first_and_says_how_many_there_are() {
    let mut history = History::new();
    for id in 1..=5 {
        history.record_start(entry(id, "Build is running"));
    }
    history.record_end(2, 3_000, "user_request");

    let page = history_page(&history, 3, 9_000);
    let ids: Vec<u64> = page.entries.iter().map(|e| e.session_id).collect();
    assert_eq!(ids, vec![5, 4, 3]);
    assert_eq!(page.total, 5);
    assert_eq!(page.retention_limit, MAX_HISTORY_ENTRIES as u32);
    assert_eq!(page.now_unix_seconds, 9_000);

    let everything = history_page(&history, MAX_HISTORY_PAGE, 9_000);
    assert_eq!(everything.entries.len(), 5);
    assert_eq!(everything.entries[3].end_cause.as_deref(), Some("user_request"));
    assert_eq!(everything.entries[3].reasons, vec!["Build is running".to_string()]);
}

#[test]
fn a_page_never_holds_more_than_the_page_bound() {
    let mut history = History::new();
    for id in 0..(MAX_HISTORY_PAGE as u64 + 10) {
        history.record_start(entry(id, "Build"));
    }
    let page = history_page(&history, u32::MAX, 0);
    assert_eq!(page.entries.len(), MAX_HISTORY_PAGE as usize);
    assert_eq!(page.entries[0].session_id, MAX_HISTORY_PAGE as u64 + 9);
}

#[test]
fn a_backend_failure_is_recorded_on_every_open_session_and_no_closed_one() {
    let mut history = History::new();
    history.record_start(entry(1, "Build"));
    history.record_start(entry(2, "Download"));
    history.record_start(entry(3, "Upload"));
    history.record_end(2, 2_000, "user_request");

    record_attention(&mut history, "awake.backend.unavailable:no logind");

    let failures: Vec<Option<&str>> = history
        .entries()
        .iter()
        .map(|e| e.backend_failure.as_deref())
        .collect();
    assert_eq!(
        failures,
        vec![
            Some("awake.backend.unavailable:no logind"),
            None,
            Some("awake.backend.unavailable:no logind")
        ]
    );
    assert!(history.entries()[0].is_running(), "a failure is not an end");
}

#[test]
fn the_first_storage_problem_at_startup_is_the_one_reported() {
    assert_eq!(startup_load_detail(&Ok(false), &Ok(false)), None);
    assert_eq!(
        startup_load_detail(&Ok(true), &Ok(true)).as_deref(),
        Some("awake.store.recovered_corrupt_rules")
    );
    assert_eq!(
        startup_load_detail(&Ok(false), &Ok(true)).as_deref(),
        Some("awake.store.recovered_corrupt_history")
    );
    let newer = StoreError::UnsupportedSchema {
        path: "/tmp/state/awake-rules.json".to_string(),
        version: 99,
    };
    assert_eq!(
        startup_load_detail(&Err(newer), &Ok(true)).as_deref(),
        Some("awake.store.error.unsupported_schema:99")
    );
    let unreadable = StoreError::Io {
        path: "/tmp/state/awake-history.json".to_string(),
        detail: "Permission denied".to_string(),
    };
    assert_eq!(
        startup_load_detail(&Ok(false), &Err(unreadable)).as_deref(),
        Some("awake.store.error.io:/tmp/state/awake-history.json")
    );
}
