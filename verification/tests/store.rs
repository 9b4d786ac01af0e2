use better_awake::history::{
    HISTORY_FILE_NAME, HISTORY_SCHEMA_VERSION, History, HistoryDocument, HistoryEntry, HistoryStore,
    MAX_HISTORY_ENTRIES, StartedSession,
};
use better_awake::redact::{MAX_HISTORY_REASON_CHARS, REDACTION_MARKER, redact_reason};
use better_awake::session::{EndCondition, SessionOrigin, SessionPolicy};
use better_awake::store::{
    DecodeVerdict, FileRead, InterruptedSession, JsonStore, LoadStep, MAX_RETAINED_SESSIONS,
    PersistedSession, RULES_FILE_NAME, RulesStore, STATE_FILE_NAME, STATE_SCHEMA_VERSION,
    ServiceState, StoreError, judge_document, load_step, resume_after_restart,
};

// ---- History: the collection ----------------------------------------------

fn started(session_id: u64, started_at: u64) -> HistoryEntry {
    HistoryEntry::record(StartedSession {
        session_id,
        started_at_unix_seconds: started_at,
        origin: SessionOrigin::Manual,
        rule_id: None,
        reasons: vec!["Android Studio build is running".to_string()],
        effective_policy: SessionPolicy::quick_default(),
        battery_stop_percent: Some(20),
    })
}

#[test]
fn recording_an_end_closes_the_right_entry_and_leaves_the_others_open() {
    let mut history = History::new();
    history.record_start(started(1, 1_000));
    history.record_start(started(2, 1_100));
    history.record_start(started(3, 1_200));

    assert!(history.record_end(2, 1_500, "user_request"));

    assert!(history.entries()[0].is_running());
    assert_eq!(history.entries()[1].ended_at_unix_seconds, Some(1_500));
    assert_eq!(
        history.entries()[1].end_cause.as_deref(),
        Some("user_request")
    );
    assert!(history.entries()[2].is_running());
}

#[test]
fn ending_a_session_that_was_never_started_changes_nothing() {
    let mut history = History::new();
    history.record_start(started(1, 1_000));
    assert!(!history.record_end(9, 2_000, "user_request"));
    assert!(history.entries()[0].is_running());
}

#[test]
fn an_already_closed_entry_is_not_reopened_by_a_reused_session_id() {
    let mut history = History::new();
    history.record_start(started(1, 1_000));
    history.record_end(1, 1_500, "user_request");
    history.record_start(started(1, 2_000));
    history.record_end(1, 2_500, "expired");

    assert_eq!(
        history.entries()[0].end_cause.as_deref(),
        Some("user_request")
    );
    assert_eq!(history.entries()[1].end_cause.as_deref(), Some("expired"));
}

#[test]
fn trimming_drops_the_oldest_entries_and_keeps_the_newest() {
    let mut history = History::new();
    for id in 0..(MAX_HISTORY_ENTRIES as u64 + 4) {
        history.record_start(started(id, 1_000 + id));
    }

    assert_eq!(history.entries().len(), MAX_HISTORY_ENTRIES);
    assert_eq!(
        history.entries()[0].session_id,
        4,
        "the four oldest sessions are the ones that go"
    );
    assert_eq!(
        history.entries().last().unwrap().session_id,
        MAX_HISTORY_ENTRIES as u64 + 3
    );
}

#[test]
fn recent_returns_the_newest_entries_and_never_more_than_there_are() {
    let mut history = History::new();
    for id in 0..5 {
        history.record_start(started(id, 1_000 + id));
    }

    let recent: Vec<u64> = history
        .recent(2)
        .iter()
        .map(|entry| entry.session_id)
        .collect();
    assert_eq!(recent, vec![3, 4]);
    assert_eq!(history.recent(99).len(), 5);
}

#[test]
fn a_reason_set_by_hand_is_still_redacted_when_it_is_recorded() {
    let mut entry = started(1, 1_000);
    entry.reasons = vec!["leak /home/tim/Secret Plans.txt".to_string()];
    let mut history = History::new();
    history.record_start(entry);

    assert_eq!(history.entries()[0].reasons, vec!["leak […]".to_string()]);
}

#[test]
fn a_backend_failure_and_a_battery_stop_land_on_the_running_entry() {
    let mut history = History::new();
    history.record_start(HistoryEntry::record(StartedSession {
        session_id: 7,
        started_at_unix_seconds: 1_000,
        origin: SessionOrigin::Trigger,
        rule_id: Some(3),
        reasons: vec!["Build is running".to_string()],
        effective_policy: SessionPolicy::quick_default(),
        battery_stop_percent: Some(20),
    }));
    assert!(history.record_backend_failure(7, "lease_missing"));
    assert!(history.record_battery_stop(7, 19));
    assert!(history.record_end(7, 2_000, "battery_threshold"));

    let entry = &history.entries()[0];
    assert_eq!(entry.origin, SessionOrigin::Trigger);
    assert_eq!(entry.rule_id, Some(3));
    assert_eq!(entry.end_cause.as_deref(), Some("battery_threshold"));
    assert_eq!(entry.backend_failure.as_deref(), Some("lease_missing"));
    assert_eq!(entry.battery_stop_percent_at_stop, Some(19));
    assert_eq!(entry.ended_at_unix_seconds, Some(2_000));

    // Once ended, nothing more is written to it.
    assert!(!history.record_backend_failure(7, "lease_lost"));
    assert!(!history.record_battery_stop(7, 5));
}

#[test]
fn a_history_read_back_holds_exactly_its_entries() {
    let entries = vec![started(1, 1_000), started(2, 2_000)];
    let history = History::from_entries(entries.clone());
    assert_eq!(history.entries(), &entries);
    let document = HistoryDocument::new(history.clone());
    assert_eq!(document.schema_version, HISTORY_SCHEMA_VERSION);
    assert_eq!(document.history, history);
}

// ---- History: redaction ---------------------------------------------------

#[test]
fn a_command_line_argument_never_reaches_the_history_file() {
    let redacted = redact_reason("myapp --password hunter2");
    assert!(!redacted.contains("hunter2"), "{redacted}");
    assert!(!redacted.contains("--password"), "{redacted}");
    assert_eq!(redacted, "myapp […]");
}

#[test]
fn a_path_that_names_a_document_is_cut_away() {
    let redacted = redact_reason("Uploading /home/tim/Documents/tax-return-2024.pdf");
    assert!(!redacted.contains("tax-return-2024"), "{redacted}");
    assert_eq!(redacted, "Uploading […]");
}

#[test]
fn a_reason_that_is_nothing_but_a_path_is_still_cut() {
    for bare in [
        "/home/tim/Documents/tax-return-2024.pdf",
        "~/Downloads/passport-scan.jpg",
        "smb://nas.local/private/salaries.ods",
    ] {
        let redacted = redact_reason(bare);
        assert_eq!(redacted, REDACTION_MARKER, "{bare} leaked as {redacted}");
    }
}

#[test]
fn an_environment_pair_never_keeps_its_value() {
    let redacted = redact_reason("build AWS_SECRET_KEY=abc123");
    assert!(!redacted.contains("abc123"), "{redacted}");
    assert_eq!(redacted, "build […]");
}

#[test]
fn an_ordinary_reason_survives_completely_unchanged() {
    assert_eq!(
        redact_reason("Android Studio build is running"),
        "Android Studio build is running"
    );
    assert_eq!(redact_reason("保持清醒"), "保持清醒");
}

#[test]
fn control_characters_and_whitespace_runs_collapse_to_single_spaces() {
    assert_eq!(redact_reason("two\nlines\there"), "two lines here");
    assert_eq!(redact_reason("  spaced    out  "), "spaced out");
}

#[test]
fn a_reason_that_is_only_sensitive_becomes_the_marker_alone() {
    assert_eq!(redact_reason("--token=secret"), REDACTION_MARKER);
}

#[test]
fn a_two_hundred_character_reason_is_truncated_to_the_documented_bound() {
    let redacted = redact_reason(&"a".repeat(200));
    assert!(redacted.chars().count() <= MAX_HISTORY_REASON_CHARS);
    assert_eq!(redacted.chars().count(), MAX_HISTORY_REASON_CHARS);
    assert!(redacted.ends_with('…'));
}

#[test]
fn redacting_an_already_redacted_reason_changes_nothing_further() {
    for raw in [
        "Android Studio build is running",
        "myapp --password hunter2",
        "build AWS_SECRET_KEY=abc123",
        &"a".repeat(200),
    ] {
        let once = redact_reason(raw);
        assert_eq!(redact_reason(&once), once, "{raw}");
    }
}

#[test]
fn an_empty_reason_stays_empty() {
    assert_eq!(redact_reason(""), "");
    assert_eq!(redact_reason(" \t\n "), "");
}

// ---- History: the store ---------------------------------------------------

#[test]
fn a_first_run_starts_with_no_history_and_without_an_error() {
    let store = HistoryStore::at_path(format!("/tmp/state/{HISTORY_FILE_NAME}"));
    assert_eq!(store.load_step(FileRead::Missing), LoadStep::FirstRun);
    assert!(History::new().entries().is_empty());
}

#[test]
fn history_the_migration_seam_refuses_a_version_it_does_not_know() {
    let store = HistoryStore::at_path(format!("/tmp/state/{HISTORY_FILE_NAME}"));
    let step = store.load_step(FileRead::Bytes(br#"{"schema_version": 4}"#.to_vec()));
    assert!(matches!(
        step,
        LoadStep::Refuse(StoreError::UnsupportedSchema { version: 4, .. })
    ));
}

#[test]
fn history_a_default_path_stays_inside_the_users_own_state_directory() {
    let store = HistoryStore::from_default_path(None, Some("/home/tim"));
    assert_eq!(store.path(), "/home/tim/.local/state/better-awake/awake-history.json");
    assert!(store.path().ends_with(&format!("better-awake/{HISTORY_FILE_NAME}")));
}

// ---- Service state --------------------------------------------------------

fn running(id: u64, started: u64) -> PersistedSession {
    PersistedSession {
        session_id: id,
        reason: "Android Studio build is running".to_string(),
        origin: SessionOrigin::Manual,
        policy: SessionPolicy::quick_default(),
        battery_stop_percent: Some(20),
        end: EndCondition::Indefinite,
        started_at_unix_seconds: started,
        ended_at_unix_seconds: None,
        end_cause: None,
    }
}

fn state_store() -> JsonStore {
    JsonStore::at_path(format!("/tmp/state/{STATE_FILE_NAME}"))
}

#[test]
fn a_first_run_starts_from_nothing_without_an_error() {
    assert_eq!(state_store().load_step(FileRead::Missing), LoadStep::FirstRun);
    let state = ServiceState::new(1_000);
    assert!(state.sessions.is_empty());
    assert_eq!(state.schema_version, STATE_SCHEMA_VERSION);
    assert!(better_awake::store::interrupted_sessions(&state).is_empty());
}

#[test]
fn state_survives_a_save_and_load() {
    let mut state = ServiceState::new(1_000);
    state.sessions.push(running(1, 1_000));
    state.reduced_security_confirmed = true;
    state.run.shut_down_at_unix_seconds = Some(2_000);

    let (restarted, _) = resume_after_restart(state, 3_000);
    assert_eq!(restarted.sessions.len(), 1);
    assert!(restarted.reduced_security_confirmed);
    assert_eq!(restarted.run.started_at_unix_seconds, 3_000);
    assert_eq!(restarted.run.shut_down_at_unix_seconds, None);
}

#[test]
fn a_clean_shutdown_leaves_no_interrupted_session_to_explain() {
    let mut state = ServiceState::new(1_000);
    let mut session = running(1, 1_000);
    session.ended_at_unix_seconds = Some(1_500);
    session.end_cause = Some("service_shutdown".to_string());
    state.sessions.push(session);
    state.run.shut_down_at_unix_seconds = Some(1_500);

    assert!(resume_after_restart(state, 2_000).1.is_empty());
}

#[test]
fn a_crashed_run_is_reported_with_the_session_it_left_open() {
    let mut state = ServiceState::new(1_000);
    state.run.last_seen_unix_seconds = 1_800;
    state.sessions.push(running(7, 1_000));

    let (_, interrupted) = resume_after_restart(state, 9_000);
    assert_eq!(
        interrupted,
        vec![InterruptedSession {
            session_id: 7,
            reason: "Android Studio build is running".to_string(),
            started_at_unix_seconds: 1_000,
            last_seen_unix_seconds: 1_800,
        }]
    );
}

#[test]
fn an_interrupted_session_is_not_resumed_as_active() {
    let mut state = ServiceState::new(1_000);
    state.run.last_seen_unix_seconds = 1_800;
    state.sessions.push(running(7, 1_000));

    let (restarted, _) = resume_after_restart(state, 9_000);
    assert!(restarted.sessions.iter().all(|s| !s.is_running()));
    assert_eq!(
        restarted.sessions[0].end_cause.as_deref(),
        Some("interrupted")
    );
    assert_eq!(restarted.sessions[0].ended_at_unix_seconds, Some(1_800));
}

#[test]
fn lib_the_migration_seam_refuses_a_version_it_does_not_know() {
    let step = state_store().load_step(FileRead::Bytes(br#"{"schema_version": 4}"#.to_vec()));
    assert!(matches!(
        step,
        LoadStep::Refuse(StoreError::UnsupportedSchema { version: 4, .. })
    ));
}

#[test]
fn ended_sessions_are_trimmed_but_running_ones_are_kept() {
    let mut state = ServiceState::new(1_000);
    for id in 0..(MAX_RETAINED_SESSIONS as u64 + 4) {
        let mut session = running(id, 1_000 + id);
        session.ended_at_unix_seconds = Some(2_000);
        state.sessions.push(session);
    }
    state.sessions.push(running(999, 3_000));
    state.trim();

    assert_eq!(state.sessions.len(), MAX_RETAINED_SESSIONS);
    assert!(state.sessions.iter().any(|session| session.session_id == 999));
    assert!(
        !state.sessions.iter().any(|session| session.session_id == 0),
        "the oldest ended session is the one that goes"
    );
}

#[test]
fn lib_a_default_path_stays_inside_the_users_own_state_directory() {
    let store = JsonStore::from_default_path(Some("/run/state"), Some("/home/tim"));
    assert_eq!(store.path(), "/run/state/better-awake/awake-service-state.json");
    assert!(store.path().ends_with(&format!("better-awake/{STATE_FILE_NAME}")));
}

#[test]
fn a_relative_state_home_is_ignored_in_favour_of_the_home_directory() {
    let store = JsonStore::from_default_path(Some("relative/state"), Some("/home/tim"));
    assert_eq!(
        store.path(),
        "/home/tim/.local/state/better-awake/awake-service-state.json"
    );
    let nowhere = JsonStore::from_default_path(None, None);
    assert_eq!(nowhere.path(), "./better-awake/awake-service-state.json");
}

#[test]
fn a_newer_state_schema_is_refused_and_the_file_is_left_alone() {
    let step = state_store().load_step(FileRead::Bytes(
        br#"{"schema_version":99,"run":{"started_at_unix_seconds":1}}"#.to_vec(),
    ));
    match step {
        LoadStep::Refuse(error) => {
            assert!(matches!(error, StoreError::UnsupportedSchema { version: 99, .. }));
            assert_eq!(error.key(), "awake.store.error.unsupported_schema:99");
        }
        other => panic!("{other:?}"),
    }
}

#[test]
fn a_malformed_state_file_is_moved_aside() {
    assert_eq!(
        state_store().load_step(FileRead::Bytes(b"{ not json".to_vec())),
        LoadStep::MoveAsideCorrupt
    );
    // No stamp is corruption, not version one.
    assert_eq!(
        state_store().load_step(FileRead::Bytes(br#"{"sessions":[]}"#.to_vec())),
        LoadStep::MoveAsideCorrupt
    );
    assert_eq!(
        judge_document(br#"{"schema_version":1}"#, STATE_SCHEMA_VERSION),
        DecodeVerdict::Current
    );
    assert_eq!(
        state_store().load_step(FileRead::Bytes(br#"{"schema_version":1}"#.to_vec())),
        LoadStep::Decode
    );
}

#[test]
fn an_unreadable_state_file_is_an_error_naming_its_path() {
    let step = load_step(
        "/tmp/state/awake-service-state.json",
        FileRead::Failed {
            detail: "Permission denied".to_string(),
        },
        STATE_SCHEMA_VERSION,
    );
    match step {
        LoadStep::Refuse(error) => assert_eq!(
            error.key(),
            "awake.store.error.io:/tmp/state/awake-service-state.json"
        ),
        other => panic!("{other:?}"),
    }
}

// ---- Rules store ----------------------------------------------------------

fn rules_store() -> RulesStore {
    RulesStore::at_path(format!("/tmp/state/{RULES_FILE_NAME}"))
}

#[test]
fn a_first_run_starts_with_no_rules_and_without_an_error() {
    assert_eq!(rules_store().load_step(FileRead::Missing), LoadStep::FirstRun);
}

#[test]
fn rules_the_migration_seam_refuses_a_version_it_does_not_know() {
    let step = rules_store().load_step(FileRead::Bytes(br#"{"schema_version": 4}"#.to_vec()));
    assert!(matches!(
        step,
        LoadStep::Refuse(StoreError::UnsupportedSchema { version: 4, .. })
    ));
}

#[test]
fn rules_a_default_path_stays_inside_the_users_own_state_directory() {
    let store = RulesStore::from_default_path(None, Some("/home/tim"));
    assert!(store.path().ends_with(&format!("better-awake/{RULES_FILE_NAME}")));
}

#[test]
fn a_rules_file_with_no_schema_stamp_is_treated_as_corrupt() {
    assert_eq!(
        rules_store().load_step(FileRead::Bytes(
            br#"{"rule_set":{"rules":[],"next_id":1}}"#.to_vec()
        )),
        LoadStep::MoveAsideCorrupt
    );
}

// ---- Keeping the record in step ------------------------------------------

#[test]
fn a_session_recorded_at_its_start_is_explained_after_a_crash() {
    let mut state = ServiceState::new(1_000);
    state.mark_alive(1_200, false);
    state.record_started(running(4, 1_100));

    let (_, interrupted) = resume_after_restart(state, 5_000);
    assert_eq!(
        interrupted,
        vec![InterruptedSession {
            session_id: 4,
            reason: "Android Studio build is running".to_string(),
            started_at_unix_seconds: 1_100,
            last_seen_unix_seconds: 1_200,
        }]
    );
}

#[test]
fn an_ended_session_closes_only_its_own_running_record() {
    let mut state = ServiceState::new(1_000);
    let mut earlier = running(3, 900);
    earlier.ended_at_unix_seconds = Some(950);
    earlier.end_cause = Some("expired".to_string());
    state.record_started(earlier.clone());
    state.record_started(running(3, 1_000));
    state.record_started(running(5, 1_010));

    assert!(state.record_ended(3, 1_500, "user_request"));
    assert_eq!(state.sessions[0], earlier);
    assert_eq!(state.sessions[1].ended_at_unix_seconds, Some(1_500));
    assert_eq!(state.sessions[1].end_cause.as_deref(), Some("user_request"));
    assert!(state.sessions[2].is_running());

    // Nothing is left running under that id, so a second end changes nothing.
    let before = state.clone();
    assert!(!state.record_ended(3, 1_600, "expired"));
    assert_eq!(state, before);
}

#[test]
fn a_changed_session_is_followed_by_its_running_record() {
    let mut state = ServiceState::new(1_000);
    state.record_started(running(2, 1_000));
    let mut changed = running(2, 4_242);
    changed.reason = "Rendering the export".to_string();
    changed.policy = SessionPolicy::none();
    changed.battery_stop_percent = None;
    changed.end = EndCondition::Duration { seconds: 600 };

    assert!(state.follow_change(&changed));
    let record = &state.sessions[0];
    assert_eq!(record.reason, "Rendering the export");
    assert_eq!(record.policy, SessionPolicy::none());
    assert_eq!(record.battery_stop_percent, None);
    assert_eq!(record.end, EndCondition::Duration { seconds: 600 });
    // Identity and timing stay as first recorded.
    assert_eq!(record.started_at_unix_seconds, 1_000);
    assert!(record.is_running());

    assert!(!state.follow_change(&running(9, 1_000)));
}

#[test]
fn a_shutdown_stamp_leaves_nothing_to_explain_and_keeps_the_record_bounded() {
    let mut state = ServiceState::new(1_000);
    for id in 0..(MAX_RETAINED_SESSIONS as u64 + 4) {
        let mut session = running(id, 1_000 + id);
        session.ended_at_unix_seconds = Some(1_100 + id);
        session.end_cause = Some("expired".to_string());
        state.record_started(session);
    }
    state.record_started(running(99, 1_500));
    state.mark_shut_down(2_000);

    assert_eq!(state.run.last_seen_unix_seconds, 2_000);
    assert_eq!(state.run.shut_down_at_unix_seconds, Some(2_000));
    assert_eq!(state.sessions.len(), MAX_RETAINED_SESSIONS);
    assert!(state.sessions.iter().any(|s| s.session_id == 99));
    assert!(better_awake::store::interrupted_sessions(&state).is_empty());
}

#[test]
fn staying_alive_carries_the_security_acknowledgement() {
    let mut state = ServiceState::new(1_000);
    state.mark_alive(1_300, true);
    assert_eq!(state.run.last_seen_unix_seconds, 1_300);
    assert_eq!(state.run.started_at_unix_seconds, 1_000);
    assert!(state.reduced_security_confirmed);
    assert_eq!(state.run.shut_down_at_unix_seconds, None);
}
