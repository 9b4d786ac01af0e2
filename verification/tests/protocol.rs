use better_awake::backend::{BackendError, InhibitWhat, LeaseHealth, LeaseRequest};
use better_awake::ipc::{
    IpcError, MAX_HISTORY_PAGE, MAX_REQUEST_BYTES, MAX_RESPONSE_BYTES, PROTOCOL_VERSION, WireEnd,
    check_protocol_version, check_size, rejection, rejection_string, validate_battery,
    validate_duration, validate_end, validate_history_limit, validate_pause,
    validate_rule_id, validate_rule_position, validate_session_id,
};
use better_awake::session::{EndCondition, SessionPolicy};

// ---- The protocol edge ----------------------------------------------------

#[test]
fn an_oversized_payload_is_refused_before_parsing() {
    assert_eq!(
        check_size(MAX_REQUEST_BYTES + 1, MAX_REQUEST_BYTES),
        Err(IpcError::PayloadTooLarge {
            bytes: MAX_REQUEST_BYTES + 1,
            limit: MAX_REQUEST_BYTES
        })
    );
    assert_eq!(check_size(MAX_REQUEST_BYTES, MAX_REQUEST_BYTES), Ok(()));
    assert!(MAX_REQUEST_BYTES < MAX_RESPONSE_BYTES);
}

#[test]
fn another_protocol_version_is_refused_rather_than_partly_trusted() {
    assert_eq!(
        check_protocol_version(7),
        Err(IpcError::ProtocolVersion {
            found: 7,
            expected: PROTOCOL_VERSION
        })
    );
    assert_eq!(check_protocol_version(PROTOCOL_VERSION), Ok(()));
}

#[test]
fn a_version_one_client_is_refused_rather_than_partly_trusted() {
    assert_eq!(
        check_protocol_version(1),
        Err(IpcError::ProtocolVersion {
            found: 1,
            expected: 2
        })
    );
}

#[test]
fn an_impossible_battery_threshold_is_refused() {
    for percent in [0u8, 100, 255] {
        assert_eq!(
            validate_battery(Some(percent)),
            Err(IpcError::InvalidBatteryThreshold { percent })
        );
    }
    assert_eq!(validate_battery(Some(20)), Ok(()));
}

#[test]
fn opting_out_of_battery_protection_is_accepted() {
    assert_eq!(validate_battery(None), Ok(()));
}

#[test]
fn extending_by_nothing_is_refused_at_the_protocol_edge() {
    assert_eq!(
        validate_duration(0, 86_400),
        Err(IpcError::InvalidDuration { seconds: 0 })
    );
}

#[test]
fn a_duration_past_the_longest_session_is_refused() {
    let longest = 86_400;
    assert_eq!(
        validate_end(WireEnd::Duration { seconds: longest + 1 }, longest),
        Err(IpcError::InvalidDuration {
            seconds: longest + 1
        })
    );
    assert_eq!(validate_end(WireEnd::Duration { seconds: longest }, longest), Ok(()));
    assert_eq!(validate_end(WireEnd::Indefinite, longest), Ok(()));
}

#[test]
fn an_until_time_in_the_past_passes_the_wire_check_and_is_left_to_the_clock() {
    assert_eq!(
        validate_end(WireEnd::UntilUnixSeconds { unix_seconds: 1 }, 86_400),
        Ok(())
    );
}

#[test]
fn session_zero_is_refused_because_no_session_carries_that_id() {
    assert_eq!(
        validate_session_id(0),
        Err(IpcError::InvalidSessionId { session_id: 0 })
    );
    assert_eq!(validate_session_id(1), Ok(()));
}

#[test]
fn rule_zero_is_refused_because_no_rule_carries_that_id() {
    assert_eq!(validate_rule_id(0), Err(IpcError::InvalidRuleId { rule_id: 0 }));
    assert_eq!(validate_rule_id(3), Ok(()));
}

#[test]
fn a_reorder_past_the_rule_limit_is_refused_before_it_reaches_the_engine() {
    let max_rules = 64;
    assert_eq!(
        validate_rule_position(max_rules as u32, max_rules),
        Err(IpcError::InvalidRulePosition { index: max_rules })
    );
    assert_eq!(validate_rule_position(0, max_rules), Ok(()));
}

#[test]
fn a_pause_length_nobody_offered_is_refused_at_the_edge() {
    let (short, long) = (3_600, 4 * 3_600);
    assert_eq!(
        validate_pause(Some(86_400), short, long),
        Err(IpcError::InvalidPauseDuration { seconds: 86_400 }),
        "an arbitrary length would turn Pause into an undocumented off switch"
    );
    for accepted in [short, long] {
        assert_eq!(validate_pause(Some(accepted), short, long), Ok(()));
    }
    assert_eq!(validate_pause(None, short, long), Ok(()));
}

#[test]
fn a_history_page_that_is_empty_or_unbounded_is_refused() {
    for limit in [0, MAX_HISTORY_PAGE + 1] {
        assert_eq!(
            validate_history_limit(limit),
            Err(IpcError::InvalidHistoryLimit { limit })
        );
    }
    assert_eq!(validate_history_limit(MAX_HISTORY_PAGE), Ok(()));
    assert_eq!(validate_history_limit(1), Ok(()));
}

#[test]
fn every_rejection_names_a_stable_key_with_its_values() {
    assert_eq!(
        IpcError::PayloadTooLarge {
            bytes: 20_000,
            limit: 16_384
        }
        .key(),
        "awake.ipc.error.payload_too_large:20000:16384"
    );
    assert_eq!(
        IpcError::Malformed {
            detail: "expected value".to_string()
        }
        .key(),
        "awake.ipc.error.malformed:expected value"
    );
    assert_eq!(
        IpcError::ProtocolVersion {
            found: 7,
            expected: 2
        }
        .key(),
        "awake.ipc.error.protocol_version:7:2"
    );
    assert_eq!(
        IpcError::InvalidBatteryThreshold { percent: 0 }.key(),
        "awake.ipc.error.invalid_battery_threshold:0"
    );
    assert_eq!(
        IpcError::InvalidDuration { seconds: 0 }.key(),
        "awake.ipc.error.invalid_duration:0"
    );
    assert_eq!(
        IpcError::InvalidRuleId { rule_id: 0 }.key(),
        "awake.ipc.error.invalid_rule_id:0"
    );
    assert_eq!(
        IpcError::InvalidRulePosition { index: 64 }.key(),
        "awake.ipc.error.invalid_rule_position:64"
    );
    assert_eq!(
        IpcError::InvalidPauseDuration { seconds: 86_400 }.key(),
        "awake.ipc.error.invalid_pause_duration:86400"
    );
    assert_eq!(
        IpcError::InvalidHistoryLimit { limit: 201 }.key(),
        "awake.ipc.error.invalid_history_limit:201"
    );
}

#[test]
fn a_rejection_is_always_a_readable_document() {
    let document = rejection(&IpcError::InvalidSessionId { session_id: 0 });
    assert_eq!(
        document,
        r#"{"protocol_version":2,"body":{"response":"rejected","error_key":"awake.ipc.error.invalid_session_id:0"}}"#
    );
    let value: serde_json::Value = serde_json::from_str(&document).unwrap();
    assert_eq!(value["protocol_version"], 2);
    assert_eq!(value["body"]["response"], "rejected");
    assert_eq!(
        value["body"]["error_key"],
        "awake.ipc.error.invalid_session_id:0"
    );
}

#[test]
fn a_rejection_key_with_quotes_is_escaped_not_spliced() {
    let document = rejection_string("awake.ipc.error.malformed:expected \"}\" at line 1");
    let value: serde_json::Value = serde_json::from_str(&document).unwrap();
    assert_eq!(
        value["body"]["error_key"],
        "awake.ipc.error.malformed:expected \"}\" at line 1"
    );
}

#[test]
fn a_rejection_key_is_escaped_the_way_json_escapes_a_string() {
    let document = rejection_string("a\"b\\c\nd\u{1}e\u{7f}é");
    assert_eq!(
        document,
        "{\"protocol_version\":2,\"body\":{\"response\":\"rejected\",\"error_key\":\"a\\\"b\\\\c\\nd\\u0001e\u{7f}é\"}}"
    );
}

#[test]
fn an_end_condition_crosses_the_wire_unchanged() {
    for end in [
        EndCondition::Indefinite,
        EndCondition::Duration { seconds: 7_200 },
        EndCondition::UntilUnixSeconds {
            unix_seconds: 1_700_000_000,
        },
    ] {
        let wire = WireEnd::from(end);
        assert_eq!(EndCondition::from(wire), end);
    }
    assert_eq!(
        WireEnd::from(EndCondition::Duration { seconds: 60 }),
        WireEnd::Duration { seconds: 60 }
    );
}

// ---- The inhibitor seam ---------------------------------------------------

#[test]
fn the_default_policy_asks_logind_for_sleep_and_idle_only() {
    let request =
        LeaseRequest::from_policy(&SessionPolicy::quick_default(), "Better Awake", "Build")
            .unwrap();
    assert_eq!(request.what_argument(), "sleep:idle");
    assert_eq!(request.what, vec![InhibitWhat::Sleep, InhibitWhat::Idle]);
    assert_eq!(request.who, "Better Awake");
    assert_eq!(request.why, "Build");
}

#[test]
fn a_display_only_policy_asks_for_no_lock_because_logind_has_none() {
    let policy = SessionPolicy {
        prevent_system_suspend: false,
        prevent_idle: false,
        prevent_display_sleep: true,
        prevent_automatic_lock: true,
    };
    assert_eq!(LeaseRequest::from_policy(&policy, "Better Awake", "Presenting"), None);
}

#[test]
fn an_empty_policy_needs_no_lease_at_all() {
    assert_eq!(
        LeaseRequest::from_policy(&SessionPolicy::default(), "Better Awake", "None"),
        None
    );
}

#[test]
fn an_idle_only_policy_asks_for_idle_alone() {
    let policy = SessionPolicy {
        prevent_system_suspend: false,
        prevent_idle: true,
        prevent_display_sleep: true,
        prevent_automatic_lock: false,
    };
    let request = LeaseRequest::from_policy(&policy, "Better Awake", "Reading").unwrap();
    assert_eq!(request.what_argument(), "idle");
    assert_eq!(InhibitWhat::Sleep.as_str(), "sleep");
}

#[test]
fn a_backend_error_reports_a_stable_key_and_its_detail() {
    assert_eq!(
        BackendError::Unavailable("no logind".to_string()).message(),
        "awake.backend.unavailable:no logind"
    );
    assert_eq!(
        BackendError::Denied("polkit".to_string()).message(),
        "awake.backend.denied:polkit"
    );
    assert_eq!(
        BackendError::Protocol("bad fd".to_string()).message(),
        "awake.backend.protocol:bad fd"
    );
    assert_ne!(LeaseHealth::Held, LeaseHealth::Lost);
}
