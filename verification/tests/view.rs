use better_awake::backend::BackendCapabilities;
use better_awake::ipc::{
    StatusDocument, WireActiveRule, WireBackend, WireBatteryProtection, WireConflict, WireEnd,
    WireHistoryEntry, WireIndicator, WireProvider, WireReason, WireRemaining, WireRuleSummary,
    WireSession,
};
use better_awake::provider::ProviderKind;
use better_awake::session::{SessionOrigin, SessionPolicy};
use better_awake::view::{
    BatteryView, ConflictField, ConflictView, DurationWords, HistoryRow, PolicyRowField, PolicyState,
    ProviderRow, Section, StatusSummary, StatusView, all_sections, duration_words, minute_label,
};

fn backend(available: bool) -> WireBackend {
    WireBackend {
        name: "logind".to_string(),
        available,
        capabilities: BackendCapabilities {
            system_suspend: true,
            idle: true,
            display_sleep: true,
            automatic_lock: false,
        },
        detail: (!available).then(|| "awake.backend.error.unavailable".to_string()),
    }
}

fn session(session_id: u64, origin: SessionOrigin, reason: &str) -> WireSession {
    WireSession {
        session_id,
        reason: reason.to_string(),
        origin,
        policy: SessionPolicy::quick_default(),
        battery_stop_percent: Some(20),
        end: WireEnd::Indefinite,
        started_at_unix_seconds: 1_700_000_000,
        remaining: WireRemaining::UntilEnded,
    }
}

fn status(has_battery: bool) -> StatusDocument {
    StatusDocument {
        indicator: WireIndicator::Inactive,
        effective_policy: SessionPolicy::quick_default(),
        unmet_policy: Vec::new(),
        battery_stop_percent: None,
        sessions: Vec::new(),
        reasons: Vec::new(),
        backend: backend(true),
        attention: None,
        interrupted_previous_session: None,
        reduced_security_confirmed: false,
        active_rules: Vec::new(),
        rule_summary: WireRuleSummary::default(),
        rules_suppression: None,
        conflicts: Vec::new(),
        providers: Vec::new(),
        battery_protection: WireBatteryProtection {
            has_battery,
            percent: has_battery.then_some(74),
            on_ac_power: Some(true),
            stop_below_percent: has_battery.then_some(20),
        },
        now_unix_seconds: 1_700_000_600,
    }
}

/// A machine held awake by a manual session and by one rule at the same time.
fn status_with_two_reasons() -> StatusDocument {
    let mut document = status(true);
    document.indicator = WireIndicator::ActiveManual;
    document.sessions = vec![
        session(7, SessionOrigin::Manual, "Rendering the export"),
        session(8, SessionOrigin::Trigger, "Video call"),
    ];
    document.reasons = vec![
        WireReason {
            session_id: 7,
            origin: SessionOrigin::Manual,
            reason: "Rendering the export".to_string(),
        },
        WireReason {
            session_id: 8,
            origin: SessionOrigin::Trigger,
            reason: "Video call".to_string(),
        },
    ];
    document.active_rules = vec![WireActiveRule {
        rule_id: 3,
        name: "Video call".to_string(),
        session_id: 8,
        priority: 60,
    }];
    document
}

#[test]
fn all_eight_sections_are_present_and_each_one_is_reachable() {
    let sections = all_sections();
    assert_eq!(sections.len(), 8);
    let mut keys: Vec<&str> = sections.iter().map(|s| s.as_key()).collect();
    keys.sort_unstable();
    keys.dedup();
    assert_eq!(keys.len(), 8, "two sections share an identity");
    let mut shortcuts: Vec<&str> = sections.iter().map(|s| s.shortcut()).collect();
    shortcuts.sort_unstable();
    shortcuts.dedup();
    assert_eq!(shortcuts.len(), 8, "two sections would answer the same keystroke");
    for (index, section) in sections.iter().enumerate() {
        assert_eq!(Section::at_index(index), Some(*section));
    }
    assert_eq!(Section::at_index(8), None);
    assert_eq!(Section::Battery.as_key(), "battery-safety");
    assert_eq!(Section::Settings.shortcut(), "ctrl-8");
}

#[test]
fn a_status_with_two_active_reasons_renders_both_of_them() {
    let view = StatusView::from_status(&status_with_two_reasons());
    assert_eq!(view.reasons.len(), 2);
    assert!(view.is_active());
    assert_eq!(view.reasons[0].display_name(), "Rendering the export");
    // The rule-started session is named by its rule rather than by a session id.
    assert_eq!(view.reasons[1].display_name(), "Video call");
    assert_eq!(view.reasons[1].rule_id, Some(3));
    assert_eq!(view.reasons[0].started_at_unix_seconds, Some(1_700_000_000));
    assert_eq!(view.manual_session_id(), Some(7));
    assert_eq!(view.summary(), StatusSummary::Active);
}

#[test]
fn ending_one_reason_leaves_the_other_one_explaining_the_machine() {
    let view = StatusView::from_status(&status_with_two_reasons());
    let remaining = view.reasons_after_ending(7);
    assert_eq!(remaining.len(), 1);
    assert_eq!(remaining[0].display_name(), "Video call");

    let mut document = status_with_two_reasons();
    document.sessions.truncate(1);
    document.reasons.truncate(1);
    document.active_rules.clear();
    let alone = StatusView::from_status(&document);
    assert!(alone.reasons_after_ending(7).is_empty());
}

#[test]
fn a_policy_the_backend_cannot_deliver_is_not_shown_as_in_force() {
    let mut document = status_with_two_reasons();
    document.effective_policy.prevent_automatic_lock = true;
    let view = StatusView::from_status(&document);
    let lock = view
        .policy
        .iter()
        .find(|row| row.field == PolicyRowField::AutomaticLock)
        .expect("automatic lock must be one of the rows");
    assert!(lock.prevented);
    assert!(!lock.delivered);
    assert_eq!(lock.state(), PolicyState::NotDelivered);
    let suspend = view
        .policy
        .iter()
        .find(|row| row.field == PolicyRowField::SystemSuspend)
        .unwrap();
    assert_eq!(suspend.state(), PolicyState::Prevented);
    let display = view
        .policy
        .iter()
        .find(|row| row.field == PolicyRowField::DisplaySleep)
        .unwrap();
    assert_eq!(display.state(), PolicyState::Allowed);
}

#[test]
fn a_machine_with_no_battery_shows_not_applicable_rather_than_a_threshold() {
    let view = StatusView::from_status(&status(false));
    assert_eq!(view.battery, BatteryView::NotApplicable);
    assert!(
        !view.battery.offers_threshold(),
        "a desktop was offered a threshold that could never fire"
    );
    assert_eq!(view.battery.threshold_percent(), None);
}

#[test]
fn a_machine_with_a_battery_states_the_threshold_in_force() {
    let view = StatusView::from_status(&status(true));
    assert!(view.battery.offers_threshold());
    assert_eq!(view.battery.threshold_percent(), Some(20));
}

#[test]
fn the_headline_puts_an_unreachable_service_and_attention_first() {
    let mut document = status_with_two_reasons();
    document.indicator = WireIndicator::Unavailable;
    assert_eq!(StatusView::from_status(&document).summary(), StatusSummary::ServiceUnreachable);
    document.indicator = WireIndicator::AttentionRequired;
    assert_eq!(StatusView::from_status(&document).summary(), StatusSummary::AttentionRequired);
    let mut paused = status(true);
    paused.indicator = WireIndicator::PausedRules;
    assert_eq!(StatusView::from_status(&paused).summary(), StatusSummary::Paused);
    assert_eq!(StatusView::from_status(&status(true)).summary(), StatusSummary::Inactive);
}

#[test]
fn a_conflict_field_this_build_does_not_know_is_named_rather_than_dropped() {
    let conflict = ConflictView::from_wire(&WireConflict {
        field: "prevent_something_newer".to_string(),
        winner_rule_id: 1,
        winner_name: "Newer rule".to_string(),
        overridden_rule_ids: Vec::new(),
        resolution_key: "awake.conflict.something_newer".to_string(),
    });
    assert_eq!(conflict.field(), ConflictField::Unknown);
    assert_eq!(conflict.winner_name, "Newer rule");
    assert_eq!(conflict.overridden_count(), None);

    let known = ConflictView::from_wire(&WireConflict {
        field: "prevent_display_sleep".to_string(),
        winner_rule_id: 2,
        winner_name: "Presenting".to_string(),
        overridden_rule_ids: vec![4, 5],
        resolution_key: "awake.conflict.strongest_wins".to_string(),
    });
    assert_eq!(known.field(), ConflictField::DisplaySleep);
    assert_eq!(known.overridden_count(), Some(2));
}

#[test]
fn the_status_document_finds_its_manual_session() {
    let document = status_with_two_reasons();
    assert!(document.is_active());
    assert_eq!(document.manual_session().map(|s| s.session_id), Some(7));
    assert_eq!(document.session(8).map(|s| s.reason.as_str()), Some("Video call"));
    assert!(document.session(9).is_none());
    assert!(status(true).manual_session().is_none());
}

#[test]
fn rows_carry_what_the_wire_said() {
    let provider = ProviderRow::from_wire(&WireProvider {
        kind: ProviderKind::AudioPlayback,
        available: false,
        poll_seconds: None,
        explanation: Some("awake.provider.error.no_session_bus".to_string()),
    });
    assert!(!provider.available);
    assert_eq!(
        provider.explanation.as_deref(),
        Some("awake.provider.error.no_session_bus")
    );

    let row = HistoryRow::from_wire(&WireHistoryEntry {
        session_id: 4,
        started_at_unix_seconds: 1_000,
        ended_at_unix_seconds: Some(2_000),
        origin: SessionOrigin::Trigger,
        rule_id: Some(3),
        reasons: vec!["Build".to_string()],
        effective_policy: SessionPolicy::quick_default(),
        battery_stop_percent: Some(20),
        end_cause: Some("expired".to_string()),
        backend_failure: None,
        battery_stop_percent_at_stop: None,
    });
    assert_eq!(row.reasons, vec!["Build".to_string()]);
    assert_eq!(row.end_cause.as_deref(), Some("expired"));
}

#[test]
fn a_length_of_time_is_worded_in_the_largest_units_it_has() {
    assert_eq!(duration_words(45), DurationWords::Seconds(45));
    assert_eq!(duration_words(15 * 60), DurationWords::Minutes(15));
    assert_eq!(duration_words(3 * 3_600), DurationWords::Hours(3));
    assert_eq!(duration_words(3_600 + 30 * 60 + 12), DurationWords::HoursAndMinutes(1, 30));
    assert_eq!(minute_label(9 * 60 + 5), "09:05");
    assert_eq!(minute_label(23 * 60 + 59), "23:59");
}
