use better_awake::clock::{Clock, SystemClock};
use better_awake::localtime::{UtcOffset, calendar_time, civil_from_days, clock_time};
use better_awake::fullscreen::{FULLSCREEN_UNAVAILABLE, FullscreenProvider};
use better_awake::provider::{Answer, Cadence, ProviderKind, ProviderReport, cadence_of};
use better_awake::sampler::SampleSchedule;
use better_awake::schedule::{LocalTime, ScheduleProvider, Weekday, c_timestamp, local_time_from_parts};
use better_awake::watch::{WatchActivity, WatchLog, WatchOutcome, WatchState};

// ---- Watched paths --------------------------------------------------------

/// Brings the watches in line with `wanted`, with the kernel refusing the
/// paths in `refused`.
fn watch_only(state: &mut WatchState, wanted: &[&str], refused: &[&str]) {
    let wanted: Vec<String> = wanted.iter().map(|p| p.to_string()).collect();
    let plan = state.plan(&wanted);
    let outcomes: Vec<WatchOutcome> = plan
        .watch
        .iter()
        .map(|path| WatchOutcome {
            path: path.clone(),
            error: if refused.contains(&path.as_str()) {
                Some("No such file or directory (os error 2)".to_string())
            } else {
                None
            },
        })
        .collect();
    state.apply(&plan.unwatch, &outcomes);
}

#[test]
fn a_watched_path_starts_quiet_rather_than_active() {
    let mut state = WatchState::available();
    watch_only(&mut state, &["/home/user/Downloads"], &[]);

    let activity = match state.answer() {
        Answer::Known(activity) => activity,
        Answer::Unavailable { explanation } => panic!("{explanation}"),
    };
    assert_eq!(activity.len(), 1);
    assert_eq!(
        activity[0].last_change_unix_seconds, 0,
        "a rule must not fire just because the service started watching"
    );
}

#[test]
fn a_file_written_in_a_watched_directory_is_recorded_as_activity() {
    let mut state = WatchState::available();
    watch_only(&mut state, &["/home/user/Downloads"], &[]);
    state.record_event(
        "/home/user/Downloads/download.part",
        Some("/home/user/Downloads"),
        2_000,
    );
    let activity = state.log().activity();
    let entry = activity
        .iter()
        .find(|entry| entry.path == "/home/user/Downloads")
        .expect("the watched directory must be reported");
    assert_eq!(
        entry.last_change_unix_seconds, 2_000,
        "the directory a rule names must be what the activity is recorded against"
    );
    assert_eq!(
        state.log().tracked_paths(),
        vec!["/home/user/Downloads".to_string()],
        "the changed file's own name never enters the log"
    );
}

#[test]
fn only_the_last_change_time_is_kept_and_never_what_changed() {
    let mut log = WatchLog::new();
    log.record("/home/user/Documents/tax-return.pdf", 5_000);
    let activity = log.activity();
    assert_eq!(activity.len(), 1);
    assert_eq!(activity[0].last_change_unix_seconds, 5_000);
    assert_eq!(
        activity[0],
        WatchActivity {
            path: "/home/user/Documents/tax-return.pdf".to_string(),
            last_change_unix_seconds: 5_000,
        }
    );
}

#[test]
fn a_path_no_rule_names_any_more_stops_being_watched() {
    let mut state = WatchState::available();
    watch_only(&mut state, &["/tmp/first", "/tmp/second"], &[]);
    assert_eq!(state.log().tracked_paths().len(), 2);

    watch_only(&mut state, &["/tmp/second"], &[]);
    assert_eq!(state.log().tracked_paths(), vec!["/tmp/second".to_string()]);
}

#[test]
fn one_unwatchable_path_does_not_take_the_others_down_with_it() {
    let mut state = WatchState::available();
    let missing = "/nonexistent-better-awake-watch-target";
    watch_only(&mut state, &["/tmp/good", missing], &[missing]);

    assert_eq!(
        state.log().tracked_paths(),
        vec!["/tmp/good".to_string()],
        "the folder that exists is still watched"
    );
    let rejected = state.rejected();
    assert_eq!(rejected.len(), 1);
    assert_eq!(rejected[0].path, missing);
    assert!(rejected[0].reason.starts_with("awake.provider.path_unwatchable"));
}

#[test]
fn watching_the_same_path_twice_registers_one_watch() {
    let mut state = WatchState::available();
    watch_only(&mut state, &["/tmp/dir"], &[]);
    let again = state.plan(&vec!["/tmp/dir".to_string()]);
    assert!(again.watch.is_empty(), "an already watched path is not asked for again");
    watch_only(&mut state, &["/tmp/dir"], &[]);
    assert_eq!(state.log().tracked_paths().len(), 1);
}

#[test]
fn the_watch_provider_polls_nothing() {
    let state = WatchState::available();
    assert_eq!(state.cadence().poll_seconds(), None);
    assert_eq!(state.kind(), ProviderKind::WatchedPath);
}

#[test]
fn rewatching_a_path_keeps_the_activity_it_already_had() {
    let mut log = WatchLog::new();
    log.begin_tracking("/tmp/dir");
    log.record("/tmp/dir", 3_000);
    log.begin_tracking("/tmp/dir");
    assert_eq!(log.activity()[0].last_change_unix_seconds, 3_000);
    log.stop_tracking("/tmp/dir");
    assert!(log.tracked_paths().is_empty());
}

#[test]
fn a_watcher_that_could_not_be_created_explains_itself() {
    let state = WatchState::unavailable("too many open files");
    assert!(!state.is_available());
    assert_eq!(
        state.answer(),
        Answer::Unavailable {
            explanation: "awake.provider.watch_unavailable:too many open files".to_string()
        }
    );
    let plan = state.plan(&vec!["/tmp/dir".to_string()]);
    assert!(plan.watch.is_empty() && plan.unwatch.is_empty());
}

#[test]
fn paths_are_listed_by_component_so_a_slash_sorts_before_a_hyphen() {
    let mut log = WatchLog::new();
    log.record("/a-b", 1);
    log.record("/a/b", 2);
    log.record("/a", 3);
    assert_eq!(
        log.tracked_paths(),
        vec!["/a".to_string(), "/a/b".to_string(), "/a-b".to_string()]
    );
}

#[test]
fn two_spellings_of_one_path_are_one_entry() {
    let mut log = WatchLog::new();
    log.begin_tracking("/tmp/dir");
    log.record("/tmp//dir/", 7);
    log.begin_tracking("/tmp/./dir");
    assert_eq!(log.tracked_paths(), vec!["/tmp/dir".to_string()]);
    assert_eq!(log.activity()[0].last_change_unix_seconds, 7);
    log.stop_tracking("/tmp/dir/");
    assert!(log.tracked_paths().is_empty());
}

#[test]
fn an_event_on_a_path_nobody_watches_records_nothing() {
    let mut state = WatchState::available();
    watch_only(&mut state, &["/tmp/watched"], &[]);
    state.record_event("/tmp/elsewhere/notes.txt", Some("/tmp/elsewhere"), 5_000);
    assert_eq!(state.log().tracked_paths(), vec!["/tmp/watched".to_string()]);
    assert_eq!(state.log().activity()[0].last_change_unix_seconds, 0);

    // A change on the watched directory itself counts.
    state.record_event("/tmp/watched", Some("/tmp"), 6_000);
    assert_eq!(state.log().activity()[0].last_change_unix_seconds, 6_000);
    assert_eq!(state.log().tracked_paths().len(), 1);
}

#[test]
fn a_path_dropped_by_the_rules_loses_its_refusal_too() {
    let mut state = WatchState::available();
    let missing = "/nonexistent-better-awake-watch-target";
    watch_only(&mut state, &["/tmp/good", missing], &[missing]);
    assert_eq!(state.rejected().len(), 1);

    // A refused path is not watched, so dropping it is only a matter of the
    // refusal; a watched one is unwatched as well.
    state.apply(&vec![missing.to_string(), "/tmp/good/".to_string()], &Vec::new());
    assert!(state.rejected().is_empty());
    assert!(state.log().tracked_paths().is_empty());
}

#[test]
fn the_answer_is_the_whole_log_in_path_order() {
    let mut state = WatchState::available();
    watch_only(&mut state, &["/srv/b", "/srv/a"], &[]);
    state.record_event("/srv/b/file", Some("/srv/b"), 9);
    match state.answer() {
        Answer::Known(activity) => {
            assert_eq!(activity, state.log().activity());
            assert_eq!(
                activity,
                vec![
                    WatchActivity { path: "/srv/a".to_string(), last_change_unix_seconds: 0 },
                    WatchActivity { path: "/srv/b".to_string(), last_change_unix_seconds: 9 },
                ]
            );
        }
        Answer::Unavailable { explanation } => panic!("{explanation}"),
    }
}

#[test]
fn a_second_spelling_of_a_watched_path_is_not_asked_for_again() {
    let mut state = WatchState::available();
    watch_only(&mut state, &["/tmp/dir"], &[]);
    let plan = state.plan(&vec!["/tmp/dir/".to_string(), "/tmp//dir".to_string()]);
    assert!(plan.watch.is_empty());
    assert!(plan.unwatch.is_empty());
}

// ---- Schedule -------------------------------------------------------------

#[test]
fn a_timestamp_becomes_the_local_weekday_and_minute() {
    // 2023-11-14T22:13:20Z is a Tuesday: `tm_wday` 2, 22:13.
    assert_eq!(
        local_time_from_parts(2, 22, 13),
        Some(LocalTime {
            weekday: Weekday::Tuesday,
            minute_of_day: 22 * 60 + 13,
        })
    );
}

#[test]
fn the_local_zone_is_what_a_schedule_is_measured_in_not_utc() {
    // The same instant is Wednesday morning in Taipei.
    assert_eq!(
        local_time_from_parts(3, 6, 13),
        Some(LocalTime {
            weekday: Weekday::Wednesday,
            minute_of_day: 6 * 60 + 13,
        })
    );
}

#[test]
fn sunday_is_the_last_day_of_the_week_and_not_the_first() {
    // C counts Sunday as day 0.
    assert_eq!(local_time_from_parts(0, 12, 0).unwrap().weekday, Weekday::Sunday);
    assert_eq!(Weekday::Sunday.index(), 6);
    assert_eq!(Weekday::Monday.previous(), Weekday::Sunday);
}

#[test]
fn the_schedule_provider_costs_nothing_when_idle() {
    assert_eq!(ScheduleProvider.cadence(), Cadence::Free);
}

#[test]
fn sampling_records_a_time_and_marks_the_provider_available() {
    let local = local_time_from_parts(2, 22, 13);
    let answer = ScheduleProvider.answer(local);
    assert!(matches!(answer, Answer::Known(_)));
    assert_eq!(ScheduleProvider.kind(), ProviderKind::TimeSchedule);
}

#[test]
fn a_timestamp_beyond_what_the_platform_can_express_is_refused_not_wrapped() {
    assert_eq!(c_timestamp(u64::MAX), None);
    assert_eq!(c_timestamp(1_700_000_000), Some(1_700_000_000));
    assert_eq!(
        ScheduleProvider.answer(None),
        Answer::Unavailable {
            explanation: "awake.provider.clock_out_of_range".to_string()
        }
    );
}

#[test]
fn a_broken_down_time_out_of_range_is_refused() {
    assert_eq!(local_time_from_parts(7, 0, 0), None);
    assert_eq!(local_time_from_parts(-1, 0, 0), None);
    // Negative fields count as zero, as the C library never means them.
    assert_eq!(
        local_time_from_parts(1, -3, -5),
        Some(LocalTime {
            weekday: Weekday::Monday,
            minute_of_day: 0
        })
    );
    // A minute of the day past what 16 bits hold is refused rather than wrapped.
    assert_eq!(local_time_from_parts(1, 2_000, 0), None);
}

// ---- Sampling cadence -----------------------------------------------------

#[test]
fn a_machine_with_no_rules_samples_nothing_at_all() {
    let mut schedule = SampleSchedule::new();
    let due = schedule.due_kinds(&[], &[], 1_000);
    assert!(due.is_empty(), "no rule means no reason to read a single file");
}

#[test]
fn only_the_providers_the_rules_need_are_sampled() {
    let mut schedule = SampleSchedule::new();
    let due = schedule.due_kinds(&[ProviderKind::AcPower], &[], 1_000);
    assert_eq!(due, vec![ProviderKind::AcPower]);
}

#[test]
fn a_provider_is_not_re_read_before_its_cadence_has_elapsed() {
    let mut schedule = SampleSchedule::new();
    let rules = [ProviderKind::AcPower];
    assert_eq!(schedule.due_kinds(&rules, &[], 1_000), vec![ProviderKind::AcPower]);
    assert!(schedule.due_kinds(&rules, &[], 1_005).is_empty());
    assert_eq!(schedule.due_kinds(&rules, &[], 1_010), vec![ProviderKind::AcPower]);
}

#[test]
fn sampling_everything_ignores_the_cadence_because_test_mode_needs_an_answer_now() {
    let mut schedule = SampleSchedule::new();
    schedule.due_kinds(&[ProviderKind::AcPower], &[], 1_000);
    schedule.mark_all_sampled(1_001);
    assert!(!schedule.is_due(ProviderKind::AcPower, 1_002));
    assert!(schedule.is_due(ProviderKind::AcPower, 1_011));
}

#[test]
fn every_provider_reports_itself_and_the_unavailable_ones_say_why() {
    let kinds = better_awake::provider::all_provider_kinds();
    let reports: Vec<ProviderReport> = kinds
        .iter()
        .map(|kind| match kind {
            ProviderKind::Fullscreen => ProviderReport::from_answer(*kind, &FullscreenProvider.answer()),
            ProviderKind::TimeSchedule => ProviderReport::from_answer(
                *kind,
                &ScheduleProvider.answer(local_time_from_parts(2, 22, 13)),
            ),
            _ => ProviderReport::from_answer(*kind, &Answer::Known(true)),
        })
        .collect();
    assert_eq!(reports.len(), kinds.len());

    for report in &reports {
        assert_eq!(
            report.available,
            report.explanation.is_none(),
            "{:?} must either work or explain itself, never both and never neither",
            report.kind
        );
        assert_eq!(report.cadence, cadence_of(report.kind));
    }

    let fullscreen = reports
        .iter()
        .find(|report| report.kind == ProviderKind::Fullscreen)
        .unwrap();
    assert!(!fullscreen.available);
    assert_eq!(fullscreen.explanation.as_deref(), Some(FULLSCREEN_UNAVAILABLE));
}

#[test]
fn the_watched_paths_follow_the_rules_that_name_them() {
    let mut state = WatchState::available();
    watch_only(&mut state, &["/tmp/watched"], &[]);
    assert_eq!(state.log().tracked_paths(), vec!["/tmp/watched".to_string()]);

    watch_only(&mut state, &[], &[]);
    assert!(
        state.log().tracked_paths().is_empty(),
        "a path no rule names any more must stop costing a watch descriptor"
    );
}

#[test]
fn no_provider_that_reads_a_file_is_read_more_than_once_every_five_seconds() {
    let schedule = SampleSchedule::new();
    for kind in better_awake::provider::all_provider_kinds() {
        if let Some(seconds) = schedule.cadence(kind).poll_seconds() {
            assert!(
                seconds >= 5,
                "{kind:?} polls every {seconds}s, which is more I/O than its answer is worth"
            );
        }
    }
}

#[test]
fn battery_protection_is_read_whether_or_not_a_rule_asks() {
    let mut schedule = SampleSchedule::new();
    let due = schedule.due_kinds(&[ProviderKind::ProcessRunning], &[ProviderKind::BatteryPercent], 1_000);
    assert_eq!(due, vec![ProviderKind::ProcessRunning, ProviderKind::BatteryPercent]);
    // Always wanted does not mean read every tick.
    assert!(schedule
        .due_kinds(&[], &[ProviderKind::BatteryPercent], 1_005)
        .is_empty());
}

#[test]
fn free_and_event_driven_providers_are_due_every_tick() {
    let mut schedule = SampleSchedule::new();
    let wanted = [ProviderKind::TimeSchedule, ProviderKind::WatchedPath];
    assert_eq!(schedule.due_kinds(&wanted, &[], 1_000).len(), 2);
    assert_eq!(schedule.due_kinds(&wanted, &[], 1_000).len(), 2);
}

#[test]
fn a_clock_that_went_backwards_does_not_make_a_provider_due() {
    let mut schedule = SampleSchedule::new();
    schedule.mark_sampled(ProviderKind::CpuUtilization, 2_000);
    assert!(!schedule.is_due(ProviderKind::CpuUtilization, 1_000));
}

// ---- Clock ----------------------------------------------------------------

#[test]
fn the_system_clock_is_past_the_epoch() {
    assert!(SystemClock.now_unix_seconds() > 1_600_000_000);
}

// ---- Local time -----------------------------------------------------------

fn tzif(transitions: &[(i32, u8)], offsets: &[i32]) -> Vec<u8> {
    let mut bytes = b"TZif".to_vec();
    bytes.extend_from_slice(&[0u8; 28]);
    bytes.extend_from_slice(&(transitions.len() as u32).to_be_bytes());
    bytes.extend_from_slice(&(offsets.len() as u32).to_be_bytes());
    bytes.extend_from_slice(&[0u8; 4]);
    for (at, _) in transitions {
        bytes.extend_from_slice(&at.to_be_bytes());
    }
    for (_, index) in transitions {
        bytes.push(*index);
    }
    for offset in offsets {
        bytes.extend_from_slice(&offset.to_be_bytes());
        bytes.extend_from_slice(&[0, 0]);
    }
    bytes
}

#[test]
fn the_offset_in_force_is_the_one_of_the_last_transition_passed() {
    let zone = tzif(&[(1_000, 1), (2_000, 0)], &[3_600, 7_200]);
    assert_eq!(UtcOffset::from_tzif(&zone, 500), Some(UtcOffset(3_600)));
    assert_eq!(UtcOffset::from_tzif(&zone, 1_500), Some(UtcOffset(7_200)));
    assert_eq!(UtcOffset::from_tzif(&zone, 2_500), Some(UtcOffset(3_600)));
}

#[test]
fn a_file_that_is_not_a_zone_means_utc() {
    assert_eq!(UtcOffset::from_tzif(b"not a zone file", 0), None);
    assert_eq!(UtcOffset::for_system(None, 0), UtcOffset(0));
    assert_eq!(UtcOffset::for_system(Some(b"TZif"), 0), UtcOffset(0));
    let negative = tzif(&[], &[-18_000]);
    assert_eq!(UtcOffset::for_system(Some(&negative), 0), UtcOffset(-18_000));
}

#[test]
fn a_type_index_past_the_table_is_refused() {
    let zone = tzif(&[(0, 5)], &[3_600]);
    assert_eq!(UtcOffset::from_tzif(&zone, 10), None);
}

#[test]
fn a_clock_time_is_two_digit_hours_and_minutes() {
    assert_eq!(clock_time(1_700_000_000, UtcOffset::utc()), "22:13");
    assert_eq!(clock_time(1_700_000_000, UtcOffset(8 * 3_600)), "06:13");
    // Before the epoch the time of day still comes out positive.
    assert_eq!(clock_time(0, UtcOffset(-60)), "23:59");
}

#[test]
fn a_calendar_time_carries_the_date_so_two_days_never_read_alike() {
    assert_eq!(calendar_time(1_700_000_000, UtcOffset::utc()), "2023-11-14 22:13");
    assert_eq!(calendar_time(1_700_000_000, UtcOffset(8 * 3_600)), "2023-11-15 06:13");
    assert_eq!(calendar_time(0, UtcOffset::utc()), "1970-01-01 00:00");
    assert_eq!(calendar_time(0, UtcOffset(-60)), "1969-12-31 23:59");
}

#[test]
fn the_civil_calendar_handles_leap_days_and_the_epoch() {
    assert_eq!(civil_from_days(0), (1970, 1, 1));
    assert_eq!(civil_from_days(-1), (1969, 12, 31));
    // 2000-02-29 is day 11_016 of the epoch.
    assert_eq!(civil_from_days(11_016), (2000, 2, 29));
    assert_eq!(civil_from_days(11_017), (2000, 3, 1));
    assert_eq!(civil_from_days(-719_468), (0, 3, 1));
}
