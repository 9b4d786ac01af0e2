use better_awake::audio::{AudioProvider, Card, Pcm};
use better_awake::cpu::{CpuProvider, CpuTimes};
use better_awake::display::{DisplayProvider, DrmEntry};
use better_awake::fullscreen::{FULLSCREEN_UNAVAILABLE, FullscreenProvider};
use better_awake::network::{InterfaceBytes, InterfaceEntry, NetworkProvider, parse_net_dev};
use better_awake::power::{PowerProvider, PowerValue, SupplyEntry};
use better_awake::process::{ProcessEntry, ProcessProvider, desktop_id_from_cgroup};
use better_awake::provider::{
    AUDIO_POLL_SECONDS, Answer, CPU_POLL_SECONDS, Cadence, DISPLAY_POLL_SECONDS,
    NETWORK_POLL_SECONDS, POWER_POLL_SECONDS, PROCESS_POLL_SECONDS, ProviderKind, ProviderReport,
    all_provider_kinds, cadence_of,
};
use better_awake::roots::{IoFailure, ReadError, Roots, read_u64_attribute};

fn explanation_of<T>(answer: &Answer<T>) -> Option<String> {
    match answer {
        Answer::Known(_) => None,
        Answer::Unavailable { explanation } => Some(explanation.clone()),
    }
}

fn missing(path: &str) -> ReadError {
    ReadError::from_io(path, &IoFailure::NotFound)
}

// ---- CPU ------------------------------------------------------------------

#[test]
fn utilization_needs_two_samples_and_says_so_after_the_first() {
    let mut provider = CpuProvider::new(Roots::at("/tmp/fixture"));

    let first = provider.record(CpuProvider::read_from(Ok(
        "cpu  100 0 100 800 0 0 0 0 0 0\n".to_string()
    )));
    assert_eq!(
        explanation_of(&first).as_deref(),
        Some("awake.provider.awaiting_second_sample"),
        "reporting 0% from one reading would make every rule miss its first interval"
    );

    let second = provider.record(CpuProvider::read_from(Ok(
        "cpu  200 0 200 1400 0 0 0 0 0 0\n".to_string()
    )));
    // 200 busy jiffies against 800 total between the samples.
    assert_eq!(second, Answer::Known(25));
}

#[test]
fn iowait_counts_as_idle_because_waiting_on_a_disk_is_not_work() {
    let earlier = CpuTimes::parse("cpu  0 0 0 0 0 0 0 0\n").unwrap();
    let later = CpuTimes::parse("cpu  0 0 0 0 100 0 0 0\n").unwrap();
    assert_eq!(later.utilization_since(&earlier), Some(0));
}

#[test]
fn guest_time_is_not_added_twice() {
    // The kernel already counts guest inside user, so a line with 100 user
    // and 100 guest describes 100 jiffies of work, not 200.
    let times = CpuTimes::parse("cpu  100 0 0 900 0 0 0 0 100 0\n").unwrap();
    assert_eq!(times.total, 1_000);
}

#[test]
fn a_truncated_stat_line_is_malformed_and_not_a_zero() {
    assert_eq!(CpuTimes::parse("cpu  1 2 3\n"), None);

    let mut provider = CpuProvider::new(Roots::at("/tmp/fixture"));
    let answer = provider.record(CpuProvider::read_from(Ok("cpu  1 2 3\n".to_string())));
    assert_eq!(
        explanation_of(&answer).as_deref(),
        Some("awake.provider.malformed_stat")
    );
}

#[test]
fn a_counter_that_went_backwards_after_a_suspend_is_unknown_not_zero() {
    let mut provider = CpuProvider::new(Roots::at("/tmp/fixture"));
    provider.record(CpuProvider::read_from(Ok(
        "cpu  500 0 500 5000 0 0 0 0\n".to_string()
    )));
    let answer = provider.record(CpuProvider::read_from(Ok(
        "cpu  10 0 10 100 0 0 0 0\n".to_string()
    )));
    assert_eq!(
        explanation_of(&answer).as_deref(),
        Some("awake.provider.counters_did_not_advance")
    );
}

#[test]
fn two_identical_samples_report_unknown_rather_than_a_fabricated_zero() {
    let mut provider = CpuProvider::new(Roots::at("/tmp/fixture"));
    provider.record(CpuProvider::read_from(Ok(
        "cpu  100 0 100 800 0 0 0 0\n".to_string()
    )));
    let answer = provider.record(CpuProvider::read_from(Ok(
        "cpu  100 0 100 800 0 0 0 0\n".to_string()
    )));
    assert!(matches!(answer, Answer::Unavailable { .. }));
}

#[test]
fn a_fully_busy_machine_reports_a_hundred_and_never_more() {
    let earlier = CpuTimes::parse("cpu  0 0 0 0 0 0 0 0\n").unwrap();
    let later = CpuTimes::parse("cpu  1000 0 0 0 0 0 0 0\n").unwrap();
    assert_eq!(later.utilization_since(&earlier), Some(100));
}

#[test]
fn a_missing_proc_stat_names_the_path_rather_than_reporting_an_idle_machine() {
    let mut provider = CpuProvider::new(Roots::at("/tmp/empty"));
    let path = provider.stat_path();
    let answer = provider.record(CpuProvider::read_from(Err(missing(&path))));
    let explanation = explanation_of(&answer).unwrap();
    assert!(explanation.contains("proc/stat"), "{explanation}");
}

#[test]
fn a_failed_read_keeps_the_earlier_sample_for_the_next_rate() {
    let mut provider = CpuProvider::new(Roots::at("/tmp/fixture"));
    provider.record(CpuProvider::read_from(Ok(
        "cpu  100 0 100 800 0 0 0 0\n".to_string()
    )));
    let failed = provider.record(CpuProvider::read_from(Err(missing("/proc/stat"))));
    assert!(matches!(failed, Answer::Unavailable { .. }));
    let next = provider.record(CpuProvider::read_from(Ok(
        "cpu  200 0 200 1400 0 0 0 0\n".to_string()
    )));
    assert_eq!(next, Answer::Known(25));
}

// ---- Audio ----------------------------------------------------------------

const RUNNING: &str = "state: RUNNING\nowner_pid   : 3312\ntrigger_time: 100.1\n";
const PREPARED: &str = "state: PREPARED\nowner_pid   : 3312\n";

fn cards(substreams: &[(&str, &str, &str)]) -> Vec<Card> {
    let mut out: Vec<Card> = Vec::new();
    for (card, pcm, status) in substreams {
        let pcm = Pcm {
            name: Some(pcm.to_string()),
            substreams: Some(vec![Some(status.to_string())]),
        };
        match out
            .iter_mut()
            .find(|c| c.name.as_deref() == Some(*card))
        {
            Some(existing) => existing.pcms.as_mut().unwrap().push(pcm),
            None => out.push(Card {
                name: Some(card.to_string()),
                pcms: Some(vec![pcm]),
            }),
        }
    }
    out
}

fn playing(listing: Vec<Card>) -> Option<bool> {
    match AudioProvider::answer(AudioProvider::playing(Ok(listing))) {
        Answer::Known(p) => Some(p),
        Answer::Unavailable { .. } => None,
    }
}

#[test]
fn a_running_playback_substream_is_audio_playing() {
    assert_eq!(playing(cards(&[("card1", "pcm0p", RUNNING)])), Some(true));
}

#[test]
fn a_closed_device_is_silence() {
    assert_eq!(playing(cards(&[("card1", "pcm0p", "closed\n")])), Some(false));
}

#[test]
fn a_paused_stream_that_is_open_but_not_running_is_not_playing() {
    assert_eq!(
        playing(cards(&[("card1", "pcm0p", PREPARED)])),
        Some(false),
        "matching on anything but closed would keep the machine awake for a paused video"
    );
}

#[test]
fn a_microphone_being_open_is_not_playback() {
    assert_eq!(
        playing(cards(&[("card1", "pcm0c", RUNNING), ("card1", "pcm0p", "closed\n")])),
        Some(false)
    );
}

#[test]
fn one_running_stream_among_several_cards_is_enough() {
    assert_eq!(
        playing(cards(&[
            ("card0", "pcm0p", "closed\n"),
            ("card1", "pcm0p", "closed\n"),
            ("card1", "pcm1p", RUNNING),
        ])),
        Some(true)
    );
}

#[test]
fn a_machine_with_no_sound_card_is_unavailable_rather_than_silent() {
    let answer = AudioProvider::answer(AudioProvider::playing(Ok(Vec::new())));
    assert_eq!(
        explanation_of(&answer).as_deref(),
        Some("awake.provider.no_alsa_playback_device"),
        "a machine with no card cannot report silence any more than it can report sound"
    );
}

#[test]
fn a_kernel_with_no_proc_asound_names_the_path_it_looked_for() {
    let provider = AudioProvider::new(Roots::at("/tmp/empty"));
    let answer = AudioProvider::answer(AudioProvider::playing(Err(missing(&provider.asound_dir()))));
    let explanation = explanation_of(&answer).unwrap();
    assert!(explanation.contains("asound"), "{explanation}");
}

#[test]
fn the_non_card_entries_under_proc_asound_are_not_walked() {
    let mut listing = vec![
        Card {
            name: Some("oss".to_string()),
            pcms: Some(Vec::new()),
        },
        Card {
            name: Some("cards".to_string()),
            pcms: None,
        },
    ];
    listing.extend(cards(&[("card1", "pcm0p", RUNNING)]));
    assert_eq!(playing(listing), Some(true));
}

// ---- Display --------------------------------------------------------------

fn drm(connectors: &[(&str, &str)]) -> Vec<DrmEntry> {
    connectors
        .iter()
        .map(|(name, status)| DrmEntry {
            name: Some(name.to_string()),
            status: Some(format!("{status}\n")),
        })
        .collect()
}

fn external(listing: Vec<DrmEntry>) -> Option<bool> {
    match DisplayProvider::answer(DisplayProvider::connectors(Ok(listing))) {
        Answer::Known(b) => Some(b),
        Answer::Unavailable { .. } => None,
    }
}

#[test]
fn a_laptop_with_only_its_own_panel_reports_no_external_display() {
    assert_eq!(
        external(drm(&[
            ("card1-eDP-1", "connected"),
            ("card1-HDMI-A-1", "disconnected"),
            ("card1-DP-1", "disconnected"),
        ])),
        Some(false)
    );
}

#[test]
fn a_monitor_on_hdmi_is_an_external_display() {
    assert_eq!(
        external(drm(&[("card1-eDP-1", "connected"), ("card1-HDMI-A-1", "connected")])),
        Some(true)
    );
}

#[test]
fn a_connector_that_cannot_tell_is_not_counted_as_a_monitor() {
    assert_eq!(
        external(drm(&[("card1-eDP-1", "connected"), ("card1-VGA-1", "unknown")])),
        Some(false),
        "keeping the machine awake for a monitor that may not be there is the wrong way to be wrong"
    );
}

#[test]
fn a_writeback_connector_is_not_a_screen_anyone_is_looking_at() {
    assert_eq!(
        external(drm(&[("card1-eDP-1", "connected"), ("card1-Writeback-1", "connected")])),
        Some(false)
    );
}

#[test]
fn an_internal_panel_is_recognized_by_every_name_the_kernel_uses_for_one() {
    assert_eq!(
        external(drm(&[
            ("card0-LVDS-1", "connected"),
            ("card0-DSI-1", "connected"),
            ("card0-eDP-1", "connected"),
        ])),
        Some(false)
    );
}

#[test]
fn the_card_and_render_nodes_are_not_mistaken_for_connectors() {
    let mut listing = vec![
        DrmEntry {
            name: Some("card1".to_string()),
            status: None,
        },
        DrmEntry {
            name: Some("renderD128".to_string()),
            status: None,
        },
        DrmEntry {
            name: Some("version".to_string()),
            status: None,
        },
    ];
    listing.extend(drm(&[("card1-eDP-1", "connected")]));
    let connectors = DisplayProvider::connectors(Ok(listing)).unwrap();
    assert_eq!(connectors.len(), 1);
    assert_eq!(connectors[0].name, "eDP-1");
    assert!(connectors[0].internal);
}

#[test]
fn a_machine_with_no_kernel_mode_setting_says_unavailable_rather_than_no() {
    let answer = DisplayProvider::answer(DisplayProvider::connectors(Ok(Vec::new())));
    assert_eq!(
        explanation_of(&answer).as_deref(),
        Some("awake.provider.no_drm_connectors")
    );
}

#[test]
fn a_missing_drm_directory_names_the_path_that_was_not_there() {
    let provider = DisplayProvider::new(Roots::at("/tmp/empty"));
    let answer = DisplayProvider::answer(DisplayProvider::connectors(Err(missing(
        &provider.drm_dir(),
    ))));
    let explanation = explanation_of(&answer).unwrap();
    assert!(explanation.contains("class/drm"), "{explanation}");
}

// ---- Network --------------------------------------------------------------

const HEADER: &str = "Inter-|   Receive                                                |  Transmit\n \
     face |bytes    packets errs drop fifo frame compressed multicast|bytes    packets errs drop fifo colls carrier compressed\n";

fn line(name: &str, received: u64, transmitted: u64) -> String {
    format!("{name:>7}: {received} 0 0 0 0 0 0 0 {transmitted} 0 0 0 0 0 0 0\n")
}

fn net_dev(body: &str) -> Result<u64, ReadError> {
    NetworkProvider::total_bytes_from(Ok(format!("{HEADER}{body}")))
}

fn lookup<'a>(parsed: &'a [(String, InterfaceBytes)], name: &str) -> Option<&'a InterfaceBytes> {
    parsed
        .iter()
        .find(|(n, _)| n == name)
        .map(|(_, bytes)| bytes)
}

#[test]
fn throughput_is_a_rate_between_two_samples() {
    let mut provider = NetworkProvider::throughput(Roots::at("/tmp/fixture"));
    let first = provider.record_throughput(1_000, net_dev(&line("wlp98s0", 1_000_000, 500_000)));
    assert!(matches!(first, Answer::Unavailable { .. }));

    // Ten mebibytes more across five seconds is two mebibytes a second.
    let second = provider.record_throughput(
        1_005,
        net_dev(&line("wlp98s0", 1_000_000 + 10 * 1_024 * 1_024, 500_000)),
    );
    assert_eq!(second, Answer::Known(2 * 1_024));
}

#[test]
fn loopback_traffic_never_keeps_the_machine_awake() {
    let mut provider = NetworkProvider::throughput(Roots::at("/tmp/fixture"));
    provider.record_throughput(1_000, net_dev(&line("lo", 0, 0)));
    let answer = provider.record_throughput(
        1_005,
        net_dev(&line("lo", 100 * 1_024 * 1_024, 100 * 1_024 * 1_024)),
    );
    assert_eq!(
        answer,
        Answer::Known(0),
        "two local processes talking to each other is not a download"
    );
}

#[test]
fn a_long_interface_name_with_no_space_after_the_colon_still_parses() {
    let text = format!("{HEADER}enp0s31f6xyz:1000 0 0 0 0 0 0 0 2000 0 0 0 0 0 0 0\n");
    let parsed = parse_net_dev(&text);
    assert_eq!(
        lookup(&parsed, "enp0s31f6xyz"),
        Some(&InterfaceBytes {
            received: 1_000,
            transmitted: 2_000
        })
    );
}

#[test]
fn a_truncated_line_is_skipped_rather_than_corrupting_the_total() {
    let text = format!("{HEADER}  eth0: 1 2 3\n{}", line("wlan0", 500, 500));
    let parsed = parse_net_dev(&text);
    assert!(lookup(&parsed, "eth0").is_none());
    assert_eq!(parsed.len(), 1);
}

#[test]
fn an_interface_that_was_recreated_reports_unknown_rather_than_negative_traffic() {
    let mut provider = NetworkProvider::throughput(Roots::at("/tmp/fixture"));
    provider.record_throughput(1_000, net_dev(&line("wlp98s0", 5_000_000, 0)));
    let answer = provider.record_throughput(1_005, net_dev(&line("wlp98s0", 10, 0)));
    assert_eq!(
        explanation_of(&answer).as_deref(),
        Some("awake.provider.counters_did_not_advance")
    );
}

#[test]
fn an_interface_reporting_unknown_carrier_counts_as_up_because_vpns_do_that() {
    let listing: Vec<InterfaceEntry> = [
        ("lo", "unknown"),
        ("wlp98s0", "up"),
        ("tailscale0", "unknown"),
        ("virbr0", "down"),
    ]
    .iter()
    .map(|(name, state)| InterfaceEntry {
        name: Some(name.to_string()),
        operstate: Ok(format!("{state}\n")),
    })
    .collect();
    let provider = NetworkProvider::interfaces(Roots::at("/tmp/fixture"));
    let answer = provider.answer_interfaces(NetworkProvider::up_interfaces_from(Ok(listing)));
    assert_eq!(
        answer,
        Answer::Known(vec![
            "lo".to_string(),
            "tailscale0".to_string(),
            "wlp98s0".to_string()
        ]),
        "a WireGuard or Tailscale device has no carrier concept and reports unknown"
    );
}

#[test]
fn a_missing_proc_net_dev_names_the_path_rather_than_reporting_no_traffic() {
    let mut provider = NetworkProvider::throughput(Roots::at("/tmp/empty"));
    let path = provider.net_dev_path();
    let answer = provider.record_throughput(1_000, NetworkProvider::total_bytes_from(Err(missing(&path))));
    let explanation = explanation_of(&answer).unwrap();
    assert!(explanation.contains("net/dev"), "{explanation}");
}

#[test]
fn the_interfaces_half_refuses_to_measure_throughput() {
    let mut provider = NetworkProvider::interfaces(Roots::at("/tmp/fixture"));
    let answer = provider.record_throughput(1_000, Ok(1));
    assert_eq!(
        explanation_of(&answer).as_deref(),
        Some("awake.provider.wrong_provider")
    );
}

// ---- Power ----------------------------------------------------------------

fn supplies(nodes: &[&[(&str, &str)]]) -> Vec<SupplyEntry> {
    nodes
        .iter()
        .map(|attributes| {
            let get = |key: &str| {
                attributes
                    .iter()
                    .find(|(k, _)| *k == key)
                    .map(|(_, v)| format!("{v}\n"))
            };
            SupplyEntry {
                supply_type: get("type"),
                online: get("online"),
                capacity: get("capacity"),
            }
        })
        .collect()
}

fn battery_of(nodes: &[&[(&str, &str)]]) -> Option<u8> {
    let provider = PowerProvider::battery(Roots::at("/tmp/fixture"));
    match provider.answer(PowerProvider::read(Ok(supplies(nodes)))) {
        Answer::Known(PowerValue::BatteryPercent(p)) => Some(p),
        _ => None,
    }
}

#[test]
fn a_laptop_on_the_charger_reports_ac_and_its_battery_level() {
    let nodes: &[&[(&str, &str)]] = &[
        &[("type", "Mains"), ("online", "1")],
        &[("type", "Battery"), ("capacity", "65")],
    ];
    let roots = Roots::at("/tmp/fixture");
    let ac = PowerProvider::ac(roots.clone()).answer(PowerProvider::read(Ok(supplies(nodes))));
    let battery = PowerProvider::battery(roots).answer(PowerProvider::read(Ok(supplies(nodes))));
    assert_eq!(ac, Answer::Known(PowerValue::AcConnected(true)));
    assert_eq!(battery, Answer::Known(PowerValue::BatteryPercent(65)));
}

#[test]
fn a_desktop_with_no_battery_says_so_instead_of_reporting_full() {
    let nodes: &[&[(&str, &str)]] = &[&[("type", "Mains"), ("online", "1")]];
    let provider = PowerProvider::battery(Roots::at("/tmp/fixture"));
    let answer = provider.answer(PowerProvider::read(Ok(supplies(nodes))));
    assert_eq!(
        explanation_of(&answer).as_deref(),
        Some("awake.provider.no_battery"),
        "a machine with no battery must not be reported as a full one"
    );
    assert!(!PowerProvider::has_battery(PowerProvider::read(Ok(supplies(nodes)))));
}

#[test]
fn a_machine_with_no_power_supply_directory_at_all_is_unavailable_not_unplugged() {
    let provider = PowerProvider::ac(Roots::at("/tmp/empty"));
    let path = provider.supplies_dir();
    let answer = provider.answer(PowerProvider::read(Err(missing(&path))));
    let explanation = explanation_of(&answer).unwrap();
    assert!(
        explanation.starts_with("awake.provider.interface_missing"),
        "unexpected explanation: {explanation}"
    );
}

#[test]
fn two_batteries_report_the_one_that_will_run_out_first() {
    assert_eq!(
        battery_of(&[
            &[("type", "Battery"), ("capacity", "80")],
            &[("type", "Battery"), ("capacity", "22")],
        ]),
        Some(22)
    );
}

#[test]
fn a_usb_c_supply_that_is_delivering_power_counts_as_on_ac() {
    let nodes: &[&[(&str, &str)]] = &[
        &[("type", "Mains"), ("online", "0")],
        &[("type", "USB"), ("online", "1")],
    ];
    let provider = PowerProvider::ac(Roots::at("/tmp/fixture"));
    assert_eq!(
        provider.answer(PowerProvider::read(Ok(supplies(nodes)))),
        Answer::Known(PowerValue::AcConnected(true)),
        "a laptop charged over USB-C is on external power"
    );
}

#[test]
fn a_supply_node_with_no_type_does_not_fail_the_whole_scan() {
    assert_eq!(
        battery_of(&[&[("online", "1")], &[("type", "Battery"), ("capacity", "50")]]),
        Some(50)
    );
}

#[test]
fn a_driver_reporting_past_a_hundred_percent_is_clamped_not_wrapped() {
    assert_eq!(battery_of(&[&[("type", "Battery"), ("capacity", "300")]]), Some(100));
}

#[test]
fn a_malformed_capacity_leaves_the_battery_unknown_rather_than_zero() {
    assert_eq!(
        battery_of(&[&[("type", "Battery"), ("capacity", "unknown")]]),
        None,
        "an unreadable capacity is not a flat battery"
    );
}

#[test]
fn the_battery_provider_polls_at_the_documented_interval() {
    let provider = PowerProvider::battery(Roots::system());
    assert_eq!(
        provider.cadence(),
        Cadence::Poll {
            seconds: POWER_POLL_SECONDS
        }
    );
}

#[test]
fn a_battery_powered_machine_is_recognized_from_its_hardware() {
    let laptop: &[&[(&str, &str)]] = &[
        &[("type", "Mains"), ("online", "1")],
        &[("type", "Battery"), ("capacity", "65")],
    ];
    assert!(PowerProvider::has_battery(PowerProvider::read(Ok(supplies(laptop)))));

    let desktop: &[&[(&str, &str)]] = &[&[("type", "Mains"), ("online", "1")]];
    assert!(!PowerProvider::has_battery(PowerProvider::read(Ok(supplies(desktop)))));
    assert!(!PowerProvider::has_battery(PowerProvider::read(Err(missing("/sys/class/power_supply")))));
}

#[test]
fn an_offline_supply_after_an_online_one_does_not_unplug_the_machine() {
    let nodes: &[&[(&str, &str)]] = &[
        &[("type", "USB"), ("online", "1")],
        &[("type", "Mains"), ("online", "0")],
    ];
    let provider = PowerProvider::ac(Roots::at("/tmp/fixture"));
    assert_eq!(
        provider.answer(PowerProvider::read(Ok(supplies(nodes)))),
        Answer::Known(PowerValue::AcConnected(true))
    );
}

// ---- Processes ------------------------------------------------------------

fn processes(entries: &[(u32, &str, Option<&str>)]) -> Vec<ProcessEntry> {
    entries
        .iter()
        .map(|(pid, comm, cgroup)| ProcessEntry {
            name: Some(pid.to_string()),
            comm: Some(format!("{comm}\n")),
            cgroup: cgroup.map(|c| format!("{c}\n")),
        })
        .collect()
}

fn sample_processes(listing: Vec<ProcessEntry>) -> (Option<Vec<String>>, Option<Vec<String>>) {
    match ProcessProvider::answer(ProcessProvider::scan(Ok(listing))) {
        Answer::Known((names, ids)) => (Some(names), ids),
        Answer::Unavailable { .. } => (None, None),
    }
}

#[test]
fn a_scan_reports_the_kernels_own_short_names_deduplicated_and_sorted() {
    let (names, _) = sample_processes(processes(&[
        (1, "systemd", None),
        (200, "java", None),
        (201, "java", None),
        (300, "gnome-shell", None),
    ]));
    assert_eq!(
        names,
        Some(vec![
            "gnome-shell".to_string(),
            "java".to_string(),
            "systemd".to_string()
        ])
    );
}

#[test]
fn the_non_process_entries_under_proc_are_not_mistaken_for_processes() {
    let mut listing = processes(&[(1, "systemd", None)]);
    listing.push(ProcessEntry {
        name: Some("stat".to_string()),
        comm: None,
        cgroup: None,
    });
    listing.push(ProcessEntry {
        name: Some("self".to_string()),
        comm: Some("impostor\n".to_string()),
        cgroup: None,
    });
    assert_eq!(sample_processes(listing).0, Some(vec!["systemd".to_string()]));
}

#[test]
fn a_desktop_launched_application_is_matchable_by_its_identifier() {
    let (_, ids) = sample_processes(processes(&[(
        200,
        "gnome-builder",
        Some(
            "0::/user.slice/user-1000.slice/user@1000.service/app.slice/app-gnome-org.gnome.Builder-3312.scope",
        ),
    )]));
    assert_eq!(ids, Some(vec!["org.gnome.Builder".to_string()]));
}

#[test]
fn a_systemd_escaped_hyphen_is_unescaped_so_a_rule_can_be_written_normally() {
    assert_eq!(
        desktop_id_from_cgroup(
            "0::/user.slice/app.slice/app-gnome-org.gnome.Text\\x2dEditor-991.scope"
        ),
        Some("org.gnome.Text-Editor".to_string())
    );
}

#[test]
fn a_flatpak_and_a_snap_scope_both_yield_the_application_identifier() {
    assert_eq!(
        desktop_id_from_cgroup("0::/app.slice/app-flatpak-com.spotify.Client-4001.scope"),
        Some("com.spotify.Client".to_string())
    );
    assert_eq!(
        desktop_id_from_cgroup("0::/app.slice/app-snap-code-77.scope"),
        Some("code".to_string())
    );
}

#[test]
fn a_system_service_has_no_desktop_identifier_and_that_is_not_a_failure() {
    assert_eq!(
        desktop_id_from_cgroup("0::/system.slice/NetworkManager.service"),
        None
    );
    assert_eq!(desktop_id_from_cgroup("0::/user.slice/session-2.scope"), None);
    assert_eq!(desktop_id_from_cgroup(""), None);
}

#[test]
fn a_cgroup_v1_style_line_is_read_the_same_way() {
    assert_eq!(
        desktop_id_from_cgroup(
            "12:name=systemd:/user.slice/app.slice/app-gnome-org.gnome.Nautilus-2200.scope"
        ),
        Some("org.gnome.Nautilus".to_string())
    );
}

#[test]
fn an_unreadable_cgroup_makes_desktop_ids_unknown_not_an_empty_list() {
    let (names, ids) = sample_processes(processes(&[(1, "systemd", None), (200, "java", None)]));
    assert!(names.is_some());
    assert_eq!(
        ids, None,
        "not knowing which applications are running is not the same as none being"
    );
}

#[test]
fn a_readable_cgroup_with_no_application_scope_is_an_empty_list_not_unknown() {
    let (_, ids) = sample_processes(processes(&[(1, "systemd", Some("0::/system.slice/init.scope"))]));
    assert_eq!(ids, Some(Vec::new()));
}

#[test]
fn a_missing_proc_reports_unavailable_rather_than_an_idle_machine() {
    let provider = ProcessProvider::new(Roots::at("/tmp/empty"));
    let answer = ProcessProvider::answer(ProcessProvider::scan(Err(missing(provider.proc_dir()))));
    assert!(matches!(answer, Answer::Unavailable { .. }));
}

#[test]
fn a_process_that_exits_mid_scan_does_not_fail_the_whole_sample() {
    let mut listing = processes(&[(1, "systemd", None)]);
    listing.push(ProcessEntry {
        name: Some("999".to_string()),
        comm: None,
        cgroup: None,
    });
    assert_eq!(sample_processes(listing).0, Some(vec!["systemd".to_string()]));
}

// ---- Cadences -------------------------------------------------------------

#[test]
fn only_a_polling_cadence_has_an_interval_to_report() {
    assert_eq!(Cadence::Poll { seconds: 5 }.poll_seconds(), Some(5));
    assert_eq!(Cadence::EventDriven.poll_seconds(), None);
    assert_eq!(Cadence::Free.poll_seconds(), None);
}

#[test]
fn no_polling_provider_reads_more_often_than_once_a_second() {
    for seconds in [
        PROCESS_POLL_SECONDS,
        POWER_POLL_SECONDS,
        DISPLAY_POLL_SECONDS,
        AUDIO_POLL_SECONDS,
        CPU_POLL_SECONDS,
        NETWORK_POLL_SECONDS,
    ] {
        assert!(seconds >= 1, "a sub-second poll interval is a busy loop");
        assert!(seconds <= 60, "a minute-plus interval would feel broken");
    }
}

#[test]
fn every_cadence_has_a_stable_key() {
    assert_eq!(Cadence::Poll { seconds: 5 }.as_key(), "poll");
    assert_eq!(Cadence::EventDriven.as_key(), "event_driven");
    assert_eq!(Cadence::Free.as_key(), "free");
}

#[test]
fn the_cadence_table_matches_each_provider() {
    let roots = Roots::at("/tmp/fixture");
    assert_eq!(
        cadence_of(ProviderKind::ProcessRunning),
        ProcessProvider::new(roots.clone()).cadence()
    );
    assert_eq!(cadence_of(ProviderKind::AcPower), PowerProvider::ac(roots.clone()).cadence());
    assert_eq!(
        cadence_of(ProviderKind::ExternalDisplay),
        DisplayProvider::new(roots.clone()).cadence()
    );
    assert_eq!(
        cadence_of(ProviderKind::AudioPlayback),
        AudioProvider::new(roots.clone()).cadence()
    );
    assert_eq!(cadence_of(ProviderKind::CpuUtilization), CpuProvider::new(roots).cadence());
    assert_eq!(cadence_of(ProviderKind::WatchedPath), Cadence::EventDriven);
    assert_eq!(all_provider_kinds().len(), 11);
}

#[test]
fn a_report_works_or_explains_itself_never_both() {
    let known = ProviderReport::from_answer(ProviderKind::AcPower, &Answer::Known(true));
    assert!(known.available);
    assert_eq!(known.explanation, None);
    assert_eq!(known.cadence, Cadence::Poll { seconds: POWER_POLL_SECONDS });

    let unknown: Answer<bool> = FullscreenProvider.answer();
    let report = ProviderReport::from_answer(ProviderKind::Fullscreen, &unknown);
    assert!(!report.available);
    assert_eq!(report.explanation.as_deref(), Some(FULLSCREEN_UNAVAILABLE));
}

// ---- Fullscreen -----------------------------------------------------------

#[test]
fn the_fullscreen_provider_reports_itself_unavailable_with_a_reason() {
    let answer = FullscreenProvider.answer();
    assert_eq!(explanation_of(&answer).as_deref(), Some(FULLSCREEN_UNAVAILABLE));
    assert_eq!(FullscreenProvider.kind(), ProviderKind::Fullscreen);
}

#[test]
fn reporting_nothing_costs_nothing() {
    assert_eq!(FullscreenProvider.cadence(), Cadence::Free);
}

// ---- Roots ----------------------------------------------------------------

#[test]
fn a_missing_interface_and_an_unreadable_one_are_different_answers() {
    assert_eq!(
        ReadError::Missing {
            path: "/sys/class/power_supply".to_string()
        }
        .as_key(),
        "awake.provider.interface_missing"
    );
    assert_eq!(
        ReadError::PermissionDenied {
            path: "/proc/1/cgroup".to_string()
        }
        .as_key(),
        "awake.provider.permission_denied"
    );
}

#[test]
fn an_explanation_names_the_path_a_person_would_go_and_look_at() {
    let error = ReadError::Missing {
        path: "/sys/class/drm".to_string(),
    };
    assert_eq!(
        error.explanation(),
        "awake.provider.interface_missing:/sys/class/drm"
    );
}

#[test]
fn reading_a_path_that_is_not_there_reports_missing_rather_than_failing() {
    let error = ReadError::from_io("/proc/definitely-not-a-kernel-interface", &IoFailure::NotFound);
    assert!(matches!(error, ReadError::Missing { .. }));
    let denied = ReadError::from_io("/proc/1/environ", &IoFailure::PermissionDenied);
    assert!(matches!(denied, ReadError::PermissionDenied { .. }));
}

#[test]
fn a_captured_tree_is_addressed_the_same_way_the_real_one_is() {
    let roots = Roots::at("/tmp/fixture");
    assert_eq!(
        roots.sys_path("class/power_supply"),
        "/tmp/fixture/sys/class/power_supply"
    );
    assert_eq!(roots.proc_path("stat"), "/tmp/fixture/proc/stat");
}

#[test]
fn a_non_numeric_attribute_is_a_failure_and_not_a_zero() {
    let result = read_u64_attribute("/tmp/fixture/capacity", Ok("unknown\n".to_string()));
    assert!(matches!(result, Err(ReadError::Failed { .. })));
    match result {
        Err(ReadError::Failed { detail, .. }) => {
            assert_eq!(detail, "not an unsigned integer: \"unknown\"")
        }
        other => panic!("{other:?}"),
    }
    assert_eq!(
        read_u64_attribute("/tmp/fixture/capacity", Ok("42\n".to_string())),
        Ok(42)
    );
}

#[test]
fn the_system_roots_are_the_real_kernel_interfaces() {
    let roots = Roots::system();
    assert_eq!(roots.proc_dir(), "/proc");
    assert_eq!(roots.sys_dir(), "/sys");
    assert_eq!(roots.proc_path("stat"), "/proc/stat");
}

/// The listing of a fake `/proc` read the way the service reads it: only the
/// files the provider names for each entry are looked up.
fn read_tree(provider: &ProcessProvider, names: &[&str], tree: &std::collections::HashMap<String, String>) -> Vec<ProcessEntry> {
    names
        .iter()
        .map(|name| {
            let name = Some(name.to_string());
            let files = provider.entry_files(&name);
            ProcessEntry {
                comm: files.as_ref().and_then(|f| tree.get(&f.comm).cloned()),
                cgroup: files.as_ref().and_then(|f| tree.get(&f.cgroup).cloned()),
                name,
            }
        })
        .collect()
}

#[test]
fn a_scan_answers_from_comm_and_cgroup_alone() {
    let provider = ProcessProvider::new(Roots::at("/fixture"));
    let files = provider.entry_files(&Some("200".to_string())).unwrap();
    assert_eq!(files.comm, "/fixture/proc/200/comm");
    assert_eq!(files.cgroup, "/fixture/proc/200/cgroup");
    assert_eq!(provider.entry_files(&Some("self".to_string())), None);
    assert_eq!(provider.entry_files(&None), None);

    let mut first = std::collections::HashMap::new();
    first.insert("/fixture/proc/200/comm".to_string(), "myapp\n".to_string());
    first.insert(
        "/fixture/proc/200/cgroup".to_string(),
        "0::/user.slice/app-org.example.App-200.scope\n".to_string(),
    );
    let mut second = first.clone();
    second.insert(
        "/fixture/proc/200/cmdline".to_string(),
        "myapp\0--password\0hunter2\0".to_string(),
    );
    second.insert("/fixture/proc/self/comm".to_string(), "hunter2\n".to_string());

    let a = ProcessProvider::scan(Ok(read_tree(&provider, &["200", "self"], &first))).unwrap();
    let b = ProcessProvider::scan(Ok(read_tree(&provider, &["200", "self", "stat"], &second))).unwrap();
    assert_eq!(a, b);
    assert_eq!(a.executable_names, vec!["myapp".to_string()]);
    assert!(!b.executable_names.iter().chain(b.desktop_ids.iter()).any(|s| s.contains("hunter2")));
}

#[test]
fn counters_that_would_overflow_a_sum_are_caught_before_parsing() {
    assert!(better_awake::cpu::counters_fit("cpu  1 2 3 4 5 6 7 8\n"));
    assert!(better_awake::cpu::counters_fit("no cpu line here\n"));
    let max = u64::MAX;
    assert!(!better_awake::cpu::counters_fit(&format!("cpu  {max} 1 0 0 0 0 0 0\n")));
    assert!(!better_awake::cpu::counters_fit(&format!("cpu  0 0 0 {max} 1 0 0 0\n")));

    let earlier = CpuTimes { idle: 0, total: 0 };
    assert!(CpuTimes { idle: 0, total: 1_000 }.fits_with(&earlier));
    assert!(!CpuTimes { idle: 0, total: u64::MAX }.fits_with(&earlier));

    let mut provider = CpuProvider::new(Roots::at("/tmp/fixture"));
    assert!(provider.can_record(&Ok(Some(CpuTimes { idle: 0, total: u64::MAX }))));
    let _ = provider.record(Ok(Some(earlier)));
    assert!(!provider.can_record(&Ok(Some(CpuTimes { idle: 0, total: u64::MAX }))));
}
