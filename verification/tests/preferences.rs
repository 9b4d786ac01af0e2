use better_awake::preferences::{
    DEFAULT_BATTERY_STOP_PERCENT, MAX_PRESETS, PREFERENCES_FILE_NAME, PresetLabel, PresetLength,
    Preferences, PreferencesStore, StoredTheme, settle_preferences,
};

#[test]
fn an_unconfigured_window_opens_dark() {
    assert_eq!(Preferences::default().theme, StoredTheme::Dark);
    assert_eq!(Preferences::default().locale, "system");
}

#[test]
fn reordering_a_preset_keeps_the_default_pointing_at_the_same_preset() {
    let mut preferences = Preferences::default();
    let default_before = preferences.presets[preferences.default_preset];

    assert!(preferences.move_preset(1, -1));
    assert_eq!(
        preferences.presets[preferences.default_preset],
        default_before
    );
    assert_eq!(preferences.default_preset, 0);

    // Moving past either end is refused rather than silently clamped.
    assert!(!preferences.move_preset(0, -1));
    let last = preferences.presets.len() - 1;
    assert!(!preferences.move_preset(last, 1));
}

#[test]
fn the_last_preset_cannot_be_removed_and_defaults_can_be_restored() {
    let mut preferences = Preferences::default();
    while preferences.presets.len() > 1 {
        assert!(preferences.remove_preset(0));
    }
    assert!(
        !preferences.remove_preset(0),
        "the tray would have been left with a submenu that starts nothing"
    );

    preferences.restore_default_presets();
    assert_eq!(preferences.presets, Preferences::shipped_presets());
    assert!(preferences.default_preset < preferences.presets.len());
}

#[test]
fn a_duplicate_preset_length_is_refused() {
    let mut preferences = Preferences::default();
    let existing = preferences.presets[0];
    assert!(!preferences.add_preset(existing));
    assert!(preferences.add_preset(PresetLength::Minutes { minutes: 45 }));
}

#[test]
fn a_full_preset_menu_takes_no_more() {
    let mut preferences = Preferences::default();
    let mut minutes = 1;
    while preferences.presets.len() < MAX_PRESETS {
        assert!(preferences.add_preset(PresetLength::Minutes { minutes }));
        minutes += 1;
    }
    assert!(!preferences.add_preset(PresetLength::Minutes { minutes: 999 }));
}

#[test]
fn removing_the_last_preset_in_the_list_moves_the_default_back_onto_the_list() {
    let mut preferences = Preferences::default();
    preferences.default_preset = 3;
    assert!(preferences.remove_preset(3));
    assert_eq!(preferences.default_preset, 2);
}

#[test]
fn a_preset_length_reads_as_hours_once_it_passes_an_hour() {
    assert_eq!(PresetLength::Minutes { minutes: 180 }.label_parts(), PresetLabel::Hours(3));
    assert_eq!(PresetLength::Minutes { minutes: 15 }.label_parts(), PresetLabel::Minutes(15));
    assert_eq!(PresetLength::Minutes { minutes: 90 }.label_parts(), PresetLabel::Minutes(90));
    assert_eq!(PresetLength::Indefinite.label_parts(), PresetLabel::Indefinite);
}

#[test]
fn preferences_read_back_are_trusted_only_when_usable() {
    let stored = Preferences {
        theme: StoredTheme::Light,
        locale: "zh-TW".to_string(),
        ..Preferences::default()
    };
    let (loaded, readable) = settle_preferences(Some(Some(stored.clone())));
    assert!(readable);
    assert_eq!(loaded, stored);

    let newer = Preferences {
        schema_version: 99,
        ..Preferences::default()
    };
    let (loaded, readable) = settle_preferences(Some(Some(newer)));
    assert!(!readable, "a file this build cannot understand is reported rather than trusted");
    assert_eq!(loaded, Preferences::default());

    let (_, readable) = settle_preferences(Some(None));
    assert!(!readable);
    let (first_run, readable) = settle_preferences(None);
    assert!(readable);
    assert_eq!(first_run.defaults.battery_stop_percent, Some(DEFAULT_BATTERY_STOP_PERCENT));
}

#[test]
fn the_preferences_live_beside_the_service_files() {
    let store = PreferencesStore::from_default_path(None, Some("/home/tim"));
    assert_eq!(
        store.path(),
        &format!("/home/tim/.local/state/better-awake/{PREFERENCES_FILE_NAME}")
    );
    assert!(PreferencesStore::at_path("preferences.json".to_string())
        .path()
        .ends_with("preferences.json"));
}

#[test]
fn moving_the_default_preset_moves_the_default_index_with_it() {
    let mut preferences = Preferences::default();
    preferences.presets = vec![
        PresetLength::Minutes { minutes: 15 },
        PresetLength::Minutes { minutes: 15 },
        PresetLength::Minutes { minutes: 60 },
    ];
    preferences.default_preset = 0;
    assert!(preferences.move_preset(0, 1));
    assert_eq!(preferences.default_preset, 1, "the default follows its own preset, not an equal one");
    assert!(preferences.move_preset(2, -1));
    assert_eq!(preferences.default_preset, 2);
    assert!(preferences.move_preset(0, 1));
    assert_eq!(preferences.default_preset, 2, "a move elsewhere leaves the default where it is");
}
