//! The preferences the window owns: the quick-session presets, the defaults a
//! new session is given, the language, and the appearance.
//!
//! These are not session state. The service owns every session and every rule;
//! this holds only what a person chose about how sessions are offered.

use vstd::prelude::*;

use crate::session::SessionPolicy;
use crate::store::{default_path, default_path_spec};

verus! {

pub const PREFERENCES_FILE_NAME: &'static str = "awake-gui-preferences.json";

/// The only schema this window writes. A newer file is refused rather than
/// overwritten.
pub const PREFERENCES_SCHEMA_VERSION: u32 = 1;

/// The largest number of presets the tray menu can show without becoming a
/// scrolling list, which is not what a quick menu is for.
pub const MAX_PRESETS: usize = 8;

/// The battery level a new session stops at unless someone says otherwise.
pub const DEFAULT_BATTERY_STOP_PERCENT: u8 = 20;

/// How long a quick session runs.
#[derive(Clone, Copy, Debug, PartialEq, Eq, Structural)]
pub enum PresetLength {
    /// Runs until someone ends it.
    Indefinite,
    Minutes { minutes: u64 },
}

/// How a preset length is worded: whole hours once it passes an hour,
/// minutes otherwise.
#[derive(Clone, Copy, Debug, PartialEq, Eq, Structural)]
pub enum PresetLabel {
    Indefinite,
    Hours(u64),
    Minutes(u64),
}

pub open spec fn label_spec(p: PresetLength) -> PresetLabel {
    match p {
        PresetLength::Indefinite => PresetLabel::Indefinite,
        PresetLength::Minutes { minutes } => if minutes % 60 == 0 && minutes >= 60 {
            PresetLabel::Hours(minutes / 60)
        } else {
            PresetLabel::Minutes(minutes)
        },
    }
}

impl PresetLength {
    /// The wording a label is filled from.
    pub fn label_parts(self) -> (l: PresetLabel)
        ensures
            l == label_spec(self),
    {
        match self {
            PresetLength::Indefinite => PresetLabel::Indefinite,
            PresetLength::Minutes { minutes } => if minutes % 60 == 0 && minutes >= 60 {
                PresetLabel::Hours(minutes / 60)
            } else {
                PresetLabel::Minutes(minutes)
            },
        }
    }
}

#[derive(Clone, Copy, Debug, PartialEq, Eq, Structural)]
pub enum StoredTheme {
    Dark,
    Light,
    System,
}

/// What a new session is given when nothing else says otherwise.
#[derive(Clone, Copy, Debug, PartialEq, Eq, Structural)]
pub struct SessionDefaults {
    pub policy: SessionPolicy,
    /// `None` means a new session never stops itself for battery level.
    pub battery_stop_percent: Option<u8>,
}

impl Default for SessionDefaults {
    fn default() -> (d: Self)
        ensures
            d.policy.prevent_system_suspend && d.policy.prevent_idle,
            !d.policy.prevent_display_sleep && !d.policy.prevent_automatic_lock,
            d.battery_stop_percent == Some(DEFAULT_BATTERY_STOP_PERCENT),
    {
        SessionDefaults {
            policy: SessionPolicy::quick_default(),
            battery_stop_percent: Some(DEFAULT_BATTERY_STOP_PERCENT),
        }
    }
}

/// The lengths the tray menu offers out of the box.
pub open spec fn shipped_presets_spec() -> Seq<PresetLength> {
    seq![
        PresetLength::Minutes { minutes: 15 },
        PresetLength::Minutes { minutes: 60 },
        PresetLength::Minutes { minutes: 180 },
        PresetLength::Indefinite,
    ]
}

/// No length appears twice.
pub open spec fn distinct(s: Seq<PresetLength>) -> bool {
    forall|i: int, j: int| 0 <= i < j < s.len() ==> s[i] != s[j]
}

#[derive(Clone, Debug, PartialEq, Eq)]
pub struct Preferences {
    pub schema_version: u32,
    pub presets: Vec<PresetLength>,
    pub default_preset: usize,
    pub defaults: SessionDefaults,
    /// A locale key: `system`, `en-US`, or `zh-TW`.
    pub locale: String,
    pub theme: StoredTheme,
}

/// Preferences a window can use: the current schema, at least one preset, and
/// a default that points at one of them.
pub open spec fn usable(p: Preferences) -> bool {
    &&& p.schema_version == PREFERENCES_SCHEMA_VERSION
    &&& p.presets@.len() > 0
    &&& p.default_preset < p.presets@.len()
}

impl Default for Preferences {
    /// The shipped presets, the second one the default; the system language;
    /// and dark, because an unconfigured window opens dark rather than taking
    /// the toolkit's own light default.
    fn default() -> (p: Self)
        ensures
            p.schema_version == PREFERENCES_SCHEMA_VERSION,
            p.presets@ == shipped_presets_spec(),
            p.default_preset == 1,
            p.defaults.battery_stop_percent == Some(DEFAULT_BATTERY_STOP_PERCENT),
            p.locale@ == "system"@,
            p.theme == StoredTheme::Dark,
            usable(p),
    {
        let defaults = SessionDefaults::default();
        Preferences {
            schema_version: PREFERENCES_SCHEMA_VERSION,
            presets: Preferences::shipped_presets(),
            default_preset: 1,
            defaults,
            locale: String::from_str("system"),
            theme: StoredTheme::Dark,
        }
    }
}

impl Preferences {
    /// The lengths the tray menu offers out of the box.
    pub fn shipped_presets() -> (v: Vec<PresetLength>)
        ensures
            v@ == shipped_presets_spec(),
            distinct(v@),
    {
        let v = vec![
            PresetLength::Minutes { minutes: 15 },
            PresetLength::Minutes { minutes: 60 },
            PresetLength::Minutes { minutes: 180 },
            PresetLength::Indefinite,
        ];
        assert(v@ =~= shipped_presets_spec());
        v
    }

    /// Moves a preset one place up or down, keeping the default pointing at the
    /// same preset rather than at the same position. Moving past either end is
    /// refused rather than silently clamped.
    pub fn move_preset(&mut self, index: usize, delta: isize) -> (moved: bool)
        requires
            old(self).presets@.len() <= isize::MAX,
            index < old(self).presets@.len() ==> isize::MIN <= index + delta <= isize::MAX,
        ensures
            moved <==> (index < old(self).presets@.len() && 0 <= index + delta < old(self).presets@.len()),
            !moved ==> *final(self) == *old(self),
            moved ==> {
                let target = index + delta;
                &&& final(self).presets@ == old(self).presets@.update(index as int, old(self).presets@[target]).update(
                    target,
                    old(self).presets@[index as int],
                )
                &&& final(self).default_preset == (if old(self).default_preset == index {
                    target as usize
                } else if old(self).default_preset == target {
                    index
                } else {
                    old(self).default_preset
                })
                &&& old(self).default_preset < old(self).presets@.len() ==> final(self).presets@[final(self).default_preset as int]
                    == old(self).presets@[old(self).default_preset as int]
                &&& final(self).default_preset < final(self).presets@.len() <==> old(self).default_preset
                    < old(self).presets@.len()
                &&& final(self).schema_version == old(self).schema_version
                &&& final(self).defaults == old(self).defaults
                &&& final(self).locale == old(self).locale
                &&& final(self).theme == old(self).theme
            },
            usable(*old(self)) ==> usable(*final(self)),
            distinct(old(self).presets@) ==> distinct(final(self).presets@),
    {
        if index >= self.presets.len() {
            return false;
        }
        let target = index as isize + delta;
        if target < 0 || target as usize >= self.presets.len() {
            return false;
        }
        let target = target as usize;
        let default = self.default_preset;
        let a = self.presets[index];
        let b = self.presets[target];
        self.presets.set(index, b);
        self.presets.set(target, a);
        self.default_preset = if default == index {
            target
        } else if default == target {
            index
        } else {
            default
        };
        true
    }

    /// Removes a preset. The menu must keep at least one length, or the tray
    /// offers a submenu that starts nothing.
    pub fn remove_preset(&mut self, index: usize) -> (removed: bool)
        ensures
            removed <==> (old(self).presets@.len() > 1 && index < old(self).presets@.len()),
            !removed ==> *final(self) == *old(self),
            removed ==> {
                &&& final(self).presets@ == old(self).presets@.remove(index as int)
                &&& final(self).default_preset == (if old(self).default_preset >= final(self).presets@.len() {
                    (final(self).presets@.len() - 1) as usize
                } else {
                    old(self).default_preset
                })
                &&& final(self).schema_version == old(self).schema_version
                &&& final(self).defaults == old(self).defaults
                &&& final(self).locale == old(self).locale
                &&& final(self).theme == old(self).theme
            },
            final(self).presets@.len() >= 1 <==> old(self).presets@.len() >= 1,
            usable(*old(self)) ==> usable(*final(self)),
            distinct(old(self).presets@) ==> distinct(final(self).presets@),
    {
        if self.presets.len() <= 1 || index >= self.presets.len() {
            return false;
        }
        self.presets.remove(index);
        if self.default_preset >= self.presets.len() {
            self.default_preset = self.presets.len() - 1;
        }
        true
    }

    /// Adds a length at the end, unless it is already offered or the menu is
    /// full.
    pub fn add_preset(&mut self, length: PresetLength) -> (added: bool)
        ensures
            added <==> (old(self).presets@.len() < MAX_PRESETS && !old(self).presets@.contains(length)),
            !added ==> *final(self) == *old(self),
            added ==> final(self).presets@ == old(self).presets@.push(length) && final(self).default_preset
                == old(self).default_preset && final(self).schema_version == old(self).schema_version
                && final(self).defaults == old(self).defaults && final(self).locale == old(self).locale
                && final(self).theme == old(self).theme,
            usable(*old(self)) ==> usable(*final(self)),
            distinct(old(self).presets@) ==> distinct(final(self).presets@),
    {
        if self.presets.len() >= MAX_PRESETS {
            return false;
        }
        let mut i: usize = 0;
        while i < self.presets.len()
            invariant
                i <= self.presets.len(),
                forall|j: int| 0 <= j < i ==> self.presets@[j] != length,
            decreases self.presets.len() - i,
        {
            if self.presets[i] == length {
                return false;
            }
            i += 1;
        }
        self.presets.push(length);
        true
    }

    /// Puts the shipped presets back, with the second one the default.
    pub fn restore_default_presets(&mut self)
        ensures
            final(self).presets@ == shipped_presets_spec(),
            final(self).default_preset == 1,
            final(self).schema_version == old(self).schema_version,
            final(self).defaults == old(self).defaults,
            final(self).locale == old(self).locale,
            final(self).theme == old(self).theme,
    {
        self.presets = Preferences::shipped_presets();
        self.default_preset = 1;
    }

    /// Whether preferences read back from a file can be used as they are. A
    /// file this build cannot understand yields the defaults instead, and the
    /// window says that saving would overwrite something it could not read.
    pub fn is_usable(&self) -> (b: bool)
        ensures
            b == usable(*self),
    {
        self.schema_version == PREFERENCES_SCHEMA_VERSION && self.presets.len() > 0 && self.default_preset
            < self.presets.len()
    }
}

/// What loading preferences gives: the stored ones when they can be used,
/// else the defaults, and whether what was stored could be understood. A
/// missing file is a first run and counts as understood.
pub fn settle_preferences(read: Option<Option<Preferences>>) -> (r: (Preferences, bool))
    ensures
        usable(r.0),
        match read {
            None => r.1 && r.0.presets@ == shipped_presets_spec() && r.0.default_preset == 1,
            Some(Some(p)) => if usable(p) {
                r.1 && r.0 == p
            } else {
                !r.1 && r.0.presets@ == shipped_presets_spec() && r.0.default_preset == 1
            },
            Some(None) => !r.1 && r.0.presets@ == shipped_presets_spec() && r.0.default_preset == 1,
        },
{
    match read {
        None => (Preferences::default(), true),
        Some(Some(p)) => if p.is_usable() {
            (p, true)
        } else {
            (Preferences::default(), false)
        },
        Some(None) => (Preferences::default(), false),
    }
}

/// Where the preferences live, beside the service's own files.
#[derive(Clone, Debug, PartialEq, Eq)]
pub struct PreferencesStore {
    path: String,
}

impl PreferencesStore {
    pub closed spec fn path_view(&self) -> Seq<char> {
        self.path@
    }

    pub fn at_path(path: String) -> (s: Self)
        ensures
            s.path_view() == path@,
    {
        PreferencesStore { path }
    }

    /// `$XDG_STATE_HOME/better-awake/awake-gui-preferences.json`, falling back
    /// to `~/.local/state`, given the values of those two variables.
    pub fn from_default_path(xdg_state_home: Option<&str>, home: Option<&str>) -> (s: Self)
        ensures
            s.path_view() == default_path_spec(
                match xdg_state_home {
                    Some(x) => Some(x@),
                    None => None,
                },
                match home {
                    Some(h) => Some(h@),
                    None => None,
                },
                PREFERENCES_FILE_NAME@,
            ),
    {
        PreferencesStore { path: default_path(xdg_state_home, home, PREFERENCES_FILE_NAME) }
    }

    pub fn path(&self) -> (p: &String)
        ensures
            p@ == self.path_view(),
    {
        &self.path
    }
}

} // verus!
