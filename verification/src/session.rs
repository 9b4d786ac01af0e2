//! The shared vocabulary of a keep-awake session: what it prevents, who
//! started it, and when it ends.

use vstd::prelude::*;

verus! {

/// What a session holds off.
#[derive(Clone, Copy, Debug, Default, PartialEq, Eq, Structural)]
pub struct SessionPolicy {
    pub prevent_system_suspend: bool,
    pub prevent_idle: bool,
    pub prevent_display_sleep: bool,
    pub prevent_automatic_lock: bool,
}

impl SessionPolicy {
    /// What a quick session from the tray asks for: no suspend and no idle
    /// action, with the display and the lock screen left alone.
    pub fn quick_default() -> (p: Self)
        ensures
            p.prevent_system_suspend && p.prevent_idle,
            !p.prevent_display_sleep && !p.prevent_automatic_lock,
    {
        SessionPolicy {
            prevent_system_suspend: true,
            prevent_idle: true,
            prevent_display_sleep: false,
            prevent_automatic_lock: false,
        }
    }

    /// Nothing prevented.
    pub fn none() -> (p: Self)
        ensures
            !p.prevent_system_suspend && !p.prevent_idle,
            !p.prevent_display_sleep && !p.prevent_automatic_lock,
    {
        SessionPolicy {
            prevent_system_suspend: false,
            prevent_idle: false,
            prevent_display_sleep: false,
            prevent_automatic_lock: false,
        }
    }
}

/// One part of a policy that the backend in use cannot hold off.
#[derive(Clone, Copy, Debug, PartialEq, Eq, Structural)]
pub enum PolicyGap {
    SystemSuspend,
    Idle,
    DisplaySleep,
    AutomaticLock,
}

/// Whether a person started a session or a rule did.
#[derive(Clone, Copy, Debug, PartialEq, Eq, Structural)]
pub enum SessionOrigin {
    Manual,
    Trigger,
}

/// When a session ends by itself.
#[derive(Clone, Copy, Debug, PartialEq, Eq, Structural)]
pub enum EndCondition {
    Indefinite,
    Duration { seconds: u64 },
    UntilUnixSeconds { unix_seconds: u64 },
}

} // verus!
