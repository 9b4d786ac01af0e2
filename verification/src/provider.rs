//! What a trigger provider is, and what it must be honest about.
//!
//! A provider reports its own capability: when it cannot read its source it
//! answers with a stable key naming what is missing, never with a made-up
//! reading. And a provider states its cadence, so the idle cost of a rule set is
//! the sum of a short list of documented numbers.

use vstd::prelude::*;

verus! {

/// Every kind of condition a provider can answer.
#[derive(Clone, Copy, Debug, PartialEq, Eq, Structural)]
pub enum ProviderKind {
    ProcessRunning,
    AcPower,
    BatteryPercent,
    ExternalDisplay,
    AudioPlayback,
    CpuUtilization,
    NetworkThroughput,
    NetworkInterface,
    TimeSchedule,
    WatchedPath,
    Fullscreen,
}

/// The position of each kind in the order providers are sampled in.
pub open spec fn kind_index(kind: ProviderKind) -> nat {
    match kind {
        ProviderKind::ProcessRunning => 0,
        ProviderKind::AcPower => 1,
        ProviderKind::BatteryPercent => 2,
        ProviderKind::ExternalDisplay => 3,
        ProviderKind::AudioPlayback => 4,
        ProviderKind::CpuUtilization => 5,
        ProviderKind::NetworkThroughput => 6,
        ProviderKind::NetworkInterface => 7,
        ProviderKind::TimeSchedule => 8,
        ProviderKind::WatchedPath => 9,
        ProviderKind::Fullscreen => 10,
    }
}

pub open spec fn all_kinds_spec() -> Seq<ProviderKind> {
    seq![
        ProviderKind::ProcessRunning,
        ProviderKind::AcPower,
        ProviderKind::BatteryPercent,
        ProviderKind::ExternalDisplay,
        ProviderKind::AudioPlayback,
        ProviderKind::CpuUtilization,
        ProviderKind::NetworkThroughput,
        ProviderKind::NetworkInterface,
        ProviderKind::TimeSchedule,
        ProviderKind::WatchedPath,
        ProviderKind::Fullscreen,
    ]
}

/// Every provider kind, once each, in sampling order.
pub fn all_provider_kinds() -> (kinds: Vec<ProviderKind>)
    ensures
        kinds@ == all_kinds_spec(),
        kinds.len() == 11,
        forall|i: int| 0 <= i < 11 ==> kind_index(#[trigger] kinds@[i]) == i,
{
    let kinds = vec![
        ProviderKind::ProcessRunning,
        ProviderKind::AcPower,
        ProviderKind::BatteryPercent,
        ProviderKind::ExternalDisplay,
        ProviderKind::AudioPlayback,
        ProviderKind::CpuUtilization,
        ProviderKind::NetworkThroughput,
        ProviderKind::NetworkInterface,
        ProviderKind::TimeSchedule,
        ProviderKind::WatchedPath,
        ProviderKind::Fullscreen,
    ];
    assert(kinds@ =~= all_kinds_spec());
    kinds
}

/// How often a provider must be re-read, and what that costs when idle.
#[derive(Clone, Copy, Debug, PartialEq, Eq, Structural)]
pub enum Cadence {
    /// Re-read every `seconds`. The only shape that costs anything when
    /// nothing is happening.
    Poll { seconds: u64 },
    /// Updated by kernel events. Costs nothing between them.
    EventDriven,
    /// Answered by arithmetic with no I/O at all.
    Free,
}

impl Cadence {
    pub open spec fn poll_view(self) -> Option<u64> {
        match self {
            Cadence::Poll { seconds } => Some(seconds),
            _ => None,
        }
    }

    /// Only a polling cadence has an interval.
    pub fn poll_seconds(self) -> (s: Option<u64>)
        ensures
            s == self.poll_view(),
            s is Some <==> self is Poll,
    {
        match self {
            Cadence::Poll { seconds } => Some(seconds),
            Cadence::EventDriven | Cadence::Free => None,
        }
    }

    pub fn as_key(self) -> (k: &'static str)
        ensures
            k@ == (match self {
                Cadence::Poll { .. } => "poll"@,
                Cadence::EventDriven => "event_driven"@,
                Cadence::Free => "free"@,
            }),
    {
        match self {
            Cadence::Poll { .. } => "poll",
            Cadence::EventDriven => "event_driven",
            Cadence::Free => "free",
        }
    }
}

/// Process running: a build starting or ending is noticed within seconds.
pub const PROCESS_POLL_SECONDS: u64 = 5;

/// AC power and battery: both move slowly.
pub const POWER_POLL_SECONDS: u64 = 10;

/// External display: a monitor being plugged in is not urgent to the second.
pub const DISPLAY_POLL_SECONDS: u64 = 10;

/// Audio playback: matches the process cadence.
pub const AUDIO_POLL_SECONDS: u64 = 5;

/// CPU utilization: the interval is also the averaging window.
pub const CPU_POLL_SECONDS: u64 = 5;

/// Network throughput: the interval is the window the rate is measured over.
pub const NETWORK_POLL_SECONDS: u64 = 5;

/// The cadence each kind of provider declares.
pub open spec fn cadence_spec(kind: ProviderKind) -> Cadence {
    match kind {
        ProviderKind::ProcessRunning => Cadence::Poll { seconds: PROCESS_POLL_SECONDS },
        ProviderKind::AcPower => Cadence::Poll { seconds: POWER_POLL_SECONDS },
        ProviderKind::BatteryPercent => Cadence::Poll { seconds: POWER_POLL_SECONDS },
        ProviderKind::ExternalDisplay => Cadence::Poll { seconds: DISPLAY_POLL_SECONDS },
        ProviderKind::AudioPlayback => Cadence::Poll { seconds: AUDIO_POLL_SECONDS },
        ProviderKind::CpuUtilization => Cadence::Poll { seconds: CPU_POLL_SECONDS },
        ProviderKind::NetworkThroughput => Cadence::Poll { seconds: NETWORK_POLL_SECONDS },
        ProviderKind::NetworkInterface => Cadence::Poll { seconds: NETWORK_POLL_SECONDS },
        ProviderKind::TimeSchedule => Cadence::Free,
        ProviderKind::WatchedPath => Cadence::EventDriven,
        ProviderKind::Fullscreen => Cadence::Free,
    }
}

/// The cadence of one provider kind, for Diagnostics.
pub fn cadence_of(kind: ProviderKind) -> (c: Cadence)
    ensures
        c == cadence_spec(kind),
{
    match kind {
        ProviderKind::ProcessRunning => Cadence::Poll { seconds: PROCESS_POLL_SECONDS },
        ProviderKind::AcPower => Cadence::Poll { seconds: POWER_POLL_SECONDS },
        ProviderKind::BatteryPercent => Cadence::Poll { seconds: POWER_POLL_SECONDS },
        ProviderKind::ExternalDisplay => Cadence::Poll { seconds: DISPLAY_POLL_SECONDS },
        ProviderKind::AudioPlayback => Cadence::Poll { seconds: AUDIO_POLL_SECONDS },
        ProviderKind::CpuUtilization => Cadence::Poll { seconds: CPU_POLL_SECONDS },
        ProviderKind::NetworkThroughput => Cadence::Poll { seconds: NETWORK_POLL_SECONDS },
        ProviderKind::NetworkInterface => Cadence::Poll { seconds: NETWORK_POLL_SECONDS },
        ProviderKind::TimeSchedule => Cadence::Free,
        ProviderKind::WatchedPath => Cadence::EventDriven,
        ProviderKind::Fullscreen => Cadence::Free,
    }
}

/// No polling provider reads more often than once a second, and none waits
/// more than a minute: a faster poll is a busy loop, a slower one feels broken.
pub proof fn lemma_poll_intervals_are_bounded(kind: ProviderKind)
    ensures
        cadence_spec(kind) matches Cadence::Poll { seconds } ==> 1 <= seconds <= 60,
{
}

/// What one provider answered: a reading, or the stable key saying why not.
#[derive(Clone, Debug, PartialEq, Eq)]
pub enum Answer<T> {
    Known(T),
    Unavailable { explanation: String },
}

/// What a provider says about itself, for Diagnostics and for the rule
/// editor's unavailable-control explanation.
#[derive(Clone, Debug, PartialEq, Eq)]
pub struct ProviderReport {
    pub kind: ProviderKind,
    pub cadence: Cadence,
    pub available: bool,
    /// A stable key naming what is missing, when anything is.
    pub explanation: Option<String>,
}

impl ProviderReport {
    /// The report for one provider, from what it last answered.
    pub fn from_answer<T>(kind: ProviderKind, answer: &Answer<T>) -> (r: Self)
        ensures
            r.kind == kind,
            r.cadence == cadence_spec(kind),
            r.available == (answer is Known),
            match answer {
                Answer::Known(_) => r.explanation is None,
                Answer::Unavailable { explanation } => r.explanation matches Some(e) && e@
                    == explanation@,
            },
    {
        match answer {
            Answer::Known(_) => ProviderReport {
                kind,
                cadence: cadence_of(kind),
                available: true,
                explanation: None,
            },
            Answer::Unavailable { explanation } => ProviderReport {
                kind,
                cadence: cadence_of(kind),
                available: false,
                explanation: Some(explanation.clone()),
            },
        }
    }
}

/// An unavailable answer carrying a literal key.
pub fn unavailable<T>(key: &str) -> (a: Answer<T>)
    ensures
        a matches Answer::Unavailable { explanation } && explanation@ == key@,
{
    Answer::Unavailable { explanation: String::from_str(key) }
}

} // verus!
