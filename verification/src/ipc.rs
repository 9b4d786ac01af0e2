//! The local protocol the tray and the Status window speak to the service:
//! its limits, the wire shapes that carry state, the checks applied at the
//! edge, and the one reply that must always be readable, a rejection.
//!
//! The input discipline is closed enums, no unknown fields, and a size limit
//! applied to the raw bytes before parsing.

use vstd::prelude::*;

use crate::backend::BackendCapabilities;
use crate::provider::ProviderKind;
use crate::session::{EndCondition, PolicyGap, SessionOrigin, SessionPolicy};
use crate::text::{append_chars, chars_of, decimal, decimal_chars, string_of};

verus! {

/// The protocol both sides must agree on. A service rejects any other value
/// rather than guessing which fields it can still trust.
pub const PROTOCOL_VERSION: u32 = 2;

/// Largest accepted request. A session request is a handful of fields; anything
/// larger is a mistake or an attack.
pub const MAX_REQUEST_BYTES: usize = 16 * 1024;

/// Largest accepted reply, which grows with the number of active reasons.
pub const MAX_RESPONSE_BYTES: usize = 256 * 1024;

/// The smallest and largest battery thresholds worth offering. Zero would never
/// fire before the machine died; 100 would stop every session immediately.
pub const MIN_BATTERY_STOP_PERCENT: u8 = 1;

pub const MAX_BATTERY_STOP_PERCENT: u8 = 99;

/// The largest history page a client may ask for. A bigger request is refused
/// rather than answered, because a reply is size-limited and a silently
/// truncated page would look like the end of the history.
pub const MAX_HISTORY_PAGE: u32 = 200;

/// An end condition on the wire. It mirrors [`EndCondition`] so the protocol
/// keeps its own closed shape even if the session model grows a variant.
#[derive(Clone, Copy, Debug, PartialEq, Eq, Structural)]
pub enum WireEnd {
    Indefinite,
    Duration { seconds: u64 },
    UntilUnixSeconds { unix_seconds: u64 },
}

/// The session model's end condition a wire end names.
pub open spec fn end_of_wire(end: WireEnd) -> EndCondition {
    match end {
        WireEnd::Indefinite => EndCondition::Indefinite,
        WireEnd::Duration { seconds } => EndCondition::Duration { seconds },
        WireEnd::UntilUnixSeconds { unix_seconds } => EndCondition::UntilUnixSeconds { unix_seconds },
    }
}

/// The wire end an end condition is sent as.
pub open spec fn wire_of_end(end: EndCondition) -> WireEnd {
    match end {
        EndCondition::Indefinite => WireEnd::Indefinite,
        EndCondition::Duration { seconds } => WireEnd::Duration { seconds },
        EndCondition::UntilUnixSeconds { unix_seconds } => WireEnd::UntilUnixSeconds { unix_seconds },
    }
}

impl From<WireEnd> for EndCondition {
    fn from(end: WireEnd) -> (e: EndCondition) {
        match end {
            WireEnd::Indefinite => EndCondition::Indefinite,
            WireEnd::Duration { seconds } => EndCondition::Duration { seconds },
            WireEnd::UntilUnixSeconds { unix_seconds } => EndCondition::UntilUnixSeconds { unix_seconds },
        }
    }
}

impl vstd::std_specs::convert::FromSpecImpl<WireEnd> for EndCondition {
    open spec fn obeys_from_spec() -> bool {
        true
    }

    open spec fn from_spec(end: WireEnd) -> EndCondition {
        end_of_wire(end)
    }
}

impl From<EndCondition> for WireEnd {
    fn from(end: EndCondition) -> (w: WireEnd) {
        match end {
            EndCondition::Indefinite => WireEnd::Indefinite,
            EndCondition::Duration { seconds } => WireEnd::Duration { seconds },
            EndCondition::UntilUnixSeconds { unix_seconds } => WireEnd::UntilUnixSeconds { unix_seconds },
        }
    }
}

impl vstd::std_specs::convert::FromSpecImpl<EndCondition> for WireEnd {
    open spec fn obeys_from_spec() -> bool {
        true
    }

    open spec fn from_spec(end: EndCondition) -> WireEnd {
        wire_of_end(end)
    }
}

/// Converting an end condition to the wire and back gives it back unchanged,
/// and so does the other way round: the two shapes carry the same values.
pub proof fn lemma_wire_end_round_trip(end: EndCondition, wire: WireEnd)
    ensures
        end_of_wire(wire_of_end(end)) == end,
        wire_of_end(end_of_wire(wire)) == wire,
{
}

/// How much of a session is left, as a value the tray formats.
#[derive(Clone, Copy, Debug, PartialEq, Eq, Structural)]
pub enum WireRemaining {
    UntilEnded,
    Seconds { seconds: u64 },
    /// The end passed and the service has not reaped the session yet.
    Elapsed,
}

/// The six icon states, on the wire.
#[derive(Clone, Copy, Debug, PartialEq, Eq, Structural)]
pub enum WireIndicator {
    Inactive,
    ActiveManual,
    ActiveTrigger,
    PausedRules,
    AttentionRequired,
    Unavailable,
}

/// A session the previous run of the service never finished.
#[derive(Clone, Debug, PartialEq, Eq)]
pub struct WireInterrupted {
    pub reason: String,
    pub started_at_unix_seconds: u64,
    /// When the service last recorded that the session was still running.
    pub last_seen_unix_seconds: u64,
}

/// One rule that is currently holding a session, named so the tray can list
/// active reasons by rule rather than by opaque session id.
#[derive(Clone, Debug, PartialEq, Eq)]
pub struct WireActiveRule {
    pub rule_id: u64,
    pub name: String,
    pub session_id: u64,
    pub priority: u8,
}

/// How many rules exist and how many are switched on.
#[derive(Clone, Copy, Debug, Default, PartialEq, Eq, Structural)]
pub struct WireRuleSummary {
    pub total: u32,
    pub enabled: u32,
    /// Rules that match but could not be given a session, so a rule that
    /// silently never fires is visible rather than invisible.
    pub refused: u32,
}

/// Why automatic rules are suspended, on the wire.
#[derive(Clone, Copy, Debug, PartialEq, Eq, Structural)]
pub enum WireSuppression {
    PausedUntil { unix_seconds: u64 },
    PausedUntilResumed,
    Overridden,
}

/// One disagreement between active rules and how it was settled.
#[derive(Clone, Debug, PartialEq, Eq)]
pub struct WireConflict {
    /// A stable field key such as `prevent_display_sleep`.
    pub field: String,
    pub winner_rule_id: u64,
    pub winner_name: String,
    pub overridden_rule_ids: Vec<u64>,
    /// A stable key naming the rule that settled it.
    pub resolution_key: String,
}

/// The battery protection state the Status and Battery sections both show.
#[derive(Clone, Copy, Debug, Default, PartialEq, Eq, Structural)]
pub struct WireBatteryProtection {
    /// Whether this machine runs on a battery at all, read from the hardware
    /// rather than guessed.
    pub has_battery: bool,
    /// The current reading, absent when it cannot be read.
    pub percent: Option<u8>,
    pub on_ac_power: Option<bool>,
    /// The threshold in force across every active session.
    pub stop_below_percent: Option<u8>,
}

/// One group's answer inside a rule test.
#[derive(Clone, Copy, Debug, PartialEq, Eq, Structural)]
pub enum WireTruth {
    True,
    False,
    /// The provider that would answer this could not be read.
    Unknown,
}

/// One recorded session, on the wire. Deliberately not the store's own type:
/// the on-disk shape and the shape a client reads are allowed to move apart.
#[derive(Clone, Debug, PartialEq, Eq)]
pub struct WireHistoryEntry {
    pub session_id: u64,
    pub started_at_unix_seconds: u64,
    pub ended_at_unix_seconds: Option<u64>,
    pub origin: SessionOrigin,
    pub rule_id: Option<u64>,
    /// Already redacted by the store before it was written.
    pub reasons: Vec<String>,
    pub effective_policy: SessionPolicy,
    pub battery_stop_percent: Option<u8>,
    /// A stable end-cause key.
    pub end_cause: Option<String>,
    pub backend_failure: Option<String>,
    pub battery_stop_percent_at_stop: Option<u8>,
}

/// A page of history, newest first.
#[derive(Clone, Debug, PartialEq, Eq)]
pub struct HistoryDocument {
    pub entries: Vec<WireHistoryEntry>,
    /// How many the service holds in total, so a client can say "showing 50 of
    /// 312" rather than implying it has everything.
    pub total: u32,
    /// The cap the service enforces, so the History view can explain why an old
    /// session is not there instead of looking broken.
    pub retention_limit: u32,
    pub now_unix_seconds: u64,
}

/// One running session, on the wire.
#[derive(Clone, Debug, PartialEq, Eq)]
pub struct WireSession {
    pub session_id: u64,
    pub reason: String,
    pub origin: SessionOrigin,
    pub policy: SessionPolicy,
    pub battery_stop_percent: Option<u8>,
    pub end: WireEnd,
    pub started_at_unix_seconds: u64,
    pub remaining: WireRemaining,
}

/// What the service knows about the inhibitor backend it is using.
#[derive(Clone, Debug, PartialEq, Eq)]
pub struct WireBackend {
    /// A stable identifier such as `logind`. Never a localized name.
    pub name: String,
    pub available: bool,
    pub capabilities: BackendCapabilities,
    /// Present when the backend is unavailable or degraded. A stable key.
    pub detail: Option<String>,
}

/// One line of "why is this machine awake".
#[derive(Clone, Debug, PartialEq, Eq)]
pub struct WireReason {
    pub session_id: u64,
    pub origin: SessionOrigin,
    pub reason: String,
}

/// What one provider says about itself.
#[derive(Clone, Debug, PartialEq, Eq)]
pub struct WireProvider {
    pub kind: ProviderKind,
    pub available: bool,
    /// How often it is read; absent for a provider that needs no polling.
    pub poll_seconds: Option<u64>,
    /// A stable key naming what is missing, present exactly when `available`
    /// is false.
    pub explanation: Option<String>,
}

/// Everything a client needs to draw the menu or the Status window.
#[derive(Clone, Debug, PartialEq, Eq)]
pub struct StatusDocument {
    pub indicator: WireIndicator,
    /// The merged policy across every active session.
    pub effective_policy: SessionPolicy,
    /// Parts of that policy the backend cannot deliver.
    pub unmet_policy: Vec<PolicyGap>,
    pub battery_stop_percent: Option<u8>,
    pub sessions: Vec<WireSession>,
    pub reasons: Vec<WireReason>,
    pub backend: WireBackend,
    /// A stable key describing what needs attention, when anything does.
    pub attention: Option<String>,
    pub interrupted_previous_session: Option<WireInterrupted>,
    /// Whether the first-time security warning has already been accepted.
    pub reduced_security_confirmed: bool,
    /// Rules currently holding a session, in priority order.
    pub active_rules: Vec<WireActiveRule>,
    pub rule_summary: WireRuleSummary,
    pub rules_suppression: Option<WireSuppression>,
    pub conflicts: Vec<WireConflict>,
    pub providers: Vec<WireProvider>,
    pub battery_protection: WireBatteryProtection,
    /// The service's clock, so a client counts down against the same time the
    /// session was measured with.
    pub now_unix_seconds: u64,
}

/// The position of the first manual session in `s`.
pub open spec fn first_manual(s: Seq<WireSession>) -> Option<int>
    decreases s.len(),
{
    if s.len() == 0 {
        None
    } else {
        match first_manual(s.drop_last()) {
            Some(i) => Some(i),
            None => if s.last().origin == SessionOrigin::Manual {
                Some(s.len() - 1)
            } else {
                None
            },
        }
    }
}

/// The position of the first session in `s` with this id.
pub open spec fn first_with_id(s: Seq<WireSession>, session_id: u64) -> Option<int>
    decreases s.len(),
{
    if s.len() == 0 {
        None
    } else {
        match first_with_id(s.drop_last(), session_id) {
            Some(i) => Some(i),
            None => if s.last().session_id == session_id {
                Some(s.len() - 1)
            } else {
                None
            },
        }
    }
}

/// The manual session found is a manual one and the first of them, and no
/// session is found only when none is manual: a session a rule started is
/// never taken for the one a person started.
pub proof fn lemma_first_manual_is_manual(s: Seq<WireSession>)
    ensures
        first_manual(s) matches Some(i) ==> {
            &&& 0 <= i < s.len()
            &&& s[i].origin == SessionOrigin::Manual
            &&& forall|j: int| 0 <= j < i ==> (#[trigger] s[j]).origin != SessionOrigin::Manual
        },
        first_manual(s) is None <==> forall|j: int|
            0 <= j < s.len() ==> (#[trigger] s[j]).origin != SessionOrigin::Manual,
    decreases s.len(),
{
    if s.len() > 0 {
        let t = s.drop_last();
        lemma_first_manual_is_manual(t);
        assert forall|j: int| 0 <= j < t.len() implies t[j] == s[j] by {}
        if first_manual(s) is None {
            assert forall|j: int| 0 <= j < s.len() implies (#[trigger] s[j]).origin != SessionOrigin::Manual by {
                if j < t.len() {
                    assert(t[j] == s[j]);
                }
            }
        }
    }
}

/// The session found for an id carries that id and is the first that does,
/// and none is found only when no session carries it.
pub proof fn lemma_first_with_id_has_the_id(s: Seq<WireSession>, session_id: u64)
    ensures
        first_with_id(s, session_id) matches Some(i) ==> {
            &&& 0 <= i < s.len()
            &&& s[i].session_id == session_id
            &&& forall|j: int| 0 <= j < i ==> (#[trigger] s[j]).session_id != session_id
        },
        first_with_id(s, session_id) is None <==> forall|j: int|
            0 <= j < s.len() ==> (#[trigger] s[j]).session_id != session_id,
    decreases s.len(),
{
    if s.len() > 0 {
        let t = s.drop_last();
        lemma_first_with_id_has_the_id(t, session_id);
        assert forall|j: int| 0 <= j < t.len() implies t[j] == s[j] by {}
        if first_with_id(s, session_id) is None {
            assert forall|j: int| 0 <= j < s.len() implies (#[trigger] s[j]).session_id != session_id by {
                if j < t.len() {
                    assert(t[j] == s[j]);
                }
            }
        }
    }
}

impl StatusDocument {
    /// The manual session, if there is one. The tray's active menu describes it.
    pub fn manual_session(&self) -> (s: Option<&WireSession>)
        ensures
            match first_manual(self.sessions@) {
                Some(i) => 0 <= i < self.sessions@.len() && s == Some(&self.sessions@[i]),
                None => s is None,
            },
            s matches Some(x) ==> x.origin == SessionOrigin::Manual,
            s is None <==> forall|j: int|
                0 <= j < self.sessions@.len() ==> (#[trigger] self.sessions@[j]).origin != SessionOrigin::Manual,
    {
        proof {
            lemma_first_manual_is_manual(self.sessions@);
        }
        let mut i: usize = 0;
        while i < self.sessions.len()
            invariant
                i <= self.sessions.len(),
                first_manual(self.sessions@.take(i as int)) is None,
            decreases self.sessions.len() - i,
        {
            assert(self.sessions@.take(i + 1).drop_last() =~= self.sessions@.take(i as int));
            if self.sessions[i].origin == SessionOrigin::Manual {
                proof {
                    lemma_first_manual_prefix(self.sessions@, i as int + 1);
                }
                return Some(&self.sessions[i]);
            }
            i += 1;
        }
        assert(self.sessions@.take(i as int) =~= self.sessions@);
        None
    }

    pub fn is_active(&self) -> (b: bool)
        ensures
            b == (self.sessions@.len() > 0),
    {
        self.sessions.len() > 0
    }

    /// The session with this id, if the status lists it.
    pub fn session(&self, session_id: u64) -> (s: Option<&WireSession>)
        ensures
            match first_with_id(self.sessions@, session_id) {
                Some(i) => 0 <= i < self.sessions@.len() && s == Some(&self.sessions@[i]),
                None => s is None,
            },
            s matches Some(x) ==> x.session_id == session_id,
            s is None <==> forall|j: int|
                0 <= j < self.sessions@.len() ==> (#[trigger] self.sessions@[j]).session_id != session_id,
    {
        proof {
            lemma_first_with_id_has_the_id(self.sessions@, session_id);
        }
        let mut i: usize = 0;
        while i < self.sessions.len()
            invariant
                i <= self.sessions.len(),
                first_with_id(self.sessions@.take(i as int), session_id) is None,
            decreases self.sessions.len() - i,
        {
            assert(self.sessions@.take(i + 1).drop_last() =~= self.sessions@.take(i as int));
            if self.sessions[i].session_id == session_id {
                proof {
                    lemma_first_with_id_prefix(self.sessions@, session_id, i as int + 1);
                }
                return Some(&self.sessions[i]);
            }
            i += 1;
        }
        assert(self.sessions@.take(i as int) =~= self.sessions@);
        None
    }
}

/// Once a prefix has its first manual session, the whole sequence has the
/// same one.
proof fn lemma_first_manual_prefix(s: Seq<WireSession>, k: int)
    requires
        0 < k <= s.len(),
        first_manual(s.take(k)) is Some,
    ensures
        first_manual(s) == first_manual(s.take(k)),
        first_manual(s.take(k))->0 < k,
    decreases s.len() - k,
{
    lemma_first_manual_bound(s.take(k));
    if k < s.len() {
        assert(s.take(k + 1).drop_last() =~= s.take(k));
        lemma_first_manual_prefix(s, k + 1);
    } else {
        assert(s.take(k) =~= s);
    }
}

proof fn lemma_first_manual_bound(s: Seq<WireSession>)
    ensures
        first_manual(s) matches Some(i) ==> 0 <= i < s.len(),
    decreases s.len(),
{
    if s.len() > 0 {
        lemma_first_manual_bound(s.drop_last());
    }
}

proof fn lemma_first_with_id_prefix(s: Seq<WireSession>, session_id: u64, k: int)
    requires
        0 < k <= s.len(),
        first_with_id(s.take(k), session_id) is Some,
    ensures
        first_with_id(s, session_id) == first_with_id(s.take(k), session_id),
        first_with_id(s.take(k), session_id)->0 < k,
    decreases s.len() - k,
{
    lemma_first_with_id_bound(s.take(k), session_id);
    if k < s.len() {
        assert(s.take(k + 1).drop_last() =~= s.take(k));
        lemma_first_with_id_prefix(s, session_id, k + 1);
    } else {
        assert(s.take(k) =~= s);
    }
}

proof fn lemma_first_with_id_bound(s: Seq<WireSession>, session_id: u64)
    ensures
        first_with_id(s, session_id) matches Some(i) ==> 0 <= i < s.len(),
    decreases s.len(),
{
    if s.len() > 0 {
        lemma_first_with_id_bound(s.drop_last(), session_id);
    }
}

/// Protocol-level rejections. Every one reports a stable machine key.
#[derive(Clone, Debug, PartialEq, Eq)]
pub enum IpcError {
    PayloadTooLarge { bytes: usize, limit: usize },
    Malformed { detail: String },
    ProtocolVersion { found: u32, expected: u32 },
    InvalidSessionId { session_id: u64 },
    InvalidBatteryThreshold { percent: u8 },
    InvalidDuration { seconds: u64 },
    InvalidRuleId { rule_id: u64 },
    InvalidRulePosition { index: usize },
    InvalidPauseDuration { seconds: u64 },
    InvalidHistoryLimit { limit: u32 },
}

impl IpcError {
    pub open spec fn key_view(&self) -> Seq<char> {
        match self {
            IpcError::PayloadTooLarge { bytes, limit } => "awake.ipc.error.payload_too_large:"@ + decimal(
                *bytes as nat,
            ) + ":"@ + decimal(*limit as nat),
            IpcError::Malformed { detail } => "awake.ipc.error.malformed:"@ + detail@,
            IpcError::ProtocolVersion { found, expected } => "awake.ipc.error.protocol_version:"@ + decimal(
                *found as nat,
            ) + ":"@ + decimal(*expected as nat),
            IpcError::InvalidSessionId { session_id } => "awake.ipc.error.invalid_session_id:"@ + decimal(
                *session_id as nat,
            ),
            IpcError::InvalidBatteryThreshold { percent } => "awake.ipc.error.invalid_battery_threshold:"@
                + decimal(*percent as nat),
            IpcError::InvalidDuration { seconds } => "awake.ipc.error.invalid_duration:"@ + decimal(
                *seconds as nat,
            ),
            IpcError::InvalidRuleId { rule_id } => "awake.ipc.error.invalid_rule_id:"@ + decimal(
                *rule_id as nat,
            ),
            IpcError::InvalidRulePosition { index } => "awake.ipc.error.invalid_rule_position:"@ + decimal(
                *index as nat,
            ),
            IpcError::InvalidPauseDuration { seconds } => "awake.ipc.error.invalid_pause_duration:"@
                + decimal(*seconds as nat),
            IpcError::InvalidHistoryLimit { limit } => "awake.ipc.error.invalid_history_limit:"@ + decimal(
                *limit as nat,
            ),
        }
    }

    /// The stable key this rejection reports, with its values.
    pub fn key(&self) -> (k: String)
        ensures
            k@ == self.key_view(),
    {
        let mut out: Vec<char>;
        match self {
            IpcError::PayloadTooLarge { bytes, limit } => {
                out = chars_of("awake.ipc.error.payload_too_large:");
                append_chars(&mut out, &decimal_chars(*bytes as u64));
                append_chars(&mut out, &chars_of(":"));
                append_chars(&mut out, &decimal_chars(*limit as u64));
            },
            IpcError::Malformed { detail } => {
                out = chars_of("awake.ipc.error.malformed:");
                append_chars(&mut out, &chars_of(detail.as_str()));
            },
            IpcError::ProtocolVersion { found, expected } => {
                out = chars_of("awake.ipc.error.protocol_version:");
                append_chars(&mut out, &decimal_chars(*found as u64));
                append_chars(&mut out, &chars_of(":"));
                append_chars(&mut out, &decimal_chars(*expected as u64));
            },
            IpcError::InvalidSessionId { session_id } => {
                out = chars_of("awake.ipc.error.invalid_session_id:");
                append_chars(&mut out, &decimal_chars(*session_id));
            },
            IpcError::InvalidBatteryThreshold { percent } => {
                out = chars_of("awake.ipc.error.invalid_battery_threshold:");
                append_chars(&mut out, &decimal_chars(*percent as u64));
            },
            IpcError::InvalidDuration { seconds } => {
                out = chars_of("awake.ipc.error.invalid_duration:");
                append_chars(&mut out, &decimal_chars(*seconds));
            },
            IpcError::InvalidRuleId { rule_id } => {
                out = chars_of("awake.ipc.error.invalid_rule_id:");
                append_chars(&mut out, &decimal_chars(*rule_id));
            },
            IpcError::InvalidRulePosition { index } => {
                out = chars_of("awake.ipc.error.invalid_rule_position:");
                append_chars(&mut out, &decimal_chars(*index as u64));
            },
            IpcError::InvalidPauseDuration { seconds } => {
                out = chars_of("awake.ipc.error.invalid_pause_duration:");
                append_chars(&mut out, &decimal_chars(*seconds));
            },
            IpcError::InvalidHistoryLimit { limit } => {
                out = chars_of("awake.ipc.error.invalid_history_limit:");
                append_chars(&mut out, &decimal_chars(*limit as u64));
            },
        }
        string_of(&out)
    }
}

/// The size limit, applied to the raw bytes before anything parses them.
pub fn check_size(bytes: usize, limit: usize) -> (r: Result<(), IpcError>)
    ensures
        bytes <= limit ==> r is Ok,
        bytes > limit ==> r == Err::<(), IpcError>(IpcError::PayloadTooLarge { bytes, limit }),
{
    if bytes > limit {
        Err(IpcError::PayloadTooLarge { bytes, limit })
    } else {
        Ok(())
    }
}

/// Any protocol version but this one is refused rather than partly trusted.
pub fn check_protocol_version(found: u32) -> (r: Result<(), IpcError>)
    ensures
        found == PROTOCOL_VERSION ==> r is Ok,
        found != PROTOCOL_VERSION ==> r == Err::<(), IpcError>(
            IpcError::ProtocolVersion { found, expected: PROTOCOL_VERSION },
        ),
{
    if found != PROTOCOL_VERSION {
        Err(IpcError::ProtocolVersion { found, expected: PROTOCOL_VERSION })
    } else {
        Ok(())
    }
}

/// Session ids start at one, so zero is a client that lost track of which
/// session it meant.
pub fn validate_session_id(session_id: u64) -> (r: Result<(), IpcError>)
    ensures
        session_id != 0 ==> r is Ok,
        session_id == 0 ==> r == Err::<(), IpcError>(IpcError::InvalidSessionId { session_id }),
{
    if session_id == 0 {
        Err(IpcError::InvalidSessionId { session_id })
    } else {
        Ok(())
    }
}

/// Rule ids start at one, so zero is always a client that lost track of which
/// rule it meant rather than a rule that might exist.
pub fn validate_rule_id(rule_id: u64) -> (r: Result<(), IpcError>)
    ensures
        rule_id != 0 ==> r is Ok,
        rule_id == 0 ==> r == Err::<(), IpcError>(IpcError::InvalidRuleId { rule_id }),
{
    if rule_id == 0 {
        Err(IpcError::InvalidRuleId { rule_id })
    } else {
        Ok(())
    }
}

/// No threshold opts out of battery protection; a threshold must be one worth
/// offering.
pub fn validate_battery(percent: Option<u8>) -> (r: Result<(), IpcError>)
    ensures
        match percent {
            None => r is Ok,
            Some(p) => if MIN_BATTERY_STOP_PERCENT <= p <= MAX_BATTERY_STOP_PERCENT {
                r is Ok
            } else {
                r == Err::<(), IpcError>(IpcError::InvalidBatteryThreshold { percent: p })
            },
        },
{
    match percent {
        None => Ok(()),
        Some(p) => if MIN_BATTERY_STOP_PERCENT <= p && p <= MAX_BATTERY_STOP_PERCENT {
            Ok(())
        } else {
            Err(IpcError::InvalidBatteryThreshold { percent: p })
        },
    }
}

/// A duration must be something and no longer than the longest session.
pub fn validate_duration(seconds: u64, max_session_seconds: u64) -> (r: Result<(), IpcError>)
    ensures
        0 < seconds <= max_session_seconds ==> r is Ok,
        !(0 < seconds <= max_session_seconds) ==> r == Err::<(), IpcError>(IpcError::InvalidDuration { seconds }),
{
    if seconds == 0 || seconds > max_session_seconds {
        Err(IpcError::InvalidDuration { seconds })
    } else {
        Ok(())
    }
}

/// Only the shape-independent part of an end condition: whether an `until`
/// time is in the past depends on the clock, so the service checks that
/// against its own.
pub fn validate_end(end: WireEnd, max_session_seconds: u64) -> (r: Result<(), IpcError>)
    ensures
        match end {
            WireEnd::Duration { seconds } => if 0 < seconds <= max_session_seconds {
                r is Ok
            } else {
                r == Err::<(), IpcError>(IpcError::InvalidDuration { seconds })
            },
            _ => r is Ok,
        },
{
    match end {
        WireEnd::Duration { seconds } => validate_duration(seconds, max_session_seconds),
        WireEnd::Indefinite | WireEnd::UntilUnixSeconds { .. } => Ok(()),
    }
}

/// A position must lie inside the rule list's bound.
pub fn validate_rule_position(to_index: u32, max_rules: usize) -> (r: Result<(), IpcError>)
    ensures
        (to_index as int) < max_rules ==> r is Ok,
        (to_index as int) >= max_rules ==> r == Err::<(), IpcError>(
            IpcError::InvalidRulePosition { index: to_index as usize },
        ),
{
    let index = to_index as usize;
    if index >= max_rules {
        Err(IpcError::InvalidRulePosition { index })
    } else {
        Ok(())
    }
}

/// A pause is until resumed, or one of the offered lengths; a length nobody
/// offered is refused at the edge rather than after a round trip.
pub fn validate_pause(seconds: Option<u64>, offered_short: u64, offered_long: u64) -> (r: Result<(), IpcError>)
    ensures
        match seconds {
            None => r is Ok,
            Some(s) => if s == offered_short || s == offered_long {
                r is Ok
            } else {
                r == Err::<(), IpcError>(IpcError::InvalidPauseDuration { seconds: s })
            },
        },
{
    match seconds {
        Some(s) => if s != offered_short && s != offered_long {
            Err(IpcError::InvalidPauseDuration { seconds: s })
        } else {
            Ok(())
        },
        None => Ok(()),
    }
}

/// A history page must hold something and no more than the page bound.
pub fn validate_history_limit(limit: u32) -> (r: Result<(), IpcError>)
    ensures
        0 < limit <= MAX_HISTORY_PAGE ==> r is Ok,
        !(0 < limit <= MAX_HISTORY_PAGE) ==> r == Err::<(), IpcError>(IpcError::InvalidHistoryLimit { limit }),
{
    if limit == 0 || limit > MAX_HISTORY_PAGE {
        Err(IpcError::InvalidHistoryLimit { limit })
    } else {
        Ok(())
    }
}

// ---------------------------------------------------------------------------
// Rejections
// ---------------------------------------------------------------------------

/// A lowercase hexadecimal digit.
pub open spec fn hex_digit(d: int) -> char {
    if d < 10 {
        (('0' as int) + d) as char
    } else {
        (('a' as int) + d - 10) as char
    }
}

/// How serde_json writes one character inside a JSON string: a quote and a
/// backslash are escaped with a backslash; backspace, tab, line feed, form
/// feed and carriage return take their short escapes; every other control
/// character below U+0020 becomes `\u00XX` in lowercase hexadecimal; anything
/// else is written as it is.
pub open spec fn json_escape(c: char) -> Seq<char> {
    if c == '"' {
        seq!['\\', '"']
    } else if c == '\\' {
        seq!['\\', '\\']
    } else if c == '\u{8}' {
        seq!['\\', 'b']
    } else if c == '\t' {
        seq!['\\', 't']
    } else if c == '\n' {
        seq!['\\', 'n']
    } else if c == '\u{c}' {
        seq!['\\', 'f']
    } else if c == '\r' {
        seq!['\\', 'r']
    } else if (c as int) < 0x20 {
        seq!['\\', 'u', '0', '0', hex_digit((c as int) / 16), hex_digit((c as int) % 16)]
    } else {
        seq![c]
    }
}

pub open spec fn json_escaped(s: Seq<char>) -> Seq<char>
    decreases s.len(),
{
    if s.len() == 0 {
        seq![]
    } else {
        json_escaped(s.drop_last()) + json_escape(s.last())
    }
}

/// The JSON string for `s`: its escaped characters between double quotes.
pub open spec fn json_quoted(s: Seq<char>) -> Seq<char> {
    seq!['"'] + json_escaped(s) + seq!['"']
}

/// `serde_json::to_string` on a string slice. serde_json writes a string
/// through its escape table (`ser.rs`, `format_escaped_str_contents` and
/// `write_char_escape`), which [`json_escape`] states character by character,
/// between double quotes; writing into its own byte vector cannot fail, so
/// the result is always there.
#[verifier::external_body]
fn json_string(s: &str) -> (r: Option<String>)
    ensures
        r is Some,
        r->0@ == json_quoted(s@),
{
    serde_json::to_string(s).ok()
}

/// The rejection document for a key that was encoded as `quoted`.
pub open spec fn rejection_text(quoted: Seq<char>) -> Seq<char> {
    "{\"protocol_version\":"@ + decimal(PROTOCOL_VERSION as nat) + ",\"body\":{\"response\":\"rejected\",\"error_key\":"@
        + quoted + "}}"@
}

/// The reply document refusing a request, carrying `error_key`.
///
/// It is always a readable document. Encoding a string cannot fail, but
/// should it, the document names the generic malformed-request key rather
/// than costing the service the sessions it holds.
pub fn rejection_string(error_key: &str) -> (doc: String)
    ensures
        doc@ == rejection_text(json_quoted(error_key@)),
{
    let mut out = chars_of("{\"protocol_version\":");
    append_chars(&mut out, &decimal_chars(PROTOCOL_VERSION as u64));
    match json_string(error_key) {
        Some(quoted) => {
            append_chars(&mut out, &chars_of(",\"body\":{\"response\":\"rejected\",\"error_key\":"));
            append_chars(&mut out, &chars_of(quoted.as_str()));
            append_chars(&mut out, &chars_of("}}"));
        },
        None => {
            append_chars(
                &mut out,
                &chars_of(",\"body\":{\"response\":\"rejected\",\"error_key\":\"awake.ipc.error.malformed\"}}"),
            );
        },
    }
    string_of(&out)
}

/// The reply document refusing a request for `error`.
pub fn rejection(error: &IpcError) -> (doc: String)
    ensures
        doc@ == rejection_text(json_quoted(error.key_view())),
{
    let key = error.key();
    rejection_string(key.as_str())
}

} // verus!
