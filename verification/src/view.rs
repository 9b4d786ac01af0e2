//! What the Status window shows, decided once from what the service reported,
//! before any of it is put into words.
//!
//! Everything here is a decision a screen must not get wrong: which reasons
//! still hold the machine once one is ended, whether a policy asked for is
//! really in force, whether a battery threshold can be offered at all.

use vstd::prelude::*;

use crate::ipc::{
    StatusDocument, WireActiveRule, WireBatteryProtection, WireConflict, WireHistoryEntry,
    WireIndicator, WireProvider, WireReason, WireRemaining, WireSession, WireSuppression, first_with_id,
};
use crate::localtime::zero_padded;
use crate::provider::ProviderKind;
use crate::session::{SessionOrigin, SessionPolicy};
use crate::text::{append_chars, chars_of, string_of};

verus! {

// ---------------------------------------------------------------------------
// Sections
// ---------------------------------------------------------------------------

/// The eight sections of the window. Every one is a sidebar entry and a
/// keyboard shortcut; none is reachable only by clicking through another.
#[derive(Clone, Copy, Debug, PartialEq, Eq, Structural)]
pub enum Section {
    Status,
    QuickSessions,
    Rules,
    SessionDefaults,
    Battery,
    History,
    Diagnostics,
    Settings,
}

pub open spec fn sections_spec() -> Seq<Section> {
    seq![
        Section::Status,
        Section::QuickSessions,
        Section::Rules,
        Section::SessionDefaults,
        Section::Battery,
        Section::History,
        Section::Diagnostics,
        Section::Settings,
    ]
}

pub open spec fn section_key(s: Section) -> Seq<char> {
    match s {
        Section::Status => "status"@,
        Section::QuickSessions => "quick-sessions"@,
        Section::Rules => "automatic-rules"@,
        Section::SessionDefaults => "session-defaults"@,
        Section::Battery => "battery-safety"@,
        Section::History => "history"@,
        Section::Diagnostics => "diagnostics"@,
        Section::Settings => "settings"@,
    }
}

pub open spec fn section_shortcut(s: Section) -> Seq<char> {
    match s {
        Section::Status => "ctrl-1"@,
        Section::QuickSessions => "ctrl-2"@,
        Section::Rules => "ctrl-3"@,
        Section::SessionDefaults => "ctrl-4"@,
        Section::Battery => "ctrl-5"@,
        Section::History => "ctrl-6"@,
        Section::Diagnostics => "ctrl-7"@,
        Section::Settings => "ctrl-8"@,
    }
}

/// Every section, in sidebar order.
pub fn all_sections() -> (v: Vec<Section>)
    ensures
        v@ == sections_spec(),
{
    let v = vec![
        Section::Status,
        Section::QuickSessions,
        Section::Rules,
        Section::SessionDefaults,
        Section::Battery,
        Section::History,
        Section::Diagnostics,
        Section::Settings,
    ];
    assert(v@ =~= sections_spec());
    v
}

impl Section {
    /// A stable key, used for element ids and for the shortcut binding names.
    pub fn as_key(self) -> (k: &'static str)
        ensures
            k@ == section_key(self),
    {
        match self {
            Section::Status => "status",
            Section::QuickSessions => "quick-sessions",
            Section::Rules => "automatic-rules",
            Section::SessionDefaults => "session-defaults",
            Section::Battery => "battery-safety",
            Section::History => "history",
            Section::Diagnostics => "diagnostics",
            Section::Settings => "settings",
        }
    }

    /// The keybinding that reaches this section from anywhere, so the window
    /// is navigable without a pointing device.
    pub fn shortcut(self) -> (k: &'static str)
        ensures
            k@ == section_shortcut(self),
    {
        match self {
            Section::Status => "ctrl-1",
            Section::QuickSessions => "ctrl-2",
            Section::Rules => "ctrl-3",
            Section::SessionDefaults => "ctrl-4",
            Section::Battery => "ctrl-5",
            Section::History => "ctrl-6",
            Section::Diagnostics => "ctrl-7",
            Section::Settings => "ctrl-8",
        }
    }

    /// Which section a position reaches, counting from zero.
    pub fn at_index(index: usize) -> (s: Option<Section>)
        ensures
            index < 8 ==> s == Some(sections_spec()[index as int]),
            index >= 8 ==> s is None,
    {
        let all = all_sections();
        if index < all.len() {
            Some(all[index])
        } else {
            None
        }
    }
}

/// No two sections share an identity, and no two answer the same keystroke.
pub proof fn lemma_sections_are_distinct(i: int, j: int)
    requires
        0 <= i < j < 8,
    ensures
        section_key(sections_spec()[i]) != section_key(sections_spec()[j]),
        section_shortcut(sections_spec()[i]) != section_shortcut(sections_spec()[j]),
{
    reveal_strlit("status");
    reveal_strlit("quick-sessions");
    reveal_strlit("automatic-rules");
    reveal_strlit("session-defaults");
    reveal_strlit("battery-safety");
    reveal_strlit("history");
    reveal_strlit("diagnostics");
    reveal_strlit("settings");
    reveal_strlit("ctrl-1");
    reveal_strlit("ctrl-2");
    reveal_strlit("ctrl-3");
    reveal_strlit("ctrl-4");
    reveal_strlit("ctrl-5");
    reveal_strlit("ctrl-6");
    reveal_strlit("ctrl-7");
    reveal_strlit("ctrl-8");
    let a = sections_spec()[i];
    let b = sections_spec()[j];
    assert(a != b);
    assert(section_key(a)[0] != section_key(b)[0] || section_key(a)[1] != section_key(b)[1] || section_key(
        a,
    )[2] != section_key(b)[2] || section_key(a).len() != section_key(b).len());
    assert(section_shortcut(a)[5] != section_shortcut(b)[5]);
}

// ---------------------------------------------------------------------------
// Status
// ---------------------------------------------------------------------------

/// One line of "why is this machine awake". A rule-started session names its
/// rule, because "Video call" tells someone more than session 7 does.
#[derive(Clone, Debug, PartialEq, Eq)]
pub struct ReasonRow {
    pub session_id: u64,
    pub origin: SessionOrigin,
    pub reason: String,
    pub rule_id: Option<u64>,
    pub rule_name: Option<String>,
    /// Absent when the status carries a reason whose session it did not also
    /// report.
    pub started_at_unix_seconds: Option<u64>,
    pub remaining: Option<WireRemaining>,
}

impl ReasonRow {
    /// What the reason is called on screen: the rule's own name when a rule
    /// started it, the typed reason otherwise.
    pub fn display_name(&self) -> (n: &str)
        ensures
            n@ == match self.rule_name {
                Some(name) => name@,
                None => self.reason@,
            },
    {
        match &self.rule_name {
            Some(name) => name.as_str(),
            None => self.reason.as_str(),
        }
    }
}

/// One field of the effective policy.
#[derive(Clone, Copy, Debug, PartialEq, Eq, Structural)]
pub enum PolicyRowField {
    SystemSuspend,
    Idle,
    DisplaySleep,
    AutomaticLock,
}

/// How a policy field reads on screen. A policy asked for but not delivered
/// must never read as in force.
#[derive(Clone, Copy, Debug, PartialEq, Eq, Structural)]
pub enum PolicyState {
    Allowed,
    Prevented,
    NotDelivered,
}

/// One field of the effective policy, and whether the backend actually
/// delivers it.
#[derive(Clone, Copy, Debug, PartialEq, Eq, Structural)]
pub struct PolicyRow {
    pub field: PolicyRowField,
    pub prevented: bool,
    pub delivered: bool,
}

impl PolicyRow {
    pub fn state(self) -> (s: PolicyState)
        ensures
            !self.prevented ==> s == PolicyState::Allowed,
            self.prevented && self.delivered ==> s == PolicyState::Prevented,
            self.prevented && !self.delivered ==> s == PolicyState::NotDelivered,
    {
        if !self.prevented {
            PolicyState::Allowed
        } else if self.delivered {
            PolicyState::Prevented
        } else {
            PolicyState::NotDelivered
        }
    }
}

/// How the inhibitor backend is doing, and what it cannot deliver.
#[derive(Clone, Debug, PartialEq, Eq)]
pub struct BackendView {
    pub name: String,
    pub available: bool,
    pub detail: Option<String>,
    pub can_hold_system_suspend: bool,
    pub can_hold_idle: bool,
    pub can_hold_display_sleep: bool,
    pub can_hold_automatic_lock: bool,
}

/// Battery protection, which on a machine with no battery is a statement
/// rather than a control: a threshold on a desktop would be an inert widget
/// promising something that can never happen.
#[derive(Clone, Copy, Debug, PartialEq, Eq, Structural)]
pub enum BatteryView {
    NotApplicable,
    Present { percent: Option<u8>, on_ac_power: Option<bool>, stop_below_percent: Option<u8> },
}

impl BatteryView {
    pub fn from_wire(protection: &WireBatteryProtection) -> (v: Self)
        ensures
            !protection.has_battery ==> v == BatteryView::NotApplicable,
            protection.has_battery ==> v == (BatteryView::Present {
                percent: protection.percent,
                on_ac_power: protection.on_ac_power,
                stop_below_percent: protection.stop_below_percent,
            }),
    {
        if !protection.has_battery {
            return BatteryView::NotApplicable;
        }
        BatteryView::Present {
            percent: protection.percent,
            on_ac_power: protection.on_ac_power,
            stop_below_percent: protection.stop_below_percent,
        }
    }

    /// Whether a threshold control may be drawn at all.
    pub fn offers_threshold(&self) -> (b: bool)
        ensures
            b == (*self is Present),
    {
        match self {
            BatteryView::NotApplicable => false,
            BatteryView::Present { .. } => true,
        }
    }

    /// The threshold in force; absent, rather than zero, without a battery.
    pub fn threshold_percent(&self) -> (p: Option<u8>)
        ensures
            p == match *self {
                BatteryView::NotApplicable => None,
                BatteryView::Present { stop_below_percent, .. } => stop_below_percent,
            },
    {
        match self {
            BatteryView::NotApplicable => None,
            BatteryView::Present { stop_below_percent, .. } => *stop_below_percent,
        }
    }
}

/// Which policy field a conflict was about. A field this build has never
/// heard of is kept as unknown rather than dropped, so a newer service is
/// still explainable.
#[derive(Clone, Copy, Debug, PartialEq, Eq, Structural)]
pub enum ConflictField {
    SystemSuspend,
    Idle,
    DisplaySleep,
    AutomaticLock,
    BatteryThreshold,
    Unknown,
}

pub open spec fn conflict_field_of(key: Seq<char>) -> ConflictField {
    if key == "prevent_system_suspend"@ {
        ConflictField::SystemSuspend
    } else if key == "prevent_idle"@ {
        ConflictField::Idle
    } else if key == "prevent_display_sleep"@ {
        ConflictField::DisplaySleep
    } else if key == "prevent_automatic_lock"@ {
        ConflictField::AutomaticLock
    } else if key == "battery_stop_percent"@ {
        ConflictField::BatteryThreshold
    } else {
        ConflictField::Unknown
    }
}

/// One disagreement between active rules, as the Status section explains it.
#[derive(Clone, Debug, PartialEq, Eq)]
pub struct ConflictView {
    pub field_key: String,
    pub winner_rule_id: u64,
    pub winner_name: String,
    pub overridden_rule_ids: Vec<u64>,
    pub resolution_key: String,
}

fn clone_ids(v: &Vec<u64>) -> (out: Vec<u64>)
    ensures
        out@ == v@,
{
    let mut out: Vec<u64> = Vec::new();
    let mut i: usize = 0;
    while i < v.len()
        invariant
            i <= v.len(),
            out@ == v@.take(i as int),
        decreases v.len() - i,
    {
        out.push(v[i]);
        assert(out@ =~= v@.take(i + 1));
        i += 1;
    }
    assert(v@.take(i as int) =~= v@);
    out
}

impl ConflictView {
    pub fn from_wire(conflict: &WireConflict) -> (v: Self)
        ensures
            v.field_key@ == conflict.field@,
            v.winner_rule_id == conflict.winner_rule_id,
            v.winner_name@ == conflict.winner_name@,
            v.overridden_rule_ids@ == conflict.overridden_rule_ids@,
            v.resolution_key@ == conflict.resolution_key@,
    {
        ConflictView {
            field_key: conflict.field.clone(),
            winner_rule_id: conflict.winner_rule_id,
            winner_name: conflict.winner_name.clone(),
            overridden_rule_ids: clone_ids(&conflict.overridden_rule_ids),
            resolution_key: conflict.resolution_key.clone(),
        }
    }

    /// Which field the conflict was about.
    pub fn field(&self) -> (f: ConflictField)
        ensures
            f == conflict_field_of(self.field_key@),
    {
        let key = self.field_key.as_str();
        if str_is(key, "prevent_system_suspend") {
            ConflictField::SystemSuspend
        } else if str_is(key, "prevent_idle") {
            ConflictField::Idle
        } else if str_is(key, "prevent_display_sleep") {
            ConflictField::DisplaySleep
        } else if str_is(key, "prevent_automatic_lock") {
            ConflictField::AutomaticLock
        } else if str_is(key, "battery_stop_percent") {
            ConflictField::BatteryThreshold
        } else {
            ConflictField::Unknown
        }
    }

    /// How many rules the winner overrode, when it overrode any.
    pub fn overridden_count(&self) -> (n: Option<usize>)
        ensures
            self.overridden_rule_ids@.len() == 0 ==> n is None,
            self.overridden_rule_ids@.len() > 0 ==> n == Some(self.overridden_rule_ids@.len() as usize),
    {
        if self.overridden_rule_ids.len() == 0 {
            None
        } else {
            Some(self.overridden_rule_ids.len())
        }
    }
}

fn str_is(a: &str, b: &str) -> (r: bool)
    ensures
        r == (a@ == b@),
{
    crate::text::chars_eq(&chars_of(a), &chars_of(b))
}

/// The headline of the Status section.
#[derive(Clone, Copy, Debug, PartialEq, Eq, Structural)]
pub enum StatusSummary {
    ServiceUnreachable,
    AttentionRequired,
    Paused,
    Active,
    Inactive,
}

/// The first active rule holding this session.
pub open spec fn rule_holding(rules: Seq<WireActiveRule>, session_id: u64) -> Option<int>
    decreases rules.len(),
{
    if rules.len() == 0 {
        None
    } else {
        match rule_holding(rules.drop_last(), session_id) {
            Some(i) => Some(i),
            None => if rules.last().session_id == session_id {
                Some(rules.len() - 1)
            } else {
                None
            },
        }
    }
}

/// The row a reason becomes: named by the rule holding its session, timed by
/// its session, when the status reports them.
pub open spec fn reason_row_of(status: StatusDocument, r: WireReason, row: ReasonRow) -> bool {
    &&& row.session_id == r.session_id
    &&& row.origin == r.origin
    &&& row.reason@ == r.reason@
    &&& match rule_holding(status.active_rules@, r.session_id) {
        Some(k) => row.rule_id == Some(status.active_rules@[k].rule_id) && (row.rule_name matches Some(n)
            && n@ == status.active_rules@[k].name@),
        None => row.rule_id is None && row.rule_name is None,
    }
    &&& match first_with_id(status.sessions@, r.session_id) {
        Some(k) => row.started_at_unix_seconds == Some(status.sessions@[k].started_at_unix_seconds)
            && row.remaining == Some(status.sessions@[k].remaining),
        None => row.started_at_unix_seconds is None && row.remaining is None,
    }
}

/// The rows of `s`, in order, that are not for `session_id`.
pub open spec fn rows_without(s: Seq<ReasonRow>, session_id: u64) -> Seq<ReasonRow>
    decreases s.len(),
{
    if s.len() == 0 {
        seq![]
    } else {
        let before = rows_without(s.drop_last(), session_id);
        if s.last().session_id != session_id {
            before.push(s.last())
        } else {
            before
        }
    }
}

/// Ending one session leaves every other reason still explaining the machine,
/// and only those: a machine held awake by two things does not go to sleep
/// because one of them was ended.
pub proof fn lemma_ending_one_leaves_the_rest(s: Seq<ReasonRow>, session_id: u64)
    ensures
        forall|i: int|
            0 <= i < s.len() && s[i].session_id != session_id ==> rows_without(s, session_id).contains(
                #[trigger] s[i],
            ),
        forall|j: int|
            0 <= j < rows_without(s, session_id).len() ==> (#[trigger] rows_without(s, session_id)[j]).session_id
                != session_id,
        rows_without(s, session_id).len() <= s.len(),
    decreases s.len(),
{
    if s.len() > 0 {
        let init = s.drop_last();
        lemma_ending_one_leaves_the_rest(init, session_id);
        let before = rows_without(init, session_id);
        assert forall|i: int| 0 <= i < s.len() && s[i].session_id != session_id implies rows_without(
            s,
            session_id,
        ).contains(#[trigger] s[i]) by {
            if i < s.len() - 1 {
                assert(init[i] == s[i]);
                let w = choose|w: int| 0 <= w < before.len() && before[w] == init[i];
                if s.last().session_id != session_id {
                    assert(rows_without(s, session_id)[w] == s[i]);
                }
            } else {
                assert(rows_without(s, session_id)[before.len() as int] == s[i]);
            }
        }
    }
}

/// Everything the Status section shows, decided once.
#[derive(Clone, Debug, PartialEq, Eq)]
pub struct StatusView {
    pub indicator: WireIndicator,
    pub reasons: Vec<ReasonRow>,
    pub policy: Vec<PolicyRow>,
    pub backend: BackendView,
    pub battery: BatteryView,
    pub conflicts: Vec<ConflictView>,
    pub attention: Option<String>,
    pub interrupted_previous_session: Option<String>,
    pub suppression: Option<WireSuppression>,
    pub rules_total: u32,
    pub rules_enabled: u32,
    pub rules_refused: u32,
    pub now_unix_seconds: u64,
}

fn find_rule(rules: &Vec<WireActiveRule>, session_id: u64) -> (r: Option<usize>)
    ensures
        match rule_holding(rules@, session_id) {
            Some(k) => r is Some && r->0 == k && 0 <= k < rules@.len(),
            None => r is None,
        },
{
    let mut i: usize = 0;
    while i < rules.len()
        invariant
            i <= rules.len(),
            rule_holding(rules@.take(i as int), session_id) is None,
        decreases rules.len() - i,
    {
        assert(rules@.take(i + 1).drop_last() =~= rules@.take(i as int));
        if rules[i].session_id == session_id {
            proof {
                lemma_rule_holding_prefix(rules@, session_id, i as int + 1);
            }
            return Some(i);
        }
        i += 1;
    }
    assert(rules@.take(i as int) =~= rules@);
    None
}

proof fn lemma_rule_holding_prefix(s: Seq<WireActiveRule>, session_id: u64, k: int)
    requires
        0 < k <= s.len(),
        rule_holding(s.take(k), session_id) is Some,
    ensures
        rule_holding(s, session_id) == rule_holding(s.take(k), session_id),
        0 <= rule_holding(s.take(k), session_id)->0 < k,
    decreases s.len() - k,
{
    lemma_rule_holding_bound(s.take(k), session_id);
    if k < s.len() {
        assert(s.take(k + 1).drop_last() =~= s.take(k));
        lemma_rule_holding_prefix(s, session_id, k + 1);
    } else {
        assert(s.take(k) =~= s);
    }
}

proof fn lemma_rule_holding_bound(s: Seq<WireActiveRule>, session_id: u64)
    ensures
        rule_holding(s, session_id) matches Some(i) ==> 0 <= i < s.len(),
    decreases s.len(),
{
    if s.len() > 0 {
        lemma_rule_holding_bound(s.drop_last(), session_id);
    }
}

fn reason_row(status: &StatusDocument, r: &WireReason) -> (row: ReasonRow)
    ensures
        reason_row_of(*status, *r, row),
{
    let found = find_rule(&status.active_rules, r.session_id);
    let mut rule_id: Option<u64> = None;
    let mut rule_name: Option<String> = None;
    match found {
        Some(k) => {
            rule_id = Some(status.active_rules[k].rule_id);
            let name = status.active_rules[k].name.clone();
            assert(name@ == status.active_rules@[k as int].name@);
            rule_name = Some(name);
            assert(rule_holding(status.active_rules@, r.session_id) == Some(k as int));
        },
        None => {
            assert(rule_holding(status.active_rules@, r.session_id) is None);
        },
    }
    let (started, remaining) = match status.session(r.session_id) {
        Some(session) => (Some(session.started_at_unix_seconds), Some(session.remaining)),
        None => (None, None),
    };
    let row = ReasonRow {
        session_id: r.session_id,
        origin: r.origin,
        reason: r.reason.clone(),
        rule_id,
        rule_name,
        started_at_unix_seconds: started,
        remaining,
    };
    assert(row.reason@ == r.reason@);
    assert(match rule_holding(status.active_rules@, r.session_id) {
        Some(k) => row.rule_id == Some(status.active_rules@[k].rule_id) && (row.rule_name matches Some(n)
            && n@ == status.active_rules@[k].name@),
        None => row.rule_id is None && row.rule_name is None,
    });
    assert(match first_with_id(status.sessions@, r.session_id) {
        Some(k) => row.started_at_unix_seconds == Some(status.sessions@[k].started_at_unix_seconds)
            && row.remaining == Some(status.sessions@[k].remaining),
        None => row.started_at_unix_seconds is None && row.remaining is None,
    });
    row
}

fn copy_text(s: &Option<String>) -> (c: Option<String>)
    ensures
        c == *s,
{
    match s {
        Some(t) => Some(t.clone()),
        None => None,
    }
}

fn copy_row(r: &ReasonRow) -> (c: ReasonRow)
    ensures
        c == *r,
{
    ReasonRow {
        session_id: r.session_id,
        origin: r.origin,
        reason: r.reason.clone(),
        rule_id: r.rule_id,
        rule_name: copy_text(&r.rule_name),
        started_at_unix_seconds: r.started_at_unix_seconds,
        remaining: r.remaining,
    }
}

impl StatusView {
    pub fn from_status(status: &StatusDocument) -> (v: Self)
        ensures
            v.indicator == status.indicator,
            v.reasons@.len() == status.reasons@.len(),
            forall|i: int|
                0 <= i < v.reasons@.len() ==> reason_row_of(*status, status.reasons@[i], #[trigger] v.reasons@[i]),
            v.policy@ == seq![
                PolicyRow {
                    field: PolicyRowField::SystemSuspend,
                    prevented: status.effective_policy.prevent_system_suspend,
                    delivered: status.backend.capabilities.system_suspend,
                },
                PolicyRow {
                    field: PolicyRowField::Idle,
                    prevented: status.effective_policy.prevent_idle,
                    delivered: status.backend.capabilities.idle,
                },
                PolicyRow {
                    field: PolicyRowField::DisplaySleep,
                    prevented: status.effective_policy.prevent_display_sleep,
                    delivered: status.backend.capabilities.display_sleep,
                },
                PolicyRow {
                    field: PolicyRowField::AutomaticLock,
                    prevented: status.effective_policy.prevent_automatic_lock,
                    delivered: status.backend.capabilities.automatic_lock,
                },
            ],
            v.backend.name == status.backend.name,
            v.backend.available == status.backend.available,
            v.backend.detail == status.backend.detail,
            v.backend.can_hold_system_suspend == status.backend.capabilities.system_suspend,
            v.backend.can_hold_idle == status.backend.capabilities.idle,
            v.backend.can_hold_display_sleep == status.backend.capabilities.display_sleep,
            v.backend.can_hold_automatic_lock == status.backend.capabilities.automatic_lock,
            !status.battery_protection.has_battery ==> v.battery == BatteryView::NotApplicable,
            status.battery_protection.has_battery ==> v.battery == (BatteryView::Present {
                percent: status.battery_protection.percent,
                on_ac_power: status.battery_protection.on_ac_power,
                stop_below_percent: status.battery_protection.stop_below_percent,
            }),
            v.conflicts@.len() == status.conflicts@.len(),
            forall|i: int|
                0 <= i < v.conflicts@.len() ==> (#[trigger] v.conflicts@[i]).field_key@
                    == status.conflicts@[i].field@ && v.conflicts@[i].winner_rule_id
                    == status.conflicts@[i].winner_rule_id && v.conflicts@[i].winner_name@
                    == status.conflicts@[i].winner_name@ && v.conflicts@[i].overridden_rule_ids@
                    == status.conflicts@[i].overridden_rule_ids@ && v.conflicts@[i].resolution_key@
                    == status.conflicts@[i].resolution_key@,
            v.attention == status.attention,
            match status.interrupted_previous_session {
                Some(w) => v.interrupted_previous_session matches Some(r) && r@ == w.reason@,
                None => v.interrupted_previous_session is None,
            },
            v.suppression == status.rules_suppression,
            v.rules_total == status.rule_summary.total,
            v.rules_enabled == status.rule_summary.enabled,
            v.rules_refused == status.rule_summary.refused,
            v.now_unix_seconds == status.now_unix_seconds,
    {
        let capabilities = status.backend.capabilities;
        let policy = status.effective_policy;
        let mut reasons: Vec<ReasonRow> = Vec::new();
        let mut i: usize = 0;
        while i < status.reasons.len()
            invariant
                i <= status.reasons.len(),
                reasons@.len() == i,
                forall|k: int| 0 <= k < i ==> reason_row_of(*status, status.reasons@[k], #[trigger] reasons@[k]),
            decreases status.reasons.len() - i,
        {
            reasons.push(reason_row(status, &status.reasons[i]));
            i += 1;
        }
        let mut conflicts: Vec<ConflictView> = Vec::new();
        let mut j: usize = 0;
        while j < status.conflicts.len()
            invariant
                j <= status.conflicts.len(),
                conflicts@.len() == j,
                forall|k: int|
                    0 <= k < j ==> (#[trigger] conflicts@[k]).field_key@ == status.conflicts@[k].field@
                        && conflicts@[k].winner_rule_id == status.conflicts@[k].winner_rule_id
                        && conflicts@[k].winner_name@ == status.conflicts@[k].winner_name@
                        && conflicts@[k].overridden_rule_ids@ == status.conflicts@[k].overridden_rule_ids@
                        && conflicts@[k].resolution_key@ == status.conflicts@[k].resolution_key@,
            decreases status.conflicts.len() - j,
        {
            conflicts.push(ConflictView::from_wire(&status.conflicts[j]));
            j += 1;
        }
        let policy_rows = vec![
            PolicyRow {
                field: PolicyRowField::SystemSuspend,
                prevented: policy.prevent_system_suspend,
                delivered: capabilities.system_suspend,
            },
            PolicyRow {
                field: PolicyRowField::Idle,
                prevented: policy.prevent_idle,
                delivered: capabilities.idle,
            },
            PolicyRow {
                field: PolicyRowField::DisplaySleep,
                prevented: policy.prevent_display_sleep,
                delivered: capabilities.display_sleep,
            },
            PolicyRow {
                field: PolicyRowField::AutomaticLock,
                prevented: policy.prevent_automatic_lock,
                delivered: capabilities.automatic_lock,
            },
        ];
        let interrupted = match &status.interrupted_previous_session {
            Some(w) => Some(w.reason.clone()),
            None => None,
        };
        let detail = match &status.backend.detail {
            Some(d) => Some(d.clone()),
            None => None,
        };
        let attention = match &status.attention {
            Some(a) => Some(a.clone()),
            None => None,
        };
        StatusView {
            indicator: status.indicator,
            reasons,
            policy: policy_rows,
            backend: BackendView {
                name: status.backend.name.clone(),
                available: status.backend.available,
                detail,
                can_hold_system_suspend: capabilities.system_suspend,
                can_hold_idle: capabilities.idle,
                can_hold_display_sleep: capabilities.display_sleep,
                can_hold_automatic_lock: capabilities.automatic_lock,
            },
            battery: BatteryView::from_wire(&status.battery_protection),
            conflicts,
            attention,
            interrupted_previous_session: interrupted,
            suppression: status.rules_suppression,
            rules_total: status.rule_summary.total,
            rules_enabled: status.rule_summary.enabled,
            rules_refused: status.rule_summary.refused,
            now_unix_seconds: status.now_unix_seconds,
        }
    }

    pub fn is_active(&self) -> (b: bool)
        ensures
            b == (self.reasons@.len() > 0),
    {
        self.reasons.len() > 0
    }

    /// The headline: an unreachable service or a call for attention first,
    /// then paused rules when nothing holds the machine, then whether anything
    /// does.
    pub fn summary(&self) -> (s: StatusSummary)
        ensures
            s == (if self.indicator == WireIndicator::Unavailable {
                StatusSummary::ServiceUnreachable
            } else if self.indicator == WireIndicator::AttentionRequired {
                StatusSummary::AttentionRequired
            } else if self.indicator == WireIndicator::PausedRules && self.reasons@.len() == 0 {
                StatusSummary::Paused
            } else if self.reasons@.len() > 0 {
                StatusSummary::Active
            } else {
                StatusSummary::Inactive
            }),
    {
        match self.indicator {
            WireIndicator::Unavailable => StatusSummary::ServiceUnreachable,
            WireIndicator::AttentionRequired => StatusSummary::AttentionRequired,
            WireIndicator::PausedRules if !self.is_active() => StatusSummary::Paused,
            _ => if self.is_active() {
                StatusSummary::Active
            } else {
                StatusSummary::Inactive
            },
        }
    }

    /// The manual session's id, the only one ending "the" session may aim at.
    pub fn manual_session_id(&self) -> (id: Option<u64>)
        ensures
            match id {
                Some(s) => exists|i: int|
                    0 <= i < self.reasons@.len() && self.reasons@[i].origin == SessionOrigin::Manual
                        && self.reasons@[i].session_id == s && forall|j: int|
                        0 <= j < i ==> (#[trigger] self.reasons@[j]).origin != SessionOrigin::Manual,
                None => forall|i: int|
                    0 <= i < self.reasons@.len() ==> (#[trigger] self.reasons@[i]).origin != SessionOrigin::Manual,
            },
    {
        let mut i: usize = 0;
        while i < self.reasons.len()
            invariant
                i <= self.reasons.len(),
                forall|j: int| 0 <= j < i ==> (#[trigger] self.reasons@[j]).origin != SessionOrigin::Manual,
            decreases self.reasons.len() - i,
        {
            if self.reasons[i].origin == SessionOrigin::Manual {
                return Some(self.reasons[i].session_id);
            }
            i += 1;
        }
        None
    }

    /// The reasons still keeping the machine awake once `session_id` is
    /// ended, in order. A machine held awake by two things does not go to
    /// sleep because one of them was ended, and a screen that implies
    /// otherwise has told a lie.
    pub fn reasons_after_ending(&self, session_id: u64) -> (left: Vec<ReasonRow>)
        ensures
            left@ == rows_without(self.reasons@, session_id),
    {
        let mut left: Vec<ReasonRow> = Vec::new();
        let mut i: usize = 0;
        while i < self.reasons.len()
            invariant
                i <= self.reasons.len(),
                left@ == rows_without(self.reasons@.take(i as int), session_id),
            decreases self.reasons.len() - i,
        {
            assert(self.reasons@.take(i + 1).drop_last() =~= self.reasons@.take(i as int));
            if self.reasons[i].session_id != session_id {
                left.push(copy_row(&self.reasons[i]));
            }
            i += 1;
        }
        assert(self.reasons@.take(i as int) =~= self.reasons@);
        left
    }
}

// ---------------------------------------------------------------------------
// Diagnostics and history
// ---------------------------------------------------------------------------

/// One provider row of the Diagnostics section.
#[derive(Clone, Debug, PartialEq, Eq)]
pub struct ProviderRow {
    pub kind: ProviderKind,
    pub available: bool,
    pub poll_seconds: Option<u64>,
    pub explanation: Option<String>,
}

impl ProviderRow {
    pub fn from_wire(provider: &WireProvider) -> (r: Self)
        ensures
            r.kind == provider.kind,
            r.available == provider.available,
            r.poll_seconds == provider.poll_seconds,
            r.explanation == provider.explanation,
    {
        ProviderRow {
            kind: provider.kind,
            available: provider.available,
            poll_seconds: provider.poll_seconds,
            explanation: match &provider.explanation {
                Some(e) => Some(e.clone()),
                None => None,
            },
        }
    }
}

/// One row of the History section.
#[derive(Clone, Debug, PartialEq, Eq)]
pub struct HistoryRow {
    pub session_id: u64,
    pub started_at_unix_seconds: u64,
    pub ended_at_unix_seconds: Option<u64>,
    pub origin: SessionOrigin,
    pub rule_id: Option<u64>,
    pub reasons: Vec<String>,
    pub policy: SessionPolicy,
    pub battery_stop_percent: Option<u8>,
    pub end_cause: Option<String>,
    pub backend_failure: Option<String>,
}

impl HistoryRow {
    pub fn from_wire(entry: &WireHistoryEntry) -> (r: Self)
        ensures
            r.session_id == entry.session_id,
            r.started_at_unix_seconds == entry.started_at_unix_seconds,
            r.ended_at_unix_seconds == entry.ended_at_unix_seconds,
            r.origin == entry.origin,
            r.rule_id == entry.rule_id,
            r.reasons@ == entry.reasons@,
            r.policy == entry.effective_policy,
            r.battery_stop_percent == entry.battery_stop_percent,
            r.end_cause == entry.end_cause,
            r.backend_failure == entry.backend_failure,
    {
        let mut reasons: Vec<String> = Vec::new();
        let mut i: usize = 0;
        while i < entry.reasons.len()
            invariant
                i <= entry.reasons.len(),
                reasons@ == entry.reasons@.take(i as int),
            decreases entry.reasons.len() - i,
        {
            reasons.push(entry.reasons[i].clone());
            assert(reasons@ =~= entry.reasons@.take(i + 1));
            i += 1;
        }
        assert(entry.reasons@.take(i as int) =~= entry.reasons@);
        HistoryRow {
            session_id: entry.session_id,
            started_at_unix_seconds: entry.started_at_unix_seconds,
            ended_at_unix_seconds: entry.ended_at_unix_seconds,
            origin: entry.origin,
            rule_id: entry.rule_id,
            reasons,
            policy: entry.effective_policy,
            battery_stop_percent: entry.battery_stop_percent,
            end_cause: match &entry.end_cause {
                Some(c) => Some(c.clone()),
                None => None,
            },
            backend_failure: match &entry.backend_failure {
                Some(f) => Some(f.clone()),
                None => None,
            },
        }
    }
}

/// How a length of time is worded: whole hours and minutes where there are
/// any, seconds only for less than a minute.
#[derive(Clone, Copy, Debug, PartialEq, Eq, Structural)]
pub enum DurationWords {
    Seconds(u64),
    Minutes(u64),
    Hours(u64),
    HoursAndMinutes(u64, u64),
}

pub open spec fn duration_words_spec(seconds: u64) -> DurationWords {
    let hours = seconds / 3600;
    let minutes = (seconds % 3600) / 60;
    if hours == 0 && minutes == 0 {
        DurationWords::Seconds(seconds % 60)
    } else if hours == 0 {
        DurationWords::Minutes(minutes)
    } else if minutes == 0 {
        DurationWords::Hours(hours)
    } else {
        DurationWords::HoursAndMinutes(hours, minutes)
    }
}

/// The length of time a wording stands for, in seconds.
pub open spec fn worded_seconds(w: DurationWords) -> int {
    match w {
        DurationWords::Seconds(s) => s as int,
        DurationWords::Minutes(m) => 60 * m,
        DurationWords::Hours(h) => 3600 * h,
        DurationWords::HoursAndMinutes(h, m) => 3600 * h + 60 * m,
    }
}

/// Each part of a wording is within its unit's range: seconds only under a
/// minute, minutes from 1 to 59, hours at least 1.
pub open spec fn well_worded(w: DurationWords) -> bool {
    match w {
        DurationWords::Seconds(s) => s < 60,
        DurationWords::Minutes(m) => 1 <= m < 60,
        DurationWords::Hours(h) => h >= 1,
        DurationWords::HoursAndMinutes(h, m) => h >= 1 && 1 <= m < 60,
    }
}

/// A length of time is worded without losing anything but the odd seconds:
/// under a minute the seconds themselves, otherwise every whole minute of it,
/// hours and minutes both, each part in its unit's range. Two hours and a
/// half reads as two hours and thirty minutes, never as two hours.
pub proof fn lemma_duration_words_keep_every_minute(seconds: u64)
    ensures
        well_worded(duration_words_spec(seconds)),
        worded_seconds(duration_words_spec(seconds)) == if seconds < 60 {
            seconds as int
        } else {
            seconds - seconds % 60
        },
{
    let h = seconds / 3600;
    let m = (seconds % 3600) / 60;
    assert(seconds == 3600 * h + 60 * m + seconds % 60 && seconds % 60 < 60 && m < 60) by (nonlinear_arith)
        requires
            h == seconds / 3600,
            m == (seconds % 3600) / 60,
    ;
}

/// Two wordings in range that stand for the same time are the same wording,
/// so the wording of a length of time is the only one it could have.
pub proof fn lemma_well_worded_is_unique(a: DurationWords, b: DurationWords)
    requires
        well_worded(a),
        well_worded(b),
        worded_seconds(a) == worded_seconds(b),
    ensures
        a == b,
{
    match (a, b) {
        (DurationWords::HoursAndMinutes(h1, m1), DurationWords::HoursAndMinutes(h2, m2)) => {
            assert(h1 == h2 && m1 == m2) by (nonlinear_arith)
                requires
                    3600 * h1 + 60 * m1 == 3600 * h2 + 60 * m2,
                    1 <= m1 < 60,
                    1 <= m2 < 60,
            ;
        },
        (DurationWords::HoursAndMinutes(h1, m1), DurationWords::Hours(h2)) => {
            assert(false) by (nonlinear_arith)
                requires
                    3600 * h1 + 60 * m1 == 3600 * h2,
                    1 <= m1 < 60,
            ;
        },
        (DurationWords::Hours(h2), DurationWords::HoursAndMinutes(h1, m1)) => {
            assert(false) by (nonlinear_arith)
                requires
                    3600 * h1 + 60 * m1 == 3600 * h2,
                    1 <= m1 < 60,
            ;
        },
        _ => {},
    }
}

pub fn duration_words(seconds: u64) -> (w: DurationWords)
    ensures
        w == duration_words_spec(seconds),
        well_worded(w),
        worded_seconds(w) == if seconds < 60 {
            seconds as int
        } else {
            seconds - seconds % 60
        },
{
    proof {
        lemma_duration_words_keep_every_minute(seconds);
    }
    let hours = seconds / 3600;
    let minutes = (seconds % 3600) / 60;
    if hours == 0 && minutes == 0 {
        DurationWords::Seconds(seconds % 60)
    } else if hours == 0 {
        DurationWords::Minutes(minutes)
    } else if minutes == 0 {
        DurationWords::Hours(hours)
    } else {
        DurationWords::HoursAndMinutes(hours, minutes)
    }
}

/// `HH:MM` for a minute of the day.
pub fn minute_label(minute_of_day: u16) -> (s: String)
    ensures
        s@ == zero_padded((minute_of_day / 60) as nat, 2) + seq![':'] + zero_padded(
            (minute_of_day % 60) as nat,
            2,
        ),
{
    let mut out = crate::localtime::padded_chars(minute_of_day as u64 / 60, 2);
    out.push(':');
    append_chars(&mut out, &crate::localtime::padded_chars(minute_of_day as u64 % 60, 2));
    string_of(&out)
}

} // verus!
