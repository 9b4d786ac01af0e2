//! The session history: why this machine was awake, and what stopped it.
//!
//! That means start and end time, manual or rule origin, every active reason,
//! the effective policy, the stop cause, backend failures, and battery stops —
//! and nothing else. Every reason passes through [`redact_reason`] on its way
//! in, and again when an entry is recorded, so a reason cannot reach the file
//! unredacted by a forgotten call.

use vstd::prelude::*;

use crate::redact::{lemma_redaction_is_idempotent, redact_reason, redact_spec};
use crate::session::{SessionOrigin, SessionPolicy};
use crate::store::{FileRead, LoadStep, default_path, default_path_spec, load_step, load_step_is};

verus! {

/// The only history schema this crate writes.
pub const HISTORY_SCHEMA_VERSION: u32 = 1;

pub const HISTORY_FILE_NAME: &'static str = "awake-history.json";

/// How many sessions the history keeps. A bounded count is what ships while no
/// retention duration has been decided: months of ordinary use, a few hundred
/// kilobytes, and never a file that grows forever.
pub const MAX_HISTORY_ENTRIES: usize = 500;

/// One recorded session.
///
/// Every field is a bounded value the user chose or a stable machine key;
/// there is no field able to carry a command line or arbitrary process data.
#[derive(Clone, Debug, PartialEq, Eq)]
pub struct HistoryEntry {
    pub session_id: u64,
    pub started_at_unix_seconds: u64,
    /// Absent while the session is still running.
    pub ended_at_unix_seconds: Option<u64>,
    pub origin: SessionOrigin,
    /// The rule that held it, when a rule did.
    pub rule_id: Option<u64>,
    /// Every reason that was active while this session ran, redacted.
    pub reasons: Vec<String>,
    pub effective_policy: SessionPolicy,
    pub battery_stop_percent: Option<u8>,
    /// A stable end-cause key such as `battery_threshold`.
    pub end_cause: Option<String>,
    /// A stable key for a backend failure seen during this session.
    pub backend_failure: Option<String>,
    /// The battery percentage a low-battery stop happened at.
    pub battery_stop_percent_at_stop: Option<u8>,
}

/// A session that has just started, in raw form. Its reasons are raw on
/// purpose: the caller does not decide whether to redact, because the one
/// caller who forgets is the one who leaks.
#[derive(Clone, Debug, PartialEq, Eq)]
pub struct StartedSession {
    pub session_id: u64,
    pub started_at_unix_seconds: u64,
    pub origin: SessionOrigin,
    pub rule_id: Option<u64>,
    pub reasons: Vec<String>,
    pub effective_policy: SessionPolicy,
    pub battery_stop_percent: Option<u8>,
}

pub open spec fn running(e: HistoryEntry) -> bool {
    e.ended_at_unix_seconds is None
}

/// `out` holds the redaction of each of `raw`, in order.
pub open spec fn redacted_all(raw: Seq<String>, out: Seq<String>) -> bool {
    &&& out.len() == raw.len()
    &&& forall|k: int| 0 <= k < raw.len() ==> (#[trigger] out[k])@ == redact_spec(raw[k]@)
}

fn redact_all(raw: &Vec<String>) -> (out: Vec<String>)
    ensures
        redacted_all(raw@, out@),
{
    let mut out: Vec<String> = Vec::new();
    let mut i: usize = 0;
    while i < raw.len()
        invariant
            i <= raw.len(),
            out.len() == i,
            forall|k: int| 0 <= k < i ==> (#[trigger] out@[k])@ == redact_spec(raw@[k]@),
        decreases raw.len() - i,
    {
        out.push(redact_reason(raw[i].as_str()));
        i += 1;
    }
    out
}

/// `b` is `a` with its reasons redacted and nothing else changed.
pub open spec fn redacted_copy(a: HistoryEntry, b: HistoryEntry) -> bool {
    &&& b.session_id == a.session_id
    &&& b.started_at_unix_seconds == a.started_at_unix_seconds
    &&& b.ended_at_unix_seconds == a.ended_at_unix_seconds
    &&& b.origin == a.origin
    &&& b.rule_id == a.rule_id
    &&& redacted_all(a.reasons@, b.reasons@)
    &&& b.effective_policy == a.effective_policy
    &&& b.battery_stop_percent == a.battery_stop_percent
    &&& b.end_cause == a.end_cause
    &&& b.backend_failure == a.backend_failure
    &&& b.battery_stop_percent_at_stop == a.battery_stop_percent_at_stop
}

impl HistoryEntry {
    /// Records a started session, redacting every reason on the way in.
    pub fn record(started: StartedSession) -> (e: Self)
        ensures
            e.session_id == started.session_id,
            e.started_at_unix_seconds == started.started_at_unix_seconds,
            e.ended_at_unix_seconds is None,
            e.origin == started.origin,
            e.rule_id == started.rule_id,
            redacted_all(started.reasons@, e.reasons@),
            e.effective_policy == started.effective_policy,
            e.battery_stop_percent == started.battery_stop_percent,
            e.end_cause is None,
            e.backend_failure is None,
            e.battery_stop_percent_at_stop is None,
    {
        HistoryEntry {
            session_id: started.session_id,
            started_at_unix_seconds: started.started_at_unix_seconds,
            ended_at_unix_seconds: None,
            origin: started.origin,
            rule_id: started.rule_id,
            reasons: redact_all(&started.reasons),
            effective_policy: started.effective_policy,
            battery_stop_percent: started.battery_stop_percent,
            end_cause: None,
            backend_failure: None,
            battery_stop_percent_at_stop: None,
        }
    }

    pub fn is_running(&self) -> (b: bool)
        ensures
            b == running(*self),
    {
        self.ended_at_unix_seconds.is_none()
    }
}

/// What the retention cap leaves: the newest entries, oldest first.
pub open spec fn history_trim(s: Seq<HistoryEntry>) -> Seq<HistoryEntry> {
    if s.len() > MAX_HISTORY_ENTRIES {
        s.skip(s.len() - MAX_HISTORY_ENTRIES)
    } else {
        s
    }
}

/// The newest running entry for `session_id`.
pub open spec fn running_index(s: Seq<HistoryEntry>, session_id: u64) -> Option<int>
    decreases s.len(),
{
    if s.len() == 0 {
        None
    } else if s.last().session_id == session_id && running(s.last()) {
        Some(s.len() - 1)
    } else {
        running_index(s.drop_last(), session_id)
    }
}

proof fn lemma_running_index(s: Seq<HistoryEntry>, session_id: u64)
    ensures
        running_index(s, session_id) matches Some(i) ==> 0 <= i < s.len() && s[i].session_id
            == session_id && running(s[i]) && forall|j: int|
            i < j < s.len() ==> !(#[trigger] s[j].session_id == session_id && running(s[j])),
        running_index(s, session_id) is None ==> forall|j: int|
            0 <= j < s.len() ==> !(#[trigger] s[j].session_id == session_id && running(s[j])),
    decreases s.len(),
{
    if s.len() > 0 {
        let t = s.drop_last();
        lemma_running_index(t, session_id);
        assert forall|j: int| 0 <= j < t.len() implies t[j] == s[j] by {}
    }
}

/// `b` is `a` with only the fields `changed` names possibly different.
pub open spec fn same_but(a: HistoryEntry, b: HistoryEntry, changed: int) -> bool {
    &&& b.session_id == a.session_id
    &&& b.started_at_unix_seconds == a.started_at_unix_seconds
    &&& (changed != 0 ==> b.ended_at_unix_seconds == a.ended_at_unix_seconds)
    &&& b.origin == a.origin
    &&& b.rule_id == a.rule_id
    &&& b.reasons == a.reasons
    &&& b.effective_policy == a.effective_policy
    &&& b.battery_stop_percent == a.battery_stop_percent
    &&& (changed != 0 ==> b.end_cause == a.end_cause)
    &&& (changed != 1 ==> b.backend_failure == a.backend_failure)
    &&& (changed != 2 ==> b.battery_stop_percent_at_stop == a.battery_stop_percent_at_stop)
}

/// Every recorded session, oldest first.
#[derive(Clone, Debug, Default, PartialEq, Eq)]
pub struct History {
    entries: Vec<HistoryEntry>,
}

impl View for History {
    type V = Seq<HistoryEntry>;

    closed spec fn view(&self) -> Seq<HistoryEntry> {
        self.entries@
    }
}

impl History {
    pub fn new() -> (h: Self)
        ensures
            h@.len() == 0,
    {
        History { entries: Vec::new() }
    }

    /// A history holding exactly `entries`, as read back from a file.
    pub fn from_entries(entries: Vec<HistoryEntry>) -> (h: Self)
        ensures
            h@ == entries@,
    {
        History { entries }
    }

    /// Every entry, oldest first.
    pub fn entries(&self) -> (e: &Vec<HistoryEntry>)
        ensures
            e@ == self@,
    {
        &self.entries
    }

    /// The newest `limit` entries, still oldest first. Asking for more than
    /// there are returns everything rather than failing.
    pub fn recent(&self, limit: usize) -> (r: &[HistoryEntry])
        ensures
            r@ == (if limit >= self@.len() {
                self@
            } else {
                self@.skip(self@.len() - limit)
            }),
    {
        let start = self.entries.len().saturating_sub(limit);
        let r = vstd::slice::slice_subrange(self.entries.as_slice(), start, self.entries.len());
        assert(self@.subrange(start as int, self@.len() as int) =~= (if limit >= self@.len() {
            self@
        } else {
            self@.skip(self@.len() - limit)
        }));
        r
    }

    /// Appends a started session and enforces the retention cap immediately.
    ///
    /// Reasons are redacted again here rather than trusted, because an entry's
    /// fields are public; redaction leaves an already-redacted reason alone, so
    /// the second pass costs nothing.
    pub fn record_start(&mut self, entry: HistoryEntry)
        ensures
            final(self)@.len() > 0,
            final(self)@ == history_trim(old(self)@.push(final(self)@.last())),
            redacted_copy(entry, final(self)@.last()),
    {
        let reasons = redact_all(&entry.reasons);
        let recorded = HistoryEntry { reasons, ..entry };
        self.entries.push(recorded);
        let ghost pushed = self.entries@;
        self.trim();
        assert(pushed.last() == recorded);
        assert(history_trim(pushed).last() == pushed.last());
        assert(pushed == old(self)@.push(recorded));
    }

    /// Closes the running entry for this session.
    ///
    /// Only a running entry is closed, and only the newest one naming this
    /// session, so a reused session id cannot rewrite the end of an older
    /// record. Returns whether an entry was closed.
    pub fn record_end(&mut self, session_id: u64, ended_at_unix_seconds: u64, end_cause: &str) -> (closed: bool)
        ensures
            closed == (running_index(old(self)@, session_id) is Some),
            final(self)@.len() == old(self)@.len(),
            match running_index(old(self)@, session_id) {
                None => final(self)@ == old(self)@,
                Some(i) => {
                    &&& forall|j: int| 0 <= j < old(self)@.len() && j != i ==> final(self)@[j] == old(self)@[j]
                    &&& same_but(old(self)@[i], final(self)@[i], 0)
                    &&& final(self)@[i].ended_at_unix_seconds == Some(ended_at_unix_seconds)
                    &&& final(self)@[i].end_cause matches Some(c) && c@ == end_cause@
                },
            },
    {
        match self.running_entry(session_id) {
            None => false,
            Some(i) => {
                let mut entry = self.entries.remove(i);
                entry.ended_at_unix_seconds = Some(ended_at_unix_seconds);
                entry.end_cause = Some(String::from_str(end_cause));
                let ghost updated = entry;
                self.entries.insert(i, entry);
                assert(self@[i as int] == updated);
                assert forall|j: int| 0 <= j < old(self)@.len() && j != i implies self@[j] == old(self)@[j] by {
                    if j < i {
                    } else {
                        assert(self@[j] == old(self)@.remove(i as int)[j - 1]);
                    }
                }
                true
            },
        }
    }

    /// Records that the inhibitor backend failed during this session.
    ///
    /// Kept apart from the end cause: a session can survive a backend failure
    /// and end for an entirely different reason.
    pub fn record_backend_failure(&mut self, session_id: u64, failure_key: &str) -> (recorded: bool)
        ensures
            recorded == (running_index(old(self)@, session_id) is Some),
            final(self)@.len() == old(self)@.len(),
            match running_index(old(self)@, session_id) {
                None => final(self)@ == old(self)@,
                Some(i) => {
                    &&& forall|j: int| 0 <= j < old(self)@.len() && j != i ==> final(self)@[j] == old(self)@[j]
                    &&& same_but(old(self)@[i], final(self)@[i], 1)
                    &&& final(self)@[i].backend_failure matches Some(c) && c@ == failure_key@
                },
            },
    {
        match self.running_entry(session_id) {
            None => false,
            Some(i) => {
                let mut entry = self.entries.remove(i);
                entry.backend_failure = Some(String::from_str(failure_key));
                let ghost updated = entry;
                self.entries.insert(i, entry);
                assert(self@[i as int] == updated);
                assert forall|j: int| 0 <= j < old(self)@.len() && j != i implies self@[j] == old(self)@[j] by {
                    if j < i {
                    } else {
                        assert(self@[j] == old(self)@.remove(i as int)[j - 1]);
                    }
                }
                true
            },
        }
    }

    /// Records the battery percentage a low-battery stop happened at.
    pub fn record_battery_stop(&mut self, session_id: u64, percent: u8) -> (recorded: bool)
        ensures
            recorded == (running_index(old(self)@, session_id) is Some),
            final(self)@.len() == old(self)@.len(),
            match running_index(old(self)@, session_id) {
                None => final(self)@ == old(self)@,
                Some(i) => {
                    &&& forall|j: int| 0 <= j < old(self)@.len() && j != i ==> final(self)@[j] == old(self)@[j]
                    &&& same_but(old(self)@[i], final(self)@[i], 2)
                    &&& final(self)@[i].battery_stop_percent_at_stop == Some(percent)
                },
            },
    {
        match self.running_entry(session_id) {
            None => false,
            Some(i) => {
                let mut entry = self.entries.remove(i);
                entry.battery_stop_percent_at_stop = Some(percent);
                let ghost updated = entry;
                self.entries.insert(i, entry);
                assert(self@[i as int] == updated);
                assert forall|j: int| 0 <= j < old(self)@.len() && j != i implies self@[j] == old(self)@[j] by {
                    if j < i {
                    } else {
                        assert(self@[j] == old(self)@.remove(i as int)[j - 1]);
                    }
                }
                true
            },
        }
    }

    /// Records a backend failure on the entry at `index`, whatever it is.
    pub(crate) fn mark_backend_failure_at(&mut self, index: usize, failure_key: &str)
        requires
            index < old(self)@.len(),
        ensures
            final(self)@.len() == old(self)@.len(),
            forall|j: int| 0 <= j < old(self)@.len() && j != index ==> final(self)@[j] == old(self)@[j],
            same_but(old(self)@[index as int], final(self)@[index as int], 1),
            final(self)@[index as int].backend_failure matches Some(c) && c@ == failure_key@,
    {
        let mut entry = self.entries.remove(index);
        entry.backend_failure = Some(String::from_str(failure_key));
        let ghost updated = entry;
        self.entries.insert(index, entry);
        assert(self@[index as int] == updated);
        assert forall|j: int| 0 <= j < old(self)@.len() && j != index implies self@[j] == old(self)@[j] by {
            if j < index {
            } else {
                assert(self@[j] == old(self)@.remove(index as int)[j - 1]);
            }
        }
    }

    /// Drops the oldest entries once the history grows past its bound. The
    /// recent sessions are the ones a user is asking about.
    pub fn trim(&mut self)
        ensures
            final(self)@ == history_trim(old(self)@),
    {
        if self.entries.len() > MAX_HISTORY_ENTRIES {
            let excess = self.entries.len() - MAX_HISTORY_ENTRIES;
            let kept = self.entries.split_off(excess);
            self.entries = kept;
        }
    }

    fn running_entry(&self, session_id: u64) -> (r: Option<usize>)
        ensures
            match running_index(self@, session_id) {
                None => r is None,
                Some(i) => r == Some(i as usize) && 0 <= i < self@.len(),
            },
    {
        proof {
            lemma_running_index(self@, session_id);
        }
        let mut i: usize = self.entries.len();
        while i > 0
            invariant
                i <= self.entries.len(),
                forall|j: int|
                    i <= j < self@.len() ==> !(#[trigger] self@[j].session_id == session_id && running(
                        self@[j],
                    )),
            decreases i,
        {
            if self.entries[i - 1].session_id == session_id && self.entries[i - 1].is_running() {
                proof {
                    lemma_running_index(self@, session_id);
                    match running_index(self@, session_id) {
                        None => {
                            assert(self@[i - 1].session_id == session_id && running(self@[i - 1]));
                        },
                        Some(k) => {
                            if k < i - 1 {
                                assert(self@[i - 1].session_id == session_id && running(self@[i - 1]));
                            }
                        },
                    }
                }
                return Some(i - 1);
            }
            i -= 1;
        }
        proof {
            lemma_running_index(self@, session_id);
            if running_index(self@, session_id) is Some {
                let k = running_index(self@, session_id)->0;
                assert(self@[k].session_id == session_id && running(self@[k]));
            }
        }
        None
    }
}

/// A reason recorded through [`HistoryEntry::record`] and then
/// [`History::record_start`] reads exactly as if it had been redacted once.
pub proof fn lemma_double_redaction_is_harmless(raw: Seq<char>)
    ensures
        redact_spec(redact_spec(raw)) == redact_spec(raw),
{
    lemma_redaction_is_idempotent(raw);
}

/// The retention cap never leaves more than its bound, and the newest entry is
/// always the one just recorded.
pub proof fn lemma_history_bounded(s: Seq<HistoryEntry>, e: HistoryEntry)
    requires
        s.len() <= MAX_HISTORY_ENTRIES,
    ensures
        history_trim(s.push(e)).len() <= MAX_HISTORY_ENTRIES,
        history_trim(s.push(e)).last() == e,
{
}

/// The stored history, with its schema stamp as a sibling of the payload.
#[derive(Clone, Debug, PartialEq, Eq)]
pub struct HistoryDocument {
    pub schema_version: u32,
    pub history: History,
}

impl HistoryDocument {
    pub fn new(history: History) -> (d: Self)
        ensures
            d.schema_version == HISTORY_SCHEMA_VERSION,
            d.history == history,
    {
        HistoryDocument { schema_version: HISTORY_SCHEMA_VERSION, history }
    }
}

/// What a load produced, and what it had to rescue to produce it.
#[derive(Clone, Debug, PartialEq, Eq)]
pub struct HistoryLoad {
    pub history: History,
    /// A malformed current-schema file is moved here before an empty history
    /// is returned, so nothing is destroyed to keep the service starting.
    pub recovered_corrupt_state: Option<String>,
}

/// Where the session history is read and written.
#[derive(Clone, Debug, PartialEq, Eq)]
pub struct HistoryStore {
    path: String,
}

impl HistoryStore {
    pub closed spec fn path_view(&self) -> Seq<char> {
        self.path@
    }

    pub fn at_path(path: String) -> (s: Self)
        ensures
            s.path_view() == path@,
    {
        HistoryStore { path }
    }

    /// `$XDG_STATE_HOME/better-awake/awake-history.json`, falling back to
    /// `~/.local/state`.
    pub fn from_default_path(xdg_state_home: Option<&str>, home: Option<&str>) -> (s: Self)
        ensures
            s.path_view() == default_path_spec(
                match xdg_state_home {
                    Some(x) => Some(x@),
                    None => None,
                },
                match home {
                    Some(h) => Some(h@),
                    None => None,
                },
                HISTORY_FILE_NAME@,
            ),
    {
        HistoryStore { path: default_path(xdg_state_home, home, HISTORY_FILE_NAME) }
    }

    pub fn path(&self) -> (p: &String)
        ensures
            p@ == self.path_view(),
    {
        &self.path
    }

    /// What loading must do with what reading the file found.
    pub fn load_step(&self, read: FileRead) -> (step: LoadStep)
        ensures
            load_step_is(step, self.path_view(), read, HISTORY_SCHEMA_VERSION),
    {
        load_step(self.path.as_str(), read, HISTORY_SCHEMA_VERSION)
    }
}

} // verus!
