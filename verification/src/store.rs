//! Versioned persistence: where the files live, how a stored document is
//! judged before it is read, and what the service state keeps across a crash.
//!
//! Reading follows one discipline for every file: the schema stamp is read
//! before the document is deserialized, a newer schema is preserved and
//! refused, and a malformed current-schema file is moved aside rather than
//! silently reset. After a crash, the next run must be able to say that a
//! session was interrupted rather than pretend nothing happened.

use vstd::prelude::*;

use crate::roots::path_join;
use crate::session::{EndCondition, SessionOrigin, SessionPolicy};
use crate::text::{chars_of, decimal, decimal_chars, append_chars, has_prefix, string_of};

verus! {

/// The only schema each store writes.
pub const STATE_SCHEMA_VERSION: u32 = 1;

pub const STATE_FILE_NAME: &'static str = "awake-service-state.json";

/// The directory every store lives in, under the user's state directory.
pub const STATE_DIRECTORY_NAME: &'static str = "better-awake";

/// `$XDG_STATE_HOME/better-awake`, or `~/.local/state/better-awake` when that is
/// unset or not absolute, or `./better-awake` when neither is known.
pub open spec fn state_base(xdg_state_home: Option<Seq<char>>, home: Option<Seq<char>>) -> Seq<char> {
    match xdg_state_home {
        Some(x) if x.len() > 0 && x[0] == '/' => x,
        _ => match home {
            Some(h) => path_join(path_join(h, ".local"@), "state"@),
            None => "."@,
        },
    }
}

/// Where a store's file lives, given the two environment variables.
pub open spec fn default_path_spec(
    xdg_state_home: Option<Seq<char>>,
    home: Option<Seq<char>>,
    file_name: Seq<char>,
) -> Seq<char> {
    path_join(path_join(state_base(xdg_state_home, home), "better-awake"@), file_name)
}

/// The default path of a store file. Nothing here is privileged or shared
/// between users.
pub fn default_path(xdg_state_home: Option<&str>, home: Option<&str>, file_name: &str) -> (p: String)
    ensures
        p@ == default_path_spec(
            match xdg_state_home {
                Some(x) => Some(x@),
                None => None,
            },
            match home {
                Some(h) => Some(h@),
                None => None,
            },
            file_name@,
        ),
{
    let absolute: Option<String> = match xdg_state_home {
        Some(x) => {
            let v = chars_of(x);
            if v.len() > 0 && v[0] == '/' {
                Some(String::from_str(x))
            } else {
                None
            }
        },
        None => None,
    };
    let base: String = match absolute {
        Some(b) => b,
        None => match home {
            Some(h) => {
                let local = crate::roots::join_path(h, ".local");
                crate::roots::join_path(local.as_str(), "state")
            },
            None => String::from_str("."),
        },
    };
    let dir = crate::roots::join_path(base.as_str(), "better-awake");
    crate::roots::join_path(dir.as_str(), file_name)
}

/// What a stored document's stamp says about reading it.
#[derive(Clone, Copy, Debug, PartialEq, Eq, Structural)]
pub enum DecodeVerdict {
    /// Not JSON, or no usable stamp: corrupt, to be moved aside.
    Invalid,
    /// A schema this version does not write: preserved and refused.
    UnsupportedSchema(u32),
    /// The current schema: decode the document.
    Current,
}

/// The top-level unsigned integer a JSON document holds under `key`: `None`
/// when the bytes are not JSON, `Some(None)` when there is no such integer.
pub uninterp spec fn json_top_level_u64(bytes: Seq<u8>, key: Seq<char>) -> Option<Option<u64>>;

/// Parses `bytes` as JSON with `serde_json::from_slice` and reads `key` with
/// `Value::get` and `Value::as_u64`. The contract only names the result; what
/// counts as JSON is serde_json's.
#[verifier::external_body]
fn top_level_u64(bytes: &[u8], key: &str) -> (r: Option<Option<u64>>)
    ensures
        r == json_top_level_u64(bytes@, key@),
{
    match serde_json::from_slice::<serde_json::Value>(bytes) {
        Ok(value) => Some(value.get(key).and_then(serde_json::Value::as_u64)),
        Err(_) => None,
    }
}

/// The verdict a stamp gives, for a store whose schema is `current`.
///
/// A missing stamp is corruption, not version one. A stamp that is not the
/// current schema is refused: newer ones because overwriting them would destroy
/// what a newer build wrote, older ones because no migration exists for them.
pub open spec fn verdict_spec(stamp: Option<Option<u64>>, current: u32) -> DecodeVerdict {
    match stamp {
        Some(Some(v)) => if v > u32::MAX {
            DecodeVerdict::Invalid
        } else if v == current {
            DecodeVerdict::Current
        } else {
            DecodeVerdict::UnsupportedSchema(v as u32)
        },
        _ => DecodeVerdict::Invalid,
    }
}

pub fn verdict_of(stamp: Option<Option<u64>>, current: u32) -> (v: DecodeVerdict)
    ensures
        v == verdict_spec(stamp, current),
{
    match stamp {
        Some(Some(v)) => if v > 0xffff_ffff {
            DecodeVerdict::Invalid
        } else if v == current as u64 {
            DecodeVerdict::Current
        } else {
            DecodeVerdict::UnsupportedSchema(v as u32)
        },
        _ => DecodeVerdict::Invalid,
    }
}

/// Judges a stored document by its `schema_version` stamp before anything else
/// is read from it.
pub fn judge_document(bytes: &[u8], current: u32) -> (v: DecodeVerdict)
    ensures
        v == verdict_spec(json_top_level_u64(bytes@, "schema_version"@), current),
{
    verdict_of(top_level_u64(bytes, "schema_version"), current)
}

/// Why a store could not be read or written.
#[derive(Clone, Debug, PartialEq, Eq)]
pub enum StoreError {
    Io { path: String, detail: String },
    UnsupportedSchema { path: String, version: u32 },
    Serialize { detail: String },
}

impl StoreError {
    pub open spec fn key_view(&self) -> Seq<char> {
        match self {
            StoreError::Io { path, .. } => "awake.store.error.io:"@ + path@,
            StoreError::UnsupportedSchema { version, .. } => "awake.store.error.unsupported_schema:"@
                + decimal(*version as nat),
            StoreError::Serialize { .. } => "awake.store.error.serialize"@,
        }
    }

    /// The stable key this error reports.
    pub fn key(&self) -> (k: String)
        ensures
            k@ == self.key_view(),
    {
        match self {
            StoreError::Io { path, .. } => {
                let mut out = chars_of("awake.store.error.io:");
                append_chars(&mut out, &chars_of(path.as_str()));
                string_of(&out)
            },
            StoreError::UnsupportedSchema { version, .. } => {
                let mut out = chars_of("awake.store.error.unsupported_schema:");
                append_chars(&mut out, &decimal_chars(*version as u64));
                string_of(&out)
            },
            StoreError::Serialize { .. } => String::from_str("awake.store.error.serialize"),
        }
    }
}

/// What reading a store's file found.
#[derive(Clone, Debug, PartialEq, Eq)]
pub enum FileRead {
    /// There is no file: a first run.
    Missing,
    /// The file is there but could not be read.
    Failed { detail: String },
    Bytes(Vec<u8>),
}

/// What a load does next with what it read.
#[derive(Clone, Debug, PartialEq, Eq)]
pub enum LoadStep {
    /// Start from the store's empty value; nothing is wrong.
    FirstRun,
    /// The current schema: deserialize the document.
    Decode,
    /// Corrupt: move the file aside, then start from the empty value, so
    /// nothing is destroyed to keep the service starting.
    MoveAsideCorrupt,
    /// Stop with this error and leave the file as it is.
    Refuse(StoreError),
}

/// `step` is what loading the file at `path`, for a store whose schema is
/// `current`, must do after `read`.
pub open spec fn load_step_is(step: LoadStep, path: Seq<char>, read: FileRead, current: u32) -> bool {
    match read {
        FileRead::Missing => step is FirstRun,
        FileRead::Failed { detail } => step matches LoadStep::Refuse(StoreError::Io { path: p, detail: d })
            && p@ == path && d@ == detail@,
        FileRead::Bytes(b) => match verdict_spec(json_top_level_u64(b@, "schema_version"@), current) {
            DecodeVerdict::Current => step is Decode,
            DecodeVerdict::Invalid => step is MoveAsideCorrupt,
            DecodeVerdict::UnsupportedSchema(v) => step matches LoadStep::Refuse(
                StoreError::UnsupportedSchema { path: p, version },
            ) && p@ == path && version == v,
        },
    }
}

/// The first half of every load. A missing file is a first run, not an
/// error; a newer or unknown schema is refused, because overwriting a file a
/// newer build wrote would destroy it; a malformed file is moved aside.
pub fn load_step(path: &str, read: FileRead, current: u32) -> (step: LoadStep)
    ensures
        load_step_is(step, path@, read, current),
{
    match read {
        FileRead::Missing => LoadStep::FirstRun,
        FileRead::Failed { detail } => LoadStep::Refuse(StoreError::Io { path: String::from_str(path), detail }),
        FileRead::Bytes(b) => match judge_document(b.as_slice(), current) {
            DecodeVerdict::Current => LoadStep::Decode,
            DecodeVerdict::Invalid => LoadStep::MoveAsideCorrupt,
            DecodeVerdict::UnsupportedSchema(version) => LoadStep::Refuse(
                StoreError::UnsupportedSchema { path: String::from_str(path), version },
            ),
        },
    }
}

/// Reads and writes the service state.
#[derive(Clone, Debug, PartialEq, Eq)]
pub struct JsonStore {
    path: String,
}

impl JsonStore {
    pub closed spec fn path_view(&self) -> Seq<char> {
        self.path@
    }

    pub fn at_path(path: String) -> (s: Self)
        ensures
            s.path_view() == path@,
    {
        JsonStore { path }
    }

    /// `$XDG_STATE_HOME/better-awake/awake-service-state.json`, falling back to
    /// `~/.local/state`, given the values of those two variables.
    pub fn from_default_path(xdg_state_home: Option<&str>, home: Option<&str>) -> (s: Self)
        ensures
            s.path_view() == default_path_spec(
                match xdg_state_home {
                    Some(x) => Some(x@),
                    None => None,
                },
                match home {
                    Some(h) => Some(h@),
                    None => None,
                },
                STATE_FILE_NAME@,
            ),
    {
        JsonStore { path: default_path(xdg_state_home, home, STATE_FILE_NAME) }
    }

    pub fn path(&self) -> (p: &String)
        ensures
            p@ == self.path_view(),
    {
        &self.path
    }

    /// What loading must do with what reading the file found.
    pub fn load_step(&self, read: FileRead) -> (step: LoadStep)
        ensures
            load_step_is(step, self.path_view(), read, STATE_SCHEMA_VERSION),
    {
        load_step(self.path.as_str(), read, STATE_SCHEMA_VERSION)
    }
}

/// The only rules schema this crate writes.
pub const RULES_SCHEMA_VERSION: u32 = 1;

pub const RULES_FILE_NAME: &'static str = "awake-rules.json";

/// Reads and writes the user's automatic rules. Rules are the one thing a user
/// builds by hand, so this store never overwrites a file it cannot understand.
#[derive(Clone, Debug, PartialEq, Eq)]
pub struct RulesStore {
    path: String,
}

impl RulesStore {
    pub closed spec fn path_view(&self) -> Seq<char> {
        self.path@
    }

    pub fn at_path(path: String) -> (s: Self)
        ensures
            s.path_view() == path@,
    {
        RulesStore { path }
    }

    /// `$XDG_STATE_HOME/better-awake/awake-rules.json`, falling back to
    /// `~/.local/state`, given the values of those two variables.
    pub fn from_default_path(xdg_state_home: Option<&str>, home: Option<&str>) -> (s: Self)
        ensures
            s.path_view() == default_path_spec(
                match xdg_state_home {
                    Some(x) => Some(x@),
                    None => None,
                },
                match home {
                    Some(h) => Some(h@),
                    None => None,
                },
                RULES_FILE_NAME@,
            ),
    {
        RulesStore { path: default_path(xdg_state_home, home, RULES_FILE_NAME) }
    }

    pub fn path(&self) -> (p: &String)
        ensures
            p@ == self.path_view(),
    {
        &self.path
    }

    /// What loading must do with what reading the file found.
    pub fn load_step(&self, read: FileRead) -> (step: LoadStep)
        ensures
            load_step_is(step, self.path_view(), read, RULES_SCHEMA_VERSION),
    {
        load_step(self.path.as_str(), read, RULES_SCHEMA_VERSION)
    }
}

// ---------------------------------------------------------------------------
// The service state
// ---------------------------------------------------------------------------

/// A session as it was recorded, including how it ended if it did.
#[derive(Clone, Debug, PartialEq, Eq)]
pub struct PersistedSession {
    pub session_id: u64,
    pub reason: String,
    pub origin: SessionOrigin,
    pub policy: SessionPolicy,
    pub battery_stop_percent: Option<u8>,
    pub end: EndCondition,
    pub started_at_unix_seconds: u64,
    /// Absent while the session is still running.
    pub ended_at_unix_seconds: Option<u64>,
    /// A stable end-cause key, absent while the session is still running.
    pub end_cause: Option<String>,
}

impl PersistedSession {
    pub fn is_running(&self) -> (b: bool)
        ensures
            b == (self.ended_at_unix_seconds is None),
    {
        self.ended_at_unix_seconds.is_none()
    }
}

/// One lifetime of the service process.
#[derive(Clone, Copy, Debug, PartialEq, Eq, Structural)]
pub struct RunRecord {
    pub started_at_unix_seconds: u64,
    /// Refreshed while the service is alive.
    pub last_seen_unix_seconds: u64,
    /// Set only by a clean shutdown; its absence in a file read at startup is
    /// what "the previous run was interrupted" means.
    pub shut_down_at_unix_seconds: Option<u64>,
}

#[derive(Clone, Debug, PartialEq, Eq)]
pub struct ServiceState {
    pub schema_version: u32,
    pub run: RunRecord,
    /// Active sessions, plus the recently ended ones kept for the interrupted
    /// report.
    pub sessions: Vec<PersistedSession>,
    /// Whether the user has accepted the security consequence of a session that
    /// keeps the display on or stops automatic locking.
    pub reduced_security_confirmed: bool,
}

/// How many ended sessions are kept alongside the running ones.
pub const MAX_RETAINED_SESSIONS: usize = 16;

/// A session the previous run never closed.
#[derive(Clone, Debug, PartialEq, Eq)]
pub struct InterruptedSession {
    pub session_id: u64,
    pub reason: String,
    pub started_at_unix_seconds: u64,
    /// The last moment the crashed run recorded itself as alive.
    pub last_seen_unix_seconds: u64,
}

pub open spec fn running(s: PersistedSession) -> bool {
    s.ended_at_unix_seconds is None
}

pub open spec fn count_running(s: Seq<PersistedSession>) -> nat
    decreases s.len(),
{
    if s.len() == 0 {
        0
    } else {
        count_running(s.drop_last()) + if running(s.last()) {
            1nat
        } else {
            0nat
        }
    }
}

/// The index of the oldest ended session.
pub open spec fn first_ended(s: Seq<PersistedSession>) -> Option<int>
    decreases s.len(),
{
    if s.len() == 0 {
        None
    } else if !running(s[0]) {
        Some(0)
    } else {
        match first_ended(s.drop_first()) {
            Some(i) => Some(i + 1),
            None => None,
        }
    }
}

/// What trimming leaves: the oldest ended sessions go first, one at a time,
/// until the bound is met or only running sessions remain.
pub open spec fn trim_spec(s: Seq<PersistedSession>) -> Seq<PersistedSession>
    decreases s.len(),
{
    if s.len() <= MAX_RETAINED_SESSIONS {
        s
    } else {
        match first_ended(s) {
            None => s,
            Some(i) => if 0 <= i < s.len() {
                trim_spec(s.remove(i))
            } else {
                s
            },
        }
    }
}

proof fn lemma_first_ended(s: Seq<PersistedSession>)
    ensures
        first_ended(s) matches Some(i) ==> 0 <= i < s.len() && !running(s[i]) && forall|j: int|
            0 <= j < i ==> running(#[trigger] s[j]),
        first_ended(s) is None ==> forall|j: int| 0 <= j < s.len() ==> running(#[trigger] s[j]),
    decreases s.len(),
{
    if s.len() > 0 {
        lemma_first_ended(s.drop_first());
        if running(s[0]) {
            assert forall|j: int| 0 < j < s.len() implies s[j] == s.drop_first()[j - 1] by {}
        }
    }
}

fn first_ended_exec(sessions: &Vec<PersistedSession>) -> (r: Option<usize>)
    ensures
        match first_ended(sessions@) {
            None => r is None,
            Some(i) => r == Some(i as usize) && 0 <= i < sessions.len(),
        },
{
    proof {
        lemma_first_ended(sessions@);
    }
    let mut i: usize = 0;
    while i < sessions.len()
        invariant
            i <= sessions.len(),
            forall|j: int| 0 <= j < i ==> running(#[trigger] sessions@[j]),
        decreases sessions.len() - i,
    {
        if !sessions[i].is_running() {
            proof {
                lemma_first_ended(sessions@);
                if first_ended(sessions@) is None {
                    assert(running(sessions@[i as int]));
                } else {
                    let k = first_ended(sessions@)->0;
                    if k < i {
                        assert(running(sessions@[k]));
                    } else if k > i {
                        assert(running(sessions@[i as int]));
                    }
                }
            }
            return Some(i);
        }
        i += 1;
    }
    proof {
        lemma_first_ended(sessions@);
        if first_ended(sessions@) is Some {
            let k = first_ended(sessions@)->0;
            assert(running(sessions@[k]));
        }
    }
    None
}

impl ServiceState {
    /// A fresh state for a run starting at `now_unix_seconds`.
    pub fn new(now_unix_seconds: u64) -> (s: Self)
        ensures
            s.schema_version == STATE_SCHEMA_VERSION,
            s.run == (RunRecord {
                started_at_unix_seconds: now_unix_seconds,
                last_seen_unix_seconds: now_unix_seconds,
                shut_down_at_unix_seconds: None,
            }),
            s.sessions@.len() == 0,
            !s.reduced_security_confirmed,
    {
        ServiceState {
            schema_version: STATE_SCHEMA_VERSION,
            run: RunRecord {
                started_at_unix_seconds: now_unix_seconds,
                last_seen_unix_seconds: now_unix_seconds,
                shut_down_at_unix_seconds: None,
            },
            sessions: Vec::new(),
            reduced_security_confirmed: false,
        }
    }

    /// Drops the oldest ended sessions once the record grows past its bound.
    /// A running session is never dropped.
    pub fn trim(&mut self)
        ensures
            final(self).sessions@ == trim_spec(old(self).sessions@),
            final(self).schema_version == old(self).schema_version,
            final(self).run == old(self).run,
            final(self).reduced_security_confirmed == old(self).reduced_security_confirmed,
    {
        while self.sessions.len() > MAX_RETAINED_SESSIONS
            invariant
                trim_spec(self.sessions@) == trim_spec(old(self).sessions@),
                self.schema_version == old(self).schema_version,
                self.run == old(self).run,
                self.reduced_security_confirmed == old(self).reduced_security_confirmed,
            decreases self.sessions.len(),
        {
            match first_ended_exec(&self.sessions) {
                None => {
                    return;
                },
                Some(i) => {
                    let ghost before = self.sessions@;
                    self.sessions.remove(i);
                    assert(self.sessions@ == before.remove(i as int));
                },
            }
        }
    }
}

/// Trimming never drops a running session, and leaves at most the bound
/// whenever enough ended sessions exist to drop.
pub proof fn lemma_trim_keeps_running_sessions(s: Seq<PersistedSession>)
    ensures
        count_running(trim_spec(s)) == count_running(s),
        trim_spec(s).len() <= MAX_RETAINED_SESSIONS || forall|j: int|
            0 <= j < trim_spec(s).len() ==> running(#[trigger] trim_spec(s)[j]),
    decreases s.len(),
{
    lemma_first_ended(s);
    if s.len() > MAX_RETAINED_SESSIONS {
        match first_ended(s) {
            None => {},
            Some(i) => {
                lemma_count_running_remove(s, i);
                lemma_trim_keeps_running_sessions(s.remove(i));
            },
        }
    }
}

proof fn lemma_count_running_remove(s: Seq<PersistedSession>, i: int)
    requires
        0 <= i < s.len(),
    ensures
        count_running(s.remove(i)) + (if running(s[i]) {
            1nat
        } else {
            0nat
        }) == count_running(s),
    decreases s.len(),
{
    if i == s.len() - 1 {
        assert(s.remove(i) =~= s.drop_last());
    } else {
        lemma_count_running_remove(s.drop_last(), i);
        assert(s.remove(i).drop_last() =~= s.drop_last().remove(i));
        assert(s.remove(i).last() == s.last());
    }
}

/// The sessions a crashed run left open, each with when it was last seen.
/// Empty after a clean shutdown, which released what it held.
pub open spec fn interrupted_spec(state: ServiceState) -> Seq<(u64, Seq<char>, u64, u64)> {
    if state.run.shut_down_at_unix_seconds is Some {
        seq![]
    } else {
        running_of(state.sessions@, state.run.last_seen_unix_seconds)
    }
}

pub open spec fn running_of(s: Seq<PersistedSession>, last_seen: u64) -> Seq<(u64, Seq<char>, u64, u64)>
    decreases s.len(),
{
    if s.len() == 0 {
        seq![]
    } else {
        let before = running_of(s.drop_last(), last_seen);
        let x = s.last();
        if running(x) {
            before.push((x.session_id, x.reason@, x.started_at_unix_seconds, last_seen))
        } else {
            before
        }
    }
}

pub open spec fn interrupted_view(i: InterruptedSession) -> (u64, Seq<char>, u64, u64) {
    (i.session_id, i.reason@, i.started_at_unix_seconds, i.last_seen_unix_seconds)
}

pub fn interrupted_sessions(state: &ServiceState) -> (out: Vec<InterruptedSession>)
    ensures
        out@.map_values(|i: InterruptedSession| interrupted_view(i)) == interrupted_spec(*state),
{
    let mut out: Vec<InterruptedSession> = Vec::new();
    if state.run.shut_down_at_unix_seconds.is_some() {
        assert(out@.map_values(|i: InterruptedSession| interrupted_view(i)) =~= Seq::<
            (u64, Seq<char>, u64, u64),
        >::empty());
        return out;
    }
    let last_seen = state.run.last_seen_unix_seconds;
    let mut i: usize = 0;
    while i < state.sessions.len()
        invariant
            i <= state.sessions.len(),
            last_seen == state.run.last_seen_unix_seconds,
            out@.map_values(|x: InterruptedSession| interrupted_view(x)) == running_of(
                state.sessions@.take(i as int),
                last_seen,
            ),
        decreases state.sessions.len() - i,
    {
        assert(state.sessions@.take(i + 1).drop_last() =~= state.sessions@.take(i as int));
        assert(state.sessions@.take(i + 1).last() == state.sessions@[i as int]);
        let session = &state.sessions[i];
        if session.is_running() {
            let ghost before = out@;
            out.push(
                InterruptedSession {
                    session_id: session.session_id,
                    reason: session.reason.clone(),
                    started_at_unix_seconds: session.started_at_unix_seconds,
                    last_seen_unix_seconds: last_seen,
                },
            );
            assert(out@.map_values(|x: InterruptedSession| interrupted_view(x)) =~= before.map_values(
                |x: InterruptedSession| interrupted_view(x),
            ).push(interrupted_view(out@.last())));
        }
        i += 1;
    }
    assert(state.sessions@.take(i as int) =~= state.sessions@);
    out
}

/// `q` is `p` as a restart leaves it: a session still running is closed at
/// `at` with the `interrupted` end cause; an ended one is untouched.
pub open spec fn closed_by_restart(p: PersistedSession, q: PersistedSession, at: u64) -> bool {
    if running(p) {
        &&& q.session_id == p.session_id
        &&& q.reason == p.reason
        &&& q.origin == p.origin
        &&& q.policy == p.policy
        &&& q.battery_stop_percent == p.battery_stop_percent
        &&& q.end == p.end
        &&& q.started_at_unix_seconds == p.started_at_unix_seconds
        &&& q.ended_at_unix_seconds == Some(at)
        &&& q.end_cause matches Some(c) && c@ == "interrupted"@
    } else {
        q == p
    }
}

/// When a restart closes the sessions it finds running: the last moment the
/// crashed run was seen, or now when nothing was interrupted.
pub open spec fn restart_end_time(previous: ServiceState, now_unix_seconds: u64) -> u64 {
    if interrupted_spec(previous).len() > 0 {
        previous.run.last_seen_unix_seconds
    } else {
        now_unix_seconds
    }
}

proof fn lemma_running_of_last_seen(s: Seq<PersistedSession>, last_seen: u64)
    ensures
        forall|k: int| 0 <= k < running_of(s, last_seen).len() ==> (#[trigger] running_of(s, last_seen)[k]).3 == last_seen,
    decreases s.len(),
{
    if s.len() > 0 {
        let before = running_of(s.drop_last(), last_seen);
        lemma_running_of_last_seen(s.drop_last(), last_seen);
        assert forall|k: int| 0 <= k < running_of(s, last_seen).len() implies (#[trigger] running_of(
            s,
            last_seen,
        )[k]).3 == last_seen by {
            if k < before.len() {
                assert(running_of(s, last_seen)[k] == before[k]);
            }
        }
    }
}

/// What a load at startup makes of the previous state.
///
/// The previous run's sessions are not resumed: whatever inhibitor they held
/// died with the process, so re-listing them as active would claim protection
/// that is not there. They stay in the record marked `interrupted`, ended at
/// the last moment the crashed run was seen (or now, when nothing was
/// interrupted), and the run record starts afresh.
pub fn resume_after_restart(previous: ServiceState, now_unix_seconds: u64) -> (r: (ServiceState, Vec<InterruptedSession>))
    ensures
        r.1@.map_values(|i: InterruptedSession| interrupted_view(i)) == interrupted_spec(previous),
        r.0.run == (RunRecord {
            started_at_unix_seconds: now_unix_seconds,
            last_seen_unix_seconds: now_unix_seconds,
            shut_down_at_unix_seconds: None,
        }),
        r.0.schema_version == previous.schema_version,
        r.0.reduced_security_confirmed == previous.reduced_security_confirmed,
        exists|closed: Seq<PersistedSession>|
            {
                &&& closed.len() == previous.sessions@.len()
                &&& forall|j: int|
                    0 <= j < closed.len() ==> closed_by_restart(
                        previous.sessions@[j],
                        #[trigger] closed[j],
                        restart_end_time(previous, now_unix_seconds),
                    )
                &&& r.0.sessions@ == trim_spec(closed)
            },
        forall|j: int| 0 <= j < r.0.sessions@.len() ==> !running(#[trigger] r.0.sessions@[j]),
        r.0.sessions@.len() <= previous.sessions@.len(),
{
    let interrupted = interrupted_sessions(&previous);
    let ghost prev = previous;
    let ghost at = restart_end_time(previous, now_unix_seconds);
    let mut state = previous;
    state.run = RunRecord {
        started_at_unix_seconds: now_unix_seconds,
        last_seen_unix_seconds: now_unix_seconds,
        shut_down_at_unix_seconds: None,
    };
    let ended_at = if interrupted.len() > 0 {
        proof {
            lemma_running_of_last_seen(prev.sessions@, prev.run.last_seen_unix_seconds);
            assert(interrupted@.map_values(|i: InterruptedSession| interrupted_view(i))[0]
                == interrupted_view(interrupted@[0]));
        }
        interrupted[0].last_seen_unix_seconds
    } else {
        now_unix_seconds
    };
    assert(ended_at == at);
    let mut sessions: Vec<PersistedSession> = Vec::new();
    let mut old_sessions = state.sessions;
    state.sessions = Vec::new();
    let ghost old_len = old_sessions.len();
    while old_sessions.len() > 0
        invariant
            sessions.len() + old_sessions.len() == old_len,
            old_len == prev.sessions@.len(),
            old_sessions@ == prev.sessions@.skip(sessions.len() as int),
            ended_at == at,
            forall|j: int|
                0 <= j < sessions@.len() ==> closed_by_restart(prev.sessions@[j], #[trigger] sessions@[j], at),
            forall|j: int| 0 <= j < sessions@.len() ==> !running(#[trigger] sessions@[j]),
        decreases old_sessions.len(),
    {
        let ghost k = sessions.len() as int;
        let mut session = old_sessions.remove(0);
        assert(session == prev.sessions@[k]);
        if session.is_running() {
            session.ended_at_unix_seconds = Some(ended_at);
            session.end_cause = Some(String::from_str("interrupted"));
        }
        sessions.push(session);
        assert(old_sessions@ =~= prev.sessions@.skip(sessions.len() as int));
    }
    state.sessions = sessions;
    let ghost before_trim = state.sessions@;
    state.trim();
    proof {
        lemma_trim_subset(before_trim);
        assert(before_trim.len() == prev.sessions@.len());
    }
    (state, interrupted)
}

proof fn lemma_trim_subset(s: Seq<PersistedSession>)
    ensures
        trim_spec(s).len() <= s.len(),
        forall|j: int|
            0 <= j < trim_spec(s).len() ==> exists|k: int| 0 <= k < s.len() && s[k] == #[trigger] trim_spec(s)[j],
    decreases s.len(),
{
    lemma_first_ended(s);
    if s.len() > MAX_RETAINED_SESSIONS {
        match first_ended(s) {
            None => {
                assert forall|j: int| 0 <= j < trim_spec(s).len() implies exists|k: int|
                    0 <= k < s.len() && s[k] == #[trigger] trim_spec(s)[j] by {
                    assert(s[j] == trim_spec(s)[j]);
                }
            },
            Some(i) => {
                let r = s.remove(i);
                lemma_trim_subset(r);
                assert forall|j: int| 0 <= j < trim_spec(s).len() implies exists|k: int|
                    0 <= k < s.len() && s[k] == #[trigger] trim_spec(s)[j] by {
                    let k = choose|k: int| 0 <= k < r.len() && r[k] == trim_spec(r)[j];
                    if k < i {
                        assert(s[k] == r[k]);
                    } else {
                        assert(s[k + 1] == r[k]);
                    }
                }
            },
        }
    } else {
        assert forall|j: int| 0 <= j < trim_spec(s).len() implies exists|k: int|
            0 <= k < s.len() && s[k] == #[trigger] trim_spec(s)[j] by {
            assert(s[j] == trim_spec(s)[j]);
        }
    }
}

// ---------------------------------------------------------------------------
// Keeping the record in step with the running service
// ---------------------------------------------------------------------------

/// The first running record of `session_id`.
pub open spec fn running_record(s: Seq<PersistedSession>, session_id: u64) -> Option<int>
    decreases s.len(),
{
    if s.len() == 0 {
        None
    } else if s[0].session_id == session_id && running(s[0]) {
        Some(0)
    } else {
        match running_record(s.drop_first(), session_id) {
            Some(i) => Some(i + 1),
            None => None,
        }
    }
}

proof fn lemma_running_record(s: Seq<PersistedSession>, session_id: u64)
    ensures
        running_record(s, session_id) matches Some(i) ==> 0 <= i < s.len() && s[i].session_id
            == session_id && running(s[i]) && forall|j: int|
            0 <= j < i ==> !(#[trigger] s[j].session_id == session_id && running(s[j])),
        running_record(s, session_id) is None ==> forall|j: int|
            0 <= j < s.len() ==> !(#[trigger] s[j].session_id == session_id && running(s[j])),
    decreases s.len(),
{
    if s.len() > 0 {
        lemma_running_record(s.drop_first(), session_id);
        assert forall|j: int| 0 < j < s.len() implies s[j] == s.drop_first()[j - 1] by {}
    }
}

fn running_record_exec(sessions: &Vec<PersistedSession>, session_id: u64) -> (r: Option<usize>)
    ensures
        match running_record(sessions@, session_id) {
            None => r is None,
            Some(i) => r == Some(i as usize) && 0 <= i < sessions.len(),
        },
{
    proof {
        lemma_running_record(sessions@, session_id);
    }
    let mut i: usize = 0;
    while i < sessions.len()
        invariant
            i <= sessions.len(),
            forall|j: int|
                0 <= j < i ==> !(#[trigger] sessions@[j].session_id == session_id && running(
                    sessions@[j],
                )),
        decreases sessions.len() - i,
    {
        if sessions[i].session_id == session_id && sessions[i].is_running() {
            proof {
                lemma_running_record(sessions@, session_id);
                match running_record(sessions@, session_id) {
                    None => {
                        assert(sessions@[i as int].session_id == session_id && running(
                            sessions@[i as int],
                        ));
                    },
                    Some(k) => {
                        if k > i {
                            assert(sessions@[i as int].session_id == session_id && running(
                                sessions@[i as int],
                            ));
                        } else if k < i {
                            assert(sessions@[k].session_id == session_id && running(sessions@[k]));
                        }
                    },
                }
            }
            return Some(i);
        }
        i += 1;
    }
    proof {
        lemma_running_record(sessions@, session_id);
        if running_record(sessions@, session_id) is Some {
            let k = running_record(sessions@, session_id)->0;
            assert(sessions@[k].session_id == session_id && running(sessions@[k]));
        }
    }
    None
}

/// `q` is `p` closed at `at` for the end cause `cause`, and otherwise unchanged.
pub open spec fn ended_record(p: PersistedSession, q: PersistedSession, at: u64, cause: Seq<char>) -> bool {
    &&& q.session_id == p.session_id
    &&& q.reason == p.reason
    &&& q.origin == p.origin
    &&& q.policy == p.policy
    &&& q.battery_stop_percent == p.battery_stop_percent
    &&& q.end == p.end
    &&& q.started_at_unix_seconds == p.started_at_unix_seconds
    &&& q.ended_at_unix_seconds == Some(at)
    &&& q.end_cause matches Some(c) && c@ == cause
}

/// `q` is `p` rewritten to follow `current`: the reason, the policy, the
/// battery threshold and the end come from `current`; the identity, the origin
/// and the timing stay as recorded.
pub open spec fn followed_record(p: PersistedSession, q: PersistedSession, current: PersistedSession) -> bool {
    &&& q.session_id == p.session_id
    &&& q.origin == p.origin
    &&& q.started_at_unix_seconds == p.started_at_unix_seconds
    &&& q.ended_at_unix_seconds == p.ended_at_unix_seconds
    &&& q.end_cause == p.end_cause
    &&& q.reason@ == current.reason@
    &&& q.policy == current.policy
    &&& q.battery_stop_percent == current.battery_stop_percent
    &&& q.end == current.end
}

impl ServiceState {
    /// Records a session that has just started, so that a crash right after
    /// still leaves a file naming what was running.
    pub fn record_started(&mut self, session: PersistedSession)
        ensures
            final(self).sessions@ == old(self).sessions@.push(session),
            final(self).schema_version == old(self).schema_version,
            final(self).run == old(self).run,
            final(self).reduced_security_confirmed == old(self).reduced_security_confirmed,
            running(session) && old(self).run.shut_down_at_unix_seconds is None
                ==> interrupted_spec(*final(self)) == interrupted_spec(*old(self)).push(
                (
                    session.session_id,
                    session.reason@,
                    session.started_at_unix_seconds,
                    old(self).run.last_seen_unix_seconds,
                ),
            ),
    {
        let ghost before = self.sessions@;
        self.sessions.push(session);
        assert(self.sessions@.drop_last() =~= before);
    }

    /// Closes the first running record of `session_id` at `now_unix_seconds`
    /// with a stable end-cause key. A record that already ended is never
    /// rewritten. Returns whether a record was closed.
    pub fn record_ended(&mut self, session_id: u64, now_unix_seconds: u64, end_cause: &str) -> (closed: bool)
        ensures
            closed == (running_record(old(self).sessions@, session_id) is Some),
            final(self).sessions@.len() == old(self).sessions@.len(),
            match running_record(old(self).sessions@, session_id) {
                None => final(self).sessions@ == old(self).sessions@,
                Some(i) => {
                    &&& forall|j: int|
                        0 <= j < old(self).sessions@.len() && j != i ==> final(self).sessions@[j]
                            == old(self).sessions@[j]
                    &&& ended_record(
                        old(self).sessions@[i],
                        final(self).sessions@[i],
                        now_unix_seconds,
                        end_cause@,
                    )
                },
            },
            final(self).schema_version == old(self).schema_version,
            final(self).run == old(self).run,
            final(self).reduced_security_confirmed == old(self).reduced_security_confirmed,
    {
        match running_record_exec(&self.sessions, session_id) {
            None => false,
            Some(i) => {
                let mut record = self.sessions.remove(i);
                record.ended_at_unix_seconds = Some(now_unix_seconds);
                record.end_cause = Some(String::from_str(end_cause));
                let ghost updated = record;
                self.sessions.insert(i, record);
                assert(self.sessions@[i as int] == updated);
                assert forall|j: int|
                    0 <= j < old(self).sessions@.len() && j != i implies self.sessions@[j]
                    == old(self).sessions@[j] by {
                    if j > i {
                        assert(self.sessions@[j] == old(self).sessions@.remove(i as int)[j - 1]);
                    }
                }
                true
            },
        }
    }

    /// Follows a change to a running session: the first running record that
    /// names it takes the session's new reason, policy, battery threshold and
    /// end. Returns whether such a record was found.
    pub fn follow_change(&mut self, current: &PersistedSession) -> (followed: bool)
        ensures
            followed == (running_record(old(self).sessions@, current.session_id) is Some),
            final(self).sessions@.len() == old(self).sessions@.len(),
            match running_record(old(self).sessions@, current.session_id) {
                None => final(self).sessions@ == old(self).sessions@,
                Some(i) => {
                    &&& forall|j: int|
                        0 <= j < old(self).sessions@.len() && j != i ==> final(self).sessions@[j]
                            == old(self).sessions@[j]
                    &&& followed_record(old(self).sessions@[i], final(self).sessions@[i], *current)
                },
            },
            final(self).schema_version == old(self).schema_version,
            final(self).run == old(self).run,
            final(self).reduced_security_confirmed == old(self).reduced_security_confirmed,
    {
        match running_record_exec(&self.sessions, current.session_id) {
            None => false,
            Some(i) => {
                let mut record = self.sessions.remove(i);
                record.reason = current.reason.clone();
                record.policy = current.policy;
                record.battery_stop_percent = current.battery_stop_percent;
                record.end = current.end;
                let ghost updated = record;
                self.sessions.insert(i, record);
                assert(self.sessions@[i as int] == updated);
                assert forall|j: int|
                    0 <= j < old(self).sessions@.len() && j != i implies self.sessions@[j]
                    == old(self).sessions@[j] by {
                    if j > i {
                        assert(self.sessions@[j] == old(self).sessions@.remove(i as int)[j - 1]);
                    }
                }
                true
            },
        }
    }

    /// Stamps the record as alive at `now_unix_seconds`, carries the user's
    /// security acknowledgement, and trims the record to its bound.
    pub fn mark_alive(&mut self, now_unix_seconds: u64, reduced_security_confirmed: bool)
        ensures
            final(self).run.started_at_unix_seconds == old(self).run.started_at_unix_seconds,
            final(self).run.last_seen_unix_seconds == now_unix_seconds,
            final(self).run.shut_down_at_unix_seconds == old(self).run.shut_down_at_unix_seconds,
            final(self).reduced_security_confirmed == reduced_security_confirmed,
            final(self).schema_version == old(self).schema_version,
            final(self).sessions@ == trim_spec(old(self).sessions@),
    {
        self.run.last_seen_unix_seconds = now_unix_seconds;
        self.reduced_security_confirmed = reduced_security_confirmed;
        self.trim();
    }

    /// Records a clean shutdown at `now_unix_seconds`. After it the record has
    /// nothing to report as interrupted: the shutdown released what it held.
    pub fn mark_shut_down(&mut self, now_unix_seconds: u64)
        ensures
            final(self).run.started_at_unix_seconds == old(self).run.started_at_unix_seconds,
            final(self).run.last_seen_unix_seconds == now_unix_seconds,
            final(self).run.shut_down_at_unix_seconds == Some(now_unix_seconds),
            final(self).reduced_security_confirmed == old(self).reduced_security_confirmed,
            final(self).schema_version == old(self).schema_version,
            final(self).sessions@ == trim_spec(old(self).sessions@),
            interrupted_spec(*final(self)).len() == 0,
    {
        self.run.last_seen_unix_seconds = now_unix_seconds;
        self.run.shut_down_at_unix_seconds = Some(now_unix_seconds);
        self.trim();
    }
}

} // verus!
