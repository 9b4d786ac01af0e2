//! Watched file and directory activity.
//!
//! What is recorded per path is one timestamp: when it last changed. Not the
//! file names, not the sizes, not the event kinds. A rule asks "did something
//! happen here within N seconds", and one number answers that.
//!
//! The kernel watch itself lives at the edge. This module owns the record of
//! activity and the bookkeeping of which paths are watched, which were refused
//! and why.

use vstd::prelude::*;

use crate::paths::{
    find_path, holds_paths, in_path_order, lemma_holds_in_path_order, parts_eq, path_parts, pc, remove_path,
    set_path, set_spec, spellings,
};
use crate::provider::{Answer, Cadence, ProviderKind};
use crate::text::{append_chars, chars_of, clone_chars, string_of, views};

verus! {

/// The last-change time of one watched path.
#[derive(Clone, Debug, PartialEq, Eq)]
pub struct WatchActivity {
    pub path: String,
    pub last_change_unix_seconds: u64,
}

/// The last-change time of every watched path. Only ever holds paths a rule
/// asked for, so it is bounded by the rule set.
///
/// Paths are identified and ordered by their components, so `/a/b` and
/// `/a/b/` are one path and `/a/b` is listed before `/a-b`. Each path keeps the
/// spelling it was first given in.
pub struct WatchLog {
    last_change: Vec<(Vec<char>, u64)>,
    contents: Ghost<Map<Seq<Seq<char>>, (Seq<char>, u64)>>,
}

impl View for WatchLog {
    /// Each followed path's components, mapped to its kept spelling and its
    /// last-change time.
    type V = Map<Seq<Seq<char>>, (Seq<char>, u64)>;

    closed spec fn view(&self) -> Map<Seq<Seq<char>>, (Seq<char>, u64)> {
        self.contents@
    }
}

/// `paths` lists the paths of `m` exactly, once each, in path order, each in
/// the spelling `m` keeps for it.
pub open spec fn lists_paths<V>(m: Map<Seq<Seq<char>>, (Seq<char>, V)>, paths: Seq<Seq<char>>) -> bool {
    &&& in_path_order(paths)
    &&& forall|i: int|
        0 <= i < paths.len() ==> m.dom().contains(pc(#[trigger] paths[i])) && m[pc(paths[i])].0
            == paths[i]
    &&& forall|k: Seq<Seq<char>>|
        #[trigger] m.dom().contains(k) ==> exists|i: int| 0 <= i < paths.len() && pc(#[trigger] paths[i]) == k
}

/// `a` is the activity of `m`: every followed path once, in path order, with
/// its last-change time.
pub open spec fn lists_activity(m: Map<Seq<Seq<char>>, (Seq<char>, u64)>, a: Seq<WatchActivity>) -> bool {
    &&& lists_paths(m, a.map_values(|w: WatchActivity| w.path@))
    &&& forall|i: int|
        0 <= i < a.len() ==> m[pc(#[trigger] a[i].path@)].1 == a[i].last_change_unix_seconds
}

/// `m` after a change on `path` at `t`: only a path already followed is
/// touched, and it keeps its spelling.
pub open spec fn touched(m: Map<Seq<Seq<char>>, (Seq<char>, u64)>, path: Seq<char>, t: u64) -> Map<
    Seq<Seq<char>>,
    (Seq<char>, u64),
> {
    if m.dom().contains(pc(path)) {
        m.insert(pc(path), (m[pc(path)].0, t))
    } else {
        m
    }
}

proof fn lemma_spellings_listed<V>(s: Seq<(Vec<char>, V)>, m: Map<Seq<Seq<char>>, (Seq<char>, V)>)
    requires
        holds_paths(s, m),
    ensures
        lists_paths(m, spellings(s)),
{
    lemma_holds_in_path_order(s, m);
    let sp = spellings(s);
    assert forall|i: int| 0 <= i < sp.len() implies m.dom().contains(pc(#[trigger] sp[i])) && m[pc(
        sp[i],
    )].0 == sp[i] by {
        assert(sp[i] == s[i].0@);
    }
    assert forall|k: Seq<Seq<char>>| #[trigger] m.dom().contains(k) implies exists|i: int|
        0 <= i < sp.len() && pc(#[trigger] sp[i]) == k by {
        let q = choose|q: int| 0 <= q < s.len() && pc(#[trigger] s[q].0@) == k;
        assert(sp[q] == s[q].0@);
    }
}

impl WatchLog {
    /// The vector holds exactly the paths of the view, once each, in path
    /// order.
    #[verifier::type_invariant]
    spec fn wf(&self) -> bool {
        holds_paths(self.last_change@, self.contents@)
    }

    pub fn new() -> (log: Self)
        ensures
            log@ == Map::<Seq<Seq<char>>, (Seq<char>, u64)>::empty(),
    {
        WatchLog { last_change: Vec::new(), contents: Ghost(Map::empty()) }
    }

    /// Takes the log apart: its entries and the map they stand for.
    fn into_parts(self) -> (parts: (Vec<(Vec<char>, u64)>, Ghost<Map<Seq<Seq<char>>, (Seq<char>, u64)>>))
        ensures
            holds_paths(parts.0@, parts.1@),
            parts.1@ == self@,
    {
        proof {
            use_type_invariant(&self);
        }
        let WatchLog { last_change, contents } = self;
        (last_change, contents)
    }

    /// Moves the log out of `self`, leaving an empty one behind.
    fn take(&mut self) -> (parts: (Vec<(Vec<char>, u64)>, Ghost<Map<Seq<Seq<char>>, (Seq<char>, u64)>>))
        ensures
            holds_paths(parts.0@, parts.1@),
            parts.1@ == old(self)@,
    {
        let mut taken = WatchLog::new();
        std::mem::swap(self, &mut taken);
        taken.into_parts()
    }

    /// Records that a watched path changed at `now_unix_seconds`.
    pub fn record(&mut self, path: &str, now_unix_seconds: u64)
        ensures
            final(self)@ == set_spec(old(self)@, path@, now_unix_seconds),
    {
        let (mut entries, Ghost(m)) = self.take();
        set_path(&mut entries, chars_of(path), now_unix_seconds, Ghost(m));
        *self = WatchLog { last_change: entries, contents: Ghost(set_spec(m, path@, now_unix_seconds)) };
    }

    /// Records a change at `now_unix_seconds` on `path` when it is followed,
    /// and nothing otherwise: a path no rule asked for never enters the log.
    /// Returns whether it was followed.
    pub fn touch(&mut self, path: &str, now_unix_seconds: u64) -> (followed: bool)
        ensures
            followed == old(self)@.dom().contains(pc(path@)),
            final(self)@ == touched(old(self)@, path@, now_unix_seconds),
    {
        let chars = chars_of(path);
        let key = path_parts(&chars);
        let (mut entries, Ghost(m)) = self.take();
        let followed = match find_path(&entries, &key, Ghost(m)) {
            None => false,
            Some(_) => {
                set_path(&mut entries, chars, now_unix_seconds, Ghost(m));
                true
            },
        };
        let ghost after = if followed {
            set_spec(m, path@, now_unix_seconds)
        } else {
            m
        };
        *self = WatchLog { last_change: entries, contents: Ghost(after) };
        followed
    }

    /// Starts tracking a path with no activity recorded yet.
    ///
    /// The initial timestamp is zero rather than "now": a rule must not fire the
    /// instant the service starts just because it began watching. A path
    /// already followed keeps what it has.
    pub fn begin_tracking(&mut self, path: &str)
        ensures
            old(self)@.dom().contains(pc(path@)) ==> final(self)@ == old(self)@,
            !old(self)@.dom().contains(pc(path@)) ==> final(self)@ == old(self)@.insert(
                pc(path@),
                (path@, 0u64),
            ),
    {
        let chars = chars_of(path);
        let key = path_parts(&chars);
        let (mut entries, Ghost(m)) = self.take();
        let known = find_path(&entries, &key, Ghost(m)).is_some();
        if !known {
            set_path(&mut entries, chars, 0, Ghost(m));
        }
        let ghost after = if known {
            m
        } else {
            set_spec(m, path@, 0u64)
        };
        *self = WatchLog { last_change: entries, contents: Ghost(after) };
    }

    /// Stops following a path, in whatever spelling it was followed.
    pub fn stop_tracking(&mut self, path: &str)
        ensures
            final(self)@ == old(self)@.remove(pc(path@)),
    {
        let chars = chars_of(path);
        let (mut entries, Ghost(m)) = self.take();
        remove_path(&mut entries, &chars, Ghost(m));
        *self = WatchLog { last_change: entries, contents: Ghost(m.remove(pc(path@))) };
    }

    /// Every path being followed, once each, in path order.
    pub fn tracked_paths(&self) -> (paths: Vec<String>)
        ensures
            lists_paths(self@, paths@.map_values(|p: String| p@)),
    {
        proof {
            use_type_invariant(self);
        }
        let mut out: Vec<String> = Vec::new();
        let mut i: usize = 0;
        while i < self.last_change.len()
            invariant
                i <= self.last_change.len(),
                self.wf(),
                out@.map_values(|p: String| p@) == spellings(self.last_change@).take(i as int),
            decreases self.last_change.len() - i,
        {
            let ghost before = out@;
            let path = string_of(&self.last_change[i].0);
            out.push(path);
            assert(out@.map_values(|p: String| p@) =~= before.map_values(|p: String| p@).push(
                spellings(self.last_change@)[i as int],
            ));
            assert(spellings(self.last_change@).take(i + 1) =~= spellings(self.last_change@).take(
                i as int,
            ).push(spellings(self.last_change@)[i as int]));
            i += 1;
        }
        proof {
            assert(spellings(self.last_change@).take(i as int) =~= spellings(self.last_change@));
            lemma_spellings_listed(self.last_change@, self.contents@);
        }
        out
    }

    /// The recorded activity: every followed path once, in path order, with
    /// its last-change time.
    pub fn activity(&self) -> (a: Vec<WatchActivity>)
        ensures
            lists_activity(self@, a@),
    {
        proof {
            use_type_invariant(self);
        }
        let mut out: Vec<WatchActivity> = Vec::new();
        let mut i: usize = 0;
        while i < self.last_change.len()
            invariant
                i <= self.last_change.len(),
                self.wf(),
                out.len() == i,
                forall|j: int|
                    0 <= j < i ==> #[trigger] out@[j].path@ == self.last_change@[j].0@
                        && out@[j].last_change_unix_seconds == self.last_change@[j].1,
            decreases self.last_change.len() - i,
        {
            out.push(
                WatchActivity {
                    path: string_of(&self.last_change[i].0),
                    last_change_unix_seconds: self.last_change[i].1,
                },
            );
            i += 1;
        }
        proof {
            assert(out@.map_values(|w: WatchActivity| w.path@) =~= spellings(self.last_change@));
            lemma_spellings_listed(self.last_change@, self.contents@);
            assert forall|i: int| 0 <= i < out@.len() implies self@[pc(
                #[trigger] out@[i].path@,
            )].1 == out@[i].last_change_unix_seconds by {
                assert(pc(self.last_change@[i].0@) == pc(out@[i].path@));
            }
        }
        out
    }
}

/// A path that is already followed keeps its recorded activity when a rule
/// starts watching it again, in any spelling; only a new path starts at zero.
pub proof fn lemma_rewatching_keeps_activity(
    m: Map<Seq<Seq<char>>, (Seq<char>, u64)>,
    path: Seq<char>,
    again: Seq<char>,
    t: u64,
)
    requires
        pc(path) == pc(again),
    ensures
        ({
            let recorded = set_spec(m, path, t);
            let rewatched = if recorded.dom().contains(pc(again)) {
                recorded
            } else {
                recorded.insert(pc(again), (again, 0u64))
            };
            rewatched[pc(again)].1 == t
        }),
{
}

/// Why one path could not be watched, next to the path.
#[derive(Clone, Debug, PartialEq, Eq)]
pub struct RejectedPath {
    pub path: String,
    pub reason: String,
}

/// What changing the watched set takes: the watches to drop, then the paths
/// to ask the kernel for.
#[derive(Clone, Debug, PartialEq, Eq)]
pub struct WatchPlan {
    pub unwatch: Vec<String>,
    pub watch: Vec<String>,
}

/// What the kernel said to one watch request.
#[derive(Clone, Debug, PartialEq, Eq)]
pub struct WatchOutcome {
    pub path: String,
    /// `None` when the watch was registered, else the error text.
    pub error: Option<String>,
}

/// The paths watched, the activity seen, and the paths refused.
pub struct WatchState {
    log: WatchLog,
    watched: Vec<String>,
    failure: Option<String>,
    rejected: Vec<(Vec<char>, String)>,
    rejected_view: Ghost<Map<Seq<Seq<char>>, (Seq<char>, String)>>,
}

/// Some path in `s` is the path `x` names, in whatever spelling.
pub open spec fn names_path(s: Seq<String>, x: Seq<char>) -> bool {
    exists|i: int| 0 <= i < s.len() && pc((#[trigger] s[i])@) == pc(x)
}

fn contains_path(s: &Vec<String>, x: &Vec<char>) -> (b: bool)
    ensures
        b == names_path(s@, x@),
{
    let key = path_parts(x);
    let mut i: usize = 0;
    while i < s.len()
        invariant
            i <= s.len(),
            views(key@) == pc(x@),
            forall|j: int| 0 <= j < i ==> pc((#[trigger] s@[j])@) != pc(x@),
        decreases s.len() - i,
    {
        let parts = path_parts(&chars_of(s[i].as_str()));
        if parts_eq(&parts, &key) {
            return true;
        }
        i += 1;
    }
    false
}

pub open spec fn key_watch_unavailable() -> Seq<char> {
    "awake.provider.watch_unavailable:"@
}

pub open spec fn key_path_unwatchable() -> Seq<char> {
    "awake.provider.path_unwatchable:"@
}

/// No outcome after the `k`th, up to `end`, is for the same path.
pub open spec fn last_outcome_for(outcomes: Seq<WatchOutcome>, k: int, end: int) -> bool {
    forall|q: int| k < q < end ==> pc(outcomes[q].path@) != pc(outcomes[k].path@)
}

/// Some outcome is for the path `x` names.
pub open spec fn answered(outcomes: Seq<WatchOutcome>, x: Seq<char>) -> bool {
    exists|j: int| 0 <= j < outcomes.len() && pc((#[trigger] outcomes[j]).path@) == pc(x)
}

/// What the kernel said to `o` is what the refusals say of its path: a
/// refused path is listed with the kernel's error after the stable key, and a
/// watched path is not listed.
pub open spec fn refusal_recorded(rejected: Map<Seq<Seq<char>>, (Seq<char>, String)>, o: WatchOutcome) -> bool {
    match o.error {
        Some(e) => rejected.dom().contains(pc(o.path@)) && rejected[pc(o.path@)].1@
            == key_path_unwatchable() + e@,
        None => !rejected.dom().contains(pc(o.path@)),
    }
}

impl WatchState {
    /// The refusals vector holds exactly the paths of its view, once each,
    /// in path order.
    #[verifier::type_invariant]
    spec fn wf(&self) -> bool {
        holds_paths(self.rejected@, self.rejected_view@)
    }

    /// Moves the state out of `self`, leaving a fresh one behind.
    fn take(&mut self) -> (taken: Self)
        ensures
            taken == *old(self),
    {
        let mut taken = WatchState::available();
        std::mem::swap(self, &mut taken);
        taken
    }

    pub closed spec fn log_view(&self) -> Map<Seq<Seq<char>>, (Seq<char>, u64)> {
        self.log@
    }

    pub closed spec fn watched_paths(&self) -> Seq<String> {
        self.watched@
    }

    pub closed spec fn watched_view(&self) -> Seq<Seq<char>> {
        self.watched@.map_values(|p: String| p@)
    }

    pub closed spec fn rejected_map(&self) -> Map<Seq<Seq<char>>, (Seq<char>, String)> {
        self.rejected_view@
    }

    pub closed spec fn failure_view(&self) -> Option<String> {
        self.failure
    }

    /// The state of a watcher that could be created.
    pub fn available() -> (s: Self)
        ensures
            s.failure_view() is None,
            s.log_view() == Map::<Seq<Seq<char>>, (Seq<char>, u64)>::empty(),
            s.watched_view().len() == 0,
            s.rejected_map() == Map::<Seq<Seq<char>>, (Seq<char>, String)>::empty(),
    {
        WatchState {
            log: WatchLog::new(),
            watched: Vec::new(),
            failure: None,
            rejected: Vec::new(),
            rejected_view: Ghost(Map::empty()),
        }
    }

    /// The state of a watcher that could not be created, and why.
    ///
    /// A missing `inotify` is a real state in a container with a low
    /// `max_user_instances`, and it is reported rather than retried.
    pub fn unavailable(error: &str) -> (s: Self)
        ensures
            s.failure_view() matches Some(f) && f@ == key_watch_unavailable() + error@,
            s.log_view() == Map::<Seq<Seq<char>>, (Seq<char>, u64)>::empty(),
            s.watched_view().len() == 0,
            s.rejected_map() == Map::<Seq<Seq<char>>, (Seq<char>, String)>::empty(),
    {
        let mut text = chars_of("awake.provider.watch_unavailable:");
        append_chars(&mut text, &chars_of(error));
        WatchState {
            log: WatchLog::new(),
            watched: Vec::new(),
            failure: Some(string_of(&text)),
            rejected: Vec::new(),
            rejected_view: Ghost(Map::empty()),
        }
    }

    pub fn log(&self) -> (l: &WatchLog)
        ensures
            l@ == self.log_view(),
    {
        &self.log
    }

    /// Records a filesystem event on `path`, whose directory is `parent`.
    ///
    /// The rule names a directory while the event names a file inside it, so
    /// the change is recorded against whichever of the two is followed. A path
    /// no rule asked for, such as the changed file's own name, never enters
    /// the log.
    pub fn record_event(&mut self, path: &str, parent: Option<&str>, now_unix_seconds: u64)
        ensures
            final(self).watched_view() == old(self).watched_view(),
            final(self).failure_view() == old(self).failure_view(),
            final(self).rejected_map() == old(self).rejected_map(),
            final(self).log_view() == (match parent {
                Some(p) => touched(touched(old(self).log_view(), path@, now_unix_seconds), p@, now_unix_seconds),
                None => touched(old(self).log_view(), path@, now_unix_seconds),
            }),
            final(self).log_view().dom() == old(self).log_view().dom(),
    {
        let state = self.take();
        proof {
            use_type_invariant(&state);
        }
        let WatchState { mut log, watched, failure, rejected, rejected_view } = state;
        log.touch(path, now_unix_seconds);
        match parent {
            Some(p) => {
                log.touch(p, now_unix_seconds);
            },
            None => {},
        }
        *self = WatchState { log, watched, failure, rejected, rejected_view };
        assert(self.log_view().dom() =~= old(self).log_view().dom());
    }

    /// Whether a watcher exists at all.
    pub fn is_available(&self) -> (b: bool)
        ensures
            b == (self.failure_view() is None),
    {
        self.failure.is_none()
    }

    /// Paths a rule asked for that could not be watched, and why, once each in
    /// path order.
    pub fn rejected(&self) -> (r: Vec<RejectedPath>)
        ensures
            lists_paths(self.rejected_map(), r@.map_values(|e: RejectedPath| e.path@)),
            forall|i: int|
                0 <= i < r.len() ==> self.rejected_map()[pc(#[trigger] r@[i].path@)].1@ == r@[i].reason@,
    {
        proof {
            use_type_invariant(self);
        }
        let mut out: Vec<RejectedPath> = Vec::new();
        let mut i: usize = 0;
        while i < self.rejected.len()
            invariant
                i <= self.rejected.len(),
                self.wf(),
                out.len() == i,
                forall|j: int|
                    0 <= j < i ==> #[trigger] out@[j].path@ == self.rejected@[j].0@ && out@[j].reason@
                        == self.rejected@[j].1@,
            decreases self.rejected.len() - i,
        {
            out.push(
                RejectedPath {
                    path: string_of(&self.rejected[i].0),
                    reason: self.rejected[i].1.clone(),
                },
            );
            i += 1;
        }
        proof {
            assert(out@.map_values(|e: RejectedPath| e.path@) =~= spellings(self.rejected@));
            lemma_spellings_listed(self.rejected@, self.rejected_view@);
            assert forall|i: int| 0 <= i < out@.len() implies self.rejected_map()[pc(
                #[trigger] out@[i].path@,
            )].1@ == out@[i].reason@ by {
                assert(pc(self.rejected@[i].0@) == pc(out@[i].path@));
            }
        }
        out
    }

    /// What bringing the watches in line with `wanted` takes.
    ///
    /// Every watched path no rule names any more is dropped, so it stops
    /// costing a watch descriptor; every wanted path not yet watched is asked
    /// for once, however often and in however many spellings the rules name
    /// it. Nothing is planned when no watcher exists.
    pub fn plan(&self, wanted: &Vec<String>) -> (p: WatchPlan)
        ensures
            self.failure_view() is Some ==> p.unwatch.len() == 0 && p.watch.len() == 0,
            self.failure_view() is None ==> {
                &&& forall|i: int|
                    0 <= i < p.unwatch.len() ==> names_path(self.watched_paths(), #[trigger] p.unwatch@[i]@)
                        && !names_path(wanted@, p.unwatch@[i]@)
                &&& forall|i: int|
                    0 <= i < self.watched_paths().len() && !names_path(wanted@, #[trigger] self.watched_paths()[i]@)
                        ==> names_path(p.unwatch@, self.watched_paths()[i]@)
                &&& forall|i: int|
                    0 <= i < p.watch.len() ==> names_path(wanted@, #[trigger] p.watch@[i]@)
                        && !names_path(self.watched_paths(), p.watch@[i]@)
                &&& forall|i: int|
                    0 <= i < wanted.len() && !names_path(self.watched_paths(), #[trigger] wanted@[i]@)
                        ==> names_path(p.watch@, wanted@[i]@)
                &&& forall|i: int, j: int|
                    0 <= i < j < p.watch.len() ==> pc((#[trigger] p.watch@[i])@) != pc((#[trigger] p.watch@[j])@)
            },
    {
        let mut unwatch: Vec<String> = Vec::new();
        let mut watch: Vec<String> = Vec::new();
        if self.failure.is_some() {
            return WatchPlan { unwatch, watch };
        }
        let mut i: usize = 0;
        while i < self.watched.len()
            invariant
                i <= self.watched.len(),
                forall|k: int|
                    0 <= k < unwatch.len() ==> names_path(self.watched@, #[trigger] unwatch@[k]@)
                        && !names_path(wanted@, unwatch@[k]@),
                forall|k: int|
                    0 <= k < i && !names_path(wanted@, #[trigger] self.watched@[k]@)
                        ==> names_path(unwatch@, self.watched@[k]@),
            decreases self.watched.len() - i,
        {
            let path = chars_of(self.watched[i].as_str());
            if !contains_path(wanted, &path) {
                let ghost before = unwatch@;
                unwatch.push(self.watched[i].clone());
                proof {
                    assert(unwatch@[unwatch.len() - 1] == self.watched@[i as int]);
                    assert(pc(self.watched@[i as int]@) == pc(self.watched@[i as int]@));
                    assert forall|k: int|
                        0 <= k < i + 1 && !names_path(wanted@, #[trigger] self.watched@[k]@)
                            implies names_path(unwatch@, self.watched@[k]@) by {
                        if k < i {
                            let q = choose|q: int| 0 <= q < before.len() && pc((#[trigger] before[q])@)
                                == pc(self.watched@[k]@);
                            assert(unwatch@[q] == before[q]);
                        } else {
                            assert(pc(unwatch@[unwatch.len() - 1]@) == pc(self.watched@[k]@));
                        }
                    }
                }
            }
            i += 1;
        }
        let mut j: usize = 0;
        while j < wanted.len()
            invariant
                j <= wanted.len(),
                forall|k: int|
                    0 <= k < watch.len() ==> names_path(wanted@, #[trigger] watch@[k]@)
                        && !names_path(self.watched@, watch@[k]@),
                forall|k: int|
                    0 <= k < j && !names_path(self.watched@, #[trigger] wanted@[k]@)
                        ==> names_path(watch@, wanted@[k]@),
                forall|a: int, b: int|
                    0 <= a < b < watch.len() ==> pc((#[trigger] watch@[a])@) != pc((#[trigger] watch@[b])@),
            decreases wanted.len() - j,
        {
            let path = chars_of(wanted[j].as_str());
            if !contains_path(&self.watched, &path) && !contains_path(&watch, &path) {
                let ghost before = watch@;
                watch.push(wanted[j].clone());
                proof {
                    assert(watch@[watch.len() - 1] == wanted@[j as int]);
                    assert(pc(wanted@[j as int]@) == pc(wanted@[j as int]@));
                    assert forall|k: int|
                        0 <= k < j + 1 && !names_path(self.watched@, #[trigger] wanted@[k]@)
                            implies names_path(watch@, wanted@[k]@) by {
                        if k < j {
                            let q = choose|q: int| 0 <= q < before.len() && pc((#[trigger] before[q])@)
                                == pc(wanted@[k]@);
                            assert(watch@[q] == before[q]);
                        } else {
                            assert(pc(watch@[watch.len() - 1]@) == pc(wanted@[k]@));
                        }
                    }
                    assert forall|a: int, b: int|
                        0 <= a < b < watch.len() implies pc((#[trigger] watch@[a])@)
                            != pc((#[trigger] watch@[b])@) by {
                        if b == watch.len() - 1 {
                            assert(watch@[a] == before[a]);
                        } else {
                            assert(watch@[a] == before[a] && watch@[b] == before[b]);
                        }
                    }
                }
            } else {
                proof {
                    assert forall|k: int|
                        0 <= k < j + 1 && !names_path(self.watched@, #[trigger] wanted@[k]@)
                            implies names_path(watch@, wanted@[k]@) by {
                        if k == j {
                            assert(wanted@[k]@ == path@);
                        }
                    }
                }
            }
            j += 1;
        }
        WatchPlan { unwatch, watch }
    }

    /// Applies a plan once the kernel has answered it.
    ///
    /// An unwatched path stops being watched and followed and loses any
    /// refusal, unless an outcome answers it again; a watched path is followed
    /// from zero and loses any earlier refusal; a refused path is recorded with
    /// its reason and does not take the other watches down with it.
    pub fn apply(&mut self, unwatched: &Vec<String>, outcomes: &Vec<WatchOutcome>)
        ensures
            final(self).failure_view() == old(self).failure_view(),
            forall|i: int|
                0 <= i < unwatched.len() && !answered(outcomes@, #[trigger] unwatched@[i]@) ==> {
                    &&& !names_path(final(self).watched_paths(), unwatched@[i]@)
                    &&& !final(self).log_view().dom().contains(pc(unwatched@[i]@))
                    &&& !final(self).rejected_map().dom().contains(pc(unwatched@[i]@))
                },
            forall|j: int|
                0 <= j < outcomes.len() && (#[trigger] outcomes@[j]).error is None ==> names_path(
                    final(self).watched_paths(),
                    outcomes@[j].path@,
                ) && final(self).log_view().dom().contains(pc(outcomes@[j].path@)),
            forall|j: int|
                0 <= j < outcomes.len() && last_outcome_for(outcomes@, j, outcomes.len() as int)
                    ==> refusal_recorded(final(self).rejected_map(), #[trigger] outcomes@[j]),
    {
        let state = self.take();
        proof {
            use_type_invariant(&state);
        }
        let WatchState { mut log, mut watched, failure, mut rejected, mut rejected_view } = state;
        let mut i: usize = 0;
        while i < unwatched.len()
            invariant
                i <= unwatched.len(),
                holds_paths(rejected@, rejected_view@),
                failure == old(self).failure_view(),
                forall|k: int|
                    0 <= k < i ==> {
                        &&& !names_path(watched@, #[trigger] unwatched@[k]@)
                        &&& !log@.dom().contains(pc(unwatched@[k]@))
                        &&& !rejected_view@.dom().contains(pc(unwatched@[k]@))
                    },
            decreases unwatched.len() - i,
        {
            let path = chars_of(unwatched[i].as_str());
            let key = path_parts(&path);
            let ghost before = watched@;
            let mut kept: Vec<String> = Vec::new();
            let mut q: usize = 0;
            while q < watched.len()
                invariant
                    q <= watched.len(),
                    watched@ == before,
                    views(key@) == pc(path@),
                    forall|a: int| 0 <= a < kept.len() ==> pc((#[trigger] kept@[a])@) != pc(path@),
                    forall|a: int|
                        0 <= a < kept.len() ==> names_path(before, #[trigger] kept@[a]@),
                decreases watched.len() - q,
            {
                let parts = path_parts(&chars_of(watched[q].as_str()));
                if !parts_eq(&parts, &key) {
                    kept.push(watched[q].clone());
                    assert(kept@[kept.len() - 1] == before[q as int]);
                    assert(pc(before[q as int]@) == pc(before[q as int]@));
                }
                q += 1;
            }
            watched = kept;
            log.stop_tracking(unwatched[i].as_str());
            let ghost rm = rejected_view@;
            remove_path(&mut rejected, &path, Ghost(rm));
            rejected_view = Ghost(rm.remove(pc(path@)));
            proof {
                assert forall|k: int| 0 <= k < i + 1 implies {
                    &&& !names_path(watched@, #[trigger] unwatched@[k]@)
                    &&& !log@.dom().contains(pc(unwatched@[k]@))
                    &&& !rejected_view@.dom().contains(pc(unwatched@[k]@))
                } by {
                    if names_path(watched@, unwatched@[k]@) {
                        let a = choose|a: int| 0 <= a < watched@.len() && pc(
                            (#[trigger] watched@[a])@,
                        ) == pc(unwatched@[k]@);
                        if k < i {
                            let b = choose|b: int| 0 <= b < before.len() && pc((#[trigger] before[b])@)
                                == pc(watched@[a]@);
                            assert(pc(before[b]@) == pc(unwatched@[k]@));
                        }
                    }
                }
            }
            i += 1;
        }
        let mut j: usize = 0;
        while j < outcomes.len()
            invariant
                j <= outcomes.len(),
                holds_paths(rejected@, rejected_view@),
                failure == old(self).failure_view(),
                forall|k: int|
                    0 <= k < j && (#[trigger] outcomes@[k]).error is None ==> names_path(
                        watched@,
                        outcomes@[k].path@,
                    ) && log@.dom().contains(pc(outcomes@[k].path@)),
                forall|k: int|
                    0 <= k < unwatched.len() && !(exists|q: int|
                        0 <= q < j && pc((#[trigger] outcomes@[q]).path@) == pc(unwatched@[k]@)) ==> {
                        &&& !names_path(watched@, #[trigger] unwatched@[k]@)
                        &&& !log@.dom().contains(pc(unwatched@[k]@))
                        &&& !rejected_view@.dom().contains(pc(unwatched@[k]@))
                    },
                forall|k: int|
                    0 <= k < j && last_outcome_for(outcomes@, k, j as int) ==> refusal_recorded(
                        rejected_view@,
                        #[trigger] outcomes@[k],
                    ),
            decreases outcomes.len() - j,
        {
            let outcome = &outcomes[j];
            let path = chars_of(outcome.path.as_str());
            let ghost before_watched = watched@;
            let ghost before_log = log@;
            let ghost before_rejected = rejected_view@;
            match &outcome.error {
                None => {
                    if !contains_path(&watched, &path) {
                        watched.push(outcome.path.clone());
                        assert(watched@[watched.len() - 1]@ == outcome.path@);
                    }
                    log.begin_tracking(outcome.path.as_str());
                    let ghost rm = rejected_view@;
                    remove_path(&mut rejected, &path, Ghost(rm));
                    rejected_view = Ghost(rm.remove(pc(path@)));
                },
                Some(error) => {
                    let mut reason = chars_of("awake.provider.path_unwatchable:");
                    append_chars(&mut reason, &chars_of(error.as_str()));
                    let ghost rm = rejected_view@;
                    let reason_text = string_of(&reason);
                    assert(reason_text@ == key_path_unwatchable() + error@);
                    set_path(&mut rejected, clone_chars(&path), reason_text, Ghost(rm));
                    rejected_view = Ghost(set_spec(rm, path@, reason_text));
                },
            }
            proof {
                assert(pc(outcomes@[j as int].path@) == pc(path@));
                // Only the path this outcome is for can have entered anything.
                assert forall|x: Seq<char>| pc(x) != pc(path@) implies {
                    &&& names_path(watched@, x) == names_path(before_watched, x)
                    &&& log@.dom().contains(pc(x)) == before_log.dom().contains(pc(x))
                    &&& rejected_view@.dom().contains(pc(x)) == before_rejected.dom().contains(pc(x))
                } by {
                    if names_path(watched@, x) {
                        let a = choose|a: int| 0 <= a < watched@.len() && pc(
                            (#[trigger] watched@[a])@,
                        ) == pc(x);
                        if a < before_watched.len() {
                            assert(watched@[a] == before_watched[a]);
                        }
                    }
                    if names_path(before_watched, x) {
                        let a = choose|a: int| 0 <= a < before_watched.len() && pc(
                            (#[trigger] before_watched[a])@,
                        ) == pc(x);
                        assert(watched@[a] == before_watched[a]);
                    }
                }
                assert forall|k: int|
                    0 <= k < j + 1 && (#[trigger] outcomes@[k]).error is None implies names_path(
                        watched@,
                        outcomes@[k].path@,
                    ) && log@.dom().contains(pc(outcomes@[k].path@)) by {
                    if k < j {
                        let a = choose|a: int| 0 <= a < before_watched.len() && pc(
                            (#[trigger] before_watched[a])@,
                        ) == pc(outcomes@[k].path@);
                        assert(watched@[a] == before_watched[a]);
                    } else {
                        if !names_path(before_watched, path@) {
                            assert(pc(watched@[watched@.len() - 1]@) == pc(path@));
                        }
                    }
                }
                assert forall|k: int|
                    0 <= k < unwatched.len() && !(exists|q: int|
                        0 <= q < j + 1 && pc((#[trigger] outcomes@[q]).path@) == pc(unwatched@[k]@)) implies {
                        &&& !names_path(watched@, #[trigger] unwatched@[k]@)
                        &&& !log@.dom().contains(pc(unwatched@[k]@))
                        &&& !rejected_view@.dom().contains(pc(unwatched@[k]@))
                    } by {
                    assert(pc(outcomes@[j as int].path@) != pc(unwatched@[k]@));
                    assert(!(exists|q: int|
                        0 <= q < j && pc((#[trigger] outcomes@[q]).path@) == pc(unwatched@[k]@))) by {
                        if exists|q: int| 0 <= q < j && pc((#[trigger] outcomes@[q]).path@) == pc(unwatched@[k]@) {
                            let q = choose|q: int| 0 <= q < j && pc((#[trigger] outcomes@[q]).path@) == pc(unwatched@[k]@);
                            assert(0 <= q < j + 1);
                        }
                    }
                }
                assert forall|k: int|
                    0 <= k < j + 1 && last_outcome_for(outcomes@, k, j + 1) implies refusal_recorded(
                        rejected_view@,
                        #[trigger] outcomes@[k],
                    ) by {
                    if k < j {
                        assert(pc(outcomes@[j as int].path@) != pc(outcomes@[k].path@));
                        assert(last_outcome_for(outcomes@, k, j as int));
                    }
                }
            }
            j += 1;
        }
        proof {
            assert forall|i: int|
                0 <= i < unwatched.len() && !answered(outcomes@, #[trigger] unwatched@[i]@) implies {
                &&& !names_path(watched@, unwatched@[i]@)
                &&& !log@.dom().contains(pc(unwatched@[i]@))
                &&& !rejected_view@.dom().contains(pc(unwatched@[i]@))
            } by {
                if exists|q: int| 0 <= q < outcomes.len() && pc((#[trigger] outcomes@[q]).path@) == pc(unwatched@[i]@) {
                    let q = choose|q: int| 0 <= q < outcomes.len() && pc((#[trigger] outcomes@[q]).path@) == pc(unwatched@[i]@);
                    assert(answered(outcomes@, unwatched@[i]@));
                }
            }
        }
        *self = WatchState { log, watched, failure, rejected, rejected_view };
    }

    pub fn kind(&self) -> (k: ProviderKind)
        ensures
            k == ProviderKind::WatchedPath,
    {
        ProviderKind::WatchedPath
    }

    /// Event-driven: between events a watch costs nothing.
    pub fn cadence(&self) -> (c: Cadence)
        ensures
            c == Cadence::EventDriven,
    {
        Cadence::EventDriven
    }

    /// The recorded activity, every followed path once in path order with its
    /// last-change time, or why there is none to give.
    pub fn answer(&self) -> (a: Answer<Vec<WatchActivity>>)
        ensures
            match self.failure_view() {
                Some(f) => a matches Answer::Unavailable { explanation } && explanation@ == f@,
                None => a matches Answer::Known(activity) && lists_activity(self.log_view(), activity@),
            },
    {
        match &self.failure {
            Some(failure) => Answer::Unavailable { explanation: failure.clone() },
            None => Answer::Known(self.log.activity()),
        }
    }
}

} // verus!
