//! Decisions the service makes around its sessions: the reason it hands the
//! inhibitor, the history page it answers with, what it records when the
//! backend fails, and what it reports when a stored file could not be read.

use vstd::prelude::*;

use crate::history::{History, HistoryEntry, MAX_HISTORY_ENTRIES, running, same_but};
use crate::ipc::{HistoryDocument, MAX_HISTORY_PAGE, WireHistoryEntry};
use crate::store::StoreError;
use crate::text::{append_chars, chars_of, decimal, decimal_chars, string_of};

verus! {

/// The reason handed to the inhibitor backend: nothing for no session, one
/// session's reason as written, and a count for several, because an inhibitor
/// line is not the place to paste an unbounded list.
pub open spec fn merged_why_spec(reasons: Seq<Seq<char>>) -> Seq<char> {
    if reasons.len() == 0 {
        seq![]
    } else if reasons.len() == 1 {
        reasons[0]
    } else {
        decimal(reasons.len()) + " active reasons"@
    }
}

pub fn merged_why(reasons: &Vec<String>) -> (why: String)
    ensures
        why@ == merged_why_spec(reasons@.map_values(|r: String| r@)),
{
    if reasons.len() == 0 {
        String::new()
    } else if reasons.len() == 1 {
        reasons[0].clone()
    } else {
        let mut out = decimal_chars(reasons.len() as u64);
        append_chars(&mut out, &chars_of(" active reasons"));
        string_of(&out)
    }
}

fn clone_strings(v: &Vec<String>) -> (out: Vec<String>)
    ensures
        out@ == v@,
{
    let mut out: Vec<String> = Vec::new();
    let mut i: usize = 0;
    while i < v.len()
        invariant
            i <= v.len(),
            out@ == v@.take(i as int),
        decreases v.len() - i,
    {
        out.push(v[i].clone());
        assert(out@ =~= v@.take(i + 1));
        i += 1;
    }
    assert(v@.take(i as int) =~= v@);
    out
}

fn clone_text(s: &Option<String>) -> (out: Option<String>)
    ensures
        out == *s,
{
    match s {
        Some(t) => Some(t.clone()),
        None => None,
    }
}

/// `w` carries exactly what `e` recorded.
pub open spec fn wire_carries(w: WireHistoryEntry, e: HistoryEntry) -> bool {
    &&& w.session_id == e.session_id
    &&& w.started_at_unix_seconds == e.started_at_unix_seconds
    &&& w.ended_at_unix_seconds == e.ended_at_unix_seconds
    &&& w.origin == e.origin
    &&& w.rule_id == e.rule_id
    &&& w.reasons@ == e.reasons@
    &&& w.effective_policy == e.effective_policy
    &&& w.battery_stop_percent == e.battery_stop_percent
    &&& w.end_cause == e.end_cause
    &&& w.backend_failure == e.backend_failure
    &&& w.battery_stop_percent_at_stop == e.battery_stop_percent_at_stop
}

fn wire_entry(e: &HistoryEntry) -> (w: WireHistoryEntry)
    ensures
        wire_carries(w, *e),
{
    WireHistoryEntry {
        session_id: e.session_id,
        started_at_unix_seconds: e.started_at_unix_seconds,
        ended_at_unix_seconds: e.ended_at_unix_seconds,
        origin: e.origin,
        rule_id: e.rule_id,
        reasons: clone_strings(&e.reasons),
        effective_policy: e.effective_policy,
        battery_stop_percent: e.battery_stop_percent,
        end_cause: clone_text(&e.end_cause),
        backend_failure: clone_text(&e.backend_failure),
        battery_stop_percent_at_stop: e.battery_stop_percent_at_stop,
    }
}

/// How many entries a page holds: what was asked for, never past the page
/// bound, never more than there are.
pub open spec fn page_len(available: nat, limit: u32) -> nat {
    let bounded: nat = if limit > MAX_HISTORY_PAGE {
        MAX_HISTORY_PAGE as nat
    } else {
        limit as nat
    };
    if bounded < available {
        bounded
    } else {
        available
    }
}

/// The most recent sessions, newest first, with how many there are in all and
/// the retention cap, so a client can say "showing 50 of 312" and explain why
/// an old session is gone.
pub fn history_page(history: &History, limit: u32, now_unix_seconds: u64) -> (doc: HistoryDocument)
    ensures
        doc.entries@.len() == page_len(history@.len(), limit),
        forall|i: int|
            0 <= i < doc.entries@.len() ==> wire_carries(
                #[trigger] doc.entries@[i],
                history@[history@.len() - 1 - i],
            ),
        doc.total == history@.len() as u32,
        doc.retention_limit == MAX_HISTORY_ENTRIES as u32,
        doc.now_unix_seconds == now_unix_seconds,
{
    let bounded: usize = if limit > MAX_HISTORY_PAGE {
        MAX_HISTORY_PAGE as usize
    } else {
        limit as usize
    };
    let all = history.entries();
    let count: usize = if bounded < all.len() {
        bounded
    } else {
        all.len()
    };
    let mut entries: Vec<WireHistoryEntry> = Vec::new();
    let mut i: usize = 0;
    while i < count
        invariant
            i <= count,
            count <= all@.len(),
            all@ == history@,
            entries@.len() == i,
            forall|k: int| 0 <= k < i ==> wire_carries(#[trigger] entries@[k], all@[all@.len() - 1 - k]),
        decreases count - i,
    {
        let e = &all[all.len() - 1 - i];
        entries.push(wire_entry(e));
        i += 1;
    }
    HistoryDocument {
        entries,
        total: all.len() as u32,
        retention_limit: MAX_HISTORY_ENTRIES as u32,
        now_unix_seconds,
    }
}

/// `after` is `before` with the backend failure `key` recorded and nothing
/// else changed.
pub open spec fn failure_recorded(before: HistoryEntry, after: HistoryEntry, key: Seq<char>) -> bool {
    &&& same_but(before, after, 1)
    &&& after.backend_failure matches Some(f) && f@ == key
}

/// Records a backend failure against every session still open: it belongs to
/// whatever was running when it happened. Ended entries are untouched.
pub fn record_attention(history: &mut History, failure_key: &str)
    ensures
        final(history)@.len() == old(history)@.len(),
        forall|i: int|
            0 <= i < old(history)@.len() ==> {
                let before = old(history)@[i];
                let after = #[trigger] final(history)@[i];
                if running(before) {
                    failure_recorded(before, after, failure_key@)
                } else {
                    after == before
                }
            },
{
    let open = open_sessions(history);
    let ghost start = history@;
    let mut k: usize = 0;
    while k < open.len()
        invariant
            k <= open.len(),
            history@.len() == start.len(),
            forall|q: int| 0 <= q < open@.len() ==> open@[q] < start.len() && running(start[open@[q] as int]),
            forall|a: int, b: int| 0 <= a < b < open@.len() ==> open@[a] < open@[b],
            forall|i: int|
                0 <= i < start.len() && running(#[trigger] start[i]) ==> exists|q: int| 0 <= q < open@.len() && open@[q] == i,
            forall|i: int|
                0 <= i < start.len() ==> {
                    let before = start[i];
                    let after = #[trigger] history@[i];
                    if running(before) && exists|q: int| 0 <= q < k && open@[q] == i {
                        failure_recorded(before, after, failure_key@)
                    } else {
                        after == before
                    }
                },
        decreases open.len() - k,
    {
        let index = open[k];
        history.mark_backend_failure_at(index, failure_key);
        proof {
            assert forall|i: int| 0 <= i < start.len() implies {
                let before = start[i];
                let after = #[trigger] history@[i];
                if running(before) && exists|q: int| 0 <= q < k + 1 && open@[q] == i {
                    failure_recorded(before, after, failure_key@)
                } else {
                    after == before
                }
            } by {
                if i == index as int {
                    assert(open@[k as int] == i);
                    assert(!exists|q: int| 0 <= q < k && open@[q] == i);
                } else {
                    if exists|q: int| 0 <= q < k + 1 && open@[q] == i {
                        let q = choose|q: int| 0 <= q < k + 1 && open@[q] == i;
                        assert(q != k);
                    }
                }
            }
        }
        k += 1;
    }
    proof {
        assert forall|i: int| 0 <= i < start.len() implies {
            let before = start[i];
            let after = #[trigger] history@[i];
            if running(before) {
                failure_recorded(before, after, failure_key@)
            } else {
                after == before
            }
        } by {
            if running(start[i]) {
                let q = choose|q: int| 0 <= q < open@.len() && open@[q] == i;
                assert(0 <= q < k);
            }
        }
    }
}

/// The positions of the running entries, in order.
fn open_sessions(history: &History) -> (open: Vec<usize>)
    ensures
        forall|q: int| 0 <= q < open@.len() ==> open@[q] < history@.len() && running(history@[open@[q] as int]),
        forall|a: int, b: int| 0 <= a < b < open@.len() ==> open@[a] < open@[b],
        forall|i: int|
            0 <= i < history@.len() && running(#[trigger] history@[i]) ==> exists|q: int|
                0 <= q < open@.len() && open@[q] == i,
{
    let all = history.entries();
    let mut open: Vec<usize> = Vec::new();
    let mut i: usize = 0;
    while i < all.len()
        invariant
            i <= all.len(),
            all@ == history@,
            forall|q: int| 0 <= q < open@.len() ==> open@[q] < i && running(all@[open@[q] as int]),
            forall|a: int, b: int| 0 <= a < b < open@.len() ==> open@[a] < open@[b],
            forall|j: int|
                0 <= j < i && running(#[trigger] all@[j]) ==> exists|q: int| 0 <= q < open@.len() && open@[q] == j,
        decreases all.len() - i,
    {
        if all[i].is_running() {
            let ghost before = open@;
            open.push(i);
            proof {
                assert forall|j: int| 0 <= j < i + 1 && running(#[trigger] all@[j]) implies exists|q: int|
                    0 <= q < open@.len() && open@[q] == j by {
                    if j < i {
                        let q = choose|q: int| 0 <= q < before.len() && before[q] == j;
                        assert(open@[q] == j);
                    } else {
                        assert(open@[open@.len() - 1] == j);
                    }
                }
            }
        }
        i += 1;
    }
    open
}

/// What a file read at startup came to: loaded, perhaps after moving a corrupt
/// file aside, or refused with an error.
pub open spec fn load_detail_spec(rules: Result<bool, StoreError>, history: Result<bool, StoreError>) -> Option<Seq<char>> {
    let from_rules: Option<Seq<char>> = match rules {
        Ok(true) => Some("awake.store.recovered_corrupt_rules"@),
        Ok(false) => None,
        Err(e) => Some(e.key_view()),
    };
    match from_rules {
        Some(d) => Some(d),
        None => match history {
            Ok(true) => Some("awake.store.recovered_corrupt_history"@),
            Ok(false) => None,
            Err(e) => Some(e.key_view()),
        },
    }
}

/// The one thing the service reports about its stored files at startup.
///
/// Neither an unreadable rules file nor an unreadable history stops the
/// service, but it must not pretend the files were fine: the first problem,
/// the rules' before the history's, is kept as a stable key.
pub fn startup_load_detail(rules: &Result<bool, StoreError>, history: &Result<bool, StoreError>) -> (d: Option<String>)
    ensures
        match load_detail_spec(*rules, *history) {
            None => d is None,
            Some(text) => d matches Some(s) && s@ == text,
        },
{
    match rules {
        Ok(true) => return Some(String::from_str("awake.store.recovered_corrupt_rules")),
        Err(e) => return Some(e.key()),
        Ok(false) => {},
    }
    match history {
        Ok(true) => Some(String::from_str("awake.store.recovered_corrupt_history")),
        Err(e) => Some(e.key()),
        Ok(false) => None,
    }
}

} // verus!
