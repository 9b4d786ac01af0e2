//! Which applications are running, from `/proc/<pid>/comm` and
//! `/proc/<pid>/cgroup`.
//!
//! `/proc/<pid>/cmdline` is never read: a command line carries access tokens
//! and document names, and the safest way to keep it out of a history file is
//! to never have it. What can be matched is the kernel's own short name, and
//! the desktop identifier of an application a launcher started.

use vstd::prelude::*;

use crate::provider::{Answer, Cadence, PROCESS_POLL_SECONDS, ProviderKind};
use crate::roots::{ReadError, Roots, join_path, path_join};
use crate::text::{
    char_is_digit, chars_of, lemma_lex_irreflexive, lemma_lex_transitive, lex_lt, has_prefix, has_suffix, is_digit, lines, lines_of, skip_chars,
    slice_chars, sorted_unique, split_chars, split_on, starts_with, ends_with, strictly_sorted,
    string_of, strings_of, trim, trim_chars, views,
};

verus! {

/// More processes than this and the machine has bigger problems than a
/// keep-awake rule; the bound keeps a fork bomb from turning a poll into an
/// allocation storm.
pub const MAX_SCANNED_PROCESSES: usize = 8192;

/// `s.strip_prefix(p)`.
pub open spec fn strip_prefix(s: Seq<char>, p: Seq<char>) -> Option<Seq<char>> {
    if has_prefix(s, p) {
        Some(s.skip(p.len() as int))
    } else {
        None
    }
}

/// `s.strip_suffix(p)`.
pub open spec fn strip_suffix(s: Seq<char>, p: Seq<char>) -> Option<Seq<char>> {
    if has_suffix(s, p) {
        Some(s.take(s.len() - p.len()))
    } else {
        None
    }
}

/// `s.replace("\\x2d", "-")`: systemd's escape for a hyphen, undone.
pub open spec fn hyphen_escape() -> Seq<char> {
    seq!['\\', 'x', '2', 'd']
}

pub open spec fn unescape_hyphens(s: Seq<char>) -> Seq<char>
    decreases s.len(),
{
    if has_prefix(s, hyphen_escape()) {
        seq!['-'] + unescape_hyphens(s.skip(4))
    } else if s.len() == 0 {
        s
    } else {
        seq![s[0]] + unescape_hyphens(s.drop_first())
    }
}

/// The index of the last `c` in `s`.
pub open spec fn last_index_of(s: Seq<char>, c: char) -> Option<int>
    decreases s.len(),
{
    if s.len() == 0 {
        None
    } else if s.last() == c {
        Some(s.len() - 1)
    } else {
        last_index_of(s.drop_last(), c)
    }
}

/// The unit name without a trailing `-<pid>`, which is instance identity.
pub open spec fn drop_instance(unit: Seq<char>) -> Seq<char> {
    match last_index_of(unit, '-') {
        Some(i) => {
            let tail = unit.skip(i + 1);
            if tail.len() > 0 && (forall|j: int| 0 <= j < tail.len() ==> is_digit(#[trigger] tail[j])) {
                unit.take(i)
            } else {
                unit
            }
        },
        None => unit,
    }
}

/// The unit name without the launcher prefix, when one is there.
pub open spec fn drop_launcher(unit: Seq<char>) -> Seq<char> {
    if has_prefix(unit, "gnome-"@) {
        unit.skip("gnome-"@.len() as int)
    } else if has_prefix(unit, "flatpak-"@) {
        unit.skip("flatpak-"@.len() as int)
    } else if has_prefix(unit, "snap-"@) {
        unit.skip("snap-"@.len() as int)
    } else if has_prefix(unit, "kde-"@) {
        unit.skip("kde-"@.len() as int)
    } else {
        unit
    }
}

/// The desktop identifier one path segment names, if it is an application
/// scope.
pub open spec fn segment_id(segment: Seq<char>) -> Option<Seq<char>> {
    match strip_suffix(segment, ".scope"@) {
        None => None,
        Some(unit) => match strip_prefix(unit, "app-"@) {
            None => None,
            Some(unit) => {
                let id = drop_launcher(drop_instance(unescape_hyphens(unit)));
                if id.len() == 0 {
                    None
                } else {
                    Some(id)
                }
            },
        },
    }
}

pub open spec fn first_segment_id(segments: Seq<Seq<char>>) -> Option<Seq<char>>
    decreases segments.len(),
{
    if segments.len() == 0 {
        None
    } else {
        match segment_id(segments[0]) {
            Some(id) => Some(id),
            None => first_segment_id(segments.drop_first()),
        }
    }
}

/// The last colon-separated field: cgroup v1 and v2 both put the path there.
pub open spec fn cgroup_path(line: Seq<char>) -> Seq<char> {
    split_on(line, ':').last()
}

pub open spec fn first_line_id(ls: Seq<Seq<char>>) -> Option<Seq<char>>
    decreases ls.len(),
{
    if ls.len() == 0 {
        None
    } else {
        match first_segment_id(split_on(cgroup_path(ls[0]), '/')) {
            Some(id) => Some(id),
            None => first_line_id(ls.drop_first()),
        }
    }
}

proof fn lemma_unescape_plain(s: Seq<char>)
    requires
        forall|j: int| 0 <= j < s.len() ==> s[j] != '\\',
    ensures
        unescape_hyphens(s) == s,
    decreases s.len(),
{
    if s.len() > 0 {
        assert(!has_prefix(s, hyphen_escape())) by {
            if has_prefix(s, hyphen_escape()) {
                assert(s.take(4)[0] == s[0]);
            }
        }
        lemma_unescape_plain(s.drop_first());
        assert(s =~= seq![s[0]] + s.drop_first());
    }
}

proof fn lemma_last_hyphen(a: Seq<char>, b: Seq<char>)
    requires
        forall|j: int| 0 <= j < b.len() ==> b[j] != '-',
    ensures
        last_index_of(a + seq!['-'] + b, '-') == Some(a.len() as int),
    decreases b.len(),
{
    let s = a + seq!['-'] + b;
    if b.len() > 0 {
        assert(s.drop_last() =~= a + seq!['-'] + b.drop_last());
        lemma_last_hyphen(a, b.drop_last());
    }
}

/// The launcher prefix, and only it, comes off.
proof fn lemma_launcher_comes_off(launcher: Seq<char>, id: Seq<char>)
    requires
        launcher == Seq::<char>::empty() || launcher == "gnome-"@ || launcher == "flatpak-"@ || launcher
            == "snap-"@ || launcher == "kde-"@,
        id.len() > 0,
        !has_prefix(id, "gnome-"@),
        !has_prefix(id, "flatpak-"@),
        !has_prefix(id, "snap-"@),
        !has_prefix(id, "kde-"@),
    ensures
        drop_launcher(launcher + id) == id,
{
    reveal_strlit("gnome-");
    reveal_strlit("flatpak-");
    reveal_strlit("snap-");
    reveal_strlit("kde-");
    let head = launcher + id;
    if launcher.len() == 0 {
        assert(head =~= id);
    } else {
        assert(head.take(launcher.len() as int) =~= launcher);
        assert(head.skip(launcher.len() as int) =~= id);
        assert(head[0] == launcher[0]);
        if head.len() >= 6 {
            assert(head.take(6)[0] == head[0]);
        }
        if head.len() >= 8 {
            assert(head.take(8)[0] == head[0]);
        }
        if head.len() >= 5 {
            assert(head.take(5)[0] == head[0]);
        }
        if head.len() >= 4 {
            assert(head.take(4)[0] == head[0]);
        }
    }
}

/// A systemd application scope names its application: a path segment
/// `app-<launcher><id>-<pid>.scope`, with the launcher prefix one of
/// `gnome-`, `flatpak-`, `snap-` and `kde-` or absent and the process id all
/// digits, names exactly `<id>`, whatever hyphens `<id>` itself holds.
pub proof fn lemma_scope_names_its_application(launcher: Seq<char>, id: Seq<char>, pid: Seq<char>)
    requires
        launcher == Seq::<char>::empty() || launcher == "gnome-"@ || launcher == "flatpak-"@ || launcher
            == "snap-"@ || launcher == "kde-"@,
        id.len() > 0,
        forall|j: int| 0 <= j < id.len() ==> id[j] != '\\',
        !has_prefix(id, "gnome-"@),
        !has_prefix(id, "flatpak-"@),
        !has_prefix(id, "snap-"@),
        !has_prefix(id, "kde-"@),
        pid.len() > 0,
        forall|j: int| 0 <= j < pid.len() ==> is_digit(#[trigger] pid[j]),
    ensures
        segment_id("app-"@ + launcher + id + "-"@ + pid + ".scope"@) == Some(id),
{
    reveal_strlit("app-");
    reveal_strlit(".scope");
    reveal_strlit("-");
    reveal_strlit("gnome-");
    reveal_strlit("flatpak-");
    reveal_strlit("snap-");
    reveal_strlit("kde-");
    let unit = launcher + id + "-"@ + pid;
    let seg = "app-"@ + unit + ".scope"@;
    assert(seg =~= "app-"@ + launcher + id + "-"@ + pid + ".scope"@);
    assert(seg.skip(seg.len() - 6) =~= ".scope"@);
    assert(has_suffix(seg, ".scope"@));
    let inner = seg.take(seg.len() - 6);
    assert(inner =~= "app-"@ + unit);
    assert(inner.take(4) =~= "app-"@);
    assert(has_prefix(inner, "app-"@));
    assert(inner.skip(4) =~= unit);
    // No escapes anywhere in the unit.
    assert forall|j: int| 0 <= j < unit.len() implies unit[j] != '\\' by {
        if j < launcher.len() {
            assert(unit[j] == launcher[j]);
        } else if j < launcher.len() + id.len() {
            assert(unit[j] == id[j - launcher.len()]);
        } else if j == launcher.len() + id.len() {
            assert(unit[j] == '-');
        } else {
            assert(unit[j] == pid[j - launcher.len() - id.len() - 1]);
            assert(is_digit(pid[j - launcher.len() - id.len() - 1]));
        }
    }
    lemma_unescape_plain(unit);
    // The last hyphen is the one before the process id.
    let head = launcher + id;
    assert(unit =~= head + seq!['-'] + pid);
    assert forall|j: int| 0 <= j < pid.len() implies pid[j] != '-' by {
        assert(is_digit(pid[j]));
    }
    lemma_last_hyphen(head, pid);
    assert(unit.skip(head.len() as int + 1) =~= pid);
    assert(unit.take(head.len() as int) =~= head);
    assert(drop_instance(unit) == head);
    lemma_launcher_comes_off(launcher, id);
}

/// The desktop identifier a cgroup file names: the first application scope
/// found, line by line and segment by segment.
pub open spec fn desktop_id_spec(cgroup: Seq<char>) -> Option<Seq<char>> {
    first_line_id(lines(cgroup))
}

proof fn lemma_unescape_step(s: Seq<char>, i: int)
    requires
        0 <= i < s.len(),
    ensures
        has_prefix(s.skip(i), hyphen_escape()) ==> unescape_hyphens(s.skip(i)) == seq!['-']
            + unescape_hyphens(s.skip(i + 4)),
        !has_prefix(s.skip(i), hyphen_escape()) ==> unescape_hyphens(s.skip(i)) == seq![s[i]]
            + unescape_hyphens(s.skip(i + 1)),
{
    assert(s.skip(i).drop_first() =~= s.skip(i + 1));
    if has_prefix(s.skip(i), hyphen_escape()) {
        assert(s.skip(i).skip(4) =~= s.skip(i + 4));
    }
}

fn unescape_hyphens_exec(s: &Vec<char>) -> (out: Vec<char>)
    ensures
        out@ == unescape_hyphens(s@),
{
    let pattern = vec!['\\', 'x', '2', 'd'];
    assert(pattern@ =~= hyphen_escape());
    let mut out: Vec<char> = Vec::new();
    let mut i: usize = 0;
    assert(s@.skip(0) =~= s@);
    while i < s.len()
        invariant
            i <= s.len(),
            pattern@ == hyphen_escape(),
            out@ + unescape_hyphens(s@.skip(i as int)) == unescape_hyphens(s@),
        decreases s.len() - i,
    {
        proof {
            lemma_unescape_step(s@, i as int);
        }
        let rest = skip_chars(s, i);
        if starts_with(&rest, &pattern) {
            let ghost before = out@;
            out.push('-');
            assert(out@ + unescape_hyphens(s@.skip(i + 4)) =~= before + (seq!['-']
                + unescape_hyphens(s@.skip(i + 4))));
            i += 4;
        } else {
            let ghost before = out@;
            out.push(s[i]);
            assert(out@ + unescape_hyphens(s@.skip(i + 1)) =~= before + (seq![s@[i as int]]
                + unescape_hyphens(s@.skip(i + 1))));
            i += 1;
        }
    }
    assert(s@.skip(i as int) =~= Seq::<char>::empty());
    assert(unescape_hyphens(s@.skip(i as int)) == Seq::<char>::empty());
    assert(out@ =~= out@ + Seq::<char>::empty());
    out
}

proof fn lemma_last_index_of(s: Seq<char>, c: char)
    ensures
        last_index_of(s, c) matches Some(i) ==> 0 <= i < s.len(),
    decreases s.len(),
{
    if s.len() > 0 && s.last() != c {
        lemma_last_index_of(s.drop_last(), c);
    }
}

fn last_index_of_exec(s: &Vec<char>, c: char) -> (r: Option<usize>)
    ensures
        match last_index_of(s@, c) {
            None => r is None,
            Some(i) => r == Some(i as usize) && 0 <= i < s.len(),
        },
{
    let mut i: usize = s.len();
    assert(s@.take(i as int) =~= s@);
    proof {
        lemma_last_index_of(s@, c);
    }
    while i > 0
        invariant
            i <= s.len(),
            last_index_of(s@.take(i as int), c) == last_index_of(s@, c),
        decreases i,
    {
        assert(s@.take(i as int).last() == s@[i - 1]);
        assert(s@.take(i as int).drop_last() =~= s@.take(i - 1));
        if s[i - 1] == c {
            return Some(i - 1);
        }
        i -= 1;
    }
    None
}

fn drop_instance_exec(unit: Vec<char>) -> (out: Vec<char>)
    ensures
        out@ == drop_instance(unit@),
{
    match last_index_of_exec(&unit, '-') {
        None => unit,
        Some(i) => {
            assert(last_index_of(unit@, '-') == Some(i as int));
            let tail = skip_chars(&unit, i + 1);
            if tail.len() == 0 {
                return unit;
            }
            let mut k: usize = 0;
            while k < tail.len()
                invariant
                    k <= tail.len(),
                    i < unit.len(),
                    tail@ == unit@.skip(i + 1),
                    last_index_of(unit@, '-') == Some(i as int),
                    forall|j: int| 0 <= j < k ==> is_digit(#[trigger] tail@[j]),
                decreases tail.len() - k,
            {
                if !char_is_digit(tail[k]) {
                    assert(!is_digit(tail@[k as int]));
                    return unit;
                }
                k += 1;
            }
            slice_chars(&unit, 0, i)
        },
    }
}

fn drop_launcher_exec(unit: Vec<char>) -> (out: Vec<char>)
    ensures
        out@ == drop_launcher(unit@),
{
    let gnome = chars_of("gnome-");
    let flatpak = chars_of("flatpak-");
    let snap = chars_of("snap-");
    let kde = chars_of("kde-");
    if starts_with(&unit, &gnome) {
        skip_chars(&unit, gnome.len())
    } else if starts_with(&unit, &flatpak) {
        skip_chars(&unit, flatpak.len())
    } else if starts_with(&unit, &snap) {
        skip_chars(&unit, snap.len())
    } else if starts_with(&unit, &kde) {
        skip_chars(&unit, kde.len())
    } else {
        unit
    }
}

fn segment_id_exec(segment: &Vec<char>) -> (r: Option<Vec<char>>)
    ensures
        match segment_id(segment@) {
            None => r is None,
            Some(id) => r matches Some(v) && v@ == id,
        },
{
    let scope = chars_of(".scope");
    if !ends_with(segment, &scope) {
        return None;
    }
    let unit = slice_chars(segment, 0, segment.len() - scope.len());
    let app = chars_of("app-");
    if !starts_with(&unit, &app) {
        return None;
    }
    let unit = skip_chars(&unit, app.len());
    let id = drop_launcher_exec(drop_instance_exec(unescape_hyphens_exec(&unit)));
    if id.len() == 0 {
        None
    } else {
        Some(id)
    }
}

fn first_segment_id_exec(segments: &Vec<Vec<char>>) -> (r: Option<Vec<char>>)
    ensures
        match first_segment_id(views(segments@)) {
            None => r is None,
            Some(id) => r matches Some(v) && v@ == id,
        },
{
    let mut i: usize = 0;
    assert(views(segments@).skip(0) =~= views(segments@));
    while i < segments.len()
        invariant
            i <= segments.len(),
            first_segment_id(views(segments@).skip(i as int)) == first_segment_id(views(segments@)),
        decreases segments.len() - i,
    {
        let ghost rest = views(segments@).skip(i as int);
        assert(rest[0] == segments@[i as int]@);
        assert(rest.drop_first() =~= views(segments@).skip(i + 1));
        match segment_id_exec(&segments[i]) {
            Some(id) => return Some(id),
            None => {},
        }
        i += 1;
    }
    None
}

/// Extracts a desktop identifier from a systemd cgroup file.
///
/// Recognizes the `app-<launcher>-<id>-<pid>.scope` and `app-<id>-<pid>.scope`
/// forms that GNOME, KDE, Flatpak and snap produce, with systemd's `\x2d`
/// escape turned back into a hyphen. Anything else yields nothing, which is the
/// right answer for a system service or a shell job.
pub fn desktop_id_from_cgroup(cgroup: &str) -> (r: Option<String>)
    ensures
        match desktop_id_spec(cgroup@) {
            None => r is None,
            Some(id) => r matches Some(s) && s@ == id,
        },
{
    let chars = chars_of(cgroup);
    let ls = lines_of(&chars);
    let mut i: usize = 0;
    assert(views(ls@).skip(0) =~= views(ls@));
    while i < ls.len()
        invariant
            i <= ls.len(),
            first_line_id(views(ls@).skip(i as int)) == first_line_id(views(ls@)),
            views(ls@) == lines(cgroup@),
        decreases ls.len() - i,
    {
        let ghost rest = views(ls@).skip(i as int);
        assert(rest[0] == ls@[i as int]@);
        assert(rest.drop_first() =~= views(ls@).skip(i + 1));
        let fields = split_chars(&ls[i], ':');
        let path = &fields[fields.len() - 1];
        assert(path@ == cgroup_path(ls@[i as int]@));
        let segments = split_chars(path, '/');
        match first_segment_id_exec(&segments) {
            Some(id) => return Some(string_of(&id)),
            None => {},
        }
        i += 1;
    }
    None
}

/// One entry of `/proc`, as read at the edge.
#[derive(Debug, PartialEq, Eq)]
pub struct ProcessEntry {
    /// The entry's file name, or `None` when it is not valid text.
    pub name: Option<String>,
    /// The raw contents of its `comm`, when it could be read.
    pub comm: Option<String>,
    /// The contents of its `cgroup`, when it could be read.
    pub cgroup: Option<String>,
}

/// The two lists one scan produces.
#[derive(Clone, Debug, Default, PartialEq, Eq)]
pub struct ProcessScan {
    /// Distinct `comm` values, sorted.
    pub executable_names: Vec<String>,
    /// Distinct desktop identifiers, sorted.
    pub desktop_ids: Vec<String>,
    /// Whether any cgroup file could be read. When none could, desktop
    /// identifiers are unavailable rather than empty.
    pub cgroups_readable: bool,
}

/// Only the numeric entries under `/proc` are processes.
pub open spec fn is_process_entry(e: ProcessEntry) -> bool {
    e.name is Some && forall|j: int|
        0 <= j < e.name->0@.len() ==> is_digit(#[trigger] e.name->0@[j])
}

pub open spec fn scanned_names(es: Seq<ProcessEntry>) -> Seq<Seq<char>>
    decreases es.len(),
{
    if es.len() == 0 {
        seq![]
    } else {
        let before = scanned_names(es.drop_last());
        let e = es.last();
        if is_process_entry(e) && e.comm is Some && trim(e.comm->0@).len() > 0 {
            before.push(trim(e.comm->0@))
        } else {
            before
        }
    }
}

pub open spec fn scanned_ids(es: Seq<ProcessEntry>) -> Seq<Seq<char>>
    decreases es.len(),
{
    if es.len() == 0 {
        seq![]
    } else {
        let before = scanned_ids(es.drop_last());
        let e = es.last();
        if is_process_entry(e) && e.cgroup is Some && desktop_id_spec(e.cgroup->0@) is Some {
            before.push(desktop_id_spec(e.cgroup->0@)->0)
        } else {
            before
        }
    }
}

pub open spec fn any_cgroup_read(es: Seq<ProcessEntry>) -> bool {
    exists|i: int| 0 <= i < es.len() && is_process_entry(#[trigger] es[i]) && es[i].cgroup is Some
}

/// At most the first [`MAX_SCANNED_PROCESSES`] entries are looked at.
pub open spec fn scanned_part(es: Seq<ProcessEntry>) -> Seq<ProcessEntry> {
    if es.len() <= MAX_SCANNED_PROCESSES {
        es
    } else {
        es.take(MAX_SCANNED_PROCESSES as int)
    }
}

/// `scan` is what one scan of `es` produces: the distinct `comm` values and
/// the distinct desktop identifiers of the scanned processes, each sorted,
/// and whether any cgroup file could be read.
pub open spec fn scan_of(es: Seq<ProcessEntry>, scan: ProcessScan) -> bool {
    let part = scanned_part(es);
    &&& strictly_sorted(scan.executable_names@.map_values(|s: String| s@))
    &&& scan.executable_names@.map_values(|s: String| s@).to_set() == scanned_names(part).to_set()
    &&& strictly_sorted(scan.desktop_ids@.map_values(|s: String| s@))
    &&& scan.desktop_ids@.map_values(|s: String| s@).to_set() == scanned_ids(part).to_set()
    &&& scan.cgroups_readable == any_cgroup_read(part)
}

pub open spec fn text_view(o: Option<String>) -> Option<Seq<char>> {
    match o {
        Some(t) => Some(t@),
        None => None,
    }
}

/// Two strictly sorted lists holding the same strings are the same list.
pub proof fn lemma_sorted_lists_agree(a: Seq<Seq<char>>, b: Seq<Seq<char>>)
    requires
        strictly_sorted(a),
        strictly_sorted(b),
        a.to_set() == b.to_set(),
    ensures
        a == b,
    decreases a.len(),
{
    if a.len() == 0 {
        if b.len() > 0 {
            assert(b.to_set().contains(b[0]));
        }
        assert(a =~= b);
    } else if b.len() == 0 {
        assert(a.to_set().contains(a[0]));
    } else {
        assert(a.to_set().contains(a[0]));
        assert(b.to_set().contains(b[0]));
        let j = choose|j: int| 0 <= j < b.len() && b[j] == a[0];
        let i = choose|i: int| 0 <= i < a.len() && a[i] == b[0];
        if a[0] != b[0] {
            assert(i > 0 && j > 0);
            assert(lex_lt(a[0], a[i]));
            assert(lex_lt(b[0], b[j]));
            lemma_lex_transitive(a[0], b[0], a[0]);
            lemma_lex_irreflexive(a[0]);
        }
        let (ra, rb) = (a.drop_first(), b.drop_first());
        assert forall|x: Seq<char>| ra.to_set().contains(x) <==> rb.to_set().contains(x) by {
            if ra.to_set().contains(x) {
                let p = choose|p: int| 0 <= p < ra.len() && ra[p] == x;
                assert(a[p + 1] == x);
                assert(lex_lt(a[0], x));
                assert(b.to_set().contains(x));
                let q = choose|q: int| 0 <= q < b.len() && b[q] == x;
                if q == 0 {
                    lemma_lex_irreflexive(x);
                }
                assert(rb[q - 1] == x);
            }
            if rb.to_set().contains(x) {
                let p = choose|p: int| 0 <= p < rb.len() && rb[p] == x;
                assert(b[p + 1] == x);
                assert(lex_lt(b[0], x));
                assert(a.to_set().contains(x));
                let q = choose|q: int| 0 <= q < a.len() && a[q] == x;
                if q == 0 {
                    lemma_lex_irreflexive(x);
                }
                assert(ra[q - 1] == x);
            }
        }
        assert(ra.to_set() =~= rb.to_set());
        lemma_sorted_lists_agree(ra, rb);
        assert(a =~= seq![a[0]] + ra);
        assert(b =~= seq![b[0]] + rb);
    }
}

// ---------------------------------------------------------------------------
// What a scan reads, and nothing more
// ---------------------------------------------------------------------------

/// Whether a `/proc` entry name is a process: a name that is all digits.
pub open spec fn names_a_process(name: Option<Seq<char>>) -> bool {
    name is Some && forall|j: int| 0 <= j < name->0.len() ==> is_digit(#[trigger] name->0[j])
}

/// The `comm` file of the entry `name` under `proc`.
pub open spec fn comm_file(proc: Seq<char>, name: Seq<char>) -> Seq<char> {
    path_join(path_join(proc, name), "comm"@)
}

/// The `cgroup` file of the entry `name` under `proc`.
pub open spec fn cgroup_file(proc: Seq<char>, name: Seq<char>) -> Seq<char> {
    path_join(path_join(proc, name), "cgroup"@)
}

/// The contents of `path` in a file tree, when it can be read.
pub open spec fn tree_get(tree: Map<Seq<char>, Seq<char>>, path: Seq<char>) -> Option<Seq<char>> {
    if tree.dom().contains(path) {
        Some(tree[path])
    } else {
        None
    }
}

/// `e` is the entry named `name` as read from `tree` under `proc`: for a
/// process, the contents of its `comm` and `cgroup` files, when they could be
/// read; for anything else, nothing.
pub open spec fn read_from(tree: Map<Seq<char>, Seq<char>>, proc: Seq<char>, name: Option<Seq<char>>, e: ProcessEntry) -> bool {
    &&& text_view(e.name) == name
    &&& if names_a_process(name) {
        &&& text_view(e.comm) == tree_get(tree, comm_file(proc, name->0))
        &&& text_view(e.cgroup) == tree_get(tree, cgroup_file(proc, name->0))
    } else {
        e.comm is None && e.cgroup is None
    }
}

/// `es` is the listing `names` of `proc`, entry by entry, as read from `tree`.
pub open spec fn listing_read(tree: Map<Seq<char>, Seq<char>>, proc: Seq<char>, names: Seq<Option<Seq<char>>>, es: Seq<ProcessEntry>) -> bool {
    &&& es.len() == names.len()
    &&& forall|i: int| 0 <= i < es.len() ==> read_from(tree, proc, names[i], #[trigger] es[i])
}

/// The names looked at: at most the first [`MAX_SCANNED_PROCESSES`].
pub open spec fn names_part(names: Seq<Option<Seq<char>>>) -> Seq<Option<Seq<char>>> {
    if names.len() <= MAX_SCANNED_PROCESSES {
        names
    } else {
        names.take(MAX_SCANNED_PROCESSES as int)
    }
}

/// The process names among `names`, in order.
pub open spec fn process_names(names: Seq<Option<Seq<char>>>) -> Seq<Seq<char>>
    decreases names.len(),
{
    if names.len() == 0 {
        seq![]
    } else {
        let before = process_names(names.drop_last());
        if names_a_process(names.last()) {
            before.push(names.last()->0)
        } else {
            before
        }
    }
}

/// What was read of each process among `es`: its `comm` and its `cgroup`.
pub open spec fn process_reads(es: Seq<ProcessEntry>) -> Seq<(Option<Seq<char>>, Option<Seq<char>>)>
    decreases es.len(),
{
    if es.len() == 0 {
        seq![]
    } else {
        let before = process_reads(es.drop_last());
        let e = es.last();
        if is_process_entry(e) {
            before.push((text_view(e.comm), text_view(e.cgroup)))
        } else {
            before
        }
    }
}

/// The `comm` and `cgroup` of each of `names` in `tree`.
pub open spec fn tree_reads(tree: Map<Seq<char>, Seq<char>>, proc: Seq<char>, names: Seq<Seq<char>>) -> Seq<(Option<Seq<char>>, Option<Seq<char>>)> {
    names.map_values(|n: Seq<char>| (tree_get(tree, comm_file(proc, n)), tree_get(tree, cgroup_file(proc, n))))
}

pub open spec fn names_of_reads(rs: Seq<(Option<Seq<char>>, Option<Seq<char>>)>) -> Seq<Seq<char>>
    decreases rs.len(),
{
    if rs.len() == 0 {
        seq![]
    } else {
        let before = names_of_reads(rs.drop_last());
        let r = rs.last();
        if r.0 is Some && trim(r.0->0).len() > 0 {
            before.push(trim(r.0->0))
        } else {
            before
        }
    }
}

pub open spec fn ids_of_reads(rs: Seq<(Option<Seq<char>>, Option<Seq<char>>)>) -> Seq<Seq<char>>
    decreases rs.len(),
{
    if rs.len() == 0 {
        seq![]
    } else {
        let before = ids_of_reads(rs.drop_last());
        let r = rs.last();
        if r.1 is Some && desktop_id_spec(r.1->0) is Some {
            before.push(desktop_id_spec(r.1->0)->0)
        } else {
            before
        }
    }
}

pub open spec fn any_cgroup_of_reads(rs: Seq<(Option<Seq<char>>, Option<Seq<char>>)>) -> bool {
    exists|i: int| 0 <= i < rs.len() && (#[trigger] rs[i]).1 is Some
}

proof fn lemma_scan_from_reads(es: Seq<ProcessEntry>)
    ensures
        scanned_names(es) == names_of_reads(process_reads(es)),
        scanned_ids(es) == ids_of_reads(process_reads(es)),
        any_cgroup_read(es) == any_cgroup_of_reads(process_reads(es)),
    decreases es.len(),
{
    if es.len() > 0 {
        let t = es.drop_last();
        let e = es.last();
        lemma_scan_from_reads(t);
        let rt = process_reads(t);
        let rs = process_reads(es);
        if is_process_entry(e) {
            assert(rs.drop_last() == rt);
            assert(rs.last() == (text_view(e.comm), text_view(e.cgroup)));
        } else {
            assert(rs == rt);
        }
        if any_cgroup_read(es) {
            let k = choose|k: int| 0 <= k < es.len() && is_process_entry(#[trigger] es[k]) && es[k].cgroup is Some;
            if k < t.len() {
                assert(t[k] == es[k]);
                assert(any_cgroup_read(t));
                let q = choose|q: int| 0 <= q < rt.len() && (#[trigger] rt[q]).1 is Some;
                if is_process_entry(e) {
                    assert(rs[q] == rt[q]);
                }
            } else {
                assert(rs[rs.len() - 1].1 is Some);
            }
        }
        if any_cgroup_of_reads(rs) {
            let q = choose|q: int| 0 <= q < rs.len() && (#[trigger] rs[q]).1 is Some;
            if is_process_entry(e) && q == rs.len() - 1 {
                assert(is_process_entry(es[es.len() - 1]));
            } else {
                assert(rt[q] == rs[q]);
                assert(any_cgroup_of_reads(rt));
                let k = choose|k: int| 0 <= k < t.len() && is_process_entry(#[trigger] t[k]) && t[k].cgroup is Some;
                assert(es[k] == t[k]);
            }
        }
    }
}

proof fn lemma_reads_of_listing(tree: Map<Seq<char>, Seq<char>>, proc: Seq<char>, names: Seq<Option<Seq<char>>>, es: Seq<ProcessEntry>)
    requires
        listing_read(tree, proc, names, es),
    ensures
        process_reads(es) == tree_reads(tree, proc, process_names(names)),
    decreases es.len(),
{
    if es.len() > 0 {
        let (t, nt) = (es.drop_last(), names.drop_last());
        assert forall|i: int| 0 <= i < t.len() implies read_from(tree, proc, nt[i], #[trigger] t[i]) by {
            assert(t[i] == es[i] && nt[i] == names[i]);
        }
        lemma_reads_of_listing(tree, proc, nt, t);
        let e = es.last();
        assert(read_from(tree, proc, names[names.len() - 1], es[es.len() - 1]));
        if names_a_process(names.last()) {
            assert(is_process_entry(e)) by {
                assert(e.name->0@ == names.last()->0);
            }
            assert(tree_reads(tree, proc, process_names(names)) =~= tree_reads(tree, proc, process_names(nt)).push(
                (tree_get(tree, comm_file(proc, names.last()->0)), tree_get(tree, cgroup_file(proc, names.last()->0))),
            ));
        } else {
            assert(!is_process_entry(e)) by {
                if e.name is Some {
                    assert(e.name->0@ == names.last()->0);
                }
            }
        }
    }
}

/// A scan reads nothing of `/proc` but each process's `comm` and `cgroup`.
///
/// Two trees whose listings put the same processes in the scanned part, and
/// that agree on those processes' `comm` and `cgroup` files, give the same
/// scan, however else they differ: a command line, `/proc/self/comm`, or any
/// other file can change nothing the scan reports, so nothing it reports can
/// carry a secret from a command line.
pub proof fn lemma_scan_reads_only_comm_and_cgroup(
    tree_a: Map<Seq<char>, Seq<char>>,
    tree_b: Map<Seq<char>, Seq<char>>,
    proc: Seq<char>,
    names_a: Seq<Option<Seq<char>>>,
    names_b: Seq<Option<Seq<char>>>,
    a: Seq<ProcessEntry>,
    b: Seq<ProcessEntry>,
    scan_a: ProcessScan,
    scan_b: ProcessScan,
)
    requires
        listing_read(tree_a, proc, names_a, a),
        listing_read(tree_b, proc, names_b, b),
        process_names(names_part(names_a)) == process_names(names_part(names_b)),
        forall|i: int|
            0 <= i < process_names(names_part(names_a)).len() ==> {
                let n = #[trigger] process_names(names_part(names_a))[i];
                &&& tree_get(tree_a, comm_file(proc, n)) == tree_get(tree_b, comm_file(proc, n))
                &&& tree_get(tree_a, cgroup_file(proc, n)) == tree_get(tree_b, cgroup_file(proc, n))
            },
        scan_of(a, scan_a),
        scan_of(b, scan_b),
    ensures
        scan_a.executable_names@.map_values(|s: String| s@) == scan_b.executable_names@.map_values(
            |s: String| s@,
        ),
        scan_a.desktop_ids@.map_values(|s: String| s@) == scan_b.desktop_ids@.map_values(
            |s: String| s@,
        ),
        scan_a.cgroups_readable == scan_b.cgroups_readable,
{
    let (pa, pb) = (scanned_part(a), scanned_part(b));
    let (na, nb) = (names_part(names_a), names_part(names_b));
    assert forall|i: int| 0 <= i < pa.len() implies read_from(tree_a, proc, na[i], #[trigger] pa[i]) by {
        assert(pa[i] == a[i] && na[i] == names_a[i]);
    }
    assert forall|i: int| 0 <= i < pb.len() implies read_from(tree_b, proc, nb[i], #[trigger] pb[i]) by {
        assert(pb[i] == b[i] && nb[i] == names_b[i]);
    }
    lemma_reads_of_listing(tree_a, proc, na, pa);
    lemma_reads_of_listing(tree_b, proc, nb, pb);
    let ps = process_names(na);
    assert(tree_reads(tree_a, proc, ps) =~= tree_reads(tree_b, proc, ps)) by {
        assert forall|i: int| 0 <= i < ps.len() implies tree_reads(tree_a, proc, ps)[i] == tree_reads(tree_b, proc, ps)[i] by {
            let n = ps[i];
            assert(tree_get(tree_a, comm_file(proc, n)) == tree_get(tree_b, comm_file(proc, n)));
        }
    }
    lemma_scan_from_reads(pa);
    lemma_scan_from_reads(pb);
    lemma_sorted_lists_agree(
        scan_a.executable_names@.map_values(|s: String| s@),
        scan_b.executable_names@.map_values(|s: String| s@),
    );
    lemma_sorted_lists_agree(
        scan_a.desktop_ids@.map_values(|s: String| s@),
        scan_b.desktop_ids@.map_values(|s: String| s@),
    );
}

/// The two files a process is read from.
#[derive(Clone, Debug, PartialEq, Eq)]
pub struct EntryFiles {
    pub comm: String,
    pub cgroup: String,
}

fn is_process_name(name: &Option<String>) -> (b: bool)
    ensures
        b == (name is Some && forall|j: int|
            0 <= j < name->0@.len() ==> is_digit(#[trigger] name->0@[j])),
{
    match name {
        None => false,
        Some(n) => {
            let chars = chars_of(n.as_str());
            let mut k: usize = 0;
            while k < chars.len()
                invariant
                    k <= chars.len(),
                    chars@ == n@,
                    name is Some,
                    name->0@ == n@,
                    forall|j: int| 0 <= j < k ==> is_digit(#[trigger] chars@[j]),
                decreases chars.len() - k,
            {
                if !char_is_digit(chars[k]) {
                    assert(!is_digit(name->0@[k as int]));
                    return false;
                }
                k += 1;
            }
            true
        },
    }
}

/// Scans `/proc`.
#[derive(Clone, Debug)]
pub struct ProcessProvider {
    roots: Roots,
}

impl ProcessProvider {
    pub closed spec fn roots_view(&self) -> Roots {
        self.roots
    }

    pub fn new(roots: Roots) -> (p: Self)
        ensures
            p.roots_view() == roots,
    {
        ProcessProvider { roots }
    }

    /// The directory to list.
    pub fn proc_dir(&self) -> (p: &String)
        ensures
            p@ == self.roots_view().proc_view(),
    {
        self.roots.proc_dir()
    }

    /// The files read for the `/proc` entry `name`: its `comm` and its
    /// `cgroup` when it is a process, and nothing otherwise. Nothing else of
    /// a process, its command line least of all, is ever named here.
    pub fn entry_files(&self, name: &Option<String>) -> (files: Option<EntryFiles>)
        ensures
            files is Some <==> names_a_process(text_view(*name)),
            files matches Some(f) ==> {
                &&& f.comm@ == comm_file(self.roots_view().proc_view(), name->0@)
                &&& f.cgroup@ == cgroup_file(self.roots_view().proc_view(), name->0@)
            },
    {
        let process = is_process_name(name);
        proof {
            if name is Some {
                assert(text_view(*name)->0 == name->0@);
            }
        }
        if !process {
            return None;
        }
        match name {
            None => None,
            Some(n) => {
                let entry = join_path(self.roots.proc_dir().as_str(), n.as_str());
                Some(
                    EntryFiles {
                        comm: join_path(entry.as_str(), "comm"),
                        cgroup: join_path(entry.as_str(), "cgroup"),
                    },
                )
            },
        }
    }

    pub fn kind(&self) -> (k: ProviderKind)
        ensures
            k == ProviderKind::ProcessRunning,
    {
        ProviderKind::ProcessRunning
    }

    pub fn cadence(&self) -> (c: Cadence)
        ensures
            c == (Cadence::Poll { seconds: PROCESS_POLL_SECONDS }),
    {
        Cadence::Poll { seconds: PROCESS_POLL_SECONDS }
    }

    /// One scan of `/proc`, from its sorted listing.
    ///
    /// Only numeric entries are processes. A process that exited between the
    /// listing and the read simply contributes nothing.
    pub fn scan(listing: Result<Vec<ProcessEntry>, ReadError>) -> (r: Result<ProcessScan, ReadError>)
        ensures
            match listing {
                Err(e) => r == Err::<ProcessScan, ReadError>(e),
                Ok(es) => r matches Ok(scan) && scan_of(es@, scan),
            },
    {
        let entries = match listing {
            Err(e) => return Err(e),
            Ok(es) => es,
        };
        let count = if entries.len() <= MAX_SCANNED_PROCESSES {
            entries.len()
        } else {
            MAX_SCANNED_PROCESSES
        };
        let ghost part = scanned_part(entries@);
        assert(part =~= entries@.take(count as int));
        let mut names: Vec<Vec<char>> = Vec::new();
        let mut ids: Vec<Vec<char>> = Vec::new();
        let mut readable = false;
        let mut i: usize = 0;
        while i < count
            invariant
                i <= count <= entries.len(),
                part == entries@.take(count as int),
                views(names@) == scanned_names(part.take(i as int)),
                views(ids@) == scanned_ids(part.take(i as int)),
                readable == any_cgroup_read(part.take(i as int)),
            decreases count - i,
        {
            let ghost prefix = part.take(i as int);
            let ghost next = part.take(i + 1);
            assert(next.drop_last() =~= prefix);
            assert(next.last() == entries@[i as int]);
            let entry = &entries[i];
            if is_process_name(&entry.name) {
                match &entry.comm {
                    Some(raw) => {
                        let comm = trim_chars(&chars_of(raw.as_str()));
                        if comm.len() > 0 {
                            let ghost before = names@;
                            names.push(comm);
                            proof {
                                crate::text::lemma_views_push(before, comm);
                            }
                        }
                    },
                    None => {},
                }
                match &entry.cgroup {
                    Some(text) => {
                        readable = true;
                        match desktop_id_from_cgroup(text.as_str()) {
                            Some(id) => {
                                let ghost before = ids@;
                                let v = chars_of(id.as_str());
                                ids.push(v);
                                proof {
                                    crate::text::lemma_views_push(before, v);
                                }
                            },
                            None => {},
                        }
                    },
                    None => {},
                }
            }
            proof {
                if readable {
                    if !any_cgroup_read(prefix) {
                        assert(is_process_entry(next[i as int]) && next[i as int].cgroup is Some);
                    } else {
                        let k = choose|k: int| 0 <= k < prefix.len() && is_process_entry(
                            #[trigger] prefix[k],
                        ) && prefix[k].cgroup is Some;
                        assert(next[k] == prefix[k]);
                    }
                } else {
                    assert forall|k: int| 0 <= k < next.len() && is_process_entry(
                        #[trigger] next[k],
                    ) implies next[k].cgroup is None by {
                        if k < i {
                            assert(next[k] == prefix[k]);
                        }
                    }
                }
            }
            i += 1;
        }
        assert(part.take(count as int) =~= part);
        let names = sorted_unique(names);
        let ids = sorted_unique(ids);
        let executable_names = strings_of(&names);
        let desktop_ids = strings_of(&ids);
        assert(executable_names@.map_values(|s: String| s@) =~= views(names@));
        assert(desktop_ids@.map_values(|s: String| s@) =~= views(ids@));
        Ok(ProcessScan { executable_names, desktop_ids, cgroups_readable: readable })
    }

    /// What a scan answers: the running names, and the desktop identifiers or
    /// `None` when no cgroup file could be read at all.
    ///
    /// A readable cgroup file with no application scope in it is an empty list;
    /// an unreadable one means the question cannot be answered.
    pub fn answer(scan: Result<ProcessScan, ReadError>) -> (a: Answer<(Vec<String>, Option<Vec<String>>)>)
        ensures
            match scan {
                Err(e) => a matches Answer::Unavailable { explanation } && explanation@
                    == e.explanation_view(),
                Ok(s) => a == Answer::Known(
                    (
                        s.executable_names,
                        if s.cgroups_readable {
                            Some(s.desktop_ids)
                        } else {
                            None
                        },
                    ),
                ),
            },
    {
        match scan {
            Err(error) => Answer::Unavailable { explanation: error.explanation() },
            Ok(scan) => {
                let ids = if scan.cgroups_readable {
                    Some(scan.desktop_ids)
                } else {
                    None
                };
                Answer::Known((scan.executable_names, ids))
            },
        }
    }
}

} // verus!
