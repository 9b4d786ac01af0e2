//! Network throughput and interface state, from `/proc/net/dev` and
//! `/sys/class/net`.
//!
//! Throughput is a rate between two samples, so the first call after startup
//! reports nothing rather than a zero. Loopback never counts: two local
//! processes talking to each other are not a download.

use vstd::prelude::*;

use crate::entries::{keys_of, represents, upsert};
use crate::provider::{Answer, Cadence, NETWORK_POLL_SECONDS, ProviderKind, unavailable};
use crate::roots::{ReadError, Roots, path_join};
use crate::text::{
    chars_eq, chars_of, lines, lines_of, parse_u64, parse_u64_chars, skip_chars, slice_chars,
    sorted, sorted_le, string_of, strictly_sorted, trim, trim_chars, views, words, words_of,
};

verus! {

/// Bytes seen on one interface since boot.
#[derive(Clone, Copy, Debug, Default, PartialEq, Eq, Structural)]
pub struct InterfaceBytes {
    pub received: u64,
    pub transmitted: u64,
}

pub open spec fn sat_add(a: int, b: int) -> int {
    if a + b > u64::MAX {
        u64::MAX as int
    } else {
        a + b
    }
}

impl InterfaceBytes {
    /// Received plus transmitted, saturating rather than wrapping.
    pub fn total(&self) -> (t: u64)
        ensures
            t == sat_add(self.received as int, self.transmitted as int),
    {
        self.received.saturating_add(self.transmitted)
    }
}

/// `s.split_once(c)`: the text before the first `c` and the text after it.
pub open spec fn split_once(s: Seq<char>, c: char) -> Option<(Seq<char>, Seq<char>)>
    decreases s.len(),
{
    if s.len() == 0 {
        None
    } else if s[0] == c {
        Some((seq![], s.drop_first()))
    } else {
        match split_once(s.drop_first(), c) {
            Some((before, after)) => Some((seq![s[0]] + before, after)),
            None => None,
        }
    }
}

proof fn lemma_split_once_at(s: Seq<char>, c: char, i: int)
    requires
        0 <= i <= s.len(),
        forall|j: int| 0 <= j < i ==> s[j] != c,
    ensures
        i < s.len() && s[i] == c ==> split_once(s, c) == Some((s.take(i), s.skip(i + 1))),
        i == s.len() ==> split_once(s, c) is None,
    decreases i,
{
    if i > 0 {
        lemma_split_once_at(s.drop_first(), c, i - 1);
        assert(seq![s[0]] + s.drop_first().take(i - 1) =~= s.take(i));
        if i < s.len() {
            assert(s.drop_first().skip(i) =~= s.skip(i + 1));
        }
    } else {
        assert(s.take(0) =~= Seq::<char>::empty());
        if s.len() > 0 {
            assert(s.drop_first() =~= s.skip(1));
        }
    }
}

/// Finds the first `c` and splits around it.
pub fn split_once_chars(s: &Vec<char>, c: char) -> (r: Option<(Vec<char>, Vec<char>)>)
    ensures
        match split_once(s@, c) {
            None => r is None,
            Some((before, after)) => r matches Some((b, a)) && b@ == before && a@ == after,
        },
{
    let mut i: usize = 0;
    while i < s.len()
        invariant
            i <= s.len(),
            forall|j: int| 0 <= j < i ==> s@[j] != c,
        decreases s.len() - i,
    {
        if s[i] == c {
            proof {
                lemma_split_once_at(s@, c, i as int);
            }
            return Some((slice_chars(s, 0, i), skip_chars(s, i + 1)));
        }
        i += 1;
    }
    proof {
        lemma_split_once_at(s@, c, i as int);
    }
    None
}

/// What one line of `/proc/net/dev` contributes: the interface name and its
/// byte counters, or nothing when the line is not one this parser reads.
pub open spec fn net_dev_entry(line: Seq<char>) -> Option<(Seq<char>, InterfaceBytes)> {
    match split_once(line, ':') {
        None => None,
        Some((name, counters)) => {
            let f = words(counters);
            if f.len() < 9 {
                None
            } else {
                match (parse_u64(f[0]), parse_u64(f[8])) {
                    (Some(r), Some(t)) => Some(
                        (trim(name), InterfaceBytes { received: r, transmitted: t }),
                    ),
                    _ => None,
                }
            }
        },
    }
}

/// Every line's entry, a later line for the same name replacing an earlier.
pub open spec fn net_dev_map(ls: Seq<Seq<char>>) -> Map<Seq<char>, InterfaceBytes>
    decreases ls.len(),
{
    if ls.len() == 0 {
        Map::empty()
    } else {
        let before = net_dev_map(ls.drop_last());
        match net_dev_entry(ls.last()) {
            Some((name, bytes)) => before.insert(name, bytes),
            None => before,
        }
    }
}

/// The lines after the two header lines.
pub open spec fn after_header(ls: Seq<Seq<char>>) -> Seq<Seq<char>> {
    if ls.len() <= 2 {
        seq![]
    } else {
        ls.skip(2)
    }
}

/// The interfaces `/proc/net/dev` describes.
pub open spec fn net_dev_spec(text: Seq<char>) -> Map<Seq<char>, InterfaceBytes> {
    net_dev_map(after_header(lines(text)))
}

/// `s` lists every interface of `m` once, by name, in name order.
pub open spec fn lists_interfaces(s: Seq<(String, InterfaceBytes)>, m: Map<Seq<char>, InterfaceBytes>) -> bool {
    &&& strictly_sorted(s.map_values(|e: (String, InterfaceBytes)| e.0@))
    &&& forall|i: int|
        0 <= i < s.len() ==> m.dom().contains(#[trigger] s[i].0@) && m[s[i].0@] == s[i].1
    &&& forall|k: Seq<char>|
        #[trigger] m.dom().contains(k) ==> s.map_values(|e: (String, InterfaceBytes)| e.0@).contains(k)
}

fn net_dev_entry_exec(line: &Vec<char>) -> (r: Option<(Vec<char>, InterfaceBytes)>)
    ensures
        match net_dev_entry(line@) {
            None => r is None,
            Some((name, bytes)) => r matches Some((n, b)) && n@ == name && b == bytes,
        },
{
    let (name, counters) = match split_once_chars(line, ':') {
        None => return None,
        Some(parts) => parts,
    };
    let fields = words_of(&counters);
    if fields.len() < 9 {
        return None;
    }
    assert(fields@[0]@ == words(counters@)[0]);
    assert(fields@[8]@ == words(counters@)[8]);
    let received = match parse_u64_chars(&fields[0]) {
        Some(n) => n,
        None => return None,
    };
    let transmitted = match parse_u64_chars(&fields[8]) {
        Some(n) => n,
        None => return None,
    };
    Some((trim_chars(&name), InterfaceBytes { received, transmitted }))
}

/// Parses `/proc/net/dev` into per-interface byte counters, in name order.
///
/// Two header lines, then `name: rx_bytes ... tx_bytes ...`, where the colon
/// may or may not have a space after it. Splitting on the colon rather than on
/// whitespace is what makes a long interface name parse like a short one. A
/// line that is truncated or not numeric is skipped rather than allowed to
/// corrupt the total.
#[verifier::spinoff_prover]
pub fn parse_net_dev(text: &str) -> (out: Vec<(String, InterfaceBytes)>)
    ensures
        lists_interfaces(out@, net_dev_spec(text@)),
{
    let chars = chars_of(text);
    let ls = lines_of(&chars);
    let ghost body = after_header(views(ls@));
    let mut entries: Vec<(Vec<char>, InterfaceBytes)> = Vec::new();
    let mut i: usize = 2;
    if ls.len() <= 2 {
        i = ls.len();
    }
    let start = i;
    assert(body =~= views(ls@).skip(start as int));
    assert(body.take(0) =~= Seq::<Seq<char>>::empty());
    while i < ls.len()
        invariant
            start <= i <= ls.len(),
            body == views(ls@).skip(start as int),
            represents(entries@, net_dev_map(body.take(i - start))),
        decreases ls.len() - i,
    {
        let ghost before = net_dev_map(body.take(i - start));
        assert(body.take(i + 1 - start).drop_last() =~= body.take(i - start));
        assert(body.take(i + 1 - start).last() == ls@[i as int]@);
        match net_dev_entry_exec(&ls[i]) {
            Some((name, bytes)) => {
                upsert(&mut entries, name, bytes, Ghost(before));
            },
            None => {},
        }
        i += 1;
    }
    assert(body.take(i - start) =~= body);
    let mut out: Vec<(String, InterfaceBytes)> = Vec::new();
    let mut j: usize = 0;
    while j < entries.len()
        invariant
            j <= entries.len(),
            out.len() == j,
            forall|q: int|
                0 <= q < j ==> #[trigger] out@[q].0@ == entries@[q].0@ && out@[q].1
                    == entries@[q].1,
        decreases entries.len() - j,
    {
        let ghost before = out@;
        out.push((string_of(&entries[j].0), entries[j].1));
        assert(out@[j as int].0@ == entries@[j as int].0@ && out@[j as int].1 == entries@[j as int].1);
        assert(forall|q: int| 0 <= q < j ==> out@[q] == before[q]);
        j += 1;
    }
    proof {
        let m = net_dev_spec(text@);
        assert(out@.map_values(|e: (String, InterfaceBytes)| e.0@) =~= keys_of(entries@));
    }
    out
}

/// Whether an interface's traffic counts toward the machine's throughput.
///
/// Loopback never does. A virtual bridge does: a virtual machine pulling a disk
/// image is real work.
pub fn counts_toward_throughput(name: &str) -> (b: bool)
    ensures
        b == (name@ != "lo"@),
{
    let n = chars_of(name);
    let lo = chars_of("lo");
    !chars_eq(&n, &lo)
}

/// The saturating sum of the counters of every interface that counts.
pub open spec fn throughput_total(s: Seq<(String, InterfaceBytes)>) -> int
    decreases s.len(),
{
    if s.len() == 0 {
        0
    } else {
        let e = s.last();
        let add = if e.0@ != "lo"@ {
            sat_add(e.1.received as int, e.1.transmitted as int)
        } else {
            0
        };
        sat_add(throughput_total(s.drop_last()), add)
    }
}

/// Every byte received and every byte transmitted on the interfaces other
/// than loopback, added up without any bound.
pub open spec fn bytes_moved(s: Seq<(String, InterfaceBytes)>) -> int
    decreases s.len(),
{
    if s.len() == 0 {
        0
    } else if s.last().0@ == "lo"@ {
        bytes_moved(s.drop_last())
    } else {
        bytes_moved(s.drop_last()) + s.last().1.received + s.last().1.transmitted
    }
}

/// The throughput total counts both directions of every interface but
/// loopback: it is every byte received plus every byte transmitted, only
/// held at the largest `u64` rather than wrapping.
pub proof fn lemma_total_counts_both_directions(s: Seq<(String, InterfaceBytes)>)
    ensures
        bytes_moved(s) >= 0,
        throughput_total(s) == if bytes_moved(s) > u64::MAX {
            u64::MAX as int
        } else {
            bytes_moved(s)
        },
    decreases s.len(),
{
    if s.len() > 0 {
        lemma_total_counts_both_directions(s.drop_last());
    }
}

/// Traffic in either direction on one interface moves the total: adding `k`
/// bytes to what an interface other than loopback has transmitted, or to
/// what it has received, adds `k` to the total unless the total is already
/// at its bound.
pub proof fn lemma_more_traffic_raises_the_total(
    s: Seq<(String, InterfaceBytes)>,
    i: int,
    more: InterfaceBytes,
    k: int,
)
    requires
        0 <= i < s.len(),
        s[i].0@ != "lo"@,
        k >= 0,
        (more.transmitted == s[i].1.transmitted + k && more.received == s[i].1.received) || (
        more.received == s[i].1.received + k && more.transmitted == s[i].1.transmitted),
    ensures
        bytes_moved(s.update(i, (s[i].0, more))) == bytes_moved(s) + k,
        throughput_total(s.update(i, (s[i].0, more))) == if bytes_moved(s) + k > u64::MAX {
            u64::MAX as int
        } else {
            bytes_moved(s) + k
        },
    decreases s.len(),
{
    let t = s.update(i, (s[i].0, more));
    if i < s.len() - 1 {
        assert(t.drop_last() =~= s.drop_last().update(i, (s[i].0, more)));
        lemma_more_traffic_raises_the_total(s.drop_last(), i, more, k);
    } else {
        assert(t.drop_last() =~= s.drop_last());
    }
    lemma_total_counts_both_directions(t);
}

/// Total bytes across every interface that counts.
pub fn total_of(interfaces: &Vec<(String, InterfaceBytes)>) -> (t: u64)
    ensures
        t == throughput_total(interfaces@),
        t == if bytes_moved(interfaces@) > u64::MAX {
            u64::MAX as int
        } else {
            bytes_moved(interfaces@)
        },
{
    proof {
        lemma_total_counts_both_directions(interfaces@);
    }
    let mut total: u64 = 0;
    let mut i: usize = 0;
    while i < interfaces.len()
        invariant
            i <= interfaces.len(),
            total == throughput_total(interfaces@.take(i as int)),
        decreases interfaces.len() - i,
    {
        assert(interfaces@.take(i + 1).drop_last() =~= interfaces@.take(i as int));
        let (name, bytes) = (&interfaces[i].0, &interfaces[i].1);
        if counts_toward_throughput(name.as_str()) {
            total = total.saturating_add(bytes.total());
        }
        i += 1;
    }
    assert(interfaces@.take(i as int) =~= interfaces@);
    total
}

/// One entry of `/sys/class/net`, as read at the edge.
#[derive(Debug, PartialEq, Eq)]
pub struct InterfaceEntry {
    /// The entry's file name, or `None` when it is not valid text.
    pub name: Option<String>,
    /// The raw contents of its `operstate`.
    pub operstate: Result<String, ReadError>,
}

pub open spec fn is_up_state(raw: Seq<char>) -> bool {
    trim(raw) == "up"@ || trim(raw) == "unknown"@
}

/// The names of the entries whose `operstate` says they carry traffic.
pub open spec fn up_names(es: Seq<InterfaceEntry>) -> Seq<Seq<char>>
    decreases es.len(),
{
    if es.len() == 0 {
        seq![]
    } else {
        let before = up_names(es.drop_last());
        let e = es.last();
        match (e.name, e.operstate) {
            (Some(name), Ok(state)) => if is_up_state(state@) {
                before.push(name@)
            } else {
                before
            },
            _ => before,
        }
    }
}

/// Reads throughput, or which interfaces are up.
#[derive(Clone, Debug)]
pub struct NetworkProvider {
    roots: Roots,
    kind: ProviderKind,
    previous: Option<(u64, u64)>,
}

pub open spec fn key_awaiting_second_sample() -> Seq<char> {
    "awake.provider.awaiting_second_sample"@
}

pub open spec fn key_counters_did_not_advance() -> Seq<char> {
    "awake.provider.counters_did_not_advance"@
}

pub open spec fn key_wrong_provider() -> Seq<char> {
    "awake.provider.wrong_provider"@
}

/// The rate a sample pair gives, in kibibytes a second, or nothing when no
/// time passed or the counter went backwards.
pub open spec fn rate_spec(then: u64, previous: u64, now: u64, total: u64) -> Option<u64> {
    let elapsed = if now >= then {
        now - then
    } else {
        0
    };
    if elapsed == 0 || total < previous {
        None
    } else {
        Some(((total - previous) / 1024 / elapsed) as u64)
    }
}

/// A rate is the whole kibibytes a second that moved between two samples:
/// with `elapsed` seconds between them and `moved` bytes more on the later
/// one, `rate` kibibytes a second over `elapsed` seconds is at most `moved`,
/// and one more kibibyte a second would be too many. There is no rate when no
/// time passed or the counter went backwards.
pub proof fn lemma_rate_is_kibibytes_per_second(then: u64, previous: u64, now: u64, total: u64)
    ensures
        rate_spec(then, previous, now, total) is None <==> (now <= then || total < previous),
        rate_spec(then, previous, now, total) matches Some(rate) ==> {
            let elapsed = now - then;
            let moved = total - previous;
            &&& 1024 * elapsed * rate <= moved
            &&& moved < 1024 * elapsed * (rate + 1)
        },
{
    if now > then && total >= previous {
        let elapsed: int = now - then;
        let moved: int = total - previous;
        let kib = moved / 1024;
        let rate = kib / elapsed;
        assert(1024 * elapsed * rate <= moved && moved < 1024 * elapsed * (rate + 1)) by (nonlinear_arith)
            requires
                elapsed > 0,
                moved >= 0,
                kib == moved / 1024,
                rate == kib / elapsed,
        ;
        assert(rate <= moved) by (nonlinear_arith)
            requires
                elapsed > 0,
                moved >= 0,
                1024 * elapsed * rate <= moved,
                rate >= 0,
        ;
        assert(0 <= rate <= u64::MAX);
    }
}

/// An interface counts as up exactly when its entry has a name and an
/// `operstate` that reads, apart from surrounding whitespace, `up` or
/// `unknown`: an interface that is `down`, `dormant` or unreadable never
/// counts, and one with no carrier concept, such as a VPN tunnel, does.
pub proof fn lemma_up_is_up_or_unknown(es: Seq<InterfaceEntry>, x: Seq<char>)
    ensures
        up_names(es).contains(x) <==> exists|i: int|
            0 <= i < es.len() && (#[trigger] es[i]).name is Some && es[i].name->0@ == x
                && es[i].operstate is Ok && (trim(es[i].operstate->Ok_0@) == "up"@ || trim(
                es[i].operstate->Ok_0@,
            ) == "unknown"@),
    decreases es.len(),
{
    if es.len() > 0 {
        let t = es.drop_last();
        lemma_up_is_up_or_unknown(t, x);
        let u = up_names(es);
        let ut = up_names(t);
        if ut.contains(x) {
            let q = choose|q: int| 0 <= q < ut.len() && ut[q] == x;
            assert(u[q] == x);
            let i = choose|i: int|
                0 <= i < t.len() && (#[trigger] t[i]).name is Some && t[i].name->0@ == x && t[i].operstate is Ok
                    && (trim(t[i].operstate->Ok_0@) == "up"@ || trim(t[i].operstate->Ok_0@) == "unknown"@);
            assert(es[i] == t[i]);
        }
        if u.contains(x) && !ut.contains(x) {
            let q = choose|q: int| 0 <= q < u.len() && u[q] == x;
            if q < ut.len() {
                assert(ut[q] == x);
            }
            assert(es[es.len() - 1].name is Some);
        }
        if exists|i: int|
            0 <= i < es.len() && (#[trigger] es[i]).name is Some && es[i].name->0@ == x && es[i].operstate is Ok
                && (trim(es[i].operstate->Ok_0@) == "up"@ || trim(es[i].operstate->Ok_0@) == "unknown"@) {
            let i = choose|i: int|
                0 <= i < es.len() && (#[trigger] es[i]).name is Some && es[i].name->0@ == x && es[i].operstate is Ok
                    && (trim(es[i].operstate->Ok_0@) == "up"@ || trim(es[i].operstate->Ok_0@) == "unknown"@);
            if i < t.len() {
                assert(t[i] == es[i]);
                let q = choose|q: int| 0 <= q < ut.len() && ut[q] == x;
                assert(u[q] == x);
            } else {
                assert(u[u.len() - 1] == x);
            }
        }
    }
}

impl NetworkProvider {
    pub closed spec fn kind_view(&self) -> ProviderKind {
        self.kind
    }

    pub closed spec fn previous_view(&self) -> Option<(u64, u64)> {
        self.previous
    }

    pub closed spec fn roots_view(&self) -> Roots {
        self.roots
    }

    /// The throughput half.
    pub fn throughput(roots: Roots) -> (p: Self)
        ensures
            p.kind_view() == ProviderKind::NetworkThroughput,
            p.previous_view() is None,
            p.roots_view() == roots,
    {
        NetworkProvider { roots, kind: ProviderKind::NetworkThroughput, previous: None }
    }

    /// The "is this interface up" half.
    pub fn interfaces(roots: Roots) -> (p: Self)
        ensures
            p.kind_view() == ProviderKind::NetworkInterface,
            p.previous_view() is None,
            p.roots_view() == roots,
    {
        NetworkProvider { roots, kind: ProviderKind::NetworkInterface, previous: None }
    }

    pub fn kind(&self) -> (k: ProviderKind)
        ensures
            k == self.kind_view(),
    {
        self.kind
    }

    pub fn cadence(&self) -> (c: Cadence)
        ensures
            c == (Cadence::Poll { seconds: NETWORK_POLL_SECONDS }),
    {
        Cadence::Poll { seconds: NETWORK_POLL_SECONDS }
    }

    pub fn net_dev_path(&self) -> (p: String)
        ensures
            p@ == path_join(self.roots_view().proc_view(), "net/dev"@),
    {
        self.roots.proc_path("net/dev")
    }

    pub fn class_net_path(&self) -> (p: String)
        ensures
            p@ == path_join(self.roots_view().sys_view(), "class/net"@),
    {
        self.roots.sys_path("class/net")
    }

    /// Total bytes across every interface that counts, from one read of
    /// `/proc/net/dev`.
    pub fn total_bytes_from(read: Result<String, ReadError>) -> (r: Result<u64, ReadError>)
        ensures
            match read {
                Err(e) => r == Err::<u64, ReadError>(e),
                Ok(text) => r matches Ok(t) && exists|s: Seq<(String, InterfaceBytes)>|
                    lists_interfaces(s, net_dev_spec(text@)) && t == throughput_total(s) && t == (
                    if bytes_moved(s) > u64::MAX {
                        u64::MAX as int
                    } else {
                        bytes_moved(s)
                    }),
            },
    {
        match read {
            Err(e) => Err(e),
            Ok(text) => {
                let interfaces = parse_net_dev(text.as_str());
                let t = total_of(&interfaces);
                Ok(t)
            },
        }
    }

    /// Every interface whose `operstate` says it is carrying traffic, in name
    /// order.
    ///
    /// `unknown` counts as up: it is what the kernel reports for interfaces
    /// with no carrier concept, such as WireGuard and Tailscale devices. An
    /// entry whose state cannot be read is skipped.
    pub fn up_interfaces_from(listing: Result<Vec<InterfaceEntry>, ReadError>) -> (r: Result<Vec<String>, ReadError>)
        ensures
            match listing {
                Err(e) => r == Err::<Vec<String>, ReadError>(e),
                Ok(es) => r matches Ok(up) && sorted_le(up@.map_values(|s: String| s@))
                    && up@.map_values(|s: String| s@).to_multiset() == up_names(es@).to_multiset(),
            },
    {
        let entries = match listing {
            Err(e) => return Err(e),
            Ok(es) => es,
        };
        let up_key = chars_of("up");
        let unknown_key = chars_of("unknown");
        let mut up: Vec<Vec<char>> = Vec::new();
        let mut i: usize = 0;
        while i < entries.len()
            invariant
                i <= entries.len(),
                up_key@ == "up"@,
                unknown_key@ == "unknown"@,
                views(up@) == up_names(entries@.take(i as int)),
            decreases entries.len() - i,
        {
            assert(entries@.take(i + 1).drop_last() =~= entries@.take(i as int));
            let entry = &entries[i];
            match (&entry.name, &entry.operstate) {
                (Some(name), Ok(state)) => {
                    let trimmed = trim_chars(&chars_of(state.as_str()));
                    if chars_eq(&trimmed, &up_key) || chars_eq(&trimmed, &unknown_key) {
                        let ghost before = up@;
                        let n = chars_of(name.as_str());
                        up.push(n);
                        proof {
                            crate::text::lemma_views_push(before, n);
                        }
                    }
                },
                _ => {},
            }
            i += 1;
        }
        assert(entries@.take(i as int) =~= entries@);
        let ordered = sorted(up);
        let out = crate::text::strings_of(&ordered);
        assert(out@.map_values(|s: String| s@) =~= views(ordered@));
        Ok(out)
    }

    /// Records one total and answers with the rate since the previous one.
    ///
    /// A failed read leaves the previous total in place. Two samples in the
    /// same second give no rate, and a counter that went backwards means the
    /// interface was recreated; neither is zero traffic.
    pub fn record_throughput(&mut self, now_unix_seconds: u64, total: Result<u64, ReadError>) -> (a: Answer<u64>)
        ensures
            final(self).kind_view() == old(self).kind_view(),
            final(self).roots_view() == old(self).roots_view(),
            old(self).kind_view() != ProviderKind::NetworkThroughput ==> {
                &&& final(self).previous_view() == old(self).previous_view()
                &&& a matches Answer::Unavailable { explanation } && explanation@
                    == key_wrong_provider()
            },
            old(self).kind_view() == ProviderKind::NetworkThroughput ==> match total {
                Err(e) => {
                    &&& final(self).previous_view() == old(self).previous_view()
                    &&& a matches Answer::Unavailable { explanation } && explanation@
                        == e.explanation_view()
                },
                Ok(t) => {
                    &&& final(self).previous_view() == Some((now_unix_seconds, t))
                    &&& match old(self).previous_view() {
                        None => a matches Answer::Unavailable { explanation } && explanation@
                            == key_awaiting_second_sample(),
                        Some((then, prev)) => match rate_spec(then, prev, now_unix_seconds, t) {
                            Some(rate) => a == Answer::<u64>::Known(rate),
                            None => a matches Answer::Unavailable { explanation }
                                && explanation@ == key_counters_did_not_advance(),
                        },
                    }
                },
            },
    {
        if self.kind != ProviderKind::NetworkThroughput {
            return unavailable("awake.provider.wrong_provider");
        }
        let total = match total {
            Ok(t) => t,
            Err(error) => return Answer::Unavailable { explanation: error.explanation() },
        };
        let previous = self.previous;
        self.previous = Some((now_unix_seconds, total));
        match previous {
            None => unavailable("awake.provider.awaiting_second_sample"),
            Some((then, previous_total)) => {
                let elapsed = now_unix_seconds.saturating_sub(then);
                match total.checked_sub(previous_total) {
                    Some(delta) if elapsed != 0 => Answer::Known(delta / 1024 / elapsed),
                    _ => unavailable("awake.provider.counters_did_not_advance"),
                }
            },
        }
    }

    /// Answers which interfaces are up, from one listing.
    pub fn answer_interfaces(&self, up: Result<Vec<String>, ReadError>) -> (a: Answer<Vec<String>>)
        ensures
            self.kind_view() != ProviderKind::NetworkInterface ==> (a matches Answer::Unavailable {
                explanation,
            } && explanation@ == key_wrong_provider()),
            self.kind_view() == ProviderKind::NetworkInterface ==> match up {
                Ok(names) => a == Answer::Known(names),
                Err(e) => a matches Answer::Unavailable { explanation } && explanation@
                    == e.explanation_view(),
            },
    {
        if self.kind != ProviderKind::NetworkInterface {
            return unavailable("awake.provider.wrong_provider");
        }
        match up {
            Ok(names) => Answer::Known(names),
            Err(error) => Answer::Unavailable { explanation: error.explanation() },
        }
    }
}

} // verus!
