//! CPU utilization, from the aggregate line of `/proc/stat`.
//!
//! Utilization is a rate, not a level, so it only exists between two samples.
//! The first sample after startup therefore reports nothing rather than a
//! figure invented from one reading.

use vstd::prelude::*;

use crate::provider::{Answer, Cadence, CPU_POLL_SECONDS, ProviderKind, unavailable};
use crate::roots::{ReadError, Roots, path_join};
use crate::text::{
    chars_of, has_prefix, lines, lines_of, parse_u64, parse_u64_chars, starts_with, views,
    words, words_of,
};

verus! {

/// The counters the aggregate `cpu` line carries, in jiffies.
///
/// `guest` and `guest_nice` are not added on top: the kernel already counts
/// them inside `user` and `nice`.
#[derive(Clone, Copy, Debug, Default, PartialEq, Eq, Structural)]
pub struct CpuTimes {
    pub idle: u64,
    pub total: u64,
}

/// The numbers among `ws`, in order; anything that is not one is skipped.
pub open spec fn numbers_of(ws: Seq<Seq<char>>) -> Seq<u64>
    decreases ws.len(),
{
    if ws.len() == 0 {
        seq![]
    } else {
        let before = numbers_of(ws.drop_last());
        match parse_u64(ws.last()) {
            Some(n) => before.push(n),
            None => before,
        }
    }
}

pub open spec fn is_cpu_line(line: Seq<char>) -> bool {
    has_prefix(line, "cpu "@) || line == "cpu"@
}

pub open spec fn first_cpu_line(ls: Seq<Seq<char>>) -> Option<Seq<char>>
    decreases ls.len(),
{
    if ls.len() == 0 {
        None
    } else if is_cpu_line(ls[0]) {
        Some(ls[0])
    } else {
        first_cpu_line(ls.drop_first())
    }
}

pub open spec fn after_first(ws: Seq<Seq<char>>) -> Seq<Seq<char>> {
    if ws.len() == 0 {
        ws
    } else {
        ws.drop_first()
    }
}

/// The numeric fields of the aggregate line, when there is one.
pub open spec fn cpu_fields(text: Seq<char>) -> Option<Seq<u64>> {
    match first_cpu_line(lines(text)) {
        None => None,
        Some(line) => Some(numbers_of(after_first(words(line)))),
    }
}

pub open spec fn seq_sum(f: Seq<u64>) -> int
    decreases f.len(),
{
    if f.len() == 0 {
        0
    } else {
        seq_sum(f.drop_last()) + f.last()
    }
}

/// The first eight fields: `user` to `steal`.
pub open spec fn time_fields(f: Seq<u64>) -> Seq<u64> {
    if f.len() <= 8 {
        f
    } else {
        f.take(8)
    }
}

pub open spec fn idle_of(f: Seq<u64>) -> int {
    f[3] + (if f.len() > 4 {
        f[4] as int
    } else {
        0
    })
}

/// Whether the counters of `text` add up without overflowing a `u64`.
pub open spec fn cpu_counters_fit(text: Seq<char>) -> bool {
    match cpu_fields(text) {
        Some(f) => f.len() >= 4 ==> idle_of(f) <= u64::MAX && seq_sum(time_fields(f))
            <= u64::MAX,
        None => true,
    }
}

/// What parsing `text` yields: idle plus iowait, and the sum of the first
/// eight counters.
pub open spec fn cpu_parse_spec(text: Seq<char>) -> Option<CpuTimes> {
    match cpu_fields(text) {
        None => None,
        Some(f) => if f.len() < 4 {
            None
        } else {
            Some(CpuTimes { idle: idle_of(f) as u64, total: seq_sum(time_fields(f)) as u64 })
        },
    }
}

/// The busy percentage between an earlier sample and a later one, or nothing
/// when the counters did not move or went backwards.
pub open spec fn utilization_spec(later: CpuTimes, earlier: CpuTimes) -> Option<u8> {
    if later.total < earlier.total || later.idle < earlier.idle {
        None
    } else {
        let total = later.total - earlier.total;
        let idle = later.idle - earlier.idle;
        if total == 0 || idle > total {
            None
        } else {
            let pct = (total - idle) * 100 / total;
            Some(
                (if pct > 100 {
                    100
                } else {
                    pct
                }) as u8,
            )
        }
    }
}

/// The busy percentage is the whole percent of the time between two samples
/// that was not idle: `pct` percent of the elapsed jiffies is at most the
/// busy ones and one percent more would be too many. There is none when the
/// counters did not move, went backwards, or claim more idle than elapsed.
pub proof fn lemma_utilization_is_busy_share(later: CpuTimes, earlier: CpuTimes)
    ensures
        utilization_spec(later, earlier) is None <==> (later.total <= earlier.total || later.idle
            < earlier.idle || later.idle - earlier.idle > later.total - earlier.total),
        utilization_spec(later, earlier) matches Some(pct) ==> {
            let elapsed = later.total - earlier.total;
            let busy = elapsed - (later.idle - earlier.idle);
            &&& pct <= 100
            &&& pct * elapsed <= 100 * busy
            &&& 100 * busy < (pct + 1) * elapsed
        },
{
    if later.total > earlier.total && later.idle >= earlier.idle && later.idle - earlier.idle
        <= later.total - earlier.total {
        let elapsed: int = later.total - earlier.total;
        let busy: int = elapsed - (later.idle - earlier.idle);
        let pct = busy * 100 / elapsed;
        assert(pct <= 100 && pct * elapsed <= 100 * busy && 100 * busy < (pct + 1) * elapsed) by (nonlinear_arith)
            requires
                elapsed > 0,
                0 <= busy <= elapsed,
                pct == busy * 100 / elapsed,
        ;
        assert(pct >= 0) by (nonlinear_arith)
            requires
                elapsed > 0,
                0 <= busy,
                pct == busy * 100 / elapsed,
        ;
    }
}

/// Whether computing the busy percentage stays inside a `u64`.
pub open spec fn utilization_fits(later: CpuTimes, earlier: CpuTimes) -> bool {
    later.total >= earlier.total && later.idle >= earlier.idle && later.idle - earlier.idle
        <= later.total - earlier.total ==> (later.total - earlier.total - (later.idle
        - earlier.idle)) * 100 <= u64::MAX
}

proof fn lemma_sum_prefix_bounded(f: Seq<u64>, i: int)
    requires
        0 <= i <= f.len(),
    ensures
        seq_sum(f.take(i)) <= seq_sum(f),
        seq_sum(f.take(i)) >= 0,
    decreases f.len() - i,
{
    if i < f.len() {
        lemma_sum_prefix_bounded(f, i + 1);
        assert(f.take(i + 1).drop_last() == f.take(i));
    } else {
        assert(f.take(i) == f);
    }
    lemma_sum_nonneg(f.take(i));
}

proof fn lemma_sum_nonneg(f: Seq<u64>)
    ensures
        seq_sum(f) >= 0,
    decreases f.len(),
{
    if f.len() > 0 {
        lemma_sum_nonneg(f.drop_last());
    }
}

fn first_cpu_line_exec(ls: &Vec<Vec<char>>) -> (r: Option<usize>)
    ensures
        match first_cpu_line(views(ls@)) {
            None => r is None,
            Some(l) => r matches Some(i) && i < ls.len() && ls@[i as int]@ == l,
        },
{
    let prefix = chars_of("cpu ");
    let bare = chars_of("cpu");
    let mut i: usize = 0;
    assert(views(ls@).skip(0) =~= views(ls@));
    while i < ls.len()
        invariant
            i <= ls.len(),
            prefix@ == "cpu "@,
            bare@ == "cpu"@,
            first_cpu_line(views(ls@).skip(i as int)) == first_cpu_line(views(ls@)),
        decreases ls.len() - i,
    {
        let ghost rest = views(ls@).skip(i as int);
        assert(rest[0] == ls@[i as int]@);
        assert(rest.drop_first() =~= views(ls@).skip(i + 1));
        if starts_with(&ls[i], &prefix) || crate::text::chars_eq(&ls[i], &bare) {
            return Some(i);
        }
        i += 1;
    }
    None
}

/// The numeric fields of the aggregate line of `text`, when it has one.
fn fields_of(text: &str) -> (r: Option<Vec<u64>>)
    ensures
        match cpu_fields(text@) {
            None => r is None,
            Some(f) => r matches Some(v) && v@ == f,
        },
{
    let chars = chars_of(text);
    let ls = lines_of(&chars);
    let line_index = match first_cpu_line_exec(&ls) {
        None => return None,
        Some(i) => i,
    };
    let ws = words_of(&ls[line_index]);
    let ghost rest = after_first(views(ws@));
    let mut fields: Vec<u64> = Vec::new();
    let mut j: usize = if ws.len() > 0 {
        1
    } else {
        0
    };
    let start = j;
    assert(views(ws@).skip(start as int) =~= rest);
    while j < ws.len()
        invariant
            start <= j <= ws.len(),
            rest == views(ws@).skip(start as int),
            fields@ == numbers_of(rest.take(j - start)),
        decreases ws.len() - j,
    {
        assert(rest.take(j + 1 - start).drop_last() =~= rest.take(j - start));
        assert(rest.take(j + 1 - start).last() == ws@[j as int]@);
        match parse_u64_chars(&ws[j]) {
            Some(n) => fields.push(n),
            None => {},
        }
        j += 1;
    }
    assert(rest.take(j - start) =~= rest);
    Some(fields)
}

/// Whether the counters of `text` add up without overflowing a `u64`, which
/// is what [`CpuTimes::parse`] needs of it.
pub fn counters_fit(text: &str) -> (b: bool)
    ensures
        b == cpu_counters_fit(text@),
{
    let fields = match fields_of(text) {
        None => return true,
        Some(f) => f,
    };
    if fields.len() < 4 {
        return true;
    }
    let ghost f = fields@;
    let extra: u64 = if fields.len() > 4 {
        fields[4]
    } else {
        0
    };
    if fields[3].checked_add(extra).is_none() {
        return false;
    }
    let count: usize = if fields.len() <= 8 {
        fields.len()
    } else {
        8
    };
    assert(time_fields(f) =~= f.take(count as int));
    let mut total: u64 = 0;
    let mut k: usize = 0;
    while k < count
        invariant
            k <= count <= fields.len(),
            count == time_fields(f).len(),
            f == fields@,
            cpu_fields(text@) == Some(f),
            f.len() >= 4,
            time_fields(f) == f.take(count as int),
            total as int == seq_sum(f.take(k as int)),
        decreases count - k,
    {
        proof {
            assert(f.take(k + 1).drop_last() =~= f.take(k as int));
            assert(time_fields(f).take(k + 1) =~= f.take(k + 1));
            lemma_sum_prefix_bounded(time_fields(f), k + 1);
        }
        match total.checked_add(fields[k]) {
            None => {
                assert(f.take(k + 1).last() == f[k as int]);
                assert(seq_sum(f.take(k + 1)) == total + fields[k as int]);
                assert(time_fields(f).take(k + 1) == f.take(k + 1));
                return false;
            },
            Some(t) => {
                total = t;
            },
        }
        k += 1;
    }
    assert(f.take(count as int) =~= time_fields(f));
    true
}

impl CpuTimes {
    /// Parses the aggregate `cpu` line.
    ///
    /// `idle` is idle plus iowait, because a machine waiting on a disk is not
    /// doing work a keep-awake rule should fire on. A line with fewer than four
    /// counters is one this parser does not understand, and it says so.
    pub fn parse(text: &str) -> (r: Option<Self>)
        requires
            cpu_counters_fit(text@),
        ensures
            r == cpu_parse_spec(text@),
    {
        let fields = match fields_of(text) {
            None => return None,
            Some(f) => f,
        };
        if fields.len() < 4 {
            return None;
        }
        let ghost f = fields@;
        let extra: u64 = if fields.len() > 4 {
            fields[4]
        } else {
            0
        };
        let idle = fields[3] + extra;
        let count: usize = if fields.len() <= 8 {
            fields.len()
        } else {
            8
        };
        let mut total: u64 = 0;
        let mut k: usize = 0;
        assert(time_fields(f) =~= f.take(count as int));
        while k < count
            invariant
                k <= count <= fields.len(),
                count == time_fields(f).len(),
                f == fields@,
                time_fields(f) == f.take(count as int),
                seq_sum(time_fields(f)) <= u64::MAX,
                total as int == seq_sum(f.take(k as int)),
            decreases count - k,
        {
            proof {
                assert(f.take(k + 1).drop_last() =~= f.take(k as int));
                assert(time_fields(f).take(k + 1) =~= f.take(k + 1));
                lemma_sum_prefix_bounded(time_fields(f), k + 1);
            }
            total = total + fields[k];
            k += 1;
        }
        Some(CpuTimes { idle, total })
    }

    /// Whether the busy percentage since `earlier` can be worked out inside a
    /// `u64`, which is what [`CpuTimes::utilization_since`] needs.
    pub fn fits_with(&self, earlier: &CpuTimes) -> (b: bool)
        ensures
            b == utilization_fits(*self, *earlier),
    {
        if self.total < earlier.total || self.idle < earlier.idle {
            return true;
        }
        let total = self.total - earlier.total;
        let idle = self.idle - earlier.idle;
        if idle > total {
            return true;
        }
        (total - idle).checked_mul(100).is_some()
    }

    /// The busy percentage between `earlier` and this sample.
    ///
    /// `None` when the counters did not move, which happens on a sample taken
    /// twice within one jiffy, and when they went backwards, which happens after
    /// a suspend on some kernels. Neither is a zero.
    pub fn utilization_since(&self, earlier: &CpuTimes) -> (r: Option<u8>)
        requires
            utilization_fits(*self, *earlier),
        ensures
            r == utilization_spec(*self, *earlier),
            r matches Some(p) ==> p <= 100,
    {
        let total = match self.total.checked_sub(earlier.total) {
            Some(t) => t,
            None => return None,
        };
        let idle = match self.idle.checked_sub(earlier.idle) {
            Some(i) => i,
            None => return None,
        };
        if total == 0 || idle > total {
            return None;
        }
        let busy = total - idle;
        let pct = (busy * 100) / total;
        Some(
            if pct > 100 {
                100
            } else {
                pct as u8
            },
        )
    }
}

/// Reads CPU utilization across the whole machine.
#[derive(Clone, Debug)]
pub struct CpuProvider {
    roots: Roots,
    previous: Option<CpuTimes>,
}

pub open spec fn key_malformed_stat() -> Seq<char> {
    "awake.provider.malformed_stat"@
}

pub open spec fn key_awaiting_second_sample() -> Seq<char> {
    "awake.provider.awaiting_second_sample"@
}

pub open spec fn key_counters_did_not_advance() -> Seq<char> {
    "awake.provider.counters_did_not_advance"@
}

impl CpuProvider {
    pub closed spec fn previous_view(&self) -> Option<CpuTimes> {
        self.previous
    }

    pub closed spec fn roots_view(&self) -> Roots {
        self.roots
    }

    pub fn new(roots: Roots) -> (p: Self)
        ensures
            p.previous_view() is None,
            p.roots_view() == roots,
    {
        CpuProvider { roots, previous: None }
    }

    /// `/proc/stat` under this provider's roots.
    pub fn stat_path(&self) -> (p: String)
        ensures
            p@ == path_join(self.roots_view().proc_view(), "stat"@),
    {
        self.roots.proc_path("stat")
    }

    /// What one read of `/proc/stat` means: the read error, or the parsed line.
    pub fn read_from(stat: Result<String, ReadError>) -> (r: Result<Option<CpuTimes>, ReadError>)
        requires
            stat matches Ok(text) ==> cpu_counters_fit(text@),
        ensures
            match stat {
                Err(e) => r == Err::<Option<CpuTimes>, ReadError>(e),
                Ok(text) => r == Ok::<Option<CpuTimes>, ReadError>(cpu_parse_spec(text@)),
            },
    {
        match stat {
            Err(e) => Err(e),
            Ok(text) => Ok(CpuTimes::parse(text.as_str())),
        }
    }

    pub fn kind(&self) -> (k: ProviderKind)
        ensures
            k == ProviderKind::CpuUtilization,
    {
        ProviderKind::CpuUtilization
    }

    pub fn cadence(&self) -> (c: Cadence)
        ensures
            c == (Cadence::Poll { seconds: CPU_POLL_SECONDS }),
    {
        Cadence::Poll { seconds: CPU_POLL_SECONDS }
    }

    /// Whether `read` can be recorded: the busy percentage between it and the
    /// previous sample can be worked out inside a `u64`.
    pub fn can_record(&self, read: &Result<Option<CpuTimes>, ReadError>) -> (b: bool)
        ensures
            b == (*read matches Ok(Some(t)) ==> (self.previous_view() matches Some(p)
                ==> utilization_fits(t, p))),
    {
        match (read, &self.previous) {
            (Ok(Some(t)), Some(p)) => t.fits_with(p),
            _ => true,
        }
    }

    /// Records one read and answers with the utilization since the previous
    /// one, or with why there is none.
    ///
    /// A failed or malformed read leaves the previous sample in place; a good
    /// read becomes the new previous sample whatever it answered.
    pub fn record(&mut self, read: Result<Option<CpuTimes>, ReadError>) -> (a: Answer<u8>)
        requires
            read matches Ok(Some(t)) ==> (old(self).previous_view() matches Some(p)
                ==> utilization_fits(t, p)),
        ensures
            final(self).roots_view() == old(self).roots_view(),
            match read {
                Err(e) => {
                    &&& final(self).previous_view() == old(self).previous_view()
                    &&& a matches Answer::Unavailable { explanation } && explanation@
                        == e.explanation_view()
                },
                Ok(None) => {
                    &&& final(self).previous_view() == old(self).previous_view()
                    &&& a matches Answer::Unavailable { explanation } && explanation@
                        == key_malformed_stat()
                },
                Ok(Some(t)) => {
                    &&& final(self).previous_view() == Some(t)
                    &&& match old(self).previous_view() {
                        None => a matches Answer::Unavailable { explanation } && explanation@
                            == key_awaiting_second_sample(),
                        Some(p) => match utilization_spec(t, p) {
                            Some(pct) => a == Answer::<u8>::Known(pct),
                            None => a matches Answer::Unavailable { explanation }
                                && explanation@ == key_counters_did_not_advance(),
                        },
                    }
                },
            },
    {
        let current = match read {
            Err(error) => {
                return Answer::Unavailable { explanation: error.explanation() };
            },
            Ok(None) => {
                return unavailable("awake.provider.malformed_stat");
            },
            Ok(Some(times)) => times,
        };
        let previous = self.previous;
        self.previous = Some(current);
        match previous {
            None => unavailable("awake.provider.awaiting_second_sample"),
            Some(p) => match current.utilization_since(&p) {
                Some(percent) => Answer::Known(percent),
                None => unavailable("awake.provider.counters_did_not_advance"),
            },
        }
    }
}

} // verus!
