//! Enough of the local timezone to print `Started: 22:18`.
//!
//! The offset is read out of the version 1 TZif block every system zone file
//! still carries. A missing or unreadable file means an offset of zero and a
//! time shown in UTC, which is a visible, explainable fallback rather than a
//! wrong local time invented from a guess.

use vstd::prelude::*;

use crate::text::{append_chars, decimal, decimal_chars, string_of};

verus! {

/// Seconds to add to a UTC timestamp to get local wall-clock time.
#[derive(Clone, Copy, Debug, PartialEq, Eq, Structural)]
pub struct UtcOffset(pub i64);

/// The four bytes at `at`, read as a big-endian unsigned integer.
pub open spec fn be_u32(b: Seq<u8>, at: int) -> int {
    b[at] * 0x100_0000 + b[at + 1] * 0x1_0000 + b[at + 2] * 0x100 + b[at + 3]
}

/// The four bytes at `at`, read as a big-endian two's-complement integer.
pub open spec fn be_i32(b: Seq<u8>, at: int) -> int {
    let u = be_u32(b, at);
    if u >= 0x8000_0000 {
        u - 0x1_0000_0000
    } else {
        u
    }
}

/// How many transitions, from the first, lie at or before `now`. The
/// transitions start at byte 44, four bytes each.
pub open spec fn leading_transitions(b: Seq<u8>, count: int, now: int, i: int) -> int
    decreases count - i,
{
    if i < count && be_i32(b, 44 + 4 * i) <= now {
        1 + leading_transitions(b, count, now, i + 1)
    } else {
        0
    }
}

/// The offset a version 1 TZif block gives for `now`, or `None` when the bytes
/// are not such a block or the time cannot be placed in it.
///
/// The header holds the transition count at byte 32 and the type count at
/// byte 36. Before the first recorded transition the first type is in force;
/// after the last transition at or before `now` (reading from the first), the
/// type that transition names is. A type is six bytes, its offset first.
pub open spec fn tzif_offset(b: Seq<u8>, now: u64) -> Option<i64> {
    let transitions = be_u32(b, 32);
    let types = be_u32(b, 36);
    let indices_at = 44 + transitions * 4;
    let types_at = indices_at + transitions;
    if b.len() < 44 || b.subrange(0, 4) != seq![0x54u8, 0x5au8, 0x69u8, 0x66u8] {
        None
    } else if types == 0 || b.len() < types_at + types * 6 || now > i64::MAX {
        None
    } else {
        let k = leading_transitions(b, transitions, now as int, 0);
        let chosen: int = if k == 0 {
            0
        } else {
            b[indices_at + k - 1] as int
        };
        if chosen >= types {
            None
        } else {
            Some(be_i32(b, types_at + chosen * 6) as i64)
        }
    }
}

proof fn lemma_leading_bounds(b: Seq<u8>, count: int, now: int, i: int)
    requires
        0 <= i <= count,
    ensures
        0 <= leading_transitions(b, count, now, i) <= count - i,
    decreases count - i,
{
    if i < count {
        lemma_leading_bounds(b, count, now, i + 1);
    }
}

fn read_be_u32(b: &[u8], at: usize) -> (v: u64)
    requires
        at + 4 <= b@.len(),
    ensures
        v == be_u32(b@, at as int),
        v < 0x1_0000_0000,
{
    (b[at] as u64) * 0x100_0000 + (b[at + 1] as u64) * 0x1_0000 + (b[at + 2] as u64) * 0x100 + (
    b[at + 3] as u64)
}

fn read_be_i32(b: &[u8], at: usize) -> (v: i64)
    requires
        at + 4 <= b@.len(),
    ensures
        v == be_i32(b@, at as int),
        -0x8000_0000 <= v < 0x8000_0000,
{
    let u = read_be_u32(b, at);
    if u >= 0x8000_0000 {
        (u as i64) - 0x1_0000_0000
    } else {
        u as i64
    }
}

impl UtcOffset {
    /// No offset: times shown in UTC.
    pub fn utc() -> (o: Self)
        ensures
            o.0 == 0,
    {
        UtcOffset(0)
    }

    /// Parses the version 1 block of a TZif file. Version 1 stores 32-bit
    /// transition times, which run out in 2038; a window that prints a session
    /// start time is never asked about 2039.
    pub fn from_tzif(bytes: &[u8], unix_seconds: u64) -> (r: Option<Self>)
        ensures
            r matches Some(o) ==> tzif_offset(bytes@, unix_seconds) == Some(o.0),
            r is None ==> tzif_offset(bytes@, unix_seconds) is None,
    {
        let ghost b = bytes@;
        if bytes.len() < 44 {
            return None;
        }
        if !(bytes[0] == 0x54 && bytes[1] == 0x5a && bytes[2] == 0x69 && bytes[3] == 0x66) {
            assert(b.subrange(0, 4) != seq![0x54u8, 0x5au8, 0x69u8, 0x66u8]) by {
                if b.subrange(0, 4) == seq![0x54u8, 0x5au8, 0x69u8, 0x66u8] {
                    assert(b.subrange(0, 4)[0] == b[0]);
                    assert(b.subrange(0, 4)[1] == b[1]);
                    assert(b.subrange(0, 4)[2] == b[2]);
                    assert(b.subrange(0, 4)[3] == b[3]);
                }
            }
            return None;
        }
        assert(b.subrange(0, 4) =~= seq![0x54u8, 0x5au8, 0x69u8, 0x66u8]);
        let transition_count = read_be_u32(bytes, 32);
        let type_count = read_be_u32(bytes, 36);
        if type_count == 0 {
            return None;
        }
        let transitions_at: u64 = 44;
        let indices_at: u64 = transitions_at + transition_count * 4;
        let types_at: u64 = indices_at + transition_count;
        if (bytes.len() as u64) < types_at + type_count * 6 {
            return None;
        }
        if unix_seconds > 0x7fff_ffff_ffff_ffff {
            return None;
        }
        let now = unix_seconds as i64;
        let mut chosen: u64 = 0;
        let mut index: u64 = 0;
        proof {
            lemma_leading_bounds(b, transition_count as int, now as int, 0);
        }
        while index < transition_count
            invariant_except_break
                index <= transition_count,
                leading_transitions(b, transition_count as int, now as int, 0) >= index,
            invariant
                bytes@ == b,
                transitions_at == 44,
                leading_transitions(b, transition_count as int, now as int, 0) <= transition_count,
                b.len() >= types_at + type_count * 6,
                indices_at == 44 + transition_count * 4,
                types_at == indices_at + transition_count,
                transition_count < 0x1_0000_0000,
                chosen == (if index == 0 {
                    0
                } else {
                    b[indices_at + index - 1] as int
                }),
            ensures
                index == leading_transitions(b, transition_count as int, now as int, 0),
                chosen == (if index == 0 {
                    0
                } else {
                    b[indices_at + index - 1] as int
                }),
            decreases transition_count - index,
        {
            let at = transitions_at + index * 4;
            assert(at + 4 <= bytes@.len());
            assert(bytes@.len() == bytes.len());
            let at_index = at as usize;
            assert(at_index == at);
            let transition = read_be_i32(bytes, at_index);
            assert(transition == be_i32(bytes@, at as int));
            proof {
                assert(transition == be_i32(b, 44 + 4 * index));
                lemma_leading_prefix(b, transition_count as int, now as int, index as int);
            }
            if transition > now {
                break;
            }
            assert(indices_at + index < bytes@.len());
            chosen = bytes[(indices_at + index) as usize] as u64;
            index += 1;
        }
        if chosen >= type_count {
            return None;
        }
        let at = types_at + chosen * 6;
        Some(UtcOffset(read_be_i32(bytes, at as usize)))
    }

    /// The offset in force at `unix_seconds` according to the system zone
    /// file, given what reading that file gave; UTC when it could not be read
    /// or understood.
    pub fn for_system(localtime: Option<&[u8]>, unix_seconds: u64) -> (o: Self)
        ensures
            o.0 == match localtime {
                Some(b) => match tzif_offset(b@, unix_seconds) {
                    Some(v) => v,
                    None => 0,
                },
                None => 0,
            },
    {
        match localtime {
            Some(bytes) => match UtcOffset::from_tzif(bytes, unix_seconds) {
                Some(o) => o,
                None => UtcOffset::utc(),
            },
            None => UtcOffset::utc(),
        }
    }
}

/// Reading from transition `i`, either the leading run stops before `i` or
/// every transition before `i` is at or before `now`; and the run extends past
/// `i` exactly when transition `i` is at or before `now`.
proof fn lemma_leading_prefix(b: Seq<u8>, count: int, now: int, i: int)
    requires
        0 <= i < count,
        leading_transitions(b, count, now, 0) >= i,
    ensures
        be_i32(b, 44 + 4 * i) > now ==> leading_transitions(b, count, now, 0) == i,
        be_i32(b, 44 + 4 * i) <= now ==> leading_transitions(b, count, now, 0) >= i + 1,
    decreases i,
{
    lemma_leading_shift(b, count, now, 0, i);
}

/// Walking `i` steps into a leading run that long leaves the rest of the run.
proof fn lemma_leading_shift(b: Seq<u8>, count: int, now: int, j: int, i: int)
    requires
        0 <= j <= i < count,
        leading_transitions(b, count, now, j) >= i - j,
    ensures
        be_i32(b, 44 + 4 * i) > now ==> leading_transitions(b, count, now, j) == i - j,
        be_i32(b, 44 + 4 * i) <= now ==> leading_transitions(b, count, now, j) >= i - j + 1,
    decreases i - j,
{
    lemma_leading_bounds(b, count, now, j + 1);
    if j < i {
        lemma_leading_shift(b, count, now, j + 1, i);
    }
}

// ---------------------------------------------------------------------------
// Formatting
// ---------------------------------------------------------------------------

/// The local wall-clock second a UTC timestamp falls on. A timestamp past what
/// a signed 64-bit integer holds is read as zero.
pub open spec fn local_seconds(unix_seconds: u64, offset: UtcOffset) -> int {
    (if unix_seconds <= i64::MAX {
        unix_seconds as int
    } else {
        0
    }) + offset.0
}

/// `n` written with at least `width` digits, zeros in front.
pub open spec fn zero_padded(n: nat, width: nat) -> Seq<char> {
    let d = decimal(n);
    if d.len() >= width {
        d
    } else {
        Seq::new((width - d.len()) as nat, |i: int| '0') + d
    }
}

/// What `{:04}` writes for a signed integer: the sign counts toward the width.
pub open spec fn signed_padded(n: int, width: nat) -> Seq<char> {
    if n >= 0 {
        zero_padded(n as nat, width)
    } else {
        seq!['-'] + zero_padded((-n) as nat, if width > 0 {
            (width - 1) as nat
        } else {
            0
        })
    }
}

/// `HH:MM` for a second of the local day.
pub open spec fn clock_text(seconds_into_day: int) -> Seq<char> {
    zero_padded((seconds_into_day / 3600) as nat, 2) + seq![':'] + zero_padded(
        ((seconds_into_day % 3600) / 60) as nat,
        2,
    )
}

pub(crate) fn padded_chars(n: u64, width: usize) -> (out: Vec<char>)
    requires
        width <= 4,
    ensures
        out@ == zero_padded(n as nat, width as nat),
{
    let digits = decimal_chars(n);
    if digits.len() >= width {
        return digits;
    }
    let mut out: Vec<char> = Vec::new();
    let missing = width - digits.len();
    let mut i: usize = 0;
    while i < missing
        invariant
            i <= missing,
            out@ == Seq::new(i as nat, |k: int| '0'),
        decreases missing - i,
    {
        out.push('0');
        assert(out@ =~= Seq::new((i + 1) as nat, |k: int| '0'));
        i += 1;
    }
    append_chars(&mut out, &digits);
    out
}

/// `HH:MM` in local time.
pub fn clock_time(unix_seconds: u64, offset: UtcOffset) -> (s: String)
    requires
        i64::MIN <= local_seconds(unix_seconds, offset) <= i64::MAX,
    ensures
        s@ == clock_text(local_seconds(unix_seconds, offset) % 86400),
{
    let base: i64 = if unix_seconds <= 0x7fff_ffff_ffff_ffff {
        unix_seconds as i64
    } else {
        0
    };
    let local: i64 = base + offset.0;
    // A negative timestamp must still land on a positive time of day.
    let seconds_into_day: i64 = match local.checked_rem_euclid(86_400) {
        Some(r) => r,
        None => 0,
    };
    assert(0 <= seconds_into_day < 86400);
    let into = seconds_into_day as u64;
    let mut out = padded_chars(into / 3600, 2);
    out.push(':');
    let minutes = padded_chars((into % 3600) / 60, 2);
    append_chars(&mut out, &minutes);
    string_of(&out)
}

/// `YYYY-MM-DD HH:MM` for a local second.
pub open spec fn calendar_text(local: int) -> Seq<char> {
    let date = civil_spec(local / 86400);
    signed_padded(date.0, 4) + seq!['-'] + zero_padded(date.1, 2) + seq!['-'] + zero_padded(date.2, 2)
        + seq![' '] + clock_text(local % 86400)
}

/// `YYYY-MM-DD HH:MM` in local time, which is what a history row needs: two
/// sessions a day apart must not both read `09:12`.
pub fn calendar_time(unix_seconds: u64, offset: UtcOffset) -> (s: String)
    requires
        i64::MIN <= local_seconds(unix_seconds, offset) <= i64::MAX,
    ensures
        s@ == calendar_text(local_seconds(unix_seconds, offset)),
{
    let base: i64 = if unix_seconds <= 0x7fff_ffff_ffff_ffff {
        unix_seconds as i64
    } else {
        0
    };
    let local: i64 = base + offset.0;
    let days: i64 = match local.checked_div_euclid(86_400) {
        Some(d) => d,
        None => 0,
    };
    assert(days == local / 86400);
    assert(-0x1_0000_0000_0000 <= days <= 0x1_0000_0000_0000) by (nonlinear_arith)
        requires
            days == local / 86400,
            i64::MIN <= local <= i64::MAX,
    ;
    let (year, month, day) = civil_from_days(days);
    proof {
        lemma_civil_ranges(days as int);
    }
    let mut out: Vec<char> = Vec::new();
    if year < 0 {
        out.push('-');
        let magnitude = padded_chars((0 - year) as u64, 3);
        append_chars(&mut out, &magnitude);
    } else {
        out = padded_chars(year as u64, 4);
    }
    out.push('-');
    append_chars(&mut out, &padded_chars(month as u64, 2));
    out.push('-');
    append_chars(&mut out, &padded_chars(day as u64, 2));
    out.push(' ');
    let clock = clock_time(unix_seconds, offset);
    append_chars(&mut out, &crate::text::chars_of(clock.as_str()));
    string_of(&out)
}

// ---------------------------------------------------------------------------
// Calendar arithmetic
// ---------------------------------------------------------------------------

/// The proleptic Gregorian (year, month, day) that is `days` days after
/// 1970-01-01, worked out the way Howard Hinnant's `civil_from_days` works it
/// out: days are counted from 0000-03-01 in 400-year eras, so a leap day is
/// always the last day of a year and no table is needed.
/// [`lemma_civil_is_the_calendar`] shows it is the date [`days_from_civil`]
/// counts back to `days`.
pub open spec fn civil_spec(days: int) -> (int, nat, nat) {
    let z = days + 719468;
    let era = z / 146097;
    let day_of_era = z % 146097;
    let year_of_era = (day_of_era - day_of_era / 1460 + day_of_era / 36524 - day_of_era / 146096) / 365;
    let year = year_of_era + era * 400;
    let day_of_year = day_of_era - (365 * year_of_era + year_of_era / 4 - year_of_era / 100);
    let month_prime = (5 * day_of_year + 2) / 153;
    let day = day_of_year - (153 * month_prime + 2) / 5 + 1;
    let month = if month_prime < 10 {
        month_prime + 3
    } else {
        month_prime - 9
    };
    (if month <= 2 {
        year + 1
    } else {
        year
    }, month as nat, day as nat)
}

/// Every date `civil_from_days` gives is a real one: a month from 1 to 12
/// and a day from 1 to 31.
pub proof fn lemma_civil_ranges(days: int)
    ensures
        1 <= civil_spec(days).1 <= 12,
        1 <= civil_spec(days).2 <= 31,
        -0x1_0000_0000_0000 <= days <= 0x1_0000_0000_0000 ==> -0x200_0000_0000 <= civil_spec(days).0
            <= 0x200_0000_0000,
{
    let z = days + 719468;
    let doe = z % 146097;
    assert(0 <= doe < 146097);
    let yoe = (doe - doe / 1460 + doe / 36524 - doe / 146096) / 365;
    lemma_year_of_era(doe);
    let doy = doe - (365 * yoe + yoe / 4 - yoe / 100);
    lemma_day_of_year(doe, yoe);
    lemma_month_prime(doy);
    if -0x1_0000_0000_0000 <= days <= 0x1_0000_0000_0000 {
        let era = z / 146097;
        assert(-2_000_000_000 <= era <= 2_000_000_000) by (nonlinear_arith)
            requires
                z == days + 719468,
                era == z / 146097,
                -0x1_0000_0000_0000 <= days <= 0x1_0000_0000_0000,
        ;
    }
}

proof fn lemma_year_of_era(doe: int)
    requires
        0 <= doe < 146097,
    ensures
        0 <= (doe - doe / 1460 + doe / 36524 - doe / 146096) / 365 <= 399,
        0 <= doe - (365 * ((doe - doe / 1460 + doe / 36524 - doe / 146096) / 365) + ((doe - doe / 1460
            + doe / 36524 - doe / 146096) / 365) / 4 - ((doe - doe / 1460 + doe / 36524 - doe / 146096)
            / 365) / 100) <= 365,
{
    let a = doe / 1460;
    let c = doe / 36524;
    let d = doe / 146096;
    assert(0 <= a <= 100) by (nonlinear_arith)
        requires
            0 <= doe < 146097,
            a == doe / 1460,
    ;
    assert(0 <= c <= 4) by (nonlinear_arith)
        requires
            0 <= doe < 146097,
            c == doe / 36524,
    ;
    assert(0 <= d <= 1) by (nonlinear_arith)
        requires
            0 <= doe < 146097,
            d == doe / 146096,
    ;
    let n = doe - a + c - d;
    let yoe = n / 365;
    assert(0 <= n < 146097) by (nonlinear_arith)
        requires
            0 <= doe < 146097,
            a == doe / 1460,
            c == doe / 36524,
            d == doe / 146096,
            n == doe - a + c - d,
            0 <= c <= 4,
            0 <= d <= 1,
            0 <= a <= 100,
    ;
    lemma_day_of_year(doe, yoe);
}

/// The day of the year within an era stays within the 366 days a March-based
/// year can have.
proof fn lemma_day_of_year(doe: int, yoe: int)
    requires
        0 <= doe < 146097,
        yoe == (doe - doe / 1460 + doe / 36524 - doe / 146096) / 365,
    ensures
        0 <= doe - (365 * yoe + yoe / 4 - yoe / 100) <= 365,
        0 <= yoe <= 399,
{
    // The era is four centuries: 146097 days. Splitting the day of the era
    // into the centuries and four-year cycles before it gives both bounds.
    let q = doe / 36524;
    let c4 = doe / 146096;
    let k = doe / 1460;
    let n = doe - k + q - c4;
    assert(0 <= k <= 100 && 0 <= q <= 4 && 0 <= c4 <= 1) by (nonlinear_arith)
        requires
            0 <= doe < 146097,
            k == doe / 1460,
            q == doe / 36524,
            c4 == doe / 146096,
    ;
    lemma_doy_bounds_by_cases(doe);
}

/// Checked over every day of an era, four years at a time: the formula's day
/// of the year never leaves `0..=365`.
proof fn lemma_doy_bounds_by_cases(doe: int)
    requires
        0 <= doe < 146097,
    ensures
        ({
            let yoe = (doe - doe / 1460 + doe / 36524 - doe / 146096) / 365;
            &&& 0 <= doe - (365 * yoe + yoe / 4 - yoe / 100) <= 365
            &&& 0 <= yoe <= 399
        }),
{
    // doe = 36524 * c + 1461 * f + r with c the century, f the four-year
    // cycle within it, and r the day within the cycle.
    let c = if doe == 146096 {
        3
    } else {
        doe / 36524
    };
    let rest = doe - 36524 * c;
    let f = rest / 1461;
    let r = rest % 1461;
    assert(0 <= c <= 3 && 0 <= rest <= 36524) by (nonlinear_arith)
        requires
            0 <= doe < 146097,
            c == (if doe == 146096 {
                3
            } else {
                doe / 36524
            }),
            rest == doe - 36524 * c,
    ;
    assert(0 <= f <= 24 && 0 <= r < 1461 && rest == 1461 * f + r) by (nonlinear_arith)
        requires
            0 <= rest <= 36524,
            f == rest / 1461,
            r == rest % 1461,
    ;
    lemma_doy_closed_form(doe, c, f, r);
}

proof fn lemma_doy_closed_form(doe: int, c: int, f: int, r: int)
    requires
        0 <= doe < 146097,
        0 <= c <= 3,
        0 <= f <= 24,
        0 <= r < 1461,
        doe == 36524 * c + 1461 * f + r,
        doe != 146096 ==> c == doe / 36524,
        doe == 146096 ==> c == 3,
    ensures
        ({
            let yoe = (doe - doe / 1460 + doe / 36524 - doe / 146096) / 365;
            &&& 0 <= doe - (365 * yoe + yoe / 4 - yoe / 100) <= 365
            &&& 0 <= yoe <= 399
        }),
{
    let a = doe / 1460;
    let q = doe / 36524;
    let d = doe / 146096;
    let y = if r == 1460 {
        3
    } else {
        r / 365
    };
    assert(0 <= y <= 3) by (nonlinear_arith)
        requires
            0 <= r < 1461,
            y == (if r == 1460 {
                3
            } else {
                r / 365
            }),
    ;
    // The formula's year of the era is 100c + 4f + y.
    let yoe = (doe - a + q - d) / 365;
    assert(yoe == 100 * c + 4 * f + y) by (nonlinear_arith)
        requires
            0 <= doe < 146097,
            0 <= c <= 3,
            0 <= f <= 24,
            0 <= r < 1461,
            doe == 36524 * c + 1461 * f + r,
            doe != 146096 ==> c == doe / 36524,
            doe == 146096 ==> c == 3,
            a == doe / 1460,
            q == doe / 36524,
            d == doe / 146096,
            yoe == (doe - a + q - d) / 365,
            y == (if r == 1460 {
                3
            } else {
                r / 365
            }),
            0 <= y <= 3,
    ;
    assert(0 <= yoe <= 399);
    assert(yoe / 4 == 25 * c + f && yoe / 100 == c) by (nonlinear_arith)
        requires
            yoe == 100 * c + 4 * f + y,
            0 <= c <= 3,
            0 <= f <= 24,
            0 <= y <= 3,
    ;
    assert(0 <= doe - (365 * yoe + yoe / 4 - yoe / 100) <= 365) by (nonlinear_arith)
        requires
            yoe == 100 * c + 4 * f + y,
            yoe / 4 == 25 * c + f,
            yoe / 100 == c,
            doe == 36524 * c + 1461 * f + r,
            0 <= r < 1461,
            y == (if r == 1460 {
                3
            } else {
                r / 365
            }),
    ;
}

/// The month index from March stays within the year, and the day it leaves
/// falls within the month.
proof fn lemma_month_prime(doy: int)
    requires
        0 <= doy <= 365,
    ensures
        0 <= (5 * doy + 2) / 153 <= 11,
        1 <= doy - (153 * ((5 * doy + 2) / 153) + 2) / 5 + 1 <= 31,
{
    let mp = (5 * doy + 2) / 153;
    assert(0 <= mp <= 11) by (nonlinear_arith)
        requires
            0 <= doy <= 365,
            mp == (5 * doy + 2) / 153,
    ;
    let start = (153 * mp + 2) / 5;
    assert(start <= doy && doy - start <= 30) by (nonlinear_arith)
        requires
            0 <= doy <= 365,
            0 <= mp <= 11,
            mp == (5 * doy + 2) / 153,
            start == (153 * mp + 2) / 5,
    ;
}

// ---------------------------------------------------------------------------
// The calendar, stated directly
// ---------------------------------------------------------------------------

/// A Gregorian leap year: divisible by four, and not by a hundred unless by
/// four hundred.
pub open spec fn is_leap_year(y: int) -> bool {
    y % 4 == 0 && (y % 100 != 0 || y % 400 == 0)
}

/// The days in month `m` (1 to 12) of year `y`.
pub open spec fn month_length(y: int, m: int) -> int {
    if m == 2 {
        if is_leap_year(y) {
            29
        } else {
            28
        }
    } else if m == 4 || m == 6 || m == 9 || m == 11 {
        30
    } else {
        31
    }
}

/// How many leap years lie in `0..y`, counted negatively below zero.
pub open spec fn leap_years_before(y: int) -> int {
    (y + 3) / 4 - (y + 99) / 100 + (y + 399) / 400
}

/// The days of year `y` before the first of month `m`.
pub open spec fn days_before_month(y: int, m: int) -> int {
    let common: int = if m <= 1 {
        0
    } else if m == 2 {
        31
    } else if m == 3 {
        59
    } else if m == 4 {
        90
    } else if m == 5 {
        120
    } else if m == 6 {
        151
    } else if m == 7 {
        181
    } else if m == 8 {
        212
    } else if m == 9 {
        243
    } else if m == 10 {
        273
    } else if m == 11 {
        304
    } else {
        334
    };
    common + if m > 2 && is_leap_year(y) {
        1int
    } else {
        0
    }
}

/// The number of days from 1970-01-01 to the date (`y`, `m`, `d`), counted
/// year by year and month by month.
pub open spec fn days_from_civil(y: int, m: int, d: int) -> int {
    365 * (y - 1970) + leap_years_before(y) - leap_years_before(1970) + days_before_month(y, m) + d - 1
}

/// Where a day of the era falls: the year of the era, and the day of that
/// March-based year, which is its last day only when the following calendar
/// year is a leap year.
proof fn lemma_era_day(doe: int)
    requires
        0 <= doe < 146097,
    ensures
        ({
            let yoe = (doe - doe / 1460 + doe / 36524 - doe / 146096) / 365;
            let doy = doe - (365 * yoe + yoe / 4 - yoe / 100);
            &&& 0 <= yoe <= 399
            &&& 0 <= doy <= 365
            &&& doy == 365 ==> is_leap_year(yoe + 1)
        }),
{
    let c = if doe == 146096 {
        3
    } else {
        doe / 36524
    };
    let rest = doe - 36524 * c;
    let f = rest / 1461;
    let r = rest % 1461;
    assert(0 <= c <= 3 && 0 <= rest <= 36524) by (nonlinear_arith)
        requires
            0 <= doe < 146097,
            c == (if doe == 146096 {
                3
            } else {
                doe / 36524
            }),
            rest == doe - 36524 * c,
    ;
    assert(doe != 146096 ==> rest < 36524) by (nonlinear_arith)
        requires
            0 <= doe < 146097,
            doe != 146096 ==> c == doe / 36524,
            rest == doe - 36524 * c,
    ;
    assert(0 <= f <= 24 && 0 <= r < 1461 && rest == 1461 * f + r) by (nonlinear_arith)
        requires
            0 <= rest <= 36524,
            f == rest / 1461,
            r == rest % 1461,
    ;
    lemma_doy_closed_form(doe, c, f, r);
    let a = doe / 1460;
    let q = doe / 36524;
    let d = doe / 146096;
    let y = if r == 1460 {
        3
    } else {
        r / 365
    };
    assert(0 <= y <= 3) by (nonlinear_arith)
        requires
            0 <= r < 1461,
            y == (if r == 1460 {
                3
            } else {
                r / 365
            }),
    ;
    let yoe = (doe - a + q - d) / 365;
    assert(yoe == 100 * c + 4 * f + y) by (nonlinear_arith)
        requires
            0 <= doe < 146097,
            0 <= c <= 3,
            0 <= f <= 24,
            0 <= r < 1461,
            doe == 36524 * c + 1461 * f + r,
            doe != 146096 ==> c == doe / 36524,
            doe == 146096 ==> c == 3,
            a == doe / 1460,
            q == doe / 36524,
            d == doe / 146096,
            yoe == (doe - a + q - d) / 365,
            y == (if r == 1460 {
                3
            } else {
                r / 365
            }),
            0 <= y <= 3,
    ;
    assert(yoe / 4 == 25 * c + f && yoe / 100 == c) by (nonlinear_arith)
        requires
            yoe == 100 * c + 4 * f + y,
            0 <= c <= 3,
            0 <= f <= 24,
            0 <= y <= 3,
    ;
    let doy = doe - (365 * yoe + yoe / 4 - yoe / 100);
    assert(doy == r - 365 * y);
    if doy == 365 {
        assert(r == 1460) by (nonlinear_arith)
            requires
                doy == r - 365 * y,
                doy == 365,
                0 <= r < 1461,
                y == (if r == 1460 {
                    3
                } else {
                    r / 365
                }),
        ;
        assert(yoe + 1 == 100 * c + 4 * f + 4);
        if f == 24 {
            assert(rest == 36524);
            assert(doe == 146096);
            assert(yoe + 1 == 400);
        } else {
            assert((yoe + 1) % 100 != 0) by (nonlinear_arith)
                requires
                    yoe + 1 == 100 * c + 4 * f + 4,
                    0 <= f < 24,
                    0 <= c <= 3,
            ;
        }
        assert((yoe + 1) % 4 == 0) by (nonlinear_arith)
            requires
                yoe + 1 == 100 * c + 4 * f + 4,
        ;
    }
}

/// Shifting a year by whole 400-year eras shifts the leap years before it by
/// 97 per era and leaves whether it is a leap year alone.
proof fn lemma_era_shift(y: int, e: int)
    ensures
        leap_years_before(y + 400 * e) == leap_years_before(y) + 97 * e,
        is_leap_year(y + 400 * e) == is_leap_year(y),
{
    assert((y + 400 * e + 3) / 4 == (y + 3) / 4 + 100 * e) by (nonlinear_arith);
    assert((y + 400 * e + 99) / 100 == (y + 99) / 100 + 4 * e) by (nonlinear_arith);
    assert((y + 400 * e + 399) / 400 == (y + 399) / 400 + e) by (nonlinear_arith);
    assert((y + 400 * e) % 4 == y % 4) by (nonlinear_arith);
    assert((y + 400 * e) % 100 == y % 100) by (nonlinear_arith);
    assert((y + 400 * e) % 400 == y % 400) by (nonlinear_arith);
}

/// The date `civil_spec` gives is the calendar date `days` days after
/// 1970-01-01: a month from 1 to 12, a day within that month's length, and a
/// day count, year by year and month by month, of exactly `days`.
pub proof fn lemma_civil_is_the_calendar(days: int)
    ensures
        ({
            let (y, m, d) = civil_spec(days);
            &&& 1 <= m <= 12
            &&& 1 <= d <= month_length(y, m as int)
            &&& days_from_civil(y, m as int, d as int) == days
        }),
{
    let z = days + 719468;
    let era = z / 146097;
    let doe = z % 146097;
    assert(z == 146097 * era + doe && 0 <= doe < 146097) by (nonlinear_arith)
        requires
            era == z / 146097,
            doe == z % 146097,
    ;
    lemma_era_day(doe);
    let yoe = (doe - doe / 1460 + doe / 36524 - doe / 146096) / 365;
    let year = yoe + era * 400;
    let doy = doe - (365 * yoe + yoe / 4 - yoe / 100);
    lemma_month_prime(doy);
    let mp = (5 * doy + 2) / 153;
    let start = (153 * mp + 2) / 5;
    let d = doy - start + 1;
    let m = if mp < 10 {
        mp + 3
    } else {
        mp - 9
    };
    let cy = if m <= 2 {
        year + 1
    } else {
        year
    };
    assert(civil_spec(days) == (cy, m as nat, d as nat));
    // Within a March-based year, each month's first day and length.
    assert(
        (mp == 0 && start == 0 && doy < 31) || (mp == 1 && start == 31 && doy < 61) || (mp == 2 && start == 61
            && doy < 92) || (mp == 3 && start == 92 && doy < 122) || (mp == 4 && start == 122 && doy < 153)
            || (mp == 5 && start == 153 && doy < 184) || (mp == 6 && start == 184 && doy < 214) || (mp == 7
            && start == 214 && doy < 245) || (mp == 8 && start == 245 && doy < 275) || (mp == 9 && start
            == 275 && doy < 306) || (mp == 10 && start == 306 && doy < 337) || (mp == 11 && start == 337
            && doy <= 365)
    ) by (nonlinear_arith)
        requires
            0 <= doy <= 365,
            mp == (5 * doy + 2) / 153,
            start == (153 * mp + 2) / 5,
    ;
    // The leap years through the March-based year: those before it, plus the
    // calendar year its February belongs to.
    lemma_era_shift(yoe + 1, era);
    assert(leap_years_before(yoe + 1) == yoe / 4 - yoe / 100 + 1) by (nonlinear_arith)
        requires
            0 <= yoe <= 399,
    ;
    assert(leap_years_before(1970) == 478);
    assert(leap_years_before(year + 1) == leap_years_before(year) + if is_leap_year(year) {
        1int
    } else {
        0
    }) by (nonlinear_arith);
    if m <= 2 {
        assert(is_leap_year(cy) == is_leap_year(yoe + 1));
        if mp == 11 && doy == 365 {
            assert(is_leap_year(yoe + 1));
        }
    } else {
        assert(is_leap_year(year + 1) == is_leap_year(yoe + 1));
    }
}

fn floor_div_mod(a: i64, b: i64) -> (r: (i64, i64))
    requires
        0 < b <= 1_000_000,
    ensures
        r.0 == a / b,
        r.1 == a % b,
{
    let q = match a.checked_div_euclid(b) {
        Some(q) => q,
        None => 0,
    };
    let m = match a.checked_rem_euclid(b) {
        Some(m) => m,
        None => 0,
    };
    proof {
        assert(i64::MIN <= a / b <= i64::MAX) by (nonlinear_arith)
            requires
                0 < b <= 1_000_000,
                i64::MIN <= a <= i64::MAX,
        ;
    }
    (q, m)
}

/// Howard Hinnant's `civil_from_days`, which is exact for every date this
/// library can be handed and needs no table.
pub fn civil_from_days(days: i64) -> (r: (i64, u32, u32))
    requires
        days <= i64::MAX - 719468,
    ensures
        1 <= r.1 <= 12,
        1 <= r.2 <= month_length(r.0 as int, r.1 as int),
        days_from_civil(r.0 as int, r.1 as int, r.2 as int) == days,
        r.0 == civil_spec(days as int).0,
        r.1 == civil_spec(days as int).1,
        r.2 == civil_spec(days as int).2,
{
    proof {
        lemma_civil_ranges(days as int);
        lemma_civil_is_the_calendar(days as int);
    }
    let z: i64 = days + 719_468;
    let (era, day_of_era) = floor_div_mod(z, 146_097);
    assert(0 <= day_of_era < 146097);
    let doe = day_of_era as u64;
    proof {
        lemma_year_of_era(day_of_era as int);
    }
    let year_of_era: u64 = (doe - doe / 1_460 + doe / 36_524 - doe / 146_096) / 365;
    assert(era * 400 <= i64::MAX && era * 400 >= i64::MIN) by (nonlinear_arith)
        requires
            era == z / 146097,
            i64::MIN <= z <= i64::MAX,
    ;
    let year: i64 = (year_of_era as i64) + era * 400;
    let day_of_year: u64 = doe - (365 * year_of_era + year_of_era / 4 - year_of_era / 100);
    proof {
        lemma_month_prime(day_of_year as int);
    }
    let month_prime: u64 = (5 * day_of_year + 2) / 153;
    let day = (day_of_year - (153 * month_prime + 2) / 5 + 1) as u32;
    let month = if month_prime < 10 {
        month_prime + 3
    } else {
        month_prime - 9
    } as u32;
    assert(year + 1 <= i64::MAX) by (nonlinear_arith)
        requires
            year == year_of_era + era * 400,
            0 <= year_of_era <= 399,
            era == z / 146097,
            z <= i64::MAX,
    ;
    (if month <= 2 {
        year + 1
    } else {
        year
    }, month, day)
}

} // verus!
