//! The local wall clock, for time-schedule conditions.
//!
//! Turning a Unix timestamp into "Tuesday, 14:30 local" needs the zone
//! database the C library already knows (`TZ`, `/etc/localtime`, and the
//! daylight-saving rules); the broken-down time it hands back is read here.
//! This provider does no I/O of its own, which is why its cadence is free.

use vstd::prelude::*;

use crate::provider::{Answer, Cadence, ProviderKind, unavailable};

verus! {

/// A day of the week, Monday first as ISO 8601 orders them.
#[derive(Clone, Copy, Debug, PartialEq, Eq, Structural)]
pub enum Weekday {
    Monday,
    Tuesday,
    Wednesday,
    Thursday,
    Friday,
    Saturday,
    Sunday,
}

pub open spec fn weekday_index(d: Weekday) -> nat {
    match d {
        Weekday::Monday => 0,
        Weekday::Tuesday => 1,
        Weekday::Wednesday => 2,
        Weekday::Thursday => 3,
        Weekday::Friday => 4,
        Weekday::Saturday => 5,
        Weekday::Sunday => 6,
    }
}

pub open spec fn weekday_at(i: int) -> Weekday {
    if i == 0 {
        Weekday::Monday
    } else if i == 1 {
        Weekday::Tuesday
    } else if i == 2 {
        Weekday::Wednesday
    } else if i == 3 {
        Weekday::Thursday
    } else if i == 4 {
        Weekday::Friday
    } else if i == 5 {
        Weekday::Saturday
    } else {
        Weekday::Sunday
    }
}

impl Weekday {
    /// Monday is 0 and Sunday is 6: Sunday is the last day of the week.
    pub fn index(self) -> (i: u8)
        ensures
            i == weekday_index(self),
            i < 7,
    {
        match self {
            Weekday::Monday => 0,
            Weekday::Tuesday => 1,
            Weekday::Wednesday => 2,
            Weekday::Thursday => 3,
            Weekday::Friday => 4,
            Weekday::Saturday => 5,
            Weekday::Sunday => 6,
        }
    }

    /// The day before, wrapping from Monday to Sunday.
    pub fn previous(self) -> (d: Weekday)
        ensures
            weekday_index(d) == (weekday_index(self) + 6) % 7,
    {
        match self {
            Weekday::Monday => Weekday::Sunday,
            Weekday::Tuesday => Weekday::Monday,
            Weekday::Wednesday => Weekday::Tuesday,
            Weekday::Thursday => Weekday::Wednesday,
            Weekday::Friday => Weekday::Thursday,
            Weekday::Saturday => Weekday::Friday,
            Weekday::Sunday => Weekday::Saturday,
        }
    }
}

/// A moment in the local week, to the minute.
#[derive(Clone, Copy, Debug, PartialEq, Eq, Structural)]
pub struct LocalTime {
    pub weekday: Weekday,
    /// Minutes since local midnight.
    pub minute_of_day: u16,
}

/// The weekday a C `tm_wday` names, Sunday being 0 there.
pub open spec fn weekday_of_tm(tm_wday: i32) -> Option<Weekday> {
    if 0 <= tm_wday <= 6 {
        Some(weekday_at((tm_wday + 6) % 7))
    } else {
        None
    }
}

/// The local time a broken-down C time names: the weekday from `tm_wday`, and
/// the minute of the day from the hour and minute, a negative field counting
/// as zero. `None` for a weekday out of range or a minute past what 16 bits
/// hold.
pub open spec fn local_time_spec(tm_wday: i32, tm_hour: i32, tm_min: i32) -> Option<LocalTime> {
    let hour: int = if tm_hour > 0 {
        tm_hour as int
    } else {
        0
    };
    let minute: int = if tm_min > 0 {
        tm_min as int
    } else {
        0
    };
    let total = hour * 60 + minute;
    match weekday_of_tm(tm_wday) {
        None => None,
        Some(weekday) => if total <= u16::MAX {
            Some(LocalTime { weekday, minute_of_day: total as u16 })
        } else {
            None
        },
    }
}

/// Reads the weekday and minute of the day out of what `localtime_r` wrote.
pub fn local_time_from_parts(tm_wday: i32, tm_hour: i32, tm_min: i32) -> (r: Option<LocalTime>)
    ensures
        r == local_time_spec(tm_wday, tm_hour, tm_min),
{
    let weekday = match tm_wday {
        0 => Weekday::Sunday,
        1 => Weekday::Monday,
        2 => Weekday::Tuesday,
        3 => Weekday::Wednesday,
        4 => Weekday::Thursday,
        5 => Weekday::Friday,
        6 => Weekday::Saturday,
        _ => return None,
    };
    let hour: i64 = if tm_hour > 0 {
        tm_hour as i64
    } else {
        0
    };
    let minute: i64 = if tm_min > 0 {
        tm_min as i64
    } else {
        0
    };
    let total: i64 = hour * 60 + minute;
    if total > 0xffff {
        return None;
    }
    Some(LocalTime { weekday, minute_of_day: total as u16 })
}

/// The stable key reported when the C library cannot place a timestamp.
pub open spec fn key_clock_out_of_range() -> Seq<char> {
    "awake.provider.clock_out_of_range"@
}

/// Answers time-schedule conditions.
#[derive(Clone, Copy, Debug, Default, PartialEq, Eq, Structural)]
pub struct ScheduleProvider;

impl ScheduleProvider {
    pub fn kind(&self) -> (k: ProviderKind)
        ensures
            k == ProviderKind::TimeSchedule,
    {
        ProviderKind::TimeSchedule
    }

    /// Free: the conversion is arithmetic, so a schedule condition costs
    /// nothing no matter how many rules use one.
    pub fn cadence(&self) -> (c: Cadence)
        ensures
            c == Cadence::Free,
    {
        Cadence::Free
    }

    /// What one conversion answers. `None` means the C library refused the
    /// timestamp, which happens outside what the platform's `time_t` holds.
    pub fn answer(&self, local: Option<LocalTime>) -> (a: Answer<LocalTime>)
        ensures
            match local {
                Some(t) => a == Answer::<LocalTime>::Known(t),
                None => a matches Answer::Unavailable { explanation } && explanation@
                    == key_clock_out_of_range(),
            },
    {
        match local {
            Some(t) => Answer::Known(t),
            None => unavailable("awake.provider.clock_out_of_range"),
        }
    }
}

/// The signed timestamp a Unix time is handed to the C library as, or `None`
/// past what a signed 64-bit integer holds: such a time is refused, not
/// wrapped.
pub fn c_timestamp(unix_seconds: u64) -> (t: Option<i64>)
    ensures
        unix_seconds <= i64::MAX ==> t == Some(unix_seconds as i64),
        unix_seconds > i64::MAX ==> t is None,
{
    if unix_seconds <= 0x7fff_ffff_ffff_ffff {
        Some(unix_seconds as i64)
    } else {
        None
    }
}

} // verus!
