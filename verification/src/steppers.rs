//! How the rule editor's stepper buttons move a value.
//!
//! Each button moves a value by a fixed step and stops at the value's bounds
//! rather than wrapping: a priority stays within `0..=255`, a percentage
//! within `0..=100`, a battery range keeps its floor at or below its ceiling,
//! and a watch window stays between one second and the longest window a rule
//! may name.

use vstd::prelude::*;

verus! {

/// The step of the priority buttons in the rule list.
pub const LIST_PRIORITY_STEP: u8 = 10;

/// The step of the priority buttons in the rule editor.
pub const EDITOR_PRIORITY_STEP: u8 = 5;

/// The step of every percentage button.
pub const PERCENT_STEP: u8 = 5;

/// The step of the throughput buttons, in KiB/s.
pub const THROUGHPUT_STEP: u64 = 50;

/// The step of the watch-window buttons, in seconds.
pub const WATCH_WINDOW_STEP: u64 = 60;

/// A priority lowered by `step`, stopping at zero.
pub fn priority_lowered(priority: u8, step: u8) -> (p: u8)
    ensures
        p == (if priority >= step {
            priority - step
        } else {
            0
        }),
{
    priority.saturating_sub(step)
}

/// A priority raised by `step`, stopping at the highest priority.
pub fn priority_raised(priority: u8, step: u8) -> (p: u8)
    ensures
        p == (if priority + step <= u8::MAX {
            priority + step
        } else {
            u8::MAX as int
        }),
{
    priority.saturating_add(step)
}

/// A percentage lowered by one step, stopping at zero.
pub fn percent_lowered(percent: u8) -> (p: u8)
    ensures
        p == (if percent >= PERCENT_STEP {
            percent - PERCENT_STEP
        } else {
            0
        }),
{
    percent.saturating_sub(PERCENT_STEP)
}

/// A percentage raised by one step, stopping at a hundred.
pub fn percent_raised(percent: u8) -> (p: u8)
    requires
        percent + PERCENT_STEP <= u8::MAX,
    ensures
        p == (if percent + PERCENT_STEP <= 100 {
            percent + PERCENT_STEP
        } else {
            100
        }),
{
    let raised = percent + PERCENT_STEP;
    if raised < 100 {
        raised
    } else {
        100
    }
}

/// The floor of a battery range raised by one step, stopping at the
/// ceiling, so the range never turns inside out.
pub fn battery_floor_raised(at_least: u8, at_most: u8) -> (p: u8)
    requires
        at_least + PERCENT_STEP <= u8::MAX,
    ensures
        p == (if at_least + PERCENT_STEP <= at_most {
            at_least + PERCENT_STEP
        } else {
            at_most as int
        }),
        at_least <= at_most ==> at_least <= p <= at_most,
{
    let raised = at_least + PERCENT_STEP;
    if raised < at_most {
        raised
    } else {
        at_most
    }
}

/// The ceiling of a battery range lowered by one step, stopping at the
/// floor, so the range never turns inside out.
pub fn battery_ceiling_lowered(at_least: u8, at_most: u8) -> (p: u8)
    ensures
        ({
            let lowered: int = if at_most >= PERCENT_STEP {
                at_most - PERCENT_STEP
            } else {
                0
            };
            p == if lowered >= at_least {
                lowered
            } else {
                at_least as int
            }
        }),
        at_least <= at_most ==> at_least <= p <= at_most,
{
    let lowered = at_most.saturating_sub(PERCENT_STEP);
    if lowered > at_least {
        lowered
    } else {
        at_least
    }
}

/// A throughput threshold lowered by one step, stopping at zero.
pub fn throughput_lowered(kibibytes_per_second: u64) -> (k: u64)
    ensures
        k == (if kibibytes_per_second >= THROUGHPUT_STEP {
            kibibytes_per_second - THROUGHPUT_STEP
        } else {
            0
        }),
{
    kibibytes_per_second.saturating_sub(THROUGHPUT_STEP)
}

/// A throughput threshold raised by one step.
pub fn throughput_raised(kibibytes_per_second: u64) -> (k: u64)
    requires
        kibibytes_per_second + THROUGHPUT_STEP <= u64::MAX,
    ensures
        k == kibibytes_per_second + THROUGHPUT_STEP,
{
    kibibytes_per_second + THROUGHPUT_STEP
}

/// A watch window shortened by one step, never below one second.
pub fn window_shortened(within_seconds: u64) -> (w: u64)
    ensures
        w == (if within_seconds >= WATCH_WINDOW_STEP + 1 {
            within_seconds - WATCH_WINDOW_STEP
        } else {
            1
        }),
        w >= 1,
{
    let shorter = within_seconds.saturating_sub(WATCH_WINDOW_STEP);
    if shorter > 1 {
        shorter
    } else {
        1
    }
}

/// A watch window lengthened by one step, never past `longest`.
pub fn window_lengthened(within_seconds: u64, longest: u64) -> (w: u64)
    requires
        within_seconds + WATCH_WINDOW_STEP <= u64::MAX,
    ensures
        w == (if within_seconds + WATCH_WINDOW_STEP <= longest {
            within_seconds + WATCH_WINDOW_STEP
        } else {
            longest as int
        }),
        w <= longest,
{
    let longer = within_seconds + WATCH_WINDOW_STEP;
    if longer < longest {
        longer
    } else {
        longest
    }
}

} // verus!
