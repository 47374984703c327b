//! UTC days.
use vstd::prelude::*;
use crate::clock::{FIRST_SECOND, LAST_SECOND};
use crate::key::Num;
use crate::models::Candle;

verus! {

/// A UTC day's aggregate.
#[derive(Debug, Clone, Copy, PartialEq, Eq, Structural)]
pub struct Day {
    pub day_ms: i64,
    pub open: Num,
    pub high: Num,
    pub low: Num,
    pub close: Num,
}

/// The millisecond a second's UTC day starts at.
pub open spec fn day_start(secs: int) -> int {
    secs / 86_400 * 86_400_000
}

/// A day of one bar.
pub open spec fn day_of(c: Candle, day_ms: i64) -> Day {
    Day { day_ms, open: c.open, high: c.high, low: c.low, close: c.close }
}

/// The day in progress once a bar is in, and the day that the bar ended.
pub open spec fn day_after(forming: Option<Day>, c: Candle, secs: int) -> (Day, Option<Day>) {
    let day_ms = day_start(secs) as i64;
    match forming {
        Some(d) if d.day_ms == day_ms => (
            Day {
                high: if c.high > d.high {
                    c.high
                } else {
                    d.high
                },
                low: if c.low < d.low {
                    c.low
                } else {
                    d.low
                },
                close: c.close,
                ..d
            },
            None,
        ),
        Some(d) => (day_of(c, day_ms), Some(d)),
        None => (day_of(c, day_ms), None),
    }
}

/// Take a bar into the day in progress; a bar of another day ends it.
pub fn day_process(forming: Option<Day>, c: &Candle, secs: i64) -> (r: (Day, Option<Day>))
    requires
        FIRST_SECOND <= secs <= LAST_SECOND,
    ensures
        r == day_after(forming, *c, secs as int),
{
    let day_ms: i64 = if secs >= 0 {
        (secs as u64 / 86_400 * 86_400_000) as i64
    } else {
        -((((-secs) as u64 + 86_399) / 86_400 * 86_400_000) as i64)
    };
    let fresh = Day { day_ms, open: c.open, high: c.high, low: c.low, close: c.close };
    match forming {
        Some(d) => {
            if d.day_ms == day_ms {
                let mut next = d;
                if c.high > d.high {
                    next.high = c.high;
                }
                if c.low < d.low {
                    next.low = c.low;
                }
                next.close = c.close;
                (next, None)
            } else {
                (fresh, Some(d))
            }
        },
        None => (fresh, None),
    }
}

/// A day holds the bars of one UTC day: the second lies in the day that starts
/// at its mark, and marks are a whole number of days from the epoch.
pub proof fn law_days_are_utc_days(secs: int)
    ensures
        day_start(secs) <= secs * 1000 < day_start(secs) + 86_400_000,
        day_start(secs) % 86_400_000 == 0,
{
}

/// A day's high is never below, and its low never above, any of its bars'.
pub proof fn law_a_day_covers_its_bars(forming: Option<Day>, c: Candle, secs: int)
    ensures
        ({
            let d = day_after(forming, c, secs).0;
            &&& d.high >= c.high
            &&& d.low <= c.low
            &&& d.close == c.close
            &&& (forming matches Some(f) ==> f.day_ms == d.day_ms ==> d.high >= f.high && d.low
                <= f.low && d.open == f.open)
        }),
{
}

} // verus!
