//! The reporting window, and where loading starts.
use vstd::prelude::*;
use chrono::{Datelike, NaiveDate};
use crate::clock::{Stamp, DATE, DAY_SECS, EPOCH_DAY, FIRST_DAY, LAST_DAY, SECOND};

verus! {

/// The day number that a text read by a pattern gives; 0001-01-01 is day one.
pub uninterp spec fn parsed_day(s: Seq<char>, pattern: Seq<char>) -> Option<i32>;

/// `NaiveDate::parse_from_str` of chrono, then `Datelike::num_days_from_ce`:
/// claimed to be a function of the text and the pattern, and, where the text
/// reads, a day on chrono's calendar.
#[verifier::external_body]
fn parse_day(s: &str, pattern: &str) -> (r: Option<i32>)
    ensures
        r == parsed_day(s@, pattern@),
        r matches Some(d) ==> FIRST_DAY <= d <= LAST_DAY,
{
    match NaiveDate::parse_from_str(s, pattern) {
        Ok(d) => Some(d.num_days_from_ce()),
        Err(_) => None,
    }
}

/// Why there is no window.
#[derive(Debug, Clone, Copy, PartialEq, Eq, Structural)]
pub enum WindowError {
    /// The first day is no date.
    From,
    /// The last day is no date.
    To,
    /// A bound lies off the calendar.
    Range,
}

/// A reporting window.
#[derive(Debug, Clone, Copy, PartialEq, Eq, Structural)]
pub struct Window {
    pub start: Option<Stamp>,
    /// The midnight after the last day.
    pub end: Option<Stamp>,
    /// Candles load from here; what is signalled before `start` is not
    /// reported.
    pub load_start: Option<Stamp>,
}

/// The midnight a day starts at.
pub open spec fn midnight(day: int) -> int {
    (day - EPOCH_DAY) * DAY_SECS * SECOND
}

/// A day is on the calendar.
pub open spec fn is_day(day: int) -> bool {
    FIRST_DAY <= day <= LAST_DAY
}

/// Days of which the bounds of a window are midnights.
pub open spec fn window_days(from: Option<i32>, to: Option<i32>, warmup_days: int) -> Option<
    Window,
> {
    let first = from->0 as int;
    let past = to->0 + 1;
    let load = first - warmup_days;
    if (from is Some ==> is_day(first) && is_day(load)) && (to is Some ==> is_day(past)) {
        Some(
            Window {
                start: match from {
                    Some(_) => Some(midnight(first) as i128),
                    None => None,
                },
                end: match to {
                    Some(_) => Some(midnight(past) as i128),
                    None => None,
                },
                load_start: match from {
                    Some(_) => Some(midnight(load) as i128),
                    None => None,
                },
            },
        )
    } else {
        None
    }
}

/// The window of what was read from the two bounds; no bound is read as no
/// bound.
pub open spec fn window_of(
    from: Option<Option<i32>>,
    to: Option<Option<i32>>,
    warmup_days: int,
) -> Result<Window, WindowError> {
    if from == Some(None::<i32>) {
        Err(WindowError::From)
    } else if to == Some(None::<i32>) {
        Err(WindowError::To)
    } else {
        let f = match from {
            Some(d) => d,
            None => None,
        };
        let t = match to {
            Some(d) => d,
            None => None,
        };
        match window_days(f, t, warmup_days) {
            Some(w) => Ok(w),
            None => Err(WindowError::Range),
        }
    }
}

fn start_of(day: i64) -> (r: Option<Stamp>)
    ensures
        r is Some <==> is_day(day as int),
        r matches Some(at) ==> at == midnight(day as int),
{
    if day < FIRST_DAY as i64 || day > LAST_DAY as i64 {
        None
    } else {
        Some((day as i128 - EPOCH_DAY as i128) * 86_400 * SECOND)
    }
}

/// The window of what was read from the two bounds. Warming up moves where
/// loading starts, and leaves the window where it is.
pub fn make_window(from: Option<Option<i32>>, to: Option<Option<i32>>, warmup_days: u32) -> (r:
    Result<Window, WindowError>)
    ensures
        r == window_of(from, to, warmup_days as int),
{
    let f: Option<i32> = match from {
        Some(Some(d)) => Some(d),
        Some(None) => return Err(WindowError::From),
        None => None,
    };
    let t: Option<i32> = match to {
        Some(Some(d)) => Some(d),
        Some(None) => return Err(WindowError::To),
        None => None,
    };
    let (start, load_start): (Option<Stamp>, Option<Stamp>) = match f {
        Some(d) => {
            let day: i64 = d as i64;
            match (start_of(day), start_of(day - warmup_days as i64)) {
                (Some(s), Some(l)) => (Some(s), Some(l)),
                _ => return Err(WindowError::Range),
            }
        },
        None => (None, None),
    };
    let end: Option<Stamp> = match t {
        Some(d) => match start_of(d as i64 + 1) {
            Some(e) => Some(e),
            None => return Err(WindowError::Range),
        },
        None => None,
    };
    Ok(Window { start, end, load_start })
}

/// What a bound reads as.
pub open spec fn bound_day(s: Option<String>) -> Option<Option<i32>> {
    match s {
        Some(t) => Some(parsed_day(t@, DATE@)),
        None => None,
    }
}

fn read_bound(s: &Option<String>) -> (r: Option<Option<i32>>)
    ensures
        r == bound_day(*s),
{
    match s {
        Some(t) => Some(parse_day(t.as_str(), DATE)),
        None => None,
    }
}

/// The window between two days, both included; days are written
/// `YYYY-MM-DD`.
pub fn resolve_window(from: &Option<String>, to: &Option<String>, warmup_days: u32) -> (r: Result<
    Window,
    WindowError,
>)
    ensures
        r == window_of(bound_day(*from), bound_day(*to), warmup_days as int),
{
    make_window(read_bound(from), read_bound(to), warmup_days)
}

/// Warming up never moves the reporting window, and never starts loading after
/// it.
pub proof fn law_warmup_leaves_the_window_alone(
    from: Option<Option<i32>>,
    to: Option<Option<i32>>,
    warmup_days: int,
)
    requires
        0 <= warmup_days <= u32::MAX,
        window_of(from, to, warmup_days) is Ok,
    ensures
        window_of(from, to, 0) is Ok,
        window_of(from, to, warmup_days)->Ok_0.start == window_of(from, to, 0)->Ok_0.start,
        window_of(from, to, warmup_days)->Ok_0.end == window_of(from, to, 0)->Ok_0.end,
        window_of(from, to, 0)->Ok_0.load_start == window_of(from, to, 0)->Ok_0.start,
        window_of(from, to, warmup_days)->Ok_0.start matches Some(s) ==> window_of(
            from,
            to,
            warmup_days,
        )->Ok_0.load_start matches Some(l) && l <= s,
{
    if let Some(Some(d)) = from {
        assert(midnight(d - warmup_days) <= midnight(d as int)) by (nonlinear_arith)
            requires
                0 <= warmup_days,
        {
        }
    }
}

} // verus!
