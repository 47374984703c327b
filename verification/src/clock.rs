//! Instants on the calendar, leap seconds among them.
use vstd::prelude::*;
use chrono::{Datelike, NaiveDate};

verus! {

/// An instant (UTC), as a place in the order of instants. A second since
/// 1970-01-01T00:00:00 has two thousand million places: first its nanoseconds,
/// then those of the leap second that may follow it.
pub type Stamp = i128;

/// Places in a second.
pub const SECOND: i128 = 2_000_000_000;

/// Places in a minute.
pub const MINUTE: i128 = 120_000_000_000;

/// Nanoseconds in a second.
pub const NANOS: i128 = 1_000_000_000;

/// Seconds in a day.
pub const DAY_SECS: i64 = 86_400;

/// The day number of 1970-01-01, counting 0001-01-01 as day one.
pub const EPOCH_DAY: i64 = 719_163;

/// The first day on the calendar, in the year -262143.
pub const FIRST_DAY: i32 = -95_746_129;

/// The last day on the calendar, in the year 262142.
pub const LAST_DAY: i32 = 95_745_399;

/// The second the calendar begins with.
pub const FIRST_SECOND: i64 = -8_334_601_228_800;

/// The second the calendar ends with.
pub const LAST_SECOND: i64 = 8_210_266_876_799;

/// The second an instant falls in: rounded down.
pub open spec fn unix_second(at: int) -> int {
    at / (SECOND as int)
}

/// The nanoseconds past the second an instant falls in; a thousand million or
/// more in a leap second.
pub open spec fn nano_of(at: int) -> int {
    at % (SECOND as int)
}

/// Some nanoseconds past a second are an instant on the calendar. Only the last
/// second of a minute can be followed by a leap second.
pub open spec fn is_instant(secs: int, nanos: int) -> bool {
    &&& FIRST_SECOND <= secs <= LAST_SECOND
    &&& 0 <= nanos < SECOND
    &&& (nanos >= NANOS ==> secs % 60 == 59)
}

/// An instant is on the calendar.
pub open spec fn on_calendar(at: int) -> bool {
    is_instant(unix_second(at), nano_of(at))
}

/// The instant of a second and the nanoseconds past it.
pub fn instant(secs: i64, nanos: u32) -> (r: Stamp)
    requires
        nanos < SECOND,
    ensures
        r == secs * SECOND + nanos,
        unix_second(r as int) == secs,
        nano_of(r as int) == nanos,
        on_calendar(r as int) == is_instant(secs as int, nanos as int),
{
    let r: i128 = secs as i128 * SECOND + nanos as i128;
    proof {
        lemma_parts(r as int, secs as int, nanos as int);
    }
    r
}

proof fn lemma_parts(at: int, secs: int, nanos: int)
    requires
        at == secs * 2_000_000_000 + nanos,
        0 <= nanos < 2_000_000_000,
    ensures
        unix_second(at) == secs,
        nano_of(at) == nanos,
{
}

/// The second an instant falls in: rounded down.
pub fn second_of(at: Stamp) -> (r: i128)
    ensures
        r == unix_second(at as int),
{
    if at >= 0 {
        at / SECOND
    } else {
        -1 - (-1 - at) / SECOND
    }
}

/// The nanoseconds past the second an instant falls in.
pub fn subsec_nanos(at: Stamp) -> (r: u32)
    ensures
        r == nano_of(at as int),
        r < SECOND,
{
    if at >= 0 {
        (at % SECOND) as u32
    } else {
        (SECOND - 1 - (-1 - at) % SECOND) as u32
    }
}

/// The second an instant falls in, as a machine counts seconds.
pub fn unix_seconds(at: Stamp) -> (r: i64)
    ensures
        r == unix_second(at as int) as i64,
        on_calendar(at as int) ==> r == unix_second(at as int),
{
    let s: i128 = second_of(at);
    s as i64
}

/// Whether an instant is on the calendar.
pub fn is_on_calendar(at: Stamp) -> (r: bool)
    ensures
        r == on_calendar(at as int),
{
    let s: i128 = second_of(at);
    let n: u32 = subsec_nanos(at);
    FIRST_SECOND as i128 <= s && s <= LAST_SECOND as i128 && (n < 1_000_000_000 || ((s
        - FIRST_SECOND as i128) % 60 == 59))
}

/// The instant some whole seconds later, or earlier where they are negative.
/// What starts in a leap second is counted from the second it is left by: the
/// one before it on the way on, the one after it on the way back.
pub open spec fn shifted(at: int, secs: int) -> int {
    let from = if nano_of(at) < NANOS || secs == 0 {
        at
    } else if secs > 0 {
        at - NANOS
    } else {
        at - NANOS + SECOND
    };
    from + secs * SECOND
}

/// The instant some whole seconds later, or earlier where they are negative.
pub fn shift(at: Stamp, secs: i64) -> (r: Stamp)
    requires
        on_calendar(shifted(at as int, secs as int)),
    ensures
        r == shifted(at as int, secs as int),
{
    let by: i128 = secs as i128 * SECOND;
    if subsec_nanos(at) < 1_000_000_000 || secs == 0 {
        at + by
    } else if secs > 0 {
        at - NANOS + by
    } else {
        at - NANOS + SECOND + by
    }
}

/// Whether the instant some whole seconds later is on the calendar.
pub fn is_on_calendar_after(at: Stamp, secs: i64) -> (r: bool)
    ensures
        r == on_calendar(shifted(at as int, secs as int)),
{
    let s: i128 = second_of(at);
    let n: u32 = subsec_nanos(at);
    let (from, past): (i128, u32) = if n < 1_000_000_000 || secs == 0 {
        (s, n)
    } else if secs > 0 {
        (s, n - 1_000_000_000)
    } else {
        (s + 1, n - 1_000_000_000)
    };
    let then: i128 = from + secs as i128;
    proof {
        lemma_parts(shifted(at as int, secs as int), then as int, past as int);
    }
    FIRST_SECOND as i128 <= then && then <= LAST_SECOND as i128 && (past < 1_000_000_000 || ((then
        - FIRST_SECOND as i128) % 60 == 59))
}

/// Whole seconds from one instant to another, rounded toward zero. A leap
/// second in between is counted where the day it ends goes on past it.
pub open spec fn whole_seconds(from: int, to: int) -> int {
    let (a, b) = (unix_second(to), unix_second(from));
    let (x, y) = (nano_of(to), nano_of(from));
    let (of_a, of_b) = (a % (DAY_SECS as int), b % (DAY_SECS as int));
    let leap: int = if of_a > of_b && y >= NANOS {
        1
    } else if of_a < of_b && x >= NANOS {
        -1
    } else {
        0
    };
    let secs = a - b + leap + (x - y) / (NANOS as int);
    if secs < 0 && (x - y) % (NANOS as int) > 0 {
        secs + 1
    } else {
        secs
    }
}

/// The day a second falls in, counted from the epoch.
pub fn day_number(secs: i128) -> (r: i128)
    ensures
        r == secs as int / (DAY_SECS as int),
{
    if secs >= 0 {
        secs / 86_400
    } else {
        -1 - (-1 - secs) / 86_400
    }
}

fn of_day(secs: i128) -> (r: i128)
    ensures
        r == secs as int % 86_400,
{
    if secs >= 0 {
        secs % 86_400
    } else {
        86_399 - (-1 - secs) % 86_400
    }
}

/// The second of its day an instant falls in.
pub fn second_of_day(at: Stamp) -> (r: u32)
    ensures
        r == unix_second(at as int) % (DAY_SECS as int),
        r < DAY_SECS,
{
    of_day(second_of(at)) as u32
}

/// Whole seconds from one instant to another, rounded toward zero.
pub fn seconds_between(from: Stamp, to: Stamp) -> (r: i128)
    ensures
        r == whole_seconds(from as int, to as int),
{
    let a: i128 = second_of(to);
    let b: i128 = second_of(from);
    let x: i128 = subsec_nanos(to) as i128;
    let y: i128 = subsec_nanos(from) as i128;
    let of_a: i128 = of_day(a);
    let of_b: i128 = of_day(b);
    let leap: i128 = if of_a > of_b && y >= NANOS {
        1
    } else if of_a < of_b && x >= NANOS {
        -1
    } else {
        0
    };
    let d: i128 = x - y;
    let (carry, rest): (i128, i128) = if d >= NANOS {
        (1, d - NANOS)
    } else if d >= 0 {
        (0, d)
    } else if d >= -NANOS {
        (-1, d + NANOS)
    } else {
        (-2, d + 2 * NANOS)
    };
    let secs: i128 = a - b + leap + carry;
    if secs < 0 && rest > 0 {
        secs + 1
    } else {
        secs
    }
}

/// Between instants outside leap seconds, time passes as it is added: so many
/// seconds later is so many seconds away, both ways.
pub proof fn law_time_passes_as_it_is_added(at: int, secs: int)
    requires
        nano_of(at) < NANOS,
    ensures
        whole_seconds(at, shifted(at, secs)) == secs,
        whole_seconds(shifted(at, secs), at) == -secs,
        shifted(shifted(at, secs), -secs) == at,
        nano_of(shifted(at, secs)) == nano_of(at),
{
    let s = unix_second(at);
    let n = nano_of(at);
    assert(at == s * 2_000_000_000 + n);
    lemma_parts(shifted(at, secs), s + secs, n);
}

/// Outside leap seconds the whole seconds between two instants are their
/// distance in nanoseconds, cut to seconds toward zero.
pub proof fn law_whole_seconds_are_cut_toward_zero(from: int, to: int)
    requires
        from % 2_000_000_000 < 1_000_000_000,
        to % 2_000_000_000 < 1_000_000_000,
    ensures
        ({
            let apart = (to / 2_000_000_000 - from / 2_000_000_000) * 1_000_000_000 + (to
                % 2_000_000_000 - from % 2_000_000_000);
            let w = whole_seconds(from, to);
            &&& apart >= 0 ==> w * 1_000_000_000 <= apart && apart < (w + 1) * 1_000_000_000
            &&& apart <= 0 ==> (w - 1) * 1_000_000_000 < apart && apart <= w * 1_000_000_000
        }),
{
}

/// Time added in a leap second counts from the second after it, and time taken
/// away from the one before.
pub proof fn law_leap_seconds_are_left_behind(at: int, secs: int)
    requires
        at % 2_000_000_000 >= 1_000_000_000,
    ensures
        ({
            let (s, n) = (at / 2_000_000_000, at % 2_000_000_000 - 1_000_000_000);
            &&& secs == 0 ==> shifted(at, secs) == at
            &&& secs > 0 ==> shifted(at, secs) == (s + secs) * 2_000_000_000 + n
            &&& secs < 0 ==> shifted(at, secs) == (s + 1 + secs) * 2_000_000_000 + n
        }),
{
}

/// The clock reads the second of the day: a day is 86 400 seconds counted from
/// 1970, an hour 3600 of them and a minute 60.
pub proof fn law_the_clock_reads_the_second_of_the_day(secs: int)
    requires
        -8_334_601_228_800 <= secs <= 8_210_266_876_799,
    ensures
        ({
            let c = civil_of(secs);
            let start = (c.day - 719_163) * 86_400 + c.hour * 3600 + c.minute * 60;
            &&& 0 <= c.hour < 24 && 0 <= c.minute < 60
            &&& start <= secs && secs < start + 60
        }),
{
}

/// Milliseconds count the second and the nanoseconds past it.
pub proof fn law_milliseconds_follow_the_second(secs: int, nanos: int)
    requires
        0 <= nanos < 2_000_000_000,
    ensures
        ({
            let m = unix_milli(secs * 2_000_000_000 + nanos);
            secs * 1000 * 1_000_000 + nanos - 1_000_000 < m * 1_000_000 && m * 1_000_000 <= secs
                * 1000 * 1_000_000 + nanos
        }),
{
    lemma_parts(secs * 2_000_000_000 + nanos, secs, nanos);
}

/// Instants are in the order of their seconds, and within one of their
/// nanoseconds; a leap second comes after all of the second before it and
/// before all of the next.
pub proof fn law_instants_are_in_order(a: int, b: int)
    ensures
        a < b <==> unix_second(a) < unix_second(b) || (unix_second(a) == unix_second(b)
            && nano_of(a) < nano_of(b)),
{
}

/// The pattern of a journal's timestamps.
pub const ISO: &'static str = "%Y-%m-%dT%H:%M:%S";

/// The pattern of a table's timestamps.
pub const SHORT: &'static str = "%m-%d %H:%M";

/// The pattern of a date in a path.
pub const DATE: &'static str = "%Y-%m-%d";

/// A second and the nanoseconds past it (UTC), written by a pattern.
pub uninterp spec fn civil_text(secs: i64, nanos: u32, pattern: Seq<char>) -> Seq<char>;

/// `NaiveDateTime::format` of chrono, on the instant that
/// `DateTime::from_timestamp` makes of the second and the nanoseconds: claimed
/// to be a function of the two and the pattern. chrono makes an instant of
/// every second on the calendar, and of a leap second where one can be. The
/// patterns hold only directives that chrono knows, so that writing them does
/// not fail.
#[verifier::external_body]
fn format_pattern(secs: i64, nanos: u32, pattern: &str) -> (r: String)
    requires
        is_instant(secs as int, nanos as int),
        pattern@ == ISO@ || pattern@ == SHORT@ || pattern@ == DATE@,
    ensures
        r@ == civil_text(secs, nanos, pattern@),
{
    chrono::DateTime::from_timestamp(secs, nanos).unwrap().naive_utc().format(pattern).to_string()
}

/// An instant (UTC) written by a pattern.
pub open spec fn stamp_text(at: Stamp, pattern: Seq<char>) -> Seq<char> {
    civil_text(unix_second(at as int) as i64, nano_of(at as int) as u32, pattern)
}

/// An instant as journals write it.
pub fn iso_stamp(at: Stamp) -> (r: String)
    requires
        on_calendar(at as int),
    ensures
        r@ == stamp_text(at, ISO@),
{
    format_pattern(unix_seconds(at), subsec_nanos(at), ISO)
}

/// An instant as tables write it.
pub fn short_stamp(at: Stamp) -> (r: String)
    requires
        on_calendar(at as int),
    ensures
        r@ == stamp_text(at, SHORT@),
{
    format_pattern(unix_seconds(at), subsec_nanos(at), SHORT)
}

/// An instant's date as paths write it.
pub fn date_stamp(at: Stamp) -> (r: String)
    requires
        on_calendar(at as int),
    ensures
        r@ == stamp_text(at, DATE@),
{
    format_pattern(unix_seconds(at), subsec_nanos(at), DATE)
}

/// The milliseconds of an instant: those of its second, and those past it.
pub open spec fn unix_milli(at: int) -> int {
    unix_second(at) * 1000 + nano_of(at) / 1_000_000
}

/// The milliseconds of an instant, as a machine counts them.
pub fn unix_millis(at: Stamp) -> (r: i64)
    ensures
        r == unix_milli(at as int) as i64,
        on_calendar(at as int) ==> r == unix_milli(at as int),
{
    let ms: i128 = second_of(at) * 1000 + subsec_nanos(at) as i128 / 1_000_000;
    ms as i64
}

// ─── The civil calendar ─────────────────────────────────────────────────────

/// The ISO week of a day number.
pub uninterp spec fn iso_week_of(day: i32) -> u32;

/// The month of a day number.
pub uninterp spec fn month_of(day: i32) -> u32;

/// `Datelike::iso_week` of chrono, on the date that
/// `NaiveDate::from_num_days_from_ce_opt` makes of a day number: claimed to be
/// a function of the day. Every day on the calendar has a date.
#[verifier::external_body]
fn iso_week(day: i32) -> (r: u32)
    requires
        FIRST_DAY <= day <= LAST_DAY,
    ensures
        r == iso_week_of(day),
{
    NaiveDate::from_num_days_from_ce_opt(day).unwrap().iso_week().week()
}

/// `Datelike::month` of chrono, on the date that
/// `NaiveDate::from_num_days_from_ce_opt` makes of a day number: claimed to be
/// a function of the day.
#[verifier::external_body]
fn month(day: i32) -> (r: u32)
    requires
        FIRST_DAY <= day <= LAST_DAY,
    ensures
        r == month_of(day),
{
    NaiveDate::from_num_days_from_ce_opt(day).unwrap().month()
}

/// A civil date and time of day.
#[derive(Debug, Clone, Copy, PartialEq, Eq, Structural)]
pub struct Civil {
    /// Day number; 0001-01-01 is day one.
    pub day: i32,
    /// ISO week of the year.
    pub week: u32,
    pub month: u32,
    pub hour: i64,
    pub minute: i64,
}

/// The civil time of a second since the epoch. A second off the calendar is
/// given the calendar's first.
pub open spec fn civil_of(secs: int) -> Civil {
    let at = if FIRST_SECOND <= secs <= LAST_SECOND {
        secs
    } else {
        FIRST_SECOND as int
    };
    let day = (at / (DAY_SECS as int) + EPOCH_DAY) as i32;
    let of_day = at % (DAY_SECS as int);
    Civil {
        day,
        week: iso_week_of(day),
        month: month_of(day),
        hour: (of_day / 3600) as i64,
        minute: (of_day % 3600 / 60) as i64,
    }
}

/// The civil time of a second since the epoch.
pub fn civil(secs: i64) -> (r: Civil)
    ensures
        r == civil_of(secs as int),
        0 <= r.hour < 24,
        0 <= r.minute < 60,
{
    let at: i64 = if FIRST_SECOND <= secs && secs <= LAST_SECOND {
        secs
    } else {
        FIRST_SECOND
    };
    let lifted: u64 = (at - FIRST_SECOND) as u64;
    let days: u64 = lifted / 86_400;
    let of_day: u64 = lifted % 86_400;
    let day: i32 = (days as i64 + FIRST_DAY as i64) as i32;
    Civil {
        day,
        week: iso_week(day),
        month: month(day),
        hour: (of_day / 3600) as i64,
        minute: (of_day % 3600 / 60) as i64,
    }
}

} // verus!
