//! Columns by name, timestamps by unit, and row groups by their statistics.
use vstd::prelude::*;
use crate::clock::{
    instant, is_instant, nano_of, on_calendar, second_of, subsec_nanos, unix_second, Stamp,
    FIRST_SECOND, LAST_SECOND, NANOS, SECOND,
};
use crate::text::{lower, texts_of, to_lower};

verus! {

/// A column that is read.
#[derive(Debug, Clone, Copy, PartialEq, Eq, Structural)]
pub enum Column {
    Time,
    Open,
    High,
    Low,
    Close,
    Volume,
    TickTime,
    TickPrice,
    TickSize,
    TickSide,
}

/// The names a column goes by, the preferred first.
pub open spec fn aliases(c: Column) -> Seq<Seq<char>> {
    match c {
        Column::Time => seq!["timestamp"@, "ts"@, "time"@, "datetime"@, "date"@],
        Column::Open => seq!["open"@, "o"@],
        Column::High => seq!["high"@, "h"@],
        Column::Low => seq!["low"@, "l"@],
        Column::Close => seq!["close"@, "c"@],
        Column::Volume => seq!["volume"@, "vol"@, "v"@],
        Column::TickTime => seq!["timestamp"@, "time"@, "ts"@],
        Column::TickPrice => seq!["price"@, "px"@],
        Column::TickSize => seq!["size"@, "sz"@, "qty"@],
        Column::TickSide => seq!["side"@],
    }
}

fn two(a: &str, b: &str) -> (r: Vec<String>)
    ensures
        texts_of(r@) == seq![a@, b@],
{
    let mut out: Vec<String> = Vec::new();
    out.push(a.to_owned());
    out.push(b.to_owned());
    proof {
        assert(texts_of(out@) =~= seq![a@, b@]);
    }
    out
}

fn three(a: &str, b: &str, c: &str) -> (r: Vec<String>)
    ensures
        texts_of(r@) == seq![a@, b@, c@],
{
    let mut out: Vec<String> = Vec::new();
    out.push(a.to_owned());
    out.push(b.to_owned());
    out.push(c.to_owned());
    proof {
        assert(texts_of(out@) =~= seq![a@, b@, c@]);
    }
    out
}

fn column_names(c: Column) -> (r: Vec<String>)
    ensures
        texts_of(r@) == aliases(c),
{
    match c {
        Column::Time => {
            let mut out: Vec<String> = Vec::new();
            out.push("timestamp".to_owned());
            out.push("ts".to_owned());
            out.push("time".to_owned());
            out.push("datetime".to_owned());
            out.push("date".to_owned());
            proof {
                assert(texts_of(out@) =~= aliases(c));
            }
            out
        },
        Column::Open => two("open", "o"),
        Column::High => two("high", "h"),
        Column::Low => two("low", "l"),
        Column::Close => two("close", "c"),
        Column::Volume => three("volume", "vol", "v"),
        Column::TickTime => three("timestamp", "time", "ts"),
        Column::TickPrice => two("price", "px"),
        Column::TickSize => three("size", "sz", "qty"),
        Column::TickSide => {
            let mut out: Vec<String> = Vec::new();
            out.push("side".to_owned());
            proof {
                assert(texts_of(out@) =~= aliases(c));
            }
            out
        },
    }
}

/// The first field, at or after `from`, that goes by a name, whatever the
/// case of its letters.
pub open spec fn field_at(fields: Seq<Seq<char>>, name: Seq<char>, from: int) -> int
    decreases fields.len() - from,
{
    if from >= fields.len() || lower(fields[from]) == lower(name) {
        from
    } else {
        field_at(fields, name, from + 1)
    }
}

/// The field of a column: the first name, at or after `from`, that any field
/// goes by decides.
pub open spec fn col_of(fields: Seq<Seq<char>>, names: Seq<Seq<char>>, from: int) -> Option<int>
    decreases names.len() - from,
{
    if from >= names.len() {
        None
    } else if field_at(fields, names[from], 0) < fields.len() {
        Some(field_at(fields, names[from], 0))
    } else {
        col_of(fields, names, from + 1)
    }
}

fn find_field(fields: &Vec<String>, name: &str) -> (r: usize)
    ensures
        r <= fields@.len(),
        r == field_at(texts_of(fields@), name@, 0),
{
    let wanted = to_lower(name);
    let mut i: usize = 0;
    while i < fields.len() && to_lower(fields[i].as_str()) != wanted
        invariant
            i <= fields@.len(),
            wanted@ == lower(name@),
            field_at(texts_of(fields@), name@, i as int) == field_at(texts_of(fields@), name@, 0),
        decreases fields@.len() - i,
    {
        i = i + 1;
    }
    i
}

/// The place of a column among the fields.
pub fn find_col(fields: &Vec<String>, c: Column) -> (r: Option<usize>)
    ensures
        (match r {
            Some(i) => Some(i as int),
            None => None,
        }) == col_of(texts_of(fields@), aliases(c), 0),
        r matches Some(i) ==> i < fields@.len(),
{
    let names = column_names(c);
    let mut k: usize = 0;
    while k < names.len()
        invariant
            k <= names@.len(),
            texts_of(names@) == aliases(c),
            col_of(texts_of(fields@), aliases(c), k as int) == col_of(
                texts_of(fields@),
                aliases(c),
                0,
            ),
        decreases names@.len() - k,
    {
        assert(aliases(c)[k as int] == names@[k as int]@);
        let i: usize = find_field(fields, names[k].as_str());
        if i < fields.len() {
            return Some(i);
        }
        k = k + 1;
    }
    None
}

/// Where a candle file's columns stand.
#[derive(Debug, Clone, Copy, PartialEq, Eq, Structural)]
pub struct BarColumns {
    pub time: usize,
    pub open: usize,
    pub high: usize,
    pub low: usize,
    pub close: usize,
    pub volume: Option<usize>,
}

/// A column of a file, by its texts.
pub open spec fn column_in(fields: Seq<String>, c: Column) -> Option<int> {
    col_of(texts_of(fields), aliases(c), 0)
}

/// The first column a candle file must have and lacks.
pub open spec fn missing_bar_column(fields: Seq<String>) -> Option<Column> {
    if column_in(fields, Column::Time) is None {
        Some(Column::Time)
    } else if column_in(fields, Column::Open) is None {
        Some(Column::Open)
    } else if column_in(fields, Column::High) is None {
        Some(Column::High)
    } else if column_in(fields, Column::Low) is None {
        Some(Column::Low)
    } else if column_in(fields, Column::Close) is None {
        Some(Column::Close)
    } else {
        None
    }
}

/// Where a candle file's columns stand; a file without a volume is read, one
/// without another column is refused by that column.
pub fn bar_columns(fields: &Vec<String>) -> (r: Result<BarColumns, Column>)
    ensures
        match r {
            Ok(b) => {
                &&& missing_bar_column(fields@) is None
                &&& column_in(fields@, Column::Time) == Some(b.time as int)
                &&& column_in(fields@, Column::Open) == Some(b.open as int)
                &&& column_in(fields@, Column::High) == Some(b.high as int)
                &&& column_in(fields@, Column::Low) == Some(b.low as int)
                &&& column_in(fields@, Column::Close) == Some(b.close as int)
                &&& column_in(fields@, Column::Volume) == match b.volume {
                    Some(v) => Some(v as int),
                    None => None,
                }
            },
            Err(c) => missing_bar_column(fields@) == Some(c),
        },
{
    let time: usize = match find_col(fields, Column::Time) {
        Some(i) => i,
        None => return Err(Column::Time),
    };
    let open: usize = match find_col(fields, Column::Open) {
        Some(i) => i,
        None => return Err(Column::Open),
    };
    let high: usize = match find_col(fields, Column::High) {
        Some(i) => i,
        None => return Err(Column::High),
    };
    let low: usize = match find_col(fields, Column::Low) {
        Some(i) => i,
        None => return Err(Column::Low),
    };
    let close: usize = match find_col(fields, Column::Close) {
        Some(i) => i,
        None => return Err(Column::Close),
    };
    let volume = find_col(fields, Column::Volume);
    Ok(BarColumns { time, open, high, low, close, volume })
}

/// Where a tick file's columns stand.
#[derive(Debug, Clone, Copy, PartialEq, Eq, Structural)]
pub struct TickColumns {
    pub time: usize,
    pub price: usize,
    pub size: Option<usize>,
    pub side: Option<usize>,
}

/// Where a tick file's columns stand; one without a time or a price is
/// refused by that column.
pub fn tick_columns(fields: &Vec<String>) -> (r: Result<TickColumns, Column>)
    ensures
        match r {
            Ok(t) => {
                &&& column_in(fields@, Column::TickTime) == Some(t.time as int)
                &&& column_in(fields@, Column::TickPrice) == Some(t.price as int)
                &&& column_in(fields@, Column::TickSize) == match t.size {
                    Some(v) => Some(v as int),
                    None => None,
                }
                &&& column_in(fields@, Column::TickSide) == match t.side {
                    Some(v) => Some(v as int),
                    None => None,
                }
            },
            Err(c) => if column_in(fields@, Column::TickTime) is None {
                c == Column::TickTime
            } else {
                c == Column::TickPrice && column_in(fields@, Column::TickPrice) is None
            },
        },
{
    let time: usize = match find_col(fields, Column::TickTime) {
        Some(i) => i,
        None => return Err(Column::TickTime),
    };
    let price: usize = match find_col(fields, Column::TickPrice) {
        Some(i) => i,
        None => return Err(Column::TickPrice),
    };
    let size = find_col(fields, Column::TickSize);
    let side = find_col(fields, Column::TickSide);
    Ok(TickColumns { time, price, size, side })
}

/// What a file without a column is refused with.
pub open spec fn missing_text(c: Column) -> Seq<char> {
    match c {
        Column::Time => "No timestamp column"@,
        Column::Open => "No open column"@,
        Column::High => "No high column"@,
        Column::Low => "No low column"@,
        Column::Close => "No close column"@,
        Column::Volume => "No volume column"@,
        Column::TickTime => "tick file: no timestamp column"@,
        Column::TickPrice => "tick file: no price column"@,
        Column::TickSize => "tick file: no size column"@,
        Column::TickSide => "tick file: no side column"@,
    }
}

/// What a file without a column is refused with.
pub fn missing_column(c: Column) -> (r: &'static str)
    ensures
        r@ == missing_text(c),
{
    match c {
        Column::Time => "No timestamp column",
        Column::Open => "No open column",
        Column::High => "No high column",
        Column::Low => "No low column",
        Column::Close => "No close column",
        Column::Volume => "No volume column",
        Column::TickTime => "tick file: no timestamp column",
        Column::TickPrice => "tick file: no price column",
        Column::TickSize => "tick file: no size column",
        Column::TickSide => "tick file: no side column",
    }
}

// ─── Timestamps ─────────────────────────────────────────────────────────────

/// What a timestamp column counts since the epoch.
#[derive(Debug, Clone, Copy, PartialEq, Eq, Structural)]
pub enum Unit {
    Seconds,
    Millis,
    Micros,
    Nanos,
}

impl Unit {
    /// Nanoseconds in one.
    pub open spec fn nanos(self) -> int {
        match self {
            Unit::Seconds => 1_000_000_000,
            Unit::Millis => 1_000_000,
            Unit::Micros => 1_000,
            Unit::Nanos => 1,
        }
    }

    /// How many make a second.
    pub open spec fn per_second(self) -> int {
        match self {
            Unit::Seconds => 1,
            Unit::Millis => 1_000,
            Unit::Micros => 1_000_000,
            Unit::Nanos => 1_000_000_000,
        }
    }
}

/// How a time column is stored.
#[derive(Debug, Clone, Copy, PartialEq, Eq, Structural)]
pub enum TimeColumn {
    /// Timestamps in a unit of their own.
    Stamps(Unit),
    /// Plain whole numbers.
    Plain,
    /// Text.
    Text,
}

/// What the whole numbers of a time column count, its rows as well as its
/// statistics: a timestamp column's own unit, milliseconds where there is
/// none. Text counts nothing.
pub fn column_unit(column: TimeColumn) -> (r: Option<Unit>)
    ensures
        r == match column {
            TimeColumn::Stamps(u) => Some(u),
            TimeColumn::Plain => Some(Unit::Millis),
            TimeColumn::Text => None,
        },
{
    match column {
        TimeColumn::Stamps(u) => Some(u),
        TimeColumn::Plain => Some(Unit::Millis),
        TimeColumn::Text => None,
    }
}

/// The instant of a column's value, where it is on the calendar.
pub open spec fn instant_of(unit: Unit, v: int) -> Option<int> {
    let nanos = v * unit.nanos();
    let secs = nanos / (NANOS as int);
    if FIRST_SECOND <= secs <= LAST_SECOND {
        Some(secs * SECOND + nanos % (NANOS as int))
    } else {
        None
    }
}

/// The instant of a column's value; a missing value stands for the epoch.
pub fn stamp_of(unit: Unit, v: Option<i64>) -> (r: Option<Stamp>)
    ensures
        (match r {
            Some(at) => Some(at as int),
            None => None,
        }) == instant_of(
            unit,
            match v {
                Some(x) => x as int,
                None => 0,
            },
        ),
        r matches Some(at) ==> on_calendar(at as int),
{
    let x: i64 = match v {
        Some(x) => x,
        None => 0,
    };
    let nanos: i128 = match unit {
        Unit::Seconds => x as i128 * 1_000_000_000,
        Unit::Millis => x as i128 * 1_000_000,
        Unit::Micros => x as i128 * 1_000,
        Unit::Nanos => x as i128,
    };
    let (secs, past): (i128, i128) = if nanos >= 0 {
        (nanos / NANOS, nanos % NANOS)
    } else {
        (-1 - (-1 - nanos) / NANOS, NANOS - 1 - (-1 - nanos) % NANOS)
    };
    if secs < FIRST_SECOND as i128 || secs > LAST_SECOND as i128 {
        return None;
    }
    Some(instant(secs as i64, past as u32))
}

/// The pattern of a timestamp written with a `T`.
pub const T_PATTERN: &'static str = "%Y-%m-%dT%H:%M:%S";

/// The pattern of a timestamp written with a space.
pub const SPACE_PATTERN: &'static str = "%Y-%m-%d %H:%M:%S";

/// What a text read by a pattern gives: seconds since the epoch, and the
/// nanoseconds past them.
pub uninterp spec fn parsed_stamp(s: Seq<char>, pattern: Seq<char>) -> Option<(i64, u32)>;

/// `NaiveDateTime::parse_from_str` of chrono, then `timestamp` and
/// `timestamp_subsec_nanos` of the instant in UTC: claimed to be a function of
/// the text and the pattern, and, where the text reads, an instant on chrono's
/// calendar.
#[verifier::external_body]
fn parse_pattern(s: &str, pattern: &str) -> (r: Option<(i64, u32)>)
    ensures
        r == parsed_stamp(s@, pattern@),
        r matches Some(p) ==> is_instant(p.0 as int, p.1 as int),
{
    match chrono::NaiveDateTime::parse_from_str(s, pattern) {
        Ok(t) => Some((t.and_utc().timestamp(), t.and_utc().timestamp_subsec_nanos())),
        Err(_) => None,
    }
}

/// What was read by the first of two patterns that reads, or the epoch.
pub open spec fn chosen(t: Option<(i64, u32)>, space: Option<(i64, u32)>) -> (i64, u32) {
    match t {
        Some(p) => p,
        None => match space {
            Some(p) => p,
            None => (0i64, 0u32),
        },
    }
}

/// The instant of what was read by the two patterns.
pub fn choose_stamp(t: Option<(i64, u32)>, space: Option<(i64, u32)>) -> (r: Stamp)
    requires
        chosen(t, space).1 < SECOND,
    ensures
        r == chosen(t, space).0 * SECOND + chosen(t, space).1,
        on_calendar(r as int) == is_instant(chosen(t, space).0 as int, chosen(t, space).1 as int),
{
    let (secs, nanos): (i64, u32) = match t {
        Some(p) => p,
        None => match space {
            Some(p) => p,
            None => (0, 0),
        },
    };
    instant(secs, nanos)
}

/// The instant of a text: written with a `T`, with a space, or else the
/// epoch.
pub fn text_stamp(s: &str) -> (r: Stamp)
    ensures
        ({
            let p = chosen(parsed_stamp(s@, T_PATTERN@), parsed_stamp(s@, SPACE_PATTERN@));
            r == p.0 * SECOND + p.1
        }),
        on_calendar(r as int),
{
    choose_stamp(parse_pattern(s, T_PATTERN), parse_pattern(s, SPACE_PATTERN))
}

// ─── Row groups ─────────────────────────────────────────────────────────────

/// An instant in a column's unit: its second, and what is past it rounded
/// down.
pub open spec fn native(unit: Unit, at: int) -> int {
    unix_second(at) * unit.per_second() + nano_of(at) / unit.nanos()
}

fn to_native(unit: Unit, at: Stamp) -> (r: i128)
    ensures
        r == native(unit, at as int),
{
    let secs: i128 = second_of(at);
    let past: i128 = subsec_nanos(at) as i128;
    match unit {
        Unit::Seconds => secs + past / 1_000_000_000,
        Unit::Millis => secs * 1_000 + past / 1_000_000,
        Unit::Micros => secs * 1_000_000 + past / 1_000,
        Unit::Nanos => secs * 1_000_000_000 + past,
    }
}

/// A row group's least and greatest timestamp, in the column's unit, as far as
/// its statistics tell.
#[derive(Debug, Clone, Copy, PartialEq, Eq, Structural)]
pub struct GroupStats {
    pub min: Option<i64>,
    pub max: Option<i64>,
}

/// A row group may hold rows between two instants.
pub open spec fn overlaps(
    g: GroupStats,
    unit: Unit,
    start: Option<Stamp>,
    end: Option<Stamp>,
) -> bool {
    &&& ((start, g.max) matches (Some(s), Some(m)) ==> m >= native(unit, s as int))
    &&& ((end, g.min) matches (Some(e), Some(m)) ==> m <= native(unit, e as int))
}

/// The row groups among the first `n` that may hold rows between two
/// instants.
pub open spec fn kept_groups(
    groups: Seq<GroupStats>,
    unit: Option<Unit>,
    start: Option<Stamp>,
    end: Option<Stamp>,
    n: nat,
) -> Seq<usize>
    decreases n,
{
    if n == 0 {
        Seq::empty()
    } else {
        let rest = kept_groups(groups, unit, start, end, (n - 1) as nat);
        let keep = match unit {
            Some(u) => overlaps(groups[n - 1], u, start, end),
            None => true,
        };
        if keep {
            rest.push((n - 1) as usize)
        } else {
            rest
        }
    }
}

/// The row groups to decode for a range of time, by the statistics of the
/// column the rows' times are read from. Where the file has no such column, all
/// of them; one without statistics is decoded.
pub fn select_row_groups(
    groups: &Vec<GroupStats>,
    unit: Option<Unit>,
    start: Option<Stamp>,
    end: Option<Stamp>,
) -> (r: Vec<usize>)
    ensures
        r@ == kept_groups(groups@, unit, start, end, groups@.len()),
{
    let mut out: Vec<usize> = Vec::new();
    let mut i: usize = 0;
    while i < groups.len()
        invariant
            i <= groups@.len(),
            out@ == kept_groups(groups@, unit, start, end, i as nat),
        decreases groups@.len() - i,
    {
        let g = groups[i];
        let keep = match unit {
            None => true,
            Some(u) => {
                let low = match (start, g.max) {
                    (Some(s), Some(m)) => m as i128 >= to_native(u, s),
                    _ => true,
                };
                let high = match (end, g.min) {
                    (Some(e), Some(m)) => m as i128 <= to_native(u, e),
                    _ => true,
                };
                low && high
            },
        };
        if keep {
            out.push(i);
        }
        i = i + 1;
    }
    out
}

/// No row in range is lost: a row group whose statistics hold of a row between
/// the two instants is decoded. The first instant is not in a leap second, nor
/// is a row with an instant after it.
pub proof fn law_no_row_in_range_is_skipped(
    groups: Seq<GroupStats>,
    unit: Unit,
    start: Option<Stamp>,
    end: Option<Stamp>,
    g: int,
    at: int,
)
    requires
        groups.len() <= usize::MAX,
        0 <= g < groups.len(),
        start matches Some(s) ==> s <= at,
        end matches Some(e) ==> at <= e,
        end is Some ==> nano_of(at) < NANOS,
        start matches Some(s) ==> nano_of(s as int) < NANOS,
        groups[g].min matches Some(m) ==> m <= native(unit, at),
        groups[g].max matches Some(m) ==> native(unit, at) <= m,
    ensures
        kept_groups(groups, Some(unit), start, end, groups.len()).contains(g as usize),
{
    if let Some(s) = start {
        lemma_native_monotone(unit, s as int, at);
    }
    if let Some(e) = end {
        lemma_native_monotone(unit, at, e as int);
    }
    lemma_kept(groups, unit, start, end, g, groups.len());
}

proof fn lemma_native_monotone(unit: Unit, a: int, b: int)
    requires
        a <= b,
        nano_of(a) < NANOS,
    ensures
        native(unit, a) <= native(unit, b),
{
}

proof fn lemma_kept(
    groups: Seq<GroupStats>,
    unit: Unit,
    start: Option<Stamp>,
    end: Option<Stamp>,
    g: int,
    n: nat,
)
    requires
        groups.len() <= usize::MAX,
        0 <= g < n <= groups.len(),
        overlaps(groups[g], unit, start, end),
    ensures
        kept_groups(groups, Some(unit), start, end, n).contains(g as usize),
    decreases n,
{
    let rest = kept_groups(groups, Some(unit), start, end, (n - 1) as nat);
    let all = kept_groups(groups, Some(unit), start, end, n);
    if g == n - 1 {
        assert(all[rest.len() as int] == g);
    } else {
        lemma_kept(groups, unit, start, end, g, (n - 1) as nat);
        let p = choose|p: int| 0 <= p < rest.len() && rest[p] == g as usize;
        assert(all[p] == g as usize);
    }
}

} // verus!
