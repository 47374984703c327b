//! How much size a book can carry: which snapshot a trade is sized on, which
//! leg binds, and what the depth cap does to a size.
use vstd::prelude::*;
use vstd::string::*;
use crate::clock::{
    date_stamp, on_calendar, second_of_day, stamp_text, unix_milli, unix_millis, unix_second, Stamp,
    DATE, DAY_SECS,
};
use crate::key::Num;
use crate::text::{chars_of, str_eq, string_of};

verus! {

/// One side of a book.
#[derive(Debug, Clone, Copy, PartialEq, Eq, Structural)]
pub enum Side {
    Bid,
    Ask,
}

/// What sizing does with the depth cap.
#[derive(Debug, Clone, Copy, PartialEq, Eq, Structural)]
pub enum L2Mode {
    /// Nothing.
    Off,
    /// The cap is computed and journaled; size unchanged.
    Log,
    /// The smaller of the risk size and the cap.
    Cap,
    /// The cap.
    Max,
}

/// The mode of a name; any other name is off.
pub open spec fn mode_named(s: Seq<char>) -> L2Mode {
    if s == "log"@ {
        L2Mode::Log
    } else if s == "cap"@ {
        L2Mode::Cap
    } else if s == "max"@ {
        L2Mode::Max
    } else {
        L2Mode::Off
    }
}

impl L2Mode {
    /// The mode of a name. A misspelled one can only disable the feature.
    pub fn parse(s: &str) -> (r: Self)
        ensures
            r == mode_named(s@),
    {
        if str_eq(s, "log") {
            L2Mode::Log
        } else if str_eq(s, "cap") {
            L2Mode::Cap
        } else if str_eq(s, "max") {
            L2Mode::Max
        } else {
            L2Mode::Off
        }
    }

    /// Whether the cap is computed at all.
    pub fn active(self) -> (r: bool)
        ensures
            r == (self != L2Mode::Off),
    {
        match self {
            L2Mode::Off => false,
            _ => true,
        }
    }
}

/// A name that is none of the modes' turns the feature off.
pub proof fn law_misspelled_modes_are_off(s: Seq<char>)
    requires
        s != "log"@,
        s != "cap"@,
        s != "max"@,
    ensures
        mode_named(s) == L2Mode::Off,
{
}

// ─── Legs ───────────────────────────────────────────────────────────────────

/// The sides a trade's two legs sweep: a long buys the asks and sells to the
/// bids, a short the other way round.
pub open spec fn legs_of(is_long: bool) -> (Side, Side) {
    if is_long {
        (Side::Ask, Side::Bid)
    } else {
        (Side::Bid, Side::Ask)
    }
}

/// The sides a trade's entry and exit sweep.
pub fn legs(is_long: bool) -> (r: (Side, Side))
    ensures
        r == legs_of(is_long),
{
    if is_long {
        (Side::Ask, Side::Bid)
    } else {
        (Side::Bid, Side::Ask)
    }
}

/// The leg that binds a size.
#[derive(Debug, Clone, Copy, PartialEq, Eq, Structural)]
pub enum Leg {
    Entry,
    Exit,
}

impl Leg {
    /// The leg's name.
    pub open spec fn label(self) -> Seq<char> {
        match self {
            Leg::Entry => "entry"@,
            Leg::Exit => "exit"@,
        }
    }

    /// The leg's name.
    pub fn as_str(self) -> (r: &'static str)
        ensures
            r@ == self.label(),
    {
        match self {
            Leg::Entry => "entry",
            Leg::Exit => "exit",
        }
    }
}

/// How much one leg carries, and whether the book's visible end came first.
#[derive(Debug, Clone, Copy, PartialEq, Eq, Structural)]
pub struct LegCap {
    pub notional: Num,
    pub censored: bool,
}

/// A trade's cap.
#[derive(Debug, Clone, Copy, PartialEq, Eq, Structural)]
pub struct L2Cap {
    pub notional: Num,
    pub censored: bool,
    pub binding: Leg,
}

/// A trade's cap is the smaller of its legs', the entry's where they are
/// equal; none where a leg has none.
pub open spec fn cap_of(entry: Option<LegCap>, exit: Option<LegCap>) -> Option<L2Cap> {
    match (entry, exit) {
        (Some(a), Some(b)) => Some(
            if a.notional <= b.notional {
                L2Cap { notional: a.notional, censored: a.censored, binding: Leg::Entry }
            } else {
                L2Cap { notional: b.notional, censored: b.censored, binding: Leg::Exit }
            },
        ),
        _ => None,
    }
}

/// A trade's cap: size that can get in but not out is not size it can carry.
pub fn trade_cap(entry: Option<LegCap>, exit: Option<LegCap>) -> (r: Option<L2Cap>)
    ensures
        r == cap_of(entry, exit),
{
    match (entry, exit) {
        (Some(a), Some(b)) => {
            if a.notional <= b.notional {
                Some(L2Cap { notional: a.notional, censored: a.censored, binding: Leg::Entry })
            } else {
                Some(L2Cap { notional: b.notional, censored: b.censored, binding: Leg::Exit })
            }
        },
        _ => None,
    }
}

/// A cap fits both legs.
pub proof fn law_a_cap_fits_both_legs(entry: LegCap, exit: LegCap)
    ensures
        cap_of(Some(entry), Some(exit)) matches Some(c) && c.notional <= entry.notional
            && c.notional <= exit.notional,
{
}

/// What is kept of a book level.
pub open spec fn kept_level(px: Option<Num>, sz: Option<Num>) -> Option<(Num, Num)> {
    match (px, sz) {
        (Some(p), Some(s)) => if p > 0 && s > 0 {
            Some((p, s))
        } else {
            None
        },
        _ => None,
    }
}

/// A book level as a file has it: kept when both numbers are there and
/// positive.
pub fn keep_level(px: Option<Num>, sz: Option<Num>) -> (r: Option<(Num, Num)>)
    ensures
        r == kept_level(px, sz),
{
    match (px, sz) {
        (Some(p), Some(s)) => if p > 0 && s > 0 {
            Some((p, s))
        } else {
            None
        },
        _ => None,
    }
}

/// What an exit leg costs beyond what the ledger knows.
#[derive(Debug, Clone, Copy, PartialEq, Eq, Structural)]
pub enum ExitTax {
    /// Nothing: a maker exit.
    Free,
    /// The premium of the exit-time book.
    Premium,
    /// It cannot be known: there is no exit-time book.
    BookMissing,
}

/// The tax of an exit leg.
pub open spec fn tax_of(exit_is_taker: bool, has_book: bool) -> ExitTax {
    if !exit_is_taker {
        ExitTax::Free
    } else if has_book {
        ExitTax::Premium
    } else {
        ExitTax::BookMissing
    }
}

/// What an exit leg costs.
pub fn exit_tax(exit_is_taker: bool, has_book: bool) -> (r: ExitTax)
    ensures
        r == tax_of(exit_is_taker, has_book),
{
    if !exit_is_taker {
        ExitTax::Free
    } else if has_book {
        ExitTax::Premium
    } else {
        ExitTax::BookMissing
    }
}

/// What a closed trade at its cap costs beyond what the ledger knows.
#[derive(Debug, Clone, Copy, PartialEq, Eq, Structural)]
pub struct TaxPlan {
    pub cap: L2Cap,
    /// The entry paid the premium of the entry-time book.
    pub entry: bool,
    pub exit: ExitTax,
}

/// A closed trade, annotated: its cap on the entry-time book, and which legs
/// the cap's size is taxed on. None: the stop has no distance, or no book is
/// fresh enough to size the trade on.
pub fn annotate_trade(
    has_risk: bool,
    cap: Option<L2Cap>,
    entry_is_taker: bool,
    exit_is_taker: bool,
    has_exit_book: bool,
) -> (r: Option<TaxPlan>)
    ensures
        r is Some <==> has_risk && cap is Some,
        r matches Some(p) ==> {
            &&& cap == Some(p.cap)
            &&& p.entry == entry_is_taker
            &&& p.exit == tax_of(exit_is_taker, has_exit_book)
        },
{
    if !has_risk {
        return None;
    }
    match cap {
        Some(c) => Some(
            TaxPlan { cap: c, entry: entry_is_taker, exit: exit_tax(exit_is_taker, has_exit_book) },
        ),
        None => None,
    }
}

/// How far into a side a budget reaches.
#[derive(Debug, Clone, Copy, PartialEq, Eq, Structural)]
pub enum Reach {
    /// There is no book to walk.
    NoBook,
    /// The budget is spent before the first level.
    Nothing,
    /// The level at this place is taken in part.
    Partly(usize),
    /// The whole visible side.
    Whole,
}

/// The first level, at or after `from`, whose slippage exceeds a budget.
pub open spec fn over_budget(slips: Seq<Num>, budget: Num, from: int) -> int
    decreases slips.len() - from,
{
    if from >= slips.len() || slips[from] > budget {
        from
    } else {
        over_budget(slips, budget, from + 1)
    }
}

/// How far into a side a budget reaches.
pub open spec fn reach_of(has_mid: bool, slips: Seq<Num>, budget: Num) -> Reach {
    if !has_mid || slips.len() == 0 {
        Reach::NoBook
    } else if budget <= 0 {
        Reach::Nothing
    } else if over_budget(slips, budget, 0) < slips.len() {
        Reach::Partly(over_budget(slips, budget, 0) as usize)
    } else {
        Reach::Whole
    }
}

/// How far into a side a budget reaches. `slips` is the slippage of the side
/// once each level is taken whole.
pub fn max_notional(has_mid: bool, slips: &Vec<Num>, budget: Num) -> (r: Reach)
    ensures
        r == reach_of(has_mid, slips@, budget),
{
    if !has_mid || slips.len() == 0 {
        return Reach::NoBook;
    }
    if budget <= 0 {
        return Reach::Nothing;
    }
    let mut i: usize = 0;
    while i < slips.len() && slips[i] <= budget
        invariant
            i <= slips@.len(),
            over_budget(slips@, budget, i as int) == over_budget(slips@, budget, 0),
        decreases slips@.len() - i,
    {
        i = i + 1;
    }
    if i < slips.len() {
        Reach::Partly(i)
    } else {
        Reach::Whole
    }
}

// ─── Snapshots ──────────────────────────────────────────────────────────────

/// An hourly file's place below the snapshot root.
#[derive(Debug)]
pub struct HourFile {
    pub asset_dir: String,
    pub date: String,
    pub file: String,
}

/// A character that cannot stand in a path is replaced.
pub open spec fn path_char(c: char) -> char {
    if c == ':' {
        '_'
    } else {
        c
    }
}

/// An asset's name as a directory.
pub open spec fn asset_dir(asset: Seq<char>) -> Seq<char> {
    Seq::new(asset.len(), |i: int| path_char(asset[i]))
}

/// A decimal digit.
pub open spec fn digit(d: int) -> char {
    "0123456789"@[d]
}

/// An hour's file name.
pub open spec fn hour_file_name(hour: int) -> Seq<char> {
    "l2-"@ + seq![digit(hour / 10), digit(hour % 10)] + ".parquet"@
}

/// The hour of the day of an instant.
pub open spec fn hour_of(at: int) -> int {
    unix_second(at) % (DAY_SECS as int) / 3600
}

fn hour_of_day(at: Stamp) -> (r: usize)
    ensures
        r == hour_of(at as int),
        r < 24,
{
    (second_of_day(at) / 3600) as usize
}

fn digit_char(d: usize) -> (r: char)
    requires
        d < 10,
    ensures
        r == digit(d as int),
{
    proof {
        reveal_strlit("0123456789");
    }
    "0123456789".get_char(d)
}

/// The file that holds an asset's snapshots of an instant's hour.
pub fn hour_file(asset: &str, at: Stamp) -> (r: HourFile)
    requires
        on_calendar(at as int),
    ensures
        r.asset_dir@ == asset_dir(asset@),
        r.date@ == stamp_text(at, DATE@),
        r.file@ == hour_file_name(hour_of(at as int)),
{
    let chars = chars_of(asset);
    let mut dir: Vec<char> = Vec::new();
    let mut i: usize = 0;
    while i < chars.len()
        invariant
            i <= chars@.len(),
            chars@ == asset@,
            dir@.len() == i,
            forall|k: int| 0 <= k < i ==> #[trigger] dir@[k] == path_char(asset@[k]),
        decreases chars@.len() - i,
    {
        let c = chars[i];
        dir.push(
            if c == ':' {
                '_'
            } else {
                c
            },
        );
        i = i + 1;
    }
    proof {
        assert(dir@ =~= asset_dir(asset@));
    }
    let hour: usize = hour_of_day(at);
    let mut digits: Vec<char> = Vec::new();
    digits.push(digit_char(hour / 10));
    digits.push(digit_char(hour % 10));
    proof {
        assert(digits@ =~= seq![digit(hour as int / 10), digit(hour as int % 10)]);
    }
    let mut file = "l2-".to_owned();
    file.append(string_of(&digits).as_str());
    file.append(".parquet");
    HourFile { asset_dir: string_of(&dir), date: date_stamp(at), file }
}

/// The times ascend.
pub open spec fn ascending_times(times: Seq<i64>) -> bool {
    forall|i: int, j: int| 0 <= i <= j < times.len() ==> #[trigger] times[i] <= #[trigger] times[j]
}

/// How many times are not after an instant.
pub open spec fn count_until(times: Seq<i64>, ts: i64) -> nat
    decreases times.len(),
{
    if times.len() == 0 {
        0
    } else {
        count_until(times.drop_last(), ts) + if times.last() <= ts {
            1nat
        } else {
            0nat
        }
    }
}

proof fn lemma_count_until(times: Seq<i64>, ts: i64, k: int)
    requires
        0 <= k <= times.len(),
        forall|i: int| 0 <= i < k ==> #[trigger] times[i] <= ts,
        forall|i: int| k <= i < times.len() ==> #[trigger] times[i] > ts,
    ensures
        count_until(times, ts) == k,
    decreases times.len(),
{
    if times.len() > 0 {
        let d = times.drop_last();
        assert(times.last() == times[times.len() - 1]);
        if k == times.len() {
            lemma_count_until(d, ts, k - 1);
        } else {
            lemma_count_until(d, ts, k);
        }
    }
}

fn partition_point(times: &Vec<i64>, ts: i64) -> (r: usize)
    requires
        ascending_times(times@),
    ensures
        r == count_until(times@, ts),
        r <= times@.len(),
        forall|i: int| 0 <= i < r ==> #[trigger] times@[i] <= ts,
{
    let mut lo: usize = 0;
    let mut hi: usize = times.len();
    while lo < hi
        invariant
            ascending_times(times@),
            lo <= hi <= times@.len(),
            forall|i: int| 0 <= i < lo ==> #[trigger] times@[i] <= ts,
            forall|i: int| hi <= i < times@.len() ==> #[trigger] times@[i] > ts,
        decreases hi - lo,
    {
        let mid: usize = lo + (hi - lo) / 2;
        if times[mid] <= ts {
            proof {
                assert forall|i: int| 0 <= i < mid + 1 implies #[trigger] times@[i] <= ts by {
                    assert(times@[i] <= times@[mid as int]);
                }
            }
            lo = mid + 1;
        } else {
            proof {
                assert forall|i: int| mid <= i < times@.len() implies #[trigger] times@[i] > ts by {
                    assert(times@[mid as int] <= times@[i]);
                }
            }
            hi = mid;
        }
    }
    proof {
        lemma_count_until(times@, ts, lo as int);
    }
    lo
}

/// The snapshot a moment is sized on: which of the two hours, and its place
/// there. The hour itself comes first; the hour before it only where the hour
/// has no snapshot yet; and it must not be older than `max_age` milliseconds.
pub open spec fn pick(
    hour: Option<Seq<i64>>,
    before: Option<Seq<i64>>,
    ts: i64,
    max_age: i64,
) -> Option<(usize, usize)> {
    let a = match hour {
        Some(t) => count_until(t, ts),
        None => 0,
    };
    let b = match before {
        Some(t) => count_until(t, ts),
        None => 0,
    };
    if a > 0 {
        if ts - hour->0[a - 1] <= max_age {
            Some((0usize, (a - 1) as usize))
        } else {
            None
        }
    } else if b > 0 {
        if ts - before->0[b - 1] <= max_age {
            Some((1usize, (b - 1) as usize))
        } else {
            None
        }
    } else {
        None
    }
}

/// The times of an hour's snapshots, where its file exists.
pub open spec fn hour_times(h: Option<Vec<i64>>) -> Option<Seq<i64>> {
    match h {
        Some(v) => Some(v@),
        None => None,
    }
}

/// The snapshot to size a moment on: the newest that is not after it, from
/// the hour itself or else the hour before, unless it is too old. The times
/// are in milliseconds and ascend.
pub fn snapshot_before(
    hour: &Option<Vec<i64>>,
    before: &Option<Vec<i64>>,
    at: Stamp,
    max_age: i64,
) -> (r: Option<(usize, usize)>)
    requires
        hour matches Some(v) ==> ascending_times(v@),
        before matches Some(v) ==> ascending_times(v@),
    ensures
        r == pick(
            hour_times(*hour),
            hour_times(*before),
            unix_milli(at as int) as i64,
            max_age,
        ),
{
    let ts: i64 = unix_millis(at);
    if let Some(v) = hour {
        let n: usize = partition_point(v, ts);
        if n > 0 {
            if ts as i128 - v[n - 1] as i128 <= max_age as i128 {
                return Some((0, n - 1));
            }
            return None;
        }
    }
    if let Some(v) = before {
        let n: usize = partition_point(v, ts);
        if n > 0 {
            if ts as i128 - v[n - 1] as i128 <= max_age as i128 {
                return Some((1, n - 1));
            }
        }
    }
    None
}

proof fn lemma_counted(times: Seq<i64>, ts: i64)
    requires
        ascending_times(times),
    ensures
        count_until(times, ts) <= times.len(),
        forall|i: int| 0 <= i < count_until(times, ts) ==> #[trigger] times[i] <= ts,
        forall|i: int| count_until(times, ts) <= i < times.len() ==> #[trigger] times[i] > ts,
    decreases times.len(),
{
    if times.len() > 0 {
        let d = times.drop_last();
        assert forall|i: int, j: int| 0 <= i <= j < d.len() implies #[trigger] d[i]
            <= #[trigger] d[j] by {
            assert(times[i] <= times[j]);
        }
        lemma_counted(d, ts);
        let n = count_until(d, ts);
        assert forall|i: int| 0 <= i < times.len() && times.last() <= ts implies times[i] <= ts by {
            assert(times[i] <= times[times.len() - 1]);
        }
        if times.last() <= ts && n < d.len() {
            assert(d[n as int] > ts);
            assert(times[n as int] <= times[times.len() - 1]);
        }
        assert forall|i: int| 0 <= i < count_until(times, ts) implies #[trigger] times[i] <= ts by {
            if i < n {
                assert(d[i] <= ts);
            }
        }
        assert forall|i: int| count_until(times, ts) <= i < times.len() implies #[trigger] times[i]
            > ts by {
            if i < d.len() {
                assert(d[i] > ts);
            }
        }
    }
}

/// A picked snapshot is never after the moment, never too old, and no newer
/// one of its hour would do.
pub proof fn law_snapshots_never_look_ahead(
    hour: Option<Seq<i64>>,
    before: Option<Seq<i64>>,
    ts: i64,
    max_age: i64,
)
    requires
        hour matches Some(t) ==> ascending_times(t) && t.len() <= usize::MAX,
        before matches Some(t) ==> ascending_times(t) && t.len() <= usize::MAX,
    ensures
        pick(hour, before, ts, max_age) matches Some(p) ==> {
            let t = if p.0 == 0 {
                hour->0
            } else {
                before->0
            };
            &&& p.1 < t.len()
            &&& t[p.1 as int] <= ts
            &&& ts - t[p.1 as int] <= max_age
            &&& forall|i: int| p.1 < i < t.len() ==> #[trigger] t[i] > ts
        },
{
    if let Some(t) = hour {
        lemma_counted(t, ts);
    }
    if let Some(t) = before {
        lemma_counted(t, ts);
    }
}

/// A long buys from the asks and sells to the bids; a short does the reverse,
/// so that what one side enters by the other leaves by.
pub proof fn law_a_short_is_a_long_reversed()
    ensures
        legs_of(true) == (Side::Ask, Side::Bid),
        legs_of(false) == (legs_of(true).1, legs_of(true).0),
{
}

/// A trade's cap is the lesser of its legs', bound by the leg it is of and
/// censored as that leg is; the entry binds where they are equal, and there is
/// no cap without both.
pub proof fn law_the_lesser_leg_binds(entry: Option<LegCap>, exit: Option<LegCap>)
    ensures
        ({
            let c = cap_of(entry, exit);
            &&& c is Some <==> entry is Some && exit is Some
            &&& c is Some && entry->0.notional <= exit->0.notional ==> c->0.notional
                == entry->0.notional && c->0.censored == entry->0.censored && c->0.binding
                == Leg::Entry
            &&& c is Some && entry->0.notional > exit->0.notional ==> c->0.notional
                == exit->0.notional && c->0.censored == exit->0.censored && c->0.binding
                == Leg::Exit
        }),
{
}

/// A book is walked up to the first level whose slippage is over the budget:
/// every level before it is within, and where there is none the walk reaches
/// the end.
pub proof fn law_the_walk_stops_over_budget(slips: Seq<Num>, budget: Num, from: int)
    requires
        0 <= from <= slips.len(),
    ensures
        ({
            let r = over_budget(slips, budget, from);
            &&& from <= r <= slips.len()
            &&& forall|i: int| from <= i < r ==> #[trigger] slips[i] <= budget
            &&& r < slips.len() ==> slips[r] > budget
        }),
    decreases slips.len() - from,
{
    if from < slips.len() && slips[from] <= budget {
        law_the_walk_stops_over_budget(slips, budget, from + 1);
    }
}

/// The snapshot picked is the last of the hour at or before the moment; of the
/// hour before only where this hour has none; and none where that one is too
/// old or where neither hour has one.
pub proof fn law_the_latest_snapshot_is_picked(
    hour: Option<Seq<i64>>,
    before: Option<Seq<i64>>,
    ts: i64,
    max_age: i64,
    i: int,
    j: int,
)
    requires
        hour matches Some(t) ==> ascending_times(t) && t.len() <= usize::MAX,
        before matches Some(t) ==> ascending_times(t) && t.len() <= usize::MAX,
        is_last_until(hour, ts, i),
        is_last_until(before, ts, j),
    ensures
        ({
            let p = pick(hour, before, ts, max_age);
            &&& i >= 0 && ts - hour->0[i] <= max_age ==> p == Some((0usize, i as usize))
            &&& i >= 0 && ts - hour->0[i] > max_age ==> p is None
            &&& i < 0 && j >= 0 && ts - before->0[j] <= max_age ==> p == Some((1usize, j as usize))
            &&& i < 0 && j >= 0 && ts - before->0[j] > max_age ==> p is None
            &&& i < 0 && j < 0 ==> p is None
        }),
{
    lemma_last_until(hour, ts, i);
    lemma_last_until(before, ts, j);
}

/// A place holds the last time at or before a moment, or is -1 where there is
/// none.
pub open spec fn is_last_until(times: Option<Seq<i64>>, ts: i64, i: int) -> bool {
    match times {
        None => i == -1,
        Some(t) => {
            &&& -1 <= i < t.len()
            &&& i >= 0 ==> t[i] <= ts
            &&& forall|m: int| i < m < t.len() ==> #[trigger] t[m] > ts
        },
    }
}

proof fn lemma_last_until(times: Option<Seq<i64>>, ts: i64, i: int)
    requires
        times matches Some(t) ==> ascending_times(t) && t.len() <= usize::MAX,
        is_last_until(times, ts, i),
    ensures
        times matches Some(t) ==> count_until(t, ts) == i + 1,
{
    if let Some(t) = times {
        lemma_counted(t, ts);
        let n = count_until(t, ts);
        if n < i + 1 {
            assert(t[i] > ts);
        }
        if n > i + 1 {
            assert(t[i + 1] <= ts);
        }
    }
}

/// An hour's file is named by the hour of the day in two digits, in a directory
/// named by the asset with its colons as underscores.
pub proof fn law_an_hour_has_two_digits(at: int, asset: Seq<char>, i: int)
    requires
        0 <= i < asset.len(),
    ensures
        ({
            let h = hour_of(at);
            let name = hour_file_name(h);
            let second = at / 2_000_000_000 % 86_400;
            &&& 0 <= h < 24 && h * 3600 <= second && second < (h + 1) * 3600
            &&& name.len() == 13
            &&& (name[3] as int - '0' as int) * 10 + (name[4] as int - '0' as int) == h
        }),
        asset[i] == ':' ==> asset_dir(asset)[i] == '_',
        asset[i] != ':' ==> asset_dir(asset)[i] == asset[i],
        asset_dir(asset).len() == asset.len(),
{
    reveal_strlit("0123456789");
    reveal_strlit("l2-");
    reveal_strlit(".parquet");
}

/// A level is kept as it is when its price and its size are there and positive,
/// and not otherwise.
pub proof fn law_a_level_needs_a_price_and_a_size(px: Option<Num>, sz: Option<Num>)
    ensures
        ({
            let r = kept_level(px, sz);
            &&& r is Some <==> px is Some && sz is Some && 0 < px->0 && 0 < sz->0
            &&& r is Some ==> (r->0).0 == px->0 && (r->0).1 == sz->0
        }),
{
}

/// A resting exit costs nothing; a taking one costs the premium of its book,
/// where there is a book to tell.
pub proof fn law_only_taking_exits_are_taxed(taker: bool, has_book: bool)
    ensures
        tax_of(taker, has_book) == ExitTax::Free <==> !taker,
        tax_of(taker, has_book) == ExitTax::Premium <==> taker && has_book,
        tax_of(taker, has_book) == ExitTax::BookMissing <==> taker && !has_book,
{
}

/// A budget reaches the levels whose slippage it covers: all of them, up to the
/// first it does not, or none where it is not positive; without a book there is
/// nothing to reach.
pub proof fn law_a_budget_reaches_what_it_covers(
    has_mid: bool,
    slips: Seq<Num>,
    budget: Num,
    i: int,
)
    requires
        slips.len() <= usize::MAX,
        0 <= i <= slips.len(),
        forall|j: int| 0 <= j < i ==> #[trigger] slips[j] <= budget,
        i < slips.len() ==> slips[i] > budget,
    ensures
        ({
            let r = reach_of(has_mid, slips, budget);
            let book = has_mid && slips.len() > 0;
            &&& !book <==> r == Reach::NoBook
            &&& book && budget <= 0 <==> r == Reach::Nothing
            &&& book && budget > 0 && i < slips.len() ==> r == Reach::Partly(i as usize)
            &&& book && budget > 0 && i == slips.len() ==> r == Reach::Whole
        }),
{
    law_the_walk_stops_over_budget(slips, budget, 0);
    let r = over_budget(slips, budget, 0);
    if r < i {
        assert(slips[r] <= budget);
    }
}

} // verus!
