//! What a run is reported as: groups, rows and records, ready to be printed.
use vstd::prelude::*;
use crate::clock::{is_on_calendar, iso_stamp, on_calendar, stamp_text, Stamp, ISO};
use crate::key::Num;
use crate::models::{asset_name, sig_type_name, tf_name, Direction, Names, PaperTrade, TradeResult};
use crate::paper::book::{Book, Knobs, PaperTrader};
use crate::paper::counters::HybridFillCounters;
use crate::paper::settle::count_of;
use crate::record::{num_of, text_of, Fields, Leaf, LeafView, Record};
use crate::sort::{order_of, stable_order, stable_order_of, Key};

verus! {

// ─── Groups ─────────────────────────────────────────────────────────────────

/// What trades are grouped by.
#[derive(Debug, Clone, Copy, PartialEq, Eq, Structural)]
pub enum GroupBy {
    SignalType,
    Asset,
}

/// The id a trade is grouped under.
pub open spec fn group_id(by: GroupBy, t: PaperTrade) -> u16 {
    match by {
        GroupBy::SignalType => t.signal_type,
        GroupBy::Asset => t.asset,
    }
}

/// The trades of one group, by their places in the ledger.
pub open spec fn members(trades: Seq<PaperTrade>, by: GroupBy, id: u16) -> Seq<usize>
    decreases trades.len(),
{
    if trades.len() == 0 {
        Seq::empty()
    } else {
        let rest = members(trades.drop_last(), by, id);
        if group_id(by, trades.last()) == id {
            rest.push((trades.len() - 1) as usize)
        } else {
            rest
        }
    }
}

/// How many trades of one group ended so.
pub open spec fn group_count(
    trades: Seq<PaperTrade>,
    by: GroupBy,
    id: u16,
    result: TradeResult,
) -> nat
    decreases trades.len(),
{
    if trades.len() == 0 {
        0
    } else {
        group_count(trades.drop_last(), by, id, result) + if group_id(by, trades.last()) == id
            && trades.last().result == result {
            1nat
        } else {
            0nat
        }
    }
}

/// One group of trades.
#[derive(Debug)]
pub struct Group {
    pub id: u16,
    /// Places in the ledger, ascending.
    pub members: Vec<usize>,
    pub wins: usize,
    pub losses: usize,
    pub inconclusive: usize,
}

/// The group holds exactly its id's trades, and there are some.
pub open spec fn group_ok(trades: Seq<PaperTrade>, by: GroupBy, g: Group) -> bool {
    &&& g.members@ == members(trades, by, g.id)
    &&& g.members@.len() > 0
    &&& g.wins == group_count(trades, by, g.id, TradeResult::Win)
    &&& g.losses == group_count(trades, by, g.id, TradeResult::Loss)
    &&& g.inconclusive == group_count(trades, by, g.id, TradeResult::Inconclusive)
}

/// Some group of the list is the id's.
pub open spec fn has_group(groups: Seq<Group>, id: u16) -> bool {
    exists|g: int| 0 <= g < groups.len() && (#[trigger] groups[g]).id == id
}

/// Some trade of the ledger is the id's.
pub open spec fn has_member(trades: Seq<PaperTrade>, by: GroupBy, id: u16) -> bool {
    exists|i: int| 0 <= i < trades.len() && group_id(by, #[trigger] trades[i]) == id
}

fn id_of(by: GroupBy, t: &PaperTrade) -> (r: u16)
    ensures
        r == group_id(by, *t),
{
    match by {
        GroupBy::SignalType => t.signal_type,
        GroupBy::Asset => t.asset,
    }
}

/// The ids are strictly ascending.
pub open spec fn ascending(ids: Seq<u16>) -> bool {
    forall|i: int, j: int| 0 <= i < j < ids.len() ==> #[trigger] ids[i] < #[trigger] ids[j]
}

fn insert_id(ids: &mut Vec<u16>, id: u16)
    requires
        ascending(old(ids)@),
    ensures
        ascending(final(ids)@),
        final(ids)@.contains(id),
        forall|x: u16| old(ids)@.contains(x) ==> final(ids)@.contains(x),
        forall|x: u16| final(ids)@.contains(x) ==> x == id || old(ids)@.contains(x),
{
    let mut i: usize = 0;
    let ghost s = ids@;
    while i < ids.len() && ids[i] < id
        invariant
            ids@ == s,
            ascending(s),
            i <= s.len(),
            forall|k: int| 0 <= k < i ==> #[trigger] s[k] < id,
        decreases s.len() - i,
    {
        i = i + 1;
    }
    if i < ids.len() && ids[i] == id {
        assert(ids@[i as int] == id);
        return;
    }
    ids.insert(i, id);
    proof {
        let t = ids@;
        assert(t == s.insert(i as int, id));
        assert(t[i as int] == id);
        assert forall|a: int, b: int| 0 <= a < b < t.len() implies #[trigger] t[a] < #[trigger] t[b] by {
            if a < i {
                assert(t[a] == s[a]);
                if b == i {
                } else if b < i {
                    assert(t[b] == s[b]);
                } else {
                    assert(t[b] == s[b - 1]);
                }
            } else if a == i {
                assert(t[b] == s[b - 1]);
                assert(s[i as int] > id);
                if b - 1 > i {
                    assert(s[i as int] < s[b - 1]);
                }
            } else {
                assert(t[a] == s[a - 1]);
                assert(t[b] == s[b - 1]);
            }
        }
        assert forall|x: u16| s.contains(x) implies t.contains(x) by {
            let k = choose|k: int| 0 <= k < s.len() && s[k] == x;
            if k < i {
                assert(t[k] == x);
            } else {
                assert(t[k + 1] == x);
            }
        }
        assert forall|x: u16| t.contains(x) implies x == id || s.contains(x) by {
            let k = choose|k: int| 0 <= k < t.len() && t[k] == x;
            if k < i {
                assert(s[k] == x);
            } else if k > i {
                assert(s[k - 1] == x);
            }
        }
    }
}

fn collect_group(trades: &Vec<PaperTrade>, by: GroupBy, id: u16) -> (r: Group)
    ensures
        r.id == id,
        r.members@ == members(trades@, by, id),
        r.wins == group_count(trades@, by, id, TradeResult::Win),
        r.losses == group_count(trades@, by, id, TradeResult::Loss),
        r.inconclusive == group_count(trades@, by, id, TradeResult::Inconclusive),
{
    let mut list: Vec<usize> = Vec::new();
    let mut wins: usize = 0;
    let mut losses: usize = 0;
    let mut inconclusive: usize = 0;
    let ghost t = trades@;
    let mut i: usize = 0;
    while i < trades.len()
        invariant
            t == trades@,
            i <= t.len(),
            wins <= i,
            losses <= i,
            inconclusive <= i,
            list@ == members(t.subrange(0, i as int), by, id),
            wins == group_count(t.subrange(0, i as int), by, id, TradeResult::Win),
            losses == group_count(t.subrange(0, i as int), by, id, TradeResult::Loss),
            inconclusive == group_count(t.subrange(0, i as int), by, id, TradeResult::Inconclusive),
        decreases t.len() - i,
    {
        proof {
            assert(t.subrange(0, i + 1).drop_last() =~= t.subrange(0, i as int));
        }
        if id_of(by, &trades[i]) == id {
            list.push(i);
            match trades[i].result {
                TradeResult::Win => wins = wins + 1,
                TradeResult::Loss => losses = losses + 1,
                TradeResult::Inconclusive => inconclusive = inconclusive + 1,
            }
        }
        i = i + 1;
    }
    proof {
        assert(t.subrange(0, i as int) =~= t);
    }
    Group { id, members: list, wins, losses, inconclusive }
}

proof fn lemma_members_nonempty(trades: Seq<PaperTrade>, by: GroupBy, id: u16, i: int)
    requires
        0 <= i < trades.len(),
        group_id(by, trades[i]) == id,
    ensures
        members(trades, by, id).len() > 0,
    decreases trades.len(),
{
    if i < trades.len() - 1 {
        lemma_members_nonempty(trades.drop_last(), by, id, i);
    }
}

impl PaperTrader {
    /// The ledger in groups, ascending by id: every trade is in the group of
    /// its id, and no group is empty.
    pub fn groups(&self, by: GroupBy) -> (r: Vec<Group>)
        ensures
            forall|g: int| 0 <= g < r@.len() ==> group_ok(self@.trades, by, #[trigger] r@[g]),
            forall|g: int, h: int|
                0 <= g < h < r@.len() ==> (#[trigger] r@[g]).id < (#[trigger] r@[h]).id,
            forall|i: int|
                0 <= i < self@.trades.len() ==> has_group(
                    r@,
                    group_id(by, #[trigger] self@.trades[i]),
                ),
    {
        let ghost t = self.trades@;
        let mut ids: Vec<u16> = Vec::new();
        let mut i: usize = 0;
        while i < self.trades.len()
            invariant
                t == self.trades@,
                i <= t.len(),
                ascending(ids@),
                forall|k: int| 0 <= k < i ==> ids@.contains(group_id(by, #[trigger] t[k])),
                forall|x: u16|
                    ids@.contains(x) ==> exists|k: int|
                        0 <= k < i && group_id(by, #[trigger] t[k]) == x,
            decreases t.len() - i,
        {
            let ghost before = ids@;
            let id: u16 = id_of(by, &self.trades[i]);
            insert_id(&mut ids, id);
            proof {
                assert forall|x: u16| ids@.contains(x) implies exists|k: int|
                    0 <= k < i + 1 && group_id(by, #[trigger] t[k]) == x by {
                    if x == id {
                        assert(group_id(by, t[i as int]) == x);
                    } else {
                        let k = choose|k: int| 0 <= k < i && group_id(by, #[trigger] t[k]) == x;
                        assert(group_id(by, t[k]) == x);
                    }
                }
            }
            i = i + 1;
        }
        let mut out: Vec<Group> = Vec::new();
        let mut j: usize = 0;
        while j < ids.len()
            invariant
                t == self.trades@,
                j <= ids@.len(),
                out@.len() == j,
                forall|x: u16|
                    ids@.contains(x) ==> exists|k: int|
                        0 <= k < t.len() && group_id(by, #[trigger] t[k]) == x,
                forall|g: int|
                    0 <= g < j ==> group_ok(t, by, #[trigger] out@[g]) && out@[g].id == ids@[g],
            decreases ids@.len() - j,
        {
            let g = collect_group(&self.trades, by, ids[j]);
            proof {
                assert(ids@.contains(ids@[j as int]));
                let k = choose|k: int|
                    0 <= k < t.len() && group_id(by, #[trigger] t[k]) == ids@[j as int];
                lemma_members_nonempty(t, by, ids@[j as int], k);
            }
            out.push(g);
            j = j + 1;
        }
        proof {
            assert forall|k: int| 0 <= k < t.len() implies has_group(
                out@,
                group_id(by, #[trigger] t[k]),
            ) by {
                assert(ids@.contains(group_id(by, t[k])));
                let g = choose|g: int| 0 <= g < ids@.len() && ids@[g] == group_id(by, t[k]);
                assert(out@[g].id == ids@[g]);
            }
        }
        out
    }

    /// The ledger's places in the order in which the signals came.
    pub fn rows_by_time(&self) -> (r: Vec<usize>)
        ensures
            stable_order_of(time_keys(self@.trades), r@),
            r@ == order_of(time_keys(self@.trades)),
    {
        let mut keys: Vec<Key> = Vec::new();
        let mut i: usize = 0;
        while i < self.trades.len()
            invariant
                i <= self.trades@.len(),
                keys@.len() == i,
                forall|k: int| 0 <= k < i ==> #[trigger] keys@[k] == (self.trades@[k].opened_at, 0i64),
            decreases self.trades@.len() - i,
        {
            keys.push((self.trades[i].opened_at, 0));
            i = i + 1;
        }
        proof {
            assert(keys@ =~= time_keys(self@.trades));
        }
        stable_order(&keys)
    }

    /// The account's events in time order. At one instant the closes of trades
    /// opened earlier come first, then the opens, then the closes of trades
    /// opened at that instant. Event `2 * i` is trade `i`'s open, event
    /// `2 * i + 1` its close. A trade without a close counts as closed when it
    /// was opened.
    pub fn equity_events(&self) -> (r: Vec<usize>)
        requires
            self@.trades.len() * 2 <= usize::MAX,
        ensures
            stable_order_of(equity_keys(self@.trades), r@),
    {
        let mut keys: Vec<Key> = Vec::new();
        let mut i: usize = 0;
        while i < self.trades.len()
            invariant
                i <= self.trades@.len(),
                keys@.len() == 2 * i,
                forall|k: int|
                    0 <= k < 2 * i ==> #[trigger] keys@[k] == equity_key(self.trades@, k),
            decreases self.trades@.len() - i,
        {
            let t = &self.trades[i];
            let close: Stamp = match t.closed_at {
                Some(at) => at,
                None => t.opened_at,
            };
            let kind: i64 = if close == t.opened_at {
                2
            } else {
                0
            };
            keys.push((t.opened_at, 1));
            keys.push((close, kind));
            i = i + 1;
        }
        proof {
            assert(keys@ =~= equity_keys(self@.trades));
        }
        stable_order(&keys)
    }
}

/// The keys that order the ledger by signal time.
pub open spec fn time_keys(trades: Seq<PaperTrade>) -> Seq<Key> {
    Seq::new(trades.len(), |i: int| (trades[i].opened_at, 0i64))
}

/// When a trade counts as closed: where it has no close, when it was opened.
pub open spec fn close_instant(t: PaperTrade) -> Stamp {
    match t.closed_at {
        Some(at) => at,
        None => t.opened_at,
    }
}

/// The key of one account event: its instant, and there the closes of trades
/// opened earlier, the opens, and the closes of trades opened at that instant.
pub open spec fn equity_key(trades: Seq<PaperTrade>, e: int) -> Key {
    let t = trades[e / 2];
    if e % 2 == 0 {
        (t.opened_at, 1i64)
    } else if close_instant(t) == t.opened_at {
        (t.opened_at, 2i64)
    } else {
        (close_instant(t), 0i64)
    }
}

/// The keys of all account events.
pub open spec fn equity_keys(trades: Seq<PaperTrade>) -> Seq<Key> {
    Seq::new(2 * trades.len(), |e: int| equity_key(trades, e))
}

/// The account's events run in time order; at one instant a trade opened
/// earlier is closed before any trade is opened, and a trade is opened before
/// it is closed itself. So every trade risks its fraction before it books.
pub proof fn law_capital_is_risked_before_it_is_booked(
    trades: Seq<PaperTrade>,
    order: Seq<usize>,
    p: int,
    q: int,
)
    requires
        stable_order_of(equity_keys(trades), order),
        0 <= p < order.len(),
        0 <= q < order.len(),
    ensures
        p < q ==> equity_key(trades, order[p] as int).0 <= equity_key(trades, order[q] as int).0,
        order[p] % 2 == 0 && order[q] == order[p] + 1 && trades[order[p] as int / 2].opened_at
            <= close_instant(trades[order[p] as int / 2]) ==> p < q,
        order[p] % 2 == 1 && order[q] % 2 == 0 && close_instant(trades[order[p] as int / 2])
            == trades[order[q] as int / 2].opened_at && trades[order[p] as int / 2].opened_at
            < close_instant(trades[order[p] as int / 2]) ==> p < q,
{
    let keys = equity_keys(trades);
    assert(keys[order[p] as int] == equity_key(trades, order[p] as int));
    assert(keys[order[q] as int] == equity_key(trades, order[q] as int));
}

/// The groups' order by profit, best first: `profits[g]` is the summed R of
/// group `g`.
pub fn order_by_profit(profits: &Vec<Num>) -> (r: Vec<usize>)
    ensures
        stable_order_of(profit_keys(profits@), r@),
        r@ == order_of(profit_keys(profits@)),
{
    let mut keys: Vec<Key> = Vec::new();
    let mut i: usize = 0;
    while i < profits.len()
        invariant
            i <= profits@.len(),
            keys@.len() == i,
            forall|k: int| 0 <= k < i ==> #[trigger] keys@[k] == ((-profits@[k]) as i128, 0i64),
        decreases profits@.len() - i,
    {
        keys.push((-(profits[i] as i128), 0));
        i = i + 1;
    }
    proof {
        assert(keys@ =~= profit_keys(profits@));
    }
    stable_order(&keys)
}

/// The keys that order groups by profit, best first.
pub open spec fn profit_keys(profits: Seq<Num>) -> Seq<Key> {
    Seq::new(profits.len(), |i: int| ((-profits[i]) as i128, 0i64))
}

// ─── Table cells ────────────────────────────────────────────────────────────

/// A direction's mark in the table.
pub fn arrow(direction: Direction) -> (r: &'static str)
    ensures
        r@ == match direction {
            Direction::Bull => "▲"@,
            Direction::Bear => "▼"@,
        },
{
    match direction {
        Direction::Bull => "▲",
        Direction::Bear => "▼",
    }
}

/// A result's word in the table.
pub fn result_cell(result: TradeResult) -> (r: &'static str)
    ensures
        r@ == match result {
            TradeResult::Win => "WIN"@,
            TradeResult::Loss => "LOSS"@,
            TradeResult::Inconclusive => "---"@,
        },
{
    match result {
        TradeResult::Win => "WIN",
        TradeResult::Loss => "LOSS",
        TradeResult::Inconclusive => "---",
    }
}

// ─── Records ────────────────────────────────────────────────────────────────

/// The trade's ids are known to the pools.
pub open spec fn ids_known(t: PaperTrade, names: Names) -> bool {
    &&& t.asset < names.assets@.len()
    &&& t.signal_type < names.sig_types@.len()
    &&& t.timeframe < names.timeframes@.len()
}

/// An instant that may be missing.
pub open spec fn maybe_stamp(name: Seq<char>, at: Option<Stamp>) -> (Seq<char>, LeafView) {
    (
        name,
        match at {
            Some(s) => LeafView::Text(stamp_text(s, ISO@)),
            None => LeafView::Null,
        },
    )
}

/// A number that may be missing.
pub open spec fn maybe_num(name: Seq<char>, there: bool, x: Num) -> (Seq<char>, LeafView) {
    (
        name,
        if there {
            LeafView::Num(x)
        } else {
            LeafView::Null
        },
    )
}

/// The figures of a trade that its record shows and the ledger does not hold.
#[derive(Debug, Clone, Copy, PartialEq, Eq, Structural)]
pub struct TradeFigures {
    pub gross_r: Num,
    /// The balance after the trade, and its profit, of an account that
    /// compounds.
    pub equity: Num,
    pub pnl_dollars: Num,
}

/// A trade's record.
pub open spec fn trade_fields(
    t: PaperTrade,
    f: TradeFigures,
    compounds: bool,
    ready: Option<Stamp>,
    names: Names,
) -> Fields {
    seq![
        text_of("opportunity_id"@, t.opportunity_id@),
        text_of("signal_type"@, names.sig_types@[t.signal_type as int]),
        text_of("asset"@, names.assets@[t.asset as int]),
        text_of("timeframe"@, names.timeframes@[t.timeframe as int]),
        text_of("direction"@, t.direction.label()),
        num_of("entry"@, t.entry),
        num_of("fill"@, t.fill),
        num_of("stop"@, t.stop),
        num_of("tp"@, t.tp),
        num_of("score"@, t.score),
        text_of("opened_at"@, stamp_text(t.opened_at, ISO@)),
        maybe_stamp("filled_at"@, t.filled_at),
        maybe_stamp("closed_at"@, t.closed_at),
        text_of("result"@, t.result.label()),
        num_of("r_pnl"@, t.r_pnl),
        num_of("fee_r"@, t.fee_r),
        num_of("gross_r_pnl"@, f.gross_r),
        maybe_num("equity"@, compounds, f.equity),
        maybe_num("pnl_dollars"@, compounds, f.pnl_dollars),
        maybe_stamp("ready_at"@, ready),
    ]
}

/// An instant, where there is one, is on the calendar.
pub open spec fn maybe_dated(at: Option<Stamp>) -> bool {
    at matches Some(s) ==> on_calendar(s as int)
}

/// A trade's times are on the calendar.
pub open spec fn times_dated(t: PaperTrade) -> bool {
    on_calendar(t.opened_at as int) && maybe_dated(t.filled_at) && maybe_dated(t.closed_at)
}

fn put_stamp(r: &mut Record, name: &str, at: Option<Stamp>)
    requires
        maybe_dated(at),
    ensures
        final(r)@ == old(r)@.push(maybe_stamp(name@, at)),
{
    match at {
        Some(s) => r.text(name, iso_stamp(s).as_str()),
        None => r.put(name, Leaf::Null),
    }
}

fn is_dated_if_any(at: Option<Stamp>) -> (r: bool)
    ensures
        r == maybe_dated(at),
{
    match at {
        Some(s) => is_on_calendar(s),
        None => true,
    }
}

fn put_num(r: &mut Record, name: &str, there: bool, x: Num)
    ensures
        final(r)@ == old(r)@.push(maybe_num(name@, there, x)),
{
    if there {
        r.num(name, x);
    } else {
        r.put(name, Leaf::Null);
    }
}

/// A trade's record: the ids by their names, the times as ISO.
pub fn trade_record(
    t: &PaperTrade,
    f: &TradeFigures,
    compounds: bool,
    ready: Option<Stamp>,
    names: &Names,
) -> (r: Record)
    requires
        ids_known(*t, *names),
        times_dated(*t),
        maybe_dated(ready),
    ensures
        r@ == trade_fields(*t, *f, compounds, ready, *names),
{
    let mut r = Record::new();
    r.text("opportunity_id", t.opportunity_id.as_str());
    r.text("signal_type", sig_type_name(names, t.signal_type).as_str());
    r.text("asset", asset_name(names, t.asset).as_str());
    r.text("timeframe", tf_name(names, t.timeframe).as_str());
    r.text("direction", t.direction.as_str());
    r.num("entry", t.entry);
    r.num("fill", t.fill);
    r.num("stop", t.stop);
    r.num("tp", t.tp);
    r.num("score", t.score);
    r.text("opened_at", iso_stamp(t.opened_at).as_str());
    put_stamp(&mut r, "filled_at", t.filled_at);
    put_stamp(&mut r, "closed_at", t.closed_at);
    r.text("result", t.result.as_str());
    r.num("r_pnl", t.r_pnl);
    r.num("fee_r", t.fee_r);
    r.num("gross_r_pnl", f.gross_r);
    put_num(&mut r, "equity", compounds, f.equity);
    put_num(&mut r, "pnl_dollars", compounds, f.pnl_dollars);
    put_stamp(&mut r, "ready_at", ready);
    proof {
        assert(r@ =~= trade_fields(*t, *f, compounds, ready, *names));
    }
    r
}

/// A count.
pub open spec fn count_field(name: Seq<char>, n: int) -> (Seq<char>, LeafView) {
    (name, LeafView::Count(n as u64))
}

/// The record of the hybrid model's counts; `first_touch_r` is the attributed
/// net R.
pub open spec fn path_fields(c: HybridFillCounters, first_touch_r: Num) -> Fields {
    seq![
        count_field("past_entry_fills"@, c.past_entry_fills as int),
        count_field("immediate_chases"@, c.immediate_chases as int),
        count_field("deferred_chases"@, c.deferred_chases as int),
        count_field("boundary_chases_from_below"@, c.boundary_chases_from_below as int),
        count_field("boundary_chases_from_above"@, c.boundary_chases_from_above as int),
        count_field("maker_fills"@, c.maker_fills as int),
        count_field("rested_maker_fills"@, c.rested_maker_fills as int),
        count_field("abandon_gap_stop"@, c.abandon_gap_stop as int),
        count_field("abandon_tp_open"@, c.abandon_tp_open as int),
        count_field("abandon_tp_range"@, c.abandon_tp_range as int),
        count_field("abandon_age"@, c.abandon_age as int),
        count_field("abandon_deadline"@, c.abandon_deadline as int),
        count_field("abandon_target_consumed"@, c.abandon_target_consumed as int),
        count_field("abandon_setup_invalidated"@, c.abandon_setup_invalidated as int),
        count_field("first_touch_stop_fills"@, c.first_touch_stop_fills as int),
        num_of("first_touch_stop_r"@, first_touch_r),
    ]
}

fn put_count(r: &mut Record, name: &str, n: usize)
    ensures
        final(r)@ == old(r)@.push(count_field(name@, n as int)),
{
    r.put(name, Leaf::Count(n as u64));
}

/// The record of the hybrid model's counts.
pub fn path_record(c: &HybridFillCounters, first_touch_r: Num) -> (r: Record)
    ensures
        r@ == path_fields(*c, first_touch_r),
{
    let mut r = Record::new();
    put_count(&mut r, "past_entry_fills", c.past_entry_fills);
    put_count(&mut r, "immediate_chases", c.immediate_chases);
    put_count(&mut r, "deferred_chases", c.deferred_chases);
    put_count(&mut r, "boundary_chases_from_below", c.boundary_chases_from_below);
    put_count(&mut r, "boundary_chases_from_above", c.boundary_chases_from_above);
    put_count(&mut r, "maker_fills", c.maker_fills);
    put_count(&mut r, "rested_maker_fills", c.rested_maker_fills);
    put_count(&mut r, "abandon_gap_stop", c.abandon_gap_stop);
    put_count(&mut r, "abandon_tp_open", c.abandon_tp_open);
    put_count(&mut r, "abandon_tp_range", c.abandon_tp_range);
    put_count(&mut r, "abandon_age", c.abandon_age);
    put_count(&mut r, "abandon_deadline", c.abandon_deadline);
    put_count(&mut r, "abandon_target_consumed", c.abandon_target_consumed);
    put_count(&mut r, "abandon_setup_invalidated", c.abandon_setup_invalidated);
    put_count(&mut r, "first_touch_stop_fills", c.first_touch_stop_fills);
    r.num("first_touch_stop_r", first_touch_r);
    proof {
        assert(r@ =~= path_fields(*c, first_touch_r));
    }
    r
}

/// A run's summed figures, computed from the ledger's R multiples.
#[derive(Debug, Clone, Copy, PartialEq, Eq, Structural)]
pub struct RunFigures {
    pub win_rate: Num,
    pub expectancy: Num,
    pub total_r_pnl: Num,
    pub gross_r_pnl: Num,
    pub total_fees: Num,
}

/// The report's own values.
pub open spec fn head_fields(
    label: Seq<char>,
    b: Book,
    knobs: Knobs,
    f: RunFigures,
) -> Fields {
    let wins = count_of(b.trades, TradeResult::Win) as int;
    let losses = count_of(b.trades, TradeResult::Loss) as int;
    seq![
        text_of("label"@, label),
        num_of("rr_target"@, knobs.rr_target),
        num_of("min_score"@, knobs.min_score),
        count_field("opportunities_seen"@, b.seen),
        count_field("opportunities_taken"@, b.taken),
        count_field("trades_decided"@, wins + losses),
        count_field("wins"@, wins),
        count_field("losses"@, losses),
        count_field("inconclusive"@, count_of(b.trades, TradeResult::Inconclusive) as int),
        num_of("win_rate"@, f.win_rate),
        num_of("expectancy"@, f.expectancy),
        num_of("total_r_pnl"@, f.total_r_pnl),
        num_of("gross_r_pnl"@, f.gross_r_pnl),
        num_of("total_fees"@, f.total_fees),
        ("use_fees"@, LeafView::Bool(knobs.use_fees)),
        ("hybrid_fill"@, LeafView::Bool(knobs.hybrid_fill)),
    ]
}

/// A group's record: its counts under the given names.
pub open spec fn group_fields(
    trades: Seq<PaperTrade>,
    by: GroupBy,
    id: u16,
) -> Fields {
    let (w, l) = match by {
        GroupBy::SignalType => ("wins"@, "losses"@),
        GroupBy::Asset => ("win"@, "loss"@),
    };
    seq![
        count_field(w, group_count(trades, by, id, TradeResult::Win) as int),
        count_field(l, group_count(trades, by, id, TradeResult::Loss) as int),
        count_field(
            "inconclusive"@,
            group_count(trades, by, id, TradeResult::Inconclusive) as int,
        ),
    ]
}

/// The name of a group's id.
pub open spec fn group_name(by: GroupBy, id: u16, names: Names) -> Seq<char> {
    match by {
        GroupBy::SignalType => names.sig_types@[id as int],
        GroupBy::Asset => names.assets@[id as int],
    }
}

/// A group's line in a breakdown.
#[derive(Debug)]
pub struct GroupLine {
    pub id: u16,
    pub name: String,
    pub counts: Record,
}

/// A compounding account's figures.
#[derive(Debug, Clone, Copy, PartialEq, Eq, Structural)]
pub struct CompoundFigures {
    pub final_balance: Num,
    pub max_dd_frac: Num,
    /// The final balance over the first one.
    pub multiple: Num,
}

/// The record of a compounding account.
pub open spec fn compound_fields(k: Knobs, f: CompoundFigures) -> Fields {
    seq![
        num_of("risk_frac"@, k.risk_frac),
        num_of("account_size"@, k.account_size),
        num_of("final_balance"@, f.final_balance),
        num_of("max_dd_frac"@, f.max_dd_frac),
        num_of("multiple"@, f.multiple),
    ]
}

/// The lines hold each reason once, with its count.
pub open spec fn skips_listed(skips: Map<Seq<char>, usize>, lines: Seq<(String, usize)>) -> bool {
    &&& forall|i: int|
        0 <= i < lines.len() ==> skips.contains_key((#[trigger] lines[i]).0@)
            && skips[lines[i].0@] == lines[i].1
    &&& forall|k: Seq<char>| #[trigger]
        skips.contains_key(k) ==> exists|i: int|
            0 <= i < lines.len() && (#[trigger] lines[i]).0@ == k
    &&& forall|i: int, j: int|
        0 <= i < j < lines.len() ==> (#[trigger] lines[i]).0@ != (#[trigger] lines[j]).0@
}

/// A run's report.
#[derive(Debug)]
pub struct Report {
    pub head: Record,
    pub by_signal_type: Vec<GroupLine>,
    pub by_asset: Vec<GroupLine>,
    /// How many opportunities each reason turned away.
    pub skips: Vec<(String, usize)>,
    /// The account's growth, where it compounds.
    pub compound: Option<Record>,
    pub hybrid_fill_paths: Record,
    /// When each resolved order was placed and resolved.
    pub resting_intervals: Vec<(String, String)>,
    pub trades: Vec<Record>,
}

/// The lines name each id of the ledger once, ascending, with its counts.
pub open spec fn breakdown_ok(
    trades: Seq<PaperTrade>,
    by: GroupBy,
    names: Names,
    lines: Seq<GroupLine>,
) -> bool {
    &&& forall|g: int, h: int|
        0 <= g < h < lines.len() ==> (#[trigger] lines[g]).id < (#[trigger] lines[h]).id
    &&& forall|g: int|
        0 <= g < lines.len() ==> {
            &&& has_member(trades, by, (#[trigger] lines[g]).id)
            &&& lines[g].name@ == group_name(by, lines[g].id, names)
            &&& lines[g].counts@ == group_fields(trades, by, lines[g].id)
        }
    &&& forall|i: int|
        0 <= i < trades.len() ==> has_line(lines, group_id(by, #[trigger] trades[i]))
}

/// Some line is the id's.
pub open spec fn has_line(lines: Seq<GroupLine>, id: u16) -> bool {
    exists|g: int| 0 <= g < lines.len() && (#[trigger] lines[g]).id == id
}

pub(crate) proof fn lemma_member_exists(trades: Seq<PaperTrade>, by: GroupBy, id: u16)
    requires
        members(trades, by, id).len() > 0,
    ensures
        has_member(trades, by, id),
    decreases trades.len(),
{
    if trades.len() > 0 {
        if group_id(by, trades.last()) == id {
            assert(group_id(by, trades[trades.len() - 1]) == id);
        } else {
            lemma_member_exists(trades.drop_last(), by, id);
            let d = trades.drop_last();
            let i = choose|i: int| 0 <= i < d.len() && group_id(by, #[trigger] d[i]) == id;
            assert(group_id(by, trades[i]) == id);
        }
    }
}

impl PaperTrader {
    /// Every trade's ids are known to the pools.
    pub open spec fn ledger_known(&self, names: Names) -> bool {
        forall|i: int| 0 <= i < self@.trades.len() ==> ids_known(#[trigger] self@.trades[i], names)
    }

    /// Every time the report writes is on the calendar.
    pub open spec fn ledger_dated(&self) -> bool {
        &&& forall|i: int|
            0 <= i < self@.trades.len() ==> times_dated(#[trigger] self@.trades[i]) && maybe_dated(
                ready_time(self@, self@.trades[i]),
            )
        &&& forall|i: int|
            0 <= i < self@.intervals.len() ==> on_calendar(
                (#[trigger] self@.intervals[i]).0 as int,
            ) && on_calendar(self@.intervals[i].1 as int)
    }

    /// Whether every time the report writes is on the calendar.
    pub fn is_dated(&self) -> (r: bool)
        ensures
            r == self.ledger_dated(),
    {
        let mut i: usize = 0;
        while i < self.trades.len()
            invariant
                i <= self.trades@.len(),
                forall|k: int|
                    0 <= k < i ==> times_dated(#[trigger] self@.trades[k]) && maybe_dated(
                        ready_time(self@, self@.trades[k]),
                    ),
            decreases self.trades@.len() - i,
        {
            let t = &self.trades[i];
            let ready = self.ids.trade_ready_at.get(&t.opportunity_id);
            if !is_on_calendar(t.opened_at) || !is_dated_if_any(t.filled_at) || !is_dated_if_any(
                t.closed_at,
            ) || !is_dated_if_any(ready) {
                assert(!(times_dated(self@.trades[i as int]) && maybe_dated(
                    ready_time(self@, self@.trades[i as int]),
                )));
                return false;
            }
            i = i + 1;
        }
        let mut j: usize = 0;
        while j < self.resting_intervals.len()
            invariant
                j <= self.resting_intervals@.len(),
                forall|k: int|
                    0 <= k < j ==> on_calendar((#[trigger] self@.intervals[k]).0 as int)
                        && on_calendar(self@.intervals[k].1 as int),
            decreases self.resting_intervals@.len() - j,
        {
            let span = self.resting_intervals[j];
            if !is_on_calendar(span.0) || !is_on_calendar(span.1) {
                assert(!(on_calendar(self@.intervals[j as int].0 as int) && on_calendar(
                    self@.intervals[j as int].1 as int,
                )));
                return false;
            }
            j = j + 1;
        }
        true
    }

    fn breakdown(&self, by: GroupBy, names: &Names) -> (r: Vec<GroupLine>)
        requires
            self.ledger_known(*names),
        ensures
            breakdown_ok(self@.trades, by, *names, r@),
    {
        let groups = self.groups(by);
        let ghost t = self@.trades;
        let mut out: Vec<GroupLine> = Vec::new();
        let mut i: usize = 0;
        while i < groups.len()
            invariant
                t == self@.trades,
                self.ledger_known(*names),
                i <= groups@.len(),
                out@.len() == i,
                forall|g: int| 0 <= g < groups@.len() ==> group_ok(t, by, #[trigger] groups@[g]),
                forall|g: int|
                    0 <= g < i ==> {
                        &&& (#[trigger] out@[g]).id == groups@[g].id
                        &&& has_member(t, by, out@[g].id)
                        &&& out@[g].name@ == group_name(by, out@[g].id, *names)
                        &&& out@[g].counts@ == group_fields(t, by, out@[g].id)
                    },
            decreases groups@.len() - i,
        {
            let g = &groups[i];
            proof {
                assert(group_ok(t, by, groups@[i as int]));
                lemma_member_exists(t, by, g.id);
                let m = choose|m: int| 0 <= m < t.len() && group_id(by, #[trigger] t[m]) == g.id;
                assert(ids_known(t[m], *names));
            }
            let mut r = Record::new();
            let name = match by {
                GroupBy::SignalType => {
                    put_count(&mut r, "wins", g.wins);
                    put_count(&mut r, "losses", g.losses);
                    sig_type_name(names, g.id)
                },
                GroupBy::Asset => {
                    put_count(&mut r, "win", g.wins);
                    put_count(&mut r, "loss", g.losses);
                    asset_name(names, g.id)
                },
            };
            put_count(&mut r, "inconclusive", g.inconclusive);
            proof {
                assert(r@ =~= group_fields(t, by, g.id));
            }
            out.push(GroupLine { id: g.id, name, counts: r });
            i = i + 1;
        }
        proof {
            assert forall|a: int, b: int| 0 <= a < b < out@.len() implies (#[trigger] out@[a]).id
                < (#[trigger] out@[b]).id by {
                assert(groups@[a].id < groups@[b].id);
            }
            assert forall|k: int| 0 <= k < t.len() implies has_line(
                out@,
                group_id(by, #[trigger] t[k]),
            ) by {
                assert(has_group(groups@, group_id(by, t[k])));
                let g = choose|g: int|
                    0 <= g < groups@.len() && (#[trigger] groups@[g]).id == group_id(by, t[k]);
                assert(out@[g].id == group_id(by, t[k]));
            }
        }
        out
    }

    fn skip_lines(&self) -> (r: Vec<(String, usize)>)
        ensures
            skips_listed(self@.skips, r@),
    {
        let keys = self.skips.keys();
        let ghost m = self@.skips;
        let mut out: Vec<(String, usize)> = Vec::new();
        let mut i: usize = 0;
        while i < keys.len()
            invariant
                i <= keys@.len(),
                m == self.skips@,
                forall|k: Seq<char>| #[trigger]
                    m.contains_key(k) <==> exists|j: int|
                        0 <= j < keys@.len() && (#[trigger] keys@[j])@ == k,
                out@.len() == i,
                forall|j: int|
                    0 <= j < i ==> (#[trigger] out@[j]).0@ == keys@[j]@ && m.contains_key(out@[j].0@)
                        && m[out@[j].0@] == out@[j].1,
            decreases keys@.len() - i,
        {
            proof {
                assert(keys@[i as int]@ == keys@[i as int]@);
                assert(m.contains_key(keys@[i as int]@));
            }
            if let Some(n) = self.skips.get(&keys[i]) {
                out.push((keys[i].clone(), n));
            }
            i = i + 1;
        }
        proof {
            assert forall|k: Seq<char>| #[trigger] m.contains_key(k) implies exists|j: int|
                0 <= j < out@.len() && (#[trigger] out@[j]).0@ == k by {
                let j = choose|j: int| 0 <= j < keys@.len() && (#[trigger] keys@[j])@ == k;
                assert(out@[j].0@ == k);
            }
            assert forall|a: int, b: int| 0 <= a < b < out@.len() implies (#[trigger] out@[a]).0@
                != (#[trigger] out@[b]).0@ by {
                assert(keys@[a]@ != keys@[b]@);
            }
        }
        out
    }

    fn compound_record(&self, f: &CompoundFigures) -> (r: Option<Record>)
        ensures
            r is Some <==> self.knobs.risk_frac > 0,
            r matches Some(c) ==> c@ == compound_fields(self.knobs, *f),
    {
        if self.knobs.risk_frac <= 0 {
            return None;
        }
        let mut r = Record::new();
        r.num("risk_frac", self.knobs.risk_frac);
        r.num("account_size", self.knobs.account_size);
        r.num("final_balance", f.final_balance);
        r.num("max_dd_frac", f.max_dd_frac);
        r.num("multiple", f.multiple);
        proof {
            assert(r@ =~= compound_fields(self.knobs, *f));
        }
        Some(r)
    }

    fn head_record(&self, label: &str, f: &RunFigures) -> (r: Record)
        ensures
            r@ == head_fields(label@, self@, self.knobs, *f),
    {
        let mut r = Record::new();
        let wins: usize = self.wins();
        let losses: usize = self.losses();
        let decided: usize = self.decided();
        r.text("label", label);
        r.num("rr_target", self.knobs.rr_target);
        r.num("min_score", self.knobs.min_score);
        put_count(&mut r, "opportunities_seen", self.opportunities_seen);
        put_count(&mut r, "opportunities_taken", self.opportunities_taken);
        put_count(&mut r, "trades_decided", decided);
        put_count(&mut r, "wins", wins);
        put_count(&mut r, "losses", losses);
        put_count(&mut r, "inconclusive", self.inconclusive());
        r.num("win_rate", f.win_rate);
        r.num("expectancy", f.expectancy);
        r.num("total_r_pnl", f.total_r_pnl);
        r.num("gross_r_pnl", f.gross_r_pnl);
        r.num("total_fees", f.total_fees);
        r.put("use_fees", Leaf::Bool(self.knobs.use_fees));
        r.put("hybrid_fill", Leaf::Bool(self.knobs.hybrid_fill));
        proof {
            assert(r@ =~= head_fields(label@, self@, self.knobs, *f));
        }
        r
    }

    /// The run's report: its own values, the breakdowns by signal type and by
    /// asset, the hybrid counts, the resting intervals and a record per trade.
    pub fn render_json(
        &self,
        label: &str,
        names: &Names,
        run: &RunFigures,
        figures: &Vec<TradeFigures>,
        compound: &CompoundFigures,
        first_touch_r: Num,
    ) -> (r: Report)
        requires
            self.ledger_known(*names),
            self.ledger_dated(),
            figures@.len() == self@.trades.len(),
        ensures
            r.head@ == head_fields(label@, self@, self.knobs, *run),
            breakdown_ok(self@.trades, GroupBy::SignalType, *names, r.by_signal_type@),
            breakdown_ok(self@.trades, GroupBy::Asset, *names, r.by_asset@),
            skips_listed(self@.skips, r.skips@),
            r.compound is Some <==> self.knobs.risk_frac > 0,
            r.compound matches Some(c) ==> c@ == compound_fields(self.knobs, *compound),
            r.hybrid_fill_paths@ == path_fields(self@.counters, first_touch_r),
            r.resting_intervals@.len() == self@.intervals.len(),
            forall|i: int|
                0 <= i < self@.intervals.len() ==> (#[trigger] r.resting_intervals@[i]).0@
                    == stamp_text(self@.intervals[i].0, ISO@) && r.resting_intervals@[i].1@
                    == stamp_text(self@.intervals[i].1, ISO@),
            r.trades@.len() == self@.trades.len(),
            forall|i: int|
                0 <= i < self@.trades.len() ==> (#[trigger] r.trades@[i])@ == trade_fields(
                    self@.trades[i],
                    figures@[i],
                    self.knobs.risk_frac > 0,
                    ready_time(self@, self@.trades[i]),
                    *names,
                ),
    {
        let head = self.head_record(label, run);
        let by_signal_type = self.breakdown(GroupBy::SignalType, names);
        let by_asset = self.breakdown(GroupBy::Asset, names);
        let mut resting: Vec<(String, String)> = Vec::new();
        let mut i: usize = 0;
        while i < self.resting_intervals.len()
            invariant
                i <= self.resting_intervals@.len(),
                self.ledger_dated(),
                resting@.len() == i,
                forall|k: int|
                    0 <= k < i ==> (#[trigger] resting@[k]).0@ == stamp_text(
                        self@.intervals[k].0,
                        ISO@,
                    ) && resting@[k].1@ == stamp_text(self@.intervals[k].1, ISO@),
            decreases self.resting_intervals@.len() - i,
        {
            let span = self.resting_intervals[i];
            assert(on_calendar(self@.intervals[i as int].0 as int));
            resting.push((iso_stamp(span.0), iso_stamp(span.1)));
            i = i + 1;
        }
        let mut trades: Vec<Record> = Vec::new();
        let mut j: usize = 0;
        while j < self.trades.len()
            invariant
                j <= self.trades@.len(),
                self.ledger_known(*names),
                self.ledger_dated(),
                figures@.len() == self@.trades.len(),
                trades@.len() == j,
                forall|k: int|
                    0 <= k < j ==> (#[trigger] trades@[k])@ == trade_fields(
                        self@.trades[k],
                        figures@[k],
                        self.knobs.risk_frac > 0,
                        ready_time(self@, self@.trades[k]),
                        *names,
                    ),
            decreases self.trades@.len() - j,
        {
            let t = &self.trades[j];
            proof {
                assert(ids_known(self@.trades[j as int], *names));
            }
            let ready = self.ids.trade_ready_at.get(&t.opportunity_id);
            trades.push(trade_record(t, &figures[j], self.knobs.risk_frac > 0, ready, names));
            j = j + 1;
        }
        Report {
            head,
            by_signal_type,
            by_asset,
            skips: self.skip_lines(),
            compound: self.compound_record(compound),
            hybrid_fill_paths: path_record(&self.hybrid_counters, first_touch_r),
            resting_intervals: resting,
            trades,
        }
    }
}

/// When a trade's setup became final, where that is known.
pub open spec fn ready_time(b: Book, t: PaperTrade) -> Option<Stamp> {
    if b.ids.ready.contains_key(t.opportunity_id@) {
        Some(b.ids.ready[t.opportunity_id@])
    } else {
        None
    }
}

} // verus!
