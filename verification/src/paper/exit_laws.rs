//! How positions leave the market, in prices, times and R alone.
use vstd::prelude::*;
use crate::fees::EntryFeeSide;
use crate::hold::HoldClock;
use crate::key::Num;
use crate::models::{Candle, Direction, PaperTrade, Tick, TradeResult};
use crate::paper::book::{closed_out, ticket_of, Book, Close, CloseTicket, IdMaps, Knobs};
use crate::paper::quote::{BarQuotes, TradeQuote};
use crate::paper::race::{
    all_raced, bar_of_trade, candle_applied, gap_exit, race_of, raced, racing_stop, range_exit,
    stop_exit, Exit, Race,
};
use crate::paper::settle::{gap_from, plan_of};
use crate::paper::walk::{clocked, derisked, print_exit, raced_at, Clocked, Live, Walk};
use crate::text::occurs;

verus! {

// ─── Which stop races ───────────────────────────────────────────────────────

/// The stop that races is the one a strategy moved it to; else, once the best R
/// reached the trailing threshold, the trailing one; else the planned one. At
/// the trailing stop the locked R is booked and nobody lost; at any other the
/// trade is a loss at the stop's R.
pub proof fn law_the_stop_in_force_races(k: Knobs, ids: IdMaps, t: PaperTrade, q: TradeQuote)
    ensures
        ({
            let id = t.opportunity_id@;
            let moved = ids.overrides.contains_key(id);
            let trailing = 0 < k.breakeven_r && q.has_risk && !moved && (if ids.marks.contains_key(
                id,
            ) {
                k.breakeven_r <= ids.marks[id]
            } else {
                k.breakeven_r <= 0
            });
            let stop = racing_stop(k, ids, t, q);
            let exit = stop_exit(k, ids, t, q);
            &&& moved ==> stop == ids.overrides[id]
            &&& trailing ==> stop == q.trail_stop
            &&& !moved && !trailing ==> stop == t.stop
            &&& trailing ==> exit.result == TradeResult::Inconclusive && exit.r_pnl
                == k.trail_lock_r && !exit.is_stop_exit
            &&& !trailing ==> exit.result == TradeResult::Loss && exit.r_pnl == q.stop_r
                && exit.is_stop_exit
        }),
{
}

// ─── A bar's range ──────────────────────────────────────────────────────────

/// A bar's range decides a position that neither timed out nor gapped: a long
/// is stopped by a low at or below its stop and paid by a high at or above its
/// target, a short the other way round. The close has no say. A bar that
/// reaches both goes by the tie-break, and only one that reaches neither can
/// end in a management exit.
pub proof fn law_the_range_decides(
    k: Knobs,
    ids: IdMaps,
    t: PaperTrade,
    q: TradeQuote,
    held: int,
    c: Candle,
)
    ensures
        ({
            let stop = racing_stop(k, ids, t, q);
            let (stopped, paid) = if t.direction == Direction::Bull {
                (c.low <= stop, c.high >= t.tp)
            } else {
                (c.high >= stop, c.low <= t.tp)
            };
            let exit = range_exit(k, ids, t, q, held, c);
            let win = Exit { result: TradeResult::Win, r_pnl: q.win_r, is_stop_exit: false };
            &&& paid && !stopped ==> exit == Some(win)
            &&& stopped && !paid ==> exit == Some(stop_exit(k, ids, t, q))
            &&& stopped && paid && k.intrabar_stop_first ==> exit == Some(stop_exit(k, ids, t, q))
            &&& stopped && paid && !k.intrabar_stop_first ==> exit == Some(win)
            &&& !stopped && !paid ==> (exit matches Some(e) ==> 0 < k.derisk_after_min < held
                && q.has_risk && e.r_pnl == q.unreal_r <= k.derisk_below_r && !e.is_stop_exit
                && e.result == if q.unreal_r < 0 {
                TradeResult::Loss
            } else {
                TradeResult::Inconclusive
            })
            &&& !stopped && !paid && 0 < k.derisk_after_min < held && q.has_risk && q.unreal_r
                <= k.derisk_below_r ==> exit is Some
        }),
{
}

/// Two bars that differ in nothing but their closes resolve a position alike,
/// unless it goes stale: a range that reached a level is not undone by the
/// close.
pub proof fn law_the_close_undoes_nothing(
    k: Knobs,
    ids: IdMaps,
    t: PaperTrade,
    q: TradeQuote,
    held: int,
    c: Candle,
    close: Num,
)
    ensures
        range_exit(k, ids, t, q, held, c) == range_exit(
            k,
            ids,
            t,
            q,
            held,
            Candle { close, ..c },
        ),
{
}

/// A trade seen in the mirror: the other direction, every price negated, the
/// same in R.
pub open spec fn mirror_image(a: PaperTrade, qa: TradeQuote, b: PaperTrade, qb: TradeQuote) -> bool {
    &&& a.direction == Direction::Bull && b.direction == Direction::Bear
    &&& a.opportunity_id@ == b.opportunity_id@
    &&& b.stop == -a.stop && b.tp == -a.tp && qb.trail_stop == -qa.trail_stop
    &&& qa.has_risk == qb.has_risk && qa.favorable@ == qb.favorable@ && qa.open_r == qb.open_r
    &&& qa.stop_r == qb.stop_r && qa.win_r == qb.win_r && qa.timeout_r == qb.timeout_r
    &&& qa.unreal_r == qb.unreal_r
}

/// Long and short are exact mirrors on a bar: mirrored prices give the same
/// exit at the same R.
pub proof fn law_exits_mirror_on_a_bar(
    k: Knobs,
    ids: IdMaps,
    long: PaperTrade,
    ql: TradeQuote,
    short: PaperTrade,
    qs: TradeQuote,
    c: Candle,
    m: Candle,
)
    requires
        mirror_image(long, ql, short, qs),
        !ids.overrides.contains_key(long.opportunity_id@),
        m.open == -c.open,
        m.high == -c.low,
        m.low == -c.high,
    ensures
        bar_of_trade(k, ids, long, ql, c) == bar_of_trade(k, ids, short, qs, m),
{
}

/// A bar that opens through a level takes the position out there where exits
/// are booked at the open: the stop before the target, both at the R of the
/// open. In every other case the open decides nothing.
pub proof fn law_a_gap_is_booked_at_the_open(
    k: Knobs,
    ids: IdMaps,
    t: PaperTrade,
    q: TradeQuote,
    c: Candle,
)
    ensures
        ({
            let stop = racing_stop(k, ids, t, q);
            let (through_stop, through_target) = if t.direction == Direction::Bull {
                (c.open <= stop, c.open >= t.tp)
            } else {
                (c.open >= stop, c.open <= t.tp)
            };
            let exit = gap_exit(k, ids, t, q, c);
            &&& exit is Some <==> k.exit_gap_at_open && q.has_risk && (through_stop
                || through_target)
            &&& exit matches Some(e) ==> e.r_pnl == q.open_r && e.result == if through_stop {
                stop_exit(k, ids, t, q).result
            } else {
                TradeResult::Win
            } && e.is_stop_exit == (through_stop && stop_exit(k, ids, t, q).is_stop_exit)
        }),
{
}

// ─── A bar in the life of a position ────────────────────────────────────────

/// Every bar adds one to the count of bars held; a bar that carries the count
/// past the limit ends the position at the timeout's R, whatever it trades.
/// Up to the limit no bar times a position out.
pub proof fn law_a_position_times_out_after_its_limit(
    k: Knobs,
    ids: IdMaps,
    t: PaperTrade,
    q: TradeQuote,
    c: Candle,
)
    requires
        ids.clocks.contains_key(t.opportunity_id@),
        ids.clocks[t.opportunity_id@].candles_held < usize::MAX,
    ensures
        ({
            let id = t.opportunity_id@;
            let held = ids.clocks[id].candles_held + 1;
            let (after, exit) = bar_of_trade(k, ids, t, q, c);
            &&& after.clocks == ids.clocks.insert(id, HoldClock { candles_held: held as usize })
            &&& held > k.max_hold_candles ==> exit == Some(
                (Exit {
                    result: TradeResult::Inconclusive,
                    r_pnl: q.timeout_r,
                    is_stop_exit: false,
                }),
            ) && after.marks == ids.marks && after.partial == ids.partial
            &&& held <= k.max_hold_candles && k.derisk_after_min == 0 && !k.exit_gap_at_open ==> (
            exit matches Some(e) ==> e.r_pnl == q.win_r || e.r_pnl == q.stop_r || e.r_pnl
                == k.trail_lock_r)
        }),
{
}

/// With nothing managed and nothing trailing, a bar within the hold limit
/// leaves a position open exactly when its range reaches neither the planned
/// stop nor the target; a bar that reaches only the target is a win.
pub proof fn law_a_plain_position_lives_between_its_levels(
    k: Knobs,
    ids: IdMaps,
    t: PaperTrade,
    q: TradeQuote,
    c: Candle,
)
    requires
        ids.clocks.contains_key(t.opportunity_id@),
        ids.clocks[t.opportunity_id@].candles_held < k.max_hold_candles,
        !ids.overrides.contains_key(t.opportunity_id@),
        k.breakeven_r <= 0,
        k.derisk_after_min == 0,
        !k.exit_gap_at_open,
    ensures
        ({
            let exit = bar_of_trade(k, ids, t, q, c).1;
            let (stopped, paid) = if t.direction == Direction::Bull {
                (c.low <= t.stop, c.high >= t.tp)
            } else {
                (c.high >= t.stop, c.low <= t.tp)
            };
            &&& exit is None <==> !stopped && !paid
            &&& paid && !stopped ==> exit->0.result == TradeResult::Win && exit->0.r_pnl == q.win_r
            &&& stopped && !paid ==> exit->0.result == TradeResult::Loss && exit->0.r_pnl
                == q.stop_r && exit->0.is_stop_exit
        }),
{
}

/// The best R seen never falls: after a bar that neither timed out nor gapped
/// it is the larger of what it was and the bar's. Half is banked from the bar
/// on whose best R reaches the partial target, where one is set.
pub proof fn law_the_best_r_only_rises(
    k: Knobs,
    ids: IdMaps,
    t: PaperTrade,
    q: TradeQuote,
    c: Candle,
)
    requires
        ids.clocks.contains_key(t.opportunity_id@),
        ids.clocks[t.opportunity_id@].candles_held < k.max_hold_candles,
        ids.marks.contains_key(t.opportunity_id@),
        !k.exit_gap_at_open,
        q.has_risk,
    ensures
        ({
            let id = t.opportunity_id@;
            let after = bar_of_trade(k, ids, t, q, c).0;
            let r = q.favorable@[0];
            &&& after.marks.contains_key(id)
            &&& after.marks[id] >= ids.marks[id] && after.marks[id] >= r
            &&& after.marks[id] == ids.marks[id] || after.marks[id] == r
            &&& after.partial.contains_key(id) <==> ids.partial.contains_key(id) || (0
                < k.partial_tp_r && (k.partial_tp_r <= r || k.partial_tp_r <= ids.marks[id]))
            &&& forall|other: Seq<char>|
                other != id ==> (#[trigger] after.marks.contains_key(other)
                    <==> ids.marks.contains_key(other)) && after.marks[other] == ids.marks[other]
        }),
{
}

/// A trade races only on its own asset's candles; one that leaves is closed at
/// the candle's time, one that does not is kept as it was.
pub proof fn law_a_race_keeps_or_closes(
    k: Knobs,
    r: Race,
    t: PaperTrade,
    q: TradeQuote,
    c: Candle,
)
    ensures
        ({
            let after = raced(k, r, t, q, c);
            let exit = bar_of_trade(k, r.ids, t, q, c).1;
            &&& t.asset != c.asset ==> after.kept == r.kept.push(t) && after.closes == r.closes
                && after.ids == r.ids
            &&& t.asset == c.asset && exit is None ==> after.kept == r.kept.push(t)
                && after.closes == r.closes
            &&& t.asset == c.asset && exit is Some ==> after.kept == r.kept && after.closes.len()
                == r.closes.len() + 1 && after.closes.drop_last() == r.closes && ({
                let done = after.closes.last();
                &&& done.id == t.opportunity_id
                &&& done.at == c.timestamp
                &&& done.result == exit->0.result
                &&& done.r_pnl == exit->0.r_pnl
                &&& done.is_stop_exit == exit->0.is_stop_exit
            })
        }),
{
    let after = raced(k, r, t, q, c);
    if after.closes.len() > r.closes.len() {
        assert(after.closes.drop_last() =~= r.closes);
    }
}

/// What a candle leaves of the positions that were open before it: another
/// asset's are all still open, and a position of its own asset is open or was
/// closed under its id at the candle's time.
pub proof fn law_a_candle_keeps_or_closes_each_position(
    k: Knobs,
    b: Book,
    q: BarQuotes,
    c: Candle,
    i: int,
)
    requires
        0 <= i < b.open.len(),
    ensures
        ({
            let r = race_of(k, b, q, c);
            let t = b.open[i];
            &&& t.asset != c.asset ==> r.kept.contains(t)
            &&& r.kept.contains(t) || exists|j: int|
                0 <= j < r.closes.len() && (#[trigger] r.closes[j]).id == t.opportunity_id
                    && r.closes[j].at == c.timestamp
            &&& r.kept.contains(t) ==> candle_applied(k, b, q, c).open.contains(t)
        }),
{
    let ids = crate::paper::race::filled_by(k, b, q, c).ids;
    lemma_kept_or_closed(k, ids, b.open, q.trades@, c, b.open.len(), i);
    let r = race_of(k, b, q, c);
    let t = b.open[i];
    if r.kept.contains(t) {
        let j = choose|j: int| 0 <= j < r.kept.len() && r.kept[j] == t;
        assert(candle_applied(k, b, q, c).open[j] == t);
    }
}

proof fn lemma_kept_or_closed(
    k: Knobs,
    ids: IdMaps,
    trades: Seq<PaperTrade>,
    quotes: Seq<TradeQuote>,
    c: Candle,
    n: nat,
    i: int,
)
    requires
        0 <= i < n <= trades.len(),
    ensures
        ({
            let r = all_raced(k, ids, trades, quotes, c, n);
            let t = trades[i];
            &&& t.asset != c.asset ==> r.kept.contains(t)
            &&& r.kept.contains(t) || exists|j: int|
                0 <= j < r.closes.len() && (#[trigger] r.closes[j]).id == t.opportunity_id
                    && r.closes[j].at == c.timestamp
        }),
    decreases n,
{
    let before = all_raced(k, ids, trades, quotes, c, (n - 1) as nat);
    let after = all_raced(k, ids, trades, quotes, c, n);
    let t = trades[i];
    law_a_race_keeps_or_closes(k, before, trades[n - 1], quotes[n - 1], c);
    if i == n - 1 {
        if after.kept.len() > before.kept.len() {
            assert(after.kept.last() == t);
            assert(after.kept[after.kept.len() - 1] == t);
        } else {
            assert(after.closes[after.closes.len() - 1].id == t.opportunity_id);
        }
    } else {
        lemma_kept_or_closed(k, ids, trades, quotes, c, (n - 1) as nat, i);
        if before.kept.contains(t) {
            let j = choose|j: int| 0 <= j < before.kept.len() && before.kept[j] == t;
            assert(after.kept[j] == t);
        } else {
            let j = choose|j: int|
                0 <= j < before.closes.len() && (#[trigger] before.closes[j]).id
                    == t.opportunity_id && before.closes[j].at == c.timestamp;
            if after.closes.len() > before.closes.len() {
                assert(after.closes[j] == after.closes.drop_last()[j]);
            }
            assert(after.closes[j] == before.closes[j]);
        }
    }
}

// ─── Prints ─────────────────────────────────────────────────────────────────

/// On the walk a position of the bar's asset, with risk, that was open before
/// the print leaves at the print exactly when it trades at or past a level: a
/// long at or below its stop or at or above its target, a short the other way
/// round. A print strictly between the two closes nothing. The stop is looked
/// at first, the close is stamped with the print's time.
pub proof fn law_a_print_takes_a_position_out_at_its_levels(
    k: Knobs,
    w: Walk,
    lv: Live,
    q: TradeQuote,
    c: Candle,
    ti: int,
    tick: Tick,
)
    requires
        lv.trade.asset == c.asset,
        !w.resolved.contains_key(lv.trade.opportunity_id@),
        lv.filled_at_tick matches Some(at) ==> at < ti,
        q.has_risk,
    ensures
        ({
            let t = lv.trade;
            let after = raced_at(k, w, lv, q, c, ti, tick);
            let ids = after.book.ids;
            let stop = racing_stop(k, ids, t, q);
            let p = tick.price;
            let (stopped, paid) = if t.direction == Direction::Bull {
                (p <= stop, p >= t.tp)
            } else {
                (p >= stop, p <= t.tp)
            };
            let at_open = k.exit_gap_at_open && ti == 0;
            &&& !stopped && !paid ==> after.closes == w.closes && after.resolved == w.resolved
            &&& stopped || paid ==> after.closes.len() == w.closes.len() + 1
                && after.closes.drop_last() == w.closes && after.resolved.contains_key(
                t.opportunity_id@,
            ) && after.closes.last().id == t.opportunity_id && after.closes.last().at
                == tick.timestamp
            &&& stopped ==> after.closes.last().result == stop_exit(k, ids, t, q).result
                && after.closes.last().is_stop_exit == stop_exit(k, ids, t, q).is_stop_exit
                && after.closes.last().r_pnl == if at_open {
                q.favorable@[0]
            } else {
                stop_exit(k, ids, t, q).r_pnl
            }
            &&& paid && !stopped ==> after.closes.last().result == TradeResult::Win
                && !after.closes.last().is_stop_exit && after.closes.last().r_pnl == if at_open {
                q.favorable@[0]
            } else {
                q.win_r
            }
        }),
{
    let after = raced_at(k, w, lv, q, c, ti, tick);
    if after.closes.len() > w.closes.len() {
        assert(after.closes.drop_last() =~= w.closes);
    }
}

/// Long and short are exact mirrors at a print, too: mirrored prices give the
/// same exit.
pub proof fn law_exits_mirror_at_a_print(
    k: Knobs,
    ids: IdMaps,
    long: PaperTrade,
    ql: TradeQuote,
    short: PaperTrade,
    qs: TradeQuote,
    price: Num,
    mirrored: Num,
    ti: int,
)
    requires
        mirror_image(long, ql, short, qs),
        !ids.overrides.contains_key(long.opportunity_id@),
        mirrored == -price,
    ensures
        print_exit(k, ids, long, ql, price, ti) == print_exit(k, ids, short, qs, mirrored, ti),
{
}

/// A print notes the R it was seen at before it is raced, and changes nothing
/// for a position that does not race at it.
pub proof fn law_a_print_is_noted_before_it_races(
    k: Knobs,
    w: Walk,
    lv: Live,
    q: TradeQuote,
    c: Candle,
    ti: int,
    tick: Tick,
)
    requires
        w.book.ids.marks.contains_key(lv.trade.opportunity_id@),
    ensures
        ({
            let id = lv.trade.opportunity_id@;
            let races = lv.trade.asset == c.asset && !w.resolved.contains_key(id) && q.has_risk && (
            lv.filled_at_tick matches Some(at) ==> at < ti);
            let after = raced_at(k, w, lv, q, c, ti, tick);
            let (was, now) = (w.book.ids.marks[id], after.book.ids.marks[id]);
            let r = q.favorable@[ti];
            &&& !races ==> after == w
            &&& races ==> now >= was && now >= r && (now == was || now == r)
            &&& races ==> (after.book.ids.partial.contains_key(id)
                <==> w.book.ids.partial.contains_key(id) || (0 < k.partial_tp_r <= now))
            &&& after.book.trades == w.book.trades && after.live == w.live
        }),
{
}

/// A position that outlived its hold limit leaves at the bar's time and the
/// timeout's R before any print is looked at; every other one only ages.
pub proof fn law_timeouts_come_before_prints(
    k: Knobs,
    s: Clocked,
    t: PaperTrade,
    q: TradeQuote,
    c: Candle,
)
    requires
        s.ids.clocks.contains_key(t.opportunity_id@),
        s.ids.clocks[t.opportunity_id@].candles_held < usize::MAX,
    ensures
        ({
            let id = t.opportunity_id@;
            let held = s.ids.clocks[id].candles_held + 1;
            let after = clocked(k, s, t, q, c);
            let out = held > k.max_hold_candles;
            &&& t.asset != c.asset ==> after == s
            &&& t.asset == c.asset ==> after.ids.clocks[id].candles_held == held
            &&& t.asset == c.asset && !out ==> after.closes == s.closes && after.timed_out
                == s.timed_out
            &&& t.asset == c.asset && out ==> after.timed_out.contains_key(id)
                && after.closes.len() == s.closes.len() + 1 && after.closes.last().id
                == t.opportunity_id && after.closes.last().at == c.timestamp
                && after.closes.last().result == TradeResult::Inconclusive
                && after.closes.last().r_pnl == q.timeout_r && !after.closes.last().is_stop_exit
        }),
{
}

/// After the last print a stale position that is no better than its threshold
/// leaves at the bar's close; one that already left, or that is not stale, is
/// not looked at.
pub proof fn law_stale_positions_leave_after_the_prints(
    k: Knobs,
    w: Walk,
    timed_out: Map<Seq<char>, ()>,
    lv: Live,
    q: TradeQuote,
    c: Candle,
)
    requires
        w.book.ids.clocks.contains_key(lv.trade.opportunity_id@),
    ensures
        ({
            let id = lv.trade.opportunity_id@;
            let stale = k.derisk_after_min > 0 && q.has_risk && q.unreal_r <= k.derisk_below_r
                && w.book.ids.clocks[id].candles_held > k.derisk_after_min;
            let leaves = stale && lv.trade.asset == c.asset && !w.resolved.contains_key(id)
                && !timed_out.contains_key(id);
            let after = derisked(k, w, timed_out, lv, q, c);
            &&& !leaves ==> after == w
            &&& leaves ==> after.closes.len() == w.closes.len() + 1
                && after.resolved.contains_key(id) && after.closes.last().id
                == lv.trade.opportunity_id && after.closes.last().at == c.timestamp
                && after.closes.last().r_pnl == q.unreal_r && !after.closes.last().is_stop_exit
                && (after.closes.last().result == TradeResult::Loss <==> q.unreal_r < 0)
                && after.closes.last().result != TradeResult::Win
        }),
{
}

// ─── The ledger ─────────────────────────────────────────────────────────────

/// Closing writes to one entry of the ledger: the first undecided one under the
/// id. It gets the result, the R and the time, keeps everything else, and every
/// other entry stays as it was. Without such an entry the ledger is untouched.
pub proof fn law_a_close_writes_one_entry(b: Book, k: Close, i: int)
    requires
        0 <= i < b.trades.len(),
        b.trades[i].opportunity_id@ == k.id@,
        b.trades[i].result == TradeResult::Inconclusive,
        forall|j: int|
            0 <= j < i ==> (#[trigger] b.trades[j]).opportunity_id@ != k.id@ || b.trades[j].result
                != TradeResult::Inconclusive,
    ensures
        ({
            let after = closed_out(b, k);
            let t = after.trades[i];
            &&& after.trades.len() == b.trades.len()
            &&& forall|j: int|
                0 <= j < b.trades.len() && j != i ==> #[trigger] after.trades[j] == b.trades[j]
            &&& t.result == k.result && t.r_pnl == k.r_pnl && t.closed_at == Some(k.at)
            &&& t == (PaperTrade {
                result: k.result,
                r_pnl: k.r_pnl,
                closed_at: Some(k.at),
                ..b.trades[i]
            })
            &&& after.closed == b.closed.push((i as usize, k.is_stop_exit))
            &&& after.open == b.open && after.pending == b.pending && after.taken == b.taken
                && after.seen == b.seen && after.counters == b.counters && after.skips == b.skips
                && after.intervals == b.intervals
        }),
{
    lemma_undecided_is_first(b.trades, k.id@, 0, i);
}

/// A close whose id has no undecided entry changes no entry.
pub proof fn law_a_close_without_an_entry_is_no_trade(b: Book, k: Close)
    requires
        forall|j: int|
            0 <= j < b.trades.len() ==> (#[trigger] b.trades[j]).opportunity_id@ != k.id@
                || b.trades[j].result != TradeResult::Inconclusive,
    ensures
        closed_out(b, k).trades == b.trades,
        closed_out(b, k).closed == b.closed,
        ticket_of(b, k.id@, k.r_pnl, k.is_stop_exit) is None,
{
    lemma_undecided_is_none(b.trades, k.id@, 0);
}

/// What was kept about a position is forgotten when it closes, and nothing that
/// was kept about another.
pub proof fn law_a_close_forgets_its_own(b: Book, k: Close, other: Seq<char>)
    requires
        other != k.id@,
    ensures
        ({
            let (was, now) = (b.ids, closed_out(b, k).ids);
            &&& !now.marks.contains_key(k.id@) && !now.partial.contains_key(k.id@)
                && !now.sides.contains_key(k.id@) && !now.overrides.contains_key(k.id@)
            &&& (now.marks.contains_key(other) <==> was.marks.contains_key(other))
                && now.marks[other] == was.marks[other]
            &&& (now.overrides.contains_key(other) <==> was.overrides.contains_key(other))
                && now.overrides[other] == was.overrides[other]
            &&& (now.sides.contains_key(other) <==> was.sides.contains_key(other))
                && now.sides[other] == was.sides[other]
            &&& (now.partial.contains_key(other) <==> was.partial.contains_key(other))
            &&& (now.first_touch.contains_key(other) <==> was.first_touch.contains_key(other))
            &&& now.clocks == was.clocks && now.placed == was.placed && now.ready == was.ready
        }),
{
}

/// The ticket of a close is of the entry the close is written to, and says what
/// was kept of the position: whether half was banked, how it was entered, and
/// whether its own bar reached the stop.
pub proof fn law_a_ticket_says_how_the_trade_went(
    b: Book,
    id: Seq<char>,
    r: Num,
    is_stop_exit: bool,
    i: int,
)
    requires
        0 <= i < b.trades.len() <= usize::MAX,
        b.trades[i].opportunity_id@ == id,
        b.trades[i].result == TradeResult::Inconclusive,
        forall|j: int|
            0 <= j < i ==> (#[trigger] b.trades[j]).opportunity_id@ != id || b.trades[j].result
                != TradeResult::Inconclusive,
    ensures
        ({
            let t = ticket_of(b, id, r, is_stop_exit);
            &&& t is Some
            &&& t->0.idx == i && t->0.r_pnl == r && t->0.is_stop_exit == is_stop_exit
            &&& t->0.had_partial <==> b.ids.partial.contains_key(id)
            &&& t->0.first_touch <==> b.ids.first_touch.contains_key(id)
            &&& t->0.entry_side == EntryFeeSide::Taker <==> b.ids.sides.contains_key(id)
                && b.ids.sides[id] == EntryFeeSide::Taker
        }),
{
    lemma_undecided_is_first(b.trades, id, 0, i);
}

pub(crate) proof fn lemma_undecided_is_first(trades: Seq<PaperTrade>, id: Seq<char>, from: int, i: int)
    requires
        0 <= from <= i < trades.len(),
        trades[i].opportunity_id@ == id,
        trades[i].result == TradeResult::Inconclusive,
        forall|j: int|
            from <= j < i ==> (#[trigger] trades[j]).opportunity_id@ != id || trades[j].result
                != TradeResult::Inconclusive,
    ensures
        crate::paper::book::undecided(trades, id, from) == i,
    decreases i - from,
{
    if from < i {
        assert(trades[from].opportunity_id@ != id || trades[from].result
            != TradeResult::Inconclusive);
        lemma_undecided_is_first(trades, id, from + 1, i);
    }
}

pub(crate) proof fn lemma_undecided_is_none(trades: Seq<PaperTrade>, id: Seq<char>, from: int)
    requires
        0 <= from <= trades.len(),
        forall|j: int|
            0 <= j < trades.len() ==> (#[trigger] trades[j]).opportunity_id@ != id
                || trades[j].result != TradeResult::Inconclusive,
    ensures
        crate::paper::book::undecided(trades, id, from) >= trades.len(),
    decreases trades.len() - from,
{
    if from < trades.len() {
        assert(trades[from].opportunity_id@ != id || trades[from].result
            != TradeResult::Inconclusive);
        lemma_undecided_is_none(trades, id, from + 1);
    }
}

// ─── Costs ──────────────────────────────────────────────────────────────────

/// A genuine stop exit of a trade with risk slips by its asset's gap where that
/// is positive; half is banked where it was taken and a partial target is set;
/// the fee is that of the side the trade was entered on, where fees are
/// charged.
pub proof fn law_a_close_is_settled_by_its_ticket(
    k: Knobs,
    gaps: Seq<(String, Num)>,
    t: CloseTicket,
    asset: Seq<char>,
    has_risk: bool,
)
    ensures
        ({
            let p = plan_of(k, gaps, t, asset, has_risk);
            let gap = gap_from(gaps, k.stop_gap_bps_default, asset, 0);
            &&& p.gap_bps == Some(gap) <==> t.is_stop_exit && has_risk && 0 < gap
            &&& p.gap_bps is Some ==> p.gap_bps == Some(gap)
            &&& p.bank_half <==> t.had_partial && 0 < k.partial_tp_r
            &&& k.use_fees ==> p.fee_side == Some(t.entry_side)
            &&& !k.use_fees ==> p.fee_side is None
        }),
{
}

/// An asset's gap is that of the first entry whose key stands in its name, and
/// the default where none does.
pub proof fn law_the_first_matching_gap_applies(
    gaps: Seq<(String, Num)>,
    default: Num,
    asset: Seq<char>,
    i: int,
)
    requires
        0 <= i <= gaps.len(),
        forall|j: int| 0 <= j < i ==> !occurs(asset, (#[trigger] gaps[j]).0@),
        i < gaps.len() ==> occurs(asset, gaps[i].0@),
    ensures
        i < gaps.len() ==> gap_from(gaps, default, asset, 0) == gaps[i].1,
        i == gaps.len() ==> gap_from(gaps, default, asset, 0) == default,
{
    lemma_gap_from(gaps, default, asset, 0, i);
}

proof fn lemma_gap_from(
    gaps: Seq<(String, Num)>,
    default: Num,
    asset: Seq<char>,
    from: int,
    i: int,
)
    requires
        0 <= from <= i <= gaps.len(),
        forall|j: int| 0 <= j < i ==> !occurs(asset, (#[trigger] gaps[j]).0@),
    ensures
        gap_from(gaps, default, asset, from) == gap_from(gaps, default, asset, i),
    decreases i - from,
{
    if from < i {
        assert(!occurs(asset, gaps[from].0@));
        lemma_gap_from(gaps, default, asset, from + 1, i);
    }
}

} // verus!
