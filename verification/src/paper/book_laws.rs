//! What the book keeps of offers, orders and positions.
use vstd::prelude::*;
use crate::clock::Stamp;
use crate::fees::EntryFeeSide;
use crate::key::Num;
use crate::models::{Candle, Direction, Opportunity, PaperTrade, TradeResult};
use crate::paper::book::{
    all_closed, all_tickets, annotated, cancelled, candles_of, closed_at_market, closed_out,
    default_knobs, empty_book, entered_at_market, evaluated, find_id, last_of, marked_invalid,
    market_trade, pred_touched, settled, stop_in_force, target_moved, ticket_of, watchdog_ids,
    without, Book, Close, CloseTicket, Decision, Knobs, PendingFill, TickTape,
};
use crate::paper::counters::{merged, HybridFillCounters};
use crate::paper::exit_laws::lemma_undecided_is_first;
use crate::paper::fill::HybridAbandon;
use crate::paper::settle::count_of;
use crate::paper::ticks::{bar_end, first_not_before, TickStore};
use crate::paper::update::{chases, tape_advanced};
use crate::sort::lemma_filtered;

verus! {

// ─── A book ─────────────────────────────────────────────────────────────────

/// A new book holds nothing and charges nothing; every optional behaviour is
/// off but the chase on prints, the seeded chase, the immediate chase at the
/// open and the stop-first tie-break, and an order rests a minute at least.
pub proof fn law_a_new_book_is_plain(min_score: Num, rr_target: Num, max_hold: usize)
    ensures
        ({
            let b = empty_book();
            let k = default_knobs(min_score, rr_target, max_hold);
            &&& b.trades.len() == 0 && b.open.len() == 0 && b.pending.len() == 0
            &&& b.seen == 0 && b.taken == 0 && b.recent.len() == 0 && b.intervals.len() == 0
            &&& b.tape.store is None
            &&& k.min_score == min_score && k.rr_target == rr_target && k.max_hold_candles
                == max_hold
            &&& k.intrabar_stop_first && k.tick_chase && k.chase_requires_seed
                && k.immediate_chase_at_open
            &&& !(k.use_fees || k.allow_signal_bar_fill || k.exit_gap_at_open || k.hybrid_fill
                || k.tick_fill || k.race_maker_first || k.deferred_chase_at_open
                || k.cancel_on_target_consumed || k.cancel_on_setup_invalidated
                || k.rest_on_ready_fill)
            &&& k.breakeven_r == 0 && k.trail_lock_r == 0 && k.partial_tp_r == 0 && k.risk_frac
                == 0 && k.entry_slippage_r == 0 && k.derisk_after_min == 0 && k.derisk_below_r
                == 0 && k.stop_gap_bps_default == 0
            &&& k.rest_min_lead_secs == 60 && k.past_entry_fee == EntryFeeSide::Taker
        }),
{
}

/// An offer is seen once. One that is taken rests under its id, planned as
/// decided, and is not yet a trade; one that is skipped adds one to its reason
/// and to no other. Nothing else changes.
pub proof fn law_an_offer_is_taken_or_skipped(
    b: Book,
    o: Opportunity,
    d: Decision,
    other: Seq<char>,
)
    requires
        forall|k: Seq<char>| #[trigger] b.skips.contains_key(k) ==> b.skips[k] < usize::MAX,
    ensures
        ({
            let after = evaluated(b, o, d);
            &&& after.seen == b.seen + 1 && after.taken == b.taken
            &&& after.trades == b.trades && after.open == b.open && after.counters == b.counters
            &&& after.intervals == b.intervals && after.recent == b.recent
            &&& d matches Decision::Take(take) ==> {
                let t = after.pending.last().trade;
                &&& after.skips == b.skips
                &&& after.pending.len() == b.pending.len() + 1 && after.pending.drop_last()
                    == b.pending
                &&& t.opportunity_id == o.id && t.asset == o.asset && t.direction == o.direction
                    && t.timeframe == o.timeframe && t.signal_type == o.signal_type && t.score
                    == o.score
                &&& t.entry == take.entry && t.stop == take.stop && t.tp == take.tp && t.fill
                    == take.entry
                &&& ({
                    let p = after.pending.last();
                    &&& !p.seen_first_candle && !p.hybrid_seen_decision_bar && p.age_anchor is None
                    &&& p.hybrid_armed is None && p.hybrid_b0_open is None && p.cancel_pending
                        is None && p.min_target is None && p.ready_at is None
                })
                &&& t.opened_at == o.created_at && t.filled_at is None && t.closed_at is None
                &&& t.result == TradeResult::Inconclusive && t.r_pnl == 0 && t.fee_r == 0
                &&& after.ids.placed.contains_key(o.id@) && after.ids.placed[o.id@] == o.created_at
            }
            &&& d matches Decision::Skip(reason) ==> {
                let had = if b.skips.contains_key(reason@) {
                    b.skips[reason@] as int
                } else {
                    0
                };
                &&& after.pending == b.pending && after.ids == b.ids
                &&& after.skips.contains_key(reason@) && after.skips[reason@] == had + 1
                &&& other != reason@ ==> (after.skips.contains_key(other)
                    <==> b.skips.contains_key(other)) && after.skips[other] == b.skips[other]
            }
        }),
{
    let after = evaluated(b, o, d);
    if d is Take {
        assert(after.pending.drop_last() =~= b.pending);
    }
}

/// What is learned of a setup is noted on the newest order alone.
pub proof fn law_the_newest_order_is_annotated(
    b: Book,
    ready_at: Option<Stamp>,
    min_target: Option<Num>,
    i: int,
    other: Seq<char>,
)
    requires
        0 <= i < b.pending.len(),
    ensures
        ({
            let after = annotated(b, ready_at, min_target);
            let (was, now) = (b.pending[i], after.pending[i]);
            let id = b.pending.last().trade.opportunity_id@;
            &&& after.pending.len() == b.pending.len()
            &&& i < b.pending.len() - 1 ==> now == was
            &&& i == b.pending.len() - 1 ==> now.ready_at == ready_at && now.min_target
                == min_target && now.trade == was.trade && now.deadline == was.deadline
                && now.cancel_pending == was.cancel_pending
            &&& ready_at is Some ==> after.ids.ready.contains_key(id) && after.ids.ready[id]
                == ready_at->0
            &&& ready_at is None ==> after.ids == b.ids
            &&& other != id ==> (after.ids.ready.contains_key(other)
                <==> b.ids.ready.contains_key(other)) && after.ids.ready[other]
                == b.ids.ready[other]
            &&& after.trades == b.trades && after.open == b.open
        }),
{
}

/// A cancel by id takes out the orders of that id and no others, in order, and
/// ends their rest: an interval from where the order was placed to the cancel.
/// Where no order has the id nothing changes.
pub proof fn law_a_cancel_removes_its_own_orders(
    b: Book,
    id: Seq<char>,
    at: Stamp,
    p: PendingFill,
)
    ensures
        ({
            let after = cancelled(b, id, at);
            let had = exists|i: int|
                0 <= i < b.pending.len() && (#[trigger] b.pending[i]).trade.opportunity_id@ == id;
            &&& after.pending == b.pending.filter(|o: PendingFill| o.trade.opportunity_id@ != id)
            &&& after.pending.contains(p) <==> b.pending.contains(p) && p.trade.opportunity_id@
                != id
            &&& !had ==> after == b
            &&& had && b.ids.placed.contains_key(id) ==> after.intervals == b.intervals.push(
                (b.ids.placed[id], at),
            ) && !after.ids.placed.contains_key(id)
            &&& !(had && b.ids.placed.contains_key(id)) ==> after.intervals == b.intervals
                && after.ids == b.ids
            &&& after.trades == b.trades && after.open == b.open && after.taken == b.taken
        }),
{
    let keeps = |o: PendingFill| o.trade.opportunity_id@ != id;
    lemma_without(b.pending, id);
    lemma_filtered(b.pending, keeps, p);
    let had = exists|i: int|
        0 <= i < b.pending.len() && (#[trigger] b.pending[i]).trade.opportunity_id@ == id;
    if !had {
        assert(without(b.pending, id) =~= b.pending);
    }
}

proof fn lemma_without(pending: Seq<PendingFill>, id: Seq<char>)
    ensures
        without(pending, id) == pending.filter(|o: PendingFill| o.trade.opportunity_id@ != id),
        without(pending, id).len() <= pending.len(),
        (exists|i: int|
            0 <= i < pending.len() && (#[trigger] pending[i]).trade.opportunity_id@ == id)
            <==> without(pending, id).len() != pending.len(),
        (forall|i: int|
            0 <= i < pending.len() ==> (#[trigger] pending[i]).trade.opportunity_id@ != id)
            ==> without(pending, id) == pending,
    decreases pending.len(),
{
    reveal(Seq::filter);
    if pending.len() > 0 {
        let d = pending.drop_last();
        lemma_without(d, id);
        let n = pending.len() - 1;
        assert(pending[n] == pending.last());
        assert(pending =~= d.push(pending.last()));
        if exists|i: int| 0 <= i < d.len() && (#[trigger] d[i]).trade.opportunity_id@ == id {
            let i = choose|i: int|
                0 <= i < d.len() && (#[trigger] d[i]).trade.opportunity_id@ == id;
            assert(pending[i] == d[i]);
        } else {
            assert forall|i: int| 0 <= i < d.len() implies (#[trigger]
            d[i]).trade.opportunity_id@ != id by {}
            if pending.last().trade.opportunity_id@ != id {
                assert forall|i: int| 0 <= i < pending.len() implies (#[trigger]
                pending[i]).trade.opportunity_id@ != id by {
                    if i < n {
                        assert(pending[i] == d[i]);
                    }
                }
            }
        }
    }
}

/// An invalidated setup marks the orders of its id that no cancel awaits, and
/// leaves every other as it is; a watchdog asks for exactly the orders that no
/// cancel awaits.
pub proof fn law_an_invalid_setup_marks_its_orders(
    pending: Seq<PendingFill>,
    p: PendingFill,
    id: Seq<char>,
)
    ensures
        ({
            let after = marked_invalid(p, id);
            &&& p.trade.opportunity_id@ == id && p.cancel_pending is None ==> after.cancel_pending
                == Some(HybridAbandon::SetupInvalidated) && after.trade == p.trade
                && after.deadline == p.deadline && after.hybrid_armed == p.hybrid_armed
            &&& p.trade.opportunity_id@ != id || p.cancel_pending is Some ==> after == p
        }),
        watchdog_ids(pending) == pending.filter(
            |o: PendingFill| o.cancel_pending is None,
        ).map_values(|o: PendingFill| o.trade.opportunity_id),
    decreases pending.len(),
{
    reveal(Seq::filter);
    let f = |o: PendingFill| o.trade.opportunity_id;
    let waits = |o: PendingFill| o.cancel_pending is None;
    if pending.len() > 0 {
        law_an_invalid_setup_marks_its_orders(pending.drop_last(), p, id);
        let rest = pending.drop_last().filter(waits);
        assert(rest.push(pending.last()).map_values(f) =~= rest.map_values(f).push(
            f(pending.last()),
        ));
    } else {
        assert(pending.filter(waits).map_values(f) =~= Seq::<String>::empty());
    }
}

// ─── Candles ────────────────────────────────────────────────────────────────

/// An asset's candles are those of the book that are its own, in order, and its
/// last is the last of them.
pub proof fn law_an_assets_candles_are_its_own(s: Seq<Candle>, asset: u16)
    ensures
        candles_of(s, asset) == s.filter(|c: Candle| c.asset == asset),
        candles_of(s, asset).len() > 0 ==> last_of(s, asset) == Some(candles_of(s, asset).last()),
        candles_of(s, asset).len() == 0 ==> last_of(s, asset) is None,
    decreases s.len(),
{
    reveal(Seq::filter);
    if s.len() > 0 {
        law_an_assets_candles_are_its_own(s.drop_last(), asset);
    }
}

/// An order is placed as touched when its asset's last candle traded to its
/// entry: down to it for a long, up to it for a short.
pub proof fn law_a_touched_entry_is_known_when_placed(
    recent: Seq<Candle>,
    asset: u16,
    dir: Direction,
    level: Num,
)
    ensures
        ({
            let mine = recent.filter(|c: Candle| c.asset == asset);
            pred_touched(recent, asset, dir, level) <==> mine.len() > 0 && (dir == Direction::Bull
                ==> mine.last().low <= level) && (dir == Direction::Bear ==> mine.last().high
                >= level)
        }),
{
    law_an_assets_candles_are_its_own(recent, asset);
}

// ─── Strategy-managed positions ─────────────────────────────────────────────

/// A position entered at the market is open and in the ledger at once, entered
/// and filled at the candle's close and time, at the taker's fee, planned as
/// asked.
pub proof fn law_a_market_entry_fills_at_the_close(
    b: Book,
    id: String,
    signal_type: u16,
    dir: Direction,
    stop: Num,
    tp: Num,
    score: Num,
    c: Candle,
)
    ensures
        ({
            let t = market_trade(id, signal_type, dir, stop, tp, score, c);
            let after = entered_at_market(b, t, c);
            let x = after.open.last();
            &&& after.open.len() == b.open.len() + 1 && after.trades.len() == b.trades.len() + 1
            &&& after.trades.last() == x && after.taken == b.taken + 1
            &&& x.entry == c.close && x.fill == c.close && x.filled_at == Some(c.timestamp)
                && x.opened_at == c.timestamp && x.closed_at is None
            &&& x.stop == stop && x.tp == tp && x.score == score && x.direction == dir
            &&& x.asset == c.asset && x.timeframe == c.timeframe && x.signal_type == signal_type
            &&& x.opportunity_id == id && x.result == TradeResult::Inconclusive && x.r_pnl == 0
                && x.fee_r == 0
            &&& after.ids.sides[id@] == EntryFeeSide::Taker && after.ids.clocks[id@].candles_held
                == 0 && after.ids.marks[id@] == 0
            &&& after.pending == b.pending && after.counters == b.counters
        }),
{
}

/// A moved target is that of the first open position with the id; nothing else
/// changes. A moved stop counts for its position alone.
pub proof fn law_a_moved_target_is_its_positions_own(
    b: Book,
    id: Seq<char>,
    tp: Num,
    i: int,
    j: int,
    t: PaperTrade,
    stop: Num,
)
    requires
        0 <= i < b.open.len(),
        b.open[i].opportunity_id@ == id,
        forall|m: int| 0 <= m < i ==> (#[trigger] b.open[m]).opportunity_id@ != id,
        0 <= j < b.open.len(),
    ensures
        ({
            let after = target_moved(b, id, tp);
            let (was, now) = (b.open[j], after.open[j]);
            &&& after.open.len() == b.open.len()
            &&& j != i ==> now == was
            &&& j == i ==> now.tp == tp && now.stop == was.stop && now.entry == was.entry
                && now.fill == was.fill && now.opportunity_id == was.opportunity_id
                && now.direction == was.direction && now.result == was.result
            &&& after.trades == b.trades && after.pending == b.pending && after.ids == b.ids
        }),
        ({
            let moved = b.ids.overrides.insert(id, stop);
            &&& t.opportunity_id@ == id ==> stop_in_force(moved, t) == stop
            &&& t.opportunity_id@ != id ==> stop_in_force(moved, t) == stop_in_force(
                b.ids.overrides,
                t,
            )
            &&& !b.ids.overrides.contains_key(t.opportunity_id@) ==> stop_in_force(
                b.ids.overrides,
                t,
            ) == t.stop
        }),
{
    lemma_find_id(b.open, id, 0, i);
}

proof fn lemma_find_id(trades: Seq<PaperTrade>, id: Seq<char>, from: int, i: int)
    requires
        0 <= from <= i < trades.len(),
        trades[i].opportunity_id@ == id,
        forall|j: int| 0 <= j < i ==> (#[trigger] trades[j]).opportunity_id@ != id,
    ensures
        find_id(trades, id, from) == i,
    decreases i - from,
{
    if from < i {
        assert(trades[from].opportunity_id@ != id);
        lemma_find_id(trades, id, from + 1, i);
    }
}

/// A close at the market takes the position out of the open ones, keeps the
/// others in order, and writes the R and the time to its entry in the ledger: a
/// loss where the R is negative and undecided where it is not. It is no stop
/// exit, and the position's clock is forgotten.
pub proof fn law_a_market_close_is_a_loss_or_undecided(
    b: Book,
    id: Seq<char>,
    exit_r: Num,
    at: Stamp,
    i: int,
    k: int,
)
    requires
        0 <= i < b.open.len(),
        b.open[i].opportunity_id@ == id,
        forall|m: int| 0 <= m < i ==> (#[trigger] b.open[m]).opportunity_id@ != id,
        0 <= k < b.trades.len(),
        b.trades[k].opportunity_id@ == id,
        b.trades[k].result == TradeResult::Inconclusive,
        forall|m: int|
            0 <= m < k ==> (#[trigger] b.trades[m]).opportunity_id@ != id || b.trades[m].result
                != TradeResult::Inconclusive,
    ensures
        ({
            let after = closed_at_market(b, id, exit_r, at);
            let (was, now) = (b.trades[k], after.trades[k]);
            &&& after.open.len() == b.open.len() - 1
            &&& forall|j: int| 0 <= j < i ==> #[trigger] after.open[j] == b.open[j]
            &&& forall|j: int| i <= j < after.open.len() ==> #[trigger] after.open[j] == b.open[j
                + 1]
            &&& after.trades.len() == b.trades.len()
            &&& forall|j: int|
                0 <= j < b.trades.len() && j != k ==> #[trigger] after.trades[j] == b.trades[j]
            &&& now.r_pnl == exit_r && now.closed_at == Some(at) && now.entry == was.entry
                && now.opportunity_id == was.opportunity_id
            &&& exit_r < 0 ==> now.result == TradeResult::Loss
            &&& exit_r >= 0 ==> now.result == TradeResult::Inconclusive
            &&& after.closed == b.closed.push((k as usize, false))
            &&& !after.ids.clocks.contains_key(id) && !after.ids.overrides.contains_key(id)
                && !after.ids.marks.contains_key(id)
            &&& after.pending == b.pending && after.taken == b.taken
        }),
{
    lemma_find_id(b.open, id, 0, i);
    let left = Book { open: b.open.remove(find_id(b.open, id, 0)), ..b };
    lemma_undecided_is_first(left.trades, id, 0, k);
}

// ─── Figures ────────────────────────────────────────────────────────────────

/// Settling writes the net R and the fee to the ticket's entry and to no other;
/// a close whose own bar reached the stop adds its net R to that tally, and no
/// other close does.
pub proof fn law_settling_writes_one_entry(
    b: Book,
    ticket: CloseTicket,
    net_r: Num,
    fee_r: Num,
    milli: i64,
    j: int,
)
    requires
        ticket.idx < b.trades.len(),
        0 <= j < b.trades.len(),
        i64::MIN <= b.counters.first_touch_stop_r_milli + milli <= i64::MAX,
    ensures
        ({
            let after = settled(b, ticket, net_r, fee_r, milli);
            let (was, now) = (b.trades[j], after.trades[j]);
            let tally = after.counters.first_touch_stop_r_milli
                - b.counters.first_touch_stop_r_milli;
            &&& after.trades.len() == b.trades.len()
            &&& j != ticket.idx ==> now == was
            &&& j == ticket.idx ==> now.r_pnl == net_r && now.fee_r == fee_r && now.result
                == was.result && now.closed_at == was.closed_at && now.entry == was.entry
            &&& ticket.first_touch ==> tally == milli
            &&& !ticket.first_touch ==> tally == 0
            &&& after.counters.maker_fills == b.counters.maker_fills && after.open == b.open
        }),
{
}

/// A result's count is the number of trades with that result.
pub proof fn law_a_count_is_the_trades_with_that_result(
    trades: Seq<PaperTrade>,
    result: TradeResult,
)
    ensures
        count_of(trades, result) == trades.filter(|t: PaperTrade| t.result == result).len(),
    decreases trades.len(),
{
    reveal(Seq::filter);
    if trades.len() > 0 {
        law_a_count_is_the_trades_with_that_result(trades.drop_last(), result);
    }
}

/// Merged counters add up, each kind to its own kind.
pub proof fn law_merged_counters_add_up(a: HybridFillCounters, b: HybridFillCounters)
    requires
        crate::paper::counters::can_merge(a, b),
    ensures
        ({
            let m = merged(a, b);
            &&& m.past_entry_fills == a.past_entry_fills + b.past_entry_fills
            &&& m.immediate_chases == a.immediate_chases + b.immediate_chases
            &&& m.deferred_chases == a.deferred_chases + b.deferred_chases
            &&& m.boundary_chases_from_below == a.boundary_chases_from_below
                + b.boundary_chases_from_below
            &&& m.boundary_chases_from_above == a.boundary_chases_from_above
                + b.boundary_chases_from_above
            &&& m.maker_fills == a.maker_fills + b.maker_fills
            &&& m.rested_maker_fills == a.rested_maker_fills + b.rested_maker_fills
            &&& m.abandon_gap_stop == a.abandon_gap_stop + b.abandon_gap_stop
            &&& m.abandon_tp_open == a.abandon_tp_open + b.abandon_tp_open
            &&& m.abandon_tp_range == a.abandon_tp_range + b.abandon_tp_range
            &&& m.abandon_age == a.abandon_age + b.abandon_age
            &&& m.abandon_deadline == a.abandon_deadline + b.abandon_deadline
            &&& m.abandon_target_consumed == a.abandon_target_consumed + b.abandon_target_consumed
            &&& m.abandon_setup_invalidated == a.abandon_setup_invalidated
                + b.abandon_setup_invalidated
            &&& m.first_touch_stop_fills == a.first_touch_stop_fills + b.first_touch_stop_fills
            &&& m.first_touch_stop_r_milli == a.first_touch_stop_r_milli
                + b.first_touch_stop_r_milli
        }),
{
}

// ─── Prints ─────────────────────────────────────────────────────────────────

/// The prints of a bar that opens outside a leap second are those from its
/// start up to a minute after it, among those that no earlier bar took; the
/// next bar goes on where they end.
pub proof fn law_a_bar_takes_the_prints_of_its_minute(s: TickStore, bar_open: Stamp, i: int)
    requires
        s.wf(),
        bar_open as int % 2_000_000_000 < 1_000_000_000,
        s.cursor <= i < s.ticks@.len(),
        forall|a: int, b: int|
            0 <= a < b < s.ticks@.len() ==> (#[trigger] s.ticks@[a]).timestamp <= (#[trigger]
            s.ticks@[b]).timestamp,
    ensures
        ({
            let (from, to) = (s.window_start(bar_open), s.window_end(bar_open));
            let at = s.ticks@[i].timestamp as int;
            from <= i < to <==> bar_open <= at && at < bar_open as int + 60 * 2_000_000_000
        }),
        s.cursor <= s.window_start(bar_open) <= s.window_end(bar_open) <= s.ticks@.len(),
{
    lemma_first_not_before(s.ticks@, s.cursor as int, bar_open as int);
    lemma_first_not_before(s.ticks@, s.window_start(bar_open), bar_end(bar_open));
}

proof fn lemma_first_not_before(ticks: Seq<crate::models::Tick>, from: int, at: int)
    requires
        0 <= from <= ticks.len(),
    ensures
        ({
            let r = first_not_before(ticks, from, at);
            &&& from <= r <= ticks.len()
            &&& forall|j: int| from <= j < r ==> (#[trigger] ticks[j]).timestamp < at
            &&& r < ticks.len() ==> ticks[r].timestamp >= at
        }),
    decreases ticks.len() - from,
{
    if from < ticks.len() && ticks[from].timestamp < at {
        lemma_first_not_before(ticks, from + 1, at);
    }
}

/// A bar whose minute holds prints is counted as resolved by them, one whose
/// minute holds none as a fallback to its candle; without prints to walk, or
/// with the walk off, neither is counted. A caller's word on chasing comes
/// before the book's own.
pub proof fn law_bars_are_counted_by_their_prints(
    k: Knobs,
    before: TickTape,
    after: TickTape,
    at: Stamp,
    chase_override: Option<bool>,
)
    requires
        before.store matches Some(s) ==> s.wf(),
        tape_advanced(k, before, after, at),
    ensures
        ({
            let s = before.store->0;
            let n = s.window_end(at) - s.window_start(at);
            let walks = k.tick_fill && before.store is Some;
            &&& walks && n > 0 ==> after.resolved_bars == before.resolved_bars + 1
                && after.fallback_bars == before.fallback_bars
            &&& walks && n == 0 ==> after.resolved_bars == before.resolved_bars
                && after.fallback_bars == before.fallback_bars + 1
            &&& walks ==> after.walked == before.walked + n && after.store is Some
                && after.store->0.ticks@ == s.ticks@ && after.store->0.cursor == s.window_end(at)
            &&& !walks ==> after.resolved_bars == before.resolved_bars && after.fallback_bars
                == before.fallback_bars && after.walked == before.walked
            &&& after.store is Some <==> before.store is Some
        }),
        chase_override is Some ==> chases(k, chase_override) == chase_override->0,
        chase_override is None ==> chases(k, chase_override) == k.tick_chase,
{
    if k.tick_fill && before.store is Some {
        let s = before.store->0;
        lemma_first_not_before(s.ticks@, s.cursor as int, at as int);
        lemma_first_not_before(s.ticks@, s.window_start(at), bar_end(at));
    }
}

/// Closes are made in turn, each on the book the one before it left; each that
/// finds its entry open leaves a ticket, in the same order.
pub proof fn law_closes_are_made_in_turn(b: Book, closes: Seq<Close>, n: nat)
    requires
        n < closes.len(),
    ensures
        ({
            let k = closes[n as int];
            let before = all_closed(b, closes, n);
            let t = ticket_of(before, k.id@, k.r_pnl, k.is_stop_exit);
            let (was, now) = (all_tickets(b, closes, n), all_tickets(b, closes, n + 1));
            &&& all_closed(b, closes, n + 1) == closed_out(before, k)
            &&& t is Some ==> now == was.push(t->0)
            &&& t is None ==> now == was
        }),
        all_closed(b, closes, 0) == b,
        all_tickets(b, closes, 0).len() == 0,
{
}

} // verus!
