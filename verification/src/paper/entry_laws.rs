//! How orders become positions, in prices and times alone.
use vstd::prelude::*;
use crate::clock::{on_calendar, whole_seconds};
use crate::fees::EntryFeeSide;
use crate::key::Num;
use crate::models::{Candle, Direction, Opportunity, PaperTrade, Tick, TradeResult};
use crate::paper::book::{
    booked, candles_of, evaluated, recorded_fill, remember, resting_ended, valid_geometry, Book,
    Decision, Knobs, PendingFill,
};
use crate::paper::counters::{count_abandon, count_fill, HybridFillCounters};
use crate::paper::fill::{hybrid_action, HybridAbandon, HybridAction, HybridPath, OrderLevels};
use crate::paper::pending::{hybrid_step, limit_step};
use crate::paper::quote::OrderQuote;
use crate::paper::walk::{first_down, first_up, tick_fill_of, tick_order, Fills};

verus! {

// ─── Placing ────────────────────────────────────────────────────────────────

/// An opportunity that is taken rests as the last order: at the prices it was
/// taken at, for two hours from its signal, its signal bar not seen yet. One
/// that is skipped adds one to its reason. Both were seen; neither is a trade
/// yet.
pub proof fn law_an_offer_rests_or_is_counted(b: Book, o: Opportunity, d: Decision)
    ensures
        ({
            let after = evaluated(b, o, d);
            &&& after.seen == b.seen + 1
            &&& after.trades == b.trades && after.open == b.open && after.taken == b.taken
            &&& d matches Decision::Skip(reason) ==> after.pending == b.pending && (
            after.skips[reason@] == if b.skips.contains_key(reason@) {
                (b.skips[reason@] + 1) as usize
            } else {
                1usize
            }) && forall|k: Seq<char>|
                k != reason@ ==> (#[trigger] after.skips.contains_key(k)
                    <==> b.skips.contains_key(k)) && after.skips[k] == b.skips[k]
            &&& d matches Decision::Take(take) ==> after.skips == b.skips && after.pending.len()
                == b.pending.len() + 1 && after.pending.drop_last() == b.pending && ({
                let p = after.pending.last();
                let t = p.trade;
                &&& t.opportunity_id == o.id && t.asset == o.asset && t.direction == o.direction
                &&& t.signal_type == o.signal_type && t.timeframe == o.timeframe && t.score
                    == o.score
                &&& t.entry == take.entry && t.stop == take.stop && t.tp == take.tp
                &&& t.opened_at == o.created_at && t.filled_at is None && t.closed_at is None
                &&& t.result == TradeResult::Inconclusive && t.r_pnl == 0 && t.fee_r == 0
                &&& !p.seen_first_candle && p.hybrid_armed is None && !p.hybrid_seen_decision_bar
                &&& p.hybrid_b0_open is None && p.cancel_pending is None && p.age_anchor is None
                &&& on_calendar(o.created_at as int) && o.created_at % 2_000_000_000
                    < 1_000_000_000 ==> p.deadline == o.created_at + 7200 * 2_000_000_000
            })
        }),
{
    let after = evaluated(b, o, d);
    if d is Take {
        assert(after.pending.drop_last() =~= b.pending);
    }
}

/// A plan is sound when the entry lies between the stop and the target, the
/// stop below for a long and above for a short.
pub proof fn law_a_sound_plan_risks_one_side(dir: Direction, entry: Num, stop: Num, tp: Num)
    ensures
        dir == Direction::Bull ==> (valid_geometry(dir, entry, stop, tp) <==> stop < entry && entry
            < tp),
        dir == Direction::Bear ==> (valid_geometry(dir, entry, stop, tp) <==> stop > entry && entry
            > tp),
{
}

/// A booked fill stands at the end of the ledger and of the open trades, at its
/// price and time, otherwise as it was planned; its clock and best R start at
/// zero and its side is remembered.
pub proof fn law_a_fill_is_booked_once(
    b: Book,
    t: PaperTrade,
    px: Num,
    side: EntryFeeSide,
    at: crate::clock::Stamp,
)
    ensures
        ({
            let after = booked(b, t, px, side, at);
            let id = t.opportunity_id@;
            let held = PaperTrade { fill: px, filled_at: Some(at), ..t };
            &&& after.trades == b.trades.push(held) && after.open == b.open.push(held)
            &&& after.taken == b.taken + 1 && after.seen == b.seen
            &&& after.pending == b.pending && after.counters == b.counters
            &&& after.ids.clocks[id].candles_held == 0 && after.ids.marks[id] == 0
            &&& after.ids.sides[id] == side
            &&& after.ids.overrides == b.ids.overrides && after.ids.partial == b.ids.partial
            &&& recorded_fill(b, t, px, side, at).open == b.open
            &&& recorded_fill(b, t, px, side, at).trades == after.trades
        }),
{
}

/// An order that leaves the book leaves the interval it rested for, once.
pub proof fn law_a_rest_is_noted_once(b: Book, id: Seq<char>, at: crate::clock::Stamp)
    ensures
        ({
            let after = resting_ended(b, id, at);
            &&& b.ids.placed.contains_key(id) ==> after.intervals == b.intervals.push(
                (b.ids.placed[id], at),
            ) && !after.ids.placed.contains_key(id)
            &&& !b.ids.placed.contains_key(id) ==> after == b
            &&& resting_ended(after, id, at) == after
            &&& after.trades == b.trades && after.open == b.open && after.pending == b.pending
                && after.counters == b.counters
        }),
{
}

// ─── The limit model ────────────────────────────────────────────────────────

/// A limit fills on an eligible bar exactly when the bar trades to its entry: a
/// long's when the low comes down to it, a short's when the high comes up to
/// it. The fill is a maker's at the slipped entry and the bar's time; an order
/// that does not fill rests on, its signal bar seen.
pub proof fn law_a_limit_fills_where_price_trades_to_it(
    k: Knobs,
    b: Book,
    p: PendingFill,
    q: OrderQuote,
    c: Candle,
)
    requires
        p.trade.asset == c.asset,
        c.timestamp <= p.deadline,
    ensures
        ({
            let t = p.trade;
            let reached = if t.direction == Direction::Bull {
                c.low <= t.entry
            } else {
                c.high >= t.entry
            };
            let eligible = p.seen_first_candle || k.allow_signal_bar_fill;
            let after = limit_step(k, b, p, q, c);
            &&& reached && eligible ==> after.pending == b.pending && after.trades == b.trades.push(
                PaperTrade { fill: q.slipped, filled_at: Some(c.timestamp), ..t },
            ) && after.ids.sides[t.opportunity_id@] == EntryFeeSide::Maker
            &&& !(reached && eligible) ==> after.trades == b.trades && after.open == b.open
                && after.pending == b.pending.push(PendingFill { seen_first_candle: true, ..p })
        }),
{
}

// ─── The hybrid model ───────────────────────────────────────────────────────

/// The fill at a price, on a side, by a route.
pub open spec fn fills_at(a: HybridAction, at: Num, by: EntryFeeSide, route: HybridPath) -> bool {
    a matches HybridAction::Fill { px, side, path } && px == at && side == by && path == route
}

/// What a bar does to a long's order on the decision bar when it opens at or
/// below the entry, or within the cap of an armed immediate chase: it fills at
/// the open, or is given up where the open is at or below the stop.
pub proof fn law_the_decision_open_comes_first(
    l: OrderLevels,
    armed: bool,
    immediate: bool,
    maker_first: bool,
    carry: Option<Num>,
    fee: EntryFeeSide,
    c: Candle,
    aged: bool,
)
    ensures
        ({
            let a = hybrid_action(
                Direction::Bull,
                l,
                armed,
                immediate,
                maker_first,
                carry,
                fee,
                c,
                true,
                aged,
            );
            &&& c.open <= l.entry && c.open <= l.stop ==> a == HybridAction::Abandon(
                HybridAbandon::GapStop,
            )
            &&& c.open <= l.entry && c.open > l.stop ==> fills_at(
                a,
                c.open,
                fee,
                HybridPath::PastEntry,
            )
            &&& c.open > l.entry && armed && immediate && c.open <= l.boundary ==> fills_at(
                a,
                c.open,
                EntryFeeSide::Taker,
                HybridPath::ImmediateChase,
            )
        }),
{
}

/// After the decision bar's open had its say, a long's order that carries
/// nothing is given up where it is too old, where the bar opens at or above the
/// target, and where the bar reaches the target before an order that is not
/// armed was touched; it fills at its entry when the low comes down to it, at
/// its cap when an armed order's bar reaches that; and it waits on every other
/// bar.
pub proof fn law_a_resting_order_goes_by_the_bar(
    l: OrderLevels,
    armed: bool,
    immediate: bool,
    maker_first: bool,
    fee: EntryFeeSide,
    c: Candle,
    decision: bool,
    aged: bool,
)
    requires
        decision ==> c.open > l.entry && !(armed && immediate && c.open <= l.boundary),
    ensures
        ({
            let a = hybrid_action(
                Direction::Bull,
                l,
                armed,
                immediate,
                maker_first,
                None,
                fee,
                c,
                decision,
                aged,
            );
            let fresh = !aged && c.open < l.tp;
            let beyond = armed && c.open >= l.boundary;
            let touched = c.low <= l.entry;
            let capped = armed && c.high >= l.boundary;
            &&& aged ==> a == HybridAction::Abandon(HybridAbandon::Age)
            &&& !aged && c.open >= l.tp ==> a == HybridAction::Abandon(HybridAbandon::TpOpen)
            &&& fresh && beyond && c.high >= l.tp ==> a == HybridAction::Abandon(
                HybridAbandon::TpRange,
            )
            &&& fresh && beyond && c.high < l.tp && c.low <= l.boundary ==> fills_at(
                a,
                l.boundary,
                EntryFeeSide::Taker,
                HybridPath::BoundaryFromAbove,
            )
            &&& fresh && beyond && c.high < l.tp && c.low > l.boundary ==> a == HybridAction::Wait
            &&& fresh && !beyond && capped && !(maker_first && touched) ==> fills_at(
                a,
                l.boundary,
                EntryFeeSide::Taker,
                HybridPath::BoundaryFromBelow,
            )
            &&& fresh && !beyond && touched && (maker_first || !capped) ==> fills_at(
                a,
                l.entry,
                EntryFeeSide::Maker,
                HybridPath::Maker,
            )
            &&& fresh && !armed && !touched && c.high >= l.tp ==> a == HybridAction::Abandon(
                HybridAbandon::TpRange,
            )
            &&& fresh && !armed && !touched && c.high < l.tp ==> a == HybridAction::Wait
            &&& fresh && armed && !beyond && !touched && !capped ==> a == HybridAction::Wait
        }),
{
}

/// A long's order that carries the decision bar's open books it, as a taker,
/// where an order that carries nothing would be given up or would chase; where
/// only the entry was touched it is a maker's fill there.
pub proof fn law_a_carried_open_is_booked_in_place_of_a_loss(
    l: OrderLevels,
    immediate: bool,
    maker_first: bool,
    open: Num,
    fee: EntryFeeSide,
    c: Candle,
    aged: bool,
)
    ensures
        ({
            let with = |carry: Option<Num>|
                hybrid_action(
                    Direction::Bull,
                    l,
                    true,
                    immediate,
                    maker_first,
                    carry,
                    fee,
                    c,
                    false,
                    aged,
                );
            let a = with(Some(open));
            let booked = fills_at(a, open, EntryFeeSide::Taker, HybridPath::DeferredChase);
            &&& with(None) is Abandon ==> booked
            &&& aged || c.open >= l.tp || c.open >= l.boundary ==> booked
            &&& !aged && c.open < l.tp && c.open < l.boundary && c.low <= l.entry ==> fills_at(
                a,
                l.entry,
                EntryFeeSide::Maker,
                HybridPath::Maker,
            )
            &&& !aged && c.open < l.tp && c.open < l.boundary && c.low > l.entry && c.high
                >= l.boundary ==> booked
            &&& !aged && c.open < l.tp && c.open < l.boundary && c.low > l.entry && c.high
                < l.boundary ==> a == HybridAction::Wait
        }),
{
}

/// On its signal bar an order that does not fill is seen, its age counts from
/// that bar, and chases are armed where no touch is asked for or the bar, or
/// the one before the signal, touched the entry.
pub proof fn law_the_signal_bar_arms_a_chase(
    k: Knobs,
    b: Book,
    p: PendingFill,
    q: OrderQuote,
    c: Candle,
)
    requires
        p.trade.asset == c.asset,
        p.cancel_pending is None,
        !p.seen_first_candle,
        !k.rest_on_ready_fill,
    ensures
        ({
            let touched = if p.trade.direction == Direction::Bull {
                c.low <= p.trade.entry
            } else {
                c.high >= p.trade.entry
            };
            let after = hybrid_step(k, b, p, q, c);
            let kept = after.pending.last();
            &&& after.pending.len() == b.pending.len() + 1 && after.trades == b.trades
            &&& kept.trade == p.trade && kept.deadline == p.deadline && kept.seen_first_candle
            &&& kept.age_anchor == Some(c.timestamp)
            &&& kept.hybrid_armed == Some(
                !k.chase_requires_seed || touched || p.hybrid_pred_touch,
            )
        }),
{
}

/// A bar that closes at or past the target an order was planned for flags it,
/// where consumed targets cancel; the next bar of its asset drops it without a
/// trade and counts it.
pub proof fn law_a_consumed_target_cancels_on_the_next_bar(
    k: Knobs,
    b: Book,
    p: PendingFill,
    q: OrderQuote,
    c: Candle,
    next: Candle,
    target: Num,
)
    requires
        p.trade.asset == c.asset,
        next.asset == c.asset,
        p.cancel_pending is None,
        !p.seen_first_candle,
        !k.rest_on_ready_fill,
        p.min_target == Some(target),
    ensures
        ({
            let passed = if p.trade.direction == Direction::Bull {
                c.close >= target
            } else {
                c.close <= target
            };
            let kept = hybrid_step(k, b, p, q, c).pending.last();
            let after = hybrid_step(k, b, kept, q, next);
            &&& kept.cancel_pending == if k.cancel_on_target_consumed && passed {
                Some(HybridAbandon::TargetConsumed)
            } else {
                None
            }
            &&& k.cancel_on_target_consumed && passed ==> after.trades == b.trades && after.pending
                == b.pending && after.counters.abandon_target_consumed == (
            b.counters.abandon_target_consumed + 1) as usize
        }),
{
}

/// An order rested too long once half an hour of whole seconds has passed since
/// its signal bar: then a later bar gives it up, unless it carries an open.
pub proof fn law_a_chase_is_given_up_after_half_an_hour(
    k: Knobs,
    b: Book,
    p: PendingFill,
    q: OrderQuote,
    c: Candle,
    since: crate::clock::Stamp,
)
    requires
        p.trade.asset == c.asset,
        p.cancel_pending is None,
        p.seen_first_candle,
        p.hybrid_seen_decision_bar,
        p.hybrid_b0_open is None,
        p.age_anchor == Some(since),
        c.timestamp <= p.deadline,
    ensures
        ({
            let after = hybrid_step(k, b, p, q, c);
            let waited = whole_seconds(since as int, c.timestamp as int);
            &&& waited > 1800 ==> after.trades == b.trades && after.pending == b.pending
                && after.counters.abandon_age == (b.counters.abandon_age + 1) as usize
            &&& waited <= 1800 ==> after.counters.abandon_age == b.counters.abandon_age
        }),
{
}

/// Past its deadline an order under the hybrid model leaves without a trade and
/// is counted as that, once its signal bar was seen.
pub proof fn law_a_hybrid_order_expires_at_its_deadline(
    k: Knobs,
    b: Book,
    p: PendingFill,
    q: OrderQuote,
    c: Candle,
)
    requires
        p.trade.asset == c.asset,
        p.cancel_pending is None,
        p.seen_first_candle,
        c.timestamp > p.deadline,
    ensures
        ({
            let after = hybrid_step(k, b, p, q, c);
            &&& after.trades == b.trades && after.open == b.open && after.pending == b.pending
            &&& after.counters == (HybridFillCounters {
                abandon_deadline: (b.counters.abandon_deadline + 1) as usize,
                ..b.counters
            })
        }),
{
}

/// A fill of the hybrid model whose own bar also trades to the stop is noted as
/// such, on the long side by the low and on the short side by the high; no
/// other fill is.
pub proof fn law_a_fill_on_a_bar_that_reaches_the_stop_is_noted(
    k: Knobs,
    b: Book,
    p: PendingFill,
    q: OrderQuote,
    c: Candle,
)
    requires
        p.trade.asset == c.asset,
        p.cancel_pending is None,
        p.seen_first_candle,
        c.timestamp <= p.deadline,
        !b.ids.first_touch.contains_key(p.trade.opportunity_id@),
    ensures
        ({
            let after = hybrid_step(k, b, p, q, c);
            let reached = if p.trade.direction == Direction::Bull {
                c.low <= p.trade.stop
            } else {
                c.high >= p.trade.stop
            };
            let filled = after.trades.len() > b.trades.len();
            &&& after.ids.first_touch.contains_key(p.trade.opportunity_id@) <==> filled && reached
            &&& filled && reached ==> after.counters.first_touch_stop_fills == (
            b.counters.first_touch_stop_fills + 1) as usize
            &&& !(filled && reached) ==> after.counters.first_touch_stop_fills
                == b.counters.first_touch_stop_fills
        }),
{
}

/// Each route has a count of its own, each reason for giving up has one, and
/// nothing else is counted.
pub proof fn law_every_route_has_its_count(c: HybridFillCounters)
    ensures
        count_fill(c, HybridPath::PastEntry) == (HybridFillCounters {
            past_entry_fills: (c.past_entry_fills + 1) as usize,
            ..c
        }),
        count_fill(c, HybridPath::ImmediateChase) == (HybridFillCounters {
            immediate_chases: (c.immediate_chases + 1) as usize,
            ..c
        }),
        count_fill(c, HybridPath::DeferredChase) == (HybridFillCounters {
            deferred_chases: (c.deferred_chases + 1) as usize,
            ..c
        }),
        count_fill(c, HybridPath::BoundaryFromBelow) == (HybridFillCounters {
            boundary_chases_from_below: (c.boundary_chases_from_below + 1) as usize,
            ..c
        }),
        count_fill(c, HybridPath::BoundaryFromAbove) == (HybridFillCounters {
            boundary_chases_from_above: (c.boundary_chases_from_above + 1) as usize,
            ..c
        }),
        count_fill(c, HybridPath::Maker) == (HybridFillCounters {
            maker_fills: (c.maker_fills + 1) as usize,
            ..c
        }),
        count_abandon(c, HybridAbandon::GapStop) == (HybridFillCounters {
            abandon_gap_stop: (c.abandon_gap_stop + 1) as usize,
            ..c
        }),
        count_abandon(c, HybridAbandon::TpOpen) == (HybridFillCounters {
            abandon_tp_open: (c.abandon_tp_open + 1) as usize,
            ..c
        }),
        count_abandon(c, HybridAbandon::TpRange) == (HybridFillCounters {
            abandon_tp_range: (c.abandon_tp_range + 1) as usize,
            ..c
        }),
        count_abandon(c, HybridAbandon::Age) == (HybridFillCounters {
            abandon_age: (c.abandon_age + 1) as usize,
            ..c
        }),
        count_abandon(c, HybridAbandon::TargetConsumed) == (HybridFillCounters {
            abandon_target_consumed: (c.abandon_target_consumed + 1) as usize,
            ..c
        }),
        count_abandon(c, HybridAbandon::SetupInvalidated) == (HybridFillCounters {
            abandon_setup_invalidated: (c.abandon_setup_invalidated + 1) as usize,
            ..c
        }),
{
}

// ─── Prints ─────────────────────────────────────────────────────────────────

/// With prints an order that may not be chased fills exactly when some print
/// trades to its entry, at or below it for a long and at or above it for a
/// short: at the first such print, at the entry, as a maker.
pub proof fn law_the_first_print_to_the_entry_fills(
    k: Knobs,
    chase: bool,
    p: PendingFill,
    q: OrderQuote,
    ticks: Seq<Tick>,
    order: int,
    i: int,
)
    requires
        ticks.len() <= usize::MAX,
        !chase || p.hybrid_armed != Some(true) || k.chase_r <= 0,
        0 <= i <= ticks.len(),
        forall|j: int|
            0 <= j < i ==> if p.trade.direction == Direction::Bull {
                (#[trigger] ticks[j]).price > p.trade.entry
            } else {
                ticks[j].price < p.trade.entry
            },
        i < ticks.len() ==> if p.trade.direction == Direction::Bull {
            ticks[i].price <= p.trade.entry
        } else {
            ticks[i].price >= p.trade.entry
        },
    ensures
        ({
            let f = tick_fill_of(k, chase, p, q, ticks, order);
            &&& f is Some <==> i < ticks.len()
            &&& f matches Some(x) ==> x.tick == i && x.px == p.trade.entry && x.side
                == EntryFeeSide::Maker && x.trade == p.trade
        }),
{
    lemma_down_at(ticks, p.trade.direction, p.trade.entry, 0, i);
}

/// With prints an armed order that may be chased fills at its cap, as a taker,
/// when a print reaches the cap before any print trades to the entry; at its
/// entry, as a maker, when the entry comes first or both come at once.
pub proof fn law_a_chase_takes_the_cap_first(
    k: Knobs,
    p: PendingFill,
    q: OrderQuote,
    ticks: Seq<Tick>,
    order: int,
    i: int,
    j: int,
)
    requires
        ticks.len() <= usize::MAX,
        p.hybrid_armed == Some(true),
        k.chase_r > 0,
        p.trade.direction == Direction::Bull,
        0 <= i <= ticks.len(),
        0 <= j <= ticks.len(),
        forall|m: int| 0 <= m < i ==> (#[trigger] ticks[m]).price > p.trade.entry,
        i < ticks.len() ==> ticks[i].price <= p.trade.entry,
        forall|m: int| 0 <= m < j ==> (#[trigger] ticks[m]).price < q.boundary,
        j < ticks.len() ==> ticks[j].price >= q.boundary,
    ensures
        ({
            let f = tick_fill_of(k, true, p, q, ticks, order);
            &&& j < i ==> f is Some && f->0.tick == j && f->0.px == q.boundary && f->0.side
                == EntryFeeSide::Taker
            &&& i <= j && i < ticks.len() ==> f is Some && f->0.tick == i && f->0.px
                == p.trade.entry && f->0.side == EntryFeeSide::Maker
            &&& i == ticks.len() && j == ticks.len() ==> f is None
        }),
{
    lemma_down_at(ticks, p.trade.direction, p.trade.entry, 0, i);
    lemma_up_at(ticks, q.boundary, 0, j);
}

/// A short chases as a long does with every price seen in the mirror.
pub proof fn law_print_fills_mirror(
    k: Knobs,
    chase: bool,
    long: PendingFill,
    ql: OrderQuote,
    ticks: Seq<Tick>,
    short: PendingFill,
    qs: OrderQuote,
    mirrored: Seq<Tick>,
    order: int,
)
    requires
        long.trade.direction == Direction::Bull,
        short.trade.direction == Direction::Bear,
        short.trade.entry == -long.trade.entry,
        qs.boundary == -ql.boundary,
        short.hybrid_armed == long.hybrid_armed,
        mirrored.len() == ticks.len(),
        forall|i: int| 0 <= i < ticks.len() ==> (#[trigger] mirrored[i]).price == -ticks[i].price,
    ensures
        ({
            let a = tick_fill_of(k, chase, long, ql, ticks, order);
            let b = tick_fill_of(k, chase, short, qs, mirrored, order);
            &&& a is Some <==> b is Some
            &&& a is Some ==> a->0.tick == b->0.tick && a->0.side == b->0.side && b->0.px
                == -a->0.px
        }),
{
    lemma_mirrored_first(ticks, mirrored, long.trade.entry, short.trade.entry, 0);
    lemma_mirrored_up(ticks, mirrored, ql.boundary, qs.boundary, 0);
}

/// A signal bar with prints arms an order that was not armed before: where no
/// touch is asked for, or one of its prints traded to the entry, or the bar
/// before had.
pub proof fn law_prints_arm_on_the_signal_bar(
    k: Knobs,
    s: Fills,
    chase: bool,
    p: PendingFill,
    q: OrderQuote,
    c: Candle,
    ticks: Seq<Tick>,
    order: int,
)
    requires
        p.trade.asset == c.asset,
        c.timestamp <= p.deadline,
        !p.seen_first_candle,
        !k.allow_signal_bar_fill,
        p.hybrid_armed is None,
        p.trade.direction == Direction::Bull,
    ensures
        ({
            let touched = exists|i: int|
                0 <= i < ticks.len() && (#[trigger] ticks[i]).price <= p.trade.entry;
            let after = tick_order(k, chase, s, p, q, c, ticks, order);
            let kept = after.book.pending.last();
            &&& after.fills == s.fills && after.book.pending.len() == s.book.pending.len() + 1
            &&& kept.seen_first_candle && kept.trade == p.trade
            &&& kept.hybrid_armed == Some(
                !k.chase_requires_seed || touched || p.hybrid_pred_touch,
            )
        }),
{
    let at = first_down(ticks, p.trade.direction, p.trade.entry, 0);
    lemma_down_found(ticks, p.trade.entry, 0);
    if at < ticks.len() {
        assert(ticks[at].price <= p.trade.entry);
    } else {
        assert forall|i: int| 0 <= i < ticks.len() implies !((#[trigger] ticks[i]).price
            <= p.trade.entry) by {}
    }
}

proof fn lemma_down_found(ticks: Seq<Tick>, level: Num, from: int)
    requires
        0 <= from <= ticks.len(),
    ensures
        ({
            let at = first_down(ticks, Direction::Bull, level, from);
            &&& from <= at <= ticks.len()
            &&& at < ticks.len() ==> ticks[at].price <= level
            &&& forall|i: int| from <= i < at ==> (#[trigger] ticks[i]).price > level
        }),
    decreases ticks.len() - from,
{
    if from < ticks.len() && ticks[from].price > level {
        lemma_down_found(ticks, level, from + 1);
    }
}

proof fn lemma_down_at(ticks: Seq<Tick>, dir: Direction, level: Num, from: int, i: int)
    requires
        0 <= from <= i <= ticks.len(),
        forall|j: int|
            from <= j < i ==> if dir == Direction::Bull {
                (#[trigger] ticks[j]).price > level
            } else {
                ticks[j].price < level
            },
        i < ticks.len() ==> if dir == Direction::Bull {
            ticks[i].price <= level
        } else {
            ticks[i].price >= level
        },
    ensures
        first_down(ticks, dir, level, from) == i,
    decreases i - from,
{
    if from < i {
        assert(if dir == Direction::Bull {
            ticks[from].price > level
        } else {
            ticks[from].price < level
        });
        lemma_down_at(ticks, dir, level, from + 1, i);
    }
}

proof fn lemma_up_at(ticks: Seq<Tick>, level: Num, from: int, i: int)
    requires
        0 <= from <= i <= ticks.len(),
        forall|j: int| from <= j < i ==> (#[trigger] ticks[j]).price < level,
        i < ticks.len() ==> ticks[i].price >= level,
    ensures
        first_up(ticks, Direction::Bull, level, from) == i,
    decreases i - from,
{
    if from < i {
        assert(ticks[from].price < level);
        lemma_up_at(ticks, level, from + 1, i);
    }
}

proof fn lemma_mirrored_first(a: Seq<Tick>, b: Seq<Tick>, x: Num, y: Num, from: int)
    requires
        a.len() == b.len(),
        y == -x,
        0 <= from <= a.len(),
        forall|i: int| 0 <= i < a.len() ==> (#[trigger] b[i]).price == -a[i].price,
    ensures
        first_down(a, Direction::Bull, x, from) == first_down(b, Direction::Bear, y, from),
        from <= first_down(a, Direction::Bull, x, from) <= a.len(),
    decreases a.len() - from,
{
    if from < a.len() {
        assert(b[from].price == -a[from].price);
        lemma_mirrored_first(a, b, x, y, from + 1);
    }
}

proof fn lemma_mirrored_up(a: Seq<Tick>, b: Seq<Tick>, x: Num, y: Num, from: int)
    requires
        a.len() == b.len(),
        y == -x,
        0 <= from <= a.len(),
        forall|i: int| 0 <= i < a.len() ==> (#[trigger] b[i]).price == -a[i].price,
    ensures
        first_up(a, Direction::Bull, x, from) == first_up(b, Direction::Bear, y, from),
        from <= first_up(a, Direction::Bull, x, from) <= a.len(),
    decreases a.len() - from,
{
    if from < a.len() {
        assert(b[from].price == -a[from].price);
        lemma_mirrored_up(a, b, x, y, from + 1);
    }
}

// ─── Recent candles ─────────────────────────────────────────────────────────

/// The candles kept of an asset are its last hundred and twenty, oldest first.
pub proof fn law_the_last_candles_are_kept(s: Seq<Candle>, c: Candle)
    requires
        candles_of(s, c.asset).len() <= 120,
    ensures
        ({
            let all = candles_of(s, c.asset).push(c);
            candles_of(remember(s, c), c.asset) == if all.len() > 120 {
                all.subrange(1, all.len() as int)
            } else {
                all
            }
        }),
{
    let t = s.push(c);
    assert(t.drop_last() =~= s);
    lemma_count_is_length(t, c.asset);
    let all = candles_of(t, c.asset);
    assert(all == candles_of(s, c.asset).push(c));
    if all.len() > 120 {
        lemma_first_leaves(t, c.asset, 0);
    }
}

proof fn lemma_count_is_length(s: Seq<Candle>, asset: u16)
    ensures
        crate::paper::book::asset_count(s, asset) == candles_of(s, asset).len(),
    decreases s.len(),
{
    if s.len() > 0 {
        lemma_count_is_length(s.drop_last(), asset);
    }
}

/// Without its first candle an asset has all the others.
proof fn lemma_first_leaves(s: Seq<Candle>, asset: u16, from: int)
    requires
        0 <= from <= s.len(),
        candles_of(s, asset).len() > 0,
        forall|j: int| 0 <= j < from ==> (#[trigger] s[j]).asset != asset,
    ensures
        ({
            let i = crate::paper::book::first_of(s, asset, from);
            let all = candles_of(s, asset);
            &&& 0 <= i < s.len()
            &&& candles_of(s.remove(i), asset) == all.subrange(1, all.len() as int)
        }),
    decreases s.len() - from,
{
    if from >= s.len() {
        lemma_none_of(s, asset);
    } else if s[from].asset == asset {
        lemma_drop_first(s, asset, from);
    } else {
        lemma_first_leaves(s, asset, from + 1);
    }
}

proof fn lemma_none_of(s: Seq<Candle>, asset: u16)
    requires
        forall|j: int| 0 <= j < s.len() ==> (#[trigger] s[j]).asset != asset,
    ensures
        candles_of(s, asset).len() == 0,
    decreases s.len(),
{
    if s.len() > 0 {
        assert(s.last() == s[s.len() - 1]);
        assert forall|j: int| 0 <= j < s.drop_last().len() implies (
        #[trigger] s.drop_last()[j]).asset != asset by {
            assert(s[j].asset != asset);
        }
        lemma_none_of(s.drop_last(), asset);
    }
}

proof fn lemma_drop_first(s: Seq<Candle>, asset: u16, i: int)
    requires
        0 <= i < s.len(),
        s[i].asset == asset,
        forall|j: int| 0 <= j < i ==> (#[trigger] s[j]).asset != asset,
    ensures
        candles_of(s, asset).len() > 0,
        candles_of(s.remove(i), asset) == candles_of(s, asset).subrange(
            1,
            candles_of(s, asset).len() as int,
        ),
    decreases s.len(),
{
    let r = s.remove(i);
    let d = s.drop_last();
    if i == s.len() - 1 {
        assert(r =~= d);
        assert forall|j: int| 0 <= j < d.len() implies (#[trigger] d[j]).asset != asset by {
            assert(s[j].asset != asset);
        }
        lemma_none_of(d, asset);
        assert(candles_of(r, asset) =~= candles_of(s, asset).subrange(
            1,
            candles_of(s, asset).len() as int,
        ));
    } else {
        assert forall|j: int| 0 <= j < i implies (#[trigger] d[j]).asset != asset by {
            assert(s[j].asset != asset);
        }
        lemma_drop_first(d, asset, i);
        assert(r.drop_last() =~= d.remove(i));
        assert(r.last() == s.last());
        assert(candles_of(r, asset) =~= candles_of(s, asset).subrange(
            1,
            candles_of(s, asset).len() as int,
        ));
    }
}

} // verus!
