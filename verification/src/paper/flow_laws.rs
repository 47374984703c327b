//! How a bar's orders, positions and prints follow one another.
use vstd::prelude::*;
use crate::fees::EntryFeeSide;
use crate::models::{Candle, Direction, PaperTrade, Tick, TradeResult};
use crate::paper::book::{Book, IdMaps, Knobs, PendingFill};
use crate::paper::counters::counters_room;
use crate::paper::fill::{HybridAbandon, HybridPath};
use crate::paper::pending::{
    at_decision, hybrid_later_bar, hybrid_signal_bar, hybrid_step, levels_of, limit_step,
    orders_stepped, rested, verdict,
};
use crate::paper::quote::{BarQuotes, OrderQuote, TradeQuote};
use crate::paper::race::bar_of_trade;
use crate::paper::walk::{
    all_clocked, all_derisked, all_raced_at, bar_clocks, bar_fills, bar_walk, fill_at_tick,
    fills_at_tick, prints_applied, raced_at, slot_quote, still_live, survivors, tick_fill_of,
    tick_order, tick_orders, walked, Fills, Live, QuoteSlot, TickFill, Walk,
};

verus! {

// ─── Orders ─────────────────────────────────────────────────────────────────

/// Orders are taken in turn, each on the book the one before it left, by the
/// hybrid model where that is on and by the limit model where it is not; what
/// still rests afterwards is what they leave.
pub proof fn law_orders_are_taken_in_turn(
    k: Knobs,
    b: Book,
    orders: Seq<PendingFill>,
    quotes: Seq<OrderQuote>,
    c: Candle,
    n: nat,
)
    requires
        n < orders.len(),
    ensures
        ({
            let before = orders_stepped(k, b, orders, quotes, c, n);
            let after = orders_stepped(k, b, orders, quotes, c, n + 1);
            let (p, q) = (orders[n as int], quotes[n as int]);
            &&& k.hybrid_fill ==> after == hybrid_step(k, before, p, q, c)
            &&& !k.hybrid_fill ==> after == limit_step(k, before, p, q, c)
        }),
        orders_stepped(k, b, orders, quotes, c, 0) == (Book { pending: Seq::empty(), ..b }),
{
}

/// An order is judged by its own entry, stop and target and the boundary it may
/// be chased to. It rested where its setup was ready, outside leap seconds, at
/// least the lead before its signal.
pub proof fn law_an_order_is_judged_by_its_own_levels(k: Knobs, p: PendingFill, q: OrderQuote)
    ensures
        ({
            let l = levels_of(p, q);
            &&& l.entry == p.trade.entry && l.stop == p.trade.stop && l.tp == p.trade.tp
                && l.boundary == q.boundary
        }),
        p.ready_at is None ==> !rested(k, p),
        ({
            let (ready, signal) = (p.ready_at->0 as int, p.trade.opened_at as int);
            p.ready_at is Some && ready % 2_000_000_000 == 0 && signal % 2_000_000_000 == 0 ==> (
            rested(k, p) <==> signal / 2_000_000_000 - ready / 2_000_000_000
                >= k.rest_min_lead_secs)
        }),
{
    if p.ready_at is Some {
        let (ready, signal) = (p.ready_at->0 as int, p.trade.opened_at as int);
        if ready % 2_000_000_000 == 0 && signal % 2_000_000_000 == 0 {
            crate::clock::law_whole_seconds_are_cut_toward_zero(ready, signal);
        }
    }
}

/// The decision bar is seen once. Its open is carried only there, for an armed
/// order whose chase is deferred to the open and not made at once, where the
/// open is in front of the entry and within the boundary; any other order keeps
/// what it carried.
pub proof fn law_the_decision_bar_carries_its_open(
    k: Knobs,
    p: PendingFill,
    q: OrderQuote,
    c: Candle,
)
    ensures
        ({
            let after = at_decision(k, p, q, c);
            let carries = !p.hybrid_seen_decision_bar && p.hybrid_armed == Some(true)
                && k.deferred_chase_at_open && !k.immediate_chase_at_open && (p.trade.direction
                == Direction::Bull ==> p.trade.entry < c.open <= q.boundary) && (p.trade.direction
                == Direction::Bear ==> p.trade.entry > c.open >= q.boundary);
            &&& after.hybrid_seen_decision_bar && after.trade == p.trade
            &&& carries ==> after.hybrid_b0_open == Some(c.open)
            &&& !carries ==> after.hybrid_b0_open == p.hybrid_b0_open
            &&& after.hybrid_armed == p.hybrid_armed && after.age_anchor == p.age_anchor
        }),
{
}

/// An order under the hybrid model goes by these in turn: of another asset it
/// waits; a cancel that awaits it is made; its first bar arms or fills it; after
/// its deadline it is given up, and at the deadline it still lives; any other
/// bar is judged by its prices.
pub proof fn law_a_hybrid_order_lives_through_its_deadline(
    k: Knobs,
    b: Book,
    p: PendingFill,
    q: OrderQuote,
    c: Candle,
)
    requires
        b.counters.abandon_deadline < usize::MAX,
    ensures
        ({
            let after = hybrid_step(k, b, p, q, c);
            let own = p.trade.asset == c.asset;
            let later = own && p.cancel_pending is None && p.seen_first_candle;
            &&& !own ==> after.pending == b.pending.push(p) && after.counters == b.counters
            &&& own && p.cancel_pending is Some ==> after.pending == b.pending && after.trades
                == b.trades
            &&& own && p.cancel_pending is None && !p.seen_first_candle ==> after
                == hybrid_signal_bar(k, b, p, c)
            &&& later && c.timestamp > p.deadline ==> after.pending == b.pending && after.trades
                == b.trades && after.counters.abandon_deadline == b.counters.abandon_deadline + 1
            &&& later && c.timestamp <= p.deadline ==> after == hybrid_later_bar(k, b, p, q, c)
        }),
{
}

/// A later bar that fills an order books it at the price and the side decided
/// and counts it under its path; one that gives it up counts the reason and
/// books nothing; one that waits leaves it resting. In the first two cases its
/// rest ends at the bar's time.
pub proof fn law_a_later_bar_books_and_counts_once(
    k: Knobs,
    b: Book,
    p: PendingFill,
    q: OrderQuote,
    c: Candle,
)
    requires
        counters_room(b.counters, 1),
    ensures
        ({
            let id = p.trade.opportunity_id@;
            let after = hybrid_later_bar(k, b, p, q, c);
            let v = verdict(k, p, q, c);
            let (a, z) = (b.counters, after.counters);
            let t = after.trades.last();
            let rests = b.ids.placed.contains_key(id);
            &&& v is Fill ==> {
                &&& after.trades.len() == b.trades.len() + 1 && after.open.len() == b.open.len() + 1
                &&& t.fill == v->px && t.filled_at == Some(c.timestamp) && t.opportunity_id
                    == p.trade.opportunity_id && after.ids.sides[id] == v->side
                &&& after.pending == b.pending && after.taken == b.taken + 1
                &&& z.maker_fills == a.maker_fills + if v->path == HybridPath::Maker {
                    1int
                } else {
                    0
                }
                &&& z.past_entry_fills == a.past_entry_fills + if v->path
                    == HybridPath::PastEntry {
                    1int
                } else {
                    0
                }
                &&& z.immediate_chases == a.immediate_chases + if v->path
                    == HybridPath::ImmediateChase {
                    1int
                } else {
                    0
                }
                &&& z.deferred_chases == a.deferred_chases + if v->path
                    == HybridPath::DeferredChase {
                    1int
                } else {
                    0
                }
                &&& z.boundary_chases_from_below == a.boundary_chases_from_below + if v->path
                    == HybridPath::BoundaryFromBelow {
                    1int
                } else {
                    0
                }
                &&& z.boundary_chases_from_above == a.boundary_chases_from_above + if v->path
                    == HybridPath::BoundaryFromAbove {
                    1int
                } else {
                    0
                }
                &&& z.abandon_age == a.abandon_age && z.abandon_gap_stop == a.abandon_gap_stop
            }
            &&& v is Abandon ==> {
                &&& after.trades == b.trades && after.open == b.open && after.pending == b.pending
                &&& z.maker_fills == a.maker_fills
                &&& z.abandon_gap_stop + z.abandon_tp_open + z.abandon_tp_range + z.abandon_age
                    + z.abandon_target_consumed + z.abandon_setup_invalidated == a.abandon_gap_stop
                    + a.abandon_tp_open + a.abandon_tp_range + a.abandon_age
                    + a.abandon_target_consumed + a.abandon_setup_invalidated + 1
                &&& v->Abandon_0 == HybridAbandon::GapStop <==> z.abandon_gap_stop
                    == a.abandon_gap_stop + 1
                &&& v->Abandon_0 == HybridAbandon::Age <==> z.abandon_age == a.abandon_age + 1
                &&& v->Abandon_0 == HybridAbandon::TpOpen <==> z.abandon_tp_open
                    == a.abandon_tp_open + 1
                &&& v->Abandon_0 == HybridAbandon::TpRange <==> z.abandon_tp_range
                    == a.abandon_tp_range + 1
            }
            &&& v is Wait ==> after.trades == b.trades && after.pending.len() == b.pending.len() + 1
                && z == a && after.pending.last().trade == p.trade && after.intervals == b.intervals
            &&& !(v is Wait) && rests ==> after.intervals == b.intervals.push(
                (b.ids.placed[id], c.timestamp),
            )
        }),
{
}

// ─── The walk ───────────────────────────────────────────────────────────────

/// A fill joins the walk at its own print and no other: the position is live
/// from there at the fill's price and the print's time, quoted as entered at
/// the entry for a maker and at the boundary for a taker, and stands in the
/// ledger; its order rests no longer.
pub proof fn law_a_fill_joins_the_walk_at_its_print(w: Walk, f: TickFill, ti: int, tick: Tick)
    ensures
        ({
            let after = fill_at_tick(w, f, ti, tick);
            let lv = after.live.last();
            let id = f.trade.opportunity_id@;
            &&& f.tick != ti ==> after == w
            &&& f.tick == ti ==> {
                &&& after.live.len() == w.live.len() + 1 && after.live.drop_last() == w.live
                &&& lv.trade.fill == f.px && lv.trade.filled_at == Some(tick.timestamp)
                    && lv.trade.opportunity_id == f.trade.opportunity_id && lv.trade.stop
                    == f.trade.stop && lv.trade.tp == f.trade.tp
                &&& lv.filled_at_tick == Some(f.tick)
                &&& f.side == EntryFeeSide::Maker ==> lv.slot == QuoteSlot::AtEntry(f.order)
                &&& f.side == EntryFeeSide::Taker ==> lv.slot == QuoteSlot::AtBoundary(f.order)
                &&& after.book.trades == w.book.trades.push(lv.trade)
                &&& after.book.ids.sides[id] == f.side && !after.book.ids.placed.contains_key(id)
                &&& after.closes == w.closes && after.resolved == w.resolved
                &&& w.book.ids.placed.contains_key(id) ==> after.book.intervals
                    == w.book.intervals.push((w.book.ids.placed[id], tick.timestamp))
            }
        }),
{
    let after = fill_at_tick(w, f, ti, tick);
    if f.tick == ti {
        assert(after.live.drop_last() =~= w.live);
    }
}

/// Prints are walked in time: at each its fills join first, then every live
/// position races, in order.
pub proof fn law_prints_are_walked_in_turn(
    k: Knobs,
    w: Walk,
    fills: Seq<TickFill>,
    quotes: BarQuotes,
    c: Candle,
    ticks: Seq<Tick>,
    n: nat,
)
    requires
        n < ticks.len(),
    ensures
        ({
            let before = walked(k, w, fills, quotes, c, ticks, n);
            let joined = fills_at_tick(before, fills, n as int, ticks[n as int], fills.len());
            walked(k, w, fills, quotes, c, ticks, n + 1) == all_raced_at(
                k,
                joined,
                quotes,
                c,
                n as int,
                ticks[n as int],
                joined.live.len(),
            )
        }),
        walked(k, w, fills, quotes, c, ticks, 0) == w,
{
}

/// What is open after a walk is what lived through it, in order: neither
/// resolved by a print nor timed out.
pub proof fn law_survivors_are_neither_resolved_nor_timed_out(
    live: Seq<Live>,
    resolved: Map<Seq<char>, ()>,
    timed_out: Map<Seq<char>, ()>,
    n: nat,
)
    requires
        n <= live.len(),
    ensures
        survivors(live, resolved, timed_out, n) == live.take(n as int).filter(
            |l: Live|
                !resolved.contains_key(l.trade.opportunity_id@) && !timed_out.contains_key(
                    l.trade.opportunity_id@,
                ),
        ).map_values(|l: Live| l.trade),
    decreases n,
{
    reveal(Seq::filter);
    let p = |l: Live|
        !resolved.contains_key(l.trade.opportunity_id@) && !timed_out.contains_key(
            l.trade.opportunity_id@,
        );
    let f = |l: Live| l.trade;
    let now = live.take(n as int);
    if n > 0 {
        law_survivors_are_neither_resolved_nor_timed_out(
            live,
            resolved,
            timed_out,
            (n - 1) as nat,
        );
        assert(now.drop_last() =~= live.take(n - 1));
        assert(now.last() == live[n - 1]);
        let rest = live.take(n - 1).filter(p);
        assert(rest.push(live[n - 1]).map_values(f) =~= rest.map_values(f).push(f(live[n - 1])));
    } else {
        assert(now.filter(p).map_values(f) =~= Seq::<PaperTrade>::empty());
    }
}

/// A position that times out before the prints does not walk; the others do,
/// each under its own quote.
pub proof fn law_timed_out_positions_do_not_walk(
    opens: Seq<PaperTrade>,
    timed_out: Map<Seq<char>, ()>,
    n: nat,
)
    requires
        n < opens.len() <= usize::MAX,
    ensures
        ({
            let (was, now) = (
                still_live(opens, timed_out, n),
                still_live(opens, timed_out, n + 1),
            );
            let t = opens[n as int];
            &&& timed_out.contains_key(t.opportunity_id@) ==> now == was
            &&& !timed_out.contains_key(t.opportunity_id@) ==> now.len() == was.len() + 1
                && now.drop_last() == was && now.last().trade == t && now.last().filled_at_tick
                is None && now.last().slot == QuoteSlot::Open(n as usize)
        }),
{
    let (was, now) = (still_live(opens, timed_out, n), still_live(opens, timed_out, n + 1));
    if now.len() > was.len() {
        assert(now.drop_last() =~= was);
    }
}

// ─── A lone position ────────────────────────────────────────────────────────

/// A price lies strictly between a position's stop and its target.
pub open spec fn between(t: PaperTrade, price: crate::key::Num) -> bool {
    if t.direction == Direction::Bull {
        t.stop < price < t.tp
    } else {
        t.tp < price < t.stop
    }
}

/// A position alone on its asset, with risk, young enough to hold and managed
/// by nobody, is taken out by the first print that is not strictly between its
/// stop and its target: a loss at the stop's R or a win at the target's, at
/// that print's time. Where all prints are between them it stays open as it
/// was and nothing is closed.
pub proof fn law_a_lone_position_leaves_at_the_first_crossing(
    k: Knobs,
    chase: bool,
    b: Book,
    q: BarQuotes,
    c: Candle,
    ticks: Seq<Tick>,
    i: int,
)
    requires
        b.pending.len() == 0,
        b.open.len() == 1,
        b.open[0].asset == c.asset,
        q.trades@.len() == 1,
        q.trades@[0].has_risk,
        k.breakeven_r <= 0,
        k.derisk_after_min == 0,
        !k.exit_gap_at_open,
        !b.ids.overrides.contains_key(b.open[0].opportunity_id@),
        !b.ids.clocks.contains_key(b.open[0].opportunity_id@),
        1 <= k.max_hold_candles,
        0 <= i <= ticks.len(),
        forall|j: int| 0 <= j < i ==> between(b.open[0], (#[trigger] ticks[j]).price),
        i < ticks.len() ==> !between(b.open[0], ticks[i].price),
    ensures
        ({
            let t = b.open[0];
            let w = bar_walk(k, chase, b, q, c, ticks);
            let after = prints_applied(k, chase, b, q, c, ticks);
            let stopped = if t.direction == Direction::Bull {
                ticks[i].price <= t.stop
            } else {
                ticks[i].price >= t.stop
            };
            let x = w.closes[0];
            &&& i == ticks.len() ==> w.closes.len() == 0 && after.open == seq![t]
            &&& i < ticks.len() ==> w.closes.len() == 1 && after.open.len() == 0 && x.id
                == t.opportunity_id && x.at == ticks[i].timestamp
            &&& i < ticks.len() && stopped ==> x.result == TradeResult::Loss && x.is_stop_exit
                && x.r_pnl == q.trades@[0].stop_r
            &&& i < ticks.len() && !stopped ==> x.result == TradeResult::Win && !x.is_stop_exit
                && x.r_pnl == q.trades@[0].win_r
        }),
{
    let t = b.open[0];
    let f = bar_fills(k, chase, b, q, c, ticks);
    let s = bar_clocks(k, chase, b, q, c, ticks);
    reveal_with_fuel(tick_orders, 1);
    reveal_with_fuel(all_clocked, 2);
    assert(f.fills.len() == 0);
    assert(f.book.ids == b.ids);
    assert(s.closes =~= Seq::empty());
    assert(!s.timed_out.contains_key(t.opportunity_id@));
    reveal_with_fuel(still_live, 2);
    let live = still_live(b.open, s.timed_out, b.open.len());
    let lv = Live { trade: t, filled_at_tick: None, slot: QuoteSlot::Open(0) };
    assert(live =~= seq![lv]);
    let start = Walk {
        book: Book { ids: s.ids, ..f.book },
        live,
        resolved: Map::empty(),
        closes: s.closes,
    };
    lemma_lone_walk(k, start, f.fills, q, c, ticks, lv, i, ticks.len());
    let w1 = walked(k, start, f.fills, q, c, ticks, ticks.len());
    reveal_with_fuel(all_derisked, 2);
    let w = bar_walk(k, chase, b, q, c, ticks);
    assert(w == w1);
    reveal_with_fuel(survivors, 2);
    let after = prints_applied(k, chase, b, q, c, ticks);
    if i == ticks.len() {
        assert(after.open =~= seq![t]);
    }
}

proof fn lemma_lone_walk(
    k: Knobs,
    w: Walk,
    fills: Seq<TickFill>,
    q: BarQuotes,
    c: Candle,
    ticks: Seq<Tick>,
    lv: Live,
    i: int,
    n: nat,
)
    requires
        fills.len() == 0,
        w.live == seq![lv],
        w.closes.len() == 0,
        !w.resolved.contains_key(lv.trade.opportunity_id@),
        lv.trade.asset == c.asset,
        lv.filled_at_tick is None,
        lv.slot == QuoteSlot::Open(0),
        q.trades@[0].has_risk,
        k.breakeven_r <= 0,
        !k.exit_gap_at_open,
        !w.book.ids.overrides.contains_key(lv.trade.opportunity_id@),
        0 <= i <= ticks.len(),
        n <= ticks.len(),
        forall|j: int| 0 <= j < i ==> between(lv.trade, (#[trigger] ticks[j]).price),
        i < ticks.len() ==> !between(lv.trade, ticks[i].price),
    ensures
        ({
            let t = lv.trade;
            let after = walked(k, w, fills, q, c, ticks, n);
            let stopped = if t.direction == Direction::Bull {
                ticks[i].price <= t.stop
            } else {
                ticks[i].price >= t.stop
            };
            let x = after.closes[0];
            &&& after.live == w.live
            &&& !after.book.ids.overrides.contains_key(t.opportunity_id@)
            &&& n <= i ==> after.closes.len() == 0 && !after.resolved.contains_key(
                t.opportunity_id@,
            )
            &&& n > i ==> after.closes.len() == 1 && after.resolved.contains_key(t.opportunity_id@)
                && x.id == t.opportunity_id && x.at == ticks[i].timestamp
            &&& n > i && stopped ==> x.result == TradeResult::Loss && x.is_stop_exit && x.r_pnl
                == q.trades@[0].stop_r
            &&& n > i && !stopped ==> x.result == TradeResult::Win && !x.is_stop_exit && x.r_pnl
                == q.trades@[0].win_r
        }),
    decreases n,
{
    if n > 0 {
        lemma_lone_walk(k, w, fills, q, c, ticks, lv, i, (n - 1) as nat);
        let before = walked(k, w, fills, q, c, ticks, (n - 1) as nat);
        let after = walked(k, w, fills, q, c, ticks, n);
        assert(fills_at_tick(before, fills, n - 1, ticks[n - 1], fills.len()) == before);
        reveal_with_fuel(all_raced_at, 2);
        assert(before.live[0] == lv);
        assert(after == raced_at(k, before, lv, q.trades@[0], c, n - 1, ticks[n - 1]));
        crate::paper::exit_laws::law_the_stop_in_force_races(
            k,
            after.book.ids,
            lv.trade,
            q.trades@[0],
        );
        if n - 1 < i {
            assert(between(lv.trade, ticks[n - 1].price));
        }
    }
}

/// An order meets a bar's prints: of another asset it rests on; past its
/// deadline it rests no longer and is no trade; on its signal bar it waits;
/// else it fills at the print that fills it, or rests on as seen.
pub proof fn law_an_order_meets_the_prints_of_its_bar(
    k: Knobs,
    chase: bool,
    s: Fills,
    p: PendingFill,
    q: OrderQuote,
    c: Candle,
    ticks: Seq<Tick>,
    order: int,
)
    ensures
        ({
            let after = tick_order(k, chase, s, p, q, c, ticks, order);
            let fill = tick_fill_of(k, chase, p, q, ticks, order);
            let id = p.trade.opportunity_id@;
            let (was, now) = (s.book.pending, after.book.pending);
            let other = p.trade.asset != c.asset;
            let late = !other && c.timestamp > p.deadline;
            let first = !other && !late && !p.seen_first_candle && !k.allow_signal_bar_fill;
            let open = !other && !late && !first;
            &&& other || late || first ==> after.fills == s.fills
            &&& other ==> now == was.push(p)
            &&& late ==> now == was && !after.book.ids.placed.contains_key(id)
            &&& first ==> now.len() == was.len() + 1 && now.last().trade == p.trade
                && now.last().seen_first_candle
            &&& open && fill is Some ==> after.fills == s.fills.push(fill->0) && now == was
            &&& open && fill is None ==> after.fills == s.fills && now.len() == was.len() + 1
                && now.last().trade == p.trade && now.last().seen_first_candle
                && now.last().deadline == p.deadline
            &&& after.book.trades == s.book.trades && after.book.open == s.book.open
            &&& ({
                let (a, z) = (s.book.counters, after.book.counters);
                let chased = chase && p.hybrid_armed == Some(true) && 0 < k.chase_r;
                let counted = open && fill is Some && chased;
                let maker = counted && fill->0.side == EntryFeeSide::Maker;
                let taker = counted && fill->0.side == EntryFeeSide::Taker;
                &&& a.maker_fills < usize::MAX && a.boundary_chases_from_below < usize::MAX ==> {
                    &&& maker ==> z.maker_fills == a.maker_fills + 1
                    &&& !maker ==> z.maker_fills == a.maker_fills
                    &&& taker ==> z.boundary_chases_from_below == a.boundary_chases_from_below + 1
                    &&& !taker ==> z.boundary_chases_from_below == a.boundary_chases_from_below
                }
                &&& z.immediate_chases == a.immediate_chases && z.past_entry_fills
                    == a.past_entry_fills && z.deferred_chases == a.deferred_chases
            })
        }),
{
}

/// A position open before the bar is quoted as itself, one that filled at its
/// order's entry as entered there, and one that was chased as entered at the
/// boundary.
pub proof fn law_a_position_is_quoted_by_its_entry(q: BarQuotes, i: usize)
    ensures
        slot_quote(q, QuoteSlot::Open(i)) == q.trades@[i as int],
        slot_quote(q, QuoteSlot::AtEntry(i)) == q.orders@[i as int].at_entry,
        slot_quote(q, QuoteSlot::AtBoundary(i)) == q.orders@[i as int].at_boundary,
{
}

/// A bar that opens through the stop or the target of a position, where such
/// gaps are booked at the open, shows it no more than its open: the best R is
/// the greater of the open's and what was seen before, whatever the range.
pub proof fn law_a_gapped_bar_shows_its_open(
    k: Knobs,
    ids: IdMaps,
    t: PaperTrade,
    q: TradeQuote,
    c: Candle,
)
    requires
        k.exit_gap_at_open,
        q.has_risk,
        k.breakeven_r <= 0,
        !ids.overrides.contains_key(t.opportunity_id@),
        !ids.clocks.contains_key(t.opportunity_id@),
        ids.marks.contains_key(t.opportunity_id@),
        1 <= k.max_hold_candles,
        !between(t, c.open),
    ensures
        ({
            let id = t.opportunity_id@;
            let (after, exit) = bar_of_trade(k, ids, t, q, c);
            let (was, now) = (ids.marks[id], after.marks[id]);
            &&& exit is Some && exit->0.r_pnl == q.open_r
            &&& now >= was && now >= q.open_r && (now == was || now == q.open_r)
            &&& after.clocks[id].candles_held == 1
        }),
{
}

} // verus!
