//! What holds of every candle.
use vstd::prelude::*;
use crate::fees::EntryFeeSide;
use crate::hold::{hold_verdict, HoldClock, HoldTick};
use crate::key::Num;
use crate::models::{Candle, Direction, PaperTrade, Tick, TradeResult};
use crate::paper::book::{
    all_closed, asset_count, first_of, last_of, remember, undecided, Book, Close, IdMaps, Knobs,
    PendingFill, RECENT_CAP,
};
use crate::paper::counters::{
    abandons_counted, count_abandon, count_fill, counters_room, fills_counted,
    law_each_event_counts_once,
};
use crate::paper::fill::{best_of, down_to, touches};
use crate::paper::pending::{
    hybrid_step, limit_step, order_step, orders_stepped, pending_stepped, rested,
};
use crate::paper::quote::{BarQuotes, OrderQuote, TradeQuote};
use crate::paper::race::{
    all_raced, bar_of_trade, candle_applied, close_for, derisk_exit, excursion_noted, filled_by,
    held_after, race_of, raced_book, racing_stop, range_exit, seen_at, stop_exit, target_exit,
    timeout_exit, trails, Exit,
};
use crate::paper::walk::{
    all_clocked, all_derisked, all_raced_at, bar_clocks, bar_fills, bar_walk, fills_at_tick,
    first_down, first_up, held_of, may_chase, print_exit, prints_applied, raced_at, slot_quote,
    still_live, survivors, tick_fill_of, tick_order, tick_orders, walked, Fills, Live, TickFill,
    Walk,
};

verus! {

// ─── The tape is only read ──────────────────────────────────────────────────

proof fn lemma_undecided_bounds(trades: Seq<PaperTrade>, id: Seq<char>, from: int)
    requires
        0 <= from <= trades.len(),
    ensures
        from <= undecided(trades, id, from) <= trades.len(),
    decreases trades.len() - from,
{
    if from < trades.len() && !(trades[from].opportunity_id@ == id && trades[from].result
        == TradeResult::Inconclusive) {
        lemma_undecided_bounds(trades, id, from + 1);
    }
}

proof fn lemma_closes_keep(b: Book, closes: Seq<Close>, n: nat)
    ensures
        all_closed(b, closes, n).tape == b.tape,
        all_closed(b, closes, n).open == b.open,
        all_closed(b, closes, n).pending == b.pending,
        all_closed(b, closes, n).trades.len() == b.trades.len(),
        all_closed(b, closes, n).taken == b.taken,
        all_closed(b, closes, n).recent == b.recent,
        all_closed(b, closes, n).intervals == b.intervals,
        all_closed(b, closes, n).counters == b.counters,
        all_closed(b, closes, n).seen == b.seen,
        all_closed(b, closes, n).skips == b.skips,
        all_closed(b, closes, n).gaps == b.gaps,
    decreases n,
{
    if n > 0 {
        lemma_closes_keep(b, closes, (n - 1) as nat);
        lemma_undecided_bounds(
            all_closed(b, closes, (n - 1) as nat).trades,
            closes[n - 1].id@,
            0,
        );
    }
}

/// Two books agree on all that neither orders nor positions change: the
/// candles, the offers seen and skipped, the gaps and the tape; and on what was
/// taken beyond the ledger.
pub open spec fn same_record(a: Book, b: Book) -> bool {
    &&& a.tape == b.tape && a.recent == b.recent && a.seen == b.seen && a.skips == b.skips
    &&& a.gaps == b.gaps && a.taken - a.trades.len() == b.taken - b.trades.len()
}

proof fn lemma_orders_keep_tape(
    k: Knobs,
    b: Book,
    orders: Seq<PendingFill>,
    quotes: Seq<OrderQuote>,
    c: Candle,
    n: nat,
)
    ensures
        orders_stepped(k, b, orders, quotes, c, n).tape == b.tape,
        same_record(b, orders_stepped(k, b, orders, quotes, c, n)),
    decreases n,
{
    if n > 0 {
        lemma_orders_keep_tape(k, b, orders, quotes, c, (n - 1) as nat);
    }
}

pub(crate) proof fn lemma_candle_keeps_tape(k: Knobs, b: Book, q: BarQuotes, c: Candle)
    ensures
        candle_applied(k, b, q, c).tape == b.tape,
        same_record(
            Book { recent: remember(b.recent, c), ..b },
            candle_applied(k, b, q, c),
        ),
{
    let b1 = Book { recent: remember(b.recent, c), open: Seq::empty(), ..b };
    lemma_orders_keep_tape(k, b1, b.pending, q.orders@, c, b.pending.len());
    let race = race_of(k, b, q, c);
    lemma_closes_keep(raced_book(k, b, q, c), race.closes, race.closes.len());
}

proof fn lemma_tick_orders_keep_tape(
    k: Knobs,
    chase: bool,
    b: Book,
    orders: Seq<PendingFill>,
    quotes: Seq<OrderQuote>,
    c: Candle,
    ticks: Seq<Tick>,
    n: nat,
)
    ensures
        tick_orders(k, chase, b, orders, quotes, c, ticks, n).book.tape == b.tape,
        same_record(b, tick_orders(k, chase, b, orders, quotes, c, ticks, n).book),
    decreases n,
{
    if n > 0 {
        lemma_tick_orders_keep_tape(k, chase, b, orders, quotes, c, ticks, (n - 1) as nat);
    }
}

proof fn lemma_fills_keep_tape(w: Walk, fills: Seq<TickFill>, ti: int, tick: Tick, n: nat)
    ensures
        fills_at_tick(w, fills, ti, tick, n).book.tape == w.book.tape,
        same_record(w.book, fills_at_tick(w, fills, ti, tick, n).book),
    decreases n,
{
    if n > 0 {
        lemma_fills_keep_tape(w, fills, ti, tick, (n - 1) as nat);
    }
}

proof fn lemma_races_keep_tape(
    k: Knobs,
    w: Walk,
    q: BarQuotes,
    c: Candle,
    ti: int,
    tick: Tick,
    n: nat,
)
    ensures
        all_raced_at(k, w, q, c, ti, tick, n).book.tape == w.book.tape,
        same_record(w.book, all_raced_at(k, w, q, c, ti, tick, n).book),
    decreases n,
{
    if n > 0 {
        lemma_races_keep_tape(k, w, q, c, ti, tick, (n - 1) as nat);
    }
}

proof fn lemma_walk_keeps_tape(
    k: Knobs,
    w: Walk,
    fills: Seq<TickFill>,
    q: BarQuotes,
    c: Candle,
    ticks: Seq<Tick>,
    n: nat,
)
    ensures
        walked(k, w, fills, q, c, ticks, n).book.tape == w.book.tape,
        same_record(w.book, walked(k, w, fills, q, c, ticks, n).book),
    decreases n,
{
    if n > 0 {
        lemma_walk_keeps_tape(k, w, fills, q, c, ticks, (n - 1) as nat);
        let before = walked(k, w, fills, q, c, ticks, (n - 1) as nat);
        lemma_fills_keep_tape(before, fills, n - 1, ticks[n - 1], fills.len());
        let w1 = fills_at_tick(before, fills, n - 1, ticks[n - 1], fills.len());
        lemma_races_keep_tape(k, w1, q, c, n - 1, ticks[n - 1], w1.live.len());
    }
}

proof fn lemma_derisk_keeps_tape(
    k: Knobs,
    w: Walk,
    timed_out: Map<Seq<char>, ()>,
    q: BarQuotes,
    c: Candle,
    n: nat,
)
    ensures
        all_derisked(k, w, timed_out, q, c, n).book.tape == w.book.tape,
        same_record(w.book, all_derisked(k, w, timed_out, q, c, n).book),
    decreases n,
{
    if n > 0 {
        lemma_derisk_keeps_tape(k, w, timed_out, q, c, (n - 1) as nat);
    }
}

pub(crate) proof fn lemma_prints_keep_tape(
    k: Knobs,
    chase: bool,
    b: Book,
    q: BarQuotes,
    c: Candle,
    ticks: Seq<Tick>,
)
    ensures
        prints_applied(k, chase, b, q, c, ticks).tape == b.tape,
        same_record(
            Book { recent: remember(b.recent, c), ..b },
            prints_applied(k, chase, b, q, c, ticks),
        ),
{
    let b1 = Book { recent: remember(b.recent, c), open: Seq::empty(), ..b };
    lemma_tick_orders_keep_tape(k, chase, b1, b.pending, q.orders@, c, ticks, b.pending.len());
    let f = bar_fills(k, chase, b, q, c, ticks);
    let s = bar_clocks(k, chase, b, q, c, ticks);
    let start = Walk {
        book: Book { ids: s.ids, ..f.book },
        live: still_live(b.open, s.timed_out, b.open.len()),
        resolved: Map::empty(),
        closes: s.closes,
    };
    lemma_walk_keeps_tape(k, start, f.fills, q, c, ticks, ticks.len());
    let w = walked(k, start, f.fills, q, c, ticks, ticks.len());
    lemma_derisk_keeps_tape(k, w, s.timed_out, q, c, w.live.len());
    let done = bar_walk(k, chase, b, q, c, ticks);
    lemma_closes_keep(done.book, done.closes, done.closes.len());
}

/// A bar is remembered among its asset's candles whether it is walked by its
/// prints or by its range; it sees and skips no offer, and every position it
/// fills is one more taken.
pub proof fn law_a_bar_remembers_its_candle(
    k: Knobs,
    chase: bool,
    b: Book,
    q: BarQuotes,
    c: Candle,
    ticks: Seq<Tick>,
)
    requires
        b.taken == b.trades.len(),
    ensures
        ({
            let after = candle_applied(k, b, q, c);
            &&& after.recent == remember(b.recent, c) && after.seen == b.seen && after.skips
                == b.skips && after.gaps == b.gaps && after.tape == b.tape
            &&& after.taken == after.trades.len()
        }),
        ({
            let after = prints_applied(k, chase, b, q, c, ticks);
            &&& after.recent == remember(b.recent, c) && after.seen == b.seen && after.skips
                == b.skips && after.gaps == b.gaps && after.tape == b.tape
            &&& after.taken == after.trades.len()
        }),
{
    lemma_candle_keeps_tape(k, b, q, c);
    lemma_prints_keep_tape(k, chase, b, q, c, ticks);
}

// ─── Orders ─────────────────────────────────────────────────────────────────

/// The limit model never fills an order on its signal bar unless told to.
pub proof fn law_limit_spares_the_signal_bar(
    k: Knobs,
    b: Book,
    p: PendingFill,
    q: OrderQuote,
    c: Candle,
)
    requires
        !p.seen_first_candle,
        !k.allow_signal_bar_fill,
    ensures
        limit_step(k, b, p, q, c).trades == b.trades,
        limit_step(k, b, p, q, c).open == b.open,
{
}

/// Past its deadline an order leaves the book without a trade, whatever the bar
/// does.
pub proof fn law_an_expired_order_never_trades(
    k: Knobs,
    b: Book,
    p: PendingFill,
    q: OrderQuote,
    c: Candle,
)
    requires
        p.trade.asset == c.asset,
        c.timestamp > p.deadline,
    ensures
        limit_step(k, b, p, q, c).trades == b.trades,
        limit_step(k, b, p, q, c).open == b.open,
        limit_step(k, b, p, q, c).pending == b.pending,
{
}

/// With prints, too, no order fills on its signal bar unless told to, and none
/// past its deadline.
pub proof fn law_prints_spare_the_signal_bar(
    k: Knobs,
    chase: bool,
    s: Fills,
    p: PendingFill,
    q: OrderQuote,
    c: Candle,
    ticks: Seq<Tick>,
    order: int,
)
    requires
        (!p.seen_first_candle && !k.allow_signal_bar_fill) || c.timestamp > p.deadline,
    ensures
        tick_order(k, chase, s, p, q, c, ticks, order).fills == s.fills,
{
}

/// A print that fills an order reached its entry, or the cap of a chase, and
/// no earlier print had reached the entry.
pub proof fn law_prints_fill_at_the_first_touch(
    k: Knobs,
    chase: bool,
    p: PendingFill,
    q: OrderQuote,
    ticks: Seq<Tick>,
    order: int,
)
    requires
        ticks.len() <= usize::MAX,
        tick_fill_of(k, chase, p, q, ticks, order) is Some,
    ensures
        ({
            let f = tick_fill_of(k, chase, p, q, ticks, order)->0;
            let d = p.trade.direction;
            &&& f.tick < ticks.len()
            &&& forall|i: int|
                0 <= i < f.tick ==> !down_to(d, (#[trigger] ticks[i]).price, p.trade.entry)
            &&& f.side == EntryFeeSide::Maker ==> f.px == p.trade.entry && down_to(
                d,
                ticks[f.tick as int].price,
                p.trade.entry,
            )
            &&& f.side == EntryFeeSide::Taker ==> f.px == q.boundary && may_chase(k, chase, p)
                && down_to(d, q.boundary, ticks[f.tick as int].price)
        }),
{
    lemma_first_down(ticks, p.trade.direction, p.trade.entry, 0);
    lemma_first_up(ticks, p.trade.direction, q.boundary, 0);
}

proof fn lemma_first_down(ticks: Seq<Tick>, dir: Direction, level: Num, from: int)
    requires
        0 <= from <= ticks.len(),
    ensures
        from <= first_down(ticks, dir, level, from) <= ticks.len(),
        first_down(ticks, dir, level, from) < ticks.len() ==> down_to(
            dir,
            ticks[first_down(ticks, dir, level, from)].price,
            level,
        ),
        forall|i: int|
            from <= i < first_down(ticks, dir, level, from) ==> !down_to(
                dir,
                (#[trigger] ticks[i]).price,
                level,
            ),
    decreases ticks.len() - from,
{
    if from < ticks.len() && !down_to(dir, ticks[from].price, level) {
        lemma_first_down(ticks, dir, level, from + 1);
    }
}

proof fn lemma_first_up(ticks: Seq<Tick>, dir: Direction, level: Num, from: int)
    requires
        0 <= from <= ticks.len(),
    ensures
        from <= first_up(ticks, dir, level, from) <= ticks.len(),
        first_up(ticks, dir, level, from) < ticks.len() ==> down_to(
            dir,
            level,
            ticks[first_up(ticks, dir, level, from)].price,
        ),
    decreases ticks.len() - from,
{
    if from < ticks.len() && !down_to(dir, level, ticks[from].price) {
        lemma_first_up(ticks, dir, level, from + 1);
    }
}

/// The print that fills a trade does not race it, and a trade that a print
/// resolved is not looked at again: the first crossing decides.
pub proof fn law_the_first_crossing_decides(
    k: Knobs,
    w: Walk,
    lv: Live,
    q: TradeQuote,
    c: Candle,
    ti: int,
    tick: Tick,
)
    requires
        (lv.filled_at_tick matches Some(at) && ti <= at) || w.resolved.contains_key(
            lv.trade.opportunity_id@,
        ),
    ensures
        raced_at(k, w, lv, q, c, ti, tick) == w,
{
}

/// The hybrid model fills an order on its signal bar only where it rested
/// long enough before it, whatever the limit model's knobs say.
pub proof fn law_hybrid_spares_the_signal_bar(
    k: Knobs,
    b: Book,
    p: PendingFill,
    q: OrderQuote,
    c: Candle,
)
    requires
        !p.seen_first_candle,
        !k.rest_on_ready_fill || !rested(k, p),
    ensures
        hybrid_step(k, b, p, q, c).trades == b.trades,
        hybrid_step(k, b, p, q, c).open == b.open,
{
}

/// An order at rest that its signal bar touches fills as a maker at exactly
/// its entry.
pub proof fn law_a_rested_order_fills_at_its_entry(
    k: Knobs,
    b: Book,
    p: PendingFill,
    q: OrderQuote,
    c: Candle,
)
    requires
        p.trade.asset == c.asset,
        p.cancel_pending is None,
        !p.seen_first_candle,
        k.rest_on_ready_fill,
        rested(k, p),
        touches(p.trade.direction, c, p.trade.entry),
    ensures
        hybrid_step(k, b, p, q, c).trades == b.trades.push(
            PaperTrade { fill: p.trade.entry, filled_at: Some(c.timestamp), ..p.trade },
        ),
        hybrid_step(k, b, p, q, c).ids.sides[p.trade.opportunity_id@] == EntryFeeSide::Maker,
{
}

/// A cancel confirmed by an earlier bar comes before the fill attempt: the
/// order leaves without a trade, whatever the bar does.
pub proof fn law_a_confirmed_cancel_wins(
    k: Knobs,
    b: Book,
    p: PendingFill,
    q: OrderQuote,
    c: Candle,
)
    requires
        p.trade.asset == c.asset,
        p.cancel_pending is Some,
    ensures
        hybrid_step(k, b, p, q, c).trades == b.trades,
        hybrid_step(k, b, p, q, c).pending == b.pending,
        hybrid_step(k, b, p, q, c).counters == count_abandon(b.counters, p.cancel_pending->0),
{
}

/// The knobs of the limit model do not matter to the hybrid model.
pub proof fn law_hybrid_ignores_limit_knobs(
    k: Knobs,
    b: Book,
    p: PendingFill,
    q: OrderQuote,
    c: Candle,
    allow: bool,
    slippage: Num,
    slipped: Num,
)
    ensures
        hybrid_step(
            Knobs { allow_signal_bar_fill: allow, entry_slippage_r: slippage, ..k },
            b,
            p,
            OrderQuote { slipped, ..q },
            c,
        ) == hybrid_step(k, b, p, q, c),
{
}

/// A candle leaves another asset's order as it is.
pub proof fn law_orders_of_other_assets_wait(
    k: Knobs,
    b: Book,
    p: PendingFill,
    q: OrderQuote,
    c: Candle,
)
    requires
        p.trade.asset != c.asset,
    ensures
        order_step(k, b, p, q, c) == (Book { pending: b.pending.push(p), ..b }),
{
}

/// Between two states of a book every resting order stayed, became a trade
/// under one fill count, or was dropped under one abandon count.
pub open spec fn each_order_counted(b: Book, r: Book) -> bool {
    let fills = fills_counted(r.counters) - fills_counted(b.counters);
    let abandons = abandons_counted(r.counters) - abandons_counted(b.counters);
    &&& r.trades.len() - b.trades.len() == fills
    &&& r.taken - b.taken == fills
    &&& r.pending.len() + fills + abandons == b.pending.len()
}

proof fn lemma_taken_follows_the_ledger(
    k: Knobs,
    b: Book,
    orders: Seq<PendingFill>,
    quotes: Seq<OrderQuote>,
    c: Candle,
    n: nat,
)
    ensures
        orders_stepped(k, b, orders, quotes, c, n).taken - b.taken == orders_stepped(
            k,
            b,
            orders,
            quotes,
            c,
            n,
        ).trades.len() - b.trades.len(),
    decreases n,
{
    if n > 0 {
        lemma_taken_follows_the_ledger(k, b, orders, quotes, c, (n - 1) as nat);
        let before = orders_stepped(k, b, orders, quotes, c, (n - 1) as nat);
        let after = order_step(k, before, orders[n - 1], quotes[n - 1], c);
        assert(after.taken - before.taken == after.trades.len() - before.trades.len());
    }
}

#[verifier::rlimit(40)]
proof fn lemma_hybrid_counts(
    k: Knobs,
    b: Book,
    orders: Seq<PendingFill>,
    quotes: Seq<OrderQuote>,
    c: Candle,
    n: nat,
    room: nat,
)
    requires
        k.hybrid_fill,
        n <= room,
        counters_room(b.counters, room as int),
    ensures
        ({
            let r = orders_stepped(k, b, orders, quotes, c, n);
            &&& counters_room(r.counters, room - n)
            &&& r.trades.len() - b.trades.len() == fills_counted(r.counters) - fills_counted(
                b.counters,
            )
            &&& n - r.pending.len() == (fills_counted(r.counters) - fills_counted(b.counters)) + (
            abandons_counted(r.counters) - abandons_counted(b.counters))
        }),
    decreases n,
{
    if n > 0 {
        lemma_hybrid_counts(k, b, orders, quotes, c, (n - 1) as nat, room);
        let before = orders_stepped(k, b, orders, quotes, c, (n - 1) as nat);
        assert(counters_room(before.counters, 1));
        assert forall|path: crate::paper::fill::HybridPath, reason: crate::paper::fill::HybridAbandon|
            fills_counted(#[trigger] count_fill(before.counters, path)) == fills_counted(before.counters) + 1
            && abandons_counted(count_fill(before.counters, path)) == abandons_counted(before.counters)
            && fills_counted(#[trigger] count_abandon(before.counters, reason)) == fills_counted(before.counters)
            && abandons_counted(count_abandon(before.counters, reason)) == abandons_counted(before.counters) + 1 by {
            law_each_event_counts_once(before.counters, path, reason);
        }
    }
}

/// Under the hybrid model every order that leaves the book is counted once:
/// each booked trade is one more opportunity taken and adds one to the fill
/// counts, each dropped order adds one to the abandon counts, and no other
/// count changes.
pub proof fn law_every_hybrid_order_is_counted_once(
    k: Knobs,
    b: Book,
    quotes: Seq<OrderQuote>,
    c: Candle,
)
    requires
        k.hybrid_fill,
        counters_room(b.counters, b.pending.len() as int),
    ensures
        ({
            let r = pending_stepped(k, b, quotes, c);
            each_order_counted(b, r)
        }),
{
    lemma_hybrid_counts(k, b, b.pending, quotes, c, b.pending.len(), b.pending.len());
    lemma_taken_follows_the_ledger(k, b, b.pending, quotes, c, b.pending.len());
}

/// A whole candle counts its orders the same way: the race that follows the
/// fills books no trade, takes no opportunity, and touches no order and none
/// of the two counts.
pub proof fn law_a_candle_counts_each_hybrid_order_once(k: Knobs, b: Book, q: BarQuotes, c: Candle)
    requires
        k.hybrid_fill,
        counters_room(b.counters, b.pending.len() as int),
    ensures
        each_order_counted(b, candle_applied(k, b, q, c)),
{
    let set_aside = Book { recent: remember(b.recent, c), open: Seq::empty(), ..b };
    law_every_hybrid_order_is_counted_once(k, set_aside, q.orders@, c);
    let race = race_of(k, b, q, c);
    lemma_closes_keep(raced_book(k, b, q, c), race.closes, race.closes.len());
}

// ─── The race ───────────────────────────────────────────────────────────────

/// A bar that spans stop and target is a loss when the stop is read first
/// (and not a trailing lock), and a win otherwise.
pub proof fn law_the_tie_break_decides(
    k: Knobs,
    ids: IdMaps,
    t: PaperTrade,
    q: TradeQuote,
    held: int,
    c: Candle,
)
    requires
        touches(t.direction, c, racing_stop(k, ids, t, q)),
        down_to(t.direction, t.tp, best_of(t.direction, c)),
    ensures
        k.intrabar_stop_first ==> range_exit(k, ids, t, q, held, c) == Some(
            stop_exit(k, ids, t, q),
        ),
        !k.intrabar_stop_first ==> range_exit(k, ids, t, q, held, c) == Some(target_exit(q)),
{
}

/// Where gapped exits are booked at the open, a bar that opens through the
/// stop takes the position out there at the R of its open, a loss unless the
/// stop was trailing; a bar that opens through the target only is a win at the
/// R of its open. A bar that opens between the two goes by its range, and so
/// does every bar where the choice is off or the trade has no risk.
pub proof fn law_gapped_exits_book_the_open(
    k: Knobs,
    ids: IdMaps,
    t: PaperTrade,
    q: TradeQuote,
    c: Candle,
)
    requires
        hold_verdict(held_after(ids.clocks, t.opportunity_id@), k.max_hold_candles as int)
            != HoldTick::Timeout,
    ensures
        ({
            let id = t.opportunity_id@;
            let held = held_after(ids.clocks, id);
            let ticked = IdMaps {
                clocks: ids.clocks.insert(id, HoldClock { candles_held: held as usize }),
                ..ids
            };
            let stop = racing_stop(k, ids, t, q);
            let through_stop = down_to(t.direction, c.open, stop);
            let through_target = down_to(t.direction, t.tp, c.open);
            let (after, exit) = bar_of_trade(k, ids, t, q, c);
            let applies = k.exit_gap_at_open && q.has_risk;
            &&& applies && through_stop && !trails(k, ids, t, q) ==> exit == Some(
                (Exit { result: TradeResult::Loss, r_pnl: q.open_r, is_stop_exit: true }),
            )
            &&& applies && through_stop && trails(k, ids, t, q) ==> exit == Some(
                (Exit {
                    result: TradeResult::Inconclusive,
                    r_pnl: q.open_r,
                    is_stop_exit: false,
                }),
            )
            &&& applies && !through_stop && through_target ==> exit == Some(
                (Exit { result: TradeResult::Win, r_pnl: q.open_r, is_stop_exit: false }),
            )
            &&& !applies || (!through_stop && !through_target) ==> exit == range_exit(
                k,
                seen_at(k, ticked, id, q, q.favorable@[0]),
                t,
                q,
                held,
                c,
            )
        }),
{
}

/// A stop that a strategy moved wins over the planned and the trailing stop,
/// and an exit at it is a genuine stop exit.
pub proof fn law_a_moved_stop_wins(k: Knobs, ids: IdMaps, t: PaperTrade, q: TradeQuote)
    requires
        ids.overrides.contains_key(t.opportunity_id@),
    ensures
        racing_stop(k, ids, t, q) == ids.overrides[t.opportunity_id@],
        stop_exit(k, ids, t, q).is_stop_exit,
        stop_exit(k, ids, t, q).result == TradeResult::Loss,
{
}

/// The candle that fills an order does not race it: what it filled stands at
/// the end of the open trades.
pub proof fn law_fill_candle_is_not_raced(k: Knobs, b: Book, q: BarQuotes, c: Candle)
    ensures
        ({
            let fresh = filled_by(k, b, q, c).open;
            let open = candle_applied(k, b, q, c).open;
            &&& open.len() >= fresh.len()
            &&& open.subrange(open.len() - fresh.len(), open.len() as int) == fresh
        }),
{
    let race = race_of(k, b, q, c);
    lemma_closes_keep(raced_book(k, b, q, c), race.closes, race.closes.len());
    let fresh = filled_by(k, b, q, c).open;
    let open = candle_applied(k, b, q, c).open;
    assert(open.subrange(open.len() - fresh.len(), open.len() as int) =~= fresh);
}

proof fn lemma_race_partitions(
    k: Knobs,
    ids: IdMaps,
    trades: Seq<PaperTrade>,
    quotes: Seq<TradeQuote>,
    c: Candle,
    n: nat,
)
    ensures
        ({
            let r = all_raced(k, ids, trades, quotes, c, n);
            r.kept.len() + r.closes.len() == n
        }),
    decreases n,
{
    if n > 0 {
        lemma_race_partitions(k, ids, trades, quotes, c, (n - 1) as nat);
    }
}

/// Every position that raced is either still open or closed, never both and
/// never lost.
pub proof fn law_the_race_partitions_the_book(k: Knobs, b: Book, q: BarQuotes, c: Candle)
    ensures
        race_of(k, b, q, c).kept.len() + race_of(k, b, q, c).closes.len() == b.open.len(),
        candle_applied(k, b, q, c).open.len() == race_of(k, b, q, c).kept.len() + filled_by(
            k,
            b,
            q,
            c,
        ).open.len(),
{
    lemma_race_partitions(k, filled_by(k, b, q, c).ids, b.open, q.trades@, c, b.open.len());
    let race = race_of(k, b, q, c);
    lemma_closes_keep(raced_book(k, b, q, c), race.closes, race.closes.len());
}

/// Some close is an id's.
pub open spec fn has_close(closes: Seq<Close>, id: Seq<char>) -> bool {
    exists|j: int| 0 <= j < closes.len() && (#[trigger] closes[j]).id@ == id
}

/// The closes are those of the ids that were resolved or timed out.
spec fn closes_match(
    closes: Seq<Close>,
    resolved: Map<Seq<char>, ()>,
    timed_out: Map<Seq<char>, ()>,
) -> bool {
    forall|id: Seq<char>| #[trigger]
        has_close(closes, id) <==> resolved.contains_key(id) || timed_out.contains_key(id)
}

proof fn lemma_close_pushed(closes: Seq<Close>, c: Close, id: Seq<char>)
    ensures
        has_close(closes.push(c), id) <==> has_close(closes, id) || c.id@ == id,
{
    let all = closes.push(c);
    if has_close(all, id) {
        let j = choose|j: int| 0 <= j < all.len() && (#[trigger] all[j]).id@ == id;
        if j < closes.len() {
            assert(closes[j].id@ == id);
        }
    }
    if has_close(closes, id) {
        let j = choose|j: int| 0 <= j < closes.len() && (#[trigger] closes[j]).id@ == id;
        assert(all[j].id@ == id);
    }
    if c.id@ == id {
        assert(all[closes.len() as int].id@ == id);
    }
}

/// A list begins with another.
spec fn begins(live: Seq<Live>, start: Seq<Live>) -> bool {
    start.len() <= live.len() && forall|i: int|
        0 <= i < start.len() ==> #[trigger] live[i] == start[i]
}

proof fn lemma_clocks_match(
    k: Knobs,
    ids: IdMaps,
    opens: Seq<PaperTrade>,
    quotes: Seq<TradeQuote>,
    c: Candle,
    n: nat,
)
    ensures
        closes_match(
            all_clocked(k, ids, opens, quotes, c, n).closes,
            Map::empty(),
            all_clocked(k, ids, opens, quotes, c, n).timed_out,
        ),
    decreases n,
{
    if n > 0 {
        lemma_clocks_match(k, ids, opens, quotes, c, (n - 1) as nat);
        let s = all_clocked(k, ids, opens, quotes, c, (n - 1) as nat);
        let t = opens[n - 1];
        let add = close_for(t, timeout_exit(quotes[n - 1]), c.timestamp);
        assert forall|id: Seq<char>| #[trigger]
            has_close(s.closes.push(add), id) <==> has_close(s.closes, id) || add.id@ == id by {
            lemma_close_pushed(s.closes, add, id);
        }
    }
}

proof fn lemma_fills_extend(w: Walk, fills: Seq<TickFill>, ti: int, tick: Tick, n: nat)
    ensures
        begins(fills_at_tick(w, fills, ti, tick, n).live, w.live),
        fills_at_tick(w, fills, ti, tick, n).closes == w.closes,
        fills_at_tick(w, fills, ti, tick, n).resolved == w.resolved,
    decreases n,
{
    if n > 0 {
        lemma_fills_extend(w, fills, ti, tick, (n - 1) as nat);
    }
}

proof fn lemma_prints_match(
    k: Knobs,
    w: Walk,
    timed_out: Map<Seq<char>, ()>,
    quotes: BarQuotes,
    c: Candle,
    ti: int,
    tick: Tick,
    n: nat,
)
    requires
        closes_match(w.closes, w.resolved, timed_out),
    ensures
        all_raced_at(k, w, quotes, c, ti, tick, n).live == w.live,
        closes_match(
            all_raced_at(k, w, quotes, c, ti, tick, n).closes,
            all_raced_at(k, w, quotes, c, ti, tick, n).resolved,
            timed_out,
        ),
    decreases n,
{
    if n > 0 {
        lemma_prints_match(k, w, timed_out, quotes, c, ti, tick, (n - 1) as nat);
        let before = all_raced_at(k, w, quotes, c, ti, tick, (n - 1) as nat);
        let lv = w.live[n - 1];
        let q = slot_quote(quotes, lv.slot);
        let ids = excursion_noted(k, before.book.ids, lv.trade.opportunity_id@, q.favorable@[ti]);
        if let Some(e) = print_exit(k, ids, lv.trade, q, tick.price, ti) {
            let add = close_for(lv.trade, e, tick.timestamp);
            assert forall|id: Seq<char>| #[trigger]
                has_close(before.closes.push(add), id) <==> has_close(before.closes, id) || add.id@
                    == id by {
                lemma_close_pushed(before.closes, add, id);
            }
        }
    }
}

proof fn lemma_walk_matches(
    k: Knobs,
    w: Walk,
    timed_out: Map<Seq<char>, ()>,
    fills: Seq<TickFill>,
    quotes: BarQuotes,
    c: Candle,
    ticks: Seq<Tick>,
    n: nat,
)
    requires
        closes_match(w.closes, w.resolved, timed_out),
    ensures
        begins(walked(k, w, fills, quotes, c, ticks, n).live, w.live),
        closes_match(
            walked(k, w, fills, quotes, c, ticks, n).closes,
            walked(k, w, fills, quotes, c, ticks, n).resolved,
            timed_out,
        ),
    decreases n,
{
    if n > 0 {
        lemma_walk_matches(k, w, timed_out, fills, quotes, c, ticks, (n - 1) as nat);
        let before = walked(k, w, fills, quotes, c, ticks, (n - 1) as nat);
        lemma_fills_extend(before, fills, n - 1, ticks[n - 1], fills.len());
        let w1 = fills_at_tick(before, fills, n - 1, ticks[n - 1], fills.len());
        lemma_prints_match(k, w1, timed_out, quotes, c, n - 1, ticks[n - 1], w1.live.len());
        assert forall|i: int| 0 <= i < w.live.len() implies #[trigger] w1.live[i] == w.live[i] by {
            assert(w1.live[i] == before.live[i]);
        }
    }
}

proof fn lemma_derisk_matches(
    k: Knobs,
    w: Walk,
    timed_out: Map<Seq<char>, ()>,
    quotes: BarQuotes,
    c: Candle,
    n: nat,
)
    requires
        closes_match(w.closes, w.resolved, timed_out),
    ensures
        all_derisked(k, w, timed_out, quotes, c, n).live == w.live,
        closes_match(
            all_derisked(k, w, timed_out, quotes, c, n).closes,
            all_derisked(k, w, timed_out, quotes, c, n).resolved,
            timed_out,
        ),
    decreases n,
{
    if n > 0 {
        lemma_derisk_matches(k, w, timed_out, quotes, c, (n - 1) as nat);
        let before = all_derisked(k, w, timed_out, quotes, c, (n - 1) as nat);
        let lv = w.live[n - 1];
        let q = slot_quote(quotes, lv.slot);
        let held = held_of(before.book.ids.clocks, lv.trade.opportunity_id@);
        if let Some(e) = derisk_exit(k, q, held) {
            let add = close_for(lv.trade, e, c.timestamp);
            assert forall|id: Seq<char>| #[trigger]
                has_close(before.closes.push(add), id) <==> has_close(before.closes, id) || add.id@
                    == id by {
                lemma_close_pushed(before.closes, add, id);
            }
        }
    }
}

proof fn lemma_survivors(
    live: Seq<Live>,
    resolved: Map<Seq<char>, ()>,
    timed_out: Map<Seq<char>, ()>,
    n: nat,
    i: int,
)
    requires
        n <= live.len(),
    ensures
        ({
            let s = survivors(live, resolved, timed_out, n);
            &&& forall|j: int|
                0 <= j < s.len() ==> !resolved.contains_key((#[trigger] s[j]).opportunity_id@)
                    && !timed_out.contains_key(s[j].opportunity_id@)
            &&& 0 <= i < n && !resolved.contains_key(live[i].trade.opportunity_id@)
                && !timed_out.contains_key(live[i].trade.opportunity_id@) ==> s.contains(
                live[i].trade,
            )
        }),
    decreases n,
{
    if n > 0 {
        lemma_survivors(live, resolved, timed_out, (n - 1) as nat, i);
        let rest = survivors(live, resolved, timed_out, (n - 1) as nat);
        let s = survivors(live, resolved, timed_out, n);
        if 0 <= i < n - 1 && rest.contains(live[i].trade) {
            let j = choose|j: int| 0 <= j < rest.len() && rest[j] == live[i].trade;
            assert(s[j] == live[i].trade);
        }
        if i == n - 1 && s.len() > rest.len() {
            assert(s[rest.len() as int] == live[i].trade);
        }
    }
}

proof fn lemma_still_live(
    opens: Seq<PaperTrade>,
    timed_out: Map<Seq<char>, ()>,
    n: nat,
    i: int,
) -> (at: int)
    requires
        0 <= i < n <= opens.len(),
        !timed_out.contains_key(opens[i].opportunity_id@),
    ensures
        0 <= at < still_live(opens, timed_out, n).len(),
        still_live(opens, timed_out, n)[at].trade == opens[i],
    decreases n,
{
    let rest = still_live(opens, timed_out, (n - 1) as nat);
    if i == n - 1 {
        rest.len() as int
    } else {
        lemma_still_live(opens, timed_out, (n - 1) as nat, i)
    }
}

/// With prints, too, no position is lost: one that was open before the bar is
/// still open after it unless a close is its, and then it is open no more.
pub proof fn law_the_walk_loses_no_position(
    k: Knobs,
    chase: bool,
    b: Book,
    q: BarQuotes,
    c: Candle,
    ticks: Seq<Tick>,
    i: int,
)
    requires
        0 <= i < b.open.len(),
    ensures
        ({
            let id = b.open[i].opportunity_id@;
            let closes = bar_walk(k, chase, b, q, c, ticks).closes;
            let open = prints_applied(k, chase, b, q, c, ticks).open;
            &&& !has_close(closes, id) ==> open.contains(b.open[i])
            &&& has_close(closes, id) ==> forall|j: int|
                0 <= j < open.len() ==> (#[trigger] open[j]).opportunity_id@ != id
        }),
{
    let f = bar_fills(k, chase, b, q, c, ticks);
    let s = bar_clocks(k, chase, b, q, c, ticks);
    lemma_clocks_match(k, f.book.ids, b.open, q.trades@, c, b.open.len());
    let start = Walk {
        book: Book { ids: s.ids, ..f.book },
        live: still_live(b.open, s.timed_out, b.open.len()),
        resolved: Map::empty(),
        closes: s.closes,
    };
    lemma_walk_matches(k, start, s.timed_out, f.fills, q, c, ticks, ticks.len());
    let w = walked(k, start, f.fills, q, c, ticks, ticks.len());
    lemma_derisk_matches(k, w, s.timed_out, q, c, w.live.len());
    let done = bar_walk(k, chase, b, q, c, ticks);
    let id = b.open[i].opportunity_id@;
    lemma_survivors(done.live, done.resolved, s.timed_out, done.live.len(), 0);
    if !has_close(done.closes, id) {
        let at = lemma_still_live(b.open, s.timed_out, b.open.len(), i);
        assert(w.live[at] == start.live[at]);
        lemma_survivors(done.live, done.resolved, s.timed_out, done.live.len(), at);
    }
}

// ─── Recent candles ─────────────────────────────────────────────────────────

proof fn lemma_remove_counts(s: Seq<Candle>, i: int, asset: u16)
    requires
        0 <= i < s.len(),
    ensures
        asset_count(s, asset) == asset_count(s.remove(i), asset) + if s[i].asset == asset {
            1nat
        } else {
            0nat
        },
    decreases s.len(),
{
    let t = s.remove(i);
    if i == s.len() - 1 {
        assert(t =~= s.drop_last());
    } else {
        assert(t.len() > 0);
        assert(t.drop_last() =~= s.drop_last().remove(i));
        assert(t.last() == s.last());
        lemma_remove_counts(s.drop_last(), i, asset);
    }
}

proof fn lemma_first_found(s: Seq<Candle>, asset: u16, from: int, at: int)
    requires
        0 <= from <= at < s.len(),
        s[at].asset == asset,
    ensures
        from <= first_of(s, asset, from) <= at,
        s[first_of(s, asset, from)].asset == asset,
    decreases at - from,
{
    if s[from].asset != asset {
        lemma_first_found(s, asset, from + 1, at);
    }
}

/// The candles kept of an asset never exceed the cap, other assets' are
/// untouched, and the newest is the one just added.
pub proof fn law_recent_candles_are_bounded(s: Seq<Candle>, c: Candle, other: u16)
    requires
        asset_count(s, c.asset) <= RECENT_CAP,
        other != c.asset,
    ensures
        asset_count(remember(s, c), c.asset) <= RECENT_CAP,
        asset_count(remember(s, c), other) == asset_count(s, other),
        last_of(remember(s, c), c.asset) == Some(c),
{
    let t = s.push(c);
    assert(t.drop_last() =~= s);
    if asset_count(t, c.asset) > RECENT_CAP {
        lemma_first_found(t, c.asset, 0, t.len() - 1);
        let i = first_of(t, c.asset, 0);
        lemma_remove_counts(t, i, c.asset);
        lemma_remove_counts(t, i, other);
        if i == t.len() - 1 {
            lemma_no_earlier(t, c.asset, 0, i);
            lemma_none_before(s, c.asset);
        } else {
            assert(t.remove(i).last() == c);
        }
    }
}

proof fn lemma_no_earlier(s: Seq<Candle>, asset: u16, from: int, at: int)
    requires
        0 <= from <= at < s.len(),
        first_of(s, asset, from) == at,
    ensures
        forall|j: int| from <= j < at ==> (#[trigger] s[j]).asset != asset,
    decreases at - from,
{
    if from < at {
        lemma_no_earlier(s, asset, from + 1, at);
    }
}

proof fn lemma_none_before(s: Seq<Candle>, asset: u16)
    requires
        forall|j: int| 0 <= j < s.len() ==> (#[trigger] s[j]).asset != asset,
    ensures
        asset_count(s, asset) == 0,
    decreases s.len(),
{
    if s.len() > 0 {
        assert forall|j: int| 0 <= j < s.drop_last().len() implies (
        #[trigger] s.drop_last()[j]).asset != asset by {
            assert(s[j].asset != asset);
        }
        lemma_none_before(s.drop_last(), asset);
    }
}

} // verus!
