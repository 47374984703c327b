//! A candle resolved by its prints, in the order in which they traded.
use vstd::prelude::*;
use crate::clock::Stamp;
use crate::fees::EntryFeeSide;
use crate::hold::{hold_verdict, HoldClock, HoldTick};
use crate::key::Num;
use crate::models::{Candle, Direction, PaperTrade, Tick, TradeResult};
use crate::paper::book::{
    all_closed, all_tickets, filled, recorded_fill, remember, resting_ended, Book, Close,
    CloseTicket, IdMaps, Knobs, PaperTrader, PendingFill,
};
use crate::paper::counters::{count_fill, counters_room};
use crate::paper::fill::{down_to, is_down_to, HybridPath};
use crate::paper::pending::{kept, recounted};
use crate::paper::quote::{BarQuotes, OrderQuote, TradeQuote};
use crate::paper::race::{
    bar_room, booked_at, clocks_room, close_for, derisk_exit, excursion_noted, held_after, racing_stop,
    stop_exit, target_exit, timeout_exit, Exit,
};
use crate::strmap::StrMap;

verus! {

// ─── Orders ─────────────────────────────────────────────────────────────────

/// The first print at or after `from` that trades down to `level`.
pub open spec fn first_down(ticks: Seq<Tick>, dir: Direction, level: Num, from: int) -> int
    decreases ticks.len() - from,
{
    if from >= ticks.len() || down_to(dir, ticks[from].price, level) {
        from
    } else {
        first_down(ticks, dir, level, from + 1)
    }
}

/// The first print at or after `from` that trades up to `level`.
pub open spec fn first_up(ticks: Seq<Tick>, dir: Direction, level: Num, from: int) -> int
    decreases ticks.len() - from,
{
    if from >= ticks.len() || down_to(dir, level, ticks[from].price) {
        from
    } else {
        first_up(ticks, dir, level, from + 1)
    }
}

/// An order that fills at a print of this bar.
#[derive(Debug)]
pub struct TickFill {
    /// The order's template.
    pub trade: PaperTrade,
    /// Its place among the bar's orders.
    pub order: usize,
    /// The print that fills it.
    pub tick: usize,
    pub px: Num,
    pub side: EntryFeeSide,
}

/// Whether the order may be chased on this bar.
pub open spec fn may_chase(k: Knobs, chase: bool, p: PendingFill) -> bool {
    chase && p.hybrid_armed == Some(true) && k.chase_r > 0
}

/// Where an eligible order fills: at its entry, or, when it may be chased and
/// its cap is reached by an earlier print, at the cap.
pub open spec fn tick_fill_of(
    k: Knobs,
    chase: bool,
    p: PendingFill,
    q: OrderQuote,
    ticks: Seq<Tick>,
    order: int,
) -> Option<TickFill> {
    let t = p.trade;
    let maker = first_down(ticks, t.direction, t.entry, 0);
    let cap = first_up(ticks, t.direction, q.boundary, 0);
    if may_chase(k, chase, p) && cap < maker {
        Some(
            TickFill {
                trade: t,
                order: order as usize,
                tick: cap as usize,
                px: q.boundary,
                side: EntryFeeSide::Taker,
            },
        )
    } else if maker < ticks.len() {
        Some(
            TickFill {
                trade: t,
                order: order as usize,
                tick: maker as usize,
                px: t.entry,
                side: EntryFeeSide::Maker,
            },
        )
    } else {
        None
    }
}

/// The order after a signal bar that it cannot fill on: armed or not.
pub open spec fn tick_armed(k: Knobs, p: PendingFill, ticks: Seq<Tick>) -> PendingFill {
    let touched = first_down(ticks, p.trade.direction, p.trade.entry, 0) < ticks.len();
    PendingFill {
        seen_first_candle: true,
        hybrid_armed: match p.hybrid_armed {
            Some(a) => Some(a),
            None => Some(k.chase_requires_seed ==> touched || p.hybrid_pred_touch),
        },
        ..p
    }
}

/// The orders so far: the book they leave, and those that fill.
pub struct Fills {
    pub book: Book,
    pub fills: Seq<TickFill>,
}

/// One order.
pub open spec fn tick_order(
    k: Knobs,
    chase: bool,
    s: Fills,
    p: PendingFill,
    q: OrderQuote,
    c: Candle,
    ticks: Seq<Tick>,
    order: int,
) -> Fills {
    if p.trade.asset != c.asset {
        Fills { book: kept(s.book, p), ..s }
    } else if c.timestamp > p.deadline {
        Fills { book: resting_ended(s.book, p.trade.opportunity_id@, c.timestamp), ..s }
    } else if !p.seen_first_candle && !k.allow_signal_bar_fill {
        Fills { book: kept(s.book, tick_armed(k, p, ticks)), ..s }
    } else {
        match tick_fill_of(k, chase, p, q, ticks, order) {
            Some(f) => Fills {
                book: if may_chase(k, chase, p) {
                    recounted(
                        s.book,
                        count_fill(
                            s.book.counters,
                            match f.side {
                                EntryFeeSide::Taker => HybridPath::BoundaryFromBelow,
                                EntryFeeSide::Maker => HybridPath::Maker,
                            },
                        ),
                    )
                } else {
                    s.book
                },
                fills: s.fills.push(f),
            },
            None => Fills { book: kept(s.book, PendingFill { seen_first_candle: true, ..p }), ..s },
        }
    }
}

/// The first `n` orders.
pub open spec fn tick_orders(
    k: Knobs,
    chase: bool,
    b: Book,
    orders: Seq<PendingFill>,
    quotes: Seq<OrderQuote>,
    c: Candle,
    ticks: Seq<Tick>,
    n: nat,
) -> Fills
    decreases n,
{
    if n == 0 {
        Fills { book: Book { pending: Seq::empty(), ..b }, fills: Seq::empty() }
    } else {
        tick_order(
            k,
            chase,
            tick_orders(k, chase, b, orders, quotes, c, ticks, (n - 1) as nat),
            orders[n - 1],
            quotes[n - 1],
            c,
            ticks,
            n - 1,
        )
    }
}

// ─── The walk ───────────────────────────────────────────────────────────────

/// Which quote a live trade's numbers come from.
#[derive(Debug, Clone, Copy, PartialEq, Eq, Structural)]
pub enum QuoteSlot {
    Open(usize),
    AtEntry(usize),
    AtBoundary(usize),
}

/// The quote in a slot.
pub open spec fn slot_quote(q: BarQuotes, slot: QuoteSlot) -> TradeQuote {
    match slot {
        QuoteSlot::Open(i) => q.trades@[i as int],
        QuoteSlot::AtEntry(i) => q.orders@[i as int].at_entry,
        QuoteSlot::AtBoundary(i) => q.orders@[i as int].at_boundary,
    }
}

/// A trade in the walk.
#[derive(Debug)]
pub struct Live {
    pub trade: PaperTrade,
    /// The print it filled at; none when it was open before the bar.
    pub filled_at_tick: Option<usize>,
    pub slot: QuoteSlot,
}

/// The clocks so far: what is kept by id, the timeouts, and their ids.
pub struct Clocked {
    pub ids: IdMaps,
    pub closes: Seq<Close>,
    pub timed_out: Map<Seq<char>, ()>,
}

/// One open trade's clock: a position that outlived its hold limit leaves at
/// the bar's close, before any print is looked at.
pub open spec fn clocked(k: Knobs, s: Clocked, t: PaperTrade, q: TradeQuote, c: Candle) -> Clocked {
    let id = t.opportunity_id@;
    if t.asset != c.asset {
        s
    } else {
        let held = held_after(s.ids.clocks, id);
        let ids = IdMaps {
            clocks: s.ids.clocks.insert(id, HoldClock { candles_held: held as usize }),
            ..s.ids
        };
        if hold_verdict(held, k.max_hold_candles as int) == HoldTick::Timeout {
            Clocked {
                ids,
                closes: s.closes.push(close_for(t, timeout_exit(q), c.timestamp)),
                timed_out: s.timed_out.insert(id, ()),
            }
        } else {
            Clocked { ids, ..s }
        }
    }
}

/// The first `n` clocks.
pub open spec fn all_clocked(
    k: Knobs,
    ids: IdMaps,
    opens: Seq<PaperTrade>,
    quotes: Seq<TradeQuote>,
    c: Candle,
    n: nat,
) -> Clocked
    decreases n,
{
    if n == 0 {
        Clocked { ids, closes: Seq::empty(), timed_out: Map::empty() }
    } else {
        clocked(
            k,
            all_clocked(k, ids, opens, quotes, c, (n - 1) as nat),
            opens[n - 1],
            quotes[n - 1],
            c,
        )
    }
}

/// The first `n` open trades that did not time out.
pub open spec fn still_live(
    opens: Seq<PaperTrade>,
    timed_out: Map<Seq<char>, ()>,
    n: nat,
) -> Seq<Live>
    decreases n,
{
    if n == 0 {
        Seq::empty()
    } else {
        let rest = still_live(opens, timed_out, (n - 1) as nat);
        if timed_out.contains_key(opens[n - 1].opportunity_id@) {
            rest
        } else {
            rest.push(
                Live {
                    trade: opens[n - 1],
                    filled_at_tick: None,
                    slot: QuoteSlot::Open((n - 1) as usize),
                },
            )
        }
    }
}

/// The walk so far.
pub struct Walk {
    pub book: Book,
    pub live: Seq<Live>,
    pub resolved: Map<Seq<char>, ()>,
    pub closes: Seq<Close>,
}

/// The live trade a fill makes.
pub open spec fn live_fill(f: TickFill, at: Stamp) -> Live {
    Live {
        trade: filled(f.trade, f.px, at),
        filled_at_tick: Some(f.tick),
        slot: match f.side {
            EntryFeeSide::Maker => QuoteSlot::AtEntry(f.order),
            EntryFeeSide::Taker => QuoteSlot::AtBoundary(f.order),
        },
    }
}

/// One order's fill is booked when its print comes.
pub open spec fn fill_at_tick(w: Walk, f: TickFill, ti: int, tick: Tick) -> Walk {
    if f.tick == ti {
        Walk {
            book: recorded_fill(
                resting_ended(w.book, f.trade.opportunity_id@, tick.timestamp),
                f.trade,
                f.px,
                f.side,
                tick.timestamp,
            ),
            live: w.live.push(live_fill(f, tick.timestamp)),
            ..w
        }
    } else {
        w
    }
}

/// The first `n` fills at one print.
pub open spec fn fills_at_tick(w: Walk, fills: Seq<TickFill>, ti: int, tick: Tick, n: nat) -> Walk
    decreases n,
{
    if n == 0 {
        w
    } else {
        fill_at_tick(fills_at_tick(w, fills, ti, tick, (n - 1) as nat), fills[n - 1], ti, tick)
    }
}

/// Whether a live trade races at this print: it is this asset's, not resolved
/// yet, was open before the print, and has a risk to measure by.
pub open spec fn races_at(w: Walk, lv: Live, q: TradeQuote, c: Candle, ti: int) -> bool {
    &&& lv.trade.asset == c.asset
    &&& !w.resolved.contains_key(lv.trade.opportunity_id@)
    &&& (lv.filled_at_tick matches Some(at) ==> at < ti)
    &&& q.has_risk
}

/// An exit at one print: at its own price, or at the bar's first print where
/// gapped exits are booked at the open.
pub open spec fn print_booked(k: Knobs, e: Exit, q: TradeQuote, ti: int) -> Exit {
    if k.exit_gap_at_open && ti == 0 {
        booked_at(e, q.favorable@[0])
    } else {
        e
    }
}

/// How one print resolves a trade: the stop first, then the target.
pub open spec fn print_exit(
    k: Knobs,
    ids: IdMaps,
    t: PaperTrade,
    q: TradeQuote,
    price: Num,
    ti: int,
) -> Option<Exit> {
    if down_to(t.direction, price, racing_stop(k, ids, t, q)) {
        Some(print_booked(k, stop_exit(k, ids, t, q), q, ti))
    } else if down_to(t.direction, t.tp, price) {
        Some(print_booked(k, target_exit(q), q, ti))
    } else {
        None
    }
}

/// One live trade at one print.
pub open spec fn raced_at(
    k: Knobs,
    w: Walk,
    lv: Live,
    q: TradeQuote,
    c: Candle,
    ti: int,
    tick: Tick,
) -> Walk {
    let id = lv.trade.opportunity_id@;
    if !races_at(w, lv, q, c, ti) {
        w
    } else {
        let ids = excursion_noted(k, w.book.ids, id, q.favorable@[ti]);
        let w1 = Walk { book: Book { ids, ..w.book }, ..w };
        match print_exit(k, ids, lv.trade, q, tick.price, ti) {
            Some(e) => Walk {
                closes: w.closes.push(close_for(lv.trade, e, tick.timestamp)),
                resolved: w.resolved.insert(id, ()),
                ..w1
            },
            None => w1,
        }
    }
}

/// The first `n` live trades at one print.
pub open spec fn all_raced_at(
    k: Knobs,
    w: Walk,
    quotes: BarQuotes,
    c: Candle,
    ti: int,
    tick: Tick,
    n: nat,
) -> Walk
    decreases n,
{
    if n == 0 {
        w
    } else {
        let before = all_raced_at(k, w, quotes, c, ti, tick, (n - 1) as nat);
        raced_at(k, before, w.live[n - 1], slot_quote(quotes, w.live[n - 1].slot), c, ti, tick)
    }
}

/// One print: its fills are booked, then every live trade races.
pub open spec fn print_walked(
    k: Knobs,
    w: Walk,
    fills: Seq<TickFill>,
    quotes: BarQuotes,
    c: Candle,
    ti: int,
    tick: Tick,
) -> Walk {
    let w1 = fills_at_tick(w, fills, ti, tick, fills.len());
    all_raced_at(k, w1, quotes, c, ti, tick, w1.live.len())
}

/// The first `n` prints.
pub open spec fn walked(
    k: Knobs,
    w: Walk,
    fills: Seq<TickFill>,
    quotes: BarQuotes,
    c: Candle,
    ticks: Seq<Tick>,
    n: nat,
) -> Walk
    decreases n,
{
    if n == 0 {
        w
    } else {
        print_walked(
            k,
            walked(k, w, fills, quotes, c, ticks, (n - 1) as nat),
            fills,
            quotes,
            c,
            n - 1,
            ticks[n - 1],
        )
    }
}

/// A clock's count.
pub open spec fn held_of(clocks: Map<Seq<char>, HoldClock>, id: Seq<char>) -> int {
    if clocks.contains_key(id) {
        clocks[id].candles_held as int
    } else {
        0
    }
}

/// One live trade that survived the walk and is stale leaves at the close.
pub open spec fn derisked(
    k: Knobs,
    w: Walk,
    timed_out: Map<Seq<char>, ()>,
    lv: Live,
    q: TradeQuote,
    c: Candle,
) -> Walk {
    let id = lv.trade.opportunity_id@;
    if lv.trade.asset != c.asset || w.resolved.contains_key(id) || timed_out.contains_key(id) {
        w
    } else {
        match derisk_exit(k, q, held_of(w.book.ids.clocks, id)) {
            Some(e) => Walk {
                closes: w.closes.push(close_for(lv.trade, e, c.timestamp)),
                resolved: w.resolved.insert(id, ()),
                ..w
            },
            None => w,
        }
    }
}

/// The first `n` live trades.
pub open spec fn all_derisked(
    k: Knobs,
    w: Walk,
    timed_out: Map<Seq<char>, ()>,
    quotes: BarQuotes,
    c: Candle,
    n: nat,
) -> Walk
    decreases n,
{
    if n == 0 {
        w
    } else {
        derisked(
            k,
            all_derisked(k, w, timed_out, quotes, c, (n - 1) as nat),
            timed_out,
            w.live[n - 1],
            slot_quote(quotes, w.live[n - 1].slot),
            c,
        )
    }
}

/// The first `n` live trades that are still open.
pub open spec fn survivors(
    live: Seq<Live>,
    resolved: Map<Seq<char>, ()>,
    timed_out: Map<Seq<char>, ()>,
    n: nat,
) -> Seq<PaperTrade>
    decreases n,
{
    if n == 0 {
        Seq::empty()
    } else {
        let rest = survivors(live, resolved, timed_out, (n - 1) as nat);
        let id = live[n - 1].trade.opportunity_id@;
        if resolved.contains_key(id) || timed_out.contains_key(id) {
            rest
        } else {
            rest.push(live[n - 1].trade)
        }
    }
}

/// The orders of a bar with prints.
pub open spec fn bar_fills(
    k: Knobs,
    chase: bool,
    b: Book,
    q: BarQuotes,
    c: Candle,
    ticks: Seq<Tick>,
) -> Fills {
    let b1 = Book { recent: remember(b.recent, c), open: Seq::empty(), ..b };
    tick_orders(k, chase, b1, b.pending, q.orders@, c, ticks, b.pending.len())
}

/// The clocks of a bar with prints.
pub open spec fn bar_clocks(
    k: Knobs,
    chase: bool,
    b: Book,
    q: BarQuotes,
    c: Candle,
    ticks: Seq<Tick>,
) -> Clocked {
    all_clocked(
        k,
        bar_fills(k, chase, b, q, c, ticks).book.ids,
        b.open,
        q.trades@,
        c,
        b.open.len(),
    )
}

/// The whole walk of a bar with prints.
pub open spec fn bar_walk(
    k: Knobs,
    chase: bool,
    b: Book,
    q: BarQuotes,
    c: Candle,
    ticks: Seq<Tick>,
) -> Walk {
    let f = bar_fills(k, chase, b, q, c, ticks);
    let s = bar_clocks(k, chase, b, q, c, ticks);
    let start = Walk {
        book: Book { ids: s.ids, ..f.book },
        live: still_live(b.open, s.timed_out, b.open.len()),
        resolved: Map::empty(),
        closes: s.closes,
    };
    let w = walked(k, start, f.fills, q, c, ticks, ticks.len());
    all_derisked(k, w, s.timed_out, q, c, w.live.len())
}

/// What a candle with prints does to a book.
pub open spec fn prints_applied(
    k: Knobs,
    chase: bool,
    b: Book,
    q: BarQuotes,
    c: Candle,
    ticks: Seq<Tick>,
) -> Book {
    let w = bar_walk(k, chase, b, q, c, ticks);
    let s = bar_clocks(k, chase, b, q, c, ticks);
    let done = all_closed(w.book, w.closes, w.closes.len());
    Book { open: survivors(w.live, w.resolved, s.timed_out, w.live.len()), ..done }
}

/// The tickets of the closes a candle with prints brings.
pub open spec fn print_tickets(
    k: Knobs,
    chase: bool,
    b: Book,
    q: BarQuotes,
    c: Candle,
    ticks: Seq<Tick>,
) -> Seq<CloseTicket> {
    let w = bar_walk(k, chase, b, q, c, ticks);
    all_tickets(w.book, w.closes, w.closes.len())
}

/// There is a quote for each order and each trade, with a favourable R for
/// each print.
pub open spec fn print_quotes_fit(b: Book, q: BarQuotes, n: int) -> bool {
    &&& q.orders@.len() == b.pending.len()
    &&& q.trades@.len() == b.open.len()
    &&& forall|i: int| 0 <= i < q.trades@.len() ==> (#[trigger] q.trades@[i]).favorable@.len() == n
    &&& forall|i: int|
        0 <= i < q.orders@.len() ==> (#[trigger] q.orders@[i]).at_entry.favorable@.len() == n
            && q.orders@[i].at_boundary.favorable@.len() == n
}

/// The slot's quote exists and has a favourable R for each print.
pub open spec fn slot_ok(q: BarQuotes, slot: QuoteSlot, n: int) -> bool {
    match slot {
        QuoteSlot::Open(i) => i < q.trades@.len() && q.trades@[i as int].favorable@.len() == n,
        QuoteSlot::AtEntry(i) => i < q.orders@.len() && q.orders@[i as int].at_entry.favorable@.len()
            == n,
        QuoteSlot::AtBoundary(i) => i < q.orders@.len()
            && q.orders@[i as int].at_boundary.favorable@.len() == n,
    }
}

fn quote_at<'a>(q: &'a BarQuotes, slot: QuoteSlot) -> (r: &'a TradeQuote)
    requires
        slot_ok(*q, slot, slot_quote(*q, slot).favorable@.len() as int),
    ensures
        *r == slot_quote(*q, slot),
{
    match slot {
        QuoteSlot::Open(i) => &q.trades[i],
        QuoteSlot::AtEntry(i) => &q.orders[i].at_entry,
        QuoteSlot::AtBoundary(i) => &q.orders[i].at_boundary,
    }
}

fn seek_down(ticks: &Vec<Tick>, dir: Direction, level: Num) -> (r: usize)
    ensures
        r == first_down(ticks@, dir, level, 0),
        r <= ticks@.len(),
{
    let mut i: usize = 0;
    while i < ticks.len() && !is_down_to(dir, ticks[i].price, level)
        invariant
            i <= ticks@.len(),
            first_down(ticks@, dir, level, i as int) == first_down(ticks@, dir, level, 0),
        decreases ticks@.len() - i,
    {
        i = i + 1;
    }
    i
}

fn seek_up(ticks: &Vec<Tick>, dir: Direction, level: Num) -> (r: usize)
    ensures
        r == first_up(ticks@, dir, level, 0),
        r <= ticks@.len(),
{
    let mut i: usize = 0;
    while i < ticks.len() && !is_down_to(dir, level, ticks[i].price)
        invariant
            i <= ticks@.len(),
            first_up(ticks@, dir, level, i as int) == first_up(ticks@, dir, level, 0),
        decreases ticks@.len() - i,
    {
        i = i + 1;
    }
    i
}

fn close_of(t: &PaperTrade, e: Exit, at: Stamp) -> (r: Close)
    ensures
        r == close_for(*t, e, at),
{
    Close {
        id: t.opportunity_id.clone(),
        result: e.result,
        r_pnl: e.r_pnl,
        at,
        is_stop_exit: e.is_stop_exit,
    }
}

/// Every fill names an order of the bar.
pub open spec fn fills_ok(fills: Seq<TickFill>, n: int) -> bool {
    forall|i: int| 0 <= i < fills.len() ==> (#[trigger] fills[i]).order < n
}

/// Every live trade has its quote.
pub open spec fn live_ok(live: Seq<Live>, q: BarQuotes, n: int) -> bool {
    forall|i: int| 0 <= i < live.len() ==> slot_ok(q, (#[trigger] live[i]).slot, n)
}

impl PaperTrader {
    fn tick_order_step(
        &mut self,
        p: &PendingFill,
        q: &OrderQuote,
        candle: &Candle,
        ticks: &Vec<Tick>,
        chase: bool,
        order: usize,
        fills: &mut Vec<TickFill>,
    )
        requires
            old(self).wf(),
            counters_room(old(self)@.counters, 1),
        ensures
            final(self).wf(),
            final(self).knobs == old(self).knobs,
            ({
                let s = tick_order(
                    old(self).knobs,
                    chase,
                    Fills { book: old(self)@, fills: old(fills)@ },
                    *p,
                    *q,
                    *candle,
                    ticks@,
                    order as int,
                );
                &&& final(self)@ == s.book
                &&& final(fills)@ == s.fills
            }),
            forall|n: int| fills_ok(old(fills)@, n) && order < n ==> #[trigger] fills_ok(final(fills)@, n),
            forall|n: int|
                counters_room(old(self)@.counters, n) && n >= 1 ==> #[trigger] counters_room(
                    final(self)@.counters,
                    n - 1,
                ),
            final(self)@.ids.clocks == old(self)@.ids.clocks,
    {
        if p.trade.asset != candle.asset {
            self.pending.push(p.dup());
            return;
        }
        if candle.timestamp > p.deadline {
            self.end_resting(&p.trade.opportunity_id, candle.timestamp);
            return;
        }
        let dir = p.trade.direction;
        let maker: usize = seek_down(ticks, dir, p.trade.entry);
        if !p.seen_first_candle && !self.knobs.allow_signal_bar_fill {
            let mut waiting = p.dup();
            waiting.seen_first_candle = true;
            if waiting.hybrid_armed.is_none() {
                let touched = maker < ticks.len();
                waiting.hybrid_armed = Some(
                    !self.knobs.chase_requires_seed || touched || p.hybrid_pred_touch,
                );
            }
            self.pending.push(waiting);
            return;
        }
        let armed = match p.hybrid_armed {
            Some(a) => a,
            None => false,
        };
        let chased = chase && armed && self.knobs.chase_r > 0;
        let cap: usize = seek_up(ticks, dir, q.boundary);
        if chased && cap < maker {
            self.hybrid_counters.add_fill(HybridPath::BoundaryFromBelow);
            fills.push(
                TickFill {
                    trade: p.trade.dup(),
                    order,
                    tick: cap,
                    px: q.boundary,
                    side: EntryFeeSide::Taker,
                },
            );
        } else if maker < ticks.len() {
            if chased {
                self.hybrid_counters.add_fill(HybridPath::Maker);
            }
            fills.push(
                TickFill {
                    trade: p.trade.dup(),
                    order,
                    tick: maker,
                    px: p.trade.entry,
                    side: EntryFeeSide::Maker,
                },
            );
        } else {
            let mut waiting = p.dup();
            waiting.seen_first_candle = true;
            self.pending.push(waiting);
        }
    }

    /// Find which orders fill at which print; the others stay or go.
    fn find_tick_fills(
        &mut self,
        candle: &Candle,
        ticks: &Vec<Tick>,
        quotes: &Vec<OrderQuote>,
        chase: bool,
    ) -> (r: Vec<TickFill>)
        requires
            old(self).wf(),
            quotes@.len() == old(self)@.pending.len(),
            counters_room(old(self)@.counters, old(self)@.pending.len() as int),
        ensures
            final(self).wf(),
            final(self).knobs == old(self).knobs,
            ({
                let s = tick_orders(
                    old(self).knobs,
                    chase,
                    old(self)@,
                    old(self)@.pending,
                    quotes@,
                    *candle,
                    ticks@,
                    old(self)@.pending.len(),
                );
                &&& final(self)@ == s.book
                &&& r@ == s.fills
            }),
            fills_ok(r@, quotes@.len() as int),
            final(self)@.ids.clocks == old(self)@.ids.clocks,
    {
        let mut orders: Vec<PendingFill> = Vec::new();
        std::mem::swap(&mut self.pending, &mut orders);
        let ghost b0 = old(self)@;
        let ghost k = old(self).knobs;
        let mut fills: Vec<TickFill> = Vec::new();
        let mut i: usize = 0;
        while i < orders.len()
            invariant
                self.wf(),
                self.knobs == k,
                orders@ == b0.pending,
                quotes@.len() == orders@.len(),
                i <= orders@.len(),
                counters_room(self@.counters, orders@.len() - i),
                fills_ok(fills@, orders@.len() as int),
                self@.ids.clocks == b0.ids.clocks,
                ({
                    let s = tick_orders(k, chase, b0, orders@, quotes@, *candle, ticks@, i as nat);
                    &&& self@ == s.book
                    &&& fills@ == s.fills
                }),
            decreases orders@.len() - i,
        {
            self.tick_order_step(&orders[i], &quotes[i], candle, ticks, chase, i, &mut fills);
            i = i + 1;
        }
        fills
    }

    /// Count the bar on every open trade's clock; the timed-out ones leave.
    fn count_bar(
        &mut self,
        opens: &Vec<PaperTrade>,
        candle: &Candle,
        quotes: &Vec<TradeQuote>,
    ) -> (r: (Vec<Close>, StrMap<()>))
        requires
            old(self).wf(),
            quotes@.len() == opens@.len(),
            clocks_room(old(self)@.ids.clocks, opens@.len() as int),
        ensures
            final(self).wf(),
            final(self).knobs == old(self).knobs,
            ({
                let s = all_clocked(
                    old(self).knobs,
                    old(self)@.ids,
                    opens@,
                    quotes@,
                    *candle,
                    opens@.len(),
                );
                &&& final(self)@ == (Book { ids: s.ids, ..old(self)@ })
                &&& r.0@ == s.closes
                &&& r.1@ == s.timed_out
            }),
    {
        let ghost b0 = old(self)@;
        let ghost k = old(self).knobs;
        let mut closes: Vec<Close> = Vec::new();
        let mut timed_out: StrMap<()> = StrMap::new();
        let mut i: usize = 0;
        while i < opens.len()
            invariant
                self.wf(),
                self.knobs == k,
                i <= opens@.len(),
                quotes@.len() == opens@.len(),
                clocks_room(self@.ids.clocks, opens@.len() - i),
                ({
                    let s = all_clocked(k, b0.ids, opens@, quotes@, *candle, i as nat);
                    &&& self@ == (Book { ids: s.ids, ..b0 })
                    &&& closes@ == s.closes
                    &&& timed_out@ == s.timed_out
                }),
            decreases opens@.len() - i,
        {
            let t = &opens[i];
            if t.asset == candle.asset {
                let ghost before = self@.ids.clocks;
                let held: usize = self.tick_clock(&t.opportunity_id);
                proof {
                    let id = t.opportunity_id@;
                    let after = self@.ids.clocks;
                    assert forall|x: Seq<char>| #[trigger]
                        after.contains_key(x) implies after[x].candles_held + (opens@.len() - i - 1)
                        <= usize::MAX by {
                        if x != id {
                            assert(before.contains_key(x));
                        } else if before.contains_key(id) {
                            assert(before[id].candles_held + (opens@.len() - i) <= usize::MAX);
                        }
                    }
                }
                if held > self.knobs.max_hold_candles {
                    closes.push(
                        close_of(
                            t,
                            Exit {
                                result: TradeResult::Inconclusive,
                                r_pnl: quotes[i].timeout_r,
                                is_stop_exit: false,
                            },
                            candle.timestamp,
                        ),
                    );
                    timed_out.insert(t.opportunity_id.clone(), ());
                }
            } else {
                proof {
                    assert(clocks_room(self@.ids.clocks, opens@.len() - i - 1));
                }
            }
            i = i + 1;
        }
        (closes, timed_out)
    }

    /// Book the fills of one print.
    fn book_print(
        &mut self,
        fills: &Vec<TickFill>,
        ti: usize,
        tick: &Tick,
        live: &mut Vec<Live>,
        Ghost(w): Ghost<Walk>,
        quotes: &BarQuotes,
        n: usize,
    )
        requires
            old(self).wf(),
            w.book == old(self)@,
            w.live == old(live)@,
            fills_ok(fills@, quotes.orders@.len() as int),
            live_ok(old(live)@, *quotes, n as int),
            forall|i: int|
                0 <= i < quotes.orders@.len() ==> (#[trigger] quotes.orders@[i]).at_entry.favorable@.len()
                    == n && quotes.orders@[i].at_boundary.favorable@.len() == n,
        ensures
            final(self).wf(),
            final(self).knobs == old(self).knobs,
            final(self)@ == fills_at_tick(w, fills@, ti as int, *tick, fills@.len()).book,
            final(live)@ == fills_at_tick(w, fills@, ti as int, *tick, fills@.len()).live,
            fills_at_tick(w, fills@, ti as int, *tick, fills@.len()).resolved == w.resolved,
            fills_at_tick(w, fills@, ti as int, *tick, fills@.len()).closes == w.closes,
            live_ok(final(live)@, *quotes, n as int),
    {
        let ghost k = old(self).knobs;
        let mut i: usize = 0;
        while i < fills.len()
            invariant
                self.wf(),
                self.knobs == k,
                i <= fills@.len(),
                fills_ok(fills@, quotes.orders@.len() as int),
                live_ok(live@, *quotes, n as int),
                forall|j: int|
                    0 <= j < quotes.orders@.len() ==> (#[trigger] quotes.orders@[j]).at_entry.favorable@.len()
                        == n && quotes.orders@[j].at_boundary.favorable@.len() == n,
                ({
                    let v = fills_at_tick(w, fills@, ti as int, *tick, i as nat);
                    &&& self@ == v.book
                    &&& live@ == v.live
                    &&& v.resolved == w.resolved
                    &&& v.closes == w.closes
                }),
            decreases fills@.len() - i,
        {
            let f = &fills[i];
            if f.tick == ti {
                self.end_resting(&f.trade.opportunity_id, tick.timestamp);
                let trade = self.record_fill(&f.trade, f.px, f.side, tick.timestamp);
                let slot = match f.side {
                    EntryFeeSide::Maker => QuoteSlot::AtEntry(f.order),
                    EntryFeeSide::Taker => QuoteSlot::AtBoundary(f.order),
                };
                proof {
                    assert(f.order < quotes.orders@.len());
                    let o = quotes.orders@[f.order as int];
                    assert(slot_ok(*quotes, slot, n as int));
                }
                live.push(Live { trade, filled_at_tick: Some(ti), slot });
            }
            i = i + 1;
        }
    }

    /// Race every live trade at one print.
    fn race_print(
        &mut self,
        live: &Vec<Live>,
        ti: usize,
        tick: &Tick,
        candle: &Candle,
        quotes: &BarQuotes,
        n: usize,
        resolved: &mut StrMap<()>,
        closes: &mut Vec<Close>,
    )
        requires
            old(self).wf(),
            ti < n,
            live_ok(live@, *quotes, n as int),
        ensures
            final(self).wf(),
            final(self).knobs == old(self).knobs,
            ({
                let w = Walk {
                    book: old(self)@,
                    live: live@,
                    resolved: old(resolved)@,
                    closes: old(closes)@,
                };
                let v = all_raced_at(
                    old(self).knobs,
                    w,
                    *quotes,
                    *candle,
                    ti as int,
                    *tick,
                    live@.len(),
                );
                &&& final(self)@ == v.book
                &&& final(resolved)@ == v.resolved
                &&& final(closes)@ == v.closes
                &&& v.live == live@
            }),
    {
        let ghost k = old(self).knobs;
        let ghost w = Walk {
            book: old(self)@,
            live: live@,
            resolved: old(resolved)@,
            closes: old(closes)@,
        };
        let mut i: usize = 0;
        while i < live.len()
            invariant
                self.wf(),
                self.knobs == k,
                ti < n,
                i <= live@.len(),
                live_ok(live@, *quotes, n as int),
                w.live == live@,
                ({
                    let v = all_raced_at(k, w, *quotes, *candle, ti as int, *tick, i as nat);
                    &&& self@ == v.book
                    &&& resolved@ == v.resolved
                    &&& closes@ == v.closes
                    &&& v.live == live@
                }),
            decreases live@.len() - i,
        {
            let lv = &live[i];
            assert(slot_ok(*quotes, live@[i as int].slot, n as int));
            let q = quote_at(quotes, lv.slot);
            let open_before = match lv.filled_at_tick {
                Some(at) => at < ti,
                None => true,
            };
            if lv.trade.asset == candle.asset && !resolved.contains(&lv.trade.opportunity_id)
                && open_before && q.has_risk {
                self.note_excursion(&lv.trade.opportunity_id, q.favorable[ti]);
                if let Some(e) = self.print_exit_of(&lv.trade, q, tick.price, ti) {
                    closes.push(close_of(&lv.trade, e, tick.timestamp));
                    resolved.insert(lv.trade.opportunity_id.clone(), ());
                }
            }
            i = i + 1;
        }
    }

    fn print_exit_of(&self, t: &PaperTrade, q: &TradeQuote, price: Num, ti: usize) -> (r: Option<
        Exit,
    >)
        requires
            ti < q.favorable@.len(),
        ensures
            r == print_exit(self.knobs, self@.ids, *t, *q, price, ti as int),
    {
        let (stop, at_stop) = self.stop_of(t, q);
        let exit = if is_down_to(t.direction, price, stop) {
            at_stop
        } else if is_down_to(t.direction, t.tp, price) {
            Exit { result: TradeResult::Win, r_pnl: q.win_r, is_stop_exit: false }
        } else {
            return None;
        };
        if self.knobs.exit_gap_at_open && ti == 0 {
            Some(Exit { r_pnl: q.favorable[0], ..exit })
        } else {
            Some(exit)
        }
    }

    /// Close the stale survivors of the walk.
    fn derisk_survivors(
        &mut self,
        live: &Vec<Live>,
        candle: &Candle,
        quotes: &BarQuotes,
        n: usize,
        timed_out: &StrMap<()>,
        resolved: &mut StrMap<()>,
        closes: &mut Vec<Close>,
    )
        requires
            old(self).wf(),
            live_ok(live@, *quotes, n as int),
        ensures
            final(self).wf(),
            final(self).knobs == old(self).knobs,
            ({
                let w = Walk {
                    book: old(self)@,
                    live: live@,
                    resolved: old(resolved)@,
                    closes: old(closes)@,
                };
                let v = all_derisked(
                    old(self).knobs,
                    w,
                    timed_out@,
                    *quotes,
                    *candle,
                    live@.len(),
                );
                &&& final(self)@ == v.book
                &&& final(resolved)@ == v.resolved
                &&& final(closes)@ == v.closes
                &&& v.live == live@
            }),
    {
        let ghost k = old(self).knobs;
        let ghost w = Walk {
            book: old(self)@,
            live: live@,
            resolved: old(resolved)@,
            closes: old(closes)@,
        };
        let mut i: usize = 0;
        while i < live.len()
            invariant
                self.wf(),
                self.knobs == k,
                i <= live@.len(),
                live_ok(live@, *quotes, n as int),
                w.live == live@,
                ({
                    let v = all_derisked(k, w, timed_out@, *quotes, *candle, i as nat);
                    &&& self@ == v.book
                    &&& resolved@ == v.resolved
                    &&& closes@ == v.closes
                    &&& v.live == live@
                }),
            decreases live@.len() - i,
        {
            let lv = &live[i];
            assert(slot_ok(*quotes, live@[i as int].slot, n as int));
            let id = &lv.trade.opportunity_id;
            if lv.trade.asset == candle.asset && !resolved.contains(id) && !timed_out.contains(id) {
                let held: usize = match self.ids.hold_counts.get(id) {
                    Some(clock) => clock.candles_held,
                    None => 0,
                };
                if let Some(e) = self.derisk_of(quote_at(quotes, lv.slot), held) {
                    closes.push(close_of(&lv.trade, e, candle.timestamp));
                    resolved.insert(id.clone(), ());
                }
            }
            i = i + 1;
        }
    }

    /// Resolve a completed candle by its prints in time order. An order fills
    /// at the first print that reaches it and races from the next print on; a
    /// position leaves at the first print that crosses its stop or target.
    /// Returns the tickets of the closes.
    pub fn update_prices_tick(
        &mut self,
        candle: &Candle,
        ticks: &Vec<Tick>,
        quotes: &BarQuotes,
        chase: bool,
    ) -> (r: Vec<CloseTicket>)
        requires
            old(self).wf(),
            print_quotes_fit(old(self)@, *quotes, ticks@.len() as int),
            bar_room(old(self)@),
        ensures
            final(self).wf(),
            final(self).knobs == old(self).knobs,
            final(self)@ == prints_applied(
                old(self).knobs,
                chase,
                old(self)@,
                *quotes,
                *candle,
                ticks@,
            ),
            r@ == print_tickets(old(self).knobs, chase, old(self)@, *quotes, *candle, ticks@),
    {
        let ghost b0 = old(self)@;
        let ghost k = old(self).knobs;
        let n: usize = ticks.len();
        self.remember_candle(candle);
        let mut opens: Vec<PaperTrade> = Vec::new();
        std::mem::swap(&mut self.open_trades, &mut opens);
        let fills = self.find_tick_fills(candle, ticks, &quotes.orders, chase);
        let (mut closes, timed_out) = self.count_bar(&opens, candle, &quotes.trades);
        let mut live = live_of(&opens, &timed_out, quotes, n);
        let mut resolved: StrMap<()> = StrMap::new();
        let ghost start = Walk {
            book: self@,
            live: live@,
            resolved: Map::empty(),
            closes: closes@,
        };
        let mut ti: usize = 0;
        while ti < n
            invariant
                self.wf(),
                self.knobs == k,
                n == ticks@.len(),
                ti <= n,
                fills_ok(fills@, quotes.orders@.len() as int),
                live_ok(live@, *quotes, n as int),
                forall|i: int|
                    0 <= i < quotes.orders@.len() ==> (#[trigger] quotes.orders@[i]).at_entry.favorable@.len()
                        == n && quotes.orders@[i].at_boundary.favorable@.len() == n,
                ({
                    let w = walked(k, start, fills@, *quotes, *candle, ticks@, ti as nat);
                    &&& self@ == w.book
                    &&& live@ == w.live
                    &&& resolved@ == w.resolved
                    &&& closes@ == w.closes
                }),
            decreases n - ti,
        {
            let tick = ticks[ti];
            let ghost w = Walk {
                book: self@,
                live: live@,
                resolved: resolved@,
                closes: closes@,
            };
            self.book_print(&fills, ti, &tick, &mut live, Ghost(w), quotes, n);
            self.race_print(&live, ti, &tick, candle, quotes, n, &mut resolved, &mut closes);
            ti = ti + 1;
        }
        self.derisk_survivors(&live, candle, quotes, n, &timed_out, &mut resolved, &mut closes);
        let tickets = self.apply_closes(&closes);
        let mut open: Vec<PaperTrade> = Vec::new();
        let mut i: usize = 0;
        while i < live.len()
            invariant
                i <= live@.len(),
                open@ == survivors(live@, resolved@, timed_out@, i as nat),
            decreases live@.len() - i,
        {
            let id = &live[i].trade.opportunity_id;
            if !resolved.contains(id) && !timed_out.contains(id) {
                open.push(live[i].trade.dup());
            }
            i = i + 1;
        }
        self.open_trades = open;
        tickets
    }
}

/// The open trades that did not time out, as live ones.
fn live_of(opens: &Vec<PaperTrade>, timed_out: &StrMap<()>, quotes: &BarQuotes, n: usize) -> (r: Vec<
    Live,
>)
    requires
        quotes.trades@.len() == opens@.len(),
        forall|i: int|
            0 <= i < quotes.trades@.len() ==> (#[trigger] quotes.trades@[i]).favorable@.len() == n,
    ensures
        r@ == still_live(opens@, timed_out@, opens@.len()),
        live_ok(r@, *quotes, n as int),
{
    let mut live: Vec<Live> = Vec::new();
    let mut i: usize = 0;
    while i < opens.len()
        invariant
            i <= opens@.len(),
            quotes.trades@.len() == opens@.len(),
            forall|j: int|
                0 <= j < quotes.trades@.len() ==> (#[trigger] quotes.trades@[j]).favorable@.len()
                    == n,
            live@ == still_live(opens@, timed_out@, i as nat),
            live_ok(live@, *quotes, n as int),
        decreases opens@.len() - i,
    {
        if !timed_out.contains(&opens[i].opportunity_id) {
            let slot = QuoteSlot::Open(i);
            proof {
                let q = quotes.trades@[i as int];
                assert(slot_ok(*quotes, slot, n as int));
            }
            live.push(Live { trade: opens[i].dup(), filled_at_tick: None, slot });
        }
        i = i + 1;
    }
    live
}

} // verus!
