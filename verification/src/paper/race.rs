//! The race between stop and target on one candle.
use vstd::prelude::*;
use crate::clock::Stamp;
use crate::hold::{hold_verdict, HoldClock, HoldTick};
use crate::key::Num;
use crate::models::{Candle, PaperTrade, TradeResult};
use crate::paper::book::{
    all_closed, all_tickets, management_result, remember, stop_in_force, Book, Close, CloseTicket,
    IdMaps, Knobs, PaperTrader, PendingFill,
};
use crate::paper::counters::counters_room;
use crate::paper::fill::{best, best_of, down_to, is_down_to, touches, worst};
use crate::paper::pending::{order_step, orders_stepped, pending_stepped};
use crate::paper::quote::{BarQuotes, OrderQuote, TradeQuote};

verus! {

/// How a position leaves the market.
#[derive(Debug, Clone, Copy, PartialEq, Eq, Structural)]
pub struct Exit {
    pub result: TradeResult,
    pub r_pnl: Num,
    pub is_stop_exit: bool,
}

/// The clock's count after one more bar.
pub open spec fn held_after(clocks: Map<Seq<char>, HoldClock>, id: Seq<char>) -> int {
    1 + if clocks.contains_key(id) {
        clocks[id].candles_held as int
    } else {
        0
    }
}

/// The best R seen once this one is.
pub open spec fn mark_after(marks: Map<Seq<char>, Num>, id: Seq<char>, favorable: Num) -> Num {
    let mark = mark_of(marks, id);
    if favorable > mark {
        favorable
    } else {
        mark
    }
}

/// The best R seen so far.
pub open spec fn mark_of(marks: Map<Seq<char>, Num>, id: Seq<char>) -> Num {
    if marks.contains_key(id) {
        marks[id]
    } else {
        0
    }
}

/// What is kept about a trade once a favourable R was seen: its best R, and
/// whether that banked half.
pub open spec fn excursion_noted(k: Knobs, ids: IdMaps, id: Seq<char>, favorable: Num) -> IdMaps {
    let mark = mark_after(ids.marks, id, favorable);
    IdMaps {
        marks: ids.marks.insert(id, mark),
        partial: if k.partial_tp_r > 0 && mark >= k.partial_tp_r {
            ids.partial.insert(id, ())
        } else {
            ids.partial
        },
        ..ids
    }
}

/// Whether the trailing stop applies: the best R reached its threshold, and
/// no strategy moved the stop.
pub open spec fn trails(k: Knobs, ids: IdMaps, t: PaperTrade, q: TradeQuote) -> bool {
    let id = t.opportunity_id@;
    k.breakeven_r > 0 && q.has_risk && mark_of(ids.marks, id) >= k.breakeven_r
        && !ids.overrides.contains_key(id)
}

/// The stop that races.
pub open spec fn racing_stop(k: Knobs, ids: IdMaps, t: PaperTrade, q: TradeQuote) -> Num {
    if trails(k, ids, t, q) {
        q.trail_stop
    } else {
        stop_in_force(ids.overrides, t)
    }
}

/// The exit at the racing stop: a trailing stop locks its profit in, any
/// other is a loss.
pub open spec fn stop_exit(k: Knobs, ids: IdMaps, t: PaperTrade, q: TradeQuote) -> Exit {
    if trails(k, ids, t, q) {
        Exit { result: TradeResult::Inconclusive, r_pnl: k.trail_lock_r, is_stop_exit: false }
    } else {
        Exit { result: TradeResult::Loss, r_pnl: q.stop_r, is_stop_exit: true }
    }
}

/// The exit at the target.
pub open spec fn target_exit(q: TradeQuote) -> Exit {
    Exit { result: TradeResult::Win, r_pnl: q.win_r, is_stop_exit: false }
}

/// The exit of a position that outlived its hold limit.
pub open spec fn timeout_exit(q: TradeQuote) -> Exit {
    Exit { result: TradeResult::Inconclusive, r_pnl: q.timeout_r, is_stop_exit: false }
}

/// The management exit of a stale position that is no better than its
/// threshold.
pub open spec fn derisk_exit(k: Knobs, q: TradeQuote, held: int) -> Option<Exit> {
    if k.derisk_after_min > 0 && q.has_risk && held > k.derisk_after_min && q.unreal_r
        <= k.derisk_below_r {
        Some(
            Exit { result: management_result(q.unreal_r), r_pnl: q.unreal_r, is_stop_exit: false },
        )
    } else {
        None
    }
}

/// How the candle's range resolves a position that was not timed out. A bar
/// that spans stop and target goes by the tie-break.
pub open spec fn range_exit(
    k: Knobs,
    ids: IdMaps,
    t: PaperTrade,
    q: TradeQuote,
    held: int,
    c: Candle,
) -> Option<Exit> {
    let hit_stop = touches(t.direction, c, racing_stop(k, ids, t, q));
    let hit_tp = down_to(t.direction, t.tp, best_of(t.direction, c));
    if hit_stop && (k.intrabar_stop_first || !hit_tp) {
        Some(stop_exit(k, ids, t, q))
    } else if hit_tp {
        Some(target_exit(q))
    } else {
        derisk_exit(k, q, held)
    }
}

/// An exit booked at another R than its own.
pub open spec fn booked_at(e: Exit, r: Num) -> Exit {
    Exit { r_pnl: r, ..e }
}

/// How a bar that opens through the stop, or else through the target,
/// resolves a position where gapped exits are booked at the open and there is
/// a risk to measure it by.
pub open spec fn gap_exit(
    k: Knobs,
    ids: IdMaps,
    t: PaperTrade,
    q: TradeQuote,
    c: Candle,
) -> Option<Exit> {
    if !k.exit_gap_at_open || !q.has_risk {
        None
    } else if down_to(t.direction, c.open, racing_stop(k, ids, t, q)) {
        Some(booked_at(stop_exit(k, ids, t, q), q.open_r))
    } else if down_to(t.direction, t.tp, c.open) {
        Some(booked_at(target_exit(q), q.open_r))
    } else {
        None
    }
}

/// What is kept about a trade once a favourable R was seen, where the trade
/// has a risk to measure by.
pub open spec fn seen_at(k: Knobs, ids: IdMaps, id: Seq<char>, q: TradeQuote, r: Num) -> IdMaps {
    if q.has_risk {
        excursion_noted(k, ids, id, r)
    } else {
        ids
    }
}

/// The race so far: what is kept by id, who is still open, who leaves.
pub struct Race {
    pub ids: IdMaps,
    pub kept: Seq<PaperTrade>,
    pub closes: Seq<Close>,
}

/// A close for an exit.
pub open spec fn close_for(t: PaperTrade, e: Exit, at: Stamp) -> Close {
    Close {
        id: t.opportunity_id,
        result: e.result,
        r_pnl: e.r_pnl,
        at,
        is_stop_exit: e.is_stop_exit,
    }
}

/// One trade's bar: what is kept about it afterwards, and its exit. A position
/// that a gap takes out at the open saw nothing of the bar but its open.
pub open spec fn bar_of_trade(k: Knobs, ids: IdMaps, t: PaperTrade, q: TradeQuote, c: Candle) -> (
    IdMaps,
    Option<Exit>,
) {
    let id = t.opportunity_id@;
    let held = held_after(ids.clocks, id);
    let ticked = IdMaps {
        clocks: ids.clocks.insert(id, HoldClock { candles_held: held as usize }),
        ..ids
    };
    if hold_verdict(held, k.max_hold_candles as int) == HoldTick::Timeout {
        (ticked, Some(timeout_exit(q)))
    } else {
        match gap_exit(k, ticked, t, q, c) {
            Some(e) => (seen_at(k, ticked, id, q, q.open_r), Some(e)),
            None => {
                let seen = seen_at(k, ticked, id, q, q.favorable@[0]);
                (seen, range_exit(k, seen, t, q, held, c))
            },
        }
    }
}

/// One trade races; another asset's trade stays as it is.
pub open spec fn raced(k: Knobs, r: Race, t: PaperTrade, q: TradeQuote, c: Candle) -> Race {
    if t.asset != c.asset {
        Race { kept: r.kept.push(t), ..r }
    } else {
        let (ids, exit) = bar_of_trade(k, r.ids, t, q, c);
        match exit {
            Some(e) => Race { ids, closes: r.closes.push(close_for(t, e, c.timestamp)), ..r },
            None => Race { ids, kept: r.kept.push(t), ..r },
        }
    }
}

/// The first `n` trades race.
pub open spec fn all_raced(
    k: Knobs,
    ids: IdMaps,
    trades: Seq<PaperTrade>,
    quotes: Seq<TradeQuote>,
    c: Candle,
    n: nat,
) -> Race
    decreases n,
{
    if n == 0 {
        Race { ids, kept: Seq::empty(), closes: Seq::empty() }
    } else {
        raced(
            k,
            all_raced(k, ids, trades, quotes, c, (n - 1) as nat),
            trades[n - 1],
            quotes[n - 1],
            c,
        )
    }
}

/// The book once the candle's fills are in: only trades opened before it
/// race, so they are set aside.
pub open spec fn filled_by(k: Knobs, b: Book, q: BarQuotes, c: Candle) -> Book {
    pending_stepped(
        k,
        Book { recent: remember(b.recent, c), open: Seq::empty(), ..b },
        q.orders@,
        c,
    )
}

/// The candle's race among the trades that were open before it.
pub open spec fn race_of(k: Knobs, b: Book, q: BarQuotes, c: Candle) -> Race {
    all_raced(k, filled_by(k, b, q, c).ids, b.open, q.trades@, c, b.open.len())
}

/// The book once the race is run and nothing is closed yet.
pub open spec fn raced_book(k: Knobs, b: Book, q: BarQuotes, c: Candle) -> Book {
    Book { ids: race_of(k, b, q, c).ids, ..filled_by(k, b, q, c) }
}

/// What a candle does to a book: orders fill, the older positions race, those
/// that leave are closed, and the survivors stand before the fresh fills.
pub open spec fn candle_applied(k: Knobs, b: Book, q: BarQuotes, c: Candle) -> Book {
    let race = race_of(k, b, q, c);
    let done = all_closed(raced_book(k, b, q, c), race.closes, race.closes.len());
    Book { open: race.kept + done.open, ..done }
}

/// The tickets of the closes a candle brings.
pub open spec fn candle_tickets(k: Knobs, b: Book, q: BarQuotes, c: Candle) -> Seq<CloseTicket> {
    let race = race_of(k, b, q, c);
    all_tickets(raced_book(k, b, q, c), race.closes, race.closes.len())
}

/// Every clock can still count `n` bars.
pub open spec fn clocks_room(clocks: Map<Seq<char>, HoldClock>, n: int) -> bool {
    n <= usize::MAX && forall|id: Seq<char>| #[trigger]
        clocks.contains_key(id) ==> clocks[id].candles_held + n <= usize::MAX
}

/// The counts can take in one more bar.
pub open spec fn bar_room(b: Book) -> bool {
    &&& counters_room(b.counters, b.pending.len() as int)
    &&& clocks_room(b.ids.clocks, b.open.len() as int)
}

/// There is a quote for each order and each trade, with at least one
/// favourable R.
pub open spec fn quotes_fit(b: Book, q: BarQuotes) -> bool {
    &&& q.orders@.len() == b.pending.len()
    &&& q.trades@.len() == b.open.len()
    &&& forall|i: int| 0 <= i < q.trades@.len() ==> (#[trigger] q.trades@[i]).favorable@.len() >= 1
}

proof fn lemma_orders_keep_clocks_room(
    k: Knobs,
    b: Book,
    orders: Seq<PendingFill>,
    quotes: Seq<OrderQuote>,
    c: Candle,
    n: nat,
    room: int,
)
    requires
        clocks_room(b.ids.clocks, room),
    ensures
        clocks_room(orders_stepped(k, b, orders, quotes, c, n).ids.clocks, room),
    decreases n,
{
    if n > 0 {
        lemma_orders_keep_clocks_room(k, b, orders, quotes, c, (n - 1) as nat, room);
        let before = orders_stepped(k, b, orders, quotes, c, (n - 1) as nat);
        let p = orders[n - 1];
        let after = order_step(k, before, p, quotes[n - 1], c);
        let id = p.trade.opportunity_id@;
        assert(after.ids.clocks == before.ids.clocks || after.ids.clocks
            == before.ids.clocks.insert(id, HoldClock { candles_held: 0 }));
        assert forall|x: Seq<char>| #[trigger]
            after.ids.clocks.contains_key(x) implies after.ids.clocks[x].candles_held + room
            <= usize::MAX by {
            if after.ids.clocks == before.ids.clocks {
                assert(before.ids.clocks.contains_key(x));
            } else if x != id {
                assert(before.ids.clocks.contains_key(x));
            }
        }
    }
}

impl PaperTrader {
    /// Note a favourable R.
    pub(crate) fn note_excursion(&mut self, id: &String, favorable: Num)
        requires
            old(self).wf(),
        ensures
            final(self).wf(),
            final(self).knobs == old(self).knobs,
            final(self)@ == (Book {
                ids: excursion_noted(old(self).knobs, old(self)@.ids, id@, favorable),
                ..old(self)@
            }),
    {
        let before: Num = match self.ids.watermarks.get(id) {
            Some(m) => m,
            None => 0,
        };
        let mark: Num = if favorable > before {
            favorable
        } else {
            before
        };
        self.ids.watermarks.insert(id.clone(), mark);
        if self.knobs.partial_tp_r > 0 && mark >= self.knobs.partial_tp_r {
            self.ids.partial_taken.insert(id.clone(), ());
        }
    }

    /// Whether the trailing stop applies to a trade.
    pub(crate) fn is_trailing(&self, t: &PaperTrade, q: &TradeQuote) -> (r: bool)
        ensures
            r == trails(self.knobs, self@.ids, *t, *q),
    {
        let mark: Num = match self.ids.watermarks.get(&t.opportunity_id) {
            Some(m) => m,
            None => 0,
        };
        self.knobs.breakeven_r > 0 && q.has_risk && mark >= self.knobs.breakeven_r
            && !self.ids.stop_overrides.contains(&t.opportunity_id)
    }

    /// The stop that races, and the exit at it.
    pub(crate) fn stop_of(&self, t: &PaperTrade, q: &TradeQuote) -> (r: (Num, Exit))
        ensures
            r.0 == racing_stop(self.knobs, self@.ids, *t, *q),
            r.1 == stop_exit(self.knobs, self@.ids, *t, *q),
    {
        if self.is_trailing(t, q) {
            (
                q.trail_stop,
                Exit {
                    result: TradeResult::Inconclusive,
                    r_pnl: self.knobs.trail_lock_r,
                    is_stop_exit: false,
                },
            )
        } else {
            (
                self.effective_stop(t),
                Exit { result: TradeResult::Loss, r_pnl: q.stop_r, is_stop_exit: true },
            )
        }
    }

    /// The management exit of a stale position.
    pub(crate) fn derisk_of(&self, q: &TradeQuote, held: usize) -> (r: Option<Exit>)
        ensures
            r == derisk_exit(self.knobs, *q, held as int),
    {
        if self.knobs.derisk_after_min > 0 && q.has_risk && held > self.knobs.derisk_after_min
            && q.unreal_r <= self.knobs.derisk_below_r {
            let result = if q.unreal_r < 0 {
                TradeResult::Loss
            } else {
                TradeResult::Inconclusive
            };
            Some(Exit { result, r_pnl: q.unreal_r, is_stop_exit: false })
        } else {
            None
        }
    }

    fn gap_exit_of(&self, t: &PaperTrade, q: &TradeQuote, c: &Candle) -> (r: Option<Exit>)
        ensures
            r == gap_exit(self.knobs, self@.ids, *t, *q, *c),
    {
        if !self.knobs.exit_gap_at_open || !q.has_risk {
            return None;
        }
        let (stop, exit) = self.stop_of(t, q);
        if is_down_to(t.direction, c.open, stop) {
            Some(Exit { r_pnl: q.open_r, ..exit })
        } else if is_down_to(t.direction, t.tp, c.open) {
            Some(Exit { result: TradeResult::Win, r_pnl: q.open_r, is_stop_exit: false })
        } else {
            None
        }
    }

    fn range_exit_of(&self, t: &PaperTrade, q: &TradeQuote, held: usize, c: &Candle) -> (r: Option<
        Exit,
    >)
        ensures
            r == range_exit(self.knobs, self@.ids, *t, *q, held as int, *c),
    {
        let (stop, exit) = self.stop_of(t, q);
        let hit_stop = is_down_to(t.direction, worst(t.direction, c), stop);
        let hit_tp = is_down_to(t.direction, t.tp, best(t.direction, c));
        if hit_stop && (!hit_tp || self.knobs.intrabar_stop_first) {
            Some(exit)
        } else if hit_tp {
            Some(Exit { result: TradeResult::Win, r_pnl: q.win_r, is_stop_exit: false })
        } else {
            self.derisk_of(q, held)
        }
    }

    /// Count one bar on a trade's clock.
    pub(crate) fn tick_clock(&mut self, id: &String) -> (held: usize)
        requires
            old(self).wf(),
            clocks_room(old(self)@.ids.clocks, 1),
        ensures
            final(self).wf(),
            final(self).knobs == old(self).knobs,
            held == held_after(old(self)@.ids.clocks, id@),
            final(self)@ == (Book {
                ids: IdMaps {
                    clocks: old(self)@.ids.clocks.insert(id@, HoldClock { candles_held: held }),
                    ..old(self)@.ids
                },
                ..old(self)@
            }),
    {
        let mut clock = match self.ids.hold_counts.get(id) {
            Some(k) => k,
            None => HoldClock::default(),
        };
        clock.tick(self.knobs.max_hold_candles);
        self.ids.hold_counts.insert(id.clone(), clock);
        clock.candles_held
    }

    fn race_bar(&mut self, t: &PaperTrade, q: &TradeQuote, candle: &Candle) -> (r: Option<Exit>)
        requires
            old(self).wf(),
            clocks_room(old(self)@.ids.clocks, 1),
            q.favorable@.len() >= 1,
        ensures
            final(self).wf(),
            final(self).knobs == old(self).knobs,
            ({
                let (ids, exit) = bar_of_trade(old(self).knobs, old(self)@.ids, *t, *q, *candle);
                final(self)@ == (Book { ids, ..old(self)@ }) && r == exit
            }),
    {
        let held: usize = self.tick_clock(&t.opportunity_id);
        if held > self.knobs.max_hold_candles {
            return Some(
                Exit {
                    result: TradeResult::Inconclusive,
                    r_pnl: q.timeout_r,
                    is_stop_exit: false,
                },
            );
        }
        let gapped = self.gap_exit_of(t, q, candle);
        if gapped.is_some() {
            if q.has_risk {
                self.note_excursion(&t.opportunity_id, q.open_r);
            }
            return gapped;
        }
        if q.has_risk {
            self.note_excursion(&t.opportunity_id, q.favorable[0]);
        }
        self.range_exit_of(t, q, held, candle)
    }

    /// Resolve a completed candle by its range: orders fill, expire or wait,
    /// then the positions that were open before it race. Returns the tickets
    /// of the closes.
    pub fn update_prices_ohlc(&mut self, candle: &Candle, quotes: &BarQuotes) -> (r: Vec<
        CloseTicket,
    >)
        requires
            old(self).wf(),
            quotes_fit(old(self)@, *quotes),
            bar_room(old(self)@),
        ensures
            final(self).wf(),
            final(self).knobs == old(self).knobs,
            final(self)@ == candle_applied(old(self).knobs, old(self)@, *quotes, *candle),
            r@ == candle_tickets(old(self).knobs, old(self)@, *quotes, *candle),
    {
        let ghost b0 = old(self)@;
        let ghost k = old(self).knobs;
        self.remember_candle(candle);
        let mut opens: Vec<PaperTrade> = Vec::new();
        std::mem::swap(&mut self.open_trades, &mut opens);
        proof {
            lemma_orders_keep_clocks_room(
                k,
                self@,
                self@.pending,
                quotes.orders@,
                *candle,
                self@.pending.len(),
                b0.open.len() as int,
            );
        }
        self.process_pending_fills(candle, &quotes.orders);
        let mut still_open: Vec<PaperTrade> = Vec::new();
        let mut closes: Vec<Close> = Vec::new();
        let ghost b1 = self@;
        let ghost fresh = b1.ids;
        let mut i: usize = 0;
        while i < opens.len()
            invariant
                self.wf(),
                self.knobs == k,
                opens@ == b0.open,
                i <= opens@.len(),
                quotes.trades@.len() == opens@.len(),
                forall|j: int|
                    0 <= j < quotes.trades@.len() ==> (#[trigger] quotes.trades@[j]).favorable@.len()
                        >= 1,
                clocks_room(self@.ids.clocks, opens@.len() - i),
                ({
                    let race = all_raced(k, fresh, opens@, quotes.trades@, *candle, i as nat);
                    &&& self@ == (Book { ids: race.ids, ..b1 })
                    &&& still_open@ == race.kept
                    &&& closes@ == race.closes
                }),
            decreases opens@.len() - i,
        {
            let t = &opens[i];
            if t.asset != candle.asset {
                still_open.push(t.dup());
            } else {
                let ghost before = self@.ids.clocks;
                proof {
                    assert forall|x: Seq<char>| #[trigger]
                        before.contains_key(x) implies before[x].candles_held + 1
                        <= usize::MAX by {}
                }
                match self.race_bar(t, &quotes.trades[i], candle) {
                    Some(e) => closes.push(
                        Close {
                            id: t.opportunity_id.clone(),
                            result: e.result,
                            r_pnl: e.r_pnl,
                            at: candle.timestamp,
                            is_stop_exit: e.is_stop_exit,
                        },
                    ),
                    None => still_open.push(t.dup()),
                }
                proof {
                    let id = t.opportunity_id@;
                    let after = self@.ids.clocks;
                    assert forall|x: Seq<char>| #[trigger]
                        after.contains_key(x) implies after[x].candles_held + (opens@.len() - i - 1)
                        <= usize::MAX by {
                        if x != id {
                            assert(before.contains_key(x));
                        } else if before.contains_key(id) {
                            assert(before[id].candles_held + (opens@.len() - i) <= usize::MAX);
                        }
                    }
                }
            }
            i = i + 1;
        }
        let tickets = self.apply_closes(&closes);
        still_open.append(&mut self.open_trades);
        self.open_trades = still_open;
        tickets
    }
}

} // verus!
