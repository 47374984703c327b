//! What a candle does to the resting orders.
use vstd::prelude::*;
use crate::clock::{seconds_between, whole_seconds};
use crate::fees::EntryFeeSide;
use crate::models::Candle;
use crate::paper::book::{
    booked, resting_ended, Book, IdMaps, Knobs, PaperTrader, PendingFill, HYBRID_ENTRY_MAX_AGE_SECS,
};
use crate::paper::counters::{count_abandon, count_fill, counters_room, HybridFillCounters};
use crate::paper::fill::{
    carries_open, down_to, fill_action, hybrid_action, hybrid_fill_action, is_down_to, limit_fill,
    touches, worst, HybridAbandon, HybridAction, OrderLevels,
};
use crate::paper::quote::OrderQuote;

verus! {

/// The order stays in the book.
pub open spec fn kept(b: Book, p: PendingFill) -> Book {
    Book { pending: b.pending.push(p), ..b }
}

/// The counts change.
pub open spec fn recounted(b: Book, counters: HybridFillCounters) -> Book {
    Book { counters, ..b }
}

/// The limit model on one order: past its deadline it is dropped, on an
/// eligible bar that touches its entry it fills as a maker, else it waits.
pub open spec fn limit_step(
    k: Knobs,
    b: Book,
    p: PendingFill,
    q: OrderQuote,
    c: Candle,
) -> Book {
    let t = p.trade;
    let gone = resting_ended(b, t.opportunity_id@, c.timestamp);
    if t.asset != c.asset {
        kept(b, p)
    } else if c.timestamp > p.deadline {
        gone
    } else {
        match limit_fill(
            t.direction,
            t.entry,
            q.slipped,
            c,
            !p.seen_first_candle,
            k.allow_signal_bar_fill,
        ) {
            Some(px) => booked(gone, t, px, EntryFeeSide::Maker, c.timestamp),
            None => kept(b, PendingFill { seen_first_candle: true, ..p }),
        }
    }
}

/// A bar that closed past the order's target flags its cancel, for the next
/// bar to apply.
pub open spec fn target_flagged(k: Knobs, p: PendingFill, c: Candle) -> PendingFill {
    match p.min_target {
        Some(target) if k.cancel_on_target_consumed && p.cancel_pending is None && down_to(
            p.trade.direction,
            target,
            c.close,
        ) => PendingFill { cancel_pending: Some(HybridAbandon::TargetConsumed), ..p },
        _ => p,
    }
}

/// A fill is noted when its own bar also reached the stop.
pub open spec fn first_touch_noted(b: Book, p: PendingFill, c: Candle) -> Book {
    if touches(p.trade.direction, c, p.trade.stop) {
        Book {
            counters: HybridFillCounters {
                first_touch_stop_fills: (b.counters.first_touch_stop_fills + 1) as usize,
                ..b.counters
            },
            ids: IdMaps {
                first_touch: b.ids.first_touch.insert(p.trade.opportunity_id@, ()),
                ..b.ids
            },
            ..b
        }
    } else {
        b
    }
}

/// Whether the order was at rest long enough before its signal bar.
pub open spec fn rested(k: Knobs, p: PendingFill) -> bool {
    match p.ready_at {
        Some(at) => whole_seconds(at as int, p.trade.opened_at as int)
            >= k.rest_min_lead_secs,
        None => false,
    }
}

/// The hybrid model on the signal bar: an order already at rest that is
/// touched fills as a maker; any other is armed or not, and waits.
pub open spec fn hybrid_signal_bar(k: Knobs, b: Book, p: PendingFill, c: Candle) -> Book {
    let t = p.trade;
    let touched = touches(t.direction, c, t.entry);
    if k.rest_on_ready_fill && touched && rested(k, p) {
        let b1 = recounted(
            b,
            HybridFillCounters {
                rested_maker_fills: (b.counters.rested_maker_fills + 1) as usize,
                ..b.counters
            },
        );
        let b2 = resting_ended(first_touch_noted(b1, p, c), t.opportunity_id@, c.timestamp);
        booked(b2, t, t.entry, EntryFeeSide::Maker, c.timestamp)
    } else {
        let armed = PendingFill {
            seen_first_candle: true,
            age_anchor: Some(c.timestamp),
            hybrid_armed: Some(k.chase_requires_seed ==> touched || p.hybrid_pred_touch),
            ..p
        };
        kept(b, target_flagged(k, armed, c))
    }
}

/// The order's prices.
pub open spec fn levels_of(p: PendingFill, q: OrderQuote) -> OrderLevels {
    OrderLevels { entry: p.trade.entry, stop: p.trade.stop, tp: p.trade.tp, boundary: q.boundary }
}

/// Whether chases are armed.
pub open spec fn is_armed(p: PendingFill) -> bool {
    p.hybrid_armed == Some(true)
}

/// The order as the bar finds it: the decision bar is over once it was seen,
/// and a deferred chase takes its open.
pub open spec fn at_decision(k: Knobs, p: PendingFill, q: OrderQuote, c: Candle) -> PendingFill {
    let carries = !p.hybrid_seen_decision_bar && is_armed(p) && k.deferred_chase_at_open
        && !k.immediate_chase_at_open && carries_open(p.trade.direction, levels_of(p, q), c.open);
    PendingFill {
        hybrid_seen_decision_bar: true,
        hybrid_b0_open: if carries {
            Some(c.open)
        } else {
            p.hybrid_b0_open
        },
        ..p
    }
}

/// Whether the order rested longer than it may.
pub open spec fn past_age(p: PendingFill, c: Candle) -> bool {
    let since = match p.age_anchor {
        Some(at) => at,
        None => p.trade.opened_at,
    };
    whole_seconds(since as int, c.timestamp as int) > HYBRID_ENTRY_MAX_AGE_SECS
}

/// The hybrid model's verdict on an order after its signal bar.
pub open spec fn verdict(k: Knobs, p: PendingFill, q: OrderQuote, c: Candle) -> HybridAction {
    hybrid_action(
        p.trade.direction,
        levels_of(p, q),
        is_armed(p),
        k.immediate_chase_at_open,
        k.race_maker_first,
        at_decision(k, p, q, c).hybrid_b0_open,
        k.past_entry_fee,
        c,
        !p.hybrid_seen_decision_bar,
        past_age(p, c),
    )
}

/// The hybrid model on the decision bar or a later one, before the deadline.
pub open spec fn hybrid_later_bar(
    k: Knobs,
    b: Book,
    p: PendingFill,
    q: OrderQuote,
    c: Candle,
) -> Book {
    let t = p.trade;
    match verdict(k, p, q, c) {
        HybridAction::Fill { px, side, path } => {
            let b1 = first_touch_noted(recounted(b, count_fill(b.counters, path)), p, c);
            booked(resting_ended(b1, t.opportunity_id@, c.timestamp), t, px, side, c.timestamp)
        },
        HybridAction::Wait => kept(b, target_flagged(k, at_decision(k, p, q, c), c)),
        HybridAction::Abandon(reason) => resting_ended(
            recounted(b, count_abandon(b.counters, reason)),
            t.opportunity_id@,
            c.timestamp,
        ),
    }
}

/// The hybrid model on one order. A cancel that an earlier bar confirmed
/// comes before any fill attempt.
pub open spec fn hybrid_step(
    k: Knobs,
    b: Book,
    p: PendingFill,
    q: OrderQuote,
    c: Candle,
) -> Book {
    let id = p.trade.opportunity_id@;
    if p.trade.asset != c.asset {
        kept(b, p)
    } else if p.cancel_pending is Some {
        resting_ended(
            recounted(b, count_abandon(b.counters, p.cancel_pending->0)),
            id,
            c.timestamp,
        )
    } else if !p.seen_first_candle {
        hybrid_signal_bar(k, b, p, c)
    } else if c.timestamp > p.deadline {
        let counters = HybridFillCounters {
            abandon_deadline: (b.counters.abandon_deadline + 1) as usize,
            ..b.counters
        };
        resting_ended(recounted(b, counters), id, c.timestamp)
    } else {
        hybrid_later_bar(k, b, p, q, c)
    }
}

/// One order under the model the knobs choose.
pub open spec fn order_step(
    k: Knobs,
    b: Book,
    p: PendingFill,
    q: OrderQuote,
    c: Candle,
) -> Book {
    if k.hybrid_fill {
        hybrid_step(k, b, p, q, c)
    } else {
        limit_step(k, b, p, q, c)
    }
}

/// The first `n` orders, in order; the book's pending orders are those that
/// stay.
pub open spec fn orders_stepped(
    k: Knobs,
    b: Book,
    orders: Seq<PendingFill>,
    quotes: Seq<OrderQuote>,
    c: Candle,
    n: nat,
) -> Book
    decreases n,
{
    if n == 0 {
        Book { pending: Seq::empty(), ..b }
    } else {
        let before = orders_stepped(k, b, orders, quotes, c, (n - 1) as nat);
        order_step(k, before, orders[n - 1], quotes[n - 1], c)
    }
}

/// What a candle does to the resting orders.
pub open spec fn pending_stepped(k: Knobs, b: Book, quotes: Seq<OrderQuote>, c: Candle) -> Book {
    orders_stepped(k, b, b.pending, quotes, c, b.pending.len())
}

impl PaperTrader {
    /// Advance every resting order by one candle: fill it, drop it, or keep
    /// it waiting, by the model the knobs choose.
    pub(crate) fn process_pending_fills(&mut self, candle: &Candle, quotes: &Vec<OrderQuote>)
        requires
            old(self).wf(),
            quotes@.len() == old(self)@.pending.len(),
            counters_room(old(self)@.counters, old(self)@.pending.len() as int),
        ensures
            final(self).wf(),
            final(self).knobs == old(self).knobs,
            final(self)@ == pending_stepped(old(self).knobs, old(self)@, quotes@, *candle),
    {
        if self.knobs.hybrid_fill {
            self.process_pending_fills_hybrid(candle, quotes);
        } else {
            self.process_pending_fills_limit(candle, quotes);
        }
    }

    fn process_pending_fills_limit(&mut self, candle: &Candle, quotes: &Vec<OrderQuote>)
        requires
            old(self).wf(),
            !old(self).knobs.hybrid_fill,
            quotes@.len() == old(self)@.pending.len(),
        ensures
            final(self).wf(),
            final(self).knobs == old(self).knobs,
            final(self)@ == pending_stepped(old(self).knobs, old(self)@, quotes@, *candle),
    {
        let mut orders: Vec<PendingFill> = Vec::new();
        std::mem::swap(&mut self.pending, &mut orders);
        let ghost b0 = old(self)@;
        let ghost k = old(self).knobs;
        let mut i: usize = 0;
        while i < orders.len()
            invariant
                self.wf(),
                self.knobs == k,
                !k.hybrid_fill,
                orders@ == b0.pending,
                quotes@.len() == orders@.len(),
                i <= orders@.len(),
                self@ == orders_stepped(k, b0, orders@, quotes@, *candle, i as nat),
            decreases orders@.len() - i,
        {
            self.limit_order(&orders[i], &quotes[i], candle);
            i = i + 1;
        }
    }

    fn limit_order(&mut self, p: &PendingFill, q: &OrderQuote, candle: &Candle)
        requires
            old(self).wf(),
        ensures
            final(self).wf(),
            final(self).knobs == old(self).knobs,
            final(self)@ == limit_step(old(self).knobs, old(self)@, *p, *q, *candle),
    {
        if p.trade.asset != candle.asset {
            self.pending.push(p.dup());
            return;
        }
        if candle.timestamp > p.deadline {
            self.end_resting(&p.trade.opportunity_id, candle.timestamp);
            return;
        }
        match fill_action(
            p.trade.direction,
            p.trade.entry,
            q.slipped,
            candle,
            !p.seen_first_candle,
            self.knobs.allow_signal_bar_fill,
        ) {
            Some(px) => {
                self.end_resting(&p.trade.opportunity_id, candle.timestamp);
                self.book_fill(&p.trade, px, EntryFeeSide::Maker, candle.timestamp);
            },
            None => {
                let mut waiting = p.dup();
                waiting.seen_first_candle = true;
                self.pending.push(waiting);
            },
        }
    }

    fn process_pending_fills_hybrid(&mut self, candle: &Candle, quotes: &Vec<OrderQuote>)
        requires
            old(self).wf(),
            old(self).knobs.hybrid_fill,
            quotes@.len() == old(self)@.pending.len(),
            counters_room(old(self)@.counters, old(self)@.pending.len() as int),
        ensures
            final(self).wf(),
            final(self).knobs == old(self).knobs,
            final(self)@ == pending_stepped(old(self).knobs, old(self)@, quotes@, *candle),
    {
        let mut orders: Vec<PendingFill> = Vec::new();
        std::mem::swap(&mut self.pending, &mut orders);
        let ghost b0 = old(self)@;
        let ghost k = old(self).knobs;
        let mut i: usize = 0;
        while i < orders.len()
            invariant
                self.wf(),
                self.knobs == k,
                k.hybrid_fill,
                orders@ == b0.pending,
                quotes@.len() == orders@.len(),
                i <= orders@.len(),
                counters_room(self@.counters, orders@.len() - i),
                self@ == orders_stepped(k, b0, orders@, quotes@, *candle, i as nat),
            decreases orders@.len() - i,
        {
            self.hybrid_order(&orders[i], &quotes[i], candle);
            i = i + 1;
        }
    }

    fn hybrid_order(&mut self, p: &PendingFill, q: &OrderQuote, candle: &Candle)
        requires
            old(self).wf(),
            counters_room(old(self)@.counters, 1),
        ensures
            final(self).wf(),
            final(self).knobs == old(self).knobs,
            final(self)@ == hybrid_step(old(self).knobs, old(self)@, *p, *q, *candle),
            forall|n: int|
                counters_room(old(self)@.counters, n) && n >= 1 ==> #[trigger] counters_room(
                    final(self)@.counters,
                    n - 1,
                ),
    {
        if p.trade.asset != candle.asset {
            self.pending.push(p.dup());
            return;
        }
        if let Some(reason) = p.cancel_pending {
            self.hybrid_counters.add_abandon(reason);
            self.end_resting(&p.trade.opportunity_id, candle.timestamp);
            return;
        }
        if !p.seen_first_candle {
            self.hybrid_first_bar(p, candle);
            return;
        }
        if candle.timestamp > p.deadline {
            self.hybrid_counters.abandon_deadline = self.hybrid_counters.abandon_deadline + 1;
            self.end_resting(&p.trade.opportunity_id, candle.timestamp);
            return;
        }
        self.hybrid_next_bar(p, q, candle);
    }

    fn note_first_touch(&mut self, p: &PendingFill, candle: &Candle)
        requires
            old(self).wf(),
            old(self)@.counters.first_touch_stop_fills < usize::MAX,
        ensures
            final(self).wf(),
            final(self).knobs == old(self).knobs,
            final(self)@ == first_touch_noted(old(self)@, *p, *candle),
    {
        if is_down_to(p.trade.direction, worst(p.trade.direction, candle), p.trade.stop) {
            self.hybrid_counters.first_touch_stop_fills =
            self.hybrid_counters.first_touch_stop_fills + 1;
            self.ids.first_touch_ids.insert(p.trade.opportunity_id.clone(), ());
        }
    }

    fn hybrid_first_bar(&mut self, p: &PendingFill, candle: &Candle)
        requires
            old(self).wf(),
            counters_room(old(self)@.counters, 1),
        ensures
            final(self).wf(),
            final(self).knobs == old(self).knobs,
            final(self)@ == hybrid_signal_bar(old(self).knobs, old(self)@, *p, *candle),
            forall|n: int|
                counters_room(old(self)@.counters, n) && n >= 1 ==> #[trigger] counters_room(
                    final(self)@.counters,
                    n - 1,
                ),
    {
        let touched = is_down_to(
            p.trade.direction,
            worst(p.trade.direction, candle),
            p.trade.entry,
        );
        let lead_ok = match p.ready_at {
            Some(at) => seconds_between(at, p.trade.opened_at)
                >= self.knobs.rest_min_lead_secs as i128,
            None => false,
        };
        if self.knobs.rest_on_ready_fill && touched && lead_ok {
            self.hybrid_counters.rested_maker_fills = self.hybrid_counters.rested_maker_fills + 1;
            self.note_first_touch(p, candle);
            self.end_resting(&p.trade.opportunity_id, candle.timestamp);
            self.book_fill(&p.trade, p.trade.entry, EntryFeeSide::Maker, candle.timestamp);
            return;
        }
        let mut waiting = p.dup();
        waiting.seen_first_candle = true;
        waiting.age_anchor = Some(candle.timestamp);
        waiting.hybrid_armed = Some(
            !self.knobs.chase_requires_seed || touched || p.hybrid_pred_touch,
        );
        let flagged = self.flag_target_consumed(waiting, candle);
        self.pending.push(flagged);
    }

    /// The verdict on an order after its signal bar, and the order as the bar
    /// leaves it should it wait.
    fn decide_later_bar(&self, p: &PendingFill, q: &OrderQuote, candle: &Candle) -> (r: (
        HybridAction,
        PendingFill,
    ))
        ensures
            r.0 == verdict(self.knobs, *p, *q, *candle),
            r.1 == at_decision(self.knobs, *p, *q, *candle),
    {
        let is_decision_bar = !p.hybrid_seen_decision_bar;
        let mut waiting = p.dup();
        waiting.hybrid_seen_decision_bar = true;
        let since = match p.age_anchor {
            Some(at) => at,
            None => p.trade.opened_at,
        };
        let aged = seconds_between(since, candle.timestamp) > HYBRID_ENTRY_MAX_AGE_SECS as i128;
        let armed = match p.hybrid_armed {
            Some(a) => a,
            None => false,
        };
        let levels = OrderLevels {
            entry: p.trade.entry,
            stop: p.trade.stop,
            tp: p.trade.tp,
            boundary: q.boundary,
        };
        let dir = p.trade.direction;
        if is_decision_bar && armed && self.knobs.deferred_chase_at_open
            && !self.knobs.immediate_chase_at_open {
            if !is_down_to(dir, candle.open, levels.entry) && is_down_to(
                dir,
                candle.open,
                levels.boundary,
            ) {
                waiting.hybrid_b0_open = Some(candle.open);
            }
        }
        let action = hybrid_fill_action(
            dir,
            levels,
            armed,
            self.knobs.immediate_chase_at_open,
            self.knobs.race_maker_first,
            waiting.hybrid_b0_open,
            self.knobs.past_entry_fee,
            candle,
            is_decision_bar,
            aged,
        );
        (action, waiting)
    }

    fn hybrid_next_bar(&mut self, p: &PendingFill, q: &OrderQuote, candle: &Candle)
        requires
            old(self).wf(),
            counters_room(old(self)@.counters, 1),
        ensures
            final(self).wf(),
            final(self).knobs == old(self).knobs,
            final(self)@ == hybrid_later_bar(old(self).knobs, old(self)@, *p, *q, *candle),
            forall|n: int|
                counters_room(old(self)@.counters, n) && n >= 1 ==> #[trigger] counters_room(
                    final(self)@.counters,
                    n - 1,
                ),
    {
        let (action, waiting) = self.decide_later_bar(p, q, candle);
        match action {
            HybridAction::Fill { px, side, path } => {
                self.hybrid_counters.add_fill(path);
                self.note_first_touch(p, candle);
                self.end_resting(&p.trade.opportunity_id, candle.timestamp);
                self.book_fill(&p.trade, px, side, candle.timestamp);
            },
            HybridAction::Wait => {
                let flagged = self.flag_target_consumed(waiting, candle);
                self.pending.push(flagged);
            },
            HybridAction::Abandon(reason) => {
                self.hybrid_counters.add_abandon(reason);
                self.end_resting(&p.trade.opportunity_id, candle.timestamp);
            },
        }
    }

    /// Flag an order whose target this completed bar closed past. It is asked
    /// after the fill attempt, so a touch on the same bar wins.
    fn flag_target_consumed(&self, p: PendingFill, candle: &Candle) -> (r: PendingFill)
        ensures
            r == target_flagged(self.knobs, p, *candle),
    {
        if !self.knobs.cancel_on_target_consumed || p.cancel_pending.is_some() {
            return p;
        }
        match p.min_target {
            Some(target) => {
                if is_down_to(p.trade.direction, target, candle.close) {
                    let mut flagged = p;
                    flagged.cancel_pending = Some(HybridAbandon::TargetConsumed);
                    flagged
                } else {
                    p
                }
            },
            None => p,
        }
    }
}

} // verus!
