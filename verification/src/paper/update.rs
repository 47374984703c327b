//! One completed candle, by its prints where there are any.
use vstd::prelude::*;
use crate::clock::Stamp;
use crate::models::{Candle, Tick};
use crate::paper::book::{Book, CloseTicket, Knobs, PaperTrader, TickTape};
use crate::paper::quote::BarQuotes;
use crate::paper::race::{bar_room, candle_applied, candle_tickets, clocks_room, quotes_fit};
use crate::paper::ticks::{bar_end_fits, bar_ends};
use crate::paper::walk::{print_quotes_fit, print_tickets, prints_applied};

verus! {

/// The prints the book has for a bar.
pub open spec fn prints_of(k: Knobs, tape: TickTape, bar_open: Stamp) -> Seq<Tick> {
    if k.tick_fill && tape.store is Some {
        tape.store->0.window(bar_open)
    } else {
        Seq::empty()
    }
}

/// The tape once the bar's prints were taken from it: the cursor is past
/// them, and a bar with prints counts as resolved, one without as fallen back.
pub open spec fn tape_advanced(k: Knobs, before: TickTape, after: TickTape, at: Stamp) -> bool {
    let prints = prints_of(k, before, at);
    if !k.tick_fill {
        after == before
    } else {
        &&& match (before.store, after.store) {
            (Some(s), Some(t)) => t.ticks@ == s.ticks@ && t.cursor == s.window_end(at),
            (None, None) => true,
            _ => false,
        }
        &&& after.resolved_bars == before.resolved_bars + if prints.len() > 0 {
            1int
        } else {
            0
        }
        &&& after.walked == before.walked + prints.len()
        &&& after.fallback_bars == before.fallback_bars + if prints.len() == 0 && before.store is Some {
            1int
        } else {
            0
        }
    }
}

/// The tape's counts can take in one more bar.
pub open spec fn tape_room(k: Knobs, tape: TickTape, at: Stamp) -> bool {
    &&& tape.resolved_bars < usize::MAX
    &&& tape.fallback_bars < usize::MAX
    &&& tape.walked + prints_of(k, tape, at).len() <= usize::MAX
}

/// Whether an order's cap may be chased: an override wins over the knob.
pub open spec fn chases(k: Knobs, chase_override: Option<bool>) -> bool {
    match chase_override {
        Some(b) => b,
        None => k.tick_chase,
    }
}

/// A candle applied to a book whose closes were cleared and whose tape was
/// advanced.
pub open spec fn bar_applied(
    k: Knobs,
    chase_override: Option<bool>,
    b: Book,
    q: BarQuotes,
    c: Candle,
    ticks: Seq<Tick>,
) -> Book {
    if ticks.len() > 0 {
        prints_applied(k, chases(k, chase_override), b, q, c, ticks)
    } else {
        candle_applied(k, b, q, c)
    }
}

/// The tickets of that candle's closes.
pub open spec fn bar_tickets(
    k: Knobs,
    chase_override: Option<bool>,
    b: Book,
    q: BarQuotes,
    c: Candle,
    ticks: Seq<Tick>,
) -> Seq<CloseTicket> {
    if ticks.len() > 0 {
        print_tickets(k, chases(k, chase_override), b, q, c, ticks)
    } else {
        candle_tickets(k, b, q, c)
    }
}

/// The quotes a bar needs: a favourable R per print, or one where there are
/// no prints.
pub open spec fn bar_quotes_fit(b: Book, q: BarQuotes, ticks: Seq<Tick>) -> bool {
    if ticks.len() > 0 {
        print_quotes_fit(b, q, ticks.len() as int)
    } else {
        quotes_fit(b, q)
    }
}

/// Where a bar's prints are looked up, the bar ends on the calendar.
pub open spec fn prints_fit(k: Knobs, tape: TickTape, bar_open: Stamp) -> bool {
    k.tick_fill && tape.store is Some ==> bar_end_fits(bar_open)
}

impl PaperTrader {
    /// The prints the next call of [`Self::update_prices`] will go by on this
    /// bar, for its quotes to be computed.
    pub fn bar_prints(&self, bar_open: Stamp) -> (r: Vec<Tick>)
        requires
            self.wf(),
            prints_fit(self.knobs, self.tape, bar_open),
        ensures
            r@ == prints_of(self.knobs, self.tape, bar_open),
    {
        if !self.knobs.tick_fill {
            return Vec::new();
        }
        match &self.tape.store {
            Some(s) => s.peek_bar(bar_open),
            None => Vec::new(),
        }
    }

    fn clocks_can_count(&self, n: usize) -> (r: bool)
        ensures
            r == clocks_room(self@.ids.clocks, n as int),
    {
        let ids = self.ids.hold_counts.keys();
        let mut i: usize = 0;
        while i < ids.len()
            invariant
                i <= ids@.len(),
                forall|j: int|
                    0 <= j < ids@.len() ==> self@.ids.clocks.contains_key((#[trigger] ids@[j])@),
                forall|j: int|
                    0 <= j < i ==> self@.ids.clocks[(#[trigger] ids@[j])@].candles_held + n
                        <= usize::MAX,
            decreases ids@.len() - i,
        {
            assert(self@.ids.clocks.contains_key(ids@[i as int]@));
            match self.ids.hold_counts.get(&ids[i]) {
                Some(clock) => {
                    if clock.candles_held > usize::MAX - n {
                        return false;
                    }
                },
                None => {},
            }
            i = i + 1;
        }
        true
    }

    /// Whether the book can take this candle in: the counts can grow, and the
    /// end of a bar whose prints are looked up is on the calendar.
    pub fn has_room(&self, candle: &Candle) -> (r: bool)
        requires
            self.wf(),
        ensures
            r == (prints_fit(self.knobs, self.tape, candle.timestamp) && tape_room(
                self.knobs,
                self.tape,
                candle.timestamp,
            ) && bar_room(self@)),
    {
        if self.knobs.tick_fill && self.tape.store.is_some() && !bar_ends(candle.timestamp) {
            return false;
        }
        let prints: usize = self.bar_prints(candle.timestamp).len();
        self.tape.resolved_bars < usize::MAX && self.tape.fallback_bars < usize::MAX
            && self.tape.walked <= usize::MAX - prints && self.hybrid_counters.can_grow(
            self.pending.len(),
        ) && self.clocks_can_count(self.open_trades.len())
    }

    fn take_prints(&mut self, bar_open: Stamp) -> (r: Vec<Tick>)
        requires
            old(self).wf(),
            old(self).knobs.tick_fill,
            prints_fit(old(self).knobs, old(self).tape, bar_open),
            tape_room(old(self).knobs, old(self).tape, bar_open),
        ensures
            final(self).wf(),
            final(self).knobs == old(self).knobs,
            r@ == prints_of(old(self).knobs, old(self).tape, bar_open),
            tape_advanced(old(self).knobs, old(self).tape, final(self).tape, bar_open),
            final(self)@ == (Book { tape: final(self).tape, ..old(self)@ }),
    {
        let prints = match &mut self.tape.store {
            Some(s) => s.ticks_for_bar(bar_open),
            None => Vec::new(),
        };
        if prints.len() > 0 {
            self.tape.resolved_bars = self.tape.resolved_bars + 1;
            self.tape.walked = self.tape.walked + prints.len();
        } else if self.tape.store.is_some() {
            self.tape.fallback_bars = self.tape.fallback_bars + 1;
        }
        prints
    }

    /// Apply one completed candle, by its prints where the book has any and
    /// the knobs ask for them, else by its range. Returns the tickets of the
    /// closes, whose costs are then settled one by one.
    pub fn update_prices(
        &mut self,
        candle: &Candle,
        quotes: &BarQuotes,
        chase_override: Option<bool>,
    ) -> (r: Vec<CloseTicket>)
        requires
            old(self).wf(),
            prints_fit(old(self).knobs, old(self).tape, candle.timestamp),
            tape_room(old(self).knobs, old(self).tape, candle.timestamp),
            bar_quotes_fit(
                old(self)@,
                *quotes,
                prints_of(old(self).knobs, old(self).tape, candle.timestamp),
            ),
            bar_room(old(self)@),
        ensures
            final(self).wf(),
            final(self).knobs == old(self).knobs,
            tape_advanced(
                old(self).knobs,
                old(self).tape,
                final(self).tape,
                candle.timestamp,
            ),
            ({
                let ticks = prints_of(old(self).knobs, old(self).tape, candle.timestamp);
                let b = Book { closed: Seq::empty(), tape: final(self).tape, ..old(self)@ };
                &&& final(self)@ == bar_applied(
                    old(self).knobs,
                    chase_override,
                    b,
                    *quotes,
                    *candle,
                    ticks,
                )
                &&& r@ == bar_tickets(
                    old(self).knobs,
                    chase_override,
                    b,
                    *quotes,
                    *candle,
                    ticks,
                )
            }),
    {
        self.closed_this_bar.clear();
        if self.knobs.tick_fill {
            let prints = self.take_prints(candle.timestamp);
            if prints.len() > 0 {
                let chase = match chase_override {
                    Some(b) => b,
                    None => self.knobs.tick_chase,
                };
                let ghost b = self@;
                let r = self.update_prices_tick(candle, &prints, quotes, chase);
                proof {
                    crate::paper::laws::lemma_prints_keep_tape(
                        self.knobs,
                        chase,
                        b,
                        *quotes,
                        *candle,
                        prints@,
                    );
                }
                return r;
            }
        }
        let ghost b = self@;
        let r = self.update_prices_ohlc(candle, quotes);
        proof {
            crate::paper::laws::lemma_candle_keeps_tape(self.knobs, b, *quotes, *candle);
        }
        r
    }
}

} // verus!
