//! One asset's trade prints, walked bar by bar.
use vstd::prelude::*;
use crate::clock::{is_on_calendar_after, on_calendar, shift, shifted, Stamp};
use crate::models::Tick;

verus! {

/// The first place at or after `from` whose print is not before `at`.
pub open spec fn first_not_before(ticks: Seq<Tick>, from: int, at: int) -> int
    decreases ticks.len() - from,
{
    if from >= ticks.len() || ticks[from].timestamp >= at {
        from
    } else {
        first_not_before(ticks, from + 1, at)
    }
}

/// Prints in time order and a cursor that only moves forward.
#[derive(Debug, Clone)]
pub struct TickStore {
    pub ticks: Vec<Tick>,
    pub cursor: usize,
}

/// The end of a one-minute bar.
pub open spec fn bar_end(bar_open: Stamp) -> int {
    shifted(bar_open as int, 60)
}

/// A one-minute bar ends on the calendar.
pub open spec fn bar_end_fits(bar_open: Stamp) -> bool {
    on_calendar(bar_end(bar_open))
}

/// Whether a one-minute bar ends on the calendar.
pub fn bar_ends(bar_open: Stamp) -> (r: bool)
    ensures
        r == bar_end_fits(bar_open),
{
    is_on_calendar_after(bar_open, 60)
}

impl TickStore {
    /// The cursor is a place among the prints or their end.
    pub open spec fn wf(&self) -> bool {
        self.cursor <= self.ticks@.len()
    }

    /// Where the bar's prints begin.
    pub open spec fn window_start(&self, bar_open: Stamp) -> int {
        first_not_before(self.ticks@, self.cursor as int, bar_open as int)
    }

    /// Where the bar's prints end.
    pub open spec fn window_end(&self, bar_open: Stamp) -> int {
        first_not_before(self.ticks@, self.window_start(bar_open), bar_end(bar_open))
    }

    /// The prints of the one-minute bar, from the cursor on.
    pub open spec fn window(&self, bar_open: Stamp) -> Seq<Tick> {
        self.ticks@.subrange(self.window_start(bar_open), self.window_end(bar_open))
    }

    pub fn new(ticks: Vec<Tick>) -> (r: Self)
        ensures
            r.wf(),
            r.ticks@ == ticks@,
            r.cursor == 0,
    {
        TickStore { ticks, cursor: 0 }
    }

    pub fn len(&self) -> (r: usize)
        ensures
            r == self.ticks@.len(),
    {
        self.ticks.len()
    }

    pub fn is_empty(&self) -> (r: bool)
        ensures
            r == (self.ticks@.len() == 0),
    {
        self.ticks.len() == 0
    }

    fn seek(&self, from: usize, at: Stamp) -> (r: usize)
        requires
            from <= self.ticks@.len(),
        ensures
            from <= r <= self.ticks@.len(),
            r == first_not_before(self.ticks@, from as int, at as int),
    {
        let mut i: usize = from;
        while i < self.ticks.len() && self.ticks[i].timestamp < at
            invariant
                from <= i <= self.ticks@.len(),
                first_not_before(self.ticks@, i as int, at as int) == first_not_before(
                    self.ticks@,
                    from as int,
                    at as int,
                ),
            decreases self.ticks.len() - i,
        {
            i = i + 1;
        }
        i
    }

    /// The bar's prints, with the cursor left where it is.
    pub fn peek_bar(&self, bar_open: Stamp) -> (r: Vec<Tick>)
        requires
            self.wf(),
            bar_end_fits(bar_open),
        ensures
            r@ == self.window(bar_open),
    {
        let lo: usize = self.seek(self.cursor, bar_open);
        let hi: usize = self.seek(lo, shift(bar_open, 60));
        let mut out: Vec<Tick> = Vec::new();
        let mut i: usize = lo;
        while i < hi
            invariant
                lo <= i <= hi <= self.ticks@.len(),
                out@ == self.ticks@.subrange(lo as int, i as int),
            decreases hi - i,
        {
            out.push(self.ticks[i]);
            i = i + 1;
            proof {
                assert(out@ =~= self.ticks@.subrange(lo as int, i as int));
            }
        }
        out
    }

    /// The bar's prints; the cursor moves past them. Asked in ascending bar
    /// order, each print is handed out at most once.
    pub fn ticks_for_bar(&mut self, bar_open: Stamp) -> (r: Vec<Tick>)
        requires
            old(self).wf(),
            bar_end_fits(bar_open),
        ensures
            final(self).wf(),
            final(self).ticks@ == old(self).ticks@,
            final(self).cursor == old(self).window_end(bar_open),
            r@ == old(self).window(bar_open),
    {
        let out = self.peek_bar(bar_open);
        let lo: usize = self.seek(self.cursor, bar_open);
        self.cursor = self.seek(lo, shift(bar_open, 60));
        out
    }
}

proof fn lemma_first_not_before(ticks: Seq<Tick>, from: int, at: int)
    requires
        0 <= from <= ticks.len(),
    ensures
        from <= first_not_before(ticks, from, at) <= ticks.len(),
        forall|i: int|
            from <= i < first_not_before(ticks, from, at) ==> (#[trigger] ticks[i]).timestamp < at,
        first_not_before(ticks, from, at) < ticks.len() ==> ticks[first_not_before(
            ticks,
            from,
            at,
        )].timestamp >= at,
    decreases ticks.len() - from,
{
    if from < ticks.len() && ticks[from].timestamp < at {
        lemma_first_not_before(ticks, from + 1, at);
    }
}

/// Among prints in time order, a bar's window holds exactly the prints that
/// were not handed out yet and fall in its minute.
pub proof fn law_window_is_the_minute(store: TickStore, bar_open: Stamp, i: int)
    requires
        store.wf(),
        bar_end_fits(bar_open),
        store.cursor <= i < store.ticks@.len(),
        forall|a: int, b: int|
            0 <= a <= b < store.ticks@.len() ==> (#[trigger] store.ticks@[a]).timestamp <= (
            #[trigger] store.ticks@[b]).timestamp,
    ensures
        store.window_start(bar_open) <= i < store.window_end(bar_open) <==> bar_open
            <= store.ticks@[i].timestamp < bar_end(bar_open),
{
    lemma_first_not_before(store.ticks@, store.cursor as int, bar_open as int);
    lemma_first_not_before(
        store.ticks@,
        store.window_start(bar_open),
        bar_end(bar_open),
    );
}

} // verus!
