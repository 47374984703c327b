//! How long a position may stay open.
use vstd::prelude::*;

verus! {

/// Whether a position's hold limit was reached on this bar.
#[derive(Debug, Clone, Copy, PartialEq, Eq, Structural)]
pub enum HoldTick {
    Hold,
    Timeout,
}

/// Bars a position has been held for.
#[derive(Debug, Clone, Copy, PartialEq, Eq, Structural)]
pub struct HoldClock {
    pub candles_held: usize,
}

impl Default for HoldClock {
    fn default() -> (r: Self)
        ensures
            r == (HoldClock { candles_held: 0 }),
    {
        HoldClock { candles_held: 0 }
    }
}

/// The verdict on a clock that has counted `held` bars.
pub open spec fn hold_verdict(held: int, max_hold: int) -> HoldTick {
    if held > max_hold {
        HoldTick::Timeout
    } else {
        HoldTick::Hold
    }
}

impl HoldClock {
    /// Count one more bar, then say whether the position has outlived
    /// `max_hold` bars.
    pub fn tick(&mut self, max_hold: usize) -> (r: HoldTick)
        requires
            old(self).candles_held < usize::MAX,
        ensures
            final(self).candles_held == old(self).candles_held + 1,
            *final(self) == ticked(*old(self)),
            r == hold_verdict(final(self).candles_held as int, max_hold as int),
    {
        self.candles_held = self.candles_held + 1;
        if self.candles_held > max_hold {
            HoldTick::Timeout
        } else {
            HoldTick::Hold
        }
    }
}

/// The clock after one tick.
pub open spec fn ticked(clock: HoldClock) -> HoldClock {
    HoldClock { candles_held: (clock.candles_held + 1) as usize }
}

/// A fresh clock after `n` ticks.
pub open spec fn clock_after(n: nat) -> HoldClock
    decreases n,
{
    if n == 0 {
        HoldClock { candles_held: 0 }
    } else {
        ticked(clock_after((n - 1) as nat))
    }
}

/// What each of the first `n` ticks of a fresh clock answers.
pub open spec fn verdicts(n: nat, max_hold: int) -> Seq<HoldTick>
    decreases n,
{
    if n == 0 {
        Seq::empty()
    } else {
        verdicts((n - 1) as nat, max_hold).push(
            hold_verdict(clock_after(n).candles_held as int, max_hold),
        )
    }
}

/// A position survives exactly `max_hold` bars: of the first `n` ticks of a
/// fresh clock every one up to the `max_hold`-th answers that it is held, and
/// every later one that it timed out.
pub proof fn law_survives_exactly_max_hold(n: nat, max_hold: nat)
    requires
        n <= usize::MAX,
    ensures
        clock_after(n).candles_held == n,
        verdicts(n, max_hold as int).len() == n,
        forall|i: int|
            0 <= i < n ==> (#[trigger] verdicts(n, max_hold as int)[i] == HoldTick::Hold <==> i
                < max_hold),
    decreases n,
{
    if n > 0 {
        law_survives_exactly_max_hold((n - 1) as nat, max_hold);
    }
}

} // verus!
