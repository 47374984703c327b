//! How often each route of the hybrid fill model was taken.
use vstd::prelude::*;
use crate::paper::fill::{HybridAbandon, HybridPath};

verus! {

/// Fill and abandon counts. Every booked hybrid order adds to exactly one
/// fill count, every dropped one to exactly one abandon count.
#[derive(Debug, Clone, Copy, PartialEq, Eq, Structural)]
pub struct HybridFillCounters {
    pub past_entry_fills: usize,
    pub immediate_chases: usize,
    pub deferred_chases: usize,
    pub boundary_chases_from_below: usize,
    pub boundary_chases_from_above: usize,
    pub maker_fills: usize,
    /// Maker fills on the signal bar itself, by an order that already rested.
    pub rested_maker_fills: usize,
    pub abandon_gap_stop: usize,
    pub abandon_tp_open: usize,
    pub abandon_tp_range: usize,
    pub abandon_age: usize,
    pub abandon_deadline: usize,
    pub abandon_target_consumed: usize,
    pub abandon_setup_invalidated: usize,
    /// Booked fills whose own bar also reached the stop.
    pub first_touch_stop_fills: usize,
    /// Their summed net R, in thousandths.
    pub first_touch_stop_r_milli: i64,
}

impl Default for HybridFillCounters {
    fn default() -> (r: Self)
        ensures
            r == zero_counters(),
    {
        HybridFillCounters {
            past_entry_fills: 0,
            immediate_chases: 0,
            deferred_chases: 0,
            boundary_chases_from_below: 0,
            boundary_chases_from_above: 0,
            maker_fills: 0,
            rested_maker_fills: 0,
            abandon_gap_stop: 0,
            abandon_tp_open: 0,
            abandon_tp_range: 0,
            abandon_age: 0,
            abandon_deadline: 0,
            abandon_target_consumed: 0,
            abandon_setup_invalidated: 0,
            first_touch_stop_fills: 0,
            first_touch_stop_r_milli: 0,
        }
    }
}

/// Nothing counted.
pub open spec fn zero_counters() -> HybridFillCounters {
    HybridFillCounters {
        past_entry_fills: 0,
        immediate_chases: 0,
        deferred_chases: 0,
        boundary_chases_from_below: 0,
        boundary_chases_from_above: 0,
        maker_fills: 0,
        rested_maker_fills: 0,
        abandon_gap_stop: 0,
        abandon_tp_open: 0,
        abandon_tp_range: 0,
        abandon_age: 0,
        abandon_deadline: 0,
        abandon_target_consumed: 0,
        abandon_setup_invalidated: 0,
        first_touch_stop_fills: 0,
        first_touch_stop_r_milli: 0,
    }
}

/// Every count can still grow by `n`.
pub open spec fn counters_room(c: HybridFillCounters, n: int) -> bool {
    &&& c.past_entry_fills + n <= usize::MAX
    &&& c.immediate_chases + n <= usize::MAX
    &&& c.deferred_chases + n <= usize::MAX
    &&& c.boundary_chases_from_below + n <= usize::MAX
    &&& c.boundary_chases_from_above + n <= usize::MAX
    &&& c.maker_fills + n <= usize::MAX
    &&& c.rested_maker_fills + n <= usize::MAX
    &&& c.abandon_gap_stop + n <= usize::MAX
    &&& c.abandon_tp_open + n <= usize::MAX
    &&& c.abandon_tp_range + n <= usize::MAX
    &&& c.abandon_age + n <= usize::MAX
    &&& c.abandon_deadline + n <= usize::MAX
    &&& c.abandon_target_consumed + n <= usize::MAX
    &&& c.abandon_setup_invalidated + n <= usize::MAX
    &&& c.first_touch_stop_fills + n <= usize::MAX
}

/// The counts after one fill by this route.
pub open spec fn count_fill(c: HybridFillCounters, path: HybridPath) -> HybridFillCounters {
    match path {
        HybridPath::PastEntry => HybridFillCounters {
            past_entry_fills: (c.past_entry_fills + 1) as usize,
            ..c
        },
        HybridPath::ImmediateChase => HybridFillCounters {
            immediate_chases: (c.immediate_chases + 1) as usize,
            ..c
        },
        HybridPath::DeferredChase => HybridFillCounters {
            deferred_chases: (c.deferred_chases + 1) as usize,
            ..c
        },
        HybridPath::BoundaryFromBelow => HybridFillCounters {
            boundary_chases_from_below: (c.boundary_chases_from_below + 1) as usize,
            ..c
        },
        HybridPath::BoundaryFromAbove => HybridFillCounters {
            boundary_chases_from_above: (c.boundary_chases_from_above + 1) as usize,
            ..c
        },
        HybridPath::Maker => HybridFillCounters { maker_fills: (c.maker_fills + 1) as usize, ..c },
    }
}

/// The counts after one order was given up for this reason.
pub open spec fn count_abandon(
    c: HybridFillCounters,
    reason: HybridAbandon,
) -> HybridFillCounters {
    match reason {
        HybridAbandon::GapStop => HybridFillCounters {
            abandon_gap_stop: (c.abandon_gap_stop + 1) as usize,
            ..c
        },
        HybridAbandon::TpOpen => HybridFillCounters {
            abandon_tp_open: (c.abandon_tp_open + 1) as usize,
            ..c
        },
        HybridAbandon::TpRange => HybridFillCounters {
            abandon_tp_range: (c.abandon_tp_range + 1) as usize,
            ..c
        },
        HybridAbandon::Age => HybridFillCounters { abandon_age: (c.abandon_age + 1) as usize, ..c },
        HybridAbandon::TargetConsumed => HybridFillCounters {
            abandon_target_consumed: (c.abandon_target_consumed + 1) as usize,
            ..c
        },
        HybridAbandon::SetupInvalidated => HybridFillCounters {
            abandon_setup_invalidated: (c.abandon_setup_invalidated + 1) as usize,
            ..c
        },
    }
}

/// The sums of two books' counts, field by field.
pub open spec fn merged(a: HybridFillCounters, b: HybridFillCounters) -> HybridFillCounters {
    HybridFillCounters {
        past_entry_fills: (a.past_entry_fills + b.past_entry_fills) as usize,
        immediate_chases: (a.immediate_chases + b.immediate_chases) as usize,
        deferred_chases: (a.deferred_chases + b.deferred_chases) as usize,
        boundary_chases_from_below: (a.boundary_chases_from_below
            + b.boundary_chases_from_below) as usize,
        boundary_chases_from_above: (a.boundary_chases_from_above
            + b.boundary_chases_from_above) as usize,
        maker_fills: (a.maker_fills + b.maker_fills) as usize,
        rested_maker_fills: (a.rested_maker_fills + b.rested_maker_fills) as usize,
        abandon_gap_stop: (a.abandon_gap_stop + b.abandon_gap_stop) as usize,
        abandon_tp_open: (a.abandon_tp_open + b.abandon_tp_open) as usize,
        abandon_tp_range: (a.abandon_tp_range + b.abandon_tp_range) as usize,
        abandon_age: (a.abandon_age + b.abandon_age) as usize,
        abandon_deadline: (a.abandon_deadline + b.abandon_deadline) as usize,
        abandon_target_consumed: (a.abandon_target_consumed + b.abandon_target_consumed) as usize,
        abandon_setup_invalidated: (a.abandon_setup_invalidated
            + b.abandon_setup_invalidated) as usize,
        first_touch_stop_fills: (a.first_touch_stop_fills + b.first_touch_stop_fills) as usize,
        first_touch_stop_r_milli: (a.first_touch_stop_r_milli + b.first_touch_stop_r_milli) as i64,
    }
}

/// The sums fit.
pub open spec fn can_merge(a: HybridFillCounters, b: HybridFillCounters) -> bool {
    &&& a.past_entry_fills + b.past_entry_fills <= usize::MAX
    &&& a.immediate_chases + b.immediate_chases <= usize::MAX
    &&& a.deferred_chases + b.deferred_chases <= usize::MAX
    &&& a.boundary_chases_from_below + b.boundary_chases_from_below <= usize::MAX
    &&& a.boundary_chases_from_above + b.boundary_chases_from_above <= usize::MAX
    &&& a.maker_fills + b.maker_fills <= usize::MAX
    &&& a.rested_maker_fills + b.rested_maker_fills <= usize::MAX
    &&& a.abandon_gap_stop + b.abandon_gap_stop <= usize::MAX
    &&& a.abandon_tp_open + b.abandon_tp_open <= usize::MAX
    &&& a.abandon_tp_range + b.abandon_tp_range <= usize::MAX
    &&& a.abandon_age + b.abandon_age <= usize::MAX
    &&& a.abandon_deadline + b.abandon_deadline <= usize::MAX
    &&& a.abandon_target_consumed + b.abandon_target_consumed <= usize::MAX
    &&& a.abandon_setup_invalidated + b.abandon_setup_invalidated <= usize::MAX
    &&& a.first_touch_stop_fills + b.first_touch_stop_fills <= usize::MAX
    &&& i64::MIN <= a.first_touch_stop_r_milli + b.first_touch_stop_r_milli <= i64::MAX
}

impl HybridFillCounters {
    /// Whether every count can still grow by `n`.
    pub fn can_grow(&self, n: usize) -> (r: bool)
        ensures
            r == counters_room(*self, n as int),
    {
        let most: usize = usize::MAX - n;
        self.past_entry_fills <= most
            && self.immediate_chases <= most
            && self.deferred_chases <= most
            && self.boundary_chases_from_below <= most
            && self.boundary_chases_from_above <= most
            && self.maker_fills <= most
            && self.rested_maker_fills <= most
            && self.abandon_gap_stop <= most
            && self.abandon_tp_open <= most
            && self.abandon_tp_range <= most
            && self.abandon_age <= most
            && self.abandon_deadline <= most
            && self.abandon_target_consumed <= most
            && self.abandon_setup_invalidated <= most
            && self.first_touch_stop_fills <= most
    }

    /// Whether the sums with another book's counts fit.
    pub fn can_take(&self, o: &HybridFillCounters) -> (r: bool)
        ensures
            r == can_merge(*self, *o),
    {
        let milli: i128 = self.first_touch_stop_r_milli as i128 + o.first_touch_stop_r_milli as i128;
        o.past_entry_fills <= usize::MAX - self.past_entry_fills
            && o.immediate_chases <= usize::MAX - self.immediate_chases
            && o.deferred_chases <= usize::MAX - self.deferred_chases
            && o.boundary_chases_from_below <= usize::MAX - self.boundary_chases_from_below
            && o.boundary_chases_from_above <= usize::MAX - self.boundary_chases_from_above
            && o.maker_fills <= usize::MAX - self.maker_fills
            && o.rested_maker_fills <= usize::MAX - self.rested_maker_fills
            && o.abandon_gap_stop <= usize::MAX - self.abandon_gap_stop
            && o.abandon_tp_open <= usize::MAX - self.abandon_tp_open
            && o.abandon_tp_range <= usize::MAX - self.abandon_tp_range
            && o.abandon_age <= usize::MAX - self.abandon_age
            && o.abandon_deadline <= usize::MAX - self.abandon_deadline
            && o.abandon_target_consumed <= usize::MAX - self.abandon_target_consumed
            && o.abandon_setup_invalidated <= usize::MAX - self.abandon_setup_invalidated
            && o.first_touch_stop_fills <= usize::MAX - self.first_touch_stop_fills
            && i64::MIN as i128 <= milli
            && milli <= i64::MAX as i128
    }

    /// Add another book's counts.
    pub fn merge(&mut self, o: &HybridFillCounters)
        requires
            can_merge(*old(self), *o),
        ensures
            *final(self) == merged(*old(self), *o),
    {
        self.past_entry_fills = self.past_entry_fills + o.past_entry_fills;
        self.immediate_chases = self.immediate_chases + o.immediate_chases;
        self.deferred_chases = self.deferred_chases + o.deferred_chases;
        self.boundary_chases_from_below =
        self.boundary_chases_from_below + o.boundary_chases_from_below;
        self.boundary_chases_from_above =
        self.boundary_chases_from_above + o.boundary_chases_from_above;
        self.maker_fills = self.maker_fills + o.maker_fills;
        self.rested_maker_fills = self.rested_maker_fills + o.rested_maker_fills;
        self.abandon_gap_stop = self.abandon_gap_stop + o.abandon_gap_stop;
        self.abandon_tp_open = self.abandon_tp_open + o.abandon_tp_open;
        self.abandon_tp_range = self.abandon_tp_range + o.abandon_tp_range;
        self.abandon_age = self.abandon_age + o.abandon_age;
        self.abandon_deadline = self.abandon_deadline + o.abandon_deadline;
        self.abandon_target_consumed = self.abandon_target_consumed + o.abandon_target_consumed;
        self.abandon_setup_invalidated =
        self.abandon_setup_invalidated + o.abandon_setup_invalidated;
        self.first_touch_stop_fills = self.first_touch_stop_fills + o.first_touch_stop_fills;
        self.first_touch_stop_r_milli = self.first_touch_stop_r_milli + o.first_touch_stop_r_milli;
    }

    /// Count a fill.
    pub fn add_fill(&mut self, path: HybridPath)
        requires
            counters_room(*old(self), 1),
        ensures
            *final(self) == count_fill(*old(self), path),
    {
        match path {
            HybridPath::PastEntry => self.past_entry_fills = self.past_entry_fills + 1,
            HybridPath::ImmediateChase => self.immediate_chases = self.immediate_chases + 1,
            HybridPath::DeferredChase => self.deferred_chases = self.deferred_chases + 1,
            HybridPath::BoundaryFromBelow => self.boundary_chases_from_below =
            self.boundary_chases_from_below + 1,
            HybridPath::BoundaryFromAbove => self.boundary_chases_from_above =
            self.boundary_chases_from_above + 1,
            HybridPath::Maker => self.maker_fills = self.maker_fills + 1,
        }
    }

    /// Count an order given up.
    pub fn add_abandon(&mut self, reason: HybridAbandon)
        requires
            counters_room(*old(self), 1),
        ensures
            *final(self) == count_abandon(*old(self), reason),
    {
        match reason {
            HybridAbandon::GapStop => self.abandon_gap_stop = self.abandon_gap_stop + 1,
            HybridAbandon::TpOpen => self.abandon_tp_open = self.abandon_tp_open + 1,
            HybridAbandon::TpRange => self.abandon_tp_range = self.abandon_tp_range + 1,
            HybridAbandon::Age => self.abandon_age = self.abandon_age + 1,
            HybridAbandon::TargetConsumed => self.abandon_target_consumed =
            self.abandon_target_consumed + 1,
            HybridAbandon::SetupInvalidated => self.abandon_setup_invalidated =
            self.abandon_setup_invalidated + 1,
        }
    }
}

/// How many fills were counted, by any route.
pub open spec fn fills_counted(c: HybridFillCounters) -> int {
    c.past_entry_fills + c.immediate_chases + c.deferred_chases + c.boundary_chases_from_below
        + c.boundary_chases_from_above + c.maker_fills + c.rested_maker_fills
}

/// How many orders were counted as given up, for any reason.
pub open spec fn abandons_counted(c: HybridFillCounters) -> int {
    c.abandon_gap_stop + c.abandon_tp_open + c.abandon_tp_range + c.abandon_age
        + c.abandon_deadline + c.abandon_target_consumed + c.abandon_setup_invalidated
}

/// The order in which books are merged does not matter.
pub proof fn law_merge_commutes(a: HybridFillCounters, b: HybridFillCounters)
    ensures
        merged(a, b) == merged(b, a),
{
}

/// Nor does their grouping.
pub proof fn law_merge_associates(
    a: HybridFillCounters,
    b: HybridFillCounters,
    c: HybridFillCounters,
)
    requires
        can_merge(a, b),
        can_merge(b, c),
        can_merge(merged(a, b), c),
        can_merge(a, merged(b, c)),
    ensures
        merged(merged(a, b), c) == merged(a, merged(b, c)),
{
}

/// Merging adds the totals, and an empty count adds nothing.
pub proof fn law_merge_adds_totals(a: HybridFillCounters, b: HybridFillCounters)
    requires
        can_merge(a, b),
    ensures
        fills_counted(merged(a, b)) == fills_counted(a) + fills_counted(b),
        abandons_counted(merged(a, b)) == abandons_counted(a) + abandons_counted(b),
        merged(a, zero_counters()) == a,
{
}

/// A fill adds one to the fills alone, an abandon one to the abandons alone.
pub proof fn law_each_event_counts_once(
    c: HybridFillCounters,
    path: HybridPath,
    reason: HybridAbandon,
)
    requires
        counters_room(c, 1),
    ensures
        fills_counted(count_fill(c, path)) == fills_counted(c) + 1,
        abandons_counted(count_fill(c, path)) == abandons_counted(c),
        fills_counted(count_abandon(c, reason)) == fills_counted(c),
        abandons_counted(count_abandon(c, reason)) == abandons_counted(c) + 1,
{
}

} // verus!
