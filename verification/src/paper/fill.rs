//! Whether a bar fills a resting entry order, and at what price.
use vstd::prelude::*;
use crate::fees::EntryFeeSide;
use crate::key::Num;
use crate::models::{Candle, Direction};

verus! {

/// `a` is no better than `b` for a trade of this direction: at or below it
/// for a bull, at or above it for a bear. A bull enters by falling to its
/// entry and stops out by falling further.
pub open spec fn down_to(dir: Direction, a: Num, b: Num) -> bool {
    match dir {
        Direction::Bull => a <= b,
        Direction::Bear => a >= b,
    }
}

/// The bar's extreme against the trade.
pub open spec fn worst_of(dir: Direction, c: Candle) -> Num {
    match dir {
        Direction::Bull => c.low,
        Direction::Bear => c.high,
    }
}

/// The bar's extreme in favour of the trade.
pub open spec fn best_of(dir: Direction, c: Candle) -> Num {
    match dir {
        Direction::Bull => c.high,
        Direction::Bear => c.low,
    }
}

/// See [`down_to`].
pub fn is_down_to(dir: Direction, a: Num, b: Num) -> (r: bool)
    ensures
        r == down_to(dir, a, b),
{
    match dir {
        Direction::Bull => a <= b,
        Direction::Bear => a >= b,
    }
}

/// See [`worst_of`].
pub fn worst(dir: Direction, c: &Candle) -> (r: Num)
    ensures
        r == worst_of(dir, *c),
{
    match dir {
        Direction::Bull => c.low,
        Direction::Bear => c.high,
    }
}

/// See [`best_of`].
pub fn best(dir: Direction, c: &Candle) -> (r: Num)
    ensures
        r == best_of(dir, *c),
{
    match dir {
        Direction::Bull => c.high,
        Direction::Bear => c.low,
    }
}

/// Whether the bar traded to `level` against the trade.
pub open spec fn touches(dir: Direction, c: Candle, level: Num) -> bool {
    down_to(dir, worst_of(dir, c), level)
}

/// The limit model's verdict on one bar: the slipped entry price when the bar
/// is eligible and trades to the entry.
pub open spec fn limit_fill(
    dir: Direction,
    entry: Num,
    slipped: Num,
    c: Candle,
    is_signal_bar: bool,
    allow_signal_bar_fill: bool,
) -> Option<Num> {
    if (is_signal_bar ==> allow_signal_bar_fill) && touches(dir, c, entry) {
        Some(slipped)
    } else {
        None
    }
}

/// Whether, and at what price, a bar fills a resting limit. `slipped` is the
/// entry moved toward the losing side by the configured slippage; the bar the
/// signal formed on is ineligible unless `allow_signal_bar_fill` is set.
pub fn fill_action(
    dir: Direction,
    entry: Num,
    slipped: Num,
    candle: &Candle,
    is_signal_bar: bool,
    allow_signal_bar_fill: bool,
) -> (r: Option<Num>)
    ensures
        r == limit_fill(dir, entry, slipped, *candle, is_signal_bar, allow_signal_bar_fill),
{
    if is_signal_bar && !allow_signal_bar_fill {
        return None;
    }
    if !is_down_to(dir, worst(dir, candle), entry) {
        return None;
    }
    Some(slipped)
}

/// Which route a hybrid fill took.
#[derive(Debug, Clone, Copy, PartialEq, Eq, Structural)]
pub enum HybridPath {
    /// The decision bar opened at or past the entry.
    PastEntry,
    /// A chase at the decision bar's open.
    ImmediateChase,
    /// A chase booked later at the decision bar's carried open.
    DeferredChase,
    /// The cap was reached from the entry's side.
    BoundaryFromBelow,
    /// Price came back to the cap from beyond it.
    BoundaryFromAbove,
    /// The limit was hit at its price.
    Maker,
}

/// Why a hybrid order was given up.
#[derive(Debug, Clone, Copy, PartialEq, Eq, Structural)]
pub enum HybridAbandon {
    GapStop,
    TpOpen,
    TpRange,
    Age,
    /// An earlier bar closed beyond the order's target.
    TargetConsumed,
    /// The setup was invalidated on an earlier bar.
    SetupInvalidated,
}

/// What one bar does to a hybrid order.
#[derive(Debug, Clone, Copy, PartialEq, Eq, Structural)]
pub enum HybridAction {
    Fill { px: Num, side: EntryFeeSide, path: HybridPath },
    Wait,
    Abandon(HybridAbandon),
}

/// A resting order's prices. `boundary` is the cap on a chase: the entry
/// moved by the chase distance away from the stop.
#[derive(Debug, Clone, Copy, PartialEq, Eq, Structural)]
pub struct OrderLevels {
    pub entry: Num,
    pub stop: Num,
    pub tp: Num,
    pub boundary: Num,
}

/// A taker fill at the carried open, or else the given action.
pub open spec fn carried_or(carry: Option<Num>, otherwise: HybridAction) -> HybridAction {
    match carry {
        Some(px) => HybridAction::Fill {
            px,
            side: EntryFeeSide::Taker,
            path: HybridPath::DeferredChase,
        },
        None => otherwise,
    }
}

/// A bar that opens short of the cap (or has no cap): the limit rests, and
/// the cap, if the order is armed, may be reached. Where one bar reaches both,
/// the chase at the cap comes first unless makers are said to; a chase that
/// carries an open always yields to the maker touch.
pub open spec fn resting_action(
    dir: Direction,
    l: OrderLevels,
    armed: bool,
    race_maker_first: bool,
    carry: Option<Num>,
    c: Candle,
) -> HybridAction {
    let at_entry = touches(dir, c, l.entry);
    let at_cap = armed && down_to(dir, l.boundary, best_of(dir, c));
    if at_cap && !((race_maker_first || carry is Some) && at_entry) {
        carried_or(
            carry,
            HybridAction::Fill {
                px: l.boundary,
                side: EntryFeeSide::Taker,
                path: HybridPath::BoundaryFromBelow,
            },
        )
    } else if at_entry {
        HybridAction::Fill { px: l.entry, side: EntryFeeSide::Maker, path: HybridPath::Maker }
    } else if !armed && down_to(dir, l.tp, best_of(dir, c)) {
        HybridAction::Abandon(HybridAbandon::TpRange)
    } else {
        HybridAction::Wait
    }
}

/// A bar that opens at or beyond the cap: price can only come back to the
/// cap, and a target reached in the same bar spoils that.
pub open spec fn beyond_cap_action(
    dir: Direction,
    l: OrderLevels,
    carry: Option<Num>,
    c: Candle,
) -> HybridAction {
    carried_or(
        carry,
        if down_to(dir, l.tp, best_of(dir, c)) {
            HybridAction::Abandon(HybridAbandon::TpRange)
        } else if touches(dir, c, l.boundary) {
            HybridAction::Fill {
                px: l.boundary,
                side: EntryFeeSide::Taker,
                path: HybridPath::BoundaryFromAbove,
            }
        } else {
            HybridAction::Wait
        },
    )
}

/// The hybrid model's verdict on the decision bar or a later one.
pub open spec fn hybrid_action(
    dir: Direction,
    l: OrderLevels,
    armed: bool,
    immediate_chase_at_open: bool,
    race_maker_first: bool,
    carry: Option<Num>,
    past_entry_fee: EntryFeeSide,
    c: Candle,
    is_decision_bar: bool,
    past_age: bool,
) -> HybridAction {
    if is_decision_bar && down_to(dir, c.open, l.entry) {
        if down_to(dir, c.open, l.stop) {
            HybridAction::Abandon(HybridAbandon::GapStop)
        } else {
            HybridAction::Fill { px: c.open, side: past_entry_fee, path: HybridPath::PastEntry }
        }
    } else if is_decision_bar && armed && immediate_chase_at_open && down_to(
        dir,
        c.open,
        l.boundary,
    ) {
        HybridAction::Fill {
            px: c.open,
            side: EntryFeeSide::Taker,
            path: HybridPath::ImmediateChase,
        }
    } else if past_age {
        carried_or(carry, HybridAction::Abandon(HybridAbandon::Age))
    } else if down_to(dir, l.tp, c.open) {
        carried_or(carry, HybridAction::Abandon(HybridAbandon::TpOpen))
    } else if armed && down_to(dir, l.boundary, c.open) {
        beyond_cap_action(dir, l, carry, c)
    } else {
        resting_action(dir, l, armed, race_maker_first, carry, c)
    }
}

fn carried_fill(carry: Option<Num>, otherwise: HybridAction) -> (r: HybridAction)
    ensures
        r == carried_or(carry, otherwise),
{
    match carry {
        Some(px) => HybridAction::Fill {
            px,
            side: EntryFeeSide::Taker,
            path: HybridPath::DeferredChase,
        },
        None => otherwise,
    }
}

/// What a bar does to a resting order that a chase watchdog looks after. The
/// signal bar is the caller's to leave out: this is asked on the decision bar
/// (the first one after it) and later ones. `carry` is the decision bar's
/// open, where a deferred chase carries it.
pub fn hybrid_fill_action(
    dir: Direction,
    levels: OrderLevels,
    armed: bool,
    immediate_chase_at_open: bool,
    race_maker_first: bool,
    carry: Option<Num>,
    past_entry_fee: EntryFeeSide,
    candle: &Candle,
    is_decision_bar: bool,
    past_age: bool,
) -> (r: HybridAction)
    ensures
        r == hybrid_action(
            dir,
            levels,
            armed,
            immediate_chase_at_open,
            race_maker_first,
            carry,
            past_entry_fee,
            *candle,
            is_decision_bar,
            past_age,
        ),
{
    let open: Num = candle.open;
    let open_past_entry = is_down_to(dir, open, levels.entry);
    if is_decision_bar && open_past_entry {
        if is_down_to(dir, open, levels.stop) {
            return HybridAction::Abandon(HybridAbandon::GapStop);
        }
        return HybridAction::Fill { px: open, side: past_entry_fee, path: HybridPath::PastEntry };
    }
    if is_decision_bar && armed && immediate_chase_at_open && is_down_to(
        dir,
        open,
        levels.boundary,
    ) {
        return HybridAction::Fill {
            px: open,
            side: EntryFeeSide::Taker,
            path: HybridPath::ImmediateChase,
        };
    }
    if past_age {
        return carried_fill(carry, HybridAction::Abandon(HybridAbandon::Age));
    }
    if is_down_to(dir, levels.tp, open) {
        return carried_fill(carry, HybridAction::Abandon(HybridAbandon::TpOpen));
    }
    let tp_range = is_down_to(dir, levels.tp, best(dir, candle));
    if armed && is_down_to(dir, levels.boundary, open) {
        if carry.is_some() {
            return carried_fill(carry, HybridAction::Wait);
        }
        if tp_range {
            return HybridAction::Abandon(HybridAbandon::TpRange);
        }
        if is_down_to(dir, worst(dir, candle), levels.boundary) {
            return HybridAction::Fill {
                px: levels.boundary,
                side: EntryFeeSide::Taker,
                path: HybridPath::BoundaryFromAbove,
            };
        }
        return HybridAction::Wait;
    }
    let can_maker = is_down_to(dir, worst(dir, candle), levels.entry);
    let can_chase = armed && is_down_to(dir, levels.boundary, best(dir, candle));
    if can_chase && !((race_maker_first || carry.is_some()) && can_maker) {
        return carried_fill(
            carry,
            HybridAction::Fill {
                px: levels.boundary,
                side: EntryFeeSide::Taker,
                path: HybridPath::BoundaryFromBelow,
            },
        );
    }
    if can_maker {
        return HybridAction::Fill {
            px: levels.entry,
            side: EntryFeeSide::Maker,
            path: HybridPath::Maker,
        };
    }
    if !armed && tp_range {
        return HybridAction::Abandon(HybridAbandon::TpRange);
    }
    HybridAction::Wait
}

/// Whether a deferred chase takes the decision bar's open as its price: the
/// bar opens in front of the entry and within the cap.
pub open spec fn carries_open(dir: Direction, l: OrderLevels, open: Num) -> bool {
    !down_to(dir, open, l.entry) && down_to(dir, open, l.boundary)
}

// ─── Laws ───────────────────────────────────────────────────────────────────

/// A price seen from the other side.
pub open spec fn mirrored(a: Num, b: Num) -> bool {
    b == -a
}

/// Two bars that are each other's mirror image.
pub open spec fn mirrored_bars(a: Candle, b: Candle) -> bool {
    mirrored(a.open, b.open) && mirrored(a.high, b.low) && mirrored(a.low, b.high)
}

/// Two actions that are each other's mirror image.
pub open spec fn mirrored_actions(a: HybridAction, b: HybridAction) -> bool {
    match (a, b) {
        (
            HybridAction::Fill { px, side, path },
            HybridAction::Fill { px: px2, side: side2, path: path2 },
        ) => mirrored(px, px2) && side == side2 && path == path2,
        _ => a == b,
    }
}

/// Bull and bear are exact mirrors: mirrored prices give the mirrored action.
pub proof fn law_directions_mirror(
    bull: OrderLevels,
    bear: OrderLevels,
    armed: bool,
    immediate: bool,
    maker_first: bool,
    carry: Option<Num>,
    bear_carry: Option<Num>,
    fee: EntryFeeSide,
    c: Candle,
    bear_c: Candle,
    decision: bool,
    aged: bool,
)
    requires
        mirrored(bull.entry, bear.entry),
        mirrored(bull.stop, bear.stop),
        mirrored(bull.tp, bear.tp),
        mirrored(bull.boundary, bear.boundary),
        mirrored_bars(c, bear_c),
        match (carry, bear_carry) {
            (Some(a), Some(b)) => mirrored(a, b),
            (None, None) => true,
            _ => false,
        },
    ensures
        mirrored_actions(
            hybrid_action(
                Direction::Bull,
                bull,
                armed,
                immediate,
                maker_first,
                carry,
                fee,
                c,
                decision,
                aged,
            ),
            hybrid_action(
                Direction::Bear,
                bear,
                armed,
                immediate,
                maker_first,
                bear_carry,
                fee,
                bear_c,
                decision,
                aged,
            ),
        ),
{
}

/// No fill is worse than the cap, where the cap lies in front of the entry
/// and a carried open lies within it.
pub proof fn law_no_fill_beyond_the_cap(
    dir: Direction,
    l: OrderLevels,
    armed: bool,
    immediate: bool,
    maker_first: bool,
    carry: Option<Num>,
    fee: EntryFeeSide,
    c: Candle,
    decision: bool,
    aged: bool,
)
    requires
        down_to(dir, l.entry, l.boundary),
        carry matches Some(px) ==> down_to(dir, px, l.boundary),
    ensures
        hybrid_action(dir, l, armed, immediate, maker_first, carry, fee, c, decision, aged)
            matches HybridAction::Fill { px, side, path } ==> down_to(dir, px, l.boundary),
{
}

/// An armed order that carries the decision bar's open is never given up
/// after that bar, and never fills worse than the carried open. On a bar that
/// opens short of the cap and of the target a maker touch at the entry wins,
/// whatever else the bar reaches.
pub proof fn law_a_carried_chase_dominates(
    dir: Direction,
    l: OrderLevels,
    immediate: bool,
    maker_first: bool,
    carry: Num,
    fee: EntryFeeSide,
    c: Candle,
    aged: bool,
)
    requires
        carries_open(dir, l, carry),
    ensures
        match hybrid_action(
            dir,
            l,
            true,
            immediate,
            maker_first,
            Some(carry),
            fee,
            c,
            false,
            aged,
        ) {
            HybridAction::Fill { px, side, path } => down_to(dir, px, carry) && (px == carry || (px
                == l.entry && side == EntryFeeSide::Maker)),
            HybridAction::Wait => true,
            HybridAction::Abandon(reason) => false,
        },
        !aged && touches(dir, c, l.entry) && !down_to(dir, l.boundary, c.open) && !down_to(
            dir,
            l.tp,
            c.open,
        ) ==> hybrid_action(dir, l, true, immediate, maker_first, Some(carry), fee, c, false, aged)
            == (HybridAction::Fill {
            px: l.entry,
            side: EntryFeeSide::Maker,
            path: HybridPath::Maker,
        }),
{
}

/// On a breakaway decision bar the deferred chase fills at the same price as
/// the immediate one, or, where the limit was touched, at the entry.
pub proof fn law_deferred_matches_immediate(
    dir: Direction,
    l: OrderLevels,
    maker_first: bool,
    fee: EntryFeeSide,
    c: Candle,
    aged: bool,
)
    requires
        carries_open(dir, l, c.open),
    ensures
        hybrid_action(dir, l, true, true, maker_first, None, fee, c, true, aged) == (
        HybridAction::Fill {
            px: c.open,
            side: EntryFeeSide::Taker,
            path: HybridPath::ImmediateChase,
        }),
        hybrid_action(dir, l, true, false, maker_first, Some(c.open), fee, c, true, aged) matches
            HybridAction::Fill { px, side, path } ==> down_to(dir, px, c.open),
{
}

/// A bar that reaches both the entry and the cap is read pessimistically while
/// nothing is carried: the chase, unless makers are said to come first.
pub proof fn law_the_race_is_pessimistic(
    dir: Direction,
    l: OrderLevels,
    fee: EntryFeeSide,
    c: Candle,
)
    requires
        !down_to(dir, l.boundary, c.open),
        !down_to(dir, l.tp, c.open),
        touches(dir, c, l.entry),
        down_to(dir, l.boundary, best_of(dir, c)),
    ensures
        hybrid_action(dir, l, true, false, false, None, fee, c, false, false) == (
        HybridAction::Fill {
            px: l.boundary,
            side: EntryFeeSide::Taker,
            path: HybridPath::BoundaryFromBelow,
        }),
        hybrid_action(dir, l, true, false, true, None, fee, c, false, false) == (
        HybridAction::Fill { px: l.entry, side: EntryFeeSide::Maker, path: HybridPath::Maker }),
{
}

/// A stale order that carries nothing never books, whatever the bar does.
pub proof fn law_a_stale_order_never_books(
    dir: Direction,
    l: OrderLevels,
    armed: bool,
    immediate: bool,
    maker_first: bool,
    fee: EntryFeeSide,
    c: Candle,
)
    ensures
        hybrid_action(dir, l, armed, immediate, maker_first, None, fee, c, false, true)
            == HybridAction::Abandon(HybridAbandon::Age),
{
}

} // verus!
