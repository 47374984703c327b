//! The leverage at which liquidation lies beyond the stop.
use vstd::prelude::*;
use crate::key::Num;

verus! {

/// The key of infinity.
pub const INFINITE: Num = 0x7ff0_0000_0000_0000;

/// A number that constrains: finite and above zero. No value: not a number.
pub open spec fn constrains(x: Option<Num>) -> bool {
    x matches Some(v) && 0 < v < INFINITE
}

fn is_constraint(x: Option<Num>) -> (r: bool)
    ensures
        r == constrains(x),
{
    match x {
        Some(v) => 0 < v && v < INFINITE,
        None => false,
    }
}

/// The leverage of a trade, given the whole leverage at which liquidation lies
/// `beta` stop distances away.
pub open spec fn leverage_of(
    stop_frac: Option<Num>,
    max_lev: u32,
    beta: Option<Num>,
    whole: u32,
) -> u32 {
    if max_lev == 0 {
        1
    } else if !constrains(stop_frac) || !constrains(beta) || whole > max_lev {
        max_lev
    } else if whole < 1 {
        1
    } else {
        whole
    }
}

/// The leverage of a trade: the whole leverage `whole` at which liquidation
/// lies `beta` stop distances away, at least one and at most the asset's cap.
/// A stop or a `beta` that constrains nothing gives the cap.
pub fn liq_safe_leverage(
    stop_frac: Option<Num>,
    max_lev: u32,
    beta: Option<Num>,
    whole: u32,
) -> (r: u32)
    ensures
        r == leverage_of(stop_frac, max_lev, beta, whole),
{
    if max_lev == 0 {
        return 1;
    }
    if !is_constraint(stop_frac) || !is_constraint(beta) {
        return max_lev;
    }
    if whole < 1 {
        1
    } else if whole > max_lev {
        max_lev
    } else {
        whole
    }
}

/// The leverage is one that can be set: at least one, and never above the cap
/// of an asset that has one.
pub proof fn law_leverage_can_be_set(
    stop_frac: Option<Num>,
    max_lev: u32,
    beta: Option<Num>,
    whole: u32,
)
    ensures
        leverage_of(stop_frac, max_lev, beta, whole) >= 1,
        max_lev >= 1 ==> leverage_of(stop_frac, max_lev, beta, whole) <= max_lev,
{
}

/// A wider stop, which admits less leverage, never gets more.
pub proof fn law_less_room_never_more_leverage(
    stop_frac: Option<Num>,
    max_lev: u32,
    beta: Option<Num>,
    less: u32,
    more: u32,
)
    requires
        less <= more,
    ensures
        leverage_of(stop_frac, max_lev, beta, less) <= leverage_of(stop_frac, max_lev, beta, more),
{
}

/// The leverage is the whole one the stop admits, held between one and the cap;
/// it is the cap itself where the stop or the buffer sets no positive finite
/// bound, and one where there is no cap to hold to.
pub proof fn law_leverage_is_held_to_its_bounds(
    stop_frac: Option<Num>,
    max_lev: u32,
    beta: Option<Num>,
    whole: u32,
)
    ensures
        ({
            let r = leverage_of(stop_frac, max_lev, beta, whole);
            let bounded = |x: Option<Num>| x is Some && x->0 > 0 && x->0 < 0x7ff0_0000_0000_0000;
            let bound = bounded(stop_frac) && bounded(beta);
            &&& max_lev == 0 ==> r == 1
            &&& max_lev > 0 && !bound ==> r == max_lev
            &&& max_lev > 0 && bound && 1 <= whole <= max_lev ==> r == whole
            &&& max_lev > 0 && bound && whole < 1 ==> r == 1
            &&& max_lev > 0 && bound && whole > max_lev ==> r == max_lev
        }),
{
}

} // verus!
