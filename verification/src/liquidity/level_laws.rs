//! What the registry of levels answers and does, in prices and times alone.
use vstd::prelude::*;
use crate::key::Num;
use crate::liquidity::cfg::SweepCfg;
use crate::liquidity::levels::{
    active_levels, added_id, decayed, level_added, near_keys, nearest_at, nearest_first, refreshed,
    standing, sweep_level, target_at, target_floor, target_of, target_side, Band, DecayQuote,
    Developing, Level, NewLevel, Reg, Retest, Side, Status, SweepQuote, SweepRun,
};
use crate::liquidity::query::{gaps_kept, registry_kept, signals_kept};
use crate::liquidity::scanner::{HookQuote, Scanner};
use crate::liquidity::source::Sources;
use crate::models::{Candle, Direction};
use crate::sort::{before, law_a_stable_order_exists, lemma_filtered, order_of};

verus! {

// ─── Queries ────────────────────────────────────────────────────────────────

/// An active level of a side with enough significance, above a price for the
/// buy side and below it for the sell side.
pub open spec fn is_ahead(l: Level, side: Side, price: Num, min_sig: Num) -> bool {
    &&& l.status == Status::Active
    &&& l.side == side
    &&& l.sig >= min_sig
    &&& side == Side::Bsl ==> l.price > price
    &&& side == Side::Ssl ==> l.price < price
}

/// The levels beyond a price are the active ones of the side that lie past it
/// with enough significance, all of them and no other, the nearest first:
/// prices climb on the buy side and fall on the sell side.
pub proof fn law_levels_beyond_stand_in_order(
    levels: Seq<Level>,
    side: Side,
    price: Num,
    min_sig: Num,
)
    requires
        levels.len() <= usize::MAX,
    ensures
        ({
            let list = nearest_first(levels, side, price, min_sig);
            &&& forall|l: Level| #[trigger]
                list.contains(l) <==> levels.contains(l) && is_ahead(l, side, price, min_sig)
            &&& forall|i: int, j: int|
                0 <= i < j < list.len() ==> if side == Side::Bsl {
                    (#[trigger] list[i]).price <= (#[trigger] list[j]).price
                } else {
                    list[i].price >= list[j].price
                }
            &&& list.len() == levels.filter(|l: Level| is_ahead(l, side, price, min_sig)).len()
        }),
{
    let p = |l: Level| is_ahead(l, side, price, min_sig);
    lemma_standing(levels, side, price, min_sig);
    let found = standing(levels, side, price, min_sig);
    let keys = near_keys(found, side);
    law_a_stable_order_exists(keys);
    let order = order_of(keys);
    let list = nearest_first(levels, side, price, min_sig);
    assert forall|l: Level| #[trigger] list.contains(l) <==> levels.contains(l) && is_ahead(
        l,
        side,
        price,
        min_sig,
    ) by {
        lemma_filtered(levels, p, l);
        if list.contains(l) {
            let i = choose|i: int| 0 <= i < list.len() && list[i] == l;
            assert(found[order[i] as int] == l);
            assert(found.contains(l));
        }
        if levels.contains(l) && is_ahead(l, side, price, min_sig) {
            assert(p(l));
            assert(found.contains(l));
            let j = choose|j: int| 0 <= j < found.len() && found[j] == l;
            assert(order.contains(j as usize));
            let i = choose|i: int| 0 <= i < order.len() && order[i] == j as usize;
            assert(list[i] == l);
        }
    }
    assert forall|i: int, j: int| 0 <= i < j < list.len() implies if side == Side::Bsl {
        (#[trigger] list[i]).price <= (#[trigger] list[j]).price
    } else {
        list[i].price >= list[j].price
    } by {
        assert(before(keys, order[i] as int, order[j] as int));
    }
}

proof fn lemma_standing(levels: Seq<Level>, side: Side, price: Num, min_sig: Num)
    ensures
        standing(levels, side, price, min_sig) == levels.filter(
            |l: Level| is_ahead(l, side, price, min_sig),
        ),
        standing(levels, side, price, min_sig).len() <= levels.len(),
    decreases levels.len(),
{
    reveal(Seq::filter);
    if levels.len() > 0 {
        lemma_standing(levels.drop_last(), side, price, min_sig);
    }
}

/// The nearest level beyond a price is an active one of the side past it, and
/// no active one of the side past it is nearer; there is none only where none
/// lies past the price.
pub proof fn law_the_nearest_level_is_past_the_price(
    levels: Seq<Level>,
    side: Side,
    price: Num,
    n: nat,
)
    requires
        n <= levels.len(),
    ensures
        ({
            let b = nearest_at(levels, side, price, n);
            &&& -1 <= b < n
            &&& b >= 0 ==> is_ahead(levels[b], side, price, Num::MIN)
            &&& forall|i: int|
                0 <= i < n && is_ahead(#[trigger] levels[i], side, price, Num::MIN) ==> b >= 0
                    && if side == Side::Bsl {
                    levels[b].price <= levels[i].price
                } else {
                    levels[b].price >= levels[i].price
                }
        }),
    decreases n,
{
    if n > 0 {
        law_the_nearest_level_is_past_the_price(levels, side, price, (n - 1) as nat);
    }
}

/// A level serves as a trade's target: it is active and significant enough
/// (zero asks for nothing), a long's is a buy-side level above the entry and at
/// or above the reach, a short's a sell-side level below the entry and at or
/// below the reach.
pub open spec fn serves(l: Level, dir: Direction, entry: Num, reach: Num, min_sig: Num) -> bool {
    &&& l.status == Status::Active
    &&& min_sig == 0 || l.sig >= min_sig
    &&& dir == Direction::Bull ==> l.side == Side::Bsl && l.price > entry && l.price >= reach
    &&& dir == Direction::Bear ==> l.side == Side::Ssl && l.price < entry && l.price <= reach
}

/// The target found for a trade is the price and id of a level that serves as
/// one, and no level that serves lies nearer the entry. None is found only for
/// a trade without risk or where no level serves.
pub proof fn law_a_target_is_the_nearest_that_serves(
    levels: Seq<Level>,
    dir: Direction,
    entry: Num,
    has_risk: bool,
    reach: Num,
    min_sig: Num,
)
    requires
        levels.len() <= usize::MAX,
    ensures
        ({
            let r = target_of(levels, dir, entry, has_risk, reach, min_sig);
            &&& r is None <==> !has_risk || forall|i: int|
                0 <= i < levels.len() ==> !serves(#[trigger] levels[i], dir, entry, reach, min_sig)
            &&& r matches Some(t) ==> {
                &&& exists|i: int|
                    0 <= i < levels.len() && serves(
                        #[trigger] levels[i],
                        dir,
                        entry,
                        reach,
                        min_sig,
                    ) && levels[i].price == t.0 && levels[i].id == t.1
                &&& forall|i: int|
                    0 <= i < levels.len() && serves(
                        #[trigger] levels[i],
                        dir,
                        entry,
                        reach,
                        min_sig,
                    ) ==> if dir == Direction::Bull {
                        t.0 <= levels[i].price
                    } else {
                        t.0 >= levels[i].price
                    }
            }
        }),
{
    let side = target_side(dir);
    let floor = target_floor(min_sig);
    let list = nearest_first(levels, side, entry, floor);
    law_levels_beyond_stand_in_order(levels, side, entry, floor);
    lemma_target_at(list, side, reach, 0);
    let at = target_at(list, side, reach, 0);
    let r = target_of(levels, dir, entry, has_risk, reach, min_sig);
    assert forall|i: int|
        0 <= i < levels.len() && serves(#[trigger] levels[i], dir, entry, reach, min_sig) implies at
        < list.len() && if dir == Direction::Bull {
        list[at].price <= levels[i].price
    } else {
        list[at].price >= levels[i].price
    } by {
        assert(levels.contains(levels[i]));
        assert(list.contains(levels[i]));
        let j = choose|j: int| 0 <= j < list.len() && list[j] == levels[i];
        assert(at <= j);
        if at < j {
            assert(if side == Side::Bsl {
                list[at].price <= list[j].price
            } else {
                list[at].price >= list[j].price
            });
        }
    }
    if has_risk && at < list.len() {
        assert(list.contains(list[at]));
        let i = choose|i: int| 0 <= i < levels.len() && levels[i] == list[at];
        assert(serves(levels[i], dir, entry, reach, min_sig));
    }
}

proof fn lemma_target_at(list: Seq<Level>, side: Side, reach: Num, from: int)
    requires
        0 <= from <= list.len(),
    ensures
        ({
            let at = target_at(list, side, reach, from);
            &&& from <= at <= list.len()
            &&& at < list.len() && side == Side::Bsl ==> list[at].price >= reach
            &&& at < list.len() && side == Side::Ssl ==> list[at].price <= reach
            &&& forall|j: int|
                from <= j < at ==> if side == Side::Bsl {
                    (#[trigger] list[j]).price < reach
                } else {
                    list[j].price > reach
                }
        }),
    decreases list.len() - from,
{
    if from < list.len() {
        lemma_target_at(list, side, reach, from + 1);
    }
}

/// Long and short targets are mirrors: where every level is seen in the mirror
/// (the other side, the price negated), the other direction finds a target at
/// the negated price.
pub proof fn law_targets_mirror(
    levels: Seq<Level>,
    mirrored: Seq<Level>,
    entry: Num,
    mirrored_entry: Num,
    reach: Num,
    mirrored_reach: Num,
    min_sig: Num,
)
    requires
        levels.len() == mirrored.len() <= usize::MAX,
        mirrored_entry == -entry,
        mirrored_reach == -reach,
        forall|i: int|
            0 <= i < levels.len() ==> {
                let (a, b) = (#[trigger] levels[i], mirrored[i]);
                &&& a.side != b.side && b.price == -a.price
                &&& a.status == b.status && a.sig == b.sig
            },
    ensures
        ({
            let a = target_of(levels, Direction::Bull, entry, true, reach, min_sig);
            let b = target_of(
                mirrored,
                Direction::Bear,
                mirrored_entry,
                true,
                mirrored_reach,
                min_sig,
            );
            &&& a is Some <==> b is Some
            &&& a is Some ==> (b->0).0 == -(a->0).0
        }),
{
    law_a_target_is_the_nearest_that_serves(levels, Direction::Bull, entry, true, reach, min_sig);
    law_a_target_is_the_nearest_that_serves(
        mirrored,
        Direction::Bear,
        mirrored_entry,
        true,
        mirrored_reach,
        min_sig,
    );
    assert forall|i: int| 0 <= i < levels.len() implies (serves(
        #[trigger] levels[i],
        Direction::Bull,
        entry,
        reach,
        min_sig,
    ) <==> serves(
        mirrored[i],
        Direction::Bear,
        mirrored_entry,
        mirrored_reach,
        min_sig,
    )) by {}
    let a = target_of(levels, Direction::Bull, entry, true, reach, min_sig);
    let b = target_of(
        mirrored,
        Direction::Bear,
        mirrored_entry,
        true,
        mirrored_reach,
        min_sig,
    );
    if a is Some {
        let i = choose|i: int|
            0 <= i < levels.len() && serves(
                #[trigger] levels[i],
                Direction::Bull,
                entry,
                reach,
                min_sig,
            ) && levels[i].price == (a->0).0 && levels[i].id == (a->0).1;
        assert(serves(
            mirrored[i],
            Direction::Bear,
            mirrored_entry,
            mirrored_reach,
            min_sig,
        ));
    }
    if b is Some {
        let i = choose|i: int|
            0 <= i < mirrored.len() && serves(
                #[trigger] mirrored[i],
                Direction::Bear,
                mirrored_entry,
                mirrored_reach,
                min_sig,
            ) && mirrored[i].price == (b->0).0 && mirrored[i].id == (b->0).1;
        assert(serves(levels[i], Direction::Bull, entry, reach, min_sig));
    }
}

// ─── Adding ─────────────────────────────────────────────────────────────────

/// A level that is added joins the first active level of its side whose price
/// lies in its band: that one takes its touches, starts to decay anew and keeps
/// its price; every other level stays as it was and no level is added.
pub proof fn law_a_level_joins_the_first_in_its_band(
    r: Reg,
    s: Sources,
    n: NewLevel,
    b: Band,
    i: int,
)
    requires
        0 <= i < r.levels.len(),
        r.levels[i].status == Status::Active,
        r.levels[i].side == n.side,
        b.lo <= r.levels[i].price <= b.hi,
        forall|j: int|
            0 <= j < i ==> (#[trigger] r.levels[j]).status != Status::Active || r.levels[j].side
                != n.side || r.levels[j].price < b.lo || b.hi < r.levels[j].price,
    ensures
        ({
            let after = level_added(r, s, n, Some(b));
            let (was, now) = (r.levels[i], after.levels[i]);
            &&& after.levels.len() == r.levels.len() && after.next_id == r.next_id && after.devs
                == r.devs
            &&& forall|j: int|
                0 <= j < r.levels.len() && j != i ==> #[trigger] after.levels[j] == r.levels[j]
            &&& now.touch == (was.touch + n.touch) as i64 && now.decay == 0 && now.last_touch
                == n.ts
            &&& now.id == was.id && now.price == was.price && now.side == was.side && now.source
                == was.source && now.tf == was.tf && now.ts == was.ts && now.status == was.status
            &&& now.sig == s.sig_of(was.source, was.tf, now.touch)
            &&& added_id(r, n, Some(b)) == was.id
        }),
{
    lemma_absorber_at(r.levels, n.side, b, 0, i);
}

/// A level that joins none stands at the end under the next id, active, with
/// its own facts and no decay; the levels before it stay as they were.
pub proof fn law_a_level_of_its_own_stands_last(
    r: Reg,
    s: Sources,
    n: NewLevel,
    band: Option<Band>,
)
    requires
        r.next_id < i64::MAX,
        band matches Some(b) ==> forall|j: int|
            0 <= j < r.levels.len() ==> (#[trigger] r.levels[j]).status != Status::Active
                || r.levels[j].side != n.side || r.levels[j].price < b.lo || b.hi
                < r.levels[j].price,
    ensures
        ({
            let after = level_added(r, s, n, band);
            let l = after.levels.last();
            &&& after.levels.len() == r.levels.len() + 1 && after.levels.drop_last() == r.levels
            &&& after.next_id == r.next_id + 1 && after.devs == r.devs
            &&& l.id == r.next_id == added_id(r, n, band)
            &&& l.price == n.price && l.side == n.side && l.source == n.source && l.tf == n.tf
            &&& l.ts == n.ts && l.last_touch == n.ts && l.touch == n.touch && l.decay == 0
            &&& l.status == Status::Active && l.sig == s.sig_of(n.source, n.tf, n.touch)
        }),
{
    if let Some(b) = band {
        lemma_no_absorber(r.levels, n.side, b, 0);
    }
    assert(level_added(r, s, n, band).levels.drop_last() =~= r.levels);
}

proof fn lemma_absorber_at(levels: Seq<Level>, side: Side, b: Band, from: int, i: int)
    requires
        0 <= from <= i < levels.len(),
        levels[i].status == Status::Active,
        levels[i].side == side,
        b.lo <= levels[i].price <= b.hi,
        forall|j: int|
            0 <= j < i ==> (#[trigger] levels[j]).status != Status::Active || levels[j].side
                != side || levels[j].price < b.lo || b.hi < levels[j].price,
    ensures
        crate::liquidity::levels::absorber(levels, side, b, from) == i,
    decreases i - from,
{
    if from < i {
        assert(levels[from].status != Status::Active || levels[from].side != side
            || levels[from].price < b.lo || b.hi < levels[from].price);
        lemma_absorber_at(levels, side, b, from + 1, i);
    }
}

proof fn lemma_no_absorber(levels: Seq<Level>, side: Side, b: Band, from: int)
    requires
        0 <= from <= levels.len(),
        forall|j: int|
            0 <= j < levels.len() ==> (#[trigger] levels[j]).status != Status::Active
                || levels[j].side != side || levels[j].price < b.lo || b.hi < levels[j].price,
    ensures
        crate::liquidity::levels::absorber(levels, side, b, from) == levels.len(),
    decreases levels.len() - from,
{
    if from < levels.len() {
        assert(levels[from].status != Status::Active || levels[from].side != side
            || levels[from].price < b.lo || b.hi < levels[from].price);
        lemma_no_absorber(levels, side, b, from + 1);
    }
}

// ─── Sweeps ─────────────────────────────────────────────────────────────────

/// The crossing of a level by a bar: a buy-side level is crossed at or below
/// the bar's reach above, a sell-side one at or above its reach below.
pub open spec fn crossed(l: Level, q: SweepQuote) -> bool {
    if l.side == Side::Bsl {
        l.price <= q.bsl_max
    } else {
        q.ssl_min <= l.price
    }
}

/// How far a bar goes past a side.
pub open spec fn tip(side: Side, c: Candle) -> Num {
    if side == Side::Bsl {
        c.high
    } else {
        c.low
    }
}

/// A level that is not active, or not significant enough, is not looked at.
pub proof fn law_minor_levels_are_not_swept(
    s: SweepRun,
    i: int,
    q: SweepQuote,
    cfg: SweepCfg,
    c: Candle,
    ts: i64,
)
    requires
        s.reg.levels[i].status != Status::Active || s.reg.levels[i].sig < cfg.min_level_sig,
    ensures
        sweep_level(s, i, q, cfg, c, ts) == s,
{
}

/// The first bar that crosses a level starts a crossing at that bar: its time
/// and its extreme, one bar long, expecting price to turn back, down from a
/// buy-side level and up from a sell-side one. It is a sweep at once where one
/// bar is all a crossing may take; else the level stays active. A bar that does
/// not cross it changes nothing.
pub proof fn law_a_crossing_starts_at_its_first_bar(
    s: SweepRun,
    i: int,
    q: SweepQuote,
    cfg: SweepCfg,
    c: Candle,
    ts: i64,
)
    requires
        0 <= i < s.reg.levels.len(),
        s.reg.levels[i].status == Status::Active,
        s.reg.levels[i].sig >= cfg.min_level_sig,
        forall|d: int|
            0 <= d < s.reg.devs.len() ==> (#[trigger] s.reg.devs[d]).level_id
                != s.reg.levels[i].id || s.reg.devs[d].tf != c.timeframe,
    ensures
        ({
            let l = s.reg.levels[i];
            let after = sweep_level(s, i, q, cfg, c, ts);
            &&& !crossed(l, q) ==> after == s
            &&& crossed(l, q) && cfg.max_multi_candle > 1 ==> after.sweeps == s.sweeps
                && after.reg.levels == s.reg.levels && after.reg.devs.len() == s.reg.devs.len() + 1
                && after.reg.devs.drop_last() == s.reg.devs && ({
                let d = after.reg.devs.last();
                &&& d.level_id == l.id && d.tf == c.timeframe && d.start_ts == ts
                &&& d.extreme_price == tip(l.side, c) && d.extreme_ts == ts && d.count == 1
                &&& d.dir == if l.side == Side::Bsl {
                    Direction::Bear
                } else {
                    Direction::Bull
                }
            })
            &&& crossed(l, q) && cfg.max_multi_candle <= 1 ==> after.reg.devs == s.reg.devs
                && after.reg.levels[i].status == Status::Swept && after.sweeps.len()
                == s.sweeps.len() + 1 && ({
                let w = after.sweeps.last();
                &&& w.level_id == l.id && w.level_price == l.price && w.level_side == l.side
                &&& w.start_ts == ts && w.extreme_ts == ts && w.extreme_price == tip(l.side, c)
                &&& w.dir == if l.side == Side::Bsl {
                    Direction::Bear
                } else {
                    Direction::Bull
                }
            })
        }),
{
    let l = s.reg.levels[i];
    lemma_no_dev(s.reg.devs, l.id, c.timeframe, 0);
    let after = sweep_level(s, i, q, cfg, c, ts);
    if after.reg.devs.len() > s.reg.devs.len() {
        assert(after.reg.devs.drop_last() =~= s.reg.devs);
    }
}

/// A crossing that goes on counts the bar and keeps the farther extreme, the
/// higher one past a buy-side level and the lower one past a sell-side level;
/// it becomes a sweep when it has taken as many bars as it may, or on the first
/// bar that no longer crosses the level, then with the extreme it had. The
/// level is swept and the crossing forgotten.
pub proof fn law_a_crossing_ends_in_one_sweep(
    s: SweepRun,
    i: int,
    q: SweepQuote,
    cfg: SweepCfg,
    c: Candle,
    ts: i64,
    at: int,
)
    requires
        0 <= i < s.reg.levels.len(),
        s.reg.levels[i].status == Status::Active,
        s.reg.levels[i].sig >= cfg.min_level_sig,
        0 <= at < s.reg.devs.len(),
        s.reg.devs[at].level_id == s.reg.levels[i].id,
        s.reg.devs[at].tf == c.timeframe,
        s.reg.devs[at].count < i64::MAX,
        forall|d: int|
            0 <= d < at ==> (#[trigger] s.reg.devs[d]).level_id != s.reg.levels[i].id
                || s.reg.devs[d].tf != c.timeframe,
    ensures
        ({
            let l = s.reg.levels[i];
            let d = s.reg.devs[at];
            let after = sweep_level(s, i, q, cfg, c, ts);
            let x = tip(l.side, c);
            let farther = if l.side == Side::Bsl {
                x > d.extreme_price
            } else {
                x < d.extreme_price
            };
            let ends = !crossed(l, q) || d.count + 1 >= cfg.max_multi_candle;
            let (price, when) = if crossed(l, q) && farther {
                (x, ts)
            } else {
                (d.extreme_price, d.extreme_ts)
            };
            &&& ends ==> after.reg.levels == s.reg.levels.update(
                i,
                Level { status: Status::Swept, ..l },
            ) && after.reg.devs == s.reg.devs.remove(at) && after.sweeps.len() == s.sweeps.len() + 1
                && after.sweeps.drop_last() == s.sweeps && ({
                let w = after.sweeps.last();
                &&& w.level_id == l.id && w.level_price == l.price && w.level_source == l.source
                &&& w.level_sig == l.sig && w.level_side == l.side && w.level_formed_at == l.ts
                &&& w.dir == d.dir && w.start_ts == d.start_ts
                &&& w.extreme_price == price && w.extreme_ts == when
            })
            &&& !ends ==> after.sweeps == s.sweeps && after.reg.levels == s.reg.levels
                && after.reg.devs == s.reg.devs.update(
                at,
                Developing {
                    count: (d.count + 1) as i64,
                    extreme_price: price,
                    extreme_ts: when,
                    ..d
                },
            )
        }),
{
    let l = s.reg.levels[i];
    lemma_dev_at(s.reg.devs, l.id, c.timeframe, 0, at);
    let after = sweep_level(s, i, q, cfg, c, ts);
    if after.sweeps.len() > s.sweeps.len() {
        assert(after.sweeps.drop_last() =~= s.sweeps);
    }
}

proof fn lemma_no_dev(devs: Seq<Developing>, id: i64, tf: u16, from: int)
    requires
        0 <= from <= devs.len(),
        forall|d: int|
            0 <= d < devs.len() ==> (#[trigger] devs[d]).level_id != id || devs[d].tf != tf,
    ensures
        crate::liquidity::levels::dev_at(devs, id, tf, from) == devs.len(),
    decreases devs.len() - from,
{
    if from < devs.len() {
        assert(devs[from].level_id != id || devs[from].tf != tf);
        lemma_no_dev(devs, id, tf, from + 1);
    }
}

proof fn lemma_dev_at(devs: Seq<Developing>, id: i64, tf: u16, from: int, at: int)
    requires
        0 <= from <= at < devs.len(),
        devs[at].level_id == id,
        devs[at].tf == tf,
        forall|d: int| 0 <= d < at ==> (#[trigger] devs[d]).level_id != id || devs[d].tf != tf,
    ensures
        crate::liquidity::levels::dev_at(devs, id, tf, from) == at,
    decreases at - from,
{
    if from < at {
        assert(devs[from].level_id != id || devs[from].tf != tf);
        lemma_dev_at(devs, id, tf, from + 1, at);
    }
}

// ─── Maintenance ────────────────────────────────────────────────────────────

/// A bar refreshes an active level that it closes near without crossing: a
/// buy-side level above its high, a sell-side one below its low. A refreshed
/// level starts to decay anew at the bar's time; nothing else changes.
pub proof fn law_a_near_miss_refreshes(l: Level, c: Candle, q: Retest, now: i64)
    ensures
        ({
            let near = if l.side == Side::Bsl {
                l.price > c.high && l.price <= q.bsl_max
            } else {
                l.price < c.low && l.price >= q.ssl_min
            };
            let after = refreshed(l, c, q, now);
            &&& l.status == Status::Active && near ==> after == (Level {
                decay: 0,
                last_touch: now,
                ..l
            })
            &&& l.status != Status::Active || !near ==> after == l
        }),
{
}

/// A decay tick takes an active level's decay to the next one and expires the
/// level exactly when that is at or past the limit.
pub proof fn law_a_level_expires_at_its_limit(l: Level, q: DecayQuote, max: Num)
    requires
        l.status == Status::Active,
    ensures
        ({
            let after = decayed(l, q, max);
            &&& l.decay == 0 ==> after.decay == q.from_zero
            &&& l.decay != 0 ==> after.decay == q.from_now
            &&& after.status == Status::Expired <==> after.decay >= max
            &&& after.status == Status::Active <==> after.decay < max
            &&& after.price == l.price && after.id == l.id && after.touch == l.touch && after.side
                == l.side && after.sig == l.sig && after.last_touch == l.last_touch
        }),
{
}

/// Maintenance keeps its cadence: levels decay only on every so many-th candle,
/// and the retired ones, the settled gaps and the oldest signals are dropped
/// only on every so many-th; a cadence of zero or less never comes. Without a
/// refresh distance, or without an ATR, no level is refreshed.
pub proof fn law_maintenance_keeps_its_cadence(s: Scanner, c: Candle, atr: Num, q: HookQuote)
    requires
        s.cfg.levels.decay_every <= 0 || s.candle_count as int % s.cfg.levels.decay_every as int
            != 0,
        s.cfg.levels.prune_every <= 0 || s.candle_count as int % s.cfg.levels.prune_every as int
            != 0,
    ensures
        s.cfg.levels.refresh_atr <= 0 || atr <= 0 ==> registry_kept(s, c, atr, q)
            == s.registry@,
        registry_kept(s, c, atr, q).levels.len() == s.registry@.levels.len(),
        gaps_kept(s) == s.gaps@,
        signals_kept(s) == s.signals.signals@,
{
}

/// On a candle of the decay cadence every active level decays by one tick; on
/// one of the prune cadence what is left of the registry is its active levels,
/// in order, after that.
pub proof fn law_levels_decay_then_are_pruned(s: Scanner, c: Candle, atr: Num, q: HookQuote)
    requires
        s.cfg.levels.refresh_atr <= 0 || atr <= 0,
        s.cfg.levels.decay_every > 0,
        s.candle_count as int % s.cfg.levels.decay_every as int == 0,
    ensures
        ({
            let ticked = Seq::new(
                s.registry@.levels.len(),
                |i: int|
                    decayed(s.registry@.levels[i], q.decay@[i], s.cfg.levels.decay_candles),
            );
            let prunes = s.cfg.levels.prune_every > 0 && s.candle_count as int
                % s.cfg.levels.prune_every as int == 0;
            registry_kept(s, c, atr, q).levels == if prunes {
                ticked.filter(|l: Level| l.status == Status::Active)
            } else {
                ticked
            }
        }),
{
    let ticked = Seq::new(
        s.registry@.levels.len(),
        |i: int| decayed(s.registry@.levels[i], q.decay@[i], s.cfg.levels.decay_candles),
    );
    lemma_active_is_a_filter(ticked);
}

proof fn lemma_active_is_a_filter(levels: Seq<Level>)
    ensures
        active_levels(levels) == levels.filter(|l: Level| l.status == Status::Active),
    decreases levels.len(),
{
    reveal(Seq::filter);
    if levels.len() > 0 {
        lemma_active_is_a_filter(levels.drop_last());
    }
}

} // verus!
