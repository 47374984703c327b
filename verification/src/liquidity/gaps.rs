//! Fair-value gaps: their life from open to mitigated, filled or inverted.
use vstd::prelude::*;
use crate::key::Num;
use crate::liquidity::cfg::FvgCfg;
use crate::models::{opposite_of, Candle, Direction};

verus! {

/// What became of a gap.
#[derive(Debug, Clone, Copy, PartialEq, Eq, Structural)]
pub enum FvgStatus {
    Unmitigated,
    Mitigated,
    Filled,
    Inverted,
}

impl FvgStatus {
    /// The status's name.
    pub open spec fn label(self) -> Seq<char> {
        match self {
            FvgStatus::Unmitigated => "unmit"@,
            FvgStatus::Mitigated => "mit"@,
            FvgStatus::Filled => "filled"@,
            FvgStatus::Inverted => "inverted"@,
        }
    }

    /// The status's name.
    pub fn as_str(self) -> (r: &'static str)
        ensures
            r@ == self.label(),
    {
        match self {
            FvgStatus::Unmitigated => "unmit",
            FvgStatus::Mitigated => "mit",
            FvgStatus::Filled => "filled",
            FvgStatus::Inverted => "inverted",
        }
    }
}

/// A gap between the first and the third of three bars.
#[derive(Debug, Clone, Copy, PartialEq, Eq, Structural)]
pub struct Fvg {
    pub id: i64,
    pub dir: Direction,
    pub tf: u16,
    pub ts: i64,
    /// The edge nearest the direction of travel.
    pub near: Num,
    pub far: Num,
    /// The midpoint.
    pub ce: Num,
    pub status: FvgStatus,
    pub is_inverted_kind: bool,
    /// The first bar's opposite extreme; none for inverted gaps.
    pub c1_stop: Option<Num>,
}

/// A gap's facts before it has an id.
#[derive(Debug, Clone, Copy, PartialEq, Eq, Structural)]
pub struct NewGap {
    pub dir: Direction,
    pub tf: u16,
    pub ts: i64,
    pub near: Num,
    pub far: Num,
    pub ce: Num,
    pub c1_stop: Num,
}

/// The gaps, mathematically.
pub struct Gaps {
    pub fvgs: Seq<Fvg>,
    /// Places of the gaps that can still change, oldest first.
    pub active: Seq<usize>,
}

/// Gaps by id, and the active ones among them.
#[derive(Debug, Clone)]
pub struct GapStore {
    pub fvgs: Vec<Fvg>,
    pub active: Vec<usize>,
}

impl View for GapStore {
    type V = Gaps;

    open spec fn view(&self) -> Gaps {
        Gaps { fvgs: self.fvgs@, active: self.active@ }
    }
}

/// Every entry is one of the first `n` places.
pub open spec fn places_ok(active: Seq<usize>, n: int) -> bool {
    forall|k: int| 0 <= k < active.len() ==> (#[trigger] active[k]) < n
}

/// A gap's id is its place.
pub open spec fn ids_ok(fvgs: Seq<Fvg>) -> bool {
    forall|i: int| 0 <= i < fvgs.len() ==> (#[trigger] fvgs[i]).id == i
}

/// Each place comes after the one before it.
pub open spec fn places_climb(active: Seq<usize>) -> bool {
    forall|i: int, j: int| 0 <= i < j < active.len() ==> #[trigger] active[i] < #[trigger] active[j]
}

/// A gap's id is its place, and active places are places, in order.
pub open spec fn gaps_wf(g: Gaps) -> bool {
    &&& g.fvgs.len() <= i64::MAX
    &&& ids_ok(g.fvgs)
    &&& places_ok(g.active, g.fvgs.len() as int)
    &&& places_climb(g.active)
}

/// A gap that can still change.
pub open spec fn is_live(f: Fvg) -> bool {
    f.status == FvgStatus::Unmitigated || f.status == FvgStatus::Mitigated
}

/// The active places whose gap can still change.
pub open spec fn live_places(fvgs: Seq<Fvg>, active: Seq<usize>) -> Seq<usize>
    decreases active.len(),
{
    if active.len() == 0 {
        Seq::empty()
    } else {
        let rest = live_places(fvgs, active.drop_last());
        if is_live(fvgs[active.last() as int]) {
            rest.push(active.last())
        } else {
            rest
        }
    }
}

/// How many active gaps are of a kind.
pub open spec fn kind_count(fvgs: Seq<Fvg>, active: Seq<usize>, inverted: bool) -> nat
    decreases active.len(),
{
    if active.len() == 0 {
        0
    } else {
        kind_count(fvgs, active.drop_last(), inverted) + if fvgs[active.last() as int].is_inverted_kind
            == inverted {
            1nat
        } else {
            0nat
        }
    }
}

/// The gaps once `n` more active ones of a kind, oldest first, are marked
/// filled.
pub open spec fn oldest_filled(
    fvgs: Seq<Fvg>,
    active: Seq<usize>,
    inverted: bool,
    n: int,
    from: int,
) -> Seq<Fvg>
    decreases active.len() - from,
{
    if from >= active.len() || n == 0 {
        fvgs
    } else {
        let i = active[from] as int;
        let f = fvgs[i];
        if f.is_inverted_kind == inverted && is_live(f) {
            oldest_filled(
                fvgs.update(i, Fvg { status: FvgStatus::Filled, ..f }),
                active,
                inverted,
                n - 1,
                from + 1,
            )
        } else {
            oldest_filled(fvgs, active, inverted, n, from + 1)
        }
    }
}

/// A kind is capped: with more active gaps than the cap, the oldest are
/// filled, some past the cap, and the active places are gone over.
pub open spec fn kind_capped(g: Gaps, cfg: FvgCfg, inverted: bool) -> Gaps {
    let count = kind_count(g.fvgs, g.active, inverted) as int;
    if count <= cfg.cap {
        g
    } else {
        let fvgs = oldest_filled(
            g.fvgs,
            g.active,
            inverted,
            count - cfg.cap + cfg.cap_overshoot,
            0,
        );
        Gaps { fvgs, active: live_places(fvgs, g.active) }
    }
}

/// A fresh gap.
pub open spec fn fresh_gap(id: int, n: NewGap) -> Fvg {
    Fvg {
        id: id as i64,
        dir: n.dir,
        tf: n.tf,
        ts: n.ts,
        near: n.near,
        far: n.far,
        ce: n.ce,
        status: FvgStatus::Unmitigated,
        is_inverted_kind: false,
        c1_stop: Some(n.c1_stop),
    }
}

/// A gap is added, and its kind capped.
pub open spec fn gap_added(g: Gaps, cfg: FvgCfg, n: NewGap) -> Gaps {
    let i = g.fvgs.len();
    kind_capped(
        Gaps {
            fvgs: g.fvgs.push(fresh_gap(i as int, n)),
            active: g.active.push(i as usize),
        },
        cfg,
        false,
    )
}

/// The body traded through the gap's far edge.
pub open spec fn inverts(f: Fvg, c: Candle) -> bool {
    match f.dir {
        Direction::Bull => c.bottom() < f.far,
        Direction::Bear => c.top() > f.far,
    }
}

/// The bar traded to a price from the gap's near side.
pub open spec fn trades_to(f: Fvg, c: Candle, price: Num) -> bool {
    match f.dir {
        Direction::Bull => c.low <= price,
        Direction::Bear => c.high >= price,
    }
}

/// The gap that an inverted gap leaves behind: the same edges, to be traded
/// the other way. Its near edge is the upper one: a bullish gap's own near
/// edge, and the edge at which a bearish gap turned bullish is entered.
pub open spec fn inverse_gap(f: Fvg, id: int, tf: u16, ts: i64) -> Fvg {
    Fvg {
        id: id as i64,
        dir: opposite_of(f.dir),
        tf,
        ts,
        near: match f.dir {
            Direction::Bull => f.near,
            Direction::Bear => if f.near >= f.far {
                f.near
            } else {
                f.far
            },
        },
        far: match f.dir {
            Direction::Bull => f.far,
            Direction::Bear => if f.near >= f.far {
                f.far
            } else {
                f.near
            },
        },
        ce: f.ce,
        status: FvgStatus::Unmitigated,
        is_inverted_kind: true,
        c1_stop: None,
    }
}

/// A bar's pass over the gaps so far.
pub struct GapRun {
    pub fvgs: Seq<Fvg>,
    pub fresh: Seq<usize>,
    pub removed: bool,
}

/// One gap under one bar: a body through its far edge inverts it; once
/// mitigated, a touch of the far edge fills it; a touch of the midpoint
/// mitigates it.
pub open spec fn gap_step(s: GapRun, i: int, c: Candle, ts: i64) -> GapRun {
    let f = s.fvgs[i];
    if inverts(f, c) {
        GapRun {
            fvgs: s.fvgs.update(i, Fvg { status: FvgStatus::Inverted, ..f }).push(
                inverse_gap(f, s.fvgs.len() as int, c.timeframe, ts),
            ),
            fresh: s.fresh.push(s.fvgs.len() as usize),
            removed: true,
        }
    } else if f.status == FvgStatus::Mitigated && trades_to(f, c, f.far) {
        GapRun {
            fvgs: s.fvgs.update(i, Fvg { status: FvgStatus::Filled, ..f }),
            removed: true,
            ..s
        }
    } else if f.status == FvgStatus::Unmitigated && trades_to(f, c, f.ce) {
        GapRun { fvgs: s.fvgs.update(i, Fvg { status: FvgStatus::Mitigated, ..f }), ..s }
    } else {
        s
    }
}

/// The first `n` active gaps, those on the bar's timeframe.
pub open spec fn gaps_stepped(g: Gaps, c: Candle, ts: i64, n: nat) -> GapRun
    decreases n,
{
    if n == 0 {
        GapRun { fvgs: g.fvgs, fresh: Seq::empty(), removed: false }
    } else {
        let s = gaps_stepped(g, c, ts, (n - 1) as nat);
        let i = g.active[n - 1] as int;
        if g.fvgs[i].tf == c.timeframe {
            gap_step(s, i, c, ts)
        } else {
            s
        }
    }
}

/// The gaps after a bar.
pub open spec fn gaps_after(g: Gaps, cfg: FvgCfg, c: Candle, ts: i64) -> Gaps {
    let s = gaps_stepped(g, c, ts, g.active.len());
    if s.removed {
        let next = Gaps { fvgs: s.fvgs, active: live_places(s.fvgs, g.active) + s.fresh };
        if s.fresh.len() > 0 {
            kind_capped(next, cfg, true)
        } else {
            next
        }
    } else {
        Gaps { fvgs: s.fvgs, ..g }
    }
}

/// A gap that matches a query.
pub open spec fn gap_matches(f: Fvg, tf: u16, dir: Direction, inverted: bool, since: i64) -> bool {
    f.tf == tf && f.is_inverted_kind == inverted && f.dir == dir && f.ts >= since && f.status
        == FvgStatus::Unmitigated
}

/// The active gaps that match a query, oldest first.
pub open spec fn gaps_matching(
    fvgs: Seq<Fvg>,
    active: Seq<usize>,
    tf: u16,
    dir: Direction,
    inverted: bool,
    since: i64,
) -> Seq<Fvg>
    decreases active.len(),
{
    if active.len() == 0 {
        Seq::empty()
    } else {
        let rest = gaps_matching(fvgs, active.drop_last(), tf, dir, inverted, since);
        let f = fvgs[active.last() as int];
        if gap_matches(f, tf, dir, inverted, since) {
            rest.push(f)
        } else {
            rest
        }
    }
}

/// A zone a gap must overlap, and how far its entry edge must clear.
#[derive(Debug, Clone, Copy, PartialEq, Eq, Structural)]
pub struct GapFilter {
    pub zone_lo: Num,
    pub zone_hi: Num,
    /// The price the near edge must reach, in the gap's direction.
    pub clear_at: Num,
}

/// The gap overlaps the zone and clears.
pub open spec fn passes(f: Fvg, q: GapFilter) -> bool {
    let (lo, hi) = if f.near <= f.far {
        (f.near, f.far)
    } else {
        (f.far, f.near)
    };
    &&& lo <= q.zone_hi
    &&& hi >= q.zone_lo
    &&& match f.dir {
        Direction::Bull => f.near >= q.clear_at,
        Direction::Bear => f.near <= q.clear_at,
    }
}

/// The first gap at or after `from` that is wide enough and passes.
pub open spec fn first_passing(list: Seq<Fvg>, wide: Seq<bool>, q: GapFilter, from: int) -> int
    decreases list.len() - from,
{
    if from >= list.len() || (wide[from] && passes(list[from], q)) {
        from
    } else {
        first_passing(list, wide, q, from + 1)
    }
}

proof fn lemma_oldest_filled(
    fvgs: Seq<Fvg>,
    active: Seq<usize>,
    inverted: bool,
    n: int,
    from: int,
)
    requires
        0 <= from <= active.len(),
        forall|k: int| 0 <= k < active.len() ==> (#[trigger] active[k]) < fvgs.len(),
    ensures
        ({
            let r = oldest_filled(fvgs, active, inverted, n, from);
            &&& r.len() == fvgs.len()
            &&& forall|i: int|
                0 <= i < fvgs.len() ==> (#[trigger] r[i]) == fvgs[i] || (r[i] == (Fvg {
                    status: FvgStatus::Filled,
                    ..fvgs[i]
                }) && is_live(fvgs[i]) && fvgs[i].is_inverted_kind == inverted)
        }),
    decreases active.len() - from,
{
    if from < active.len() && n != 0 {
        let i = active[from] as int;
        let f = fvgs[i];
        if f.is_inverted_kind == inverted && is_live(f) {
            let next = fvgs.update(i, Fvg { status: FvgStatus::Filled, ..f });
            lemma_oldest_filled(next, active, inverted, n - 1, from + 1);
            let r = oldest_filled(next, active, inverted, n - 1, from + 1);
            assert forall|j: int| 0 <= j < fvgs.len() implies (#[trigger] r[j]) == fvgs[j] || (r[j]
                == (Fvg { status: FvgStatus::Filled, ..fvgs[j] }) && is_live(fvgs[j])
                && fvgs[j].is_inverted_kind == inverted) by {
                assert(r[j] == next[j] || r[j] == (Fvg { status: FvgStatus::Filled, ..next[j] }));
            }
        } else {
            lemma_oldest_filled(fvgs, active, inverted, n, from + 1);
        }
    }
}

/// An active place whose gap is of a kind and can still change.
spec fn counts(fvgs: Seq<Fvg>, active: Seq<usize>, inverted: bool, k: int) -> bool {
    is_live(fvgs[active[k] as int]) && fvgs[active[k] as int].is_inverted_kind == inverted
}

/// How many such places there are at or after `from`.
spec fn live_from(fvgs: Seq<Fvg>, active: Seq<usize>, inverted: bool, from: int) -> nat
    decreases active.len() - from,
{
    if from >= active.len() {
        0
    } else {
        live_from(fvgs, active, inverted, from + 1) + if counts(fvgs, active, inverted, from) {
            1nat
        } else {
            0nat
        }
    }
}

proof fn lemma_live_from_same(
    a: Seq<Fvg>,
    b: Seq<Fvg>,
    active: Seq<usize>,
    inverted: bool,
    from: int,
)
    requires
        forall|k: int|
            from <= k < active.len() ==> a[#[trigger] active[k] as int] == b[active[k] as int],
    ensures
        live_from(a, active, inverted, from) == live_from(b, active, inverted, from),
    decreases active.len() - from,
{
    if from < active.len() {
        lemma_live_from_same(a, b, active, inverted, from + 1);
    }
}

proof fn lemma_live_from_grows(fvgs: Seq<Fvg>, active: Seq<usize>, inverted: bool, from: int)
    requires
        0 <= from < active.len(),
    ensures
        live_from(fvgs, active, inverted, from) == live_from(
            fvgs,
            active.drop_last(),
            inverted,
            from,
        ) + if counts(fvgs, active, inverted, active.len() - 1) {
            1nat
        } else {
            0nat
        },
    decreases active.len() - from,
{
    let d = active.drop_last();
    if from < d.len() {
        lemma_live_from_grows(fvgs, active, inverted, from + 1);
        assert(d[from] == active[from]);
        assert(counts(fvgs, d, inverted, from) == counts(fvgs, active, inverted, from));
    } else {
        assert(live_from(fvgs, active, inverted, from + 1) == 0);
        assert(live_from(fvgs, d, inverted, from) == 0);
    }
}

proof fn lemma_live_count(fvgs: Seq<Fvg>, active: Seq<usize>, inverted: bool)
    ensures
        kind_count(fvgs, live_places(fvgs, active), inverted) == live_from(
            fvgs,
            active,
            inverted,
            0,
        ),
        live_from(fvgs, active, inverted, 0) <= kind_count(fvgs, active, inverted),
    decreases active.len(),
{
    if active.len() > 0 {
        let d = active.drop_last();
        lemma_live_count(fvgs, d, inverted);
        lemma_live_from_grows(fvgs, active, inverted, 0);
        assert(active[active.len() - 1] == active.last());
        if is_live(fvgs[active.last() as int]) {
            let l = live_places(fvgs, active);
            assert(l.drop_last() =~= live_places(fvgs, d));
        }
    }
}

/// Filling takes the oldest, and as many as asked for while there are any.
proof fn lemma_oldest_go_first(
    fvgs: Seq<Fvg>,
    active: Seq<usize>,
    inverted: bool,
    n: int,
    from: int,
)
    requires
        0 <= from <= active.len(),
        0 <= n,
        places_ok(active, fvgs.len() as int),
        places_climb(active),
    ensures
        ({
            let r = oldest_filled(fvgs, active, inverted, n, from);
            let had = live_from(fvgs, active, inverted, from);
            &&& live_from(r, active, inverted, from) == if had > n {
                had - n
            } else {
                0
            }
            &&& forall|x: int, y: int|
                #![trigger active[x], active[y]]
                from <= x < y < active.len() && counts(fvgs, active, inverted, x)
                    && r[active[y] as int] != fvgs[active[y] as int] ==> r[active[x] as int].status
                    == FvgStatus::Filled
        }),
    decreases active.len() - from,
{
    let r = oldest_filled(fvgs, active, inverted, n, from);
    if from < active.len() && n != 0 {
        let i = active[from] as int;
        let f = fvgs[i];
        if f.is_inverted_kind == inverted && is_live(f) {
            let next = fvgs.update(i, Fvg { status: FvgStatus::Filled, ..f });
            lemma_oldest_go_first(next, active, inverted, n - 1, from + 1);
            lemma_oldest_filled(next, active, inverted, n - 1, from + 1);
            assert(r[i] == next[i]);
            assert forall|k: int| from + 1 <= k < active.len() implies next[#[trigger] active[k] as int]
                == fvgs[active[k] as int] by {
                assert(active[from] < active[k]);
            }
            lemma_live_from_same(next, fvgs, active, inverted, from + 1);
            assert forall|x: int, y: int|
                #![trigger active[x], active[y]]
                from <= x < y < active.len() && counts(fvgs, active, inverted, x)
                    && r[active[y] as int] != fvgs[active[y] as int] implies r[active[x] as int].status
                == FvgStatus::Filled by {
                assert(active[from] < active[y]);
                if x > from {
                    assert(active[from] < active[x]);
                    assert(counts(next, active, inverted, x));
                }
            }
        } else {
            lemma_oldest_go_first(fvgs, active, inverted, n, from + 1);
            lemma_oldest_filled(fvgs, active, inverted, n, from + 1);
            assert(r[i] == f);
        }
    }
}

/// Capping changes nothing but the status of active gaps of its kind, and
/// those only to filled.
pub proof fn law_capping_only_fills(g: Gaps, cfg: FvgCfg, inverted: bool)
    requires
        gaps_wf(g),
    ensures
        ({
            let r = kind_capped(g, cfg, inverted);
            &&& r.fvgs.len() == g.fvgs.len()
            &&& forall|i: int|
                0 <= i < g.fvgs.len() ==> (#[trigger] r.fvgs[i]) == g.fvgs[i] || (r.fvgs[i] == (
                Fvg { status: FvgStatus::Filled, ..g.fvgs[i] }) && is_live(g.fvgs[i])
                    && g.fvgs[i].is_inverted_kind == inverted)
        }),
{
    let count = kind_count(g.fvgs, g.active, inverted) as int;
    lemma_oldest_filled(
        g.fvgs,
        g.active,
        inverted,
        count - cfg.cap + cfg.cap_overshoot,
        0,
    );
}

/// Under a cap an older gap of a kind is always filled before a newer one, and
/// no more than the cap stay active.
pub proof fn law_capping_fills_the_oldest(g: Gaps, cfg: FvgCfg, inverted: bool)
    requires
        gaps_wf(g),
        0 <= cfg.cap,
        0 <= cfg.cap_overshoot,
    ensures
        ({
            let r = kind_capped(g, cfg, inverted);
            &&& forall|x: int, y: int|
                #![trigger g.active[x], g.active[y]]
                0 <= x < y < g.active.len() && is_live(g.fvgs[g.active[x] as int])
                    && g.fvgs[g.active[x] as int].is_inverted_kind == inverted
                    && r.fvgs[g.active[y] as int] != g.fvgs[g.active[y] as int]
                    ==> r.fvgs[g.active[x] as int].status == FvgStatus::Filled
            &&& kind_count(r.fvgs, r.active, inverted) <= cfg.cap
        }),
{
    let count = kind_count(g.fvgs, g.active, inverted) as int;
    let n = count - cfg.cap + cfg.cap_overshoot;
    if count > cfg.cap {
        let r = kind_capped(g, cfg, inverted);
        lemma_oldest_filled(g.fvgs, g.active, inverted, n, 0);
        lemma_oldest_go_first(g.fvgs, g.active, inverted, n, 0);
        lemma_live_count(g.fvgs, g.active, inverted);
        lemma_live_count(r.fvgs, g.active, inverted);
        assert forall|x: int, y: int|
            #![trigger g.active[x], g.active[y]]
            0 <= x < y < g.active.len() && is_live(g.fvgs[g.active[x] as int])
                && g.fvgs[g.active[x] as int].is_inverted_kind == inverted
                && r.fvgs[g.active[y] as int] != g.fvgs[g.active[y] as int] implies r.fvgs[g.active[x] as int].status
            == FvgStatus::Filled by {
            assert(counts(g.fvgs, g.active, inverted, x));
        }
    }
}

/// An inverted gap keeps its edges and its midpoint and is traded the other
/// way; inverting it once more restores its direction. The near edge of an
/// inverted bearish gap is its upper one, as it is of every bullish gap, and
/// so two inversions give a bullish gap its own edges back.
pub proof fn law_inversion_mirrors(f: Fvg, id: int, tf: u16, ts: i64, id2: int, ts2: i64)
    ensures
        inverse_gap(f, id, tf, ts).dir == opposite_of(f.dir),
        inverse_gap(f, id, tf, ts).ce == f.ce,
        ({
            let g = inverse_gap(f, id, tf, ts);
            ||| (g.near == f.near && g.far == f.far)
            ||| (g.near == f.far && g.far == f.near)
        }),
        inverse_gap(inverse_gap(f, id, tf, ts), id2, tf, ts2).dir == f.dir,
        f.dir == Direction::Bear ==> inverse_gap(f, id, tf, ts).near >= inverse_gap(
            f,
            id,
            tf,
            ts,
        ).far,
        f.dir == Direction::Bull && f.near >= f.far ==> ({
            let twice = inverse_gap(inverse_gap(f, id, tf, ts), id2, tf, ts2);
            twice.near == f.near && twice.far == f.far
        }),
{
}

proof fn lemma_live_places(fvgs: Seq<Fvg>, active: Seq<usize>)
    ensures
        live_places(fvgs, active).len() <= active.len(),
        forall|k: int|
            0 <= k < live_places(fvgs, active).len() ==> active.contains(
                #[trigger] live_places(fvgs, active)[k],
            ),
        places_climb(active) ==> places_climb(live_places(fvgs, active)),
    decreases active.len(),
{
    if active.len() > 0 {
        let d = active.drop_last();
        lemma_live_places(fvgs, d);
        if places_climb(active) {
            let l = live_places(fvgs, active);
            assert(places_climb(d));
            assert forall|i: int, j: int| 0 <= i < j < l.len() implies #[trigger] l[i]
                < #[trigger] l[j] by {
                let rest = live_places(fvgs, d);
                if j < rest.len() {
                    assert(rest[i] < rest[j]);
                } else {
                    assert(d.contains(rest[i]));
                    let m = choose|m: int| 0 <= m < d.len() && d[m] == rest[i];
                    assert(active[m] < active[active.len() - 1]);
                }
            }
        }
        assert forall|k: int| 0 <= k < live_places(fvgs, active).len() implies active.contains(
            #[trigger] live_places(fvgs, active)[k],
        ) by {
            if k < live_places(fvgs, d).len() {
                assert(d.contains(live_places(fvgs, d)[k]));
                let m = choose|m: int| 0 <= m < d.len() && d[m] == live_places(fvgs, d)[k];
                assert(active[m] == live_places(fvgs, active)[k]);
            } else {
                assert(active[active.len() - 1] == live_places(fvgs, active)[k]);
            }
        }
    }
}

impl GapStore {
    /// See [`gaps_wf`].
    pub open spec fn wf(&self) -> bool {
        gaps_wf(self@)
    }

    /// No gaps.
    pub fn new() -> (r: Self)
        ensures
            r.wf(),
            r@ == (Gaps { fvgs: Seq::empty(), active: Seq::empty() }),
    {
        GapStore { fvgs: Vec::new(), active: Vec::new() }
    }

    /// Go over the active places: gaps that cannot change any more leave.
    pub fn fvg_rebuild_active(&mut self)
        requires
            old(self).wf(),
        ensures
            final(self).wf(),
            final(self)@ == (Gaps {
                active: live_places(old(self)@.fvgs, old(self)@.active),
                ..old(self)@
            }),
            final(self)@.active.len() <= old(self)@.active.len(),
    {
        let ghost a = self.active@;
        let ghost f = self.fvgs@;
        let mut keep: Vec<usize> = Vec::new();
        let mut k: usize = 0;
        while k < self.active.len()
            invariant
                self.wf(),
                a == self.active@,
                f == self.fvgs@,
                k <= a.len(),
                keep@ == live_places(f, a.subrange(0, k as int)),
            decreases a.len() - k,
        {
            proof {
                assert(a.subrange(0, k + 1).drop_last() =~= a.subrange(0, k as int));
                assert(a[k as int] < f.len());
            }
            let i: usize = self.active[k];
            let status = self.fvgs[i].status;
            if status == FvgStatus::Unmitigated || status == FvgStatus::Mitigated {
                keep.push(i);
            }
            k = k + 1;
        }
        proof {
            assert(a.subrange(0, k as int) =~= a);
            lemma_live_places(f, a);
            assert forall|j: int| 0 <= j < keep@.len() implies (#[trigger] keep@[j]) < f.len() by {
                assert(a.contains(keep@[j]));
                let m = choose|m: int| 0 <= m < a.len() && a[m] == keep@[j];
                assert(a[m] < f.len());
            }
        }
        self.active = keep;
    }

    fn count_kind(&self, inverted: bool) -> (r: usize)
        requires
            self.wf(),
        ensures
            r == kind_count(self@.fvgs, self@.active, inverted),
            r <= self@.active.len(),
    {
        let ghost a = self.active@;
        let mut n: usize = 0;
        let mut k: usize = 0;
        while k < self.active.len()
            invariant
                self.wf(),
                a == self.active@,
                k <= a.len(),
                n <= k,
                n == kind_count(self.fvgs@, a.subrange(0, k as int), inverted),
            decreases a.len() - k,
        {
            proof {
                assert(a.subrange(0, k + 1).drop_last() =~= a.subrange(0, k as int));
                assert(a[k as int] < self.fvgs@.len());
            }
            if self.fvgs[self.active[k]].is_inverted_kind == inverted {
                n = n + 1;
            }
            k = k + 1;
        }
        proof {
            assert(a.subrange(0, k as int) =~= a);
        }
        n
    }

    /// Fill the oldest active gaps of a kind once there are more than the cap.
    pub fn fvg_cap_kind(&mut self, cfg: &FvgCfg, inverted: bool)
        requires
            old(self).wf(),
        ensures
            final(self).wf(),
            final(self)@ == kind_capped(old(self)@, *cfg, inverted),
            final(self)@.fvgs.len() == old(self)@.fvgs.len(),
            final(self)@.active.len() <= old(self)@.active.len(),
    {
        let count: usize = self.count_kind(inverted);
        if count as i128 <= cfg.cap as i128 {
            return;
        }
        let ghost g0 = self@;
        let mut left: i128 = count as i128 - cfg.cap as i128 + cfg.cap_overshoot as i128;
        let ghost want = oldest_filled(g0.fvgs, g0.active, inverted, left as int, 0);
        let mut k: usize = 0;
        proof {
            lemma_oldest_filled(g0.fvgs, g0.active, inverted, left as int, 0);
        }
        while k < self.active.len() && left != 0
            invariant
                self.wf(),
                self.active@ == g0.active,
                self.fvgs@.len() == g0.fvgs.len(),
                k <= self.active@.len(),
                -0x4_0000_0000_0000_0000 - k <= left <= 0x4_0000_0000_0000_0000,
                want == oldest_filled(self.fvgs@, g0.active, inverted, left as int, k as int),
            decreases self.active@.len() - k,
        {
            assert(self.active@[k as int] < self.fvgs@.len());
            let i: usize = self.active[k];
            let mut f = self.fvgs[i];
            if f.is_inverted_kind == inverted && (f.status == FvgStatus::Unmitigated || f.status
                == FvgStatus::Mitigated) {
                f.status = FvgStatus::Filled;
                self.fvgs.set(i, f);
                left = left - 1;
            }
            k = k + 1;
        }
        self.fvg_rebuild_active();
    }

    /// Track a new gap.
    pub fn fvg_add(&mut self, cfg: &FvgCfg, n: &NewGap)
        requires
            old(self).wf(),
            old(self)@.fvgs.len() < i64::MAX,
        ensures
            final(self).wf(),
            final(self)@ == gap_added(old(self)@, *cfg, *n),
            final(self)@.fvgs.len() == old(self)@.fvgs.len() + 1,
            final(self)@.active.len() <= old(self)@.active.len() + 1,
    {
        let i: usize = self.fvgs.len();
        self.fvgs.push(
            Fvg {
                id: i as i64,
                dir: n.dir,
                tf: n.tf,
                ts: n.ts,
                near: n.near,
                far: n.far,
                ce: n.ce,
                status: FvgStatus::Unmitigated,
                is_inverted_kind: false,
                c1_stop: Some(n.c1_stop),
            },
        );
        self.active.push(i);
        self.fvg_cap_kind(cfg, false);
    }

    fn step_gap(&mut self, i: usize, c: &Candle, ts: i64, fresh: &mut Vec<usize>) -> (removed: bool)
        requires
            i < old(self)@.fvgs.len(),
            old(self)@.fvgs.len() < i64::MAX,
            old(self).wf(),
            places_ok(old(fresh)@, old(self)@.fvgs.len() as int),
        ensures
            final(self).wf(),
            final(self)@.active == old(self)@.active,
            final(self)@.fvgs.len() <= old(self)@.fvgs.len() + 1,
            final(self)@.fvgs.len() >= old(self)@.fvgs.len(),
            places_ok(final(fresh)@, final(self)@.fvgs.len() as int),
            forall|j: int|
                0 <= j < old(self)@.fvgs.len() ==> (#[trigger] final(self)@.fvgs[j]).tf == old(self)@.fvgs[j].tf,
            forall|was: bool|
                gap_step(
                    GapRun { fvgs: old(self)@.fvgs, fresh: old(fresh)@, removed: was },
                    i as int,
                    *c,
                    ts,
                ) == (GapRun {
                    fvgs: final(self)@.fvgs,
                    fresh: final(fresh)@,
                    removed: was || removed,
                }),
    {
        let mut f = self.fvgs[i];
        assert(self@.fvgs[i as int].id == i);
        let inverted = match f.dir {
            Direction::Bull => c.body_low() < f.far,
            Direction::Bear => c.body_high() > f.far,
        };
        if inverted {
            let n: usize = self.fvgs.len();
            let (near, far) = match f.dir {
                Direction::Bull => (f.near, f.far),
                Direction::Bear => if f.near >= f.far {
                    (f.near, f.far)
                } else {
                    (f.far, f.near)
                },
            };
            let inverse = Fvg {
                id: n as i64,
                dir: f.dir.opposite(),
                tf: c.timeframe,
                ts,
                near,
                far,
                ce: f.ce,
                status: FvgStatus::Unmitigated,
                is_inverted_kind: true,
                c1_stop: None,
            };
            f.status = FvgStatus::Inverted;
            self.fvgs.set(i, f);
            self.fvgs.push(inverse);
            fresh.push(n);
            return true;
        }
        let (to_far, to_ce) = match f.dir {
            Direction::Bull => (c.low <= f.far, c.low <= f.ce),
            Direction::Bear => (c.high >= f.far, c.high >= f.ce),
        };
        if f.status == FvgStatus::Mitigated && to_far {
            f.status = FvgStatus::Filled;
            self.fvgs.set(i, f);
            return true;
        }
        if f.status == FvgStatus::Unmitigated && to_ce {
            f.status = FvgStatus::Mitigated;
            self.fvgs.set(i, f);
        }
        false
    }

    /// Advance the gaps on the bar's timeframe by one bar.
    pub fn fvg_process(&mut self, cfg: &FvgCfg, c: &Candle, ts: i64)
        requires
            old(self).wf(),
            2 * old(self)@.fvgs.len() + old(self)@.active.len() < i64::MAX,
        ensures
            final(self).wf(),
            final(self)@ == gaps_after(old(self)@, *cfg, *c, ts),
    {
        let ghost g0 = self@;
        let mut fresh: Vec<usize> = Vec::new();
        let mut removed = false;
        let n: usize = self.active.len();
        let mut k: usize = 0;
        while k < n
            invariant
                self.wf(),
                gaps_wf(g0),
                n == g0.active.len(),
                k <= n,
                self@.active == g0.active,
                2 * g0.fvgs.len() + n < i64::MAX,
                g0.fvgs.len() <= self@.fvgs.len() <= g0.fvgs.len() + k,
                places_ok(fresh@, self@.fvgs.len() as int),
                places_climb(fresh@),
                forall|j: int| 0 <= j < fresh@.len() ==> (#[trigger] fresh@[j]) >= g0.fvgs.len(),
                forall|j: int|
                    0 <= j < g0.fvgs.len() ==> (#[trigger] self@.fvgs[j]).tf == g0.fvgs[j].tf,
                gaps_stepped(g0, *c, ts, k as nat) == (GapRun {
                    fvgs: self@.fvgs,
                    fresh: fresh@,
                    removed,
                }),
            decreases n - k,
        {
            assert(g0.active[k as int] < g0.fvgs.len());
            let i: usize = self.active[k];
            assert(self@.fvgs[i as int].tf == g0.fvgs[i as int].tf);
            if self.fvgs[i].tf == c.timeframe {
                let ghost was_fresh = fresh@;
                let ghost place: usize = self.fvgs.len();
                let gone = self.step_gap(i, c, ts, &mut fresh);
                proof {
                    let s = gaps_stepped(g0, *c, ts, k as nat);
                    assert(gap_step(s, i as int, *c, ts) == (GapRun {
                        fvgs: self@.fvgs,
                        fresh: fresh@,
                        removed: removed || gone,
                    }));
                    assert(place == s.fvgs.len());
                    assert(fresh@ == was_fresh || fresh@ == was_fresh.push(place));
                }
                removed = removed || gone;
            }
            k = k + 1;
        }
        if removed {
            self.fvg_rebuild_active();
            proof {
                lemma_live_places(self@.fvgs, g0.active);
            }
            let any = fresh.len() > 0;
            let ghost live = self.active@;
            let ghost added = fresh@;
            self.active.append(&mut fresh);
            proof {
                assert(self.active@ =~= live + added);
                assert forall|j: int| 0 <= j < self@.active.len() implies (
                #[trigger] self@.active[j]) < self@.fvgs.len() by {
                    if j < live.len() {
                        assert(live[j] < self@.fvgs.len());
                    } else {
                        assert(added[j - live.len()] < self@.fvgs.len());
                    }
                }
                assert forall|i: int, j: int| 0 <= i < j < self@.active.len() implies (
                #[trigger] self@.active[i]) < (#[trigger] self@.active[j]) by {
                    if i < live.len() && j >= live.len() {
                        assert(g0.active.contains(live[i]));
                        assert(added[j - live.len()] >= g0.fvgs.len());
                    } else if j < live.len() {
                        assert(live[i] < live[j]);
                    } else {
                        assert(added[i - live.len()] < added[j - live.len()]);
                    }
                }
            }
            if any {
                self.fvg_cap_kind(cfg, true);
            }
        } else {
            proof {
                assert(gaps_stepped(g0, *c, ts, n as nat).fresh.len() == 0
                    || gaps_stepped(g0, *c, ts, n as nat).removed) by {
                    lemma_fresh_means_removed(g0, *c, ts, n as nat);
                }
            }
        }
    }

    /// The gap under an id.
    pub fn fvg(&self, id: i64) -> (r: Option<Fvg>)
        ensures
            r == if 0 <= id < self@.fvgs.len() {
                Some(self@.fvgs[id as int])
            } else {
                None
            },
    {
        if id >= 0 && (id as u64) < (self.fvgs.len() as u64) {
            Some(self.fvgs[id as usize])
        } else {
            None
        }
    }

    /// Unmitigated gaps on a timeframe, of a direction and kind, formed at or
    /// after an instant, oldest first.
    pub fn fvgs_since(&self, tf: u16, dir: Direction, inverted: bool, since: i64) -> (r: Vec<Fvg>)
        requires
            self.wf(),
        ensures
            r@ == gaps_matching(self@.fvgs, self@.active, tf, dir, inverted, since),
    {
        let ghost a = self.active@;
        let mut out: Vec<Fvg> = Vec::new();
        let mut k: usize = 0;
        while k < self.active.len()
            invariant
                self.wf(),
                a == self.active@,
                k <= a.len(),
                out@ == gaps_matching(
                    self.fvgs@,
                    a.subrange(0, k as int),
                    tf,
                    dir,
                    inverted,
                    since,
                ),
            decreases a.len() - k,
        {
            proof {
                assert(a.subrange(0, k + 1).drop_last() =~= a.subrange(0, k as int));
                assert(a[k as int] < self.fvgs@.len());
            }
            let f = self.fvgs[self.active[k]];
            if f.tf == tf && f.is_inverted_kind == inverted && f.dir == dir && f.ts >= since
                && f.status == FvgStatus::Unmitigated {
                out.push(f);
            }
            k = k + 1;
        }
        proof {
            assert(a.subrange(0, k as int) =~= a);
        }
        out
    }

    /// The first of those gaps that is wide enough (`wide` says so of each of
    /// them, in order), overlaps the zone, and whose entry edge clears.
    pub fn fvg_first(
        &self,
        tf: u16,
        dir: Direction,
        inverted: bool,
        since: i64,
        wide: &Vec<bool>,
        q: &GapFilter,
    ) -> (r: Option<Fvg>)
        requires
            self.wf(),
            wide@.len() == gaps_matching(self@.fvgs, self@.active, tf, dir, inverted, since).len(),
        ensures
            ({
                let list = gaps_matching(self@.fvgs, self@.active, tf, dir, inverted, since);
                let i = first_passing(list, wide@, *q, 0);
                r == if i < list.len() {
                    Some(list[i])
                } else {
                    None
                }
            }),
    {
        let list = self.fvgs_since(tf, dir, inverted, since);
        let mut i: usize = 0;
        while i < list.len()
            invariant
                i <= list@.len(),
                wide@.len() == list@.len(),
                list@ == gaps_matching(self@.fvgs, self@.active, tf, dir, inverted, since),
                first_passing(list@, wide@, *q, i as int) == first_passing(list@, wide@, *q, 0),
            decreases list@.len() - i,
        {
            let f = list[i];
            let (lo, hi) = if f.near <= f.far {
                (f.near, f.far)
            } else {
                (f.far, f.near)
            };
            let clears = match f.dir {
                Direction::Bull => f.near >= q.clear_at,
                Direction::Bear => f.near <= q.clear_at,
            };
            if wide[i] && lo <= q.zone_hi && hi >= q.zone_lo && clears {
                return Some(f);
            }
            i = i + 1;
        }
        None
    }
}

proof fn lemma_fresh_means_removed(g: Gaps, c: Candle, ts: i64, n: nat)
    ensures
        gaps_stepped(g, c, ts, n).fresh.len() > 0 ==> gaps_stepped(g, c, ts, n).removed,
    decreases n,
{
    if n > 0 {
        lemma_fresh_means_removed(g, c, ts, (n - 1) as nat);
    }
}

/// Under a cap so many gaps of a kind stay active as the cap less its overshoot
/// allows, where there were more than the cap, and as many as there were
/// otherwise.
pub proof fn law_capping_leaves_what_the_cap_allows(g: Gaps, cfg: FvgCfg, inverted: bool)
    requires
        gaps_wf(g),
        0 <= cfg.cap,
        0 <= cfg.cap_overshoot,
        forall|k: int|
            0 <= k < g.active.len() ==> is_live(g.fvgs[(#[trigger] g.active[k]) as int]),
    ensures
        ({
            let had = kind_count(g.fvgs, g.active, inverted) as int;
            let r = kind_capped(g, cfg, inverted);
            let left = kind_count(r.fvgs, r.active, inverted) as int;
            &&& had <= cfg.cap ==> r == g
            &&& had > cfg.cap && cfg.cap >= cfg.cap_overshoot ==> left == cfg.cap
                - cfg.cap_overshoot
            &&& had > cfg.cap && cfg.cap < cfg.cap_overshoot ==> left == 0
        }),
{
    let count = kind_count(g.fvgs, g.active, inverted) as int;
    let n = count - cfg.cap + cfg.cap_overshoot;
    if count > cfg.cap {
        let r = kind_capped(g, cfg, inverted);
        lemma_oldest_filled(g.fvgs, g.active, inverted, n, 0);
        lemma_oldest_go_first(g.fvgs, g.active, inverted, n, 0);
        lemma_live_count(g.fvgs, g.active, inverted);
        lemma_live_count(r.fvgs, g.active, inverted);
        lemma_all_live(g.fvgs, g.active);
    }
}

proof fn lemma_all_live(fvgs: Seq<Fvg>, active: Seq<usize>)
    requires
        forall|k: int| 0 <= k < active.len() ==> is_live(fvgs[(#[trigger] active[k]) as int]),
    ensures
        live_places(fvgs, active) == active,
    decreases active.len(),
{
    if active.len() > 0 {
        let d = active.drop_last();
        assert forall|k: int| 0 <= k < d.len() implies is_live(
            fvgs[(#[trigger] d[k]) as int],
        ) by {
            assert(active[k] == d[k]);
        }
        lemma_all_live(fvgs, d);
        assert(active[active.len() - 1] == active.last());
        assert(active =~= d.push(active.last()));
    }
}

/// A new gap is unmitigated, of its signal's edges, and stands last; a gap kind
/// counts as many as its active gaps are.
pub proof fn law_a_new_gap_is_open(id: int, n: NewGap)
    ensures
        ({
            let f = fresh_gap(id, n);
            &&& f.status == FvgStatus::Unmitigated && !f.is_inverted_kind
            &&& f.near == n.near && f.far == n.far && f.ce == n.ce && f.dir == n.dir && f.tf
                == n.tf && f.ts == n.ts && f.c1_stop == Some(n.c1_stop)
        }),
{
}

/// A gap turned by a body through it keeps its span of prices and its midpoint,
/// and its near edge is the upper one.
pub proof fn law_an_inverted_gap_keeps_its_span(f: Fvg, id: int, tf: u16, ts: i64)
    requires
        f.dir == Direction::Bull ==> f.far <= f.near,
    ensures
        ({
            let g = inverse_gap(f, id, tf, ts);
            &&& g.near >= g.far && g.ce == f.ce
            &&& (g.near == f.near && g.far == f.far) || (g.near == f.far && g.far == f.near)
            &&& g.dir == Direction::Bull <==> f.dir == Direction::Bear
            &&& g.status == FvgStatus::Unmitigated && g.is_inverted_kind && g.tf == tf && g.ts == ts
        }),
{
}

/// Only the active gaps on a bar's timeframe are gone over by it.
pub proof fn law_a_bar_goes_over_its_own_timeframe(g: Gaps, c: Candle, ts: i64, n: nat)
    requires
        0 < n <= g.active.len(),
    ensures
        ({
            let (was, now) = (gaps_stepped(g, c, ts, (n - 1) as nat), gaps_stepped(g, c, ts, n));
            let i = g.active[n - 1] as int;
            &&& g.fvgs[i].tf != c.timeframe ==> now == was
            &&& g.fvgs[i].tf == c.timeframe ==> now == gap_step(was, i, c, ts)
        }),
{
}

/// Within the cap a new gap joins the active ones behind the others, and every
/// gap keeps its place.
pub proof fn law_a_new_gap_joins_the_active(g: Gaps, cfg: FvgCfg, n: NewGap)
    requires
        g.fvgs.len() < usize::MAX,
        kind_count(g.fvgs, g.active, false) < cfg.cap,
        forall|k: int| 0 <= k < g.active.len() ==> (#[trigger] g.active[k]) < g.fvgs.len(),
    ensures
        ({
            let after = gap_added(g, cfg, n);
            &&& after.active == g.active.push(g.fvgs.len() as usize)
            &&& after.fvgs.len() == g.fvgs.len() + 1 && after.fvgs.drop_last() == g.fvgs
            &&& after.fvgs.last().near == n.near && after.fvgs.last().status
                == FvgStatus::Unmitigated
        }),
{
    let fvgs = g.fvgs.push(fresh_gap(g.fvgs.len() as int, n));
    let active = g.active.push(g.fvgs.len() as usize);
    assert(active.drop_last() =~= g.active);
    lemma_kind_count_same(g.fvgs, fvgs, g.active, false);
    assert(fvgs.drop_last() =~= g.fvgs);
}

proof fn lemma_kind_count_same(a: Seq<Fvg>, b: Seq<Fvg>, active: Seq<usize>, inverted: bool)
    requires
        a.len() <= b.len(),
        forall|i: int| 0 <= i < a.len() ==> #[trigger] a[i] == b[i],
        forall|k: int| 0 <= k < active.len() ==> (#[trigger] active[k]) < a.len(),
    ensures
        kind_count(a, active, inverted) == kind_count(b, active, inverted),
    decreases active.len(),
{
    if active.len() > 0 {
        let d = active.drop_last();
        assert forall|k: int| 0 <= k < d.len() implies (#[trigger] d[k]) < a.len() by {
            assert(d[k] == active[k]);
        }
        lemma_kind_count_same(a, b, d, inverted);
        assert(active[active.len() - 1] == active.last());
        assert(a[active.last() as int] == b[active.last() as int]);
    }
}

/// A bar that settles no gap leaves the active ones as they are; one that does
/// lets the settled ones go, and what was turned joins behind those that stay,
/// within the cap.
pub proof fn law_settled_gaps_make_room_for_turned_ones(g: Gaps, cfg: FvgCfg, c: Candle, ts: i64)
    ensures
        ({
            let s = gaps_stepped(g, c, ts, g.active.len());
            let after = gaps_after(g, cfg, c, ts);
            let stay = live_places(s.fvgs, g.active) + s.fresh;
            &&& !s.removed ==> after.active == g.active && after.fvgs == s.fvgs
            &&& s.removed && (s.fresh.len() == 0 || kind_count(s.fvgs, stay, true) <= cfg.cap)
                ==> after.active == stay && after.fvgs == s.fvgs
        }),
{
}

} // verus!
