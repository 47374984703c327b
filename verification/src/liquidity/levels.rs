//! The registry of price levels, and the sweeps over it.
use vstd::prelude::*;
use crate::key::Num;
use crate::liquidity::cfg::SweepCfg;
use crate::liquidity::source::Sources;
use crate::models::{Candle, Direction};
use crate::sort::{order_of, stable_order, stable_order_of, Key};
use crate::text::str_eq;

verus! {

/// Which side of price a level's liquidity rests on.
#[derive(Debug, Clone, Copy, PartialEq, Eq, Structural)]
pub enum Side {
    /// Buy-side: a level above price.
    Bsl,
    /// Sell-side: a level below price.
    Ssl,
}

impl Side {
    /// The side's name.
    pub open spec fn label(self) -> Seq<char> {
        match self {
            Side::Bsl => "BSL"@,
            Side::Ssl => "SSL"@,
        }
    }

    /// The side's name.
    pub fn as_str(self) -> (r: &'static str)
        ensures
            r@ == self.label(),
    {
        match self {
            Side::Bsl => "BSL",
            Side::Ssl => "SSL",
        }
    }

    /// The side of a name, in capitals or in small letters.
    pub fn parse(s: &str) -> (r: Option<Side>)
        ensures
            r == side_named(s@),
    {
        if str_eq(s, "BSL") || str_eq(s, "bsl") {
            Some(Side::Bsl)
        } else if str_eq(s, "SSL") || str_eq(s, "ssl") {
            Some(Side::Ssl)
        } else {
            None
        }
    }
}

/// The side of a name.
pub open spec fn side_named(s: Seq<char>) -> Option<Side> {
    if s == "BSL"@ || s == "bsl"@ {
        Some(Side::Bsl)
    } else if s == "SSL"@ || s == "ssl"@ {
        Some(Side::Ssl)
    } else {
        None
    }
}

/// A side's name parses back to it.
pub proof fn law_side_names_round_trip(side: Side)
    ensures
        side_named(side.label()) == Some(side),
{
    reveal_strlit("BSL");
    reveal_strlit("bsl");
    reveal_strlit("SSL");
    reveal_strlit("ssl");
    assert("BSL"@[0] != "SSL"@[0]);
    assert("bsl"@[0] != "SSL"@[0]);
}

/// What became of a level.
#[derive(Debug, Clone, Copy, PartialEq, Eq, Structural)]
pub enum Status {
    Active,
    Swept,
    Expired,
}

/// A price level.
#[derive(Debug, Clone, Copy, PartialEq, Eq, Structural)]
pub struct Level {
    pub id: i64,
    pub price: Num,
    pub side: Side,
    pub source: u16,
    pub tf: u16,
    pub ts: i64,
    pub touch: i64,
    pub status: Status,
    pub decay: Num,
    pub last_touch: i64,
    pub sig: Num,
}

/// The prices from `lo` to `hi`, both included.
#[derive(Debug, Clone, Copy, PartialEq, Eq, Structural)]
pub struct Band {
    pub lo: Num,
    pub hi: Num,
}

/// Whether a price is in the band.
pub open spec fn in_band(b: Band, price: Num) -> bool {
    b.lo <= price <= b.hi
}

/// The direction price is expected to take after a side was swept.
pub open spec fn after_sweep(side: Side) -> Direction {
    match side {
        Side::Bsl => Direction::Bear,
        Side::Ssl => Direction::Bull,
    }
}

/// A crossing that is not final yet.
#[derive(Debug, Clone, Copy, PartialEq, Eq, Structural)]
pub struct Developing {
    pub level_id: i64,
    pub tf: u16,
    pub start_ts: i64,
    pub extreme_price: Num,
    pub extreme_ts: i64,
    pub count: i64,
    pub dir: Direction,
}

/// A final sweep of a level.
#[derive(Debug, Clone, Copy, PartialEq, Eq, Structural)]
pub struct Sweep {
    pub level_id: i64,
    pub level_price: Num,
    pub level_source: u16,
    pub level_sig: Num,
    pub level_side: Side,
    pub dir: Direction,
    pub start_ts: i64,
    pub extreme_ts: i64,
    pub extreme_price: Num,
    /// How far past the level it went, in ATR: measured by the caller.
    pub magnitude_atr: Num,
    pub level_formed_at: i64,
}

impl Sweep {
    /// The same sweep with its magnitude measured.
    pub fn measured(self, magnitude_atr: Num) -> (r: Sweep)
        ensures
            r == (Sweep { magnitude_atr, ..self }),
    {
        let mut s = self;
        s.magnitude_atr = magnitude_atr;
        s
    }
}

// ─── Adding ─────────────────────────────────────────────────────────────────

/// The level can take in a touch: it is active, on the side and in the band.
pub open spec fn absorbs(l: Level, side: Side, band: Band) -> bool {
    l.status == Status::Active && l.side == side && in_band(band, l.price)
}

/// The first level at or after `from` that can take in a touch.
pub open spec fn absorber(levels: Seq<Level>, side: Side, band: Band, from: int) -> int
    decreases levels.len() - from,
{
    if from >= levels.len() || absorbs(levels[from], side, band) {
        from
    } else {
        absorber(levels, side, band, from + 1)
    }
}

/// A level's facts before it has an id.
#[derive(Debug, Clone, Copy, PartialEq, Eq, Structural)]
pub struct NewLevel {
    pub price: Num,
    pub side: Side,
    pub source: u16,
    pub tf: u16,
    pub ts: i64,
    pub touch: i64,
}

/// The touches of levels together.
pub open spec fn total_touch(list: Seq<NewLevel>) -> int
    decreases list.len(),
{
    if list.len() == 0 {
        0
    } else {
        total_touch(list.drop_last()) + list.last().touch
    }
}

/// Two lists of levels have the touches of both.
pub(crate) proof fn lemma_touch_joins(a: Seq<NewLevel>, b: Seq<NewLevel>)
    ensures
        total_touch(a + b) == total_touch(a) + total_touch(b),
    decreases b.len(),
{
    if b.len() == 0 {
        assert(a + b =~= a);
    } else {
        lemma_touch_joins(a, b.drop_last());
        assert((a + b).drop_last() =~= a + b.drop_last());
    }
}

/// Levels with one touch each have as many touches as they are.
pub(crate) proof fn lemma_touch_of_ones(list: Seq<NewLevel>)
    requires
        forall|k: int| 0 <= k < list.len() ==> (#[trigger] list[k]).touch == 1,
    ensures
        total_touch(list) == list.len(),
    decreases list.len(),
{
    if list.len() > 0 {
        lemma_touch_of_ones(list.drop_last());
    }
}

/// The first levels have no more touches than all of them.
pub(crate) proof fn lemma_touch_of_a_prefix(list: Seq<NewLevel>, n: int)
    requires
        0 <= n <= list.len(),
        forall|k: int| 0 <= k < list.len() ==> 0 <= (#[trigger] list[k]).touch,
    ensures
        0 <= total_touch(list.take(n)) <= total_touch(list),
    decreases list.len(),
{
    if n == list.len() {
        assert(list.take(n) =~= list);
        if n > 0 {
            lemma_touch_of_a_prefix(list.drop_last(), n - 1);
            assert(list.drop_last().take(n - 1) =~= list.drop_last());
        }
    } else {
        lemma_touch_of_a_prefix(list.drop_last(), n);
        assert(list.drop_last().take(n) =~= list.take(n));
    }
}

/// Where a new level joins: the absorbing level's place, or the end. Without
/// a band nothing absorbs.
pub open spec fn joins_at(levels: Seq<Level>, n: NewLevel, band: Option<Band>) -> int {
    match band {
        Some(b) => absorber(levels, n.side, b, 0),
        None => levels.len() as int,
    }
}

/// A level after it took in another's touches.
pub open spec fn absorbed(s: Sources, l: Level, n: NewLevel) -> Level {
    let touch = (l.touch + n.touch) as i64;
    Level { touch, sig: s.sig_of(l.source, l.tf, touch), decay: 0, last_touch: n.ts, ..l }
}

/// A level of its own.
pub open spec fn fresh_level(s: Sources, id: i64, n: NewLevel) -> Level {
    Level {
        id,
        price: n.price,
        side: n.side,
        source: n.source,
        tf: n.tf,
        ts: n.ts,
        touch: n.touch,
        status: Status::Active,
        decay: 0,
        last_touch: n.ts,
        sig: s.sig_of(n.source, n.tf, n.touch),
    }
}

/// The registry, mathematically.
pub struct Reg {
    pub levels: Seq<Level>,
    pub next_id: i64,
    pub devs: Seq<Developing>,
}

/// A level is added: the first level that absorbs it takes its touches, else
/// it stands at the end under the next id.
pub open spec fn level_added(r: Reg, s: Sources, n: NewLevel, band: Option<Band>) -> Reg {
    let i = joins_at(r.levels, n, band);
    if i < r.levels.len() {
        Reg { levels: r.levels.update(i, absorbed(s, r.levels[i], n)), ..r }
    } else {
        Reg {
            levels: r.levels.push(fresh_level(s, r.next_id, n)),
            next_id: (r.next_id + 1) as i64,
            ..r
        }
    }
}

/// The id of the level that was added or that absorbed it.
pub open spec fn added_id(r: Reg, n: NewLevel, band: Option<Band>) -> i64 {
    let i = joins_at(r.levels, n, band);
    if i < r.levels.len() {
        r.levels[i].id
    } else {
        r.next_id
    }
}

/// Levels and the crossings over them.
#[derive(Debug, Clone)]
pub struct Registry {
    pub levels: Vec<Level>,
    pub next_level_id: i64,
    pub developing: Vec<Developing>,
}

impl View for Registry {
    type V = Reg;

    open spec fn view(&self) -> Reg {
        Reg {
            levels: self.levels@,
            next_id: self.next_level_id,
            devs: self.developing@,
        }
    }
}

/// Ids ascend in the order of the levels and stay below the next one, and
/// every level's source is known.
pub open spec fn reg_wf(r: Reg, sources: int) -> bool {
    &&& r.next_id >= 0
    &&& forall|i: int|
        0 <= i < r.levels.len() ==> 0 <= (#[trigger] r.levels[i]).id < r.next_id
            && r.levels[i].source < sources
    &&& forall|i: int, j: int|
        0 <= i < j < r.levels.len() ==> (#[trigger] r.levels[i]).id < (#[trigger] r.levels[j]).id
}

/// The registry can take in `n` more touches and a level.
pub open spec fn reg_room(r: Reg, touch: int) -> bool {
    &&& r.next_id < i64::MAX
    &&& forall|i: int|
        0 <= i < r.levels.len() ==> i64::MIN <= (#[trigger] r.levels[i]).touch + touch <= i64::MAX
}

// ─── Queries ────────────────────────────────────────────────────────────────

/// A price beyond another on a side: above it for buy-side levels, below it
/// for sell-side ones.
pub open spec fn beyond(side: Side, a: Num, b: Num) -> bool {
    match side {
        Side::Bsl => a > b,
        Side::Ssl => a < b,
    }
}

fn is_beyond(side: Side, a: Num, b: Num) -> (r: bool)
    ensures
        r == beyond(side, a, b),
{
    match side {
        Side::Bsl => a > b,
        Side::Ssl => a < b,
    }
}

/// An active level of a side beyond a price.
pub open spec fn stands_beyond(l: Level, side: Side, price: Num) -> bool {
    l.status == Status::Active && l.side == side && beyond(side, l.price, price)
}

/// The levels that stand beyond a price with enough significance, in
/// registry order.
pub open spec fn standing(levels: Seq<Level>, side: Side, price: Num, min_sig: Num) -> Seq<Level>
    decreases levels.len(),
{
    if levels.len() == 0 {
        Seq::empty()
    } else {
        let rest = standing(levels.drop_last(), side, price, min_sig);
        let l = levels.last();
        if stands_beyond(l, side, price) && l.sig >= min_sig {
            rest.push(l)
        } else {
            rest
        }
    }
}

/// The keys that order levels by nearness.
pub open spec fn near_keys(levels: Seq<Level>, side: Side) -> Seq<Key> {
    Seq::new(levels.len(), |i: int| near_key(levels[i], side))
}

/// A level's nearness: the lower price is nearer on the buy side, the higher
/// one on the sell side.
pub open spec fn near_key(l: Level, side: Side) -> Key {
    match side {
        Side::Bsl => (l.price as i128, 0i64),
        Side::Ssl => ((-l.price) as i128, 0i64),
    }
}

/// Those levels, nearest first.
pub open spec fn nearest_first(
    levels: Seq<Level>,
    side: Side,
    price: Num,
    min_sig: Num,
) -> Seq<Level> {
    let found = standing(levels, side, price, min_sig);
    let order = order_of(near_keys(found, side));
    Seq::new(found.len(), |i: int| found[order[i] as int])
}

/// The place of the nearest level beyond a price among the first `n`, the
/// first of equally near ones; none is -1.
pub open spec fn nearest_at(levels: Seq<Level>, side: Side, price: Num, n: nat) -> int
    decreases n,
{
    if n == 0 {
        -1
    } else {
        let best = nearest_at(levels, side, price, (n - 1) as nat);
        let l = levels[n - 1];
        if stands_beyond(l, side, price) && (best < 0 || beyond(side, levels[best].price, l.price))
        {
            n - 1
        } else {
            best
        }
    }
}

/// The nearest level is beyond the price, and no other one is nearer.
pub proof fn law_nearest_is_nearest(levels: Seq<Level>, side: Side, price: Num, n: nat)
    requires
        n <= levels.len(),
    ensures
        ({
            let b = nearest_at(levels, side, price, n);
            &&& -1 <= b < n
            &&& b >= 0 ==> stands_beyond(levels[b], side, price)
            &&& forall|i: int|
                0 <= i < n && stands_beyond(#[trigger] levels[i], side, price) ==> b >= 0
                    && !beyond(side, levels[b].price, levels[i].price)
        }),
    decreases n,
{
    if n > 0 {
        law_nearest_is_nearest(levels, side, price, (n - 1) as nat);
    }
}

/// The first level at or after `from` that is far enough: at or beyond
/// `reach`.
pub open spec fn target_at(levels: Seq<Level>, side: Side, reach: Num, from: int) -> int
    decreases levels.len() - from,
{
    if from >= levels.len() || !beyond(side, reach, levels[from].price) {
        from
    } else {
        target_at(levels, side, reach, from + 1)
    }
}

/// The least significance a target may have; zero asks for none.
pub open spec fn target_floor(min_sig: Num) -> Num {
    if min_sig == 0 {
        Num::MIN
    } else {
        min_sig
    }
}

/// The side a trade's targets are on.
pub open spec fn target_side(dir: Direction) -> Side {
    match dir {
        Direction::Bull => Side::Bsl,
        Direction::Bear => Side::Ssl,
    }
}

/// The price and id of a trade's target.
pub open spec fn target_of(
    levels: Seq<Level>,
    dir: Direction,
    entry: Num,
    has_risk: bool,
    reach: Num,
    min_sig: Num,
) -> Option<(Num, i64)> {
    let side = target_side(dir);
    let list = nearest_first(levels, side, entry, target_floor(min_sig));
    let i = target_at(list, side, reach, 0);
    if has_risk && i < list.len() {
        Some((list[i].price, list[i].id))
    } else {
        None
    }
}

// ─── Maintenance ────────────────────────────────────────────────────────────

/// How near a bar must close to refresh a level: buy-side levels up to
/// `bsl_max`, sell-side levels down to `ssl_min`, both measured from the bar's
/// close.
#[derive(Debug, Clone, Copy, PartialEq, Eq, Structural)]
pub struct Retest {
    pub bsl_max: Num,
    pub ssl_min: Num,
}

/// Whether the bar closed near the level without crossing it.
pub open spec fn retests(l: Level, c: Candle, q: Retest) -> bool {
    l.status == Status::Active && match l.side {
        Side::Bsl => c.high < l.price <= q.bsl_max,
        Side::Ssl => q.ssl_min <= l.price < c.low,
    }
}

/// A level after a bar: a retest resets its decay.
pub open spec fn refreshed(l: Level, c: Candle, q: Retest, now: i64) -> Level {
    if retests(l, c, q) {
        Level { decay: 0, last_touch: now, ..l }
    } else {
        l
    }
}

/// A level's decay after one more tick: from where it stands, or from zero.
#[derive(Debug, Clone, Copy, PartialEq, Eq, Structural)]
pub struct DecayQuote {
    pub from_now: Num,
    pub from_zero: Num,
}

/// A level after a decay tick: it expires once its decay reaches `max`.
pub open spec fn decayed(l: Level, q: DecayQuote, max: Num) -> Level {
    if l.status != Status::Active {
        l
    } else {
        let decay = if l.decay == 0 {
            q.from_zero
        } else {
            q.from_now
        };
        Level {
            decay,
            status: if decay >= max {
                Status::Expired
            } else {
                Status::Active
            },
            ..l
        }
    }
}

/// The active levels.
pub open spec fn active_levels(levels: Seq<Level>) -> Seq<Level>
    decreases levels.len(),
{
    if levels.len() == 0 {
        Seq::empty()
    } else if levels.last().status == Status::Active {
        active_levels(levels.drop_last()).push(levels.last())
    } else {
        active_levels(levels.drop_last())
    }
}

// ─── Sweeps ─────────────────────────────────────────────────────────────────

/// Which levels a bar crosses: buy-side levels at or below `bsl_max`,
/// sell-side levels at or above `ssl_min`.
#[derive(Debug, Clone, Copy, PartialEq, Eq, Structural)]
pub struct SweepQuote {
    pub bsl_max: Num,
    pub ssl_min: Num,
}

/// Whether the bar crosses the level.
pub open spec fn crosses(l: Level, q: SweepQuote) -> bool {
    match l.side {
        Side::Bsl => l.price <= q.bsl_max,
        Side::Ssl => l.price >= q.ssl_min,
    }
}

/// The bar's extreme past a level of a side.
pub open spec fn extreme_of(side: Side, c: Candle) -> Num {
    match side {
        Side::Bsl => c.high,
        Side::Ssl => c.low,
    }
}

/// The place of a level's crossing on a timeframe, at or after `from`.
pub open spec fn dev_at(devs: Seq<Developing>, id: i64, tf: u16, from: int) -> int
    decreases devs.len() - from,
{
    if from >= devs.len() || (devs[from].level_id == id && devs[from].tf == tf) {
        from
    } else {
        dev_at(devs, id, tf, from + 1)
    }
}

/// A crossing after one more bar past the level.
pub open spec fn extended(d: Developing, side: Side, extreme: Num, ts: i64) -> Developing {
    let more = beyond(side, extreme, d.extreme_price);
    Developing {
        count: (d.count + 1) as i64,
        extreme_price: if more {
            extreme
        } else {
            d.extreme_price
        },
        extreme_ts: if more {
            ts
        } else {
            d.extreme_ts
        },
        ..d
    }
}

/// The first bar of a crossing.
pub open spec fn first_crossing(l: Level, tf: u16, extreme: Num, ts: i64) -> Developing {
    Developing {
        level_id: l.id,
        tf,
        start_ts: ts,
        extreme_price: extreme,
        extreme_ts: ts,
        count: 1,
        dir: after_sweep(l.side),
    }
}

/// The sweep a crossing became.
pub open spec fn sweep_of(d: Developing, l: Level) -> Sweep {
    Sweep {
        level_id: l.id,
        level_price: l.price,
        level_source: l.source,
        level_sig: l.sig,
        level_side: l.side,
        dir: d.dir,
        start_ts: d.start_ts,
        extreme_ts: d.extreme_ts,
        extreme_price: d.extreme_price,
        magnitude_atr: 0,
        level_formed_at: l.ts,
    }
}

/// The sweep detection so far.
pub struct SweepRun {
    pub reg: Reg,
    pub sweeps: Seq<Sweep>,
}

/// A crossing of the `i`-th level became a sweep.
pub open spec fn swept(s: SweepRun, i: int, devs: Seq<Developing>, d: Developing) -> SweepRun {
    let l = s.reg.levels[i];
    SweepRun {
        reg: Reg {
            levels: s.reg.levels.update(i, Level { status: Status::Swept, ..l }),
            devs,
            ..s.reg
        },
        sweeps: s.sweeps.push(sweep_of(d, l)),
    }
}

/// One level under one bar. A crossing starts or goes on while the bar is
/// past the level, and becomes a sweep when price comes back or after
/// `max_multi` bars.
pub open spec fn sweep_level(
    s: SweepRun,
    i: int,
    q: SweepQuote,
    cfg: SweepCfg,
    c: Candle,
    ts: i64,
) -> SweepRun {
    let l = s.reg.levels[i];
    let devs = s.reg.devs;
    let d = dev_at(devs, l.id, c.timeframe, 0);
    let extreme = extreme_of(l.side, c);
    if l.status != Status::Active || l.sig < cfg.min_level_sig {
        s
    } else if !crosses(l, q) {
        if d < devs.len() {
            swept(s, i, devs.remove(d), devs[d])
        } else {
            s
        }
    } else if d < devs.len() {
        let e = extended(devs[d], l.side, extreme, ts);
        if e.count >= cfg.max_multi_candle {
            swept(s, i, devs.remove(d), e)
        } else {
            SweepRun { reg: Reg { devs: devs.update(d, e), ..s.reg }, ..s }
        }
    } else {
        let e = first_crossing(l, c.timeframe, extreme, ts);
        if e.count >= cfg.max_multi_candle {
            swept(s, i, devs, e)
        } else {
            SweepRun { reg: Reg { devs: devs.push(e), ..s.reg }, ..s }
        }
    }
}

/// The first `n` levels under one bar.
pub open spec fn sweeps_after(
    r: Reg,
    q: SweepQuote,
    cfg: SweepCfg,
    c: Candle,
    ts: i64,
    n: nat,
) -> SweepRun
    decreases n,
{
    if n == 0 {
        SweepRun { reg: r, sweeps: Seq::empty() }
    } else {
        sweep_level(sweeps_after(r, q, cfg, c, ts, (n - 1) as nat), n - 1, q, cfg, c, ts)
    }
}

/// Every crossing still has bars to go.
pub open spec fn devs_room(devs: Seq<Developing>) -> bool {
    forall|i: int| 0 <= i < devs.len() ==> (#[trigger] devs[i]).count < i64::MAX
}

impl Registry {
    /// See [`reg_wf`].
    pub open spec fn wf(&self, sources: Sources) -> bool {
        reg_wf(self@, sources.infos@.len() as int)
    }

    /// The empty registry.
    pub fn new() -> (r: Self)
        ensures
            r@ == (Reg { levels: Seq::empty(), next_id: 0, devs: Seq::empty() }),
            forall|s: Sources| r.wf(s),
    {
        Registry { levels: Vec::new(), next_level_id: 0, developing: Vec::new() }
    }

    /// Add a level, or its touches to the first active level of its side
    /// within `band`. Returns the level's id.
    pub fn add_level(&mut self, sources: &Sources, n: &NewLevel, band: Option<Band>) -> (r: i64)
        requires
            sources.wf(),
            old(self).wf(*sources),
            n.source < sources.infos@.len(),
            reg_room(old(self)@, n.touch as int),
        ensures
            final(self).wf(*sources),
            final(self)@ == level_added(old(self)@, *sources, *n, band),
            r == added_id(old(self)@, *n, band),
    {
        let len: usize = self.levels.len();
        let mut i: usize = match band {
            Some(b) => 0,
            None => len,
        };
        if let Some(b) = band {
            while i < self.levels.len() && !(self.levels[i].status == Status::Active
                && self.levels[i].side == n.side && b.lo <= self.levels[i].price
                && self.levels[i].price <= b.hi)
                invariant
                    *self == *old(self),
                    i <= self.levels@.len(),
                    absorber(self.levels@, n.side, b, i as int) == absorber(
                        self.levels@,
                        n.side,
                        b,
                        0,
                    ),
                decreases self.levels@.len() - i,
            {
                i = i + 1;
            }
        }
        if i < self.levels.len() {
            let mut l = self.levels[i];
            let touch: i64 = l.touch + n.touch;
            l.touch = touch;
            l.sig = sources.significance(l.source, l.tf, touch);
            l.decay = 0;
            l.last_touch = n.ts;
            self.levels.set(i, l);
            return l.id;
        }
        let id: i64 = self.next_level_id;
        self.next_level_id = id + 1;
        self.levels.push(
            Level {
                id,
                price: n.price,
                side: n.side,
                source: n.source,
                tf: n.tf,
                ts: n.ts,
                touch: n.touch,
                status: Status::Active,
                decay: 0,
                last_touch: n.ts,
                sig: sources.significance(n.source, n.tf, n.touch),
            },
        );
        id
    }

    /// The level under an id. Ids ascend, so halving finds it.
    pub fn level(&self, id: i64, sources: &Sources) -> (r: Option<Level>)
        requires
            self.wf(*sources),
        ensures
            r matches Some(l) ==> l.id == id && self@.levels.contains(l),
            r is None ==> forall|i: int|
                0 <= i < self@.levels.len() ==> (#[trigger] self@.levels[i]).id != id,
    {
        let ghost s = self.levels@;
        let mut lo: usize = 0;
        let mut hi: usize = self.levels.len();
        while lo < hi
            invariant
                s == self.levels@,
                self.wf(*sources),
                lo <= hi <= s.len(),
                forall|i: int| 0 <= i < lo ==> (#[trigger] s[i]).id < id,
                forall|i: int| hi <= i < s.len() ==> (#[trigger] s[i]).id > id,
            decreases hi - lo,
        {
            let mid: usize = lo + (hi - lo) / 2;
            let l = self.levels[mid];
            if l.id == id {
                assert(self@.levels[mid as int] == l);
                return Some(l);
            }
            if l.id < id {
                proof {
                    assert forall|i: int| 0 <= i < mid + 1 implies (#[trigger] s[i]).id < id by {
                        if i < mid {
                            assert(s[i].id < s[mid as int].id);
                        }
                    }
                }
                lo = mid + 1;
            } else {
                proof {
                    assert forall|i: int| mid <= i < s.len() implies (#[trigger] s[i]).id > id by {
                        if i > mid {
                            assert(s[mid as int].id < s[i].id);
                        }
                    }
                }
                hi = mid;
            }
        }
        None
    }

    /// Active levels of a side beyond a price, at or above a significance,
    /// nearest first.
    pub fn levels_beyond(&self, side: Side, price: Num, min_sig: Num) -> (r: Vec<Level>)
        ensures
            r@ == nearest_first(self@.levels, side, price, min_sig),
    {
        let ghost s = self.levels@;
        let mut found: Vec<Level> = Vec::new();
        let mut keys: Vec<Key> = Vec::new();
        let mut i: usize = 0;
        while i < self.levels.len()
            invariant
                s == self.levels@,
                i <= s.len(),
                found@ == standing(s.subrange(0, i as int), side, price, min_sig),
                keys@ == near_keys(found@, side),
            decreases s.len() - i,
        {
            proof {
                assert(s.subrange(0, i + 1).drop_last() =~= s.subrange(0, i as int));
            }
            let l = self.levels[i];
            if l.status == Status::Active && l.side == side && is_beyond(side, l.price, price)
                && l.sig >= min_sig {
                let ghost before = found@;
                found.push(l);
                keys.push(
                    match side {
                        Side::Bsl => (l.price as i128, 0),
                        Side::Ssl => (-(l.price as i128), 0),
                    },
                );
                proof {
                    assert(keys@ =~= near_keys(found@, side));
                }
            }
            i = i + 1;
        }
        proof {
            assert(s.subrange(0, i as int) =~= s);
        }
        let order = stable_order(&keys);
        let mut out: Vec<Level> = Vec::new();
        let mut j: usize = 0;
        while j < order.len()
            invariant
                j <= order@.len(),
                order@.len() == found@.len(),
                stable_order_of(near_keys(found@, side), order@),
                near_keys(found@, side).len() == found@.len(),
                out@.len() == j,
                forall|k: int| 0 <= k < j ==> #[trigger] out@[k] == found@[order@[k] as int],
            decreases order@.len() - j,
        {
            assert(order@[j as int] < found@.len());
            out.push(found[order[j]]);
            j = j + 1;
        }
        proof {
            assert(out@ =~= nearest_first(s, side, price, min_sig));
        }
        out
    }

    /// The nearest active level of a side beyond a price.
    pub fn nearest_beyond(&self, side: Side, price: Num) -> (r: Option<Level>)
        ensures
            ({
                let b = nearest_at(self@.levels, side, price, self@.levels.len());
                r == if b >= 0 {
                    Some(self@.levels[b])
                } else {
                    None
                }
            }),
    {
        let ghost s = self.levels@;
        let mut found: Option<usize> = None;
        let mut i: usize = 0;
        while i < self.levels.len()
            invariant
                s == self.levels@,
                i <= s.len(),
                nearest_at(s, side, price, i as nat) == match found {
                    Some(b) => b as int,
                    None => -1int,
                },
                found matches Some(b) ==> b < i,
            decreases s.len() - i,
        {
            let l = self.levels[i];
            if l.status == Status::Active && l.side == side && is_beyond(side, l.price, price) {
                let better = match found {
                    None => true,
                    Some(b) => is_beyond(side, self.levels[b].price, l.price),
                };
                if better {
                    found = Some(i);
                }
            }
            i = i + 1;
        }
        match found {
            Some(b) => Some(self.levels[b]),
            None => None,
        }
    }

    /// The nearest level in a trade's direction that lies at or beyond
    /// `reach` (the price its minimum reward needs) and is significant enough
    /// (0 = any). A trade without risk has no target.
    pub fn find_target(
        &self,
        dir: Direction,
        entry: Num,
        has_risk: bool,
        reach: Num,
        min_sig: Num,
    ) -> (r: Option<(Num, i64)>)
        ensures
            r == target_of(self@.levels, dir, entry, has_risk, reach, min_sig),
    {
        if !has_risk {
            return None;
        }
        let side = match dir {
            Direction::Bull => Side::Bsl,
            Direction::Bear => Side::Ssl,
        };
        let floor: Num = if min_sig == 0 {
            Num::MIN
        } else {
            min_sig
        };
        let list = self.levels_beyond(side, entry, floor);
        let mut i: usize = 0;
        while i < list.len() && is_beyond(side, reach, list[i].price)
            invariant
                i <= list@.len(),
                target_at(list@, side, reach, i as int) == target_at(list@, side, reach, 0),
            decreases list@.len() - i,
        {
            i = i + 1;
        }
        if i < list.len() {
            Some((list[i].price, list[i].id))
        } else {
            None
        }
    }

    /// Reset the decay of the levels a bar came near without crossing.
    pub fn refresh_on_retest(&mut self, c: &Candle, q: &Retest, now: i64)
        ensures
            final(self)@ == (Reg {
                levels: old(self)@.levels.map_values(|l: Level| refreshed(l, *c, *q, now)),
                ..old(self)@
            }),
    {
        let ghost s = self.levels@;
        let mut i: usize = 0;
        while i < self.levels.len()
            invariant
                self.levels@.len() == s.len(),
                i <= s.len(),
                self@ == (Reg { levels: self.levels@, ..old(self)@ }),
                forall|k: int| 0 <= k < i ==> #[trigger] self.levels@[k] == refreshed(s[k], *c, *q, now),
                forall|k: int| i <= k < s.len() ==> #[trigger] self.levels@[k] == s[k],
            decreases s.len() - i,
        {
            let mut l = self.levels[i];
            let near = l.status == Status::Active && match l.side {
                Side::Bsl => c.high < l.price && l.price <= q.bsl_max,
                Side::Ssl => l.price < c.low && q.ssl_min <= l.price,
            };
            if near {
                l.decay = 0;
                l.last_touch = now;
                self.levels.set(i, l);
            }
            i = i + 1;
        }
        proof {
            assert(self.levels@ =~= s.map_values(|l: Level| refreshed(l, *c, *q, now)));
        }
    }

    /// Advance every active level's decay by one tick.
    pub fn tick_decay(&mut self, quotes: &Vec<DecayQuote>, max: Num)
        requires
            quotes@.len() == old(self)@.levels.len(),
        ensures
            final(self)@ == (Reg {
                levels: Seq::new(
                    old(self)@.levels.len(),
                    |i: int| decayed(old(self)@.levels[i], quotes@[i], max),
                ),
                ..old(self)@
            }),
    {
        let ghost s = self.levels@;
        let mut i: usize = 0;
        while i < self.levels.len()
            invariant
                self.levels@.len() == s.len(),
                quotes@.len() == s.len(),
                i <= s.len(),
                self@ == (Reg { levels: self.levels@, ..old(self)@ }),
                forall|k: int| 0 <= k < i ==> #[trigger] self.levels@[k] == decayed(s[k], quotes@[k], max),
                forall|k: int| i <= k < s.len() ==> #[trigger] self.levels@[k] == s[k],
            decreases s.len() - i,
        {
            let mut l = self.levels[i];
            if l.status == Status::Active {
                l.decay = if l.decay == 0 {
                    quotes[i].from_zero
                } else {
                    quotes[i].from_now
                };
                if l.decay >= max {
                    l.status = Status::Expired;
                }
                self.levels.set(i, l);
            }
            i = i + 1;
        }
        proof {
            assert(self.levels@ =~= Seq::new(
                s.len(),
                |i: int| decayed(s[i], quotes@[i], max),
            ));
        }
    }

    /// Drop the levels that are not active.
    pub fn prune_levels(&mut self)
        ensures
            final(self)@ == (Reg { levels: active_levels(old(self)@.levels), ..old(self)@ }),
    {
        let ghost s = self.levels@;
        let mut kept: Vec<Level> = Vec::new();
        let mut i: usize = 0;
        while i < self.levels.len()
            invariant
                s == self.levels@,
                i <= s.len(),
                kept@ == active_levels(s.subrange(0, i as int)),
            decreases s.len() - i,
        {
            proof {
                assert(s.subrange(0, i + 1).drop_last() =~= s.subrange(0, i as int));
            }
            if self.levels[i].status == Status::Active {
                kept.push(self.levels[i]);
            }
            i = i + 1;
        }
        proof {
            assert(s.subrange(0, i as int) =~= s);
        }
        self.levels = kept;
    }

    fn find_dev(&self, id: i64, tf: u16) -> (r: usize)
        ensures
            r <= self.developing@.len(),
            r == dev_at(self.developing@, id, tf, 0),
    {
        let mut i: usize = 0;
        while i < self.developing.len() && !(self.developing[i].level_id == id
            && self.developing[i].tf == tf)
            invariant
                i <= self.developing@.len(),
                dev_at(self.developing@, id, tf, i as int) == dev_at(self.developing@, id, tf, 0),
            decreases self.developing@.len() - i,
        {
            i = i + 1;
        }
        i
    }

    fn finish_sweep(&mut self, i: usize, d: Developing, sweeps: &mut Vec<Sweep>)
        requires
            i < old(self)@.levels.len(),
        ensures
            ({
                let s = SweepRun { reg: old(self)@, sweeps: old(sweeps)@ };
                let t = swept(s, i as int, old(self)@.devs, d);
                &&& final(self)@ == t.reg
                &&& final(sweeps)@ == t.sweeps
            }),
    {
        let mut l = self.levels[i];
        sweeps.push(
            Sweep {
                level_id: l.id,
                level_price: l.price,
                level_source: l.source,
                level_sig: l.sig,
                level_side: l.side,
                dir: d.dir,
                start_ts: d.start_ts,
                extreme_ts: d.extreme_ts,
                extreme_price: d.extreme_price,
                magnitude_atr: 0,
                level_formed_at: l.ts,
            },
        );
        l.status = Status::Swept;
        self.levels.set(i, l);
    }

    fn sweep_one(
        &mut self,
        i: usize,
        q: &SweepQuote,
        cfg: &SweepCfg,
        c: &Candle,
        ts: i64,
        sweeps: &mut Vec<Sweep>,
    )
        requires
            i < old(self)@.levels.len(),
            devs_room(old(self)@.devs),
        ensures
            ({
                let s = SweepRun { reg: old(self)@, sweeps: old(sweeps)@ };
                let t = sweep_level(s, i as int, *q, *cfg, *c, ts);
                &&& final(self)@ == t.reg
                &&& final(sweeps)@ == t.sweeps
            }),
            devs_room(final(self)@.devs),
            final(self)@.levels.len() == old(self)@.levels.len(),
    {
        let l = self.levels[i];
        if l.status != Status::Active || l.sig < cfg.min_level_sig {
            return;
        }
        let (crossed, extreme) = match l.side {
            Side::Bsl => (l.price <= q.bsl_max, c.high),
            Side::Ssl => (l.price >= q.ssl_min, c.low),
        };
        let d: usize = self.find_dev(l.id, c.timeframe);
        if !crossed {
            if d < self.developing.len() {
                let dev = self.developing.remove(d);
                self.finish_sweep(i, dev, sweeps);
            }
            return;
        }
        if d < self.developing.len() {
            let mut dev = self.developing[d];
            assert(devs_room(self@.devs));
            dev.count = dev.count + 1;
            if is_beyond(l.side, extreme, dev.extreme_price) {
                dev.extreme_price = extreme;
                dev.extreme_ts = ts;
            }
            if dev.count >= cfg.max_multi_candle {
                self.developing.remove(d);
                self.finish_sweep(i, dev, sweeps);
            } else {
                self.developing.set(d, dev);
            }
            return;
        }
        let dir = match l.side {
            Side::Bsl => Direction::Bear,
            Side::Ssl => Direction::Bull,
        };
        let dev = Developing {
            level_id: l.id,
            tf: c.timeframe,
            start_ts: ts,
            extreme_price: extreme,
            extreme_ts: ts,
            count: 1,
            dir,
        };
        if dev.count >= cfg.max_multi_candle {
            self.finish_sweep(i, dev, sweeps);
        } else {
            self.developing.push(dev);
        }
    }

    /// Advance the crossings by one bar; those that end are returned as
    /// sweeps, and their levels leave the active ones.
    pub fn detect_sweeps(&mut self, c: &Candle, ts: i64, q: &SweepQuote, cfg: &SweepCfg) -> (r: Vec<
        Sweep,
    >)
        requires
            devs_room(old(self)@.devs),
        ensures
            ({
                let t = sweeps_after(old(self)@, *q, *cfg, *c, ts, old(self)@.levels.len());
                &&& final(self)@ == t.reg
                &&& r@ == t.sweeps
            }),
            devs_room(final(self)@.devs),
    {
        let ghost r0 = self@;
        let mut sweeps: Vec<Sweep> = Vec::new();
        let n: usize = self.levels.len();
        let mut i: usize = 0;
        while i < n
            invariant
                i <= n,
                n == r0.levels.len(),
                self@.levels.len() == n,
                devs_room(self@.devs),
                ({
                    let t = sweeps_after(r0, *q, *cfg, *c, ts, i as nat);
                    &&& self@ == t.reg
                    &&& sweeps@ == t.sweeps
                }),
            decreases n - i,
        {
            self.sweep_one(i, q, cfg, c, ts, &mut sweeps);
            i = i + 1;
        }
        sweeps
    }
}

// ─── What the operations keep ───────────────────────────────────────────────

/// The same levels, but for what became of them.
pub open spec fn same_levels(a: Seq<Level>, b: Seq<Level>) -> bool {
    &&& a.len() == b.len()
    &&& forall|i: int|
        0 <= i < a.len() ==> {
            &&& (#[trigger] a[i]).id == b[i].id
            &&& a[i].price == b[i].price
            &&& a[i].side == b[i].side
            &&& a[i].source == b[i].source
            &&& a[i].tf == b[i].tf
            &&& a[i].ts == b[i].ts
            &&& a[i].touch == b[i].touch
            &&& a[i].sig == b[i].sig
        }
}

/// Only active levels can change what became of them.
pub open spec fn only_active_change(a: Seq<Level>, b: Seq<Level>) -> bool {
    forall|i: int|
        0 <= i < a.len() && (#[trigger] a[i]).status != Status::Active ==> b[i] == a[i]
}

pub(crate) proof fn lemma_sweeps_keep(
    r: Reg,
    q: SweepQuote,
    cfg: SweepCfg,
    c: Candle,
    ts: i64,
    n: nat,
)
    requires
        n <= r.levels.len(),
    ensures
        ({
            let t = sweeps_after(r, q, cfg, c, ts, n).reg;
            &&& same_levels(r.levels, t.levels)
            &&& only_active_change(r.levels, t.levels)
            &&& t.next_id == r.next_id
        }),
    decreases n,
{
    if n > 0 {
        lemma_sweeps_keep(r, q, cfg, c, ts, (n - 1) as nat);
    }
}

/// Sweeping never moves, adds or drops a level, and never changes one that is
/// not active.
pub proof fn law_sweeps_only_retire_active_levels(
    r: Reg,
    q: SweepQuote,
    cfg: SweepCfg,
    c: Candle,
    ts: i64,
)
    ensures
        same_levels(r.levels, sweeps_after(r, q, cfg, c, ts, r.levels.len()).reg.levels),
        only_active_change(r.levels, sweeps_after(r, q, cfg, c, ts, r.levels.len()).reg.levels),
{
    lemma_sweeps_keep(r, q, cfg, c, ts, r.levels.len());
}

/// A level that was swept or expired is out for good: it absorbs nothing, is
/// not refreshed, does not decay, and stands beyond no price.
pub proof fn law_retired_levels_stay_retired(
    l: Level,
    side: Side,
    band: Band,
    c: Candle,
    retest: Retest,
    now: i64,
    q: DecayQuote,
    max: Num,
    price: Num,
)
    requires
        l.status != Status::Active,
    ensures
        !absorbs(l, side, band),
        refreshed(l, c, retest, now) == l,
        decayed(l, q, max) == l,
        !stands_beyond(l, side, price),
{
}

pub(crate) proof fn lemma_absorber(levels: Seq<Level>, side: Side, band: Band, from: int)
    requires
        0 <= from <= levels.len(),
    ensures
        from <= absorber(levels, side, band, from) <= levels.len(),
        absorber(levels, side, band, from) < levels.len() ==> absorbs(
            levels[absorber(levels, side, band, from)],
            side,
            band,
        ),
    decreases levels.len() - from,
{
    if from < levels.len() && !absorbs(levels[from], side, band) {
        lemma_absorber(levels, side, band, from + 1);
    }
}

/// A level merges only into an active one of its own side within the band;
/// without a band it always stands on its own.
pub proof fn law_merging_stays_on_its_side(r: Reg, s: Sources, n: NewLevel, band: Option<Band>)
    requires
        r.next_id < i64::MAX,
    ensures
        band is None ==> level_added(r, s, n, band).levels.len() == r.levels.len() + 1,
        ({
            let i = joins_at(r.levels, n, band);
            &&& 0 <= i <= r.levels.len()
            &&& i < r.levels.len() ==> {
                &&& band matches Some(b) && in_band(b, r.levels[i].price)
                &&& r.levels[i].side == n.side
                &&& r.levels[i].status == Status::Active
            }
        }),
{
    if let Some(b) = band {
        lemma_absorber(r.levels, n.side, b, 0);
    }
}

pub(crate) proof fn lemma_same_levels_wf(a: Reg, b: Reg, sources: int)
    requires
        reg_wf(a, sources),
        same_levels(a.levels, b.levels),
        a.next_id == b.next_id,
    ensures
        reg_wf(b, sources),
{
    assert forall|i: int| 0 <= i < b.levels.len() implies 0 <= (#[trigger] b.levels[i]).id
        < b.next_id && b.levels[i].source < sources by {
        assert(a.levels[i].id == b.levels[i].id);
    }
    assert forall|i: int, j: int| 0 <= i < j < b.levels.len() implies (#[trigger] b.levels[i]).id < (
    #[trigger] b.levels[j]).id by {
        assert(a.levels[i].id == b.levels[i].id);
        assert(a.levels[j].id == b.levels[j].id);
    }
}

pub(crate) proof fn lemma_prune_wf(r: Reg, sources: int)
    requires
        reg_wf(r, sources),
    ensures
        reg_wf(Reg { levels: active_levels(r.levels), ..r }, sources),
    decreases r.levels.len(),
{
    lemma_active(r.levels);
    let a = active_levels(r.levels);
    lemma_active_ascending(r.levels);
    assert forall|i: int| 0 <= i < a.len() implies 0 <= (#[trigger] a[i]).id < r.next_id
        && a[i].source < sources by {
        assert(r.levels.contains(a[i]));
        let k = choose|k: int| 0 <= k < r.levels.len() && r.levels[k] == a[i];
    }
}

pub(crate) proof fn lemma_active(levels: Seq<Level>)
    ensures
        forall|i: int|
            0 <= i < active_levels(levels).len() ==> levels.contains(
                #[trigger] active_levels(levels)[i],
            ) && active_levels(levels)[i].status == Status::Active,
        active_levels(levels).len() <= levels.len(),
    decreases levels.len(),
{
    if levels.len() > 0 {
        let d = levels.drop_last();
        lemma_active(d);
        assert forall|i: int| 0 <= i < active_levels(levels).len() implies levels.contains(
            #[trigger] active_levels(levels)[i],
        ) && active_levels(levels)[i].status == Status::Active by {
            if i < active_levels(d).len() {
                assert(d.contains(active_levels(d)[i]));
                let k = choose|k: int| 0 <= k < d.len() && d[k] == active_levels(d)[i];
                assert(levels[k] == active_levels(levels)[i]);
            } else {
                assert(levels[levels.len() - 1] == active_levels(levels)[i]);
            }
        }
    }
}

pub(crate) proof fn lemma_active_ascending(levels: Seq<Level>)
    requires
        forall|i: int, j: int|
            0 <= i < j < levels.len() ==> (#[trigger] levels[i]).id < (#[trigger] levels[j]).id,
    ensures
        forall|i: int, j: int|
            0 <= i < j < active_levels(levels).len() ==> (#[trigger] active_levels(levels)[i]).id < (
            #[trigger] active_levels(levels)[j]).id,
    decreases levels.len(),
{
    if levels.len() > 0 {
        let d = levels.drop_last();
        assert forall|i: int, j: int| 0 <= i < j < d.len() implies (#[trigger] d[i]).id < (
        #[trigger] d[j]).id by {
            assert(levels[i].id < levels[j].id);
        }
        lemma_active_ascending(d);
        lemma_active(d);
        let a = active_levels(levels);
        let b = active_levels(d);
        assert forall|i: int, j: int| 0 <= i < j < a.len() implies (#[trigger] a[i]).id < (
        #[trigger] a[j]).id by {
            if j < b.len() {
                assert(b[i].id < b[j].id);
            } else {
                assert(d.contains(b[i]));
                let k = choose|k: int| 0 <= k < d.len() && d[k] == b[i];
                assert(levels[k].id < levels[levels.len() - 1].id);
            }
        }
    }
}

/// Pruning keeps exactly the active levels.
pub proof fn law_pruning_keeps_the_active(levels: Seq<Level>, l: Level)
    ensures
        active_levels(levels).contains(l) <==> levels.contains(l) && l.status == Status::Active,
    decreases levels.len(),
{
    if levels.len() > 0 {
        let d = levels.drop_last();
        law_pruning_keeps_the_active(d, l);
        let a = active_levels(levels);
        let b = active_levels(d);
        if a.contains(l) {
            let k = choose|k: int| 0 <= k < a.len() && a[k] == l;
            if k < b.len() {
                assert(b[k] == l);
                let m = choose|m: int| 0 <= m < d.len() && d[m] == l;
                assert(levels[m] == l);
            } else {
                assert(levels[levels.len() - 1] == l);
            }
        }
        if levels.contains(l) && l.status == Status::Active {
            let k = choose|k: int| 0 <= k < levels.len() && levels[k] == l;
            if k < d.len() {
                assert(d[k] == l);
                let m = choose|m: int| 0 <= m < b.len() && b[m] == l;
                assert(a[m] == l);
            } else {
                assert(a[a.len() - 1] == l);
            }
        }
    }
}

} // verus!
