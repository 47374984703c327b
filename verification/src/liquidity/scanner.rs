//! All services, stepped once per candle.
use vstd::prelude::*;
use crate::clock::{civil_of, is_on_calendar, on_calendar};
use crate::key::Num;
use crate::liquidity::cfg::{len_of, to_len, ScannerCfg};
use crate::liquidity::day::Day;
use crate::liquidity::draw::DrawState;
use crate::liquidity::equal::{
    emitted_after, eq_cands, equals_fit, fits_side, highs_after, lows_after, EqCandidate, EqQuote,
    EqState,
};
use crate::liquidity::gaps::{gap_added, gaps_after, GapStore, Gaps, NewGap};
use crate::liquidity::levels::{
    devs_room, law_merging_stays_on_its_side, lemma_touch_of_a_prefix, level_added, reg_wf,
    total_touch, Band, DecayQuote, Level, NewLevel, Reg, Registry, Retest, Side, Sweep, SweepQuote,
};
use crate::liquidity::session::{levels_of_bar, PeriodIds, SessionState};
use crate::liquidity::signals::{
    bar_second, breaks_of, gaps_of, swings_of, BreakQuote, GapQuote, Signal, SignalKind,
    SignalStore,
};
use crate::liquidity::source::Sources;
use crate::models::{Candle, Direction};
use crate::tfmap::TfMap;

verus! {

/// The key of the number one.
pub const ONE: Num = 0x3ff0_0000_0000_0000;

/// The ids a scanner looks up once.
#[derive(Debug, Clone, Copy, PartialEq, Eq, Structural)]
pub struct ScannerIds {
    pub base_tf: u16,
    pub period: PeriodIds,
    pub swing_high: u16,
    pub swing_low: u16,
    pub eqh: u16,
    pub eql: u16,
}

/// The services' state.
#[derive(Clone)]
pub struct Scanner {
    pub cfg: ScannerCfg,
    pub sources: Sources,
    pub ids: ScannerIds,
    pub open_mark_src: Vec<u16>,
    /// Minutes per timeframe, the decay divisor.
    pub tf_minutes: TfMap<Num>,
    /// Gap midpoints eligible as targets, by timeframe.
    pub fvg_sig: TfMap<Num>,
    /// The newest bars of each timeframe.
    pub rings: TfMap<Vec<Candle>>,
    pub ring_cap: usize,
    pub atr_cache: TfMap<Num>,
    /// Candles of every timeframe.
    pub candle_count: i64,
    /// Candles of the base timeframe.
    pub base_count: i64,
    pub registry: Registry,
    pub signals: SignalStore,
    pub sess: SessionState,
    pub eq: Option<EqState>,
    pub gaps: GapStore,
    pub draw: DrawState,
    pub day_forming: Option<Day>,
    /// The newest positive ATR on any timeframe.
    pub last_atr: Num,
    /// Timeframes a strategy wants a hook on even without events.
    pub wake: Vec<u16>,
    pub wake_book: bool,
}

/// A structure break.
#[derive(Debug, Clone, Copy, PartialEq, Eq, Structural)]
pub struct Break {
    pub tf: u16,
    pub ts: i64,
    pub level: Num,
    pub dir: Direction,
}

/// What one bar produced.
#[derive(Debug, Clone)]
pub struct BarEvents {
    pub atr: Num,
    pub sweeps: Vec<Sweep>,
    pub breaks: Vec<Break>,
    /// The UTC day that the bar ended.
    pub day_closed: Option<Day>,
    /// The draw map is due a rebuild.
    pub draw_due: bool,
}

/// A bar's numbers, as the caller computes them from the scanner's prices.
#[derive(Debug, Clone)]
pub struct ScanQuote {
    /// The mean true range of the timeframe's bars, this one included.
    pub atr: Num,
    pub gap: GapQuote,
    pub brk: BreakQuote,
    /// The prices that merge with a swing high and a swing low.
    pub high_band: Band,
    pub low_band: Band,
    pub sweep: SweepQuote,
    /// The numbers of the clusters of equal highs and lows, where a scan for
    /// them is due.
    pub equals: EqQuote,
}

/// The numbers of the maintenance after a strategy's hooks.
#[derive(Debug, Clone)]
pub struct HookQuote {
    pub retest: Retest,
    /// One per level.
    pub decay: Vec<DecayQuote>,
}

// ─── What a bar does ────────────────────────────────────────────────────────

/// The bars kept of a timeframe.
pub open spec fn ring_of(rings: Map<u16, Vec<Candle>>, tf: u16) -> Seq<Candle> {
    if rings.contains_key(tf) {
        rings[tf]@
    } else {
        Seq::empty()
    }
}

/// The newest `cap` bars once a bar is in.
pub open spec fn ring_after(ring: Seq<Candle>, c: Candle, cap: int) -> Seq<Candle> {
    let r = ring.push(c);
    if r.len() <= cap {
        r
    } else {
        r.subrange(r.len() - cap, r.len() as int)
    }
}

/// The ATR of a bar: measured once there are three bars, before that the last
/// one measured, or zero.
pub open spec fn atr_of_bar(s: Scanner, tf: u16, bars: int, measured: Num) -> Num {
    if bars > 2 {
        measured
    } else if s.atr_cache@.contains_key(tf) {
        s.atr_cache@[tf]
    } else {
        0
    }
}

/// A level to add, and what it merges with.
pub type Addition = (NewLevel, Option<Band>);

/// The first `n` levels are added.
pub open spec fn all_added(r: Reg, s: Sources, list: Seq<Addition>, n: nat) -> Reg
    decreases n,
{
    if n == 0 {
        r
    } else {
        level_added(all_added(r, s, list, (n - 1) as nat), s, list[n - 1].0, list[n - 1].1)
    }
}

/// Levels that merge with nothing.
pub open spec fn unmerged(list: Seq<NewLevel>) -> Seq<Addition> {
    Seq::new(list.len(), |i: int| (list[i], None::<Band>))
}

/// A swing's level; without an ATR it merges with nothing.
pub open spec fn swing_addition(ids: ScannerIds, s: Signal, q: ScanQuote, atr: Num) -> Addition {
    let high = s.kind == SignalKind::SwingHigh;
    (
        NewLevel {
            price: s.level,
            side: if high {
                Side::Bsl
            } else {
                Side::Ssl
            },
            source: if high {
                ids.swing_high
            } else {
                ids.swing_low
            },
            tf: s.tf,
            ts: s.ts,
            touch: 1,
        },
        if atr > 0 {
            Some(
                if high {
                    q.high_band
                } else {
                    q.low_band
                },
            )
        } else {
            None
        },
    )
}

/// The swings' levels.
pub open spec fn swing_additions(
    ids: ScannerIds,
    swings: Seq<Signal>,
    q: ScanQuote,
    atr: Num,
) -> Seq<Addition> {
    Seq::new(swings.len(), |i: int| swing_addition(ids, swings[i], q, atr))
}

/// Levels that merge within their bands.
pub open spec fn banded(list: Seq<(NewLevel, Band)>) -> Seq<Addition> {
    Seq::new(list.len(), |i: int| (list[i].0, Some(list[i].1)))
}

/// Equal highs and lows are looked for on this bar.
pub open spec fn eq_runs(s: Scanner, c: Candle, atr: Num) -> bool {
    s.cfg.equal_levels is Some && s.eq is Some && c.timeframe == s.ids.base_tf && atr > 0
}

/// A scan of the equal highs and lows is due on this bar.
pub open spec fn eq_due(s: Scanner, c: Candle, atr: Num) -> bool {
    eq_runs(s, c, atr) && s.cfg.equal_levels->0.every > 0 && (s.eq->0.count + 1)
        % s.cfg.equal_levels->0.every as int == 0
}

/// The clusters of the highs and lows kept once the bar is in.
pub open spec fn clusters_now(s: Scanner, c: Candle, q: ScanQuote) -> Seq<EqCandidate> {
    let window = len_of(s.cfg.equal_levels->0.window);
    eq_cands(highs_after(s.eq->0, c, window), lows_after(s.eq->0, c, window), q.equals)
}

/// Where a scan is due, its numbers fit the highs and lows it looks at.
pub open spec fn equals_ok(s: Scanner, c: Candle, q: ScanQuote) -> bool {
    eq_due(s, c, atr_now(s, c, q)) ==> {
        let window = len_of(s.cfg.equal_levels->0.window);
        equals_fit(highs_after(s.eq->0, c, window), lows_after(s.eq->0, c, window), q.equals)
    }
}

/// The levels of equal highs and lows.
pub open spec fn eq_additions(s: Scanner, c: Candle, q: ScanQuote, atr: Num) -> Seq<Addition> {
    if eq_due(s, c, atr) {
        banded(
            emitted_after(
                s.eq->0.emitted@,
                s.cfg.equal_levels->0,
                clusters_now(s, c, q),
                s.ids.eqh,
                s.ids.eql,
                c.timeframe,
                bar_second(c),
                clusters_now(s, c, q).len(),
            ).out,
        )
    } else {
        Seq::empty()
    }
}

/// The bars of the candle's timeframe, it included.
pub open spec fn bars_of(s: Scanner, c: Candle) -> Seq<Candle> {
    ring_after(ring_of(s.rings@, c.timeframe), c, s.ring_cap as int)
}

/// The ATR of the candle.
pub open spec fn atr_now(s: Scanner, c: Candle, q: ScanQuote) -> Num {
    atr_of_bar(s, c.timeframe, bars_of(s, c).len() as int, q.atr)
}

/// The swings of the candle.
pub open spec fn swings_now(s: Scanner, c: Candle) -> Seq<Signal> {
    swings_of(
        s.signals.signals@,
        bars_of(s, c),
        c.timeframe,
        len_of(s.cfg.primitives.swing_lookback),
    )
}

/// The gaps of the candle.
pub open spec fn gaps_now(s: Scanner, c: Candle, q: ScanQuote) -> Seq<Signal> {
    gaps_of(s.signals.signals@, bars_of(s, c), c.timeframe, q.gap)
}

/// The breaks of the candle.
pub open spec fn breaks_now(s: Scanner, c: Candle, q: ScanQuote) -> Seq<Signal> {
    breaks_of(s.signals.signals@, bars_of(s, c).len() as int, c.timeframe, c, q.brk)
}

/// The levels of the periods and sessions that the candle ends.
pub open spec fn session_now(s: Scanner, c: Candle) -> Seq<NewLevel> {
    levels_of_bar(
        s.sess,
        s.cfg.sessions,
        s.ids.period,
        s.open_mark_src@,
        c,
        civil_of(bar_second(c) + s.cfg.sessions.tz_offset_secs),
        bar_second(c),
    )
}

/// All levels the candle adds: the sessions', the swings', the equal ones.
pub open spec fn additions(s: Scanner, c: Candle, q: ScanQuote) -> Seq<Addition> {
    let atr = atr_now(s, c, q);
    unmerged(session_now(s, c)) + swing_additions(s.ids, swings_now(s, c), q, atr) + eq_additions(
        s,
        c,
        q,
        atr,
    )
}

/// The levels of additions.
pub open spec fn bare(list: Seq<Addition>) -> Seq<NewLevel> {
    Seq::new(list.len(), |i: int| list[i].0)
}

/// The registry once they are added.
pub open spec fn registry_filled(s: Scanner, c: Candle, q: ScanQuote) -> Reg {
    let a = additions(s, c, q);
    all_added(s.registry@, s.sources, a, a.len())
}

/// A gap of the candle. Its near edge is the one a retrace reaches first: the
/// upper edge of a bullish gap, the lower edge of a bearish one.
pub open spec fn gap_of_signal(s: Signal, q: GapQuote) -> NewGap {
    NewGap {
        dir: s.dir,
        tf: s.tf,
        ts: s.ts,
        near: match s.dir {
            Direction::Bull => s.level_end,
            Direction::Bear => s.level,
        },
        far: match s.dir {
            Direction::Bull => s.level,
            Direction::Bear => s.level_end,
        },
        ce: match s.dir {
            Direction::Bull => q.bull_ce,
            Direction::Bear => q.bear_ce,
        },
        c1_stop: s.c1_stop,
    }
}

/// The first `n` gaps of the candle are tracked.
pub open spec fn gaps_tracked(
    g: Gaps,
    cfg: crate::liquidity::cfg::FvgCfg,
    list: Seq<Signal>,
    q: GapQuote,
    n: nat,
) -> Gaps
    decreases n,
{
    if n == 0 {
        g
    } else {
        gap_added(
            gaps_tracked(g, cfg, list, q, (n - 1) as nat),
            cfg,
            gap_of_signal(list[n - 1], q),
        )
    }
}

/// The gaps after the candle.
pub open spec fn gap_store_after(s: Scanner, c: Candle, q: ScanQuote) -> Gaps {
    let list = gaps_now(s, c, q);
    gaps_after(
        gaps_tracked(s.gaps@, s.cfg.fvg, list, q.gap, list.len()),
        s.cfg.fvg,
        c,
        bar_second(c),
    )
}

/// How many base candles there are once the candle is in.
pub open spec fn base_count_after(s: Scanner, c: Candle) -> int {
    s.base_count + if c.timeframe == s.ids.base_tf {
        1int
    } else {
        0int
    }
}

/// The draw map is due a rebuild: every so many base candles, and on any bar
/// that finalizes a sweep, wherever there is an ATR to measure by.
pub open spec fn draw_is_due(s: Scanner, c: Candle, atr: Num, sweeps: int) -> bool {
    match s.cfg.draw {
        Some(d) => d.enabled && atr > 0 && (sweeps > 0 || (c.timeframe == s.ids.base_tf && d.every
            > 0 && base_count_after(s, c) % d.every as int == 0)),
        None => false,
    }
}

/// Breaks as a strategy sees them.
pub open spec fn bare_breaks(list: Seq<Signal>) -> Seq<Break> {
    Seq::new(
        list.len(),
        |i: int| Break { tf: list[i].tf, ts: list[i].ts, level: list[i].level, dir: list[i].dir },
    )
}

/// The equal-level state after the candle.
pub open spec fn eq_ok(before: Scanner, after: Option<EqState>, c: Candle, q: ScanQuote) -> bool {
    let atr = atr_now(before, c, q);
    if !eq_runs(before, c, atr) {
        after == before.eq
    } else {
        let cfg = before.cfg.equal_levels->0;
        let s = before.eq->0;
        after matches Some(t) && {
            &&& t.count == s.count + 1
            &&& t.highs@ == highs_after(s, c, len_of(cfg.window))
            &&& t.lows@ == lows_after(s, c, len_of(cfg.window))
            &&& t.last_close == c.close
            &&& ({
                let e = emitted_after(
                    s.emitted@,
                    cfg,
                    clusters_now(before, c, q),
                    before.ids.eqh,
                    before.ids.eql,
                    c.timeframe,
                    bar_second(c),
                    clusters_now(before, c, q).len(),
                ).emitted;
                t.emitted@ == if !eq_due(before, c, atr) {
                    s.emitted@
                } else if e.len() > cfg.emitted_cap {
                    Seq::empty()
                } else {
                    e
                }
            })
        }
    }
}

/// The ids name what they are for.
pub open spec fn ids_ok(s: Scanner) -> bool {
    let n = s.sources.infos@.len();
    let p = s.ids.period;
    &&& p.pdh < n && p.pdl < n && p.pwh < n && p.pwl < n && p.pmh < n && p.pml < n
    &&& p.session_high < n && p.session_low < n
    &&& s.ids.swing_high < n && s.ids.swing_low < n && s.ids.eqh < n && s.ids.eql < n
    &&& s.open_mark_src@.len() == s.cfg.sessions.open_marks@.len()
    &&& forall|k: int| 0 <= k < s.open_mark_src@.len() ==> (#[trigger] s.open_mark_src@[k]) < n
}

/// Minutes of a level's timeframe, and whether the level decays slower.
pub open spec fn terms_of(s: Scanner, l: Level) -> (Option<Num>, bool) {
    (
        if s.tf_minutes@.contains_key(l.tf) {
            Some(s.tf_minutes@[l.tf])
        } else {
            None
        },
        s.cfg.levels.sig_decay_mult > ONE && l.sig >= s.cfg.levels.sig_decay_min_sig,
    )
}

// ─── Limits ─────────────────────────────────────────────────────────────────

/// Counts a scanner takes more bars below.
pub const COUNT_LIMIT: i64 = 0x1000_0000_0000_0000;

/// Entries a configured list or a window can have.
pub const LIST_LIMIT: u64 = 0x100_0000_0000;

/// Touches that the levels of one bar can have together.
pub const TOUCH_LIMIT: i64 = 0x800_0000_0000;

/// Gaps a scanner takes more bars below.
pub const GAP_LIMIT: u64 = 0x100_0000_0000;

/// Largest configured lookback and period.
pub const LOOKBACK_LIMIT: i64 = 0x2000_0000;

/// Largest clock offset, in seconds.
pub const OFFSET_LIMIT: i64 = 9_000_000_000_000_000_000;

/// The configuration is within the limits.
pub open spec fn cfg_ok(cfg: ScannerCfg) -> bool {
    &&& cfg.primitives.swing_lookback <= LOOKBACK_LIMIT
    &&& cfg.primitives.atr_period <= LOOKBACK_LIMIT
    &&& -OFFSET_LIMIT <= cfg.sessions.tz_offset_secs <= OFFSET_LIMIT
    &&& cfg.sessions.sessions@.len() <= LIST_LIMIT
    &&& cfg.sessions.open_marks@.len() <= LIST_LIMIT
}

/// A window can take one more price.
pub open spec fn window_room(prices: Seq<Num>) -> bool {
    prices.len() < LIST_LIMIT && prices.len() < usize::MAX
}

fn has_window_room(prices: &Vec<Num>) -> (r: bool)
    ensures
        r == window_room(prices@),
{
    let n: usize = prices.len();
    n < usize::MAX && (n as u64) < LIST_LIMIT
}

/// The scanner can take one more bar, and the bar's numbers fit it.
pub open spec fn bar_room(s: Scanner, c: Candle, q: ScanQuote) -> bool {
    &&& on_calendar(c.timestamp as int)
    &&& s.candle_count < COUNT_LIMIT
    &&& s.base_count < COUNT_LIMIT
    &&& (s.eq matches Some(e) ==> e.count < COUNT_LIMIT && window_room(e.highs@) && window_room(
        e.lows@,
    ))
    &&& s.registry.next_level_id < COUNT_LIMIT
    &&& forall|i: int|
        0 <= i < s.registry.levels@.len() ==> -COUNT_LIMIT <= (#[trigger] s.registry.levels@[i]).touch
            <= COUNT_LIMIT
    &&& s.gaps.fvgs@.len() <= GAP_LIMIT
    &&& s.gaps.active@.len() <= GAP_LIMIT
    &&& equals_ok(s, c, q)
}

/// Touches stay in range after levels with so many were added.
pub open spec fn touches_ok(r: Reg, added: int) -> bool {
    forall|i: int|
        0 <= i < r.levels.len() ==> -COUNT_LIMIT <= (#[trigger] r.levels[i]).touch <= COUNT_LIMIT
            + added
}

impl Scanner {
    /// The parts are well formed and fit each other.
    pub open spec fn wf(&self) -> bool {
        &&& cfg_ok(self.cfg)
        &&& self.sources.wf()
        &&& ids_ok(*self)
        &&& reg_wf(self.registry@, self.sources.infos@.len() as int)
        &&& devs_room(self.registry@.devs)
        &&& self.signals.wf()
        &&& self.sess.wf(self.cfg.sessions)
        &&& self.gaps.wf()
        &&& self.candle_count >= 0
        &&& self.base_count >= 0
        &&& (self.eq matches Some(e) ==> e.count >= 0)
    }

    fn has_equals(&self, c: &Candle, q: &ScanQuote) -> (r: bool)
        requires
            self.eq matches Some(e) ==> 0 <= e.count < COUNT_LIMIT,
        ensures
            r == equals_ok(*self, *c, *q),
    {
        let bars = self.bars_with(c);
        let atr: Num = self.bar_atr(c.timeframe, bars.len(), q.atr);
        if c.timeframe != self.ids.base_tf || atr <= 0 {
            return true;
        }
        match (&self.cfg.equal_levels, &self.eq) {
            (Some(cfg), Some(e)) => {
                if cfg.every <= 0 || (e.count + 1) as u64 % cfg.every as u64 != 0 {
                    return true;
                }
                let window: usize = to_len(cfg.window);
                let (highs, lows) = e.kept_with(c, window);
                fits_side(&highs, q.equals.tolerance, &q.equals.highs) && fits_side(
                    &lows,
                    q.equals.tolerance,
                    &q.equals.lows,
                )
            },
            _ => true,
        }
    }

    /// Whether the scanner can take one more bar: see [`bar_room`].
    pub fn has_room(&self, c: &Candle, q: &ScanQuote) -> (r: bool)
        requires
            self.wf(),
        ensures
            r == bar_room(*self, *c, *q),
    {
        if !is_on_calendar(c.timestamp) || self.candle_count >= COUNT_LIMIT || self.base_count
            >= COUNT_LIMIT || self.registry.next_level_id >= COUNT_LIMIT {
            return false;
        }
        if let Some(e) = &self.eq {
            if e.count >= COUNT_LIMIT || !has_window_room(&e.highs) || !has_window_room(&e.lows) {
                return false;
            }
        }
        if self.gaps.fvgs.len() as u64 > GAP_LIMIT || self.gaps.active.len() as u64 > GAP_LIMIT {
            return false;
        }
        let mut i: usize = 0;
        while i < self.registry.levels.len()
            invariant
                i <= self.registry.levels@.len(),
                forall|k: int|
                    0 <= k < i ==> -COUNT_LIMIT <= (#[trigger] self.registry.levels@[k]).touch
                        <= COUNT_LIMIT,
            decreases self.registry.levels@.len() - i,
        {
            let t: i64 = self.registry.levels[i].touch;
            if t < -COUNT_LIMIT || t > COUNT_LIMIT {
                return false;
            }
            i = i + 1;
        }
        self.has_equals(c, q)
    }

    /// The bars of a candle's timeframe, it included, newest last.
    pub fn bars_with(&self, c: &Candle) -> (r: Vec<Candle>)
        ensures
            r@ == bars_of(*self, *c),
    {
        let ghost ring = ring_of(self.rings@, c.timeframe);
        let mut all: Vec<Candle> = Vec::new();
        if let Some(v) = self.rings.get(c.timeframe) {
            let mut i: usize = 0;
            while i < v.len()
                invariant
                    i <= v@.len(),
                    v@ == ring,
                    all@ == ring.subrange(0, i as int),
                decreases v@.len() - i,
            {
                all.push(v[i]);
                i = i + 1;
                proof {
                    assert(all@ =~= ring.subrange(0, i as int));
                }
            }
        }
        proof {
            assert(all@ =~= ring);
        }
        all.push(*c);
        let n: usize = all.len();
        if n <= self.ring_cap {
            return all;
        }
        let mut out: Vec<Candle> = Vec::new();
        let from: usize = n - self.ring_cap;
        let mut j: usize = from;
        while j < n
            invariant
                n == all@.len(),
                from <= j <= n,
                out@ == all@.subrange(from as int, j as int),
            decreases n - j,
        {
            out.push(all[j]);
            j = j + 1;
            proof {
                assert(out@ =~= all@.subrange(from as int, j as int));
            }
        }
        out
    }

    /// The ATR a bar goes by, `measured` being that of its timeframe's bars.
    pub fn bar_atr(&self, tf: u16, bars: usize, measured: Num) -> (r: Num)
        ensures
            r == atr_of_bar(*self, tf, bars as int, measured),
    {
        if bars > 2 {
            measured
        } else {
            match self.atr_cache.get(tf) {
                Some(a) => *a,
                None => 0,
            }
        }
    }

    /// Minutes of a level's timeframe, where they are configured, and whether
    /// the level decays slower for its significance.
    pub fn decay_terms(&self, l: &Level) -> (r: (Option<Num>, bool))
        ensures
            r == terms_of(*self, *l),
    {
        let minutes = match self.tf_minutes.get(l.tf) {
            Some(m) => Some(*m),
            None => None,
        };
        (
            minutes,
            self.cfg.levels.sig_decay_mult > ONE && l.sig >= self.cfg.levels.sig_decay_min_sig,
        )
    }

    /// Add levels in order.
    pub(crate) fn add_levels(&mut self, list: &Vec<Addition>)
        requires
            old(self).wf(),
            list@.len() <= 8 * LIST_LIMIT,
            old(self).registry.next_level_id < COUNT_LIMIT,
            touches_ok(old(self).registry@, 0),
            total_touch(bare(list@)) <= TOUCH_LIMIT,
            forall|k: int|
                0 <= k < list@.len() ==> {
                    &&& (#[trigger] list@[k]).0.source < old(self).sources.infos@.len()
                    &&& 0 <= list@[k].0.touch
                },
        ensures
            final(self).wf(),
            *final(self) == (Scanner { registry: final(self).registry, ..*old(self) }),
            final(self).registry@ == all_added(
                old(self).registry@,
                old(self).sources,
                list@,
                list@.len(),
            ),
    {
        let ghost s0 = *self;
        let mut i: usize = 0;
        while i < list.len()
            invariant
                i <= list@.len(),
                list@.len() <= 8 * LIST_LIMIT,
                s0.wf(),
                self.wf(),
                *self == (Scanner { registry: self.registry, ..s0 }),
                self.registry.next_level_id <= COUNT_LIMIT + i,
                touches_ok(self.registry@, total_touch(bare(list@).take(i as int))),
                total_touch(bare(list@)) <= TOUCH_LIMIT,
                forall|k: int|
                    0 <= k < list@.len() ==> {
                        &&& (#[trigger] list@[k]).0.source < s0.sources.infos@.len()
                        &&& 0 <= list@[k].0.touch
                    },
                self.registry@ == all_added(s0.registry@, s0.sources, list@, i as nat),
            decreases list@.len() - i,
        {
            let n = list[i].0;
            let ghost before = self.registry@;
            proof {
                assert(list@[i as int].0.source < s0.sources.infos@.len());
                assert forall|k: int| 0 <= k < bare(list@).len() implies 0 <= (#[trigger] bare(
                    list@,
                )[k]).touch by {
                    assert(0 <= list@[k].0.touch);
                }
                lemma_touch_of_a_prefix(bare(list@), i as int);
                lemma_touch_of_a_prefix(bare(list@), i + 1);
                assert(bare(list@).take(i + 1).drop_last() =~= bare(list@).take(i as int));
            }
            self.registry.add_level(&self.sources, &n, list[i].1);
            proof {
                let after = self.registry@;
                law_merging_stays_on_its_side(before, s0.sources, n, list@[i as int].1);
                let added = total_touch(bare(list@).take(i + 1));
                assert forall|k: int| 0 <= k < after.levels.len() implies -COUNT_LIMIT <= (
                #[trigger] after.levels[k]).touch <= COUNT_LIMIT + added by {
                    if k < before.levels.len() {
                        assert(-COUNT_LIMIT <= before.levels[k].touch);
                    }
                }
            }
            i = i + 1;
        }
    }
}

} // verus!
