//! Swings, gaps and structure breaks, each reported once.
use vstd::prelude::*;
use crate::clock::{unix_second, unix_seconds};
use crate::key::Num;
use crate::models::{Candle, Direction};
use crate::tfmap::TfMap;

verus! {

/// What a signal reports.
#[derive(Debug, Clone, Copy, PartialEq, Eq, Structural)]
pub enum SignalKind {
    SwingHigh,
    SwingLow,
    Fvg,
    Break,
}

/// A detected swing, gap or break.
#[derive(Debug, Clone, Copy, PartialEq, Eq, Structural)]
pub struct Signal {
    pub kind: SignalKind,
    pub tf: u16,
    pub ts: i64,
    pub level: Num,
    pub level_end: Num,
    pub dir: Direction,
    pub gap_ts: i64,
    pub c1_stop: Num,
}

/// The newest swing of a timeframe.
#[derive(Debug, Clone, Copy, PartialEq, Eq, Structural)]
pub struct LatestSwing {
    pub level: Num,
    pub ts: i64,
}

/// The newest swing of each timeframe among some signals: a later signal
/// replaces an earlier one unless its bar is older.
pub open spec fn latest_map(signals: Seq<Signal>, kind: SignalKind) -> Map<u16, LatestSwing>
    decreases signals.len(),
{
    if signals.len() == 0 {
        Map::empty()
    } else {
        latest_with(latest_map(signals.drop_last(), kind), signals.last(), kind)
    }
}

/// The newest swings once a signal is in.
pub open spec fn latest_with(
    m: Map<u16, LatestSwing>,
    s: Signal,
    kind: SignalKind,
) -> Map<u16, LatestSwing> {
    if s.kind == kind && (!m.contains_key(s.tf) || s.ts >= m[s.tf].ts) {
        m.insert(s.tf, LatestSwing { level: s.level, ts: s.ts })
    } else {
        m
    }
}

/// Two signals report the same thing: the same swing bar, the same gap bar
/// and direction, the same broken level and direction.
pub open spec fn same_event(a: Signal, b: Signal) -> bool {
    &&& a.kind == b.kind
    &&& a.tf == b.tf
    &&& match a.kind {
        SignalKind::SwingHigh | SignalKind::SwingLow => a.ts == b.ts,
        SignalKind::Fvg => a.gap_ts == b.gap_ts && a.dir == b.dir,
        SignalKind::Break => a.level == b.level && a.dir == b.dir,
    }
}

/// The event was reported.
pub open spec fn reported(signals: Seq<Signal>, s: Signal) -> bool {
    exists|i: int| 0 <= i < signals.len() && same_event(#[trigger] signals[i], s)
}

fn is_same_event(a: &Signal, b: &Signal) -> (r: bool)
    ensures
        r == same_event(*a, *b),
{
    a.kind == b.kind && a.tf == b.tf && match a.kind {
        SignalKind::SwingHigh | SignalKind::SwingLow => a.ts == b.ts,
        SignalKind::Fvg => a.gap_ts == b.gap_ts && a.dir == b.dir,
        SignalKind::Break => a.level == b.level && a.dir == b.dir,
    }
}

// ─── Detection ──────────────────────────────────────────────────────────────

/// The bar's second.
pub open spec fn bar_second(c: Candle) -> i64 {
    unix_second(c.timestamp as int) as i64
}

/// The bar's high is the highest of the bars from `from` on.
pub open spec fn tops(bars: Seq<Candle>, at: int, from: int) -> bool {
    forall|j: int| from <= j < bars.len() ==> (#[trigger] bars[j]).high <= bars[at].high
}

/// The bar's low is the lowest of the bars from `from` on.
pub open spec fn bottoms(bars: Seq<Candle>, at: int, from: int) -> bool {
    forall|j: int| from <= j < bars.len() ==> (#[trigger] bars[j]).low >= bars[at].low
}

/// A swing high at a bar.
pub open spec fn high_signal(tf: u16, c: Candle) -> Signal {
    Signal {
        kind: SignalKind::SwingHigh,
        tf,
        ts: bar_second(c),
        level: c.high,
        level_end: 0,
        dir: Direction::Bear,
        gap_ts: 0,
        c1_stop: 0,
    }
}

/// A swing low at a bar.
pub open spec fn low_signal(tf: u16, c: Candle) -> Signal {
    Signal {
        kind: SignalKind::SwingLow,
        tf,
        ts: bar_second(c),
        level: c.low,
        level_end: 0,
        dir: Direction::Bull,
        gap_ts: 0,
        c1_stop: 0,
    }
}

/// A signal is reported when it holds and was not reported before.
pub open spec fn if_new(signals: Seq<Signal>, holds: bool, s: Signal) -> Seq<Signal> {
    if holds && !reported(signals, s) {
        seq![s]
    } else {
        Seq::empty()
    }
}

/// The swings of a bar: the one `lookback` bars ago, where it dominates as
/// many bars on each side.
pub open spec fn swings_of(
    signals: Seq<Signal>,
    bars: Seq<Candle>,
    tf: u16,
    lookback: int,
) -> Seq<Signal> {
    if bars.len() < 2 * lookback + 1 {
        Seq::empty()
    } else {
        let at = bars.len() - 1 - lookback;
        let from = bars.len() - 1 - 2 * lookback;
        if_new(signals, tops(bars, at, from), high_signal(tf, bars[at])) + if_new(
            signals,
            bottoms(bars, at, from),
            low_signal(tf, bars[at]),
        )
    }
}

/// Whether the newest three bars' gap is wide enough, and its midpoint, for a
/// bullish and for a bearish gap.
#[derive(Debug, Clone, Copy, PartialEq, Eq, Structural)]
pub struct GapQuote {
    pub bull_wide: bool,
    pub bull_ce: Num,
    pub bear_wide: bool,
    pub bear_ce: Num,
}

/// A bullish gap above the first bar.
pub open spec fn bull_gap(tf: u16, c1: Candle, c2: Candle, c3: Candle) -> Signal {
    Signal {
        kind: SignalKind::Fvg,
        tf,
        ts: bar_second(c3),
        level: c1.high,
        level_end: c3.low,
        dir: Direction::Bull,
        gap_ts: bar_second(c2),
        c1_stop: c1.low,
    }
}

/// A bearish gap below the first bar.
pub open spec fn bear_gap(tf: u16, c1: Candle, c2: Candle, c3: Candle) -> Signal {
    Signal {
        kind: SignalKind::Fvg,
        tf,
        ts: bar_second(c3),
        level: c3.high,
        level_end: c1.low,
        dir: Direction::Bear,
        gap_ts: bar_second(c2),
        c1_stop: c1.high,
    }
}

/// The gaps of a bar: between it and the bar before the last.
pub open spec fn gaps_of(
    signals: Seq<Signal>,
    bars: Seq<Candle>,
    tf: u16,
    q: GapQuote,
) -> Seq<Signal> {
    if bars.len() < 3 {
        Seq::empty()
    } else {
        let (c1, c2, c3) = (
            bars[bars.len() - 3],
            bars[bars.len() - 2],
            bars[bars.len() - 1],
        );
        if_new(signals, c3.low > c1.high && q.bull_wide, bull_gap(tf, c1, c2, c3)) + if_new(
            signals,
            c3.high < c1.low && q.bear_wide,
            bear_gap(tf, c1, c2, c3),
        )
    }
}

/// The prices a close must clear to break structure: the newest swing high
/// and low, moved out by the minimum displacement.
#[derive(Debug, Clone, Copy, PartialEq, Eq, Structural)]
pub struct BreakQuote {
    pub above: Num,
    pub below: Num,
}

/// A break of a level.
pub open spec fn break_signal(tf: u16, ts: i64, level: Num, dir: Direction) -> Signal {
    Signal {
        kind: SignalKind::Break,
        tf,
        ts,
        level,
        level_end: 0,
        dir,
        gap_ts: 0,
        c1_stop: 0,
    }
}

/// The level of a timeframe's newest swing, or zero.
pub open spec fn swing_level(m: Map<u16, LatestSwing>, tf: u16) -> Num {
    if m.contains_key(tf) {
        m[tf].level
    } else {
        0
    }
}

/// The structure breaks of a bar.
pub open spec fn breaks_of(
    signals: Seq<Signal>,
    count: int,
    tf: u16,
    c: Candle,
    q: BreakQuote,
) -> Seq<Signal> {
    let highs = latest_map(signals, SignalKind::SwingHigh);
    let lows = latest_map(signals, SignalKind::SwingLow);
    if count < 3 {
        Seq::empty()
    } else {
        if_new(
            signals,
            highs.contains_key(tf) && c.close > q.above,
            break_signal(tf, bar_second(c), swing_level(highs, tf), Direction::Bull),
        ) + if_new(
            signals,
            lows.contains_key(tf) && c.close < q.below,
            break_signal(tf, bar_second(c), swing_level(lows, tf), Direction::Bear),
        )
    }
}

/// The newest `cap` signals.
pub open spec fn newest(signals: Seq<Signal>, cap: int) -> Seq<Signal> {
    if signals.len() <= cap {
        signals
    } else {
        signals.subrange(signals.len() - cap, signals.len() as int)
    }
}

/// The signals kept, and the newest swings among them.
#[derive(Debug, Clone)]
pub struct SignalStore {
    pub signals: Vec<Signal>,
    pub latest_sh: TfMap<LatestSwing>,
    pub latest_sl: TfMap<LatestSwing>,
}

/// A signal is reported once: no event stands twice among the signals kept.
pub proof fn law_events_are_reported_once(signals: Seq<Signal>, holds: bool, s: Signal)
    requires
        forall|i: int, j: int|
            0 <= i < j < signals.len() ==> !same_event(#[trigger] signals[i], #[trigger] signals[j]),
    ensures
        ({
            let t = signals + if_new(signals, holds, s);
            forall|i: int, j: int|
                0 <= i < j < t.len() ==> !same_event(#[trigger] t[i], #[trigger] t[j])
        }),
{
    let t = signals + if_new(signals, holds, s);
    assert forall|i: int, j: int| 0 <= i < j < t.len() implies !same_event(
        #[trigger] t[i],
        #[trigger] t[j],
    ) by {
        if j < signals.len() {
            assert(!same_event(signals[i], signals[j]));
        } else {
            assert(t[j] == s);
            assert(t[i] == signals[i]);
        }
    }
}

impl SignalStore {
    /// The newest swings are those of the signals kept.
    pub open spec fn wf(&self) -> bool {
        &&& self.latest_sh@ == latest_map(self.signals@, SignalKind::SwingHigh)
        &&& self.latest_sl@ == latest_map(self.signals@, SignalKind::SwingLow)
    }

    /// No signals.
    pub fn new() -> (r: Self)
        ensures
            r.wf(),
            r.signals@ == Seq::<Signal>::empty(),
    {
        SignalStore { signals: Vec::new(), latest_sh: TfMap::new(), latest_sl: TfMap::new() }
    }

    /// Keep a signal.
    pub fn add_signal(&mut self, s: Signal)
        requires
            old(self).wf(),
        ensures
            final(self).wf(),
            final(self).signals@ == old(self).signals@.push(s),
    {
        let swing = LatestSwing { level: s.level, ts: s.ts };
        match s.kind {
            SignalKind::SwingHigh => {
                let replace = match self.latest_sh.get(s.tf) {
                    None => true,
                    Some(l) => s.ts >= l.ts,
                };
                if replace {
                    self.latest_sh.insert(s.tf, swing);
                }
            },
            SignalKind::SwingLow => {
                let replace = match self.latest_sl.get(s.tf) {
                    None => true,
                    Some(l) => s.ts >= l.ts,
                };
                if replace {
                    self.latest_sl.insert(s.tf, swing);
                }
            },
            _ => {},
        }
        self.signals.push(s);
        proof {
            assert(self.signals@.drop_last() =~= old(self).signals@);
        }
    }

    fn is_reported(&self, s: &Signal) -> (r: bool)
        ensures
            r == reported(self.signals@, *s),
    {
        let mut i: usize = self.signals.len();
        while i > 0
            invariant
                i <= self.signals@.len(),
                forall|j: int|
                    i <= j < self.signals@.len() ==> !same_event(#[trigger] self.signals@[j], *s),
            decreases i,
        {
            i = i - 1;
            if is_same_event(&self.signals[i], s) {
                return true;
            }
        }
        false
    }

    fn push_new(&self, out: &mut Vec<Signal>, holds: bool, s: Signal)
        ensures
            final(out)@ == old(out)@ + if_new(self.signals@, holds, s),
    {
        if holds && !self.is_reported(&s) {
            out.push(s);
        }
        proof {
            assert(out@ =~= old(out)@ + if_new(self.signals@, holds, s));
        }
    }

    /// The swings a new bar completes.
    pub fn detect_swings(&self, bars: &Vec<Candle>, tf: u16, lookback: usize) -> (r: Vec<Signal>)
        requires
            2 * lookback + 1 <= usize::MAX,
        ensures
            r@ == swings_of(self.signals@, bars@, tf, lookback as int),
    {
        let mut out: Vec<Signal> = Vec::new();
        let len: usize = bars.len();
        if len < 2 * lookback + 1 {
            return out;
        }
        let at: usize = len - 1 - lookback;
        let from: usize = len - 1 - 2 * lookback;
        let centre = bars[at];
        let mut high = true;
        let mut low = true;
        let mut j: usize = from;
        while j < len
            invariant
                len == bars@.len(),
                at < len,
                centre == bars@[at as int],
                from <= j <= len,
                high == (forall|k: int|
                    from <= k < j ==> (#[trigger] bars@[k]).high <= centre.high),
                low == (forall|k: int| from <= k < j ==> (#[trigger] bars@[k]).low >= centre.low),
            decreases len - j,
        {
            if bars[j].high > centre.high {
                high = false;
            }
            if bars[j].low < centre.low {
                low = false;
            }
            j = j + 1;
        }
        let ts: i64 = unix_seconds(centre.timestamp);
        self.push_new(
            &mut out,
            high,
            Signal {
                kind: SignalKind::SwingHigh,
                tf,
                ts,
                level: centre.high,
                level_end: 0,
                dir: Direction::Bear,
                gap_ts: 0,
                c1_stop: 0,
            },
        );
        self.push_new(
            &mut out,
            low,
            Signal {
                kind: SignalKind::SwingLow,
                tf,
                ts,
                level: centre.low,
                level_end: 0,
                dir: Direction::Bull,
                gap_ts: 0,
                c1_stop: 0,
            },
        );
        proof {
            assert(out@ =~= swings_of(self.signals@, bars@, tf, lookback as int));
        }
        out
    }

    /// The gaps a new bar completes.
    pub fn detect_fvgs(&self, bars: &Vec<Candle>, tf: u16, q: &GapQuote) -> (r: Vec<Signal>)
        ensures
            r@ == gaps_of(self.signals@, bars@, tf, *q),
    {
        let mut out: Vec<Signal> = Vec::new();
        let len: usize = bars.len();
        if len < 3 {
            return out;
        }
        let c1 = bars[len - 3];
        let c2 = bars[len - 2];
        let c3 = bars[len - 1];
        let gap_ts: i64 = unix_seconds(c2.timestamp);
        let ts: i64 = unix_seconds(c3.timestamp);
        self.push_new(
            &mut out,
            c3.low > c1.high && q.bull_wide,
            Signal {
                kind: SignalKind::Fvg,
                tf,
                ts,
                level: c1.high,
                level_end: c3.low,
                dir: Direction::Bull,
                gap_ts,
                c1_stop: c1.low,
            },
        );
        self.push_new(
            &mut out,
            c3.high < c1.low && q.bear_wide,
            Signal {
                kind: SignalKind::Fvg,
                tf,
                ts,
                level: c3.high,
                level_end: c1.low,
                dir: Direction::Bear,
                gap_ts,
                c1_stop: c1.high,
            },
        );
        proof {
            assert(out@ =~= gaps_of(self.signals@, bars@, tf, *q));
        }
        out
    }

    /// The structure breaks of a new bar, `count` being its timeframe's bars.
    pub fn detect_structure(&self, count: usize, tf: u16, c: &Candle, q: &BreakQuote) -> (r: Vec<
        Signal,
    >)
        requires
            self.wf(),
        ensures
            r@ == breaks_of(self.signals@, count as int, tf, *c, *q),
    {
        let mut out: Vec<Signal> = Vec::new();
        if count < 3 {
            return out;
        }
        let ts: i64 = unix_seconds(c.timestamp);
        if let Some(sh) = self.latest_sh.get(tf) {
            let level: Num = sh.level;
            self.push_new(
                &mut out,
                c.close > q.above,
                Signal {
                    kind: SignalKind::Break,
                    tf,
                    ts,
                    level,
                    level_end: 0,
                    dir: Direction::Bull,
                    gap_ts: 0,
                    c1_stop: 0,
                },
            );
        }
        let ghost bulls = out@;
        if let Some(sl) = self.latest_sl.get(tf) {
            let level: Num = sl.level;
            self.push_new(
                &mut out,
                c.close < q.below,
                Signal {
                    kind: SignalKind::Break,
                    tf,
                    ts,
                    level,
                    level_end: 0,
                    dir: Direction::Bear,
                    gap_ts: 0,
                    c1_stop: 0,
                },
            );
        }
        proof {
            assert(out@ =~= breaks_of(self.signals@, count as int, tf, *c, *q));
        }
        out
    }

    /// Drop the oldest signals past the cap; what they reported can be
    /// reported again.
    pub fn prune_signals(&mut self, cap: usize)
        requires
            old(self).wf(),
        ensures
            final(self).wf(),
            final(self).signals@ == newest(old(self).signals@, cap as int),
    {
        let len: usize = self.signals.len();
        if len <= cap {
            return;
        }
        let ghost s = self.signals@;
        let mut fresh = SignalStore::new();
        let from: usize = len - cap;
        let mut i: usize = from;
        while i < len
            invariant
                self.signals@ == s,
                len == s.len(),
                from <= i <= len,
                fresh.wf(),
                fresh.signals@ == s.subrange(from as int, i as int),
            decreases len - i,
        {
            fresh.add_signal(self.signals[i]);
            i = i + 1;
            proof {
                assert(fresh.signals@ =~= s.subrange(from as int, i as int));
            }
        }
        *self = fresh;
    }
}

} // verus!
