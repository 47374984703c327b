//! What the services are parameterized by.
//!
//! Where a service compares a level against an arithmetic combination of
//! prices (a distance in ATR, a ratio), the caller computes the threshold and
//! passes it with the bar; the figures it computes from are kept here.
use vstd::prelude::*;
use crate::key::Num;

verus! {

/// The significances of one source: a row per timeframe multiplier, a column
/// per touch bonus. Row 0 is the multiplier one, column 0 no bonus; row
/// `k + 1` and column `k + 1` are the `k`-th multiplier and bonus.
#[derive(Debug, Clone)]
pub struct SigGrid {
    pub cells: Vec<Vec<Num>>,
}

impl SigGrid {
    /// The grid has a cell for each multiplier and bonus.
    pub open spec fn wf(&self, multipliers: int, bonuses: int) -> bool {
        &&& self.cells@.len() == multipliers + 1
        &&& forall|i: int|
            0 <= i < self.cells@.len() ==> (#[trigger] self.cells@[i])@.len() == bonuses + 1
    }
}

/// How a level's significance follows from its source, timeframe and touches:
/// the source's base, times the timeframe's multiplier for scaled sources,
/// plus the touch bonus.
#[derive(Debug, Clone)]
pub struct SignificanceCfg {
    /// The significances of the named sources.
    pub base: Vec<(String, SigGrid)>,
    /// Those of any other source.
    pub default_score: SigGrid,
    /// Sources whose base is multiplied.
    pub tf_scaled: Vec<String>,
    /// Timeframes with a multiplier, in the grids' row order.
    pub tf_mult: Vec<String>,
    /// Touch counts with a bonus, in the grids' column order.
    pub touch_bonus: Vec<i64>,
}

impl SignificanceCfg {
    /// Every grid has its cells.
    pub open spec fn wf(&self) -> bool {
        let (m, b) = (self.tf_mult@.len() as int, self.touch_bonus@.len() as int);
        &&& self.default_score.wf(m, b)
        &&& forall|i: int| 0 <= i < self.base@.len() ==> (#[trigger] self.base@[i]).1.wf(m, b)
    }
}

/// Registry behaviour.
#[derive(Debug, Clone)]
pub struct LevelsCfg {
    pub cluster_atr_tolerance: Num,
    /// A level expires once its decay reaches this.
    pub decay_candles: Num,
    /// Levels at or above `sig_decay_min_sig` decay this many times slower.
    pub sig_decay_mult: Num,
    pub sig_decay_min_sig: Num,
    /// A bar that closes this near (in ATR) to a level, and does not cross it,
    /// resets its decay. 0 disables.
    pub refresh_atr: Num,
    /// Decay ticks once every this many candles.
    pub decay_every: i64,
    /// Levels that are not active are dropped every this many candles.
    pub prune_every: i64,
    /// Minutes per timeframe, the decay divisor.
    pub tf_minutes: Vec<(String, Num)>,
}

/// Sweep detection.
#[derive(Debug, Clone)]
pub struct SweepCfg {
    pub noise_atr: Num,
    /// A crossing that persists this many bars is final.
    pub max_multi_candle: i64,
    /// Levels below this significance are never swept.
    pub min_level_sig: Num,
}

/// Swing, gap and break detection.
#[derive(Debug, Clone)]
pub struct PrimitivesCfg {
    pub atr_period: i64,
    /// Bars on each side a swing must dominate.
    pub swing_lookback: i64,
    pub fvg_min_gap_pct: Num,
    pub structure_min_displacement_atr: Num,
    /// Signals kept before the oldest are dropped.
    pub signals_cap: i64,
    pub swing_high_source: String,
    pub swing_low_source: String,
}

/// A session's hours, on the session clock.
#[derive(Debug, Clone)]
pub struct SessionSpec {
    pub name: String,
    pub start_hour: i64,
    pub end_hour: i64,
}

/// A time of day whose first bar's open is a level.
#[derive(Debug, Clone)]
pub struct OpenMark {
    pub hour: i64,
    pub minute: i64,
    pub source: String,
}

/// Session and previous-period levels, on a fixed-offset clock.
#[derive(Debug, Clone)]
pub struct SessionsCfg {
    pub enabled: bool,
    /// Seconds added to UTC to get the session clock.
    pub tz_offset_secs: i64,
    pub sessions: Vec<SessionSpec>,
    pub open_marks: Vec<OpenMark>,
}

impl Default for SessionsCfg {
    fn default() -> (r: Self)
        ensures
            !r.enabled,
            r.tz_offset_secs == 0,
            r.sessions@.len() == 0,
            r.open_marks@.len() == 0,
    {
        SessionsCfg {
            enabled: false,
            tz_offset_secs: 0,
            sessions: Vec::new(),
            open_marks: Vec::new(),
        }
    }
}

/// Equal highs and lows.
#[derive(Debug, Clone)]
pub struct EqualLevelsCfg {
    pub enabled: bool,
    /// Highs and lows kept for clustering.
    pub window: i64,
    /// Scan cadence in base bars.
    pub every: i64,
    /// Touches a cluster needs.
    pub min_count: i64,
    pub min_dist_atr: Num,
    pub emitted_cap: i64,
    pub high_source: String,
    pub low_source: String,
}

/// Gap capping.
#[derive(Debug, Clone, Copy, PartialEq, Eq, Structural)]
pub struct FvgCfg {
    /// Active gaps per kind before the oldest are filled.
    pub cap: i64,
    /// How many extra to fill past the cap.
    pub cap_overshoot: i64,
}

/// The ranked map of targets.
#[derive(Debug, Clone)]
pub struct DrawCfg {
    pub enabled: bool,
    /// Rebuild every this many candles on the base timeframe, and on any bar
    /// that finalizes a sweep.
    pub every: i64,
    pub dist_cap_atr: Num,
    /// Sweeps younger than this (seconds) can boost targets.
    pub sweep_window_secs: i64,
    pub boost_min_magnitude: Num,
    pub boost: Num,
    pub quantum_atr: Num,
    /// Sources eligible as targets, with their significance.
    pub sources: Vec<(String, Num)>,
    /// Gap midpoints eligible as targets, by timeframe.
    pub fvg_sig: Vec<(String, Num)>,
    /// Only candidates at or above this compete for the top slot.
    pub top_min_sig: Num,
    pub tie_atr: Num,
    pub hysteresis: Num,
    pub hysteresis_tol_atr: Num,
    pub keep: i64,
    pub one_sided_n: i64,
}

/// What a scanner is configured by, apart from the significances.
#[derive(Debug, Clone)]
pub struct ScannerCfg {
    pub base_tf: String,
    pub primitives: PrimitivesCfg,
    pub levels: LevelsCfg,
    pub sweep: SweepCfg,
    pub sessions: SessionsCfg,
    pub equal_levels: Option<EqualLevelsCfg>,
    pub fvg: FvgCfg,
    pub draw: Option<DrawCfg>,
    /// Track UTC days.
    pub day_tracker: bool,
}

/// A configured count as a length: nothing below zero, and no more than a
/// length can be.
pub open spec fn len_of(n: i64) -> int {
    if n <= 0 {
        0
    } else if n > usize::MAX {
        usize::MAX as int
    } else {
        n as int
    }
}

/// A configured count as a length.
pub fn to_len(n: i64) -> (r: usize)
    ensures
        r == len_of(n),
{
    if n <= 0 {
        0
    } else if n as u64 > usize::MAX as u64 {
        usize::MAX
    } else {
        n as usize
    }
}

} // verus!
