//! Levels, sweeps, gaps, the draw map and the day, driven by candles.
use backtest_engine::clock::SECOND;
use backtest_engine::key::{bits_of_key, key_of_bits};
use backtest_engine::liquidity::cfg::{
    DrawCfg, EqualLevelsCfg, FvgCfg, LevelsCfg, OpenMark, PrimitivesCfg, ScannerCfg, SessionSpec,
    SessionsCfg, SigGrid, SignificanceCfg, SweepCfg,
};
use backtest_engine::liquidity::day::day_process;
use backtest_engine::liquidity::draw::{DrawQuotes, TargetQuote, TargetScore};
use backtest_engine::liquidity::equal::{eq_cluster, EqFigures, EqQuote, EqSide};
use backtest_engine::liquidity::gaps::{Fvg, FvgStatus, GapFilter, GapStore, NewGap};
use backtest_engine::liquidity::levels::{
    Band, DecayQuote, Level, Retest, Side, Status, SweepQuote,
};
use backtest_engine::liquidity::scanner::{BarEvents, HookQuote, ScanQuote, Scanner};
use backtest_engine::liquidity::signals::{BreakQuote, GapQuote};
use backtest_engine::models::{tf_id, Candle, Direction, Names};

fn key(x: f64) -> i64 {
    key_of_bits(x.to_bits()).unwrap()
}

fn num(k: i64) -> f64 {
    f64::from_bits(bits_of_key(k))
}

// ─── Configuration ───────────────────────────────────────────────────────────

const BONUSES: [(i64, f64); 2] = [(2, 1.0), (3, 2.0)];
const MULTIPLIERS: [(&str, f64); 2] = [("1m", 1.0), ("1h", 2.0)];

fn grid(base: f64) -> SigGrid {
    let mut mults = vec![1.0];
    mults.extend(MULTIPLIERS.iter().map(|(_, m)| *m));
    let mut bonuses = vec![0.0];
    bonuses.extend(BONUSES.iter().map(|(_, b)| *b));
    SigGrid {
        cells: mults
            .iter()
            .map(|m| bonuses.iter().map(|b| key(base * m + b)).collect())
            .collect(),
    }
}

fn significance() -> SignificanceCfg {
    SignificanceCfg {
        base: vec![
            ("pdh".to_string(), grid(4.0)),
            ("pdl".to_string(), grid(4.0)),
            ("swing_high".to_string(), grid(1.0)),
            ("swing_low".to_string(), grid(1.0)),
            ("session_high".to_string(), grid(3.0)),
        ],
        default_score: grid(1.0),
        tf_scaled: vec!["swing_high".to_string(), "swing_low".to_string()],
        tf_mult: MULTIPLIERS.iter().map(|(n, _)| n.to_string()).collect(),
        touch_bonus: BONUSES.iter().map(|(t, _)| *t).collect(),
    }
}

fn cfg() -> ScannerCfg {
    ScannerCfg {
        base_tf: "1m".to_string(),
        primitives: PrimitivesCfg {
            atr_period: 3,
            swing_lookback: 1,
            fvg_min_gap_pct: key(0.0),
            structure_min_displacement_atr: key(0.0),
            signals_cap: 2000,
            swing_high_source: "swing_high".to_string(),
            swing_low_source: "swing_low".to_string(),
        },
        levels: LevelsCfg {
            cluster_atr_tolerance: key(0.5),
            decay_candles: key(2.0),
            sig_decay_mult: key(1.0),
            sig_decay_min_sig: key(0.0),
            refresh_atr: key(0.0),
            decay_every: 1,
            prune_every: 1000,
            tf_minutes: Vec::new(),
        },
        sweep: SweepCfg {
            noise_atr: key(0.0),
            max_multi_candle: 3,
            min_level_sig: key(0.0),
        },
        sessions: SessionsCfg::default(),
        equal_levels: None,
        fvg: FvgCfg { cap: 500, cap_overshoot: 50 },
        draw: Some(DrawCfg {
            enabled: true,
            every: 1,
            dist_cap_atr: key(20.0),
            sweep_window_secs: 3600,
            boost_min_magnitude: key(1.0),
            boost: key(1.5),
            quantum_atr: key(0.1),
            sources: vec![("pdh".to_string(), key(6.0)), ("pdl".to_string(), key(6.0))],
            fvg_sig: Vec::new(),
            top_min_sig: key(3.0),
            tie_atr: key(0.3),
            hysteresis: key(1.10),
            hysteresis_tol_atr: key(0.1),
            keep: 10,
            one_sided_n: 5,
        }),
        day_tracker: true,
    }
}

/// `cfg()` decays a level in two bars, which is right for the decay tests
/// and useless for an invariance test: nothing survives long enough to
/// carry a warmup difference. This is the same config with long horizons.
fn cfg_long() -> ScannerCfg {
    let mut c = cfg();
    c.levels.decay_candles = key(500.0);
    c.levels.decay_every = 10;
    c.levels.prune_every = 50;
    c.levels.cluster_atr_tolerance = key(0.3);
    c.primitives.atr_period = 14;
    c.primitives.swing_lookback = 5;
    if let Some(d) = c.draw.as_mut() {
        d.every = 15;
    }
    c
}

// ─── Arithmetic ──────────────────────────────────────────────────────────────

/// The highest key from `from` on of which `holds`, which holds there and
/// stops holding once.
fn highest(from: i64, holds: &dyn Fn(f64) -> bool) -> i64 {
    let (mut lo, mut hi) = (from as i128, key(f64::INFINITY) as i128 + 1);
    while hi - lo > 1 {
        let mid = (lo + hi) / 2;
        if holds(num(mid as i64)) {
            lo = mid;
        } else {
            hi = mid;
        }
    }
    lo as i64
}

/// The lowest key down from `from` of which `holds`.
fn lowest(from: i64, holds: &dyn Fn(f64) -> bool) -> i64 {
    let (mut lo, mut hi) = (key(f64::NEG_INFINITY) as i128 - 1, from as i128);
    while hi - lo > 1 {
        let mid = (lo + hi).div_euclid(2);
        if holds(num(mid as i64)) {
            hi = mid;
        } else {
            lo = mid;
        }
    }
    hi as i64
}

fn around(p: f64, tol: f64) -> Band {
    let near = |q: f64| (q - p).abs() <= tol;
    Band { lo: lowest(key(p), &near), hi: highest(key(p), &near) }
}

fn no_band() -> Band {
    Band { lo: 1, hi: 0 }
}

fn atr_of(bars: &[Candle], period: i64) -> f64 {
    let n = (period.max(0) as usize).min(bars.len().saturating_sub(1));
    if n < 1 {
        return 0.0;
    }
    let mut sum = 0.0;
    for i in bars.len() - n..bars.len() {
        let (h, l, pc) = (num(bars[i].high), num(bars[i].low), num(bars[i - 1].close));
        sum += (h - l).max((h - pc).abs()).max((l - pc).abs());
    }
    sum / n as f64
}

fn scan_quote(sc: &Scanner, c: &Candle) -> ScanQuote {
    let bars = sc.bars_with(c);
    let measured = atr_of(&bars, sc.cfg.primitives.atr_period);
    let atr = num(sc.bar_atr(c.timeframe, bars.len(), key(measured)));
    let mut gap = GapQuote { bull_wide: false, bull_ce: 0, bear_wide: false, bear_ce: 0 };
    if bars.len() >= 3 {
        let (c1, c2, c3) = (&bars[bars.len() - 3], &bars[bars.len() - 2], &bars[bars.len() - 1]);
        let range = num(c2.high) - num(c2.low);
        let min = num(sc.cfg.primitives.fvg_min_gap_pct);
        let wide = |g: f64| {
            let pct = if range > 0.0 { g / range } else { 0.0 };
            pct >= min && g >= 0.0
        };
        gap = GapQuote {
            bull_wide: wide(num(c3.low) - num(c1.high)),
            bull_ce: key((num(c1.high) + num(c3.low)) / 2.0),
            bear_wide: wide(num(c1.low) - num(c3.high)),
            bear_ce: key((num(c3.high) + num(c1.low)) / 2.0),
        };
    }
    let disp = atr * num(sc.cfg.primitives.structure_min_displacement_atr);
    let brk = BreakQuote {
        above: match sc.signals.latest_sh.get(c.timeframe) {
            Some(s) => key(num(s.level) + disp),
            None => 0,
        },
        below: match sc.signals.latest_sl.get(c.timeframe) {
            Some(s) => key(num(s.level) - disp),
            None => 0,
        },
    };
    let tol = atr * num(sc.cfg.levels.cluster_atr_tolerance);
    let back = sc.cfg.primitives.swing_lookback.max(0) as usize;
    let (mut high_band, mut low_band) = (no_band(), no_band());
    if atr > 0.0 && bars.len() > back {
        let mid = &bars[bars.len() - 1 - back];
        high_band = around(num(mid.high), tol);
        low_band = around(num(mid.low), tol);
    }
    let cross = atr * num(sc.cfg.sweep.noise_atr);
    let (high, low) = (num(c.high), num(c.low));
    let sweep = SweepQuote {
        bsl_max: highest(key(f64::NEG_INFINITY), &|l| high > l + cross),
        ssl_min: lowest(key(f64::INFINITY), &|l| low < l - cross),
    };
    ScanQuote { atr: key(measured), gap, brk, high_band, low_band, sweep, equals: equals(sc, c, atr) }
}

fn no_clusters() -> EqQuote {
    EqQuote {
        tolerance: 0,
        highs: EqSide { reach: Vec::new(), clusters: Vec::new() },
        lows: EqSide { reach: Vec::new(), clusters: Vec::new() },
    }
}

fn equals(sc: &Scanner, c: &Candle, atr: f64) -> EqQuote {
    let (Some(e), Some(state)) = (&sc.cfg.equal_levels, &sc.eq) else {
        return no_clusters();
    };
    let tol = atr * num(sc.cfg.levels.cluster_atr_tolerance);
    if tol <= 0.0 {
        return no_clusters();
    }
    let close = num(c.close);
    let side = |is_high: bool| {
        let sorted = state.preview(c, e.window.max(0) as usize, is_high);
        let reach: Vec<i64> =
            sorted.iter().map(|&s| highest(s, &|v| v - num(s) <= tol)).collect();
        let clusters = eq_cluster(&sorted, &reach)
            .into_iter()
            .map(|(a, b)| {
                let sum: f64 = sorted[a..b].iter().map(|v| num(*v)).sum();
                let price = sum / (b - a) as f64;
                EqFigures {
                    price: key(price),
                    near: close > 0.0 && (price - close).abs() < atr * num(e.min_dist_atr),
                    bucket: (price / tol).round() as i64,
                    band: around(price, tol),
                }
            })
            .collect();
        EqSide { reach, clusters }
    };
    EqQuote { tolerance: key(tol), highs: side(true), lows: side(false) }
}

fn target_quote(sc: &Scanner, d: &DrawCfg, at: f64, sig: f64, price: f64, atr: f64) -> TargetQuote {
    let dist = (at - price).abs();
    let cap = atr * num(d.dist_cap_atr);
    let quantum = (atr * num(d.quantum_atr)).max(1e-6);
    let distance = dist / atr;
    let tie = num(d.tie_atr);
    let ties = |y: f64| (distance - y).abs() < tie;
    let proximity = 1.0 / (distance + 0.5).sqrt();
    let score = |boost: f64| {
        let s = sig * boost * proximity;
        TargetScore {
            score: key(s),
            weight: key(sig * boost),
            held: key(s * num(d.hysteresis)),
        }
    };
    TargetQuote {
        in_range: !(dist > cap || dist <= 0.0),
        same: around(at, quantum),
        distance: key(distance),
        tie: if ties(distance) {
            Band { lo: lowest(key(distance), &ties), hi: highest(key(distance), &ties) }
        } else {
            no_band()
        },
        at_incumbent: match sc.draw.top1 {
            Some((p, _, _)) => (at - num(p)).abs() <= atr * num(d.hysteresis_tol_atr),
            None => false,
        },
        plain: score(1.0),
        boosted: score(num(d.boost)),
    }
}

fn draw_quotes(sc: &Scanner, price: f64, atr: f64) -> DrawQuotes {
    let d = sc.cfg.draw.as_ref().unwrap();
    let levels = sc
        .registry
        .levels
        .iter()
        .map(|l| {
            let sig = sc.sources.infos[l.source as usize].draw_sig.map(num).unwrap_or(0.0);
            target_quote(sc, d, num(l.price), sig, price, atr)
        })
        .collect();
    let gaps = sc
        .active_gap_list()
        .iter()
        .map(|f| {
            let sig = sc.fvg_sig.get(f.tf).map(|s| num(*s)).unwrap_or(0.0);
            target_quote(sc, d, num(f.ce), sig, price, atr)
        })
        .collect();
    DrawQuotes { levels, gaps }
}

fn hook_quote(sc: &Scanner, c: &Candle, atr: f64) -> HookQuote {
    let dist = atr * num(sc.cfg.levels.refresh_atr);
    let close = num(c.close);
    let retest = Retest {
        bsl_max: highest(c.close, &|l| l - close <= dist),
        ssl_min: lowest(c.close, &|l| close - l <= dist),
    };
    let mult = num(sc.cfg.levels.sig_decay_mult);
    let decay = sc
        .registry
        .levels
        .iter()
        .map(|l| {
            let (minutes, slow) = sc.decay_terms(l);
            let mut divisor = minutes.map(num).unwrap_or(1.0);
            if slow {
                divisor *= mult;
            }
            let tick = (1.0 / divisor) as f32;
            DecayQuote {
                from_now: key((num(l.decay) as f32 + tick) as f64),
                from_zero: key((0.0f32 + tick) as f64),
            }
        })
        .collect();
    HookQuote { retest, decay }
}

// ─── Driving ─────────────────────────────────────────────────────────────────

fn process(sc: &mut Scanner, c: &Candle) -> BarEvents {
    let q = scan_quote(sc, c);
    assert!(sc.has_room(c, &q));
    let mut ev = sc.process(c, &q);
    let atr = num(ev.atr);
    for s in ev.sweeps.iter_mut() {
        let size = if atr > 0.0 {
            (num(s.extreme_price) - num(s.level_price)).abs() / atr
        } else {
            0.0
        };
        *s = s.measured(key(size));
    }
    ev
}

fn rebuild_draw(sc: &mut Scanner, c: &Candle, ev: &BarEvents) {
    let q = if ev.draw_due {
        draw_quotes(sc, num(c.close), num(ev.atr))
    } else {
        DrawQuotes { levels: Vec::new(), gaps: Vec::new() }
    };
    sc.rebuild_draw(c, ev, &q);
}

fn after_hooks(sc: &mut Scanner, c: &Candle, atr: f64) {
    let q = hook_quote(sc, c, atr);
    sc.after_hooks(c, key(atr), &q);
}

fn step(sc: &mut Scanner, c: &Candle) {
    let ev = process(sc, c);
    rebuild_draw(sc, c, &ev);
    after_hooks(sc, c, num(ev.atr));
}

fn scanner(cfg: ScannerCfg) -> (Scanner, Names) {
    let mut names = Names::new();
    let sc = Scanner::new(cfg, significance(), &mut names);
    (sc, names)
}

fn rebuild_from(sc: Scanner, names: &mut Names, tape: &[Candle]) -> Scanner {
    let mut fresh = sc.rebuild_from(names);
    for c in tape {
        step(&mut fresh, c);
    }
    fresh
}

/// Timeframe 0 is one minute.
fn candle(ts: i64, o: f64, h: f64, l: f64, c: f64) -> Candle {
    Candle {
        asset: 0,
        timeframe: 0,
        open: key(o),
        high: key(h),
        low: key(l),
        close: key(c),
        volume: key(0.0),
        timestamp: ts as i128 * SECOND,
        complete: true,
    }
}

fn add(sc: &mut Scanner, price: f64, side: Side, source: &str, ts: i64, atr: f64) -> i64 {
    let tol = atr * num(sc.cfg.levels.cluster_atr_tolerance);
    let band = if atr > 0.0 { Some(around(price, tol)) } else { None };
    sc.add_level_named(key(price), side, source, 0, ts, 1, band)
}

fn first_gap(
    sc: &Scanner,
    dir: Direction,
    since: i64,
    min_gap: f64,
    zone: (f64, f64),
    clear_from: f64,
    min_clear: f64,
) -> Option<Fvg> {
    let wide: Vec<bool> = sc
        .fvgs_since(0, dir, false, since)
        .iter()
        .map(|f| (num(f.near) - num(f.far)).abs() >= min_gap)
        .collect();
    let clear_at = match dir {
        Direction::Bull => lowest(key(f64::INFINITY), &|n| n - clear_from >= min_clear),
        Direction::Bear => highest(key(f64::NEG_INFINITY), &|n| clear_from - n >= min_clear),
    };
    let q = GapFilter { zone_lo: key(zone.0), zone_hi: key(zone.1), clear_at };
    sc.fvg_first(0, dir, false, since, &wide, &q)
}

fn target(sc: &Scanner, dir: Direction, entry: f64, stop: f64, min_rr: f64) -> Option<(f64, f64)> {
    let risk = (entry - stop).abs();
    let far_enough = |p: f64| (p - entry).abs() / risk >= min_rr;
    let reach = match dir {
        Direction::Bull => lowest(key(f64::INFINITY), &|p| p >= entry && far_enough(p)),
        Direction::Bear => highest(key(f64::NEG_INFINITY), &|p| p <= entry && far_enough(p)),
    };
    sc.find_target(dir, key(entry), risk > 0.0, reach, 0)
        .map(|(p, _)| (num(p), (num(p) - entry).abs() / risk))
}

// ─── Tests ───────────────────────────────────────────────────────────────────

#[test]
fn significance_scales_swings_by_timeframe_and_touch() {
    let (mut sc, mut names) = scanner(cfg());
    let sh = sc.source_id("swing_high");
    let pdh = sc.source_id("pdh");
    let (m, h) = (tf_id(&mut names, "1m"), tf_id(&mut names, "1h"));
    assert_eq!(num(sc.significance(sh, m, 1)), 1.0);
    assert_eq!(num(sc.significance(sh, h, 1)), 2.0);
    assert_eq!(num(sc.significance(sh, h, 2)), 3.0);
    assert_eq!(num(sc.significance(sh, h, 5)), 4.0);
    assert_eq!(num(sc.significance(pdh, h, 1)), 4.0);
    assert_eq!(num(sc.significance_by_name("swing_high", h, 3)), 4.0);
    assert_eq!(num(sc.significance_by_name("never_heard_of", h, 1)), 1.0);
}

#[test]
fn levels_merge_within_the_cluster_tolerance_only_with_an_atr() {
    let (mut sc, _) = scanner(cfg());
    let a = add(&mut sc, 100.0, Side::Bsl, "pdh", 0, 1.0);
    let b = add(&mut sc, 100.4, Side::Bsl, "pdh", 10, 1.0);
    assert_eq!(a, b, "within 0.5 * atr merges");
    assert_eq!(sc.level(a).unwrap().touch, 2);
    assert_eq!(num(sc.level(a).unwrap().sig), 5.0, "touch bonus applied on merge");
    let c = add(&mut sc, 100.4, Side::Ssl, "pdl", 10, 1.0);
    assert_ne!(a, c, "other side never merges");
    let d = add(&mut sc, 100.1, Side::Bsl, "pdh", 10, 0.0);
    assert_ne!(a, d, "no atr, no merge");
}

#[test]
fn a_crossed_level_becomes_a_sweep_when_price_comes_back() {
    let (mut sc, _) = scanner(cfg());
    add(&mut sc, 100.0, Side::Bsl, "pdh", 0, 0.0);
    let ev = process(&mut sc, &candle(60, 99.0, 101.0, 98.0, 100.5));
    assert!(ev.sweeps.is_empty(), "a developing sweep is not final");
    let ev = process(&mut sc, &candle(120, 99.8, 99.8, 99.0, 99.5));
    assert_eq!(ev.sweeps.len(), 1);
    let s = &ev.sweeps[0];
    assert_eq!(s.dir, Direction::Bear);
    assert_eq!(num(s.extreme_price), 101.0);
    assert_eq!(s.start_ts, 60);
    assert_eq!(sc.source_name(s.level_source), "pdh");
    assert!(
        sc.levels_beyond(Side::Bsl, key(0.0), key(0.0)).is_empty(),
        "swept levels leave the registry"
    );
}

#[test]
fn a_persistent_crossing_finalizes_at_max_multi_candle() {
    let (mut sc, _) = scanner(cfg());
    add(&mut sc, 100.0, Side::Ssl, "pdl", 0, 0.0);
    let mut n = 0;
    for i in 0..3 {
        let ev = process(&mut sc, &candle(60 * (i + 1), 100.0, 100.0, 99.0 - i as f64, 99.5));
        n += ev.sweeps.len();
        if i < 2 {
            assert_eq!(n, 0);
        }
    }
    assert_eq!(n, 1);
}

#[test]
fn swings_and_gaps_feed_the_registry_and_the_tracker() {
    let (mut sc, _) = scanner(cfg());
    // A bullish gap: c1 high 101 < c3 low 103, centre bar is a swing low.
    process(&mut sc, &candle(60, 100.0, 101.0, 99.0, 100.5));
    process(&mut sc, &candle(120, 100.5, 101.5, 98.0, 101.0));
    process(&mut sc, &candle(180, 103.0, 104.0, 103.0, 103.5));
    let f = sc.fvgs_since(0, Direction::Bull, false, 0);
    assert_eq!(f.len(), 1);
    assert_eq!(num(f[0].near), 103.0);
    assert_eq!(num(f[0].far), 101.0);
    assert_eq!(f[0].c1_stop, Some(key(99.0)));
    // The swing low at 98 is now a sell-side level.
    let below = sc.levels_beyond(Side::Ssl, key(100.0), key(0.0));
    assert_eq!(below.len(), 1);
    assert_eq!(num(below[0].price), 98.0);
    // A body trading through the far edge inverts the gap.
    process(&mut sc, &candle(240, 103.0, 103.0, 100.0, 100.5));
    assert_eq!(sc.fvg(0).unwrap().status, FvgStatus::Inverted);
    let inv = sc.fvgs_since(0, Direction::Bear, true, 0);
    assert_eq!(inv.len(), 1);
    assert_eq!(num(inv[0].near), 103.0);
}

#[test]
fn first_gap_query_honours_every_filter() {
    let (mut sc, _) = scanner(cfg());
    process(&mut sc, &candle(60, 100.0, 101.0, 99.0, 100.5));
    process(&mut sc, &candle(120, 100.5, 101.5, 98.0, 101.0));
    process(&mut sc, &candle(180, 103.0, 104.0, 103.0, 103.5));
    let inf = f64::INFINITY;
    let bull = Direction::Bull;
    let all = (-inf, inf);
    assert!(first_gap(&sc, bull, 0, 0.0, all, 0.0, -inf).is_some());
    assert!(first_gap(&sc, bull, 181, 0.0, all, 0.0, -inf).is_none(), "since");
    assert!(first_gap(&sc, bull, 0, 5.0, all, 0.0, -inf).is_none(), "min gap");
    assert!(first_gap(&sc, bull, 0, 0.0, (110.0, 120.0), 0.0, -inf).is_none(), "zone");
    assert!(first_gap(&sc, bull, 0, 0.0, all, 98.0, 6.0).is_none(), "clearance");
    assert!(first_gap(&sc, bull, 0, 0.0, all, 98.0, 5.0).is_some());
}

#[test]
fn decay_expires_levels_in_single_precision() {
    let (mut sc, _) = scanner(cfg());
    add(&mut sc, 100.0, Side::Bsl, "pdh", 0, 0.0);
    after_hooks(&mut sc, &candle(60, 1.0, 1.0, 1.0, 1.0), 1.0);
    assert_eq!(
        sc.registry.levels[0].status,
        Status::Active,
        "one tick of 1/1 per candle: 1 < 2"
    );
    assert_eq!(num(sc.registry.levels[0].decay) as f32, 1.0f32);
    sc.candle_count = 1; // keep the prune cadence out of it
    after_hooks(&mut sc, &candle(120, 1.0, 1.0, 1.0, 1.0), 1.0);
    assert_eq!(sc.registry.levels[0].status, Status::Expired);
    sc.candle_count = 1000;
    after_hooks(&mut sc, &candle(180, 1.0, 1.0, 1.0, 1.0), 1.0);
    assert!(sc.registry.levels.is_empty(), "pruned on the cadence");
}

/// A synthetic tape with structure: a drifting sine with a widening range,
/// so swings, gaps, levels and sweeps all actually fire.
fn tape(from_min: i64, to_min: i64) -> Vec<Candle> {
    let mut out = Vec::new();
    for i in from_min..to_min {
        let t = i as f64;
        // Irrational-ratio periods, so the series never repeats: a
        // periodic fixture would leave the deep prefix indistinguishable
        // from the shallow one and the control test would have no teeth.
        let mid = 100.0
            + (t / 37.0).sin() * 5.0
            + (t / 311.7).sin() * 12.0
            + (t / 1013.3).sin() * 25.0;
        let w = 0.15 + ((t / 53.0).cos() * 0.1).abs();
        let o = mid + (t / 7.0).sin() * w;
        let c = mid + (t / 11.0).cos() * w;
        out.push(candle(i * 60, o, o.max(c) + w, o.min(c) - w, c));
    }
    out
}

/// Everything a rebuild is meant to make reproducible, as a comparable
/// string: the level registry, the gap store and the draw map.
fn fingerprint(sc: &Scanner) -> String {
    let mut s = String::new();
    let mut levels: Vec<&Level> = sc
        .registry
        .levels
        .iter()
        .filter(|l| l.status == Status::Active)
        .collect();
    levels.sort_by(|a, b| a.price.cmp(&b.price).then(a.ts.cmp(&b.ts)));
    for l in levels {
        s.push_str(&format!(
            "L {:.6} {} {} {} {} {:.6}\n",
            num(l.price),
            l.side.as_str(),
            sc.source_name(l.source),
            l.tf,
            l.touch,
            num(l.sig)
        ));
    }
    // The whole gap store, not just the active index.
    for f in &sc.gaps.fvgs {
        s.push_str(&format!(
            "F {} {:?} {} {:.6} {:.6} {:?}\n",
            f.ts,
            f.dir,
            f.tf,
            num(f.near),
            num(f.far),
            f.status
        ));
    }
    for g in &sc.signals.signals {
        s.push_str(&format!("S {:?} {} {} {:.6}\n", g.kind, g.tf, g.ts, num(g.level)));
    }
    if let Some(d) = sc.draw_map() {
        for t in &d.targets {
            s.push_str(&format!(
                "D {:.6} {:?} {:.6}\n",
                num(t.price),
                t.dir,
                num(t.draw_score)
            ));
        }
    }
    s
}

/// The property the rebuild exists for: two scanners that start at
/// different times, and so warm up to different depths, hold IDENTICAL
/// derived state once both have rebuilt past the same horizon.
#[test]
fn rebuild_makes_state_warmup_invariant() {
    let window = &tape(0, 60 * 24 * 40);
    let deep = &tape(-60 * 24 * 40, 0);

    let (shallow, mut names) = scanner(cfg_long());
    let shallow = rebuild_from(shallow, &mut names, window);

    let (mut warm, mut names) = scanner(cfg_long());
    for c in deep {
        step(&mut warm, c);
    }
    // Twice the history at the moment of the rebuild, same trailing window.
    let warm = rebuild_from(warm, &mut names, window);

    assert_eq!(
        fingerprint(&warm),
        fingerprint(&shallow),
        "a rebuild from the same trailing window must erase the warmup difference"
    );
    assert!(
        !fingerprint(&shallow).is_empty(),
        "the fixture must actually build state, or the comparison is vacuous"
    );
}

/// The control: without the rebuild the same two runs DISAGREE, so the
/// test above is not passing on an empty or trivially equal state.
#[test]
fn without_rebuild_state_is_not_warmup_invariant() {
    let window = &tape(0, 60 * 24 * 40);
    let deep = &tape(-60 * 24 * 40, 0);

    let (mut shallow, _) = scanner(cfg_long());
    for c in window {
        step(&mut shallow, c);
    }
    let (mut warm, _) = scanner(cfg_long());
    for c in deep.iter().chain(window) {
        step(&mut warm, c);
    }

    assert_ne!(
        fingerprint(&warm),
        fingerprint(&shallow),
        "control: warmup depth must still move the state without a rebuild"
    );
}

/// The rebuild is a swap, and `wake` / `wake_book` are strategy-set arming
/// bits rather than bar-derived state.
#[test]
fn rebuild_carries_the_wake_bits_across() {
    let (mut sc, mut names) = scanner(cfg_long());
    let (m, h) = (tf_id(&mut names, "1m"), tf_id(&mut names, "1h"));
    sc.wake.push(m);
    sc.wake.push(h);
    sc.wake_book = true;
    let sc = rebuild_from(sc, &mut names, &tape(0, 500));
    assert!(sc.wake.contains(&m));
    assert!(sc.wake.contains(&h));
    assert!(sc.wake_book);
}

#[test]
fn find_target_wants_the_nearest_level_past_the_minimum_reward() {
    let (mut sc, _) = scanner(cfg());
    add(&mut sc, 101.0, Side::Bsl, "pdh", 0, 0.0);
    add(&mut sc, 105.0, Side::Bsl, "pdh", 0, 0.0);
    let (price, rr) = target(&sc, Direction::Bull, 100.0, 99.0, 2.0).unwrap();
    assert_eq!(price, 105.0);
    assert_eq!(rr, 5.0);
    assert!(target(&sc, Direction::Bull, 100.0, 99.0, 6.0).is_none());
    assert_eq!(num(sc.nearest_beyond(Side::Bsl, key(100.0)).unwrap().price), 101.0);
    assert!(sc.nearest_beyond(Side::Ssl, key(100.0)).is_none());
}

#[test]
fn the_draw_map_ranks_by_significance_over_distance() {
    let (mut sc, _) = scanner(cfg());
    add(&mut sc, 110.0, Side::Bsl, "pdh", 0, 0.0);
    add(&mut sc, 97.0, Side::Ssl, "pdl", 0, 0.0);
    add(&mut sc, 130.0, Side::Bsl, "swing_high", 0, 0.0);
    let q = draw_quotes(&sc, 100.0, 1.0);
    let d = sc.cfg.draw.clone().unwrap();
    let gaps = sc.active_gap_list();
    sc.draw.build_draw(
        &d,
        &sc.sources,
        &sc.registry.levels,
        &gaps,
        &sc.fvg_sig,
        &q,
        key(100.0),
        key(1.0),
        600,
    );
    let dm = sc.draw_map().unwrap();
    assert_eq!(dm.targets.len(), 2, "swing sources are not draw candidates");
    assert_eq!(
        num(dm.targets[0].price),
        97.0,
        "nearer of two equal-significance levels leads"
    );
    assert_eq!(dm.targets[0].dir, Direction::Bear);
    let (dir, top, opposing) = sc.draw_bias().unwrap();
    let conf = num(top) / (num(top) + num(opposing.unwrap()));
    assert_eq!(dir, Direction::Bear);
    assert!(conf > 0.5 && conf < 1.0);
}

#[test]
fn the_day_tracker_reports_each_completed_utc_day() {
    let (mut sc, _) = scanner(cfg());
    let d10 = 86_400 * 10;
    assert!(process(&mut sc, &candle(d10 + 60, 1.0, 2.0, 0.5, 1.5)).day_closed.is_none());
    assert!(process(&mut sc, &candle(d10 + 120, 1.5, 3.0, 1.0, 2.0)).day_closed.is_none());
    let ev = process(&mut sc, &candle(86_400 * 11 + 60, 2.0, 2.5, 1.5, 2.2));
    let d = ev.day_closed.expect("a new day closes the previous one");
    assert_eq!(d.day_ms, 86_400_000 * 10);
    assert_eq!(
        (num(d.open), num(d.high), num(d.low), num(d.close)),
        (1.0, 3.0, 0.5, 2.0)
    );
    assert_eq!(num(sc.day().unwrap().high), 2.5);
}

#[test]
fn equal_highs_become_one_level_with_their_count() {
    let mut c = cfg();
    c.primitives.swing_lookback = 50;
    c.equal_levels = Some(EqualLevelsCfg {
        enabled: true,
        window: 20,
        every: 5,
        min_count: 3,
        min_dist_atr: key(0.0),
        emitted_cap: 100,
        high_source: "eqh".to_string(),
        low_source: "eql".to_string(),
    });
    let (mut sc, _) = scanner(c);
    for i in 0..7i64 {
        // Highs alternate between 101 and 101.01; lows fall away.
        let high = if i % 2 == 0 { 101.0 } else { 101.01 };
        let low = 99.0 - 3.0 * i as f64;
        process(&mut sc, &candle(60 * (i + 1), 100.0, high, low, 100.0));
    }
    let above = sc.levels_beyond(Side::Bsl, key(100.5), key(0.0));
    assert_eq!(above.len(), 1, "one cluster, one level: {above:?}");
    assert_eq!(sc.source_name(above[0].source), "eqh");
    assert!(above[0].touch >= 3);
    assert!((num(above[0].price) - 101.0).abs() < 0.02);
}

#[test]
fn a_session_that_ends_leaves_its_high_and_low() {
    let mut c = cfg();
    c.primitives.swing_lookback = 50;
    c.sessions = SessionsCfg {
        enabled: true,
        tz_offset_secs: 0,
        sessions: vec![SessionSpec { name: "asia".to_string(), start_hour: 0, end_hour: 1 }],
        open_marks: vec![OpenMark { hour: 2, minute: 0, source: "two_oclock".to_string() }],
    };
    let (mut sc, _) = scanner(c);
    let day = 86_400 * 100;
    for m in 0..130i64 {
        let high = if m == 30 { 105.0 } else { 101.0 };
        process(&mut sc, &candle(day + 60 * m, 100.0, high, 99.0, 100.0));
    }
    let above = sc.levels_beyond(Side::Bsl, key(102.0), key(0.0));
    assert!(
        above.iter().any(|l| num(l.price) == 105.0 && sc.source_name(l.source) == "session_high"),
        "{above:?}"
    );
    let all: Vec<String> = sc.registry.levels.iter().map(|l| sc.source_name_owned(l)).collect();
    assert!(all.iter().any(|n| n == "two_oclock"), "{all:?}");
}

#[test]
fn a_close_beyond_the_last_swing_breaks_structure_once() {
    let (mut sc, _) = scanner(cfg());
    process(&mut sc, &candle(60, 100.0, 101.0, 99.0, 100.0));
    process(&mut sc, &candle(120, 100.0, 103.0, 99.5, 101.0));
    let ev = process(&mut sc, &candle(180, 101.0, 102.0, 100.0, 101.0));
    assert!(ev.breaks.is_empty());
    let ev = process(&mut sc, &candle(240, 101.0, 104.0, 101.0, 103.5));
    assert_eq!(ev.breaks.len(), 1);
    assert_eq!(num(ev.breaks[0].level), 103.0);
    assert_eq!(ev.breaks[0].dir, Direction::Bull);
    let ev = process(&mut sc, &candle(300, 103.5, 104.0, 103.0, 103.8));
    assert!(ev.breaks.is_empty(), "one break per level");
}

#[test]
fn sides_have_names_that_parse_back() {
    assert_eq!(Side::parse(Side::Bsl.as_str()), Some(Side::Bsl));
    assert_eq!(Side::parse("ssl"), Some(Side::Ssl));
    assert_eq!(Side::parse("both"), None);
    assert_eq!(FvgStatus::Unmitigated.as_str(), "unmit");
    assert_eq!(FvgStatus::Inverted.as_str(), "inverted");
}

#[test]
fn an_opening_mark_takes_the_first_bar_at_or_after_its_time() {
    let mut c = cfg();
    c.sessions = SessionsCfg {
        enabled: true,
        tz_offset_secs: 0,
        sessions: Vec::new(),
        open_marks: vec![OpenMark { hour: 9, minute: 30, source: "op".to_string() }],
    };
    let (mut sc, _) = scanner(c);
    // 09:00, then 10:00: the day's first bar at or after 09:30.
    process(&mut sc, &candle(896_400, 50.0, 51.0, 49.0, 50.0));
    process(&mut sc, &candle(900_000, 52.0, 52.5, 51.5, 52.0));
    let above = sc.levels_beyond(Side::Bsl, key(51.0), key(0.0));
    assert_eq!(above.len(), 1, "{above:?}");
    assert_eq!(num(above[0].price), 52.0);
    assert_eq!(sc.source_name(above[0].source), "op");
    // A later bar of the day marks nothing.
    process(&mut sc, &candle(903_600, 53.0, 53.0, 51.5, 52.0));
    assert!(sc.registry.levels.iter().all(|l| num(l.price) != 53.0 || l.source != above[0].source));
}

#[test]
fn a_bearish_gap_is_entered_at_its_lower_edge() {
    let (mut sc, _) = scanner(cfg());
    process(&mut sc, &candle(60, 100.0, 101.0, 99.0, 99.5));
    process(&mut sc, &candle(120, 99.5, 99.5, 96.0, 97.0));
    process(&mut sc, &candle(180, 96.5, 97.0, 95.0, 96.0));
    let g = sc.fvg(0).unwrap();
    assert_eq!(g.dir, Direction::Bear);
    assert_eq!(num(g.near), 97.0);
    assert_eq!(num(g.far), 99.0);
    assert_eq!(num(g.ce), 98.0);
    assert_eq!(g.c1_stop, Some(key(101.0)));
    // A body inside the gap does not invert it, one above its far edge does.
    process(&mut sc, &candle(240, 96.5, 97.6, 96.5, 97.5));
    assert_eq!(sc.fvg(0).unwrap().status, FvgStatus::Unmitigated);
    process(&mut sc, &candle(300, 98.5, 100.0, 98.5, 99.5));
    assert_eq!(sc.fvg(0).unwrap().status, FvgStatus::Inverted);
    let inv = sc.fvgs_since(0, Direction::Bull, true, 0);
    assert_eq!(inv.len(), 1);
    assert_eq!((num(inv[0].near), num(inv[0].far)), (99.0, 97.0));
}

#[test]
fn levels_of_one_source_within_the_quantum_are_one_candidate() {
    let (mut sc, _) = scanner(cfg());
    for m in 1..4i64 {
        process(&mut sc, &candle(60 * m, 100.0, 100.5, 99.5, 100.0));
    }
    // An ATR of one and a quantum of a tenth: the first two are one.
    add(&mut sc, 103.04, Side::Bsl, "pdh", 0, 0.0);
    add(&mut sc, 103.06, Side::Bsl, "pdh", 0, 0.0);
    add(&mut sc, 103.50, Side::Bsl, "pdh", 0, 0.0);
    step(&mut sc, &candle(240, 100.0, 100.5, 99.5, 100.0));
    let mut prices: Vec<f64> =
        sc.draw_map().unwrap().targets.iter().map(|t| num(t.price)).collect();
    prices.sort_by(|a, b| a.partial_cmp(b).unwrap());
    assert_eq!(prices, vec![103.04, 103.50]);
}

#[test]
fn a_retest_is_measured_from_the_close() {
    let mut c = cfg();
    c.primitives.swing_lookback = 50;
    c.levels.refresh_atr = key(0.5);
    c.levels.decay_candles = key(100.0);
    c.levels.prune_every = 0;
    let (mut sc, _) = scanner(c);
    for m in 1..4i64 {
        process(&mut sc, &candle(60 * m, 100.0, 100.5, 99.5, 100.0));
    }
    let id = add(&mut sc, 101.0, Side::Bsl, "pdh", 0, 0.0);
    // The high comes within half an ATR of the level, the close does not.
    step(&mut sc, &candle(240, 100.0, 100.9, 99.9, 100.0));
    assert_eq!(num(sc.level(id).unwrap().decay), 1.0, "not refreshed");
    // A close within half an ATR is a retest; the bar's own tick follows it.
    step(&mut sc, &candle(300, 100.0, 100.9, 99.9, 100.8));
    assert_eq!(num(sc.level(id).unwrap().decay), 1.0, "refreshed, then one tick");
    assert_eq!(sc.level(id).unwrap().last_touch, 300);
}

#[test]
fn the_count_of_an_equal_level_is_its_clusters() {
    let mut c = cfg();
    c.primitives.swing_lookback = 50;
    c.equal_levels = Some(EqualLevelsCfg {
        enabled: true,
        window: 20,
        every: 5,
        min_count: 3,
        min_dist_atr: key(0.0),
        emitted_cap: 100,
        high_source: "eqh".to_string(),
        low_source: "eql".to_string(),
    });
    let (mut sc, _) = scanner(c);
    // Two bars before there is an ATR, then the highs count.
    for i in 0..6i64 {
        process(&mut sc, &candle(60 * (i + 1), 100.0, 101.0, 99.0 - 3.0 * i as f64, 100.0));
    }
    let last = candle(420, 100.0, 101.0, 81.0, 100.0);
    // Numbers that fit no cluster are turned away before the bar is taken.
    let mut q = scan_quote(&sc, &last);
    q.equals.highs.clusters.clear();
    assert!(!sc.has_room(&last, &q));
    process(&mut sc, &last);
    let level = sc.registry.levels.iter().find(|l| sc.source_name(l.source) == "eqh").unwrap();
    assert_eq!(level.touch, 5, "five equal highs");
    assert_eq!(level.side, Side::Bsl);
    assert_eq!(num(level.price), 101.0);
    // A window of well over a million prices leaves room.
    let next = candle(480, 100.0, 101.0, 78.0, 100.0);
    let q = scan_quote(&sc, &next);
    let wide = (1 << 20) + 3;
    let mut eq = sc.eq.take().unwrap();
    eq.count = 0;
    eq.highs = vec![key(101.0); wide];
    eq.lows = vec![key(99.0); wide];
    sc.eq = Some(eq);
    assert!(sc.has_room(&next, &q));
}

#[test]
fn no_level_is_swept_twice_along_a_tape() {
    let mut c = cfg_long();
    c.sweep.min_level_sig = key(1.0);
    let (mut sc, _) = scanner(c);
    let mut swept = Vec::new();
    for bar in tape(0, 600) {
        let ev = process(&mut sc, &bar);
        for s in &ev.sweeps {
            assert!(num(s.level_sig) >= 1.0);
            assert_eq!(s.dir == Direction::Bear, s.level_side == Side::Bsl);
            assert!(!swept.contains(&s.level_id), "level {} twice", s.level_id);
            swept.push(s.level_id);
        }
        rebuild_draw(&mut sc, &bar, &ev);
        after_hooks(&mut sc, &bar, num(ev.atr));
        for side in [Side::Bsl, Side::Ssl] {
            let from = if side == Side::Bsl { 0.0 } else { 1e9 };
            for l in sc.levels_beyond(side, key(from), key(0.0)) {
                assert!(!swept.contains(&l.id));
            }
        }
    }
    assert!(!swept.is_empty());
}

#[test]
fn a_new_scanner_knows_its_draw_sources_and_keeps_them_when_rebuilt() {
    let (sc, mut names) = scanner(cfg());
    let weights = |s: &Scanner| -> Vec<(String, f64)> {
        s.sources.draw_sources.iter().map(|(n, w)| (n.clone(), num(*w))).collect()
    };
    assert_eq!(weights(&sc), vec![("pdh".to_string(), 6.0), ("pdl".to_string(), 6.0)]);
    let again = sc.rebuild_from(&mut names);
    assert_eq!(weights(&again), vec![("pdh".to_string(), 6.0), ("pdl".to_string(), 6.0)]);
    let m = tf_id(&mut names, "1h");
    assert!(again.sources.tf_rows.get(m).is_some());
}

#[test]
fn the_draw_cadence_counts_base_candles() {
    let mut c = cfg();
    c.primitives.swing_lookback = 50;
    c.draw.as_mut().unwrap().every = 3;
    let (mut sc, mut names) = scanner(c);
    let five = tf_id(&mut names, "5m");
    let mut due = Vec::new();
    for (i, base) in [true, false, true, false, true, true, true, true].iter().enumerate() {
        let mut bar = candle(60 * (i as i64 + 1), 100.0, 101.0, 99.0, 100.0);
        if !base {
            bar.timeframe = five;
        }
        due.push(process(&mut sc, &bar).draw_due);
    }
    assert_eq!(due, vec![false, false, false, false, true, false, false, true]);
    assert_eq!(sc.candle_count(), 8);
    assert_eq!(sc.base_count, 6);
}

#[test]
fn a_sweep_on_any_timeframe_rebuilds_the_draw_map() {
    let mut c = cfg();
    c.primitives.swing_lookback = 50;
    c.draw.as_mut().unwrap().every = 1000;
    let (mut sc, mut names) = scanner(c);
    let five = tf_id(&mut names, "5m");
    add(&mut sc, 102.0, Side::Bsl, "pdh", 0, 0.0);
    let mut bars = vec![
        candle(300, 100.0, 101.0, 99.0, 100.0),
        candle(600, 100.0, 101.0, 99.0, 100.0),
        candle(900, 101.0, 103.0, 100.0, 102.5),
        candle(1200, 101.0, 101.5, 99.0, 100.0),
    ];
    for bar in bars.iter_mut() {
        bar.timeframe = five;
        let ev = process(&mut sc, bar);
        assert_eq!(ev.draw_due, !ev.sweeps.is_empty());
        rebuild_draw(&mut sc, bar, &ev);
    }
    assert_eq!(sc.draw_map().unwrap().ts, 1200);
    assert_eq!(sc.draw.recent_sweeps.len(), 1);
}

#[test]
fn a_sweep_boosts_only_while_it_is_younger_than_the_window() {
    let (mut sc, _) = scanner(cfg());
    add(&mut sc, 100.0, Side::Bsl, "pdh", 0, 0.0);
    process(&mut sc, &candle(60, 99.0, 101.0, 98.0, 100.5));
    let ev = process(&mut sc, &candle(120, 99.8, 99.8, 99.0, 99.5));
    assert_eq!(ev.sweeps[0].start_ts, 60);
    sc.draw.record(&ev.sweeps);
    sc.draw.expire(60 + 3599, 3600);
    assert_eq!(sc.draw.recent_sweeps.len(), 1);
    sc.draw.expire(60 + 3600, 3600);
    assert!(sc.draw.recent_sweeps.is_empty());
}

#[test]
fn the_oldest_active_gap_goes_first_whatever_its_status() {
    let gap = |ts: i64| NewGap {
        dir: Direction::Bull,
        tf: 0,
        ts,
        near: key(102.0),
        far: key(100.0),
        ce: key(101.0),
        c1_stop: key(98.0),
    };
    let cfg = FvgCfg { cap: 1, cap_overshoot: 0 };
    let mut gaps = GapStore::new();
    gaps.fvg_add(&cfg, &gap(60));
    gaps.fvg_process(&cfg, &candle(120, 103.0, 103.0, 100.5, 103.0), 120);
    assert_eq!(gaps.fvg(0).unwrap().status, FvgStatus::Mitigated);
    gaps.fvg_add(&cfg, &gap(180));
    assert_eq!(gaps.fvg(0).unwrap().status, FvgStatus::Filled, "the older one");
    assert_eq!(gaps.fvg(1).unwrap().status, FvgStatus::Unmitigated);
    assert_eq!(gaps.active, vec![1]);
    // Some more than the excess go, so that the next bar need not cap again.
    let wide = FvgCfg { cap: 3, cap_overshoot: 2 };
    for i in 0..3 {
        gaps.fvg_add(&wide, &gap(240 + 60 * i));
    }
    assert_eq!(gaps.active, vec![4], "one over the cap, two past it");
}

#[test]
fn a_target_without_a_floor_may_have_any_significance() {
    let (mut sc, _) = scanner(cfg());
    let id = add(&mut sc, 110.0, Side::Bsl, "pdh", 0, 0.0);
    assert_eq!(sc.registry.levels[0].id, id);
    sc.registry.levels[0].sig = key(-1.0);
    assert_eq!(target(&sc, Direction::Bull, 100.0, 95.0, 1.0), Some((110.0, 2.0)));
    let reach = key(105.0);
    assert_eq!(sc.find_target(Direction::Bull, key(100.0), true, reach, key(1.0)), None);
    assert!(sc.find_target(Direction::Bull, key(100.0), true, reach, key(-2.0)).is_some());
}

#[test]
fn days_before_the_epoch_are_utc_days_too() {
    let bar = candle(0, 100.0, 101.0, 99.0, 100.0);
    let (first, closed) = day_process(None, &bar, -1);
    assert_eq!((first.day_ms, closed), (-86_400_000, None));
    let (next, closed) = day_process(Some(first), &bar, 0);
    assert_eq!((next.day_ms, closed), (0, Some(first)));
    assert_eq!(day_process(None, &bar, -86_400).0.day_ms, -86_400_000);
    assert_eq!(day_process(None, &bar, -86_401).0.day_ms, -172_800_000);
}
