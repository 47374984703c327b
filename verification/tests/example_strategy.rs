//! The moving-average crossover.
use backtest_engine::clock::{MINUTE, SECOND};
use backtest_engine::example_strategy::{CrossQuote, MaCrossover};
use backtest_engine::key::{bits_of_key, key_of_bits};
use backtest_engine::models::{
    asset_id, set_base_interval, sig_type_name, tf_id, Candle, Direction, Names, Opportunity,
};
use backtest_engine::paper::book::TakeParams;

fn key(x: f64) -> i64 {
    key_of_bits(x.to_bits()).unwrap()
}

fn num(k: i64) -> f64 {
    f64::from_bits(bits_of_key(k))
}

struct Desk {
    s: MaCrossover,
    names: Names,
}

fn mean(xs: &[f64]) -> f64 {
    xs.iter().sum::<f64>() / xs.len() as f64
}

impl Desk {
    fn new(fast: usize, slow: usize, mult: f64) -> Self {
        Desk { s: MaCrossover::new(fast, slow, key(mult)), names: Names::new() }
    }

    fn bar(&mut self, asset: &str, min: i64, close: f64) -> Candle {
        Candle {
            asset: asset_id(&mut self.names, asset),
            timeframe: tf_id(&mut self.names, "1m"),
            open: key(close),
            high: key(close + 0.5),
            low: key(close - 0.5),
            close: key(close),
            volume: key(1.0),
            timestamp: 1_775_001_600 * SECOND + min as i128 * MINUTE,
            complete: true,
        }
    }

    fn on_candle(&mut self, c: &Candle) -> Vec<Opportunity> {
        let mut q = CrossQuote { fast_ma: None, slow_ma: None, risk: None, stop_long: 0, stop_short: 0 };
        if let Some(bars) = self.s.window(&self.names, c) {
            let closes: Vec<f64> = bars.iter().map(|b| num(b.close)).collect();
            let ranges: Vec<f64> = bars.iter().map(|b| num(b.high) - num(b.low)).collect();
            let close = num(c.close);
            let risk = (num(self.s.stop_atr_mult) * mean(&ranges)).max(close.abs() * 1e-6);
            q = CrossQuote {
                fast_ma: key_of_bits(mean(&closes[closes.len() - self.s.fast..]).to_bits()),
                slow_ma: key_of_bits(mean(&closes).to_bits()),
                risk: key_of_bits(risk.to_bits()),
                stop_long: key(close - risk),
                stop_short: key(close + risk),
            };
        }
        self.s.on_candle(&mut self.names, c, &q)
    }

    /// Feed a price path and collect everything the strategy emits.
    fn run(&mut self, asset: &str, prices: &[f64]) -> Vec<Opportunity> {
        let mut out = Vec::new();
        for (i, p) in prices.iter().enumerate() {
            let b = self.bar(asset, i as i64, *p);
            out.extend(self.on_candle(&b));
        }
        out
    }
}

#[test]
fn emits_nothing_until_the_slow_window_is_full() {
    let mut d = Desk::new(2, 5, 2.0);
    // Four bars is one short of the slow window.
    assert!(d.run("WARM", &[1.0, 2.0, 3.0, 4.0]).is_empty());
}

/// A price path that establishes a DOWN state, then reverses up, then back
/// down — so both crossings are real transitions rather than the initial
/// sign being read off a one-directional series.
fn down_up_down() -> Vec<f64> {
    let mut prices: Vec<f64> = (0..10).map(|i| 100.0 - i as f64).collect(); // falling
    prices.extend((0..14).map(|i| 91.0 + 2.0 * i as f64)); // rising through
    prices.extend((0..16).map(|i| 117.0 - 3.0 * i as f64)); // and back down
    prices
}

#[test]
fn a_reversal_up_then_down_emits_a_long_then_a_short() {
    let mut d = Desk::new(2, 5, 2.0);
    let opps = d.run("CROSS", &down_up_down());

    assert!(!opps.is_empty(), "a full round trip must cross at least once");
    assert_eq!(
        opps[0].direction,
        Direction::Bull,
        "the first crossing out of a downtrend is upward"
    );
    assert!(
        opps.iter().any(|o| o.direction == Direction::Bear),
        "and the reversal back down must cross the other way"
    );
    assert_eq!(sig_type_name(&d.names, opps[0].signal_type), "ma_cross_up");
    assert_eq!(num(opps[0].score), 1.0);
}

#[test]
fn a_one_directional_series_never_crosses() {
    // The subtlety this pins: a monotonically rising series has the fast
    // average above the slow one from the moment the window fills, so the
    // sign is ESTABLISHED rather than crossed.
    let mut d = Desk::new(2, 5, 2.0);
    let rising: Vec<f64> = (0..40).map(|i| 100.0 + i as f64).collect();
    assert!(
        d.run("MONO", &rising).is_empty(),
        "establishing the initial sign is not a crossing"
    );
}

#[test]
fn a_flat_market_never_crosses() {
    let mut d = Desk::new(3, 10, 2.0);
    assert!(d.run("FLAT", &[100.0; 60]).is_empty());
}

#[test]
fn emitted_geometry_admits_and_is_coherent() {
    let mut d = Desk::new(2, 5, 2.0);
    let opps = d.run("GEOM", &down_up_down());
    let o = opps
        .iter()
        .find(|o| o.direction == Direction::Bull)
        .expect("the upward reversal emits");

    // Stop below entry for a long, and a positive risk the accounting can
    // divide by.
    let (entry, stop) = o.entry_stop().expect("geometry is stamped at emission");
    assert!(stop < entry, "a long stops below its entry");
    assert!(num(entry) - num(stop) > 0.0);

    // And a target at a reward:risk of three makes a valid trade of it.
    let (e, s) = (num(entry), num(stop));
    let t = TakeParams { entry, stop, tp: key(e + 3.0 * (e - s)) };
    let planned_rr = (num(t.tp) - e).abs() / (e - s).abs();
    assert!((planned_rr - 3.0).abs() < 1e-9);
    assert!(t.is_valid(Direction::Bull));
    assert!(!t.is_valid(Direction::Bear));
}

#[test]
fn per_asset_state_does_not_bleed_between_assets() {
    let mut d = Desk::new(2, 5, 2.0);
    // Interleave a climbing asset with a flat one. The flat asset must stay
    // silent no matter what the other one is doing.
    let moving = down_up_down();
    let mut flat_emitted = 0;
    let mut move_emitted = 0;
    for (i, p) in moving.iter().enumerate() {
        let b = d.bar("MOVE", i as i64, *p);
        move_emitted += d.on_candle(&b).len();
        let b = d.bar("STILL", i as i64, 50.0);
        flat_emitted += d.on_candle(&b).len();
    }
    assert!(move_emitted > 0, "the reversing asset should cross");
    assert_eq!(flat_emitted, 0, "the flat asset must emit nothing");
}

#[test]
fn higher_timeframe_bars_are_ignored() {
    let mut d = Desk::new(2, 5, 2.0);
    let mut htf = d.bar("HTF", 0, 100.0);
    htf.timeframe = tf_id(&mut d.names, "15m");
    // Even a long run of 15m bars never fills the base-grain window.
    for i in 0..50 {
        htf.timestamp += 15 * MINUTE;
        htf.close = key(100.0 + i as f64);
        assert!(d.on_candle(&htf).is_empty());
    }
}

#[test]
fn bars_still_forming_are_ignored() {
    let mut d = Desk::new(2, 5, 2.0);
    for i in 0..20 {
        let mut b = d.bar("FORM", i, 100.0 + i as f64);
        b.complete = false;
        assert!(d.on_candle(&b).is_empty());
    }
    assert!(d.s.state.is_empty());
}

#[test]
fn the_default_windows() {
    let s = MaCrossover::default();
    assert_eq!((s.fast, s.slow, num(s.stop_atr_mult)), (20, 60, 2.0));
}

#[test]
fn other_assets_grains_and_forming_bars_change_nothing() {
    let prices = down_up_down();
    let mut alone = Desk::new(2, 5, 2.0);
    let want: Vec<(Direction, i128)> =
        alone.run("A", &prices).iter().map(|o| (o.direction, o.created_at)).collect();
    assert!(want.len() >= 2);
    let mut mixed = Desk::new(2, 5, 2.0);
    let mut got = Vec::new();
    for (i, p) in prices.iter().enumerate() {
        let noise = mixed.bar("B", i as i64, 500.0 + 7.0 * (i % 3) as f64);
        mixed.on_candle(&noise);
        let mut slow = mixed.bar("A", i as i64, 1.0);
        slow.timeframe = tf_id(&mut mixed.names, "1h");
        assert!(mixed.on_candle(&slow).is_empty());
        let mut forming = mixed.bar("A", i as i64, 1.0);
        forming.complete = false;
        assert!(mixed.on_candle(&forming).is_empty());
        let bar = mixed.bar("A", i as i64, *p);
        got.extend(mixed.on_candle(&bar).iter().map(|o| (o.direction, o.created_at)));
    }
    assert_eq!(got, want);
}

#[test]
fn the_windows_count_base_bars_whatever_the_base_is() {
    let mut d = Desk::new(2, 5, 2.0);
    set_base_interval(&mut d.names, "1h");
    let hour = tf_id(&mut d.names, "1h");
    let mut hourly = 0;
    for (i, p) in down_up_down().iter().enumerate() {
        let mut b = d.bar("HOUR", 60 * i as i64, *p);
        assert!(d.on_candle(&b).is_empty(), "minute bars are not the base");
        b.timeframe = hour;
        hourly += d.on_candle(&b).len();
    }
    assert_eq!(hourly, 2, "one crossing up, one down");
}
