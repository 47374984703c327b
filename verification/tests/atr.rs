//! Average true range over plain and ranged bars.
use backtest_engine::atr::{atr_spans, plain_spans, Span};
use backtest_engine::clock::SECOND;
use backtest_engine::key::{bits_of_key, key_of_bits};
use backtest_engine::models::Candle;

fn key(x: f64) -> i64 {
    key_of_bits(x.to_bits()).unwrap()
}

fn num(k: i64) -> f64 {
    f64::from_bits(bits_of_key(k))
}

fn c(o: f64, h: f64, l: f64, cl: f64) -> Candle {
    Candle {
        asset: 0,
        timeframe: 0,
        timestamp: 1_735_689_600 * SECOND,
        open: key(o),
        high: key(h),
        low: key(l),
        close: key(cl),
        volume: key(1.0),
        complete: true,
    }
}

fn mean(candles: &[Candle], spans: &[Span]) -> f64 {
    if spans.is_empty() {
        return 0.0;
    }
    let mut sum = 0.0;
    for s in spans {
        let (b, pc) = (&candles[s.bar], num(candles[s.prev].close));
        let (h, l) = (num(b.high), num(b.low));
        sum += (h - l).max((h - pc).abs()).max((l - pc).abs());
    }
    sum / spans.len() as f64
}

fn compute_atr(candles: &[Candle], period: usize) -> f64 {
    mean(candles, &plain_spans(candles.len(), period))
}

fn compute_atr_filtered(candles: &Vec<Candle>, period: usize, skip: bool) -> f64 {
    mean(candles, &atr_spans(candles, period, skip))
}

#[test]
fn skip_false_is_bit_identical() {
    let bars = vec![
        c(10.0, 11.0, 9.5, 10.5),
        c(10.5, 10.5, 10.5, 10.5), // zero-range
        c(10.5, 12.0, 10.0, 11.0),
        c(11.0, 11.5, 10.8, 11.2),
    ];
    assert_eq!(compute_atr_filtered(&bars, 14, false), compute_atr(&bars, 14));
    assert_eq!(compute_atr_filtered(&bars, 2, false), compute_atr(&bars, 2));
}

#[test]
fn no_zero_range_bars_identical_either_way() {
    let bars = vec![
        c(10.0, 11.0, 9.5, 10.5),
        c(10.5, 12.0, 10.0, 11.0),
        c(11.0, 11.5, 10.8, 11.2),
        c(11.2, 11.9, 11.1, 11.6),
    ];
    let a = compute_atr(&bars, 3);
    let b = compute_atr_filtered(&bars, 3, true);
    assert!((a - b).abs() < 1e-12);
}

#[test]
fn zero_range_bars_are_excluded() {
    // Dense subsequence: the same ATR as running the plain ATR over only
    // the ranged bars (prev-close chains across the skipped flats).
    let flat = c(10.5, 10.5, 10.5, 10.5);
    let ranged = vec![
        c(10.0, 11.0, 9.5, 10.5),
        c(10.5, 12.0, 10.0, 11.0),
        c(11.0, 11.5, 10.8, 11.2),
        c(11.2, 11.9, 11.1, 11.6),
    ];
    let mut interleaved = Vec::new();
    for r in &ranged {
        interleaved.push(flat);
        interleaved.push(*r);
        interleaved.push(flat);
    }
    let expect = compute_atr(&ranged, 3);
    let got = compute_atr_filtered(&interleaved, 3, true);
    assert!((expect - got).abs() < 1e-12, "expect {expect} got {got}");
}

#[test]
fn all_zero_range_returns_zero() {
    let bars = vec![c(10.5, 10.5, 10.5, 10.5); 20];
    assert_eq!(compute_atr_filtered(&bars, 14, true), 0.0);
}

#[test]
fn fewer_than_two_ranged_bars_returns_zero() {
    let mut bars = vec![c(10.5, 10.5, 10.5, 10.5); 10];
    bars.push(c(10.0, 11.0, 9.5, 10.5));
    assert_eq!(compute_atr_filtered(&bars, 14, true), 0.0);
}

#[test]
fn a_known_average() {
    let bars = vec![c(10.0, 11.0, 9.0, 10.0), c(10.0, 12.0, 10.0, 11.0), c(11.0, 11.5, 8.0, 9.0)];
    // True ranges 2.0 and 3.5.
    assert_eq!(compute_atr(&bars, 2), 2.75);
    assert_eq!(compute_atr(&bars, 1), 3.5);
    assert!(plain_spans(1, 5).is_empty());
}
