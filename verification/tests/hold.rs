//! The hold clock.
use backtest_engine::hold::{HoldClock, HoldTick};

#[test]
fn times_out_strictly_after_max_hold() {
    let mut c = HoldClock::default();
    for i in 1..=3 {
        assert_eq!(c.tick(3), HoldTick::Hold, "bar {i} should hold");
    }
    assert_eq!(c.tick(3), HoldTick::Timeout);
    assert_eq!(c.candles_held, 4);
}

#[test]
fn zero_max_hold_times_out_on_first_bar() {
    let mut c = HoldClock::default();
    assert_eq!(c.tick(0), HoldTick::Timeout);
}

#[test]
fn every_tick_after_the_limit_times_out() {
    let mut c = HoldClock::default();
    let said: Vec<HoldTick> = (0..6).map(|_| c.tick(4)).collect();
    let mut want = vec![HoldTick::Hold; 4];
    want.extend([HoldTick::Timeout; 2]);
    assert_eq!(said, want);
}
