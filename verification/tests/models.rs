//! Interned names, ids, candles and opportunities.
use backtest_engine::clock::instant;
use backtest_engine::key::{bits_of_key, key_of_bits};
use backtest_engine::models::{
    asset_id, asset_name, base_interval, base_tf_id, is_1m, is_5m, next_signal_id,
    set_base_interval, sig_type_id, sig_type_name, tf_1m_id, tf_id, tf_name, Candle, Direction,
    Names, Opportunity, TfMemo, TradeResult,
};

fn key(x: f64) -> i64 {
    key_of_bits(x.to_bits()).unwrap()
}

/// The whole point of `is_1m` / `is_5m` is that they stand in for string
/// compares. If these ever diverge, every hot-path gate silently changes
/// meaning.
#[test]
fn is_1m_and_is_5m_agree_with_the_string_compare() {
    let mut names = Names::new();
    for name in [
        "1m", "5m", "15m", "1h", "4h", "1D", "1d", "daily", "1W", "1M",
    ] {
        let id = tf_id(&mut names, name);
        assert_eq!(
            is_1m(&names, id),
            tf_name(&names, id) == "1m",
            "is_1m disagrees with the string compare for {name:?}"
        );
        assert_eq!(
            is_5m(&names, id),
            tf_name(&names, id) == "5m",
            "is_5m disagrees with the string compare for {name:?}"
        );
    }
}

/// "1m" is one minute and "1M" is one month.
#[test]
fn one_minute_is_not_one_month() {
    let mut names = Names::new();
    assert_ne!(tf_id(&mut names, "1m"), tf_id(&mut names, "1M"));
    let minute = tf_id(&mut names, "1m");
    let month = tf_id(&mut names, "1M");
    assert!(is_1m(&names, minute));
    assert!(!is_1m(&names, month));
}

/// `is_1m` asks "is this literally the 1-minute timeframe?" while `base_tf_id`
/// asks "is this the smallest loaded timeframe?".
#[test]
fn is_1m_is_not_a_base_interval_test() {
    let mut names = Names::new();
    let one_h = tf_id(&mut names, "1h");
    assert!(
        !is_1m(&names, one_h),
        "is_1m must be false for 1h even if 1h were the base"
    );
    let one_m = tf_id(&mut names, "1m");
    assert_eq!(base_tf_id(&names), one_m, "default base is 1m in tests");
}

#[test]
fn a_base_interval_that_was_set_is_the_base() {
    let mut names = Names::new();
    assert_eq!(base_interval(&names), "1m");
    set_base_interval(&mut names, "1h");
    assert_eq!(base_interval(&names), "1h");
    assert_eq!(tf_name(&names, base_tf_id(&names)), "1h");
    // The literal one-minute timeframe stays where it is.
    assert!(is_1m(&names, tf_1m_id(&names)));
    assert!(!is_1m(&names, base_tf_id(&names)));
    assert_eq!(tf_id(&mut names, "1h"), base_tf_id(&names));
    // Set to one minute, the base is the literal one-minute timeframe.
    set_base_interval(&mut names, "1m");
    assert_eq!(base_interval(&names), "1m");
    assert!(is_1m(&names, base_tf_id(&names)));
}

/// The memo must return exactly what its backing function returns, for
/// hits, misses, and IDs past the table bound.
#[test]
fn tf_memo_matches_its_uncached_function() {
    fn compute(tf: u16) -> i64 {
        key((tf as f64) * 1.5 + 0.25)
    }
    let mut memo = TfMemo::new(compute);

    // First call fills the slot, second reads it back — both must agree.
    for tf in [0u16, 1, 7, 63] {
        assert_eq!(memo.get(tf), compute(tf), "cold miss wrong for {tf}");
        assert_eq!(memo.get(tf), compute(tf), "cached hit wrong for {tf}");
    }
    // Past the table bound the memo must fall through, not misindex.
    for tf in [64u16, 1000, u16::MAX] {
        assert_eq!(memo.get(tf), compute(tf), "unbounded fallthrough wrong for {tf}");
    }
}

/// A memoized value of 0.0 must not be mistaken for an empty slot.
#[test]
fn tf_memo_caches_zero() {
    fn zero(_tf: u16) -> i64 {
        key(0.0)
    }
    let mut memo = TfMemo::new(zero);
    assert_eq!(f64::from_bits(bits_of_key(memo.get(3))), 0.0);
    assert_eq!(f64::from_bits(bits_of_key(memo.get(3))), 0.0);
}

#[test]
fn a_name_keeps_its_id_and_an_id_its_name() {
    let mut names = Names::new();
    let a = asset_id(&mut names, "BTC");
    let b = asset_id(&mut names, "ETH");
    assert_ne!(a, b);
    assert_eq!(asset_id(&mut names, "BTC"), a);
    assert_eq!(asset_name(&names, b), "ETH");
    let s = sig_type_id(&mut names, "sweep");
    assert_eq!(sig_type_name(&names, s), "sweep");
}

#[test]
fn signal_ids_count_up_in_hexadecimal() {
    let mut names = Names::new();
    let mut last = String::new();
    for _ in 0..17 {
        last = next_signal_id(&mut names);
    }
    assert_eq!(last, "000000000010");
    names.signal_counter = 0xfedc_ba98_7654_3210;
    assert_eq!(next_signal_id(&mut names), "fedcba9876543210", "longer ones are not cut");
    assert_eq!(next_signal_id(&mut names), "fedcba9876543211");
}

#[test]
fn keys_order_as_numbers_do() {
    let xs = [f64::NEG_INFINITY, -2.0, -1.0e-300, 0.0, 1.0e-300, 1.0, 2.5, f64::INFINITY];
    for w in xs.windows(2) {
        assert!(key(w[0]) < key(w[1]), "{} and {}", w[0], w[1]);
    }
    assert_eq!(key(-0.0), key(0.0));
    assert!(key_of_bits(f64::NAN.to_bits()).is_none());
    for x in xs {
        assert_eq!(f64::from_bits(bits_of_key(key(x))), x);
    }
}

#[test]
fn directions_and_results_have_their_words() {
    assert_eq!(Direction::Bull.opposite(), Direction::Bear);
    assert_eq!(Direction::Bear.opposite().opposite(), Direction::Bear);
    assert_eq!(Direction::Bull.as_str(), "bull");
    assert_eq!(Direction::Bear.as_str(), "bear");
    assert_eq!(TradeResult::Win.as_str(), "win");
    assert_eq!(TradeResult::Loss.as_str(), "loss");
    assert_eq!(TradeResult::Inconclusive.as_str(), "inconclusive");
}

#[test]
fn a_fresh_opportunity_is_bare() {
    let mut names = Names::new();
    let o = Opportunity::new(&mut names, "fvg", "BTC", "5m", Direction::Bear, 7);
    assert_eq!(asset_name(&names, o.asset), "BTC");
    assert_eq!(tf_name(&names, o.timeframe), "5m");
    assert!(o.entry_stop().is_none());
    let o = o.with_score(key(2.0)).with_entry_stop(key(10.0), key(11.0));
    assert_eq!(o.entry_stop(), Some((key(10.0), key(11.0))));
    assert_eq!(o.score, key(2.0));
    assert_eq!(o.age_seconds(instant(3, 500_000_007)), 3);
}

#[test]
fn a_candle_has_a_body() {
    let c = Candle {
        asset: 0,
        timeframe: 0,
        open: key(3.0),
        high: key(5.0),
        low: key(1.0),
        close: key(4.0),
        volume: 0,
        timestamp: 0,
        complete: true,
    };
    assert!(c.is_bullish() && !c.is_bearish());
    assert_eq!(c.body_high(), key(4.0));
    assert_eq!(c.body_low(), key(3.0));
}
