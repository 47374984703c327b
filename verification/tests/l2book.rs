//! Sizing on a book's depth.
use backtest_engine::clock::SECOND;
use backtest_engine::key::{bits_of_key, key_of_bits};
use backtest_engine::l2book::{
    annotate_trade, hour_file, keep_level, legs, max_notional, snapshot_before, trade_cap, ExitTax,
    L2Cap, L2Mode, Leg, LegCap, Reach, Side,
};

fn key(x: f64) -> i64 {
    key_of_bits(x.to_bits()).unwrap()
}

fn num(k: i64) -> f64 {
    f64::from_bits(bits_of_key(k))
}

struct Book {
    bids: Vec<(f64, f64)>,
    asks: Vec<(f64, f64)>,
}

fn book() -> Book {
    // mid = 100.0; each level $10_000-ish notional
    Book {
        bids: vec![(99.9, 100.0), (99.8, 100.0), (99.7, 100.0)],
        asks: vec![(100.1, 100.0), (100.2, 100.0), (100.3, 100.0)],
    }
}

impl Book {
    fn mid(&self) -> Option<f64> {
        match (self.bids.first(), self.asks.first()) {
            (Some(b), Some(a)) => Some((b.0 + a.0) / 2.0),
            _ => None,
        }
    }

    fn levels(&self, side: Side) -> &[(f64, f64)] {
        match side {
            Side::Bid => &self.bids,
            Side::Ask => &self.asks,
        }
    }

    fn max_notional(&self, side: Side, cap_bps: f64, adverse_bps: f64) -> Option<(f64, bool)> {
        let mid = self.mid()?;
        let levels = self.levels(side);
        let sgn = if side == Side::Ask { 1.0 } else { -1.0 };
        let budget = cap_bps - adverse_bps;
        let slip = |cost: f64, qty: f64| {
            if qty <= 0.0 {
                0.0
            } else {
                sgn * (cost / qty - mid) / mid * 1e4
            }
        };
        let (mut cost, mut qty) = (0.0, 0.0);
        let mut before = Vec::new();
        let mut slips = Vec::new();
        for &(px, sz) in levels {
            before.push((cost, qty));
            cost += px * sz;
            qty += px * sz / px;
            slips.push(key(slip(cost, qty)));
        }
        match max_notional(true, &slips, key(budget)) {
            Reach::NoBook => None,
            Reach::Nothing => Some((0.0, false)),
            Reach::Whole => Some((cost, true)),
            Reach::Partly(i) => {
                let (px, sz) = levels[i];
                let (c0, q0) = before[i];
                let (mut lo, mut hi) = (0.0f64, px * sz);
                for _ in 0..50 {
                    let x = (lo + hi) / 2.0;
                    if slip(c0 + x, q0 + x / px) > budget {
                        hi = x;
                    } else {
                        lo = x;
                    }
                }
                Some((c0 + lo, false))
            }
        }
    }

    fn leg(&self, side: Side, cap_bps: f64, adverse_bps: f64) -> Option<LegCap> {
        self.max_notional(side, cap_bps, adverse_bps)
            .map(|(n, censored)| LegCap { notional: key(n), censored })
    }

    fn trade_cap(&self, is_long: bool, cap_bps: f64, adverse_bps: f64) -> Option<L2Cap> {
        let (entry, exit) = legs(is_long);
        trade_cap(self.leg(entry, cap_bps, adverse_bps), self.leg(exit, cap_bps, adverse_bps))
    }
}

#[test]
fn max_notional_respects_budget() {
    let b = book();
    // touch slip on ask = (100.1-100)/100 = 10 bps → budget below 10bps = 0
    let (cap, cens) = b.max_notional(Side::Ask, 5.0, 0.0).unwrap();
    assert_eq!(cap, 0.0);
    assert!(!cens);
    // generous budget swallows the whole visible side → censored
    let (cap, cens) = b.max_notional(Side::Ask, 100.0, 0.0).unwrap();
    let total: f64 = b.asks.iter().map(|(p, s)| p * s).sum();
    assert!((cap - total).abs() < 1e-6);
    assert!(cens);
    // budget binding mid-book: cap strictly between first level and total
    let (cap_mid, cens) = b.max_notional(Side::Ask, 12.0, 0.0).unwrap();
    assert!(!cens);
    assert!(cap_mid > 100.1 * 100.0 - 1e-6 && cap_mid < total);
    // adverse offset shrinks the cap
    let (cap_off, _) = b.max_notional(Side::Ask, 12.0, 1.5).unwrap();
    assert!(cap_off < cap_mid);
}

#[test]
fn trade_cap_takes_worse_side() {
    let mut b = book();
    b.bids.truncate(1); // thin bid side → exit leg binds for longs
    let cap = b.trade_cap(true, 100.0, 0.0).unwrap();
    assert_eq!(cap.binding.as_str(), "exit");
    let total_bid: f64 = b.bids.iter().map(|(p, s)| p * s).sum();
    assert!((num(cap.notional) - total_bid).abs() < 1e-6);
}

#[test]
fn a_leg_without_a_cap_leaves_none() {
    let leg = LegCap { notional: key(5.0), censored: true };
    assert!(trade_cap(Some(leg), None).is_none());
    assert!(trade_cap(None, Some(leg)).is_none());
    let cap = trade_cap(Some(leg), Some(leg)).unwrap();
    assert_eq!(cap.binding, Leg::Entry, "the entry binds where both are equal");
}

#[test]
fn no_budget_and_no_book() {
    assert_eq!(max_notional(false, &vec![key(1.0)], key(5.0)), Reach::NoBook);
    assert_eq!(max_notional(true, &Vec::new(), key(5.0)), Reach::NoBook);
    assert_eq!(max_notional(true, &vec![key(1.0)], key(0.0)), Reach::Nothing);
    assert_eq!(max_notional(true, &vec![key(1.0), key(9.0)], key(5.0)), Reach::Partly(1));
}

#[test]
fn modes_parse_and_a_misspelled_one_is_off() {
    assert_eq!(L2Mode::parse("log"), L2Mode::Log);
    assert_eq!(L2Mode::parse("cap"), L2Mode::Cap);
    assert_eq!(L2Mode::parse("max"), L2Mode::Max);
    assert_eq!(L2Mode::parse("Max"), L2Mode::Off);
    assert!(!L2Mode::parse("off").active());
    assert!(L2Mode::Log.active());
}

#[test]
fn hourly_files_stand_under_asset_and_date() {
    // 2026-03-04T05:06:07
    let f = hour_file("xyz:SP500", 1_772_600_767 * SECOND);
    assert_eq!(f.asset_dir, "xyz_SP500");
    assert_eq!(f.date, "2026-03-04");
    assert_eq!(f.file, "l2-05.parquet");
}

#[test]
fn a_trade_is_sized_on_the_last_fresh_snapshot() {
    let at = 10_000 * SECOND;
    let hour = Some(vec![9_990_000i64, 9_999_000, 10_000_500]);
    // 9_999_000 ms is the last at or before the trade, one second old.
    assert_eq!(snapshot_before(&hour, &None, at, 2_000), Some((0, 1)));
    assert_eq!(snapshot_before(&hour, &None, at, 500), None);
    // Nothing yet this hour: the previous hour's last one.
    let early = Some(vec![10_000_500i64]);
    let before = Some(vec![9_999_500i64]);
    assert_eq!(snapshot_before(&early, &before, at, 2_000), Some((1, 0)));
}

#[test]
fn a_trade_is_annotated_only_with_risk_and_a_cap() {
    let cap = Some(L2Cap { notional: key(1.0), censored: false, binding: Leg::Entry });
    assert!(annotate_trade(false, cap, true, true, true).is_none());
    assert!(annotate_trade(true, None, true, true, true).is_none());
    let p = annotate_trade(true, cap, false, true, false).unwrap();
    assert!(!p.entry);
    assert_eq!(p.exit, ExitTax::BookMissing);
    assert_eq!(annotate_trade(true, cap, true, false, false).unwrap().exit, ExitTax::Free);
    assert_eq!(annotate_trade(true, cap, true, true, true).unwrap().exit, ExitTax::Premium);
}

#[test]
fn levels_need_a_price_and_a_size() {
    assert_eq!(keep_level(Some(key(1.0)), Some(key(2.0))), Some((key(1.0), key(2.0))));
    assert_eq!(keep_level(Some(key(1.0)), Some(key(0.0))), None);
    assert_eq!(keep_level(None, Some(key(2.0))), None);
}
