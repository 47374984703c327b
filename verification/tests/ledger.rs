//! Exits, prints, managed positions and what a run is reported as.
use backtest_engine::clock::{instant, LAST_SECOND, MINUTE, SECOND};
use backtest_engine::driver::merge::merge_traders;
use backtest_engine::events::{BookEvent, CancelReason, ExitReason};
use backtest_engine::fees::{fee_in_r_side, EntryFeeSide, FeeBasis, FeeTables};
use backtest_engine::key::{bits_of_key, key_of_bits};
use backtest_engine::models::{
    asset_id, asset_name, sig_type_id, Candle, Direction, Names, Opportunity, PaperTrade, Tick,
    TradeResult,
};
use backtest_engine::paper::book::{
    CloseTicket, Decision, PaperTrader, PendingFill, TakeParams, FILL_DEADLINE_SECS,
};
use backtest_engine::paper::counters::HybridFillCounters;
use backtest_engine::paper::quote::{BarQuotes, OrderQuote, TradeQuote};
use backtest_engine::paper::report::{
    CompoundFigures, GroupBy, RunFigures, TradeFigures,
};
use backtest_engine::paper::table::{Cell, GroupFigures, Style, Summary};
use backtest_engine::paper::ticks::TickStore;
use backtest_engine::record::{Leaf, Record};

fn key(x: f64) -> i64 {
    key_of_bits(x.to_bits()).unwrap()
}

fn num(k: i64) -> f64 {
    f64::from_bits(bits_of_key(k))
}

/// 2026-06-25T09:00:00 and some minutes.
fn ts(min: i64) -> i128 {
    1_782_378_000 * SECOND + min as i128 * MINUTE
}

/// A 1m candle for asset 0 with the given OHLC at minute `min`.
fn candle(min: i64, o: f64, h: f64, l: f64, c: f64) -> Candle {
    candle_a(0, min, o, h, l, c)
}

/// A 1m candle for the given asset id.
fn candle_a(asset: u16, min: i64, o: f64, h: f64, l: f64, c: f64) -> Candle {
    Candle {
        asset,
        timeframe: 0,
        open: key(o),
        high: key(h),
        low: key(l),
        close: key(c),
        volume: key(0.0),
        timestamp: ts(min),
        complete: true,
    }
}

fn base_trade(dir: Direction, entry: f64, stop: f64, tp: f64) -> PaperTrade {
    PaperTrade {
        opportunity_id: "t1".to_string(),
        signal_type: 0,
        asset: 0,
        timeframe: 0,
        direction: dir,
        entry: key(entry),
        stop: key(stop),
        tp: key(tp),
        fill: key(entry),
        score: key(10.0),
        opened_at: ts(0),
        filled_at: None,
        closed_at: None,
        result: TradeResult::Inconclusive,
        r_pnl: key(0.0),
        fee_r: key(0.0),
    }
}

/// Inject a resting entry limit directly (bypassing admission), so we can
/// drive the fill/race deterministically from candles. `pred_touch` seeds the
/// hybrid T−1 touch (irrelevant to the limit model).
fn place_pred(pt: &mut PaperTrader, trade: PaperTrade, pred_touch: bool) {
    let deadline = trade.opened_at + FILL_DEADLINE_SECS as i128 * SECOND;
    pt.pending.push(PendingFill {
        trade,
        deadline,
        seen_first_candle: false,
        age_anchor: None,
        hybrid_pred_touch: pred_touch,
        hybrid_armed: None,
        hybrid_seen_decision_bar: false,
        hybrid_b0_open: None,
        min_target: None,
        ready_at: None,
        cancel_pending: None,
    });
}

/// `place_pred` with a stamped `min_target`.
fn place_with_min_target(pt: &mut PaperTrader, trade: PaperTrade, min_target: f64) {
    place_pred(pt, trade, false);
    pt.pending.last_mut().unwrap().min_target = Some(key(min_target));
}

fn place(pt: &mut PaperTrader, trade: PaperTrade) {
    place_pred(pt, trade, false);
}

/// `place_pred` with `ready_at` stamped `lead_secs` before `opened_at`.
fn place_with_ready(pt: &mut PaperTrader, trade: PaperTrade, lead_secs: i64) {
    let ready = trade.opened_at - lead_secs as i128 * SECOND;
    place_pred(pt, trade, false);
    pt.pending.last_mut().unwrap().ready_at = Some(ready);
}

// ─── Arithmetic ──────────────────────────────────────────────────────────────

fn signed(dir: Direction, x: f64) -> f64 {
    if dir == Direction::Bull {
        x
    } else {
        -x
    }
}

fn trade_quote(pt: &PaperTrader, t: &PaperTrade, fill: f64, c: &Candle, prints: &[Tick]) -> TradeQuote {
    let dir = t.direction;
    let risk = (num(t.entry) - num(t.stop)).abs();
    let has_risk = risk > 0.0;
    let r_at = |px: f64| if has_risk { signed(dir, px - fill) / risk } else { 0.0 };
    let best = if dir == Direction::Bull { num(c.high) } else { num(c.low) };
    let favorable: Vec<i64> = if prints.is_empty() {
        vec![key(r_at(best))]
    } else {
        prints.iter().map(|p| key(r_at(num(p.price)))).collect()
    };
    let stop = num(pt.effective_stop(t));
    TradeQuote {
        has_risk,
        favorable,
        open_r: key(r_at(num(c.open))),
        trail_stop: key(fill + signed(dir, num(pt.knobs.trail_lock_r) * risk)),
        stop_r: key(if has_risk { r_at(stop) } else { -1.0 }),
        win_r: key(if has_risk { (num(t.tp) - fill).abs() / risk } else { num(pt.knobs.rr_target) }),
        timeout_r: key(r_at(num(c.close))),
        unreal_r: key(r_at(num(c.close))),
    }
}

fn quotes(pt: &PaperTrader, c: &Candle) -> BarQuotes {
    let prints = pt.bar_prints(c.timestamp);
    let orders = pt
        .pending
        .iter()
        .map(|p| {
            let t = &p.trade;
            let risk = (num(t.entry) - num(t.stop)).abs();
            let boundary = num(t.entry) + signed(t.direction, num(pt.knobs.chase_r) * risk);
            let slipped = num(t.entry) + signed(t.direction, num(pt.knobs.entry_slippage_r) * risk);
            OrderQuote {
                boundary: key(boundary),
                slipped: key(slipped),
                at_entry: trade_quote(pt, t, num(t.entry), c, &prints),
                at_boundary: trade_quote(pt, t, boundary, c, &prints),
            }
        })
        .collect();
    let trades = pt
        .open_trades
        .iter()
        .map(|t| trade_quote(pt, t, num(t.fill), c, &prints))
        .collect();
    BarQuotes { orders, trades }
}

fn fee_of(basis: FeeBasis, entry: f64, risk: f64) -> f64 {
    match basis {
        FeeBasis::Free => 0.0,
        FeeBasis::PerContract(spec) => num(spec.round_turn) / (risk * num(spec.point_value)),
        FeeBasis::Proportional { entry: a, exit: b } => (entry / risk) * (num(a) + num(b)),
    }
}

fn fee(names: &Names, asset: u16, entry: f64, stop: f64, side: EntryFeeSide) -> f64 {
    let risk = (entry - stop).abs();
    fee_of(fee_in_r_side(&FeeTables::new(), names, asset, risk > 0.0, side), entry, risk)
}

fn settle(pt: &mut PaperTrader, names: &Names, ticket: &CloseTicket) {
    let t = pt.trades[ticket.idx].clone();
    let (entry, stop) = (num(t.entry), num(t.stop));
    let risk = (entry - stop).abs();
    let asset = if pt.stop_gap_bps_asset.is_empty() {
        String::new()
    } else {
        asset_name(names, t.asset)
    };
    let plan = pt.settle_plan(ticket, &asset, risk > 0.0);
    let mut r = num(ticket.r_pnl);
    let mut exit = stop;
    if let Some(bps) = plan.gap_bps {
        let factor = num(bps) * 1e-4;
        exit = if t.direction == Direction::Bull {
            stop * (1.0 - factor)
        } else {
            stop * (1.0 + factor)
        };
        r += signed(t.direction, exit - stop) / risk;
    }
    if plan.bank_half {
        r = 0.5 * num(pt.knobs.partial_tp_r) + 0.5 * r;
    }
    let charged = match plan.fee_side {
        Some(side) => fee(names, t.asset, entry, exit, side),
        None => 0.0,
    };
    let net = r - charged;
    pt.settle_close(ticket, key(net), key(charged), (net * 1000.0).round() as i64);
}

fn step_named(pt: &mut PaperTrader, names: &Names, c: &Candle) {
    let q = quotes(pt, c);
    for ticket in pt.update_prices(c, &q, None) {
        settle(pt, names, &ticket);
    }
}

fn step(pt: &mut PaperTrader, c: &Candle) {
    step_named(pt, &Names::new(), c);
}


// ─── Exits ───────────────────────────────────────────────────────────────────

/// A long from 100 with its stop at 90 and its target at 130, filled at
/// minute 1.
fn filled_long(pt: &mut PaperTrader) {
    place(pt, base_trade(Direction::Bull, 100.0, 90.0, 130.0));
    step(pt, &candle(0, 105.0, 106.0, 104.0, 105.0));
    step(pt, &candle(1, 100.5, 101.0, 99.5, 100.0));
    assert_eq!(pt.open_trades.len(), 1);
}

#[test]
fn a_trailing_stop_locks_its_profit_and_never_slips() {
    let mut pt = PaperTrader::new(key(0.0), key(3.0), 300);
    pt.knobs.breakeven_r = key(1.0);
    pt.knobs.trail_lock_r = key(0.5);
    pt.knobs.stop_gap_bps_default = key(50.0);
    filled_long(&mut pt);
    step(&mut pt, &candle(2, 106.0, 112.0, 106.0, 110.0)); // 1.2R seen
    assert_eq!(pt.open_trades.len(), 1);
    step(&mut pt, &candle(3, 110.0, 110.0, 104.0, 105.0)); // lock at 105
    assert_eq!(pt.trades[0].result, TradeResult::Inconclusive);
    assert_eq!(num(pt.trades[0].r_pnl), 0.5);
    assert!(pt.trades[0].closed_at.is_some());
}

#[test]
fn a_partial_target_banks_half() {
    let mut pt = PaperTrader::new(key(0.0), key(3.0), 300);
    pt.knobs.partial_tp_r = key(1.0);
    filled_long(&mut pt);
    step(&mut pt, &candle(2, 106.0, 111.0, 100.0, 110.0)); // 1.1R seen
    step(&mut pt, &candle(3, 100.0, 100.0, 89.0, 90.0)); // stop
    assert_eq!(pt.losses(), 1);
    assert_eq!(num(pt.trades[0].r_pnl), 0.0, "half at +1R, half at -1R");
}

#[test]
fn a_slipped_stop_costs_only_the_half_that_was_left() {
    let mut pt = PaperTrader::new(key(0.0), key(3.0), 300);
    pt.knobs.partial_tp_r = key(1.0);
    pt.knobs.stop_gap_bps_default = key(20.0);
    filled_long(&mut pt);
    step(&mut pt, &candle(2, 106.0, 111.0, 100.0, 110.0)); // 1.1R seen
    step(&mut pt, &candle(3, 100.0, 100.0, 89.0, 90.0)); // stop, out at 89.82
    assert_eq!(pt.losses(), 1);
    let r = num(pt.trades[0].r_pnl);
    assert!((r - (-0.009)).abs() < 1e-12, "half at +1R, half at -1.018R, got {r}");
}

#[test]
fn a_position_times_out_after_its_hold_limit() {
    let mut pt = PaperTrader::new(key(0.0), key(3.0), 2);
    filled_long(&mut pt);
    step(&mut pt, &candle(2, 101.0, 102.0, 99.0, 101.0));
    step(&mut pt, &candle(3, 101.0, 102.0, 99.0, 101.0));
    assert_eq!(pt.open_trades.len(), 1, "held for exactly two bars");
    // A bar that also reaches the stop: the timeout comes first.
    step(&mut pt, &candle(4, 101.0, 102.0, 80.0, 104.0));
    assert_eq!(pt.inconclusive(), 1);
    assert!((num(pt.trades[0].r_pnl) - 0.4).abs() < 1e-12);
}

#[test]
fn a_stale_loser_is_closed_at_the_bars_close() {
    let mut pt = PaperTrader::new(key(0.0), key(3.0), 300);
    pt.knobs.derisk_after_min = 2;
    pt.knobs.derisk_below_r = key(0.25);
    filled_long(&mut pt);
    for m in 2..4 {
        step(&mut pt, &candle(m, 99.0, 100.0, 98.0, 99.0));
    }
    assert_eq!(pt.open_trades.len(), 1, "two bars are not more than two");
    step(&mut pt, &candle(4, 99.0, 100.0, 98.0, 99.0));
    assert_eq!(pt.losses(), 1);
    assert!((num(pt.trades[0].r_pnl) + 0.1).abs() < 1e-12);
}

#[test]
fn a_stale_flat_trade_is_closed_at_zero() {
    let mut pt = PaperTrader::new(key(0.0), key(3.0), 300);
    pt.knobs.derisk_after_min = 1;
    pt.knobs.derisk_below_r = key(0.0);
    filled_long(&mut pt);
    step(&mut pt, &candle(2, 100.0, 101.0, 99.0, 100.0));
    assert_eq!(pt.open_trades.len(), 1, "one bar is not more than one");
    step(&mut pt, &candle(3, 100.0, 101.0, 99.0, 100.0));
    assert!(pt.open_trades.is_empty());
    assert_eq!(pt.inconclusive(), 1);
    assert_eq!(num(pt.trades[0].r_pnl), 0.0);
}

#[test]
fn a_stale_trade_above_the_mark_is_kept() {
    let mut pt = PaperTrader::new(key(0.0), key(3.0), 300);
    pt.knobs.derisk_after_min = 1;
    pt.knobs.derisk_below_r = key(0.25);
    filled_long(&mut pt);
    for m in 2..6 {
        step(&mut pt, &candle(m, 103.0, 104.0, 102.0, 103.0)); // 0.3R
    }
    assert_eq!(pt.open_trades.len(), 1);
    step(&mut pt, &candle(6, 103.0, 104.0, 100.5, 101.0)); // 0.1R
    assert_eq!(pt.inconclusive(), 1, "a small gain is neither a win nor a loss");
}

// ─── Prints ──────────────────────────────────────────────────────────────────

fn print_at(min: i64, ms: i64, price: f64) -> Tick {
    Tick {
        timestamp: ts(min) + ms as i128 * 1_000_000,
        price: key(price),
        size: key(1.0),
        side: 0,
    }
}

fn tick_trader(prints: Vec<Tick>) -> PaperTrader {
    let mut pt = PaperTrader::new(key(0.0), key(3.0), 300);
    pt.knobs.tick_fill = true;
    pt.knobs.tick_chase = false;
    pt.tape.store = Some(TickStore::new(prints));
    pt
}

#[test]
fn prints_decide_which_level_came_first() {
    // Bar 2 spans stop and target; its prints reach the target first.
    let mut pt = tick_trader(vec![
        print_at(0, 0, 105.0),
        print_at(1, 500, 100.0),
        print_at(2, 10, 131.0),
        print_at(2, 20, 89.0),
    ]);
    place(&mut pt, base_trade(Direction::Bull, 100.0, 90.0, 130.0));
    step(&mut pt, &candle(0, 105.0, 106.0, 104.0, 105.0));
    step(&mut pt, &candle(1, 100.5, 101.0, 99.5, 100.0));
    assert_eq!(pt.open_trades[0].filled_at, Some(ts(1) + 500_000_000));
    step(&mut pt, &candle(2, 100.0, 131.0, 89.0, 120.0));
    assert_eq!(pt.wins(), 1);
    assert_eq!(pt.trades[0].closed_at, Some(ts(2) + 10_000_000));
    assert_eq!(pt.tape.resolved_bars, 3);
}

#[test]
fn a_fill_is_raced_by_the_later_prints_of_its_bar() {
    let mut pt = tick_trader(vec![
        print_at(0, 0, 105.0),
        print_at(1, 1, 100.0),
        print_at(1, 2, 89.5),
    ]);
    place(&mut pt, base_trade(Direction::Bull, 100.0, 90.0, 130.0));
    step(&mut pt, &candle(0, 105.0, 106.0, 104.0, 105.0));
    step(&mut pt, &candle(1, 100.5, 101.0, 89.5, 90.0));
    assert_eq!(pt.losses(), 1);
    assert_eq!(num(pt.trades[0].r_pnl), -1.0);
}

#[test]
fn a_bar_without_prints_falls_back_to_its_range() {
    let mut pt = tick_trader(vec![print_at(0, 0, 105.0)]);
    place(&mut pt, base_trade(Direction::Bull, 100.0, 90.0, 130.0));
    step(&mut pt, &candle(0, 105.0, 106.0, 104.0, 105.0));
    step(&mut pt, &candle(1, 100.5, 101.0, 99.5, 100.0));
    assert_eq!(pt.opportunities_taken, 1);
    assert_eq!((pt.tape.resolved_bars, pt.tape.fallback_bars), (1, 1));
}

#[test]
fn an_armed_order_is_chased_when_the_cap_prints_first() {
    // Entry 100, cap 101: the signal bar touches the entry, which arms.
    let prints = vec![
        print_at(0, 0, 100.0),
        print_at(1, 1, 100.5),
        print_at(1, 2, 101.0),
        print_at(1, 3, 99.0),
    ];
    let mut pt = tick_trader(prints);
    pt.knobs.tick_chase = true;
    place(&mut pt, base_trade(Direction::Bull, 100.0, 90.0, 130.0));
    step(&mut pt, &candle(0, 100.5, 101.0, 99.5, 100.2));
    step(&mut pt, &candle(1, 100.5, 101.0, 99.0, 99.5));
    assert_eq!(num(pt.open_trades[0].fill), 101.0);
    assert_eq!(pt.hybrid_counters.boundary_chases_from_below, 1);
}

#[test]
fn a_forced_setting_overrides_the_chase() {
    let prints = vec![print_at(0, 0, 100.0), print_at(1, 2, 101.0), print_at(1, 3, 99.0)];
    let mut pt = tick_trader(prints);
    pt.knobs.tick_chase = true;
    place(&mut pt, base_trade(Direction::Bull, 100.0, 90.0, 130.0));
    step(&mut pt, &candle(0, 100.5, 101.0, 99.5, 100.2));
    let c = candle(1, 100.5, 101.0, 99.0, 99.5);
    let q = quotes(&pt, &c);
    pt.update_prices(&c, &q, Some(false));
    assert_eq!(num(pt.open_trades[0].fill), 100.0, "the maker fill at the entry");
}

// ─── Managed positions ───────────────────────────────────────────────────────

#[test]
fn a_market_entry_is_refused_when_it_makes_no_sense() {
    let mut pt = PaperTrader::new(key(0.0), key(3.0), 300);
    let c = candle(0, 100.0, 101.0, 99.0, 100.0);
    let id = "m1".to_string();
    let bull = Direction::Bull;
    assert!(!pt.book_market_entry(&id, 0, bull, key(101.0), key(110.0), key(1.0), &c));
    assert!(!pt.book_market_entry(&id, 0, bull, key(95.0), key(99.0), key(1.0), &c));
    assert!(pt.book_market_entry(&id, 0, bull, key(95.0), key(110.0), key(1.0), &c));
    assert!(!pt.book_market_entry(&id, 0, bull, key(95.0), key(110.0), key(1.0), &c), "one per id");
    assert_eq!(num(pt.open_trades[0].fill), 100.0);
}

#[test]
fn a_moved_stop_and_target_are_the_ones_in_force() {
    let mut pt = PaperTrader::new(key(0.0), key(3.0), 300);
    filled_long(&mut pt);
    let id = "t1".to_string();
    assert!(pt.set_open_stop(&id, key(98.0)));
    assert!(!pt.set_open_stop(&"zz".to_string(), key(98.0)));
    assert_eq!(num(pt.effective_stop(&pt.open_trades[0])), 98.0);
    step(&mut pt, &candle(2, 99.0, 100.0, 97.0, 98.0));
    assert_eq!(pt.losses(), 1);
    assert!((num(pt.trades[0].r_pnl) + 0.2).abs() < 1e-12, "two points of ten at risk");

    let mut pt = PaperTrader::new(key(0.0), key(3.0), 300);
    filled_long(&mut pt);
    assert!(pt.set_open_tp(&id, key(105.0)));
    step(&mut pt, &candle(2, 101.0, 106.0, 100.0, 105.0));
    assert_eq!(pt.wins(), 1);
    assert_eq!(num(pt.trades[0].r_pnl), 0.5);
}

#[test]
fn an_open_trade_can_be_closed_at_market() {
    let mut pt = PaperTrader::new(key(0.0), key(3.0), 300);
    filled_long(&mut pt);
    let c = candle(2, 101.0, 104.0, 100.0, 103.0);
    let ticket = pt.close_open_at_market(&"t1".to_string(), &c, key(0.3)).unwrap().unwrap();
    settle(&mut pt, &Names::new(), &ticket);
    assert!(pt.open_trades.is_empty());
    assert_eq!(num(pt.trades[0].r_pnl), 0.3);
    assert!(pt.close_open_at_market(&"t1".to_string(), &c, key(0.3)).is_none());
}

#[test]
fn a_cancelled_order_leaves_its_resting_interval() {
    let mut pt = PaperTrader::new(key(0.0), key(3.0), 300);
    let mut names = Names::new();
    let o = Opportunity::new(&mut names, "x", "A", "1m", Direction::Bull, ts(0));
    let take = TakeParams { entry: key(100.0), stop: key(90.0), tp: key(130.0) };
    let placed = pt.evaluate(&o, &Decision::Take(take)).unwrap();
    assert_eq!(pt.pending_ids(), vec![o.id.clone()]);
    assert_eq!(placed.opportunity_id, o.id);
    pt.cancel_pending_by_id(&o.id, ts(5));
    assert!(pt.pending.is_empty());
    assert_eq!(pt.resting_intervals, vec![(ts(0), ts(5))]);
    assert!(pt.evaluate(&o, &Decision::Skip("late".to_string())).is_none());
    assert_eq!(pt.opportunities_seen, 2);
}

#[test]
fn the_last_bar_before_the_signal_seeds_the_chase() {
    let mut pt = PaperTrader::new(key(0.0), key(3.0), 300);
    step(&mut pt, &candle(0, 101.0, 102.0, 99.0, 101.0));
    let mut names = Names::new();
    let mut o = Opportunity::new(&mut names, "x", "A", "1m", Direction::Bull, ts(1));
    o.asset = 0;
    let take = TakeParams { entry: key(100.0), stop: key(90.0), tp: key(130.0) };
    pt.evaluate(&o, &Decision::Take(take));
    assert!(pt.pending[0].hybrid_pred_touch);
    pt.annotate_last_pending(Some(ts(0)), Some(key(120.0)));
    assert_eq!(pt.pending[0].ready_at, Some(ts(0)));
    assert_eq!(pt.recent_for(0).len(), 1);
}

#[test]
fn only_the_newest_candles_are_remembered() {
    let mut pt = PaperTrader::new(key(0.0), key(3.0), 300);
    for m in 0..150 {
        step(&mut pt, &candle(m, 100.0, 101.0, 99.0, 100.0));
    }
    let recent = pt.recent_for(0);
    assert_eq!(recent.len(), 120);
    assert_eq!(recent[0].timestamp, ts(30));
}

#[test]
fn a_fill_bar_that_reaches_the_stop_is_counted() {
    let mut pt = PaperTrader::new(key(0.0), key(3.0), 300);
    pt.knobs.hybrid_fill = true;
    pt.knobs.chase_requires_seed = true;
    pt.knobs.immediate_chase_at_open = false;
    place(&mut pt, base_trade(Direction::Bull, 100.0, 90.0, 130.0));
    step(&mut pt, &candle(0, 100.6, 100.9, 100.4, 100.7));
    step(&mut pt, &candle(1, 100.5, 100.9, 89.0, 95.0));
    assert_eq!(pt.hybrid_counters.first_touch_stop_fills, 1);
    step(&mut pt, &candle(2, 95.0, 95.0, 89.0, 90.0));
    assert_eq!(pt.hybrid_counters.first_touch_stop_r_milli, -1000);
}

#[test]
fn counters_add_up() {
    let mut a = HybridFillCounters::default();
    a.maker_fills = 2;
    a.abandon_age = 1;
    a.first_touch_stop_r_milli = -1500;
    let mut b = HybridFillCounters::default();
    b.maker_fills = 3;
    b.first_touch_stop_r_milli = 500;
    a.merge(&b);
    assert_eq!((a.maker_fills, a.abandon_age), (5, 1));
    assert_eq!(a.first_touch_stop_r_milli, -1000);
}

#[test]
fn an_order_past_its_deadline_is_dropped_by_the_limit_model() {
    let mut pt = PaperTrader::new(key(0.0), key(3.0), 300);
    place(&mut pt, base_trade(Direction::Bull, 100.0, 90.0, 130.0));
    step(&mut pt, &candle(0, 105.0, 106.0, 104.0, 105.0));
    step(&mut pt, &candle(120, 105.0, 106.0, 104.0, 105.0));
    assert_eq!(pt.pending.len(), 1, "two hours exactly is still in time");
    step(&mut pt, &candle(121, 100.0, 101.0, 99.0, 100.0));
    assert!(pt.pending.is_empty());
    assert_eq!(pt.opportunities_taken, 0);
}

// ─── Reports ─────────────────────────────────────────────────────────────────

fn ledger() -> (PaperTrader, Names) {
    let mut names = Names::new();
    let (a, b) = (asset_id(&mut names, "AAA"), asset_id(&mut names, "BBB"));
    let (s, u) = (sig_type_id(&mut names, "sweep"), sig_type_id(&mut names, "fvg"));
    let mut pt = PaperTrader::new(key(1.0), key(2.0), 300);
    let rows = [
        (a, s, 3, 2.0, TradeResult::Win),
        (b, u, 1, -1.0, TradeResult::Loss),
        (b, s, 2, 4.0, TradeResult::Win),
        (a, u, 4, 0.0, TradeResult::Inconclusive),
    ];
    for (i, (asset, sig, min, r, result)) in rows.into_iter().enumerate() {
        let mut t = base_trade(Direction::Bull, 100.0, 90.0, 130.0);
        t.opportunity_id = format!("t{i}");
        t.asset = asset;
        t.signal_type = sig;
        t.opened_at = ts(min);
        t.closed_at = Some(ts(min + 10));
        t.r_pnl = key(r);
        t.result = result;
        pt.trades.push(t);
    }
    (pt, names)
}

fn figures(pt: &PaperTrader, by: GroupBy) -> Vec<GroupFigures> {
    pt.groups(by)
        .iter()
        .map(|g| {
            let pnl: f64 = g.members.iter().map(|&i| num(pt.trades[i].r_pnl)).sum();
            GroupFigures { gross: key(pnl), fees: key(0.0), pnl: key(pnl) }
        })
        .collect()
}

fn run_figures() -> RunFigures {
    RunFigures {
        win_rate: key(200.0 / 3.0),
        expectancy: key(1.0),
        total_r_pnl: key(5.0),
        gross_r_pnl: key(5.0),
        total_fees: key(0.0),
    }
}

fn plain(cell: &Cell) -> String {
    match cell {
        Cell::Text(s) => s.clone(),
        Cell::Count(n) => n.to_string(),
        Cell::Rate { wins, decided } => format!("{:.0}", *wins as f64 / *decided as f64 * 100.0),
        Cell::Number(x, Style::One) => format!("{:.1}", num(*x)),
        Cell::Number(x, Style::Two) => format!("{:.2}", num(*x)),
        Cell::Number(x, Style::TwoR) => format!("{:.2}R", num(*x)),
        Cell::Number(x, Style::SignedTwoR) => format!("{:+.2}R", num(*x)),
        Cell::Number(x, Style::SignedOneR) => format!("{:+.1}R", num(*x)),
    }
}

fn printed(rows: &[Vec<Cell>]) -> Vec<String> {
    rows.iter()
        .map(|r| r.iter().map(plain).collect::<Vec<_>>().join("|"))
        .collect()
}

#[test]
fn a_run_is_reported_in_three_tables() {
    let (pt, names) = ledger();
    let gross: Vec<i64> = pt.trades.iter().map(|t| t.r_pnl).collect();
    let r = pt.render_text(
        &names,
        &run_figures(),
        &pt.groups(GroupBy::SignalType),
        &figures(&pt, GroupBy::SignalType),
        &pt.groups(GroupBy::Asset),
        &figures(&pt, GroupBy::Asset),
        &gross,
    );
    assert_eq!(
        r.summary,
        Summary::Decided { wins: 2, losses: 1, inconclusive: 1, good: true, fees: false }
    );
    assert_eq!(r.tables.len(), 3);
    assert_eq!(printed(&r.tables[0].rows), vec!["sweep|2|2|0|100|6.0", "fvg|2|0|1|0|-1.0"]);
    assert_eq!(
        printed(&r.tables[1].rows),
        vec!["BBB|2|1|1|50|3.0", "AAA|2|1|0|100|2.0"],
        "the best asset first"
    );
    assert_eq!(r.tables[2].header.len(), 10);
    assert_eq!(
        printed(&r.tables[2].rows),
        vec![
            "06-25 09:01|BBB|▲|fvg|10.0|100.00|90.00|130.00|LOSS|-1.0R",
            "06-25 09:02|BBB|▲|sweep|10.0|100.00|90.00|130.00|WIN|+4.0R",
            "06-25 09:03|AAA|▲|sweep|10.0|100.00|90.00|130.00|WIN|+2.0R",
            "06-25 09:04|AAA|▲|fvg|10.0|100.00|90.00|130.00|---|-",
        ]
    );
}

#[test]
fn fees_widen_the_tables() {
    let (mut pt, names) = ledger();
    pt.knobs.use_fees = true;
    pt.trades[0].fee_r = key(0.25);
    let gross: Vec<i64> =
        pt.trades.iter().map(|t| key(num(t.r_pnl) + num(t.fee_r))).collect();
    let r = pt.render_text(
        &names,
        &run_figures(),
        &pt.groups(GroupBy::SignalType),
        &figures(&pt, GroupBy::SignalType),
        &pt.groups(GroupBy::Asset),
        &figures(&pt, GroupBy::Asset),
        &gross,
    );
    assert_eq!(
        r.tables[0].header,
        vec!["Signal Type", "Taken", "W", "L", "WR%", "Gross (R)", "Fees (R)", "Net (R)"]
    );
    let rows = printed(&r.tables[2].rows);
    assert!(rows[2].ends_with("WIN|+2.25R|0.25R|+2.00R"), "{}", rows[2]);
    assert!(rows[3].ends_with("---|-|-|-"), "{}", rows[3]);
}

#[test]
fn a_run_without_trades_has_no_tables() {
    let pt = PaperTrader::new(key(0.0), key(2.0), 300);
    let r = pt.render_text(
        &Names::new(),
        &run_figures(),
        &pt.groups(GroupBy::SignalType),
        &Vec::new(),
        &pt.groups(GroupBy::Asset),
        &Vec::new(),
        &Vec::new(),
    );
    assert_eq!(r.summary, Summary::Undecided);
    assert!(r.tables.is_empty());
}

fn leaf<'a>(r: &'a Record, name: &str) -> &'a Leaf {
    &r.fields.iter().find(|(n, _)| n == name).expect("the field is there").1
}

#[test]
fn a_report_holds_counts_and_a_record_per_trade() {
    let (mut pt, names) = ledger();
    pt.skips.insert("late".to_string(), 3);
    pt.opportunities_seen = 9;
    pt.resting_intervals.push((ts(0), ts(1)));
    let f: Vec<TradeFigures> = pt
        .trades
        .iter()
        .map(|t| TradeFigures { gross_r: t.r_pnl, equity: key(1.0), pnl_dollars: key(2.0) })
        .collect();
    let c = CompoundFigures { final_balance: key(1.0), max_dd_frac: key(0.0), multiple: key(1.0) };
    let r = pt.render_json("lab", &names, &run_figures(), &f, &c, key(0.0));
    assert!(matches!(leaf(&r.head, "label"), Leaf::Text(s) if s == "lab"));
    assert!(matches!(leaf(&r.head, "opportunities_seen"), Leaf::Count(9)));
    assert!(matches!(leaf(&r.head, "wins"), Leaf::Count(2)));
    assert!(matches!(leaf(&r.head, "trades_decided"), Leaf::Count(3)));
    assert_eq!(r.by_asset.len(), 2);
    assert_eq!(r.by_asset[0].name, "AAA");
    assert!(matches!(leaf(&r.by_asset[1].counts, "loss"), Leaf::Count(1)));
    assert!(matches!(leaf(&r.by_signal_type[0].counts, "wins"), Leaf::Count(2)));
    assert_eq!(r.skips, vec![("late".to_string(), 3)]);
    assert!(r.compound.is_none());
    assert_eq!(
        r.resting_intervals,
        vec![("2026-06-25T09:00:00".to_string(), "2026-06-25T09:01:00".to_string())]
    );
    assert_eq!(r.trades.len(), 4);
    assert!(matches!(leaf(&r.trades[1], "asset"), Leaf::Text(s) if s == "BBB"));
    assert!(matches!(leaf(&r.trades[1], "opened_at"), Leaf::Text(s) if s == "2026-06-25T09:01:00"));
    assert!(matches!(leaf(&r.trades[1], "equity"), Leaf::Null));

    pt.knobs.risk_frac = key(0.01);
    let r = pt.render_json("lab", &names, &run_figures(), &f, &c, key(0.0));
    assert!(matches!(leaf(r.compound.as_ref().unwrap(), "risk_frac"), Leaf::Num(x) if *x == key(0.01)));
    assert!(matches!(leaf(&r.trades[1], "equity"), Leaf::Num(_)));
}

#[test]
fn closes_free_capital_before_opens_of_the_same_instant() {
    let (mut pt, _) = ledger();
    pt.trades.truncate(2);
    pt.trades[0].opened_at = ts(0);
    pt.trades[0].closed_at = Some(ts(5));
    pt.trades[1].opened_at = ts(5);
    pt.trades[1].closed_at = None;
    // Events 2k and 2k + 1 are trade k's open and close.
    // The second trade opens once the first freed its capital, and closes
    // after that although all three fall at one instant.
    assert_eq!(pt.equity_events(), vec![0, 1, 2, 3]);
}

/// The balance and profit after each trade, and the final balance.
fn compounded(pt: &PaperTrader) -> (Vec<(f64, f64)>, f64) {
    let f = num(pt.knobs.risk_frac);
    let mut balance = num(pt.knobs.account_size);
    let mut risked = vec![0.0; pt.trades.len()];
    let mut per = vec![(balance, 0.0); pt.trades.len()];
    for e in pt.equity_events() {
        if e % 2 == 0 {
            risked[e / 2] = f * balance;
        } else {
            let pnl = risked[e / 2] * num(pt.trades[e / 2].r_pnl);
            balance += pnl;
            per[e / 2] = (balance, pnl);
        }
    }
    (per, balance)
}

#[test]
fn a_trade_closed_at_its_open_still_risks_its_fraction() {
    let (mut pt, _) = ledger();
    pt.knobs.risk_frac = key(0.01);
    pt.knobs.account_size = key(10_000.0);
    pt.trades.truncate(1);
    pt.trades[0].opened_at = ts(0);
    pt.trades[0].closed_at = Some(ts(0));
    pt.trades[0].r_pnl = key(2.0);
    assert_eq!(pt.equity_events(), vec![0, 1]);
    let (per, last) = compounded(&pt);
    assert_eq!(per, vec![(10_200.0, 200.0)]);
    assert_eq!(last, 10_200.0);
}

#[test]
fn every_fill_counter_is_in_the_report() {
    let mut pt = PaperTrader::new(key(0.0), key(3.0), 300);
    pt.hybrid_counters.deferred_chases = 3;
    pt.hybrid_counters.maker_fills = 2;
    let c = CompoundFigures { final_balance: key(1.0), max_dd_frac: key(0.0), multiple: key(1.0) };
    let r = pt.render_json("x", &Names::new(), &run_figures(), &Vec::new(), &c, key(0.0));
    assert!(matches!(leaf(&r.hybrid_fill_paths, "maker_fills"), Leaf::Count(2)));
    assert!(matches!(leaf(&r.hybrid_fill_paths, "deferred_chases"), Leaf::Count(3)));
    assert!(matches!(leaf(&r.hybrid_fill_paths, "immediate_chases"), Leaf::Count(0)));
}

#[test]
fn events_are_journaled_with_names() {
    assert_eq!(ExitReason::Stop.as_str(), "stop");
    assert_eq!(CancelReason::Deadline.as_str(), "deadline");
    let mut names = Names::new();
    let a = asset_id(&mut names, "AAA");
    let e = BookEvent::EntryCancelled {
        opportunity_id: "t1".to_string(),
        asset: a,
        reason: CancelReason::Deadline,
        at: ts(0),
    };
    let r = e.to_json(&names);
    assert!(matches!(leaf(&r, "asset"), Leaf::Text(s) if s == "AAA"));
    assert!(matches!(leaf(&r, "reason"), Leaf::Text(s) if s == "deadline"));
}

// ─── One ledger of many books ────────────────────────────────────────────────

#[test]
fn the_books_of_a_run_become_one_ledger() {
    let booked = |id: &str, min: i64| {
        let mut t = base_trade(Direction::Bull, 100.0, 90.0, 130.0);
        t.opportunity_id = id.to_string();
        t.opened_at = ts(min);
        t
    };
    let mut a = PaperTrader::new(key(0.0), key(3.0), 300);
    a.opportunities_seen = 5;
    a.trades = vec![booked("warm", -10), booked("a1", 2), booked("a2", 3)];
    a.opportunities_taken = 3;
    a.skips.insert("late".to_string(), 2);
    a.ids.trade_ready_at.insert("a1".to_string(), ts(1));
    a.ids.trade_ready_at.insert("warm".to_string(), ts(-11));
    a.resting_intervals.push((ts(0), ts(1)));
    a.hybrid_counters.maker_fills = 2;
    a.tape.resolved_bars = 7;
    let mut b = PaperTrader::new(key(0.0), key(3.0), 300);
    b.opportunities_seen = 4;
    b.trades = vec![booked("b1", 0)];
    b.opportunities_taken = 1;
    b.skips.insert("late".to_string(), 1);
    b.skips.insert("small".to_string(), 1);
    b.hybrid_counters.maker_fills = 1;
    b.tape.walked = 9;
    let base = || PaperTrader::new(key(0.0), key(3.0), 300);
    let m = merge_traders(base(), &vec![a.clone(), b.clone()], Some(ts(0))).unwrap();
    let ids: Vec<&str> = m.trades.iter().map(|t| t.opportunity_id.as_str()).collect();
    assert_eq!(ids, vec!["a1", "a2", "b1"], "warming up is not reported");
    assert_eq!((m.opportunities_seen, m.opportunities_taken), (9, 3));
    assert_eq!(m.skips.get(&"late".to_string()), Some(3));
    assert_eq!(m.skips.get(&"small".to_string()), Some(1));
    assert_eq!(m.ids.trade_ready_at.get(&"a1".to_string()), Some(ts(1)));
    assert_eq!(m.ids.trade_ready_at.get(&"warm".to_string()), None);
    assert_eq!(m.resting_intervals, vec![(ts(0), ts(1))]);
    assert_eq!(m.hybrid_counters.maker_fills, 3);
    assert_eq!((m.tape.resolved_bars, m.tape.walked), (7, 9));
    assert!(m.is_dated());
    let all = merge_traders(base(), &vec![a.clone(), b.clone()], None).unwrap();
    assert_eq!(all.trades.len(), 4);
    // A count that does not fit.
    b.opportunities_seen = usize::MAX;
    assert!(merge_traders(base(), &vec![a, b], None).is_none());
}

#[test]
fn a_full_count_and_a_bar_past_the_calendar_leave_no_room() {
    let mut pt = PaperTrader::new(key(0.0), key(3.0), 300);
    let c = candle(0, 100.0, 101.0, 99.0, 100.0);
    assert!(pt.has_room(&c) && pt.can_see(3));
    pt.opportunities_seen = usize::MAX - 2;
    assert!(!pt.can_see(3));
    pt.skips.insert("late".to_string(), usize::MAX);
    assert!(!pt.can_see(1));
    place(&mut pt, base_trade(Direction::Bull, 100.0, 90.0, 130.0));
    pt.hybrid_counters.abandon_age = usize::MAX;
    assert!(!pt.has_room(&c));
    pt.hybrid_counters.abandon_age = 0;
    // The last bar of the calendar has no end to look prints up to.
    let last = Candle { timestamp: instant(LAST_SECOND - 59, 0), ..c.clone() };
    assert!(pt.has_room(&last));
    pt.knobs.tick_fill = true;
    pt.tape.store = Some(TickStore::new(vec![print_at(0, 1, 100.0)]));
    assert!(pt.has_room(&c) && !pt.has_room(&last));
    let mut t = base_trade(Direction::Bull, 100.0, 90.0, 130.0);
    t.opened_at = instant(LAST_SECOND, 0) + SECOND;
    pt.trades = vec![t];
    assert!(!pt.is_dated());
}
