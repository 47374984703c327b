//! Fills, races and the accounting of what they leave in the ledger.
use backtest_engine::clock::{MINUTE, SECOND};
use backtest_engine::fees::{fee_in_r_side, EntryFeeSide, FeeBasis, FeeTables};
use backtest_engine::key::{bits_of_key, key_of_bits};
use backtest_engine::models::{
    asset_id, asset_name, Candle, Direction, Names, PaperTrade, Tick, TradeResult,
};
use backtest_engine::paper::book::{
    CloseTicket, PaperTrader, PendingFill, FILL_DEADLINE_SECS,
};
use backtest_engine::paper::fill::{
    fill_action, hybrid_fill_action, HybridAbandon, HybridAction, HybridPath, OrderLevels,
};
use backtest_engine::paper::quote::{BarQuotes, OrderQuote, TradeQuote};

fn key(x: f64) -> i64 {
    key_of_bits(x.to_bits()).unwrap()
}

fn num(k: i64) -> f64 {
    f64::from_bits(bits_of_key(k))
}

/// 2026-06-25T09:00:00 and some minutes.
fn ts(min: i64) -> i128 {
    1_782_378_000 * SECOND + min as i128 * MINUTE
}

/// A 1m candle for asset 0 with the given OHLC at minute `min`.
fn candle(min: i64, o: f64, h: f64, l: f64, c: f64) -> Candle {
    candle_a(0, min, o, h, l, c)
}

/// A 1m candle for the given asset id.
fn candle_a(asset: u16, min: i64, o: f64, h: f64, l: f64, c: f64) -> Candle {
    Candle {
        asset,
        timeframe: 0,
        open: key(o),
        high: key(h),
        low: key(l),
        close: key(c),
        volume: key(0.0),
        timestamp: ts(min),
        complete: true,
    }
}

fn base_trade(dir: Direction, entry: f64, stop: f64, tp: f64) -> PaperTrade {
    PaperTrade {
        opportunity_id: "t1".to_string(),
        signal_type: 0,
        asset: 0,
        timeframe: 0,
        direction: dir,
        entry: key(entry),
        stop: key(stop),
        tp: key(tp),
        fill: key(entry),
        score: key(10.0),
        opened_at: ts(0),
        filled_at: None,
        closed_at: None,
        result: TradeResult::Inconclusive,
        r_pnl: key(0.0),
        fee_r: key(0.0),
    }
}

/// Inject a resting entry limit directly (bypassing admission), so we can
/// drive the fill/race deterministically from candles. `pred_touch` seeds the
/// hybrid T−1 touch (irrelevant to the limit model).
fn place_pred(pt: &mut PaperTrader, trade: PaperTrade, pred_touch: bool) {
    let deadline = trade.opened_at + FILL_DEADLINE_SECS as i128 * SECOND;
    pt.pending.push(PendingFill {
        trade,
        deadline,
        seen_first_candle: false,
        age_anchor: None,
        hybrid_pred_touch: pred_touch,
        hybrid_armed: None,
        hybrid_seen_decision_bar: false,
        hybrid_b0_open: None,
        min_target: None,
        ready_at: None,
        cancel_pending: None,
    });
}

/// `place_pred` with a stamped `min_target`.
fn place_with_min_target(pt: &mut PaperTrader, trade: PaperTrade, min_target: f64) {
    place_pred(pt, trade, false);
    pt.pending.last_mut().unwrap().min_target = Some(key(min_target));
}

fn place(pt: &mut PaperTrader, trade: PaperTrade) {
    place_pred(pt, trade, false);
}

/// `place_pred` with `ready_at` stamped `lead_secs` before `opened_at`.
fn place_with_ready(pt: &mut PaperTrader, trade: PaperTrade, lead_secs: i64) {
    let ready = trade.opened_at - lead_secs as i128 * SECOND;
    place_pred(pt, trade, false);
    pt.pending.last_mut().unwrap().ready_at = Some(ready);
}

// ─── Arithmetic ──────────────────────────────────────────────────────────────

fn signed(dir: Direction, x: f64) -> f64 {
    if dir == Direction::Bull {
        x
    } else {
        -x
    }
}

fn trade_quote(pt: &PaperTrader, t: &PaperTrade, fill: f64, c: &Candle, prints: &[Tick]) -> TradeQuote {
    let dir = t.direction;
    let risk = (num(t.entry) - num(t.stop)).abs();
    let has_risk = risk > 0.0;
    let r_at = |px: f64| if has_risk { signed(dir, px - fill) / risk } else { 0.0 };
    let best = if dir == Direction::Bull { num(c.high) } else { num(c.low) };
    let favorable: Vec<i64> = if prints.is_empty() {
        vec![key(r_at(best))]
    } else {
        prints.iter().map(|p| key(r_at(num(p.price)))).collect()
    };
    let stop = num(pt.effective_stop(t));
    TradeQuote {
        has_risk,
        favorable,
        open_r: key(r_at(num(c.open))),
        trail_stop: key(fill + signed(dir, num(pt.knobs.trail_lock_r) * risk)),
        stop_r: key(if has_risk { r_at(stop) } else { -1.0 }),
        win_r: key(if has_risk { (num(t.tp) - fill).abs() / risk } else { num(pt.knobs.rr_target) }),
        timeout_r: key(r_at(num(c.close))),
        unreal_r: key(r_at(num(c.close))),
    }
}

fn quotes(pt: &PaperTrader, c: &Candle) -> BarQuotes {
    let prints = pt.bar_prints(c.timestamp);
    let orders = pt
        .pending
        .iter()
        .map(|p| {
            let t = &p.trade;
            let risk = (num(t.entry) - num(t.stop)).abs();
            let boundary = num(t.entry) + signed(t.direction, num(pt.knobs.chase_r) * risk);
            let slipped = num(t.entry) + signed(t.direction, num(pt.knobs.entry_slippage_r) * risk);
            OrderQuote {
                boundary: key(boundary),
                slipped: key(slipped),
                at_entry: trade_quote(pt, t, num(t.entry), c, &prints),
                at_boundary: trade_quote(pt, t, boundary, c, &prints),
            }
        })
        .collect();
    let trades = pt
        .open_trades
        .iter()
        .map(|t| trade_quote(pt, t, num(t.fill), c, &prints))
        .collect();
    BarQuotes { orders, trades }
}

fn fee_of(basis: FeeBasis, entry: f64, risk: f64) -> f64 {
    match basis {
        FeeBasis::Free => 0.0,
        FeeBasis::PerContract(spec) => num(spec.round_turn) / (risk * num(spec.point_value)),
        FeeBasis::Proportional { entry: a, exit: b } => (entry / risk) * (num(a) + num(b)),
    }
}

fn fee(names: &Names, asset: u16, entry: f64, stop: f64, side: EntryFeeSide) -> f64 {
    let risk = (entry - stop).abs();
    fee_of(fee_in_r_side(&FeeTables::new(), names, asset, risk > 0.0, side), entry, risk)
}

fn settle(pt: &mut PaperTrader, names: &Names, ticket: &CloseTicket) {
    let t = pt.trades[ticket.idx].clone();
    let (entry, stop) = (num(t.entry), num(t.stop));
    let risk = (entry - stop).abs();
    let asset = if pt.stop_gap_bps_asset.is_empty() {
        String::new()
    } else {
        asset_name(names, t.asset)
    };
    let plan = pt.settle_plan(ticket, &asset, risk > 0.0);
    let mut r = num(ticket.r_pnl);
    let mut exit = stop;
    if let Some(bps) = plan.gap_bps {
        let factor = num(bps) * 1e-4;
        exit = if t.direction == Direction::Bull {
            stop * (1.0 - factor)
        } else {
            stop * (1.0 + factor)
        };
        r += signed(t.direction, exit - stop) / risk;
    }
    if plan.bank_half {
        r = 0.5 * num(pt.knobs.partial_tp_r) + 0.5 * r;
    }
    let charged = match plan.fee_side {
        Some(side) => fee(names, t.asset, entry, exit, side),
        None => 0.0,
    };
    let net = r - charged;
    pt.settle_close(ticket, key(net), key(charged), (net * 1000.0).round() as i64);
}

fn step_named(pt: &mut PaperTrader, names: &Names, c: &Candle) {
    let q = quotes(pt, c);
    for ticket in pt.update_prices(c, &q, None) {
        settle(pt, names, &ticket);
    }
}

fn step(pt: &mut PaperTrader, c: &Candle) {
    step_named(pt, &Names::new(), c);
}

fn limit(
    dir: Direction,
    entry: f64,
    r: f64,
    c: &Candle,
    is_signal: bool,
    allow: bool,
    slip: f64,
) -> Option<f64> {
    let slipped = entry + signed(dir, slip * r);
    fill_action(dir, key(entry), key(slipped), c, is_signal, allow).map(num)
}

/// [`HybridAction`] with its price as a number.
#[derive(Debug, Clone, Copy, PartialEq)]
enum Action {
    Fill { px: f64, side: EntryFeeSide, path: HybridPath },
    Wait,
    Abandon(HybridAbandon),
}

#[allow(clippy::too_many_arguments)]
fn hybrid(
    dir: Direction,
    entry: f64,
    stop: f64,
    tp: f64,
    r: f64,
    chase_r: f64,
    armed: bool,
    immediate: bool,
    race_maker_first: bool,
    carry: Option<f64>,
    past_entry_fee: EntryFeeSide,
    c: &Candle,
    dec: bool,
    age: bool,
) -> Action {
    let boundary = entry + signed(dir, chase_r * r);
    let levels = OrderLevels {
        entry: key(entry),
        stop: key(stop),
        tp: key(tp),
        boundary: key(boundary),
    };
    let a = hybrid_fill_action(
        dir,
        levels,
        armed,
        immediate,
        race_maker_first,
        carry.map(key),
        past_entry_fee,
        c,
        dec,
        age,
    );
    match a {
        HybridAction::Fill { px, side, path } => Action::Fill { px: num(px), side, path },
        HybridAction::Wait => Action::Wait,
        HybridAction::Abandon(why) => Action::Abandon(why),
    }
}

/// Call the pure hybrid decision with the canonical knobs (armed, chase enabled,
/// taker past-entry). `dec` = is_decision_bar, `age` = past_age.
#[allow(clippy::too_many_arguments)]
fn hyb(
    dir: Direction,
    entry: f64,
    stop: f64,
    tp: f64,
    c: &Candle,
    armed: bool,
    immediate: bool,
    dec: bool,
    age: bool,
) -> Action {
    hybrid(
        dir,
        entry,
        stop,
        tp,
        (entry - stop).abs(),
        0.1,
        armed,
        immediate,
        false,
        None,
        EntryFeeSide::Taker,
        c,
        dec,
        age,
    )
}

/// Carried-limit call: `hyb` with `race_maker_first` and a carried open.
fn hyb_carry(c: &Candle, carry: Option<f64>, dec: bool, age: bool) -> Action {
    hybrid(
        Direction::Bull,
        100.0,
        90.0,
        130.0,
        10.0,
        0.1,
        true,
        false,
        true,
        carry,
        EntryFeeSide::Taker,
        c,
        dec,
        age,
    )
}

fn is_fill(a: Action) -> Option<(f64, EntryFeeSide, HybridPath)> {
    if let Action::Fill { px, side, path } = a {
        Some((px, side, path))
    } else {
        None
    }
}

// ─── Pure fill_action ────────────────────────────────────────────────────

#[test]
fn fill_action_bull_touches_below_entry() {
    // low 99 <= entry 100 → fill at entry (no slip).
    let c = candle(1, 100.5, 101.0, 99.0, 100.2);
    assert_eq!(
        limit(Direction::Bull, 100.0, 10.0, &c, false, false, 0.0),
        Some(100.0)
    );
}

#[test]
fn fill_action_bull_no_touch_when_low_above_entry() {
    let c = candle(1, 102.0, 103.0, 101.0, 102.5); // low 101 > entry 100
    assert_eq!(
        limit(Direction::Bull, 100.0, 10.0, &c, false, false, 0.0),
        None
    );
}

#[test]
fn fill_action_signal_bar_excluded_then_allowed() {
    let c = candle(0, 100.5, 101.0, 99.0, 100.2); // touches entry
                                                  // Signal bar, not allowed → no fill.
    assert_eq!(
        limit(Direction::Bull, 100.0, 10.0, &c, true, false, 0.0),
        None
    );
    // Signal bar, allowed → fill.
    assert_eq!(
        limit(Direction::Bull, 100.0, 10.0, &c, true, true, 0.0),
        Some(100.0)
    );
}

#[test]
fn fill_action_slippage_price_bull_and_bear() {
    let cb = candle(1, 100.5, 101.0, 99.0, 100.2);
    // Bull, R=10, slip 0.1 → 100 + 1 = 101.
    assert_eq!(
        limit(Direction::Bull, 100.0, 10.0, &cb, false, false, 0.1),
        Some(101.0)
    );
    // Bear: entry 100, high 101 >= entry → 100 − 1 = 99.
    let cs = candle(1, 99.5, 101.0, 99.0, 100.2);
    assert_eq!(
        limit(Direction::Bear, 100.0, 10.0, &cs, false, false, 0.1),
        Some(99.0)
    );
}

// ─── Integrated: placement → fill → race, and R accounting ────────────────

#[test]
fn signal_bar_does_not_fill_when_disallowed() {
    let mut pt = PaperTrader::new(key(0.0), key(3.0), 300);
    pt.knobs.allow_signal_bar_fill = false;
    place(&mut pt, base_trade(Direction::Bull, 100.0, 90.0, 130.0));
    // Signal bar (first candle) dips to the entry — must NOT fill.
    step(&mut pt, &candle(0, 100.0, 101.0, 100.0, 100.5));
    assert_eq!(pt.opportunities_taken, 0, "signal bar should not fill");
    assert!(pt.open_trades.is_empty());
    // Next candle also touches → now it fills.
    step(&mut pt, &candle(1, 100.5, 101.0, 99.5, 100.2));
    assert_eq!(
        pt.opportunities_taken, 1,
        "fills on first eligible bar after signal"
    );
}

#[test]
fn signal_bar_fills_when_allowed() {
    let mut pt = PaperTrader::new(key(0.0), key(3.0), 300);
    pt.knobs.allow_signal_bar_fill = true;
    place(&mut pt, base_trade(Direction::Bull, 100.0, 90.0, 130.0));
    step(&mut pt, &candle(0, 100.0, 101.0, 100.0, 100.5));
    assert_eq!(pt.opportunities_taken, 1, "signal bar fills when allowed");
}

#[test]
fn fills_on_first_touch_after_placement() {
    let mut pt = PaperTrader::new(key(0.0), key(3.0), 300);
    place(&mut pt, base_trade(Direction::Bull, 100.0, 90.0, 130.0));
    step(&mut pt, &candle(0, 105.0, 106.0, 104.0, 105.0)); // signal bar, no touch anyway
    step(&mut pt, &candle(1, 104.0, 104.0, 103.0, 103.5)); // no touch (low 103 > 100)
    assert_eq!(pt.opportunities_taken, 0);
    step(&mut pt, &candle(2, 101.0, 101.0, 99.0, 100.0)); // low 99 <= 100 → fill
    assert_eq!(pt.opportunities_taken, 1);
    assert_eq!(num(pt.open_trades[0].fill), 100.0);
}

#[test]
fn no_touch_before_deadline_is_no_trade() {
    let mut pt = PaperTrader::new(key(0.0), key(3.0), 300);
    place(&mut pt, base_trade(Direction::Bull, 100.0, 90.0, 130.0));
    // Price stays above entry for the whole 2h window, then a candle after
    // the deadline finally dips — too late, cancelled.
    for m in 0..=125 {
        step(&mut pt, &candle(m, 105.0, 106.0, 104.0, 105.0));
    }
    // 2h = 120min; a dip at minute 121 (> deadline) must not fill.
    step(&mut pt, &candle(121, 100.0, 100.0, 99.0, 99.5));
    assert_eq!(pt.opportunities_taken, 0, "expired limit never trades");
    assert!(pt.pending.is_empty(), "expired limit is dropped");
    assert!(pt.trades.is_empty());
}

#[test]
fn loss_reads_minus_one_plus_slip_r() {
    // Bull entry 100, stop 90 → R_planned 10; slip 0.1 → fill 101.
    // Stop at 90 loses 101−90 = 11 pts = −1.1R.
    let mut pt = PaperTrader::new(key(0.0), key(3.0), 300);
    pt.knobs.entry_slippage_r = key(0.1);
    place(&mut pt, base_trade(Direction::Bull, 100.0, 90.0, 130.0));
    step(&mut pt, &candle(0, 105.0, 106.0, 104.0, 105.0)); // signal bar, no touch
    step(&mut pt, &candle(1, 100.5, 101.0, 99.5, 100.0)); // fill at 101
    assert_eq!(num(pt.open_trades[0].fill), 101.0);
    step(&mut pt, &candle(2, 95.0, 95.0, 89.0, 90.0)); // hits stop 90
    assert_eq!(pt.losses(), 1);
    let r = num(pt.trades[0].r_pnl);
    assert!((r - (-1.1)).abs() < 1e-9, "loss should be −1.1R, got {r}");
}

#[test]
fn win_reads_planned_rr_minus_slip() {
    // Bull entry 100, stop 90, tp 130 → planned +3R; slip 0.1 → fill 101.
    // Win = (130−101)/10 = 2.9R.
    let mut pt = PaperTrader::new(key(0.0), key(3.0), 300);
    pt.knobs.entry_slippage_r = key(0.1);
    place(&mut pt, base_trade(Direction::Bull, 100.0, 90.0, 130.0));
    step(&mut pt, &candle(0, 105.0, 106.0, 104.0, 105.0)); // signal bar, no touch
    step(&mut pt, &candle(1, 100.5, 101.0, 99.5, 100.0)); // fill at 101
    step(&mut pt, &candle(2, 120.0, 131.0, 119.0, 130.0)); // hits tp 130
    assert_eq!(pt.wins(), 1);
    let r = num(pt.trades[0].r_pnl);
    assert!((r - 2.9).abs() < 1e-9, "win should be 2.9R, got {r}");
}

// ─── Stop-exit gap penalty ───────────────────────────────────────────

#[test]
fn stop_gap_bps_widens_long_loss() {
    // Bull entry 100, stop 90 → R_planned 10, clean stop-out = −1.0R.
    // 20 bps gap → exit at 90*(1 - 20*1e-4) = 90*0.998 = 89.82.
    // Extra loss = (89.82 - 90) / 10 = -0.018R → total -1.018R.
    let mut pt = PaperTrader::new(key(0.0), key(3.0), 300);
    pt.knobs.stop_gap_bps_default = key(20.0);
    place(&mut pt, base_trade(Direction::Bull, 100.0, 90.0, 130.0));
    step(&mut pt, &candle(0, 105.0, 106.0, 104.0, 105.0)); // signal bar, no touch
    step(&mut pt, &candle(1, 100.5, 101.0, 99.5, 100.0)); // fill at 100
    step(&mut pt, &candle(2, 95.0, 95.0, 89.0, 90.0)); // hits stop 90
    assert_eq!(pt.losses(), 1);
    let r = num(pt.trades[0].r_pnl);
    assert!((r - (-1.018)).abs() < 1e-9, "expected -1.018R, got {r}");
}

#[test]
fn stop_gap_bps_widens_short_loss() {
    // Bear entry 100, stop 110 → R_planned 10, clean stop-out = −1.0R.
    // 20 bps gap → exit at 110*(1 + 20*1e-4) = 110*1.002 = 110.22.
    // Extra loss = (110 - 110.22) / 10 = -0.022R → total -1.022R.
    let mut pt = PaperTrader::new(key(0.0), key(3.0), 300);
    pt.knobs.stop_gap_bps_default = key(20.0);
    place(&mut pt, base_trade(Direction::Bear, 100.0, 110.0, 70.0));
    step(&mut pt, &candle(0, 95.0, 96.0, 94.0, 95.0)); // signal bar, no touch
    step(&mut pt, &candle(1, 99.5, 100.5, 99.0, 100.0)); // fill at 100
    step(&mut pt, &candle(2, 105.0, 111.0, 105.0, 110.0)); // hits stop 110
    assert_eq!(pt.losses(), 1);
    let r = num(pt.trades[0].r_pnl);
    assert!((r - (-1.022)).abs() < 1e-9, "expected -1.022R, got {r}");
}

#[test]
fn stop_gap_bps_zero_is_unchanged_behavior() {
    // stop_gap_bps_default = 0 (the field's own default) must reproduce the
    // pre-gap −1.0R exactly — every existing lens is unaffected.
    let mut pt = PaperTrader::new(key(0.0), key(3.0), 300);
    assert_eq!(num(pt.knobs.stop_gap_bps_default), 0.0);
    place(&mut pt, base_trade(Direction::Bull, 100.0, 90.0, 130.0));
    step(&mut pt, &candle(0, 105.0, 106.0, 104.0, 105.0));
    step(&mut pt, &candle(1, 100.5, 101.0, 99.5, 100.0));
    step(&mut pt, &candle(2, 95.0, 95.0, 89.0, 90.0));
    assert_eq!(pt.losses(), 1);
    assert!((num(pt.trades[0].r_pnl) - (-1.0)).abs() < 1e-9);
}

#[test]
fn stop_gap_bps_does_not_apply_to_tp_exit() {
    // A TP win must be completely unaffected by a nonzero stop gap.
    let mut pt = PaperTrader::new(key(0.0), key(3.0), 300);
    pt.knobs.stop_gap_bps_default = key(20.0);
    place(&mut pt, base_trade(Direction::Bull, 100.0, 90.0, 130.0));
    step(&mut pt, &candle(0, 105.0, 106.0, 104.0, 105.0));
    step(&mut pt, &candle(1, 100.5, 101.0, 99.5, 100.0));
    step(&mut pt, &candle(2, 120.0, 131.0, 119.0, 130.0)); // hits tp 130
    assert_eq!(pt.wins(), 1);
    assert!((num(pt.trades[0].r_pnl) - 3.0).abs() < 1e-9);
}

#[test]
fn stop_gap_bps_per_asset_override_wins_over_default() {
    // Intern a real asset name so asset_name(aid) resolves (same pattern
    // as hybrid_taker_entry_fee_applied), then override it by substring
    // match — the shared convention used by rr_asset/risk_usd_asset.
    let mut names = Names::new();
    let aid = asset_id(&mut names, "ASSET_A_stopgap_test");
    let mut pt = PaperTrader::new(key(0.0), key(3.0), 300);
    pt.knobs.stop_gap_bps_default = key(5.0);
    pt.stop_gap_bps_asset = vec![("ASSET_A".to_string(), key(20.0))];
    let mut t = base_trade(Direction::Bull, 100.0, 90.0, 130.0);
    t.asset = aid;
    place(&mut pt, t);
    step_named(&mut pt, &names, &candle_a(aid, 0, 105.0, 106.0, 104.0, 105.0));
    step_named(&mut pt, &names, &candle_a(aid, 1, 100.5, 101.0, 99.5, 100.0));
    step_named(&mut pt, &names, &candle_a(aid, 2, 95.0, 95.0, 89.0, 90.0));
    assert_eq!(pt.losses(), 1);
    // Override (20 bps) must win, giving the same -1.018R as the direct test.
    let r = num(pt.trades[0].r_pnl);
    assert!(
        (r - (-1.018)).abs() < 1e-9,
        "expected override applied (-1.018R), got {r}"
    );
}

#[test]
fn zero_slip_win_reads_full_planned_rr() {
    let mut pt = PaperTrader::new(key(0.0), key(3.0), 300);
    place(&mut pt, base_trade(Direction::Bull, 100.0, 90.0, 130.0));
    step(&mut pt, &candle(0, 105.0, 106.0, 104.0, 105.0)); // signal bar, no touch
    step(&mut pt, &candle(1, 100.5, 101.0, 99.5, 100.0)); // fill at 100
    step(&mut pt, &candle(2, 120.0, 131.0, 119.0, 130.0)); // tp
    assert!((num(pt.trades[0].r_pnl) - 3.0).abs() < 1e-9);
}

#[test]
fn same_bar_entry_and_stop_resolves_stop_first() {
    // A single post-fill candle spans both stop and tp → stop-first default.
    let mut pt = PaperTrader::new(key(0.0), key(3.0), 300);
    pt.knobs.intrabar_stop_first = true;
    place(&mut pt, base_trade(Direction::Bull, 100.0, 90.0, 130.0));
    step(&mut pt, &candle(0, 105.0, 106.0, 104.0, 105.0)); // signal bar, no touch
    step(&mut pt, &candle(1, 100.5, 101.0, 99.5, 100.0)); // fill at 100
    step(&mut pt, &candle(2, 100.0, 131.0, 89.0, 120.0)); // spans stop 90 AND tp 130
    assert_eq!(
        pt.losses(),
        1,
        "spanning candle resolves as loss (stop-first)"
    );
    assert_eq!(pt.wins(), 0);
    assert!((num(pt.trades[0].r_pnl) - (-1.0)).abs() < 1e-9);
}

#[test]
fn same_bar_entry_and_stop_can_resolve_tp_first() {
    let mut pt = PaperTrader::new(key(0.0), key(3.0), 300);
    pt.knobs.intrabar_stop_first = false;
    place(&mut pt, base_trade(Direction::Bull, 100.0, 90.0, 130.0));
    step(&mut pt, &candle(0, 105.0, 106.0, 104.0, 105.0)); // signal bar, no touch
    step(&mut pt, &candle(1, 100.5, 101.0, 99.5, 100.0)); // fill
    step(&mut pt, &candle(2, 100.0, 131.0, 89.0, 120.0)); // spans both
    assert_eq!(
        pt.wins(),
        1,
        "tp-first flag resolves spanning candle as win"
    );
}

#[test]
fn fill_candle_is_not_raced() {
    // The candle that fills the entry must NOT also close the trade, even if
    // it would touch the stop — the race starts next candle.
    let mut pt = PaperTrader::new(key(0.0), key(3.0), 300);
    place(&mut pt, base_trade(Direction::Bull, 100.0, 90.0, 130.0));
    step(&mut pt, &candle(0, 105.0, 106.0, 104.0, 105.0)); // signal bar, no touch
                                                              // Fill candle also dips to the stop at 90 within the same bar.
    step(&mut pt, &candle(1, 100.0, 101.0, 89.0, 95.0));
    assert_eq!(pt.opportunities_taken, 1, "trade filled");
    assert_eq!(pt.losses(), 0, "fill bar is not raced");
    assert_eq!(pt.open_trades.len(), 1);
}

#[test]
fn bear_slippage_and_loss() {
    // Bear entry 100, stop 110 → R 10; slip 0.1 → fill 99.
    // Stop at 110 loses 110−99 = 11 = −1.1R.
    let mut pt = PaperTrader::new(key(0.0), key(3.0), 300);
    pt.knobs.entry_slippage_r = key(0.1);
    place(&mut pt, base_trade(Direction::Bear, 100.0, 110.0, 70.0));
    step(&mut pt, &candle(0, 95.0, 96.0, 94.0, 95.0)); // signal bar, no touch (high 96 < 100)
    step(&mut pt, &candle(1, 99.5, 101.0, 99.0, 100.0)); // high 101 >= 100 → fill 99
    assert_eq!(num(pt.open_trades[0].fill), 99.0);
    step(&mut pt, &candle(2, 105.0, 111.0, 104.0, 110.0)); // hits stop 110
    assert!((num(pt.trades[0].r_pnl) - (-1.1)).abs() < 1e-9);
}

// ─── Pure hybrid_fill_action ─────────────────────────────────────────────
//
// Canonical Bull setup: E=100, S=90, TP=130, R=10, x=0.1 → boundary B=101.
// Canonical Bear setup: E=100, S=110, TP=70, R=10, x=0.1 → boundary B=99.
// Every Bull case below has an exact Bear mirror.



// ── Case A: open at/past entry ──
#[test]
fn hybrid_case_a_open_past_entry_taker_fill_at_open() {
    // Bull: D opens 99.5 (< E=100, past entry, above stop) → taker fill @ open.
    let c = candle(1, 99.5, 100.5, 99.0, 100.0);
    let (px, side, path) = is_fill(hyb(
        Direction::Bull,
        100.0,
        90.0,
        130.0,
        &c,
        true,
        true,
        true,
        false,
    ))
    .unwrap();
    assert_eq!(px, 99.5);
    assert_eq!(side, EntryFeeSide::Taker);
    assert_eq!(path, HybridPath::PastEntry);
    // Bear mirror: D opens 100.5 (> E=100) → taker fill @ open.
    let c = candle(1, 100.5, 101.0, 99.5, 100.0);
    let (px, side, path) = is_fill(hyb(
        Direction::Bear,
        100.0,
        110.0,
        70.0,
        &c,
        true,
        true,
        true,
        false,
    ))
    .unwrap();
    assert_eq!(px, 100.5);
    assert_eq!(side, EntryFeeSide::Taker);
    assert_eq!(path, HybridPath::PastEntry);
}

#[test]
fn hybrid_case_a_past_entry_fee_maker_knob() {
    // past_entry_fee = maker → maker fee side on a Case-A fill.
    let c = candle(1, 99.5, 100.5, 99.0, 100.0);
    let a = hybrid(
        Direction::Bull,
        100.0,
        90.0,
        130.0,
        10.0,
        0.1,
        true,
        true,
        false,
        None,
        EntryFeeSide::Maker,
        &c,
        true,
        false,
    );
    assert_eq!(is_fill(a).unwrap().1, EntryFeeSide::Maker);
}

/// `race_maker_first`: a bar reaching BOTH the entry and the chase boundary
/// resolves to the maker fill at the entry (live-census race), while the
/// default chase-first race books the boundary taker fill. Chase-only and
/// maker-only bars are unaffected by the knob.
#[test]
fn hybrid_race_maker_first_resolves_both_reachable_to_maker() {
    let race = |maker_first: bool, c: &Candle| {
        hybrid(
            Direction::Bull,
            100.0,
            90.0,
            130.0,
            10.0,
            0.1,
            true,
            false,
            maker_first,
            None,
            EntryFeeSide::Taker,
            c,
            false,
            false,
        )
    };
    // Opens between E=100 and B=101, spans both (lo 99.8 ≤ E, hi 101.2 ≥ B).
    let both = candle(2, 100.5, 101.2, 99.8, 100.9);
    let (px, side, path) = is_fill(race(false, &both)).unwrap();
    assert_eq!(
        (px, side, path),
        (101.0, EntryFeeSide::Taker, HybridPath::BoundaryFromBelow)
    );
    let (px, side, path) = is_fill(race(true, &both)).unwrap();
    assert_eq!(
        (px, side, path),
        (100.0, EntryFeeSide::Maker, HybridPath::Maker)
    );
    // Boundary-only bar (never touches E): the knob must NOT suppress the chase.
    let chase_only = candle(2, 100.5, 101.2, 100.2, 100.9);
    let (px, _, path) = is_fill(race(true, &chase_only)).unwrap();
    assert_eq!((px, path), (101.0, HybridPath::BoundaryFromBelow));
    // Bear mirror of the both-reachable bar: E=100, S=110 → B=99.
    let both_bear = candle(2, 99.5, 100.2, 98.8, 99.1);
    let a = hybrid(
        Direction::Bear,
        100.0,
        110.0,
        70.0,
        10.0,
        0.1,
        true,
        false,
        true,
        None,
        EntryFeeSide::Taker,
        &both_bear,
        false,
        false,
    );
    let (px, side, path) = is_fill(a).unwrap();
    assert_eq!(
        (px, side, path),
        (100.0, EntryFeeSide::Maker, HybridPath::Maker)
    );
}

#[test]
fn hybrid_case_a_gap_through_stop_abandons() {
    // Bull: D opens 89 (≤ stop 90) → GapStop abandon, NO TRADE.
    let c = candle(1, 89.0, 90.0, 88.0, 89.5);
    assert_eq!(
        hyb(
            Direction::Bull,
            100.0,
            90.0,
            130.0,
            &c,
            true,
            true,
            true,
            false
        ),
        Action::Abandon(HybridAbandon::GapStop)
    );
    // Bear mirror: D opens 111 (≥ stop 110) → GapStop.
    let c = candle(1, 111.0, 112.0, 110.0, 111.5);
    assert_eq!(
        hyb(
            Direction::Bear,
            100.0,
            110.0,
            70.0,
            &c,
            true,
            true,
            true,
            false
        ),
        Action::Abandon(HybridAbandon::GapStop)
    );
}

// ── Case B0: immediate chase at open ──
#[test]
fn hybrid_b0_immediate_chase_on() {
    // Bull: D opens 100.5 (front of E, within cap B=101) → taker @ open.
    let c = candle(1, 100.5, 100.8, 100.4, 100.6);
    let (px, side, path) = is_fill(hyb(
        Direction::Bull,
        100.0,
        90.0,
        130.0,
        &c,
        true,
        true,
        true,
        false,
    ))
    .unwrap();
    assert_eq!(px, 100.5);
    assert_eq!(side, EntryFeeSide::Taker);
    assert_eq!(path, HybridPath::ImmediateChase);
    // Bear mirror: D opens 99.5 (front, within cap B=99) → taker @ open.
    let c = candle(1, 99.5, 99.6, 99.2, 99.4);
    let (px, _, path) = is_fill(hyb(
        Direction::Bear,
        100.0,
        110.0,
        70.0,
        &c,
        true,
        true,
        true,
        false,
    ))
    .unwrap();
    assert_eq!(px, 99.5);
    assert_eq!(path, HybridPath::ImmediateChase);
}

#[test]
fn hybrid_b0_immediate_chase_off_rests() {
    // immediate_chase disabled → D opens in front, within cap, low doesn't
    // reach E, high doesn't reach B → Wait (rest the limit).
    let c = candle(1, 100.5, 100.9, 100.3, 100.6); // low 100.3 > E, high 100.9 < B=101
    assert_eq!(
        hyb(
            Direction::Bull,
            100.0,
            90.0,
            130.0,
            &c,
            true,
            false,
            true,
            false
        ),
        Action::Wait
    );
}

// ── Deferred open-chase (b0_carry / deferred_chase_at_open) ──
//
// Canonical carried setup: Bull E=100, S=90, TP=130, R=10, x=0.1 → B=101;
// decision bar opened at 100.5 (front, in-cap) → carry = 100.5. The carry
// must make every resolution at-or-better than the immediate-chase fill at
// the open: maker at E when the entry trades, taker at the CARRIED OPEN
// (never the boundary, never an abandon) otherwise.


#[test]
fn hybrid_deferred_chase_books_carried_open_not_boundary() {
    // Boundary crossed (hi 101.4 ≥ B=101), entry never touched (lo 100.2):
    // without carry the chase books the full-cap boundary 101; with carry it
    // books the carried decision-bar open 100.5 — the mh03 B0 price.
    let c = candle(1, 100.5, 101.4, 100.2, 101.2);
    let (px, _, path) = is_fill(hyb_carry(&c, None, true, false)).unwrap();
    assert_eq!((px, path), (101.0, HybridPath::BoundaryFromBelow));
    let (px, side, path) = is_fill(hyb_carry(&c, Some(100.5), true, false)).unwrap();
    assert_eq!(
        (px, side, path),
        (100.5, EntryFeeSide::Taker, HybridPath::DeferredChase)
    );
}

#[test]
fn hybrid_deferred_chase_maker_touch_still_wins() {
    // Later bar spans both E and B: the maker-first race beats the carried
    // chase — maker at exactly the entry.
    let c = candle(2, 100.5, 101.2, 99.8, 100.9);
    let (px, side, path) = is_fill(hyb_carry(&c, Some(100.5), false, false)).unwrap();
    assert_eq!(
        (px, side, path),
        (100.0, EntryFeeSide::Maker, HybridPath::Maker)
    );
}

#[test]
fn hybrid_deferred_chase_tp_open_fills_instead_of_abandon() {
    // Later bar opens at/past TP: uncarried limits abandon (move gone);
    // a carried limit was in the move since D — fill at the carried open.
    let c = candle(3, 130.5, 131.0, 130.0, 130.8);
    assert_eq!(
        hyb_carry(&c, None, false, false),
        Action::Abandon(HybridAbandon::TpOpen)
    );
    let (px, side, path) = is_fill(hyb_carry(&c, Some(100.5), false, false)).unwrap();
    assert_eq!(
        (px, side, path),
        (100.5, EntryFeeSide::Taker, HybridPath::DeferredChase)
    );
}

#[test]
fn hybrid_deferred_chase_age_fills_instead_of_abandon() {
    // Aged out while resting in front: carried limits book the deferred
    // chase instead of abandoning.
    let c = candle(31, 100.5, 100.9, 100.3, 100.6);
    assert_eq!(
        hyb_carry(&c, None, false, true),
        Action::Abandon(HybridAbandon::Age)
    );
    let (px, _, path) = is_fill(hyb_carry(&c, Some(100.5), false, true)).unwrap();
    assert_eq!((px, path), (100.5, HybridPath::DeferredChase));
}

#[test]
fn hybrid_deferred_chase_open_beyond_boundary_fills_carry() {
    // Later bar gaps beyond the cap (open 101.5 > B=101): price past the
    // boundary means the deferred chase certainly resolved — fill at carry
    // (uncarried: waits for a re-approach / books the boundary from above).
    let c = candle(2, 101.5, 101.8, 101.3, 101.6);
    assert_eq!(hyb_carry(&c, None, false, false), Action::Wait);
    let (px, _, path) = is_fill(hyb_carry(&c, Some(100.5), false, false)).unwrap();
    assert_eq!((px, path), (100.5, HybridPath::DeferredChase));
}

#[test]
fn hybrid_deferred_chase_no_carry_when_untriggered_waits() {
    // In-cap decision bar touching neither E nor B with carry stamped:
    // still Wait (the limit legitimately rests; the carry only prices a
    // LATER non-maker resolution).
    let c = candle(1, 100.5, 100.9, 100.3, 100.6);
    assert_eq!(hyb_carry(&c, Some(100.5), true, false), Action::Wait);
}

/// End-to-end through the PaperTrader: deferred lens (immediate off, race
/// on, deferred on) must book the SAME trade as the immediate-chase lens at
/// the same-or-better price on a breakaway B0 bar.
#[test]
fn hybrid_deferred_lens_dominates_immediate_on_breakaway() {
    let run = |immediate: bool, deferred: bool| {
        let mut pt = PaperTrader::new(key(0.0), key(3.0), 300);
        pt.knobs.hybrid_fill = true;
        pt.knobs.chase_r = key(0.3); // B = 103
        pt.knobs.immediate_chase_at_open = immediate;
        pt.knobs.race_maker_first = !immediate;
        pt.knobs.deferred_chase_at_open = deferred;
        place_pred(
            &mut pt,
            base_trade(Direction::Bull, 100.0, 90.0, 130.0),
            true,
        );
        // T: seeds (touches entry), no fill eligibility.
        step(&mut pt, &candle(0, 100.2, 100.4, 99.9, 100.3));
        // D: opens 100.8 (front, in-cap), runs away through B=103 without
        // re-touching E — a breakaway.
        step(&mut pt, &candle(1, 100.8, 103.5, 100.7, 103.2));
        assert_eq!(
            pt.open_trades.len(),
            1,
            "trade must book (imm={immediate} def={deferred})"
        );
        num(pt.open_trades[0].fill)
    };
    let mh03_fill = run(true, false); // immediate chase at open
    let census_fill = run(false, true); // deferred chase
    assert_eq!(mh03_fill, 100.8);
    assert_eq!(
        census_fill, 100.8,
        "deferred chase books the carried open, not the boundary"
    );
}

#[test]
fn hybrid_b0_unarmed_does_not_immediate_chase() {
    // Unarmed: no immediate chase even if enabled; open 100.5 in front, no
    // maker touch (low>E), no cap → Wait.
    let c = candle(1, 100.5, 100.9, 100.3, 100.6);
    assert_eq!(
        hyb(
            Direction::Bull,
            100.0,
            90.0,
            130.0,
            &c,
            false,
            true,
            true,
            false
        ),
        Action::Wait
    );
}

// ── Branch 3: boundary from below & maker, both-possible pessimism ──
#[test]
fn hybrid_boundary_touch_from_below() {
    // Later bar (not D), open in front within cap, high reaches B, low above E
    // → chase @ boundary (from below), no maker possible.
    let c = candle(2, 100.5, 101.2, 100.3, 100.8); // high 101.2 ≥ B=101, low 100.3 > E
    let (px, side, path) = is_fill(hyb(
        Direction::Bull,
        100.0,
        90.0,
        130.0,
        &c,
        true,
        true,
        false,
        false,
    ))
    .unwrap();
    assert_eq!(px, 101.0);
    assert_eq!(side, EntryFeeSide::Taker);
    assert_eq!(path, HybridPath::BoundaryFromBelow);
    // Bear mirror: B=99, low reaches 98.8 ≤ B, high below E.
    let c = candle(2, 99.5, 99.7, 98.8, 99.2);
    let (px, _, path) = is_fill(hyb(
        Direction::Bear,
        100.0,
        110.0,
        70.0,
        &c,
        true,
        true,
        false,
        false,
    ))
    .unwrap();
    assert_eq!(px, 99.0);
    assert_eq!(path, HybridPath::BoundaryFromBelow);
}

#[test]
fn hybrid_maker_fill_at_entry() {
    // In-cap open, low reaches E, high does NOT reach B → maker fill @ entry.
    let c = candle(2, 100.5, 100.9, 99.8, 100.2); // low 99.8 ≤ E, high 100.9 < B=101
    let (px, side, path) = is_fill(hyb(
        Direction::Bull,
        100.0,
        90.0,
        130.0,
        &c,
        true,
        true,
        false,
        false,
    ))
    .unwrap();
    assert_eq!(px, 100.0);
    assert_eq!(side, EntryFeeSide::Maker);
    assert_eq!(path, HybridPath::Maker);
}

#[test]
fn hybrid_both_possible_pessimistic_chase() {
    // Open between E and B, low reaches E AND high reaches B in one bar →
    // PESSIMISTIC: take the chase (worse price + taker), not the maker.
    let c = candle(2, 100.5, 101.5, 99.5, 100.8); // low 99.5 ≤ E, high 101.5 ≥ B=101
    let (px, side, path) = is_fill(hyb(
        Direction::Bull,
        100.0,
        90.0,
        130.0,
        &c,
        true,
        true,
        false,
        false,
    ))
    .unwrap();
    assert_eq!(
        px, 101.0,
        "pessimistic: chase at boundary, not maker at entry"
    );
    assert_eq!(side, EntryFeeSide::Taker);
    assert_eq!(path, HybridPath::BoundaryFromBelow);
    // Bear mirror.
    let c = candle(2, 99.5, 100.5, 98.5, 99.2); // high 100.5 ≥ E, low 98.5 ≤ B=99
    let (px, _, path) = is_fill(hyb(
        Direction::Bear,
        100.0,
        110.0,
        70.0,
        &c,
        true,
        true,
        false,
        false,
    ))
    .unwrap();
    assert_eq!(px, 99.0);
    assert_eq!(path, HybridPath::BoundaryFromBelow);
}

// ── Branch 4: boundary from above (re-approach) ──
#[test]
fn hybrid_boundary_touch_from_above() {
    // Open beyond the cap (o=101.5 ≥ B=101), price falls back to B (low ≤ B),
    // no TP reached → chase-intercept @ boundary from above.
    let c = candle(3, 101.5, 101.6, 100.9, 101.2); // o 101.5 > B, low 100.9 ≤ B=101
    let (px, side, path) = is_fill(hyb(
        Direction::Bull,
        100.0,
        90.0,
        130.0,
        &c,
        true,
        true,
        false,
        false,
    ))
    .unwrap();
    assert_eq!(px, 101.0);
    assert_eq!(side, EntryFeeSide::Taker);
    assert_eq!(path, HybridPath::BoundaryFromAbove);
    // Bear mirror: open 98.5 beyond B=99, high rises back to ≥ B.
    let c = candle(3, 98.5, 99.1, 98.4, 98.8);
    let (px, _, path) = is_fill(hyb(
        Direction::Bear,
        100.0,
        110.0,
        70.0,
        &c,
        true,
        true,
        false,
        false,
    ))
    .unwrap();
    assert_eq!(px, 99.0);
    assert_eq!(path, HybridPath::BoundaryFromAbove);
}

// ── TP abandons ──
#[test]
fn hybrid_tp_open_abandon() {
    // Any unfilled bar opening at/past TP → move gone, abandon.
    let c = candle(2, 130.0, 131.0, 129.0, 130.5);
    assert_eq!(
        hyb(
            Direction::Bull,
            100.0,
            90.0,
            130.0,
            &c,
            true,
            true,
            false,
            false
        ),
        Action::Abandon(HybridAbandon::TpOpen)
    );
    // Bear mirror (TP=70, open ≤ 70).
    let c = candle(2, 70.0, 71.0, 69.0, 69.5);
    assert_eq!(
        hyb(
            Direction::Bear,
            100.0,
            110.0,
            70.0,
            &c,
            true,
            true,
            false,
            false
        ),
        Action::Abandon(HybridAbandon::TpOpen)
    );
}

#[test]
fn hybrid_tp_range_abandon_armed_from_above() {
    // Armed, open beyond boundary, bar spans both B (re-approach) and TP →
    // unknowable order → abandon (pessimistic).
    let c = candle(3, 101.5, 130.5, 100.9, 120.0); // o>B, high≥TP=130, low≤B=101
    assert_eq!(
        hyb(
            Direction::Bull,
            100.0,
            90.0,
            130.0,
            &c,
            true,
            true,
            false,
            false
        ),
        Action::Abandon(HybridAbandon::TpRange)
    );
}

#[test]
fn hybrid_tp_range_abandon_unarmed() {
    // Unarmed: in-front open (no cap), neither maker touch nor chase, but TP
    // reached intrabar → abandon (deviates from limit_only, which would fill).
    // Open in front (100.5 > E), low does not reach E, high reaches TP.
    let c = candle(2, 100.5, 130.5, 100.4, 120.0); // low 100.4 > E, high ≥ TP
    assert_eq!(
        hyb(
            Direction::Bull,
            100.0,
            90.0,
            130.0,
            &c,
            false,
            true,
            false,
            false
        ),
        Action::Abandon(HybridAbandon::TpRange)
    );
}

#[test]
fn hybrid_spans_e_and_tp_unarmed_abandons() {
    // Unarmed, bar spans both E (maker touch) and TP: abandoning applies only
    // when neither maker nor chase filled; low ≤ E, so the maker fills.
    let c = candle(2, 100.5, 130.5, 99.5, 120.0); // low 99.5 ≤ E AND high ≥ TP
    let (px, side, _) = is_fill(hyb(
        Direction::Bull,
        100.0,
        90.0,
        130.0,
        &c,
        false,
        true,
        false,
        false,
    ))
    .unwrap();
    assert_eq!(px, 100.0);
    assert_eq!(side, EntryFeeSide::Maker);
}

// ── Age abandon ──
#[test]
fn hybrid_age_abandon() {
    // past_age true → abandon regardless of price (checked before fills).
    let c = candle(30, 100.5, 100.9, 100.3, 100.6);
    assert_eq!(
        hyb(
            Direction::Bull,
            100.0,
            90.0,
            130.0,
            &c,
            true,
            true,
            false,
            true
        ),
        Action::Abandon(HybridAbandon::Age)
    );
}

// ── Wait when nothing happens ──
#[test]
fn hybrid_wait_when_price_stays_in_front() {
    // In-cap, no maker touch, no boundary, no TP → Wait.
    let c = candle(2, 100.5, 100.9, 100.3, 100.6);
    assert_eq!(
        hyb(
            Direction::Bull,
            100.0,
            90.0,
            130.0,
            &c,
            true,
            false,
            false,
            false
        ),
        Action::Wait
    );
}

// ─── Integrated hybrid path: placement → seed → decision bar ───────────────

/// Build a hybrid PaperTrader with canonical knobs.
fn hybrid_pt() -> PaperTrader {
    let mut pt = PaperTrader::new(key(0.0), key(3.0), 300);
    pt.knobs.hybrid_fill = true;
    pt.knobs.chase_r = key(0.1);
    pt.knobs.chase_requires_seed = true;
    pt.knobs.immediate_chase_at_open = true;
    pt.knobs.past_entry_fee = EntryFeeSide::Taker;
    pt
}

#[test]
fn hybrid_seed_from_t_touch_arms_chase() {
    // No T−1 seed, but the signal bar T itself touches the entry → armed.
    let mut pt = hybrid_pt();
    place_pred(
        &mut pt,
        base_trade(Direction::Bull, 100.0, 90.0, 130.0),
        false,
    );
    // T: touches entry (low ≤ 100). Never fills (signal bar).
    step(&mut pt, &candle(0, 100.5, 101.0, 99.5, 100.2));
    assert_eq!(pt.opportunities_taken, 0, "T never fills");
    // D opens 100.5 in front within cap → seeded immediate chase.
    step(&mut pt, &candle(1, 100.5, 100.8, 100.4, 100.6));
    assert_eq!(pt.opportunities_taken, 1);
    assert_eq!(pt.hybrid_counters.immediate_chases, 1);
}

#[test]
fn hybrid_seed_from_t_minus_1_touch_arms_chase() {
    // T does NOT touch, but T−1 did (pred_touch=true) → armed.
    let mut pt = hybrid_pt();
    place_pred(
        &mut pt,
        base_trade(Direction::Bull, 100.0, 90.0, 130.0),
        true,
    );
    // T: no touch (low 100.4 > entry).
    step(&mut pt, &candle(0, 100.6, 100.9, 100.4, 100.7));
    // D opens in front within cap → immediate chase because pred-seeded.
    step(&mut pt, &candle(1, 100.5, 100.8, 100.4, 100.6));
    assert_eq!(pt.hybrid_counters.immediate_chases, 1);
}

#[test]
fn hybrid_no_seed_does_not_arm_when_required() {
    // Neither T nor T−1 touch; chase_requires_seed=true → unarmed. D opens in
    // front within cap → NO immediate chase; low never reaches E → Wait forever.
    let mut pt = hybrid_pt();
    place_pred(
        &mut pt,
        base_trade(Direction::Bull, 100.0, 90.0, 130.0),
        false,
    );
    step(&mut pt, &candle(0, 100.6, 100.9, 100.4, 100.7)); // T no touch
    step(&mut pt, &candle(1, 100.5, 100.9, 100.4, 100.6)); // D no immediate chase (unarmed)
    assert_eq!(pt.opportunities_taken, 0, "unarmed: no chase");
    // A later bar that touches E fills MAKER (resting limit).
    step(&mut pt, &candle(2, 100.2, 100.4, 99.8, 100.0));
    assert_eq!(pt.hybrid_counters.maker_fills, 1);
}

#[test]
fn hybrid_unseeded_chase_when_seed_not_required() {
    // chase_requires_seed=false → armed even with no touch.
    let mut pt = hybrid_pt();
    pt.knobs.chase_requires_seed = false;
    place_pred(
        &mut pt,
        base_trade(Direction::Bull, 100.0, 90.0, 130.0),
        false,
    );
    step(&mut pt, &candle(0, 100.6, 100.9, 100.4, 100.7)); // T no touch
    step(&mut pt, &candle(1, 100.5, 100.8, 100.4, 100.6)); // D immediate chase
    assert_eq!(pt.hybrid_counters.immediate_chases, 1);
}

#[test]
fn hybrid_case_a_integrated_fill_and_race() {
    // D opens past entry → taker fill @ open; race starts next bar.
    let mut pt = hybrid_pt();
    place_pred(
        &mut pt,
        base_trade(Direction::Bull, 100.0, 90.0, 130.0),
        true,
    );
    step(&mut pt, &candle(0, 100.5, 101.0, 99.5, 100.2)); // T (seeds; touches)
    step(&mut pt, &candle(1, 99.5, 100.5, 99.0, 100.0)); // D opens 99.5 past E → fill
    assert_eq!(pt.opportunities_taken, 1);
    assert_eq!(pt.hybrid_counters.past_entry_fills, 1);
    assert_eq!(num(pt.open_trades[0].fill), 99.5);
    // Fill bar not raced; next bar hits TP → win, R measured from fill 99.5.
    step(&mut pt, &candle(2, 120.0, 131.0, 119.0, 130.0));
    assert_eq!(pt.wins(), 1);
    // Win = (130 − 99.5)/10 = 3.05R (better-than-planned entry → drift up).
    assert!(
        (num(pt.trades[0].r_pnl) - 3.05).abs() < 1e-9,
        "got {}",
        num(pt.trades[0].r_pnl)
    );
}

#[test]
fn hybrid_taker_entry_fee_applied() {
    // Case-A taker fill with fees on → entry leg pays taker (not maker).
    let mut names = Names::new();
    let aid = asset_id(&mut names, "ASSET_B"); // intern so asset_name works
    let mut pt = hybrid_pt();
    pt.knobs.use_fees = true;
    let mut t = base_trade(Direction::Bull, 100.0, 90.0, 130.0);
    t.asset = aid;
    place_pred(&mut pt, t, true);
    step_named(&mut pt, &names, &candle_a(aid, 0, 100.5, 101.0, 99.5, 100.2)); // T
    step_named(&mut pt, &names, &candle_a(aid, 1, 99.5, 100.5, 99.0, 100.0)); // D fill @ 99.5
    step_named(&mut pt, &names, &candle_a(aid, 2, 120.0, 131.0, 119.0, 130.0)); // TP
    let expected = fee(&names, aid, 100.0, 90.0, EntryFeeSide::Taker);
    assert!(
        (num(pt.trades[0].fee_r) - expected).abs() < 1e-12,
        "got {}",
        num(pt.trades[0].fee_r)
    );
    // And it differs from (exceeds) the maker-entry fee.
    let maker = fee(&names, aid, 100.0, 90.0, EntryFeeSide::Maker);
    assert!(num(pt.trades[0].fee_r) > maker);
}

#[test]
fn hybrid_gap_through_stop_is_no_trade() {
    let mut pt = hybrid_pt();
    place_pred(
        &mut pt,
        base_trade(Direction::Bull, 100.0, 90.0, 130.0),
        true,
    );
    step(&mut pt, &candle(0, 100.5, 101.0, 99.5, 100.2)); // T seeds
    step(&mut pt, &candle(1, 89.0, 90.0, 88.0, 89.5)); // D gaps through stop
    assert_eq!(pt.opportunities_taken, 0, "gap-through-stop = NO TRADE");
    assert_eq!(pt.hybrid_counters.abandon_gap_stop, 1);
    assert!(pt.trades.is_empty());
}

#[test]
fn hybrid_age_abandon_at_1800s() {
    // A limit that never fills within 30 min is abandoned by age. 1-min
    // candles: minute 30 is the first strictly past 1800s from opened_at (T@0).
    let mut pt = hybrid_pt();
    place_pred(
        &mut pt,
        base_trade(Direction::Bull, 100.0, 90.0, 130.0),
        true,
    );
    step(&mut pt, &candle(0, 100.6, 100.9, 100.4, 100.7)); // T (no touch → but pred seeds)
                                                              // Bars 1..=30 sit in front, never reaching E or B (open 100.5 within cap,
                                                              // low 100.3 > E, high 100.9 < B) → immediate chase only fires on D=bar1.
                                                              // Disable immediate chase so it rests.
    pt.knobs.immediate_chase_at_open = false;
    for m in 1..30 {
        step(&mut pt, &candle(m, 100.5, 100.9, 100.3, 100.6));
    }
    assert_eq!(pt.opportunities_taken, 0);
    assert!(!pt.pending.is_empty(), "still resting before 1800s");
    // Minute 30 = 1800s exactly is NOT strictly greater; minute 31 is.
    step(&mut pt, &candle(30, 100.5, 100.9, 100.3, 100.6)); // 1800s, not > → rest
    assert!(!pt.pending.is_empty(), "1800s is not strictly past age");
    step(&mut pt, &candle(31, 100.5, 100.9, 100.3, 100.6)); // 1860s > 1800 → age abandon
    assert!(pt.pending.is_empty(), "past 1800s → abandoned");
    assert_eq!(pt.hybrid_counters.abandon_age, 1);
    assert_eq!(pt.opportunities_taken, 0);
}

#[test]
fn hybrid_age_anchors_at_first_candle_not_signal_label() {
    // HTF signal: `opened_at` is the bar LABEL (ts 0), but the bar only
    // closes — and the order can only start existing — an hour later, so
    // the first candle offered (T) is minute 61. The 30-min age abandon
    // must count from T, not the label: a maker touch at minute 80 (19 min
    // after placement, 80 min after the label) fills.
    let mut pt = hybrid_pt();
    pt.knobs.immediate_chase_at_open = false;
    place_pred(
        &mut pt,
        base_trade(Direction::Bull, 100.0, 90.0, 130.0),
        true,
    );
    step(&mut pt, &candle(61, 100.6, 100.9, 100.4, 100.7)); // T, an hour past the label
    for m in 62..80 {
        step(&mut pt, &candle(m, 100.5, 100.9, 100.3, 100.6)); // resting in front
    }
    assert!(!pt.pending.is_empty(), "resting within 30 min of placement");
    step(&mut pt, &candle(80, 100.5, 100.9, 99.8, 100.6)); // touches E → maker fill
    assert_eq!(pt.opportunities_taken, 1, "filled 19 min after placement");
    assert_eq!(pt.hybrid_counters.abandon_age, 0);
    assert_eq!(pt.hybrid_counters.maker_fills, 1);
}

#[test]
fn hybrid_age_abandon_still_fires_30m_after_late_placement() {
    // Same late-T setup, but price never comes back: the abandon fires 30
    // minutes after T (minute 61+31), not 30 minutes after the label.
    let mut pt = hybrid_pt();
    pt.knobs.immediate_chase_at_open = false;
    place_pred(
        &mut pt,
        base_trade(Direction::Bull, 100.0, 90.0, 130.0),
        true,
    );
    step(&mut pt, &candle(61, 100.6, 100.9, 100.4, 100.7)); // T
    for m in 62..=91 {
        step(&mut pt, &candle(m, 100.5, 100.9, 100.3, 100.6));
    }
    assert!(
        !pt.pending.is_empty(),
        "61+30 min = 1800s exactly, not strictly past"
    );
    step(&mut pt, &candle(92, 100.5, 100.9, 100.3, 100.6)); // 1860s past T
    assert!(pt.pending.is_empty(), "abandoned 30 min after placement");
    assert_eq!(pt.hybrid_counters.abandon_age, 1);
    assert_eq!(pt.opportunities_taken, 0);
}

// ─── rest-on-Ready EXECUTION lens ───────────────────────────────────────
//
// The lens changes only WHO fills the signal bar T: with enough Ready→touch
// lead the limit was already resting, so T's own touch fills maker at the
// entry. Everything else is the standard hybrid path.


#[test]
fn rest_on_ready_signal_bar_fills_maker_at_entry() {
    // Ready one bar before the touch → the order was resting when T opened;
    // T's touch fills maker at exactly the entry, on T itself.
    let mut pt = hybrid_pt();
    pt.knobs.rest_on_ready_fill = true;
    place_with_ready(&mut pt, base_trade(Direction::Bull, 100.0, 90.0, 130.0), 60);
    step(&mut pt, &candle(0, 100.5, 101.0, 99.5, 100.2)); // T touches E
    assert_eq!(pt.opportunities_taken, 1, "rested limit fills on T");
    assert_eq!(pt.hybrid_counters.rested_maker_fills, 1);
    assert_eq!(pt.hybrid_counters.maker_fills, 0);
    assert_eq!(
        num(pt.open_trades[0].fill), 100.0,
        "maker fill at exactly the entry"
    );
    // Race starts next bar; TP bar books the win from the entry fill.
    step(&mut pt, &candle(1, 120.0, 131.0, 119.0, 130.0));
    assert_eq!(pt.wins(), 1);
    assert!(
        (num(pt.trades[0].r_pnl) - 3.0).abs() < 1e-9,
        "got {}",
        num(pt.trades[0].r_pnl)
    );
}

#[test]
fn rest_on_ready_same_bar_ready_falls_back_to_hybrid() {
    // Ready on the touch bar itself (lead 0 < 60) → no rested fill; the
    // standard hybrid path takes over (T seeds, D immediate-chases).
    let mut pt = hybrid_pt();
    pt.knobs.rest_on_ready_fill = true;
    place_with_ready(&mut pt, base_trade(Direction::Bull, 100.0, 90.0, 130.0), 0);
    step(&mut pt, &candle(0, 100.5, 101.0, 99.5, 100.2)); // T touches; no lead
    assert_eq!(pt.opportunities_taken, 0, "no lead → T ineligible");
    assert_eq!(pt.hybrid_counters.rested_maker_fills, 0);
    step(&mut pt, &candle(1, 100.5, 100.8, 100.4, 100.6)); // D → immediate chase
    assert_eq!(pt.hybrid_counters.immediate_chases, 1);
}

#[test]
fn rest_on_ready_respects_min_lead_knob() {
    // Lead 60 but the strict knob demands 120 → fallback, not a rested fill.
    let mut pt = hybrid_pt();
    pt.knobs.rest_on_ready_fill = true;
    pt.knobs.rest_min_lead_secs = 120;
    place_with_ready(&mut pt, base_trade(Direction::Bull, 100.0, 90.0, 130.0), 60);
    step(&mut pt, &candle(0, 100.5, 101.0, 99.5, 100.2));
    assert_eq!(pt.hybrid_counters.rested_maker_fills, 0);
    assert_eq!(pt.opportunities_taken, 0);
}

#[test]
fn rest_on_ready_no_touch_on_t_rests_on() {
    // Lead OK but T never touches the entry → nothing to fill on T; the
    // limit keeps resting and a later touch fills as a normal hybrid maker.
    let mut pt = hybrid_pt();
    pt.knobs.rest_on_ready_fill = true;
    pt.knobs.immediate_chase_at_open = false;
    place_with_ready(&mut pt, base_trade(Direction::Bull, 100.0, 90.0, 130.0), 60);
    step(&mut pt, &candle(0, 100.6, 100.9, 100.4, 100.7)); // T no touch
    assert_eq!(pt.opportunities_taken, 0);
    step(&mut pt, &candle(1, 100.2, 100.4, 99.8, 100.0)); // later touch
    assert_eq!(
        pt.hybrid_counters.maker_fills, 1,
        "normal hybrid maker path"
    );
    assert_eq!(pt.hybrid_counters.rested_maker_fills, 0);
}

#[test]
fn rest_on_ready_off_is_regression_safe() {
    // Flag off: a stamped ready_at changes nothing — T never fills.
    let mut pt = hybrid_pt();
    place_with_ready(
        &mut pt,
        base_trade(Direction::Bull, 100.0, 90.0, 130.0),
        600,
    );
    step(&mut pt, &candle(0, 100.5, 101.0, 99.5, 100.2));
    assert_eq!(pt.opportunities_taken, 0, "flag off: signal bar ineligible");
    assert_eq!(pt.hybrid_counters.rested_maker_fills, 0);
}

#[test]
fn rest_on_ready_missing_ready_at_falls_back() {
    // v1-engine / Model-2 opportunities carry no ready_at → hybrid only.
    let mut pt = hybrid_pt();
    pt.knobs.rest_on_ready_fill = true;
    place_pred(
        &mut pt,
        base_trade(Direction::Bull, 100.0, 90.0, 130.0),
        false,
    );
    step(&mut pt, &candle(0, 100.5, 101.0, 99.5, 100.2));
    assert_eq!(pt.opportunities_taken, 0);
    assert_eq!(pt.hybrid_counters.rested_maker_fills, 0);
}

#[test]
fn hybrid_ignores_allow_signal_bar_fill_and_slippage() {
    // Both limit-model knobs are set, but hybrid mode ignores them: the signal
    // bar T never fills (despite allow_signal_bar_fill=true), and the fill
    // price is the hybrid open/entry, NOT entry+slip.
    let mut pt = hybrid_pt();
    pt.knobs.allow_signal_bar_fill = true; // ignored in hybrid
    pt.knobs.entry_slippage_r = key(0.5); // ignored in hybrid
    place_pred(
        &mut pt,
        base_trade(Direction::Bull, 100.0, 90.0, 130.0),
        true,
    );
    // T touches entry; with allow_signal_bar_fill it WOULD fill in limit mode.
    step(&mut pt, &candle(0, 100.5, 101.0, 99.5, 100.2));
    assert_eq!(pt.opportunities_taken, 0, "hybrid: signal bar never fills");
    // D touches E exactly (maker), immediate chase off so we get maker @ entry
    // (NOT entry + 0.5·R = 105).
    pt.knobs.immediate_chase_at_open = false;
    step(&mut pt, &candle(1, 100.2, 100.4, 99.8, 100.0)); // low ≤ E → maker @ 100
    assert_eq!(pt.hybrid_counters.maker_fills, 1);
    assert_eq!(
        num(pt.open_trades[0].fill), 100.0,
        "no slippage applied in hybrid"
    );
}

#[test]
fn hybrid_bear_case_a_integrated() {
    // Bear mirror of the Case-A integrated fill.
    let mut pt = hybrid_pt();
    place_pred(
        &mut pt,
        base_trade(Direction::Bear, 100.0, 110.0, 70.0),
        true,
    );
    step(&mut pt, &candle(0, 99.5, 100.5, 99.0, 100.0)); // T seeds (high ≥ E)
    step(&mut pt, &candle(1, 100.5, 101.0, 99.5, 100.0)); // D opens 100.5 past E → fill
    assert_eq!(pt.hybrid_counters.past_entry_fills, 1);
    assert_eq!(num(pt.open_trades[0].fill), 100.5);
    step(&mut pt, &candle(2, 80.0, 81.0, 69.0, 70.0)); // TP=70
    assert_eq!(pt.wins(), 1);
    // Win = (100.5 − 70)/10 = 3.05R.
    assert!(
        (num(pt.trades[0].r_pnl) - 3.05).abs() < 1e-9,
        "got {}",
        num(pt.trades[0].r_pnl)
    );
}

#[test]
fn hybrid_boundary_from_below_integrated_bear() {
    // Bear: rest, then a later bar chases at the boundary from below.
    let mut pt = hybrid_pt();
    pt.knobs.immediate_chase_at_open = false;
    place_pred(
        &mut pt,
        base_trade(Direction::Bear, 100.0, 110.0, 70.0),
        true,
    );
    step(&mut pt, &candle(0, 99.5, 100.5, 99.0, 100.0)); // T seeds
    step(&mut pt, &candle(1, 99.5, 99.6, 99.2, 99.4)); // D: in front, no fill (rest)
    assert_eq!(pt.opportunities_taken, 0);
    // Later bar: low reaches B=99, high below E → chase from below @ 99.
    step(&mut pt, &candle(2, 99.4, 99.5, 98.8, 99.1));
    assert_eq!(pt.hybrid_counters.boundary_chases_from_below, 1);
    assert_eq!(num(pt.open_trades[0].fill), 99.0);
}

// ─── rest-on-Ready v2 cancel watchdogs ───────────────────────────────────
//
// Bull setup throughout: entry 100, stop 90 (risk 10), tp 130. With the
// tracker's min_rr = 2.0 the stamped min_target is 120: a completed bar
// CLOSING ≥ 120 while the limit is unfilled cancels the order — but only
// from the NEXT bar (same-bar touch+condition → the fill stands).

#[test]
fn cancel_target_consumed_prior_bar_close_cancels_before_fill() {
    let mut pt = hybrid_pt();
    pt.knobs.cancel_on_target_consumed = true;
    place_with_min_target(
        &mut pt,
        base_trade(Direction::Bull, 100.0, 90.0, 130.0),
        120.0,
    );
    // T: no touch, close 105 < 120 → still pending, no flag.
    step(&mut pt, &candle(0, 105.0, 106.0, 104.0, 105.0));
    // D: no touch (low 104), but CLOSES 121 ≥ 120 → flag set for next bar.
    step(&mut pt, &candle(1, 105.0, 121.5, 104.0, 121.0));
    assert_eq!(pt.opportunities_taken, 0);
    assert_eq!(
        pt.hybrid_counters.abandon_target_consumed, 0,
        "flag, not yet canceled"
    );
    // Next bar wicks the entry — but the prior-bar cancel wins: NO fill.
    step(&mut pt, &candle(2, 105.0, 105.5, 99.5, 100.2));
    assert_eq!(
        pt.opportunities_taken, 0,
        "canceled before the fill attempt"
    );
    assert_eq!(pt.hybrid_counters.abandon_target_consumed, 1);
    assert_eq!(pt.hybrid_counters.maker_fills, 0);
}

#[test]
fn cancel_target_same_bar_touch_fill_stands() {
    // The SAME bar wicks the entry AND closes beyond min_target: the fill
    // is attempted first → maker fill stands; the cancel never fires.
    let mut pt = hybrid_pt();
    pt.knobs.cancel_on_target_consumed = true;
    place_with_min_target(
        &mut pt,
        base_trade(Direction::Bull, 100.0, 90.0, 130.0),
        120.0,
    );
    step(&mut pt, &candle(0, 105.0, 106.0, 104.0, 105.0)); // T: no touch
                                                              // D: unarmed rest band; low 99.5 touches entry → maker fill at 100,
                                                              // even though the close (121) consumed the target.
    step(&mut pt, &candle(1, 105.0, 121.5, 99.5, 121.0));
    assert_eq!(pt.opportunities_taken, 1, "same-bar: fill stands");
    assert_eq!(pt.hybrid_counters.maker_fills, 1);
    assert_eq!(pt.hybrid_counters.abandon_target_consumed, 0);
    assert_eq!(num(pt.open_trades[0].fill), 100.0);
}

#[test]
fn cancel_target_signal_bar_close_counts() {
    // T itself closes beyond min_target: the order (placed just after T
    // closes) is canceled at D — even though D touches the entry.
    let mut pt = hybrid_pt();
    pt.knobs.cancel_on_target_consumed = true;
    place_with_min_target(
        &mut pt,
        base_trade(Direction::Bull, 100.0, 90.0, 130.0),
        120.0,
    );
    step(&mut pt, &candle(0, 105.0, 121.5, 104.0, 121.0)); // T closes 121 ≥ 120
    step(&mut pt, &candle(1, 105.0, 105.5, 99.0, 100.0)); // D touches entry
    assert_eq!(pt.opportunities_taken, 0, "T-close cancel beats the D fill");
    assert_eq!(pt.hybrid_counters.abandon_target_consumed, 1);
}

#[test]
fn cancel_target_flag_off_is_inert() {
    // Same price path as the prior-bar-cancel test, but the knob is off:
    // the limit survives and fills maker.
    let mut pt = hybrid_pt();
    place_with_min_target(
        &mut pt,
        base_trade(Direction::Bull, 100.0, 90.0, 130.0),
        120.0,
    );
    step(&mut pt, &candle(0, 105.0, 106.0, 104.0, 105.0));
    step(&mut pt, &candle(1, 105.0, 121.5, 104.0, 121.0)); // close ≥ 120, ignored
    step(&mut pt, &candle(2, 105.0, 105.5, 99.5, 100.2));
    assert_eq!(pt.opportunities_taken, 1);
    assert_eq!(pt.hybrid_counters.maker_fills, 1);
    assert_eq!(pt.hybrid_counters.abandon_target_consumed, 0);
}

#[test]
fn cancel_target_bear_mirror() {
    // Bear: entry 100, stop 110, tp 70; min_target 80 (entry − 2·risk).
    let mut pt = hybrid_pt();
    pt.knobs.cancel_on_target_consumed = true;
    place_with_min_target(
        &mut pt,
        base_trade(Direction::Bear, 100.0, 110.0, 70.0),
        80.0,
    );
    step(&mut pt, &candle(0, 95.0, 96.0, 94.0, 95.0)); // T: no touch
    step(&mut pt, &candle(1, 95.0, 96.0, 79.0, 79.5)); // closes 79.5 ≤ 80 → flag
    step(&mut pt, &candle(2, 95.0, 100.5, 94.0, 95.0)); // wicks entry — canceled first
    assert_eq!(pt.opportunities_taken, 0);
    assert_eq!(pt.hybrid_counters.abandon_target_consumed, 1);
}

#[test]
fn setup_invalidated_marks_then_cancels_before_fill() {
    // The invalidation mark arrives externally (a driver polls the
    // strategy's own state as of the PREVIOUS bar's close) — same honesty
    // rule as the target-consumed watchdog.
    let mut pt = hybrid_pt();
    pt.knobs.cancel_on_setup_invalidated = true;
    place(&mut pt, base_trade(Direction::Bull, 100.0, 99.0, 103.0));
    // T: no touch, the limit rests.
    step(&mut pt, &candle(0, 101.0, 101.5, 100.6, 101.0));
    // Between bars the driver sees the setup invalidated and marks it.
    let ids = pt.pending_watchdog_ids();
    assert_eq!(ids, vec!["t1".to_string()]);
    pt.cancel_pending_invalidated("t1");
    // D would have filled maker at 100 — but the cancel lands first.
    step(&mut pt, &candle(1, 100.5, 100.8, 99.8, 100.2));
    assert!(pt.trades.is_empty(), "cancelled before the fill attempt");
    assert_eq!(pt.hybrid_counters.abandon_setup_invalidated, 1);
}

#[test]
fn setup_invalidated_flag_off_is_inert() {
    let mut pt = hybrid_pt();
    // Flag left off: the watchdog exposes nothing and marks nothing.
    place(&mut pt, base_trade(Direction::Bull, 100.0, 99.0, 103.0));
    step(&mut pt, &candle(0, 101.0, 101.5, 100.6, 101.0));
    assert!(
        pt.pending_watchdog_ids().is_empty(),
        "flag off → no ids exposed"
    );
    pt.cancel_pending_invalidated("t1"); // no-op
    step(&mut pt, &candle(1, 100.5, 100.8, 99.8, 100.2));
    assert_eq!(pt.trades.len(), 1, "fill stands with the watchdog off");
    assert_eq!(pt.hybrid_counters.abandon_setup_invalidated, 0);
}

#[test]
fn a_maker_touch_beats_the_carried_chase_in_either_race() {
    // One bar reaches the entry and the cap; makers are not said to be first.
    let c = candle(2, 100.5, 101.2, 99.8, 100.9);
    let go = |carry: Option<f64>| {
        hybrid(
            Direction::Bull,
            100.0,
            90.0,
            130.0,
            10.0,
            0.1,
            true,
            false,
            false,
            carry,
            EntryFeeSide::Taker,
            &c,
            false,
            false,
        )
    };
    assert_eq!(
        is_fill(go(Some(100.5))).unwrap(),
        (100.0, EntryFeeSide::Maker, HybridPath::Maker)
    );
    assert_eq!(
        is_fill(go(None)).unwrap(),
        (101.0, EntryFeeSide::Taker, HybridPath::BoundaryFromBelow),
        "without a carried open the race is read pessimistically"
    );
}

/// A long from 100 with its stop at 90 and its target at 130, then one bar.
fn gapped(at_open: bool, bar: Candle) -> PaperTrader {
    let mut pt = PaperTrader::new(key(0.0), key(3.0), 300);
    pt.knobs.exit_gap_at_open = at_open;
    place(&mut pt, base_trade(Direction::Bull, 100.0, 90.0, 130.0));
    step(&mut pt, &candle(0, 105.0, 106.0, 104.0, 105.0));
    step(&mut pt, &candle(1, 100.5, 101.0, 99.5, 100.0));
    step(&mut pt, &bar);
    pt
}

#[test]
fn a_gapped_stop_is_booked_at_the_open_where_asked() {
    let bar = candle(2, 80.0, 81.0, 79.0, 80.0);
    let pt = gapped(true, bar);
    assert_eq!(pt.trades[0].result, TradeResult::Loss);
    assert!((num(pt.trades[0].r_pnl) - (-2.0)).abs() < 1e-9);
    let pt = gapped(false, bar);
    assert_eq!(pt.trades[0].result, TradeResult::Loss);
    assert!((num(pt.trades[0].r_pnl) - (-1.0)).abs() < 1e-9, "at the stop by default");
}

#[test]
fn a_gapped_target_is_booked_at_the_open_where_asked() {
    // The bar opens past the target and falls through the stop later.
    let bar = candle(2, 140.0, 141.0, 85.0, 86.0);
    let pt = gapped(true, bar);
    assert_eq!(pt.trades[0].result, TradeResult::Win);
    assert!((num(pt.trades[0].r_pnl) - 4.0).abs() < 1e-9);
    // Between stop and target the bar goes by its range, as ever.
    let pt = gapped(true, candle(2, 100.0, 131.0, 89.0, 120.0));
    assert_eq!(pt.trades[0].result, TradeResult::Loss);
    assert!((num(pt.trades[0].r_pnl) - (-1.0)).abs() < 1e-9);
}

#[test]
fn a_stop_that_trails_only_later_in_the_bar_is_not_gapped() {
    // The high moves the stop to break even; the open lay below that.
    let mut pt = PaperTrader::new(key(0.0), key(3.0), 300);
    pt.knobs.exit_gap_at_open = true;
    pt.knobs.breakeven_r = key(1.0);
    place(&mut pt, base_trade(Direction::Bull, 100.0, 90.0, 130.0));
    step(&mut pt, &candle(0, 105.0, 106.0, 104.0, 105.0));
    step(&mut pt, &candle(1, 100.5, 101.0, 99.5, 100.0));
    step(&mut pt, &candle(2, 98.0, 112.0, 97.0, 110.0));
    assert_eq!(pt.trades[0].result, TradeResult::Inconclusive);
    assert!((num(pt.trades[0].r_pnl) - 0.0).abs() < 1e-9, "the trailing lock, not the open");
}

#[test]
fn every_hybrid_order_is_counted_once_and_taken_once() {
    let mut pt = PaperTrader::new(key(0.0), key(3.0), 300);
    pt.knobs.hybrid_fill = true;
    let fills = |pt: &PaperTrader| {
        let h = &pt.hybrid_counters;
        h.past_entry_fills
            + h.immediate_chases
            + h.deferred_chases
            + h.boundary_chases_from_below
            + h.boundary_chases_from_above
            + h.maker_fills
            + h.rested_maker_fills
    };
    let abandons = |pt: &PaperTrader| {
        let h = &pt.hybrid_counters;
        h.abandon_gap_stop
            + h.abandon_tp_open
            + h.abandon_tp_range
            + h.abandon_age
            + h.abandon_deadline
            + h.abandon_target_consumed
            + h.abandon_setup_invalidated
    };
    place(&mut pt, base_trade(Direction::Bull, 100.0, 90.0, 130.0));
    let mut far = base_trade(Direction::Bull, 70.0, 60.0, 90.0);
    far.opportunity_id = "t2".to_string();
    place(&mut pt, far);
    let placed = pt.pending.len();
    for bar in [candle(0, 105.0, 106.0, 104.0, 105.0), candle(1, 100.5, 101.0, 99.5, 100.0)] {
        step(&mut pt, &bar);
        assert_eq!(fills(&pt), pt.opportunities_taken);
        assert_eq!(fills(&pt), pt.trades.len());
        assert_eq!(pt.pending.len() + fills(&pt) + abandons(&pt), placed);
    }
    assert_eq!(fills(&pt), 1);
    assert_eq!(abandons(&pt), 1, "the far order's target was open already");
}
