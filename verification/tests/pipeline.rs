//! The per-candle order: emit, offer, advance, aggregate.
use backtest_engine::clock::{MINUTE, SECOND};
use backtest_engine::fees::{fee_in_r_side, EntryFeeSide, FeeBasis, FeeTables};
use backtest_engine::key::{bits_of_key, key_of_bits};
use backtest_engine::models::{
    asset_id, asset_name, Candle, Direction, Names, Opportunity, PaperTrade, Tick,
};
use backtest_engine::paper::book::{CloseTicket, Decision, PaperTrader, TakeParams};
use backtest_engine::paper::quote::{BarQuotes, OrderQuote, TradeQuote};
use backtest_engine::pipeline::{direction_word, next_stage, Pipeline, Stage};

fn key(x: f64) -> i64 {
    key_of_bits(x.to_bits()).unwrap()
}

fn num(k: i64) -> f64 {
    f64::from_bits(bits_of_key(k))
}

/// 2026-05-04 and some minutes.
fn bar(asset: u16, min: i64, o: f64, h: f64, l: f64, c: f64) -> Candle {
    Candle {
        asset,
        timeframe: 0,
        open: key(o),
        high: key(h),
        low: key(l),
        close: key(c),
        volume: key(1.0),
        timestamp: 1_777_852_800 * SECOND + min as i128 * MINUTE,
        complete: true,
    }
}

// ─── Arithmetic ──────────────────────────────────────────────────────────────

fn signed(dir: Direction, x: f64) -> f64 {
    if dir == Direction::Bull {
        x
    } else {
        -x
    }
}

fn trade_quote(pt: &PaperTrader, t: &PaperTrade, fill: f64, c: &Candle, prints: &[Tick]) -> TradeQuote {
    let dir = t.direction;
    let risk = (num(t.entry) - num(t.stop)).abs();
    let has_risk = risk > 0.0;
    let r_at = |px: f64| if has_risk { signed(dir, px - fill) / risk } else { 0.0 };
    let best = if dir == Direction::Bull { num(c.high) } else { num(c.low) };
    let favorable: Vec<i64> = if prints.is_empty() {
        vec![key(r_at(best))]
    } else {
        prints.iter().map(|p| key(r_at(num(p.price)))).collect()
    };
    let stop = num(pt.effective_stop(t));
    TradeQuote {
        has_risk,
        favorable,
        open_r: key(r_at(num(c.open))),
        trail_stop: key(fill + signed(dir, num(pt.knobs.trail_lock_r) * risk)),
        stop_r: key(if has_risk { r_at(stop) } else { -1.0 }),
        win_r: key(if has_risk { (num(t.tp) - fill).abs() / risk } else { num(pt.knobs.rr_target) }),
        timeout_r: key(r_at(num(c.close))),
        unreal_r: key(r_at(num(c.close))),
    }
}

fn quotes(pt: &PaperTrader, c: &Candle) -> BarQuotes {
    let prints = pt.bar_prints(c.timestamp);
    let orders = pt
        .pending
        .iter()
        .map(|p| {
            let t = &p.trade;
            let risk = (num(t.entry) - num(t.stop)).abs();
            let boundary = num(t.entry) + signed(t.direction, num(pt.knobs.chase_r) * risk);
            let slipped = num(t.entry) + signed(t.direction, num(pt.knobs.entry_slippage_r) * risk);
            OrderQuote {
                boundary: key(boundary),
                slipped: key(slipped),
                at_entry: trade_quote(pt, t, num(t.entry), c, &prints),
                at_boundary: trade_quote(pt, t, boundary, c, &prints),
            }
        })
        .collect();
    let trades = pt
        .open_trades
        .iter()
        .map(|t| trade_quote(pt, t, num(t.fill), c, &prints))
        .collect();
    BarQuotes { orders, trades }
}

fn fee_of(basis: FeeBasis, entry: f64, risk: f64) -> f64 {
    match basis {
        FeeBasis::Free => 0.0,
        FeeBasis::PerContract(spec) => num(spec.round_turn) / (risk * num(spec.point_value)),
        FeeBasis::Proportional { entry: a, exit: b } => (entry / risk) * (num(a) + num(b)),
    }
}

fn fee(names: &Names, asset: u16, entry: f64, stop: f64, side: EntryFeeSide) -> f64 {
    let risk = (entry - stop).abs();
    fee_of(fee_in_r_side(&FeeTables::new(), names, asset, risk > 0.0, side), entry, risk)
}

fn settle(pt: &mut PaperTrader, names: &Names, ticket: &CloseTicket) {
    let t = pt.trades[ticket.idx].clone();
    let (entry, stop) = (num(t.entry), num(t.stop));
    let risk = (entry - stop).abs();
    let asset = if pt.stop_gap_bps_asset.is_empty() {
        String::new()
    } else {
        asset_name(names, t.asset)
    };
    let plan = pt.settle_plan(ticket, &asset, risk > 0.0);
    let mut r = num(ticket.r_pnl);
    let mut exit = stop;
    if let Some(bps) = plan.gap_bps {
        let factor = num(bps) * 1e-4;
        exit = if t.direction == Direction::Bull {
            stop * (1.0 - factor)
        } else {
            stop * (1.0 + factor)
        };
        r += signed(t.direction, exit - stop) / risk;
    }
    if plan.bank_half {
        r = 0.5 * num(pt.knobs.partial_tp_r) + 0.5 * r;
    }
    let charged = match plan.fee_side {
        Some(side) => fee(names, t.asset, entry, exit, side),
        None => 0.0,
    };
    let net = r - charged;
    pt.settle_close(ticket, key(net), key(charged), (net * 1000.0).round() as i64);
}


// ─── Driving ─────────────────────────────────────────────────────────────────

/// What a strategy does with a candle, and with what it emitted.
trait Strategy {
    fn on_candle(&mut self, names: &mut Names, candle: &Candle) -> Vec<Opportunity>;

    fn decide(&self, o: &Opportunity, min_score: f64, rr: f64) -> Decision {
        if num(o.score) < min_score {
            return Decision::Skip("below_min_score".to_string());
        }
        let Some((entry, stop)) = o.entry_stop() else {
            return Decision::Skip("no_geometry".to_string());
        };
        let (e, s) = (num(entry), num(stop));
        let tp = e + signed(o.direction, rr * (e - s).abs());
        Decision::Take(TakeParams { entry, stop, tp: key(tp) })
    }
}

struct Desk<S: Strategy> {
    p: Pipeline,
    s: S,
    names: Names,
}

impl<S: Strategy> Desk<S> {
    fn new(s: S, asset: &str, min_score: f64) -> (Self, u16) {
        let mut names = Names::new();
        let aid = asset_id(&mut names, asset);
        let mut p = Pipeline::new();
        p.insert_asset(aid, PaperTrader::new(key(min_score), key(2.0), 300));
        (Desk { p, s, names }, aid)
    }

    fn process_candle(&mut self, c: &Candle) -> Vec<Opportunity> {
        let at = self.p.find_book(c.asset);
        let registered = at < self.p.books.len();
        let mut admitted = Vec::new();
        let mut opps = Vec::new();
        let mut stage = Stage::Emit;
        while stage != Stage::Done {
            match stage {
                Stage::Emit => {
                    if registered {
                        opps = self.s.on_candle(&mut self.names, c);
                    }
                }
                Stage::Offer => {
                    let k = self.p.books[at].trader.knobs;
                    let verdicts: Vec<Decision> = opps
                        .iter()
                        .map(|o| self.s.decide(o, num(k.min_score), num(k.rr_target)))
                        .collect();
                    admitted.extend(self.p.offer(at, &opps, &verdicts));
                }
                Stage::Advance => {
                    let q = quotes(&self.p.books[at].trader, c);
                    let tickets = self.p.advance(at, c, &q, None);
                    for t in &tickets {
                        settle(&mut self.p.books[at].trader, &self.names, t);
                    }
                }
                _ => {}
            }
            stage = next_stage(stage, registered, c.complete);
        }
        admitted
    }

    fn trader(&self, aid: u16) -> &PaperTrader {
        &self.p.books[self.p.find_book(aid)].trader
    }
}

/// Emits one long on the Nth candle it sees, with fixed geometry.
struct EmitOnce {
    fire_on: usize,
    seen: usize,
    developing: bool,
    entry: f64,
    stop: f64,
}

impl EmitOnce {
    fn new(fire_on: usize, entry: f64, stop: f64) -> Self {
        Self { fire_on, seen: 0, developing: false, entry, stop }
    }
}

fn long(names: &mut Names, kind: &str, c: &Candle, score: f64, entry: f64, stop: f64) -> Opportunity {
    let asset = asset_name(names, c.asset);
    Opportunity::new(names, kind, &asset, "1m", Direction::Bull, c.timestamp)
        .with_score(key(score))
        .with_entry_stop(key(entry), key(stop))
}

impl Strategy for EmitOnce {
    fn on_candle(&mut self, names: &mut Names, candle: &Candle) -> Vec<Opportunity> {
        self.seen += 1;
        if self.seen != self.fire_on {
            return Vec::new();
        }
        let mut o = long(names, "test_long", candle, 5.0, self.entry, self.stop);
        o.developing = self.developing;
        vec![o]
    }
}

fn pipeline_with(s: EmitOnce, asset: &str) -> (Desk<EmitOnce>, u16) {
    Desk::new(s, asset, 0.0)
}

#[test]
fn an_admitted_opportunity_becomes_a_resting_order_then_a_trade() {
    let (mut p, aid) = pipeline_with(EmitOnce::new(1, 100.0, 98.0), "PIPE_A");

    // Bar 1 emits; the order rests. The signal bar itself must not fill it.
    let admitted = p.process_candle(&bar(aid, 0, 101.0, 101.5, 99.0, 101.0));
    assert_eq!(admitted.len(), 1, "the opportunity was admitted");
    assert!(p.trader(aid).trades.is_empty(), "the signal bar must not fill");

    // Bar 2 trades down through the entry: now it fills.
    p.process_candle(&bar(aid, 1, 101.0, 101.2, 99.5, 100.5));
    assert_eq!(p.trader(aid).trades.len(), 1, "the next bar fills it");
}

#[test]
fn a_developing_opportunity_is_journaled_but_never_traded() {
    let mut s = EmitOnce::new(1, 100.0, 98.0);
    s.developing = true;
    let (mut p, aid) = pipeline_with(s, "PIPE_DEV");

    let admitted = p.process_candle(&bar(aid, 0, 101.0, 101.5, 99.0, 101.0));
    assert!(admitted.is_empty(), "a developing setup is not admitted");
    assert_eq!(p.p.active_opps.len(), 1, "but it is still journaled");
    p.process_candle(&bar(aid, 1, 101.0, 101.2, 99.5, 100.5));
    assert!(p.trader(aid).trades.is_empty(), "and never becomes a trade");
}

/// Rejects everything, to prove skips are tallied rather than swallowed.
struct AlwaysSkip;
impl Strategy for AlwaysSkip {
    fn on_candle(&mut self, names: &mut Names, candle: &Candle) -> Vec<Opportunity> {
        vec![long(names, "nope", candle, 1.0, 100.0, 98.0)]
    }
    fn decide(&self, _o: &Opportunity, _min_score: f64, _rr: f64) -> Decision {
        Decision::Skip("test_gate".to_string())
    }
}

#[test]
fn skips_are_counted_by_reason() {
    let (mut p, aid) = Desk::new(AlwaysSkip, "PIPE_SKIP", 0.0);
    for i in 0..3 {
        assert!(p.process_candle(&bar(aid, i, 100.0, 101.0, 99.0, 100.0)).is_empty());
    }
    let pt = p.trader(aid);
    assert_eq!(pt.opportunities_seen, 3);
    assert_eq!(
        pt.skips.get(&"test_gate".to_string()),
        Some(3),
        "what was turned away is visible"
    );
    assert!(pt.trades.is_empty());
}

/// Overrides the decision to prove the pipeline uses the STRATEGY's verdict and
/// does not recompute geometry of its own.
struct FixedGeometry;
impl Strategy for FixedGeometry {
    fn on_candle(&mut self, names: &mut Names, candle: &Candle) -> Vec<Opportunity> {
        if candle.timestamp / SECOND % 120 != 0 {
            return Vec::new();
        }
        // Deliberately stamp geometry the override will ignore.
        vec![long(names, "override", candle, 0.0, 1.0, 0.5)]
    }
    fn decide(&self, _o: &Opportunity, _min_score: f64, _rr: f64) -> Decision {
        Decision::Take(TakeParams { entry: key(100.0), stop: key(98.0), tp: key(110.0) })
    }
}

#[test]
fn the_strategys_own_admit_decides_the_geometry() {
    // A score floor the emitted 0.0 would fail — the override ignores it.
    let (mut p, aid) = Desk::new(FixedGeometry, "PIPE_OVR", 99.0);
    p.process_candle(&bar(aid, 0, 101.0, 101.5, 100.5, 101.0));
    p.process_candle(&bar(aid, 1, 101.0, 101.2, 99.5, 100.5));
    let t = p.trader(aid).trades.first().expect("the override admits");
    assert_eq!(num(t.entry), 100.0, "the override's entry, not the emitted 1.0");
    assert_eq!(num(t.tp), 110.0, "and the override's tp, not one projected from rr");
}

#[test]
fn an_incomplete_bar_never_advances_prices() {
    let (mut p, aid) = pipeline_with(EmitOnce::new(1, 100.0, 98.0), "PIPE_INC");
    p.process_candle(&bar(aid, 0, 101.0, 101.5, 100.5, 101.0));

    // An in-progress bar whose low reaches the entry must NOT fill it: its
    // low is not final, so a fill there could be undone by the rest of the
    // bar.
    let mut partial = bar(aid, 1, 101.0, 101.2, 99.0, 100.5);
    partial.complete = false;
    p.process_candle(&partial);
    assert!(p.trader(aid).trades.is_empty(), "an incomplete bar must not fill");

    // The same bar, completed, does fill.
    p.process_candle(&bar(aid, 1, 101.0, 101.2, 99.0, 100.5));
    assert_eq!(p.trader(aid).trades.len(), 1);
}

#[test]
fn a_closed_trade_moves_from_active_to_expired() {
    let (mut p, aid) = pipeline_with(EmitOnce::new(1, 100.0, 98.0), "PIPE_REAP");
    p.process_candle(&bar(aid, 0, 101.0, 101.5, 100.5, 101.0));
    p.process_candle(&bar(aid, 1, 101.0, 101.2, 99.5, 100.5)); // fills
    assert_eq!(p.p.active_opps.len(), 1);
    // Drive it into the stop.
    p.process_candle(&bar(aid, 2, 100.0, 100.1, 97.0, 97.5));
    assert!(
        p.p.active_opps.is_empty(),
        "the closed trade's opp left the active set"
    );
    assert_eq!(p.p.expired_opps.len(), 1);
    assert_eq!(
        p.p.expired_opps[0].invalidation_reason.as_deref(),
        Some("trade_closed")
    );
    assert!(p.p.expired_opps[0].invalidated);
}

#[test]
fn an_unregistered_asset_is_ignored_rather_than_panicking() {
    let (mut p, _) = pipeline_with(EmitOnce::new(1, 100.0, 98.0), "PIPE_KNOWN");
    let other = asset_id(&mut p.names, "PIPE_UNKNOWN");
    assert!(p.process_candle(&bar(other, 0, 100.0, 101.0, 99.0, 100.0)).is_empty());
}

#[test]
fn finish_closes_open_positions_and_yields_the_trader() {
    let (mut p, aid) = pipeline_with(EmitOnce::new(1, 100.0, 98.0), "PIPE_FIN");
    p.process_candle(&bar(aid, 0, 101.0, 101.5, 100.5, 101.0));
    p.process_candle(&bar(aid, 1, 101.0, 101.2, 99.5, 100.5)); // fills, stays open
    let pt = p.p.finish(aid).expect("the asset was registered");
    assert_eq!(pt.trades.len(), 1);
    assert!(
        pt.open_trades.is_empty(),
        "nothing is left open at the end of a run"
    );
    assert!(p.p.finish(aid).is_none(), "and the asset is consumed");
}

#[test]
fn expired_opportunities_are_capped_at_fifty() {
    struct Churn;
    impl Strategy for Churn {
        fn on_candle(&mut self, names: &mut Names, c: &Candle) -> Vec<Opportunity> {
            vec![long(names, "churn", c, 1.0, 100.0, 98.0)]
        }
    }
    let (mut p, aid) = Desk::new(Churn, "PIPE_CAP", 0.0);
    let mut ids = Vec::new();
    for i in 0..70 {
        // Every bar fills the order before, and stops the trade before that.
        ids.extend(p.process_candle(&bar(aid, i, 100.0, 100.5, 97.0, 99.0)));
    }
    assert_eq!(p.p.expired_opps.len(), 50);
    let last = p.p.expired_opps.last().unwrap();
    assert_eq!(last.id, ids[67].id, "newest last");
}

#[test]
fn an_opportunity_seen_again_replaces_the_first() {
    let (mut p, aid) = pipeline_with(EmitOnce::new(9, 100.0, 98.0), "PIPE_SAME");
    let c = bar(aid, 0, 101.0, 101.5, 100.5, 101.0);
    let mut o = long(&mut p.names, "again", &c, 1.0, 100.0, 98.0);
    o.developing = true;
    let mut o2 = o.clone();
    o2.score = key(3.0);
    let skip = || Decision::Skip("x".to_string());
    assert!(p.p.can_offer(0, &vec![o.clone()], &vec![skip()]));
    p.p.offer(0, &vec![o, o2], &vec![skip(), skip()]);
    assert_eq!(p.p.active_opps.len(), 1);
    assert_eq!(num(p.p.active_opps[0].score), 3.0);
    assert_eq!(p.trader(aid).opportunities_seen, 0);
}

#[test]
fn directions_are_spelled_as_sides() {
    assert_eq!(direction_word(Direction::Bull), "LONG");
    assert_eq!(direction_word(Direction::Bear), "SHORT");
}
