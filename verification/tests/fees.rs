//! Fee schedules, contracts and what a round trip costs in R.
use backtest_engine::fees::{
    active_schedule, clear_registrations, contract_spec, fee_in_r, fee_in_r_side, fee_rate_for,
    parse_schedule, register_contract, register_contract_full, register_rate, set_schedule,
    ContractSpec, EntryFeeSide, FeeBasis, FeeRate, FeeSchedule, FeeTables, DEFAULT_MAKER,
    DEFAULT_TAKER, SPOT_TAKER,
};
use backtest_engine::key::{bits_of_key, key_of_bits};
use backtest_engine::models::{asset_id, Names};

fn key(x: f64) -> i64 {
    key_of_bits(x.to_bits()).unwrap()
}

fn num(k: i64) -> f64 {
    f64::from_bits(bits_of_key(k))
}

struct Desk {
    tables: FeeTables,
    names: Names,
}

impl Desk {
    fn new() -> Self {
        Desk { tables: FeeTables::new(), names: Names::new() }
    }

    fn asset(&mut self, name: &str) -> u16 {
        asset_id(&mut self.names, name)
    }

    fn rate(&mut self, name: &str, maker: f64, taker: f64) {
        register_rate(&mut self.tables, name, FeeRate { maker: key(maker), taker: key(taker) });
    }

    fn contract(&mut self, name: &str, point_value: f64, round_turn: f64) {
        let spec = ContractSpec { point_value: key(point_value), round_turn: key(round_turn) };
        register_contract(&mut self.tables, name, spec);
    }

    fn contract_full(&mut self, name: &str, point_value: f64, round_turn: f64) {
        let spec = ContractSpec { point_value: key(point_value), round_turn: key(round_turn) };
        register_contract_full(&mut self.tables, name, spec);
    }

    fn fee(&self, id: u16, entry: f64, stop: f64) -> f64 {
        let risk = (entry - stop).abs();
        charge(fee_in_r(&self.tables, &self.names, id, risk > 0.0), entry, risk)
    }

    fn fee_side(&self, id: u16, entry: f64, stop: f64, side: EntryFeeSide) -> f64 {
        let risk = (entry - stop).abs();
        charge(fee_in_r_side(&self.tables, &self.names, id, risk > 0.0, side), entry, risk)
    }
}

fn charge(basis: FeeBasis, entry: f64, risk: f64) -> f64 {
    match basis {
        FeeBasis::Free => 0.0,
        FeeBasis::PerContract(spec) => num(spec.round_turn) / (risk * num(spec.point_value)),
        FeeBasis::Proportional { entry: a, exit: b } => (entry / risk) * (num(a) + num(b)),
    }
}

#[test]
fn proportional_fee_scales_with_entry_over_risk() {
    let mut d = Desk::new();
    let id = d.asset("PROP_A");
    d.rate("PROP_A", 1.44e-4, 4.32e-4);
    // Entry 50000, stop 49900 → risk 100.
    // (50000/100) * (1.44e-4 + 4.32e-4) = 500 * 5.76e-4 = 0.288 R.
    let fee = d.fee(id, 50000.0, 49900.0);
    assert!((fee - 0.288).abs() < 1e-9, "got {fee}");
    // Halving the stop distance doubles the fee in R — the whole point of
    // the proportional model: a tighter stop pays the same dollars over a
    // smaller R.
    let tight = d.fee(id, 50000.0, 49950.0);
    assert!((tight - 0.576).abs() < 1e-9, "got {tight}");
}

#[test]
fn unregistered_assets_fall_back_to_the_schedule_default() {
    let mut d = Desk::new();
    let id = d.asset("PROP_UNKNOWN");
    // The default: (5000/10) * (0.29e-4 + 0.86e-4) = 500 * 1.15e-4 = 0.0575.
    let fee = d.fee(id, 5000.0, 4990.0);
    assert!((fee - 0.0575).abs() < 1e-9, "got {fee}");
}

#[test]
fn spot_schedule_uses_its_own_default() {
    let mut d = Desk::new();
    let id = d.asset("PROP_UNKNOWN");
    let perp = d.fee(id, 2000.0, 1990.0);
    set_schedule(&mut d.tables, FeeSchedule::Spot);
    // (2000/10) * (0 + 3.2e-4) = 200 * 3.2e-4 = 0.064.
    let spot = d.fee(id, 2000.0, 1990.0);
    assert!((spot - 0.064).abs() < 1e-9, "got {spot}");
    assert!(spot > perp, "the spot taker is the wider of the two");
}

#[test]
fn zero_risk_charges_nothing() {
    let mut d = Desk::new();
    let id = d.asset("PROP_A");
    assert_eq!(d.fee(id, 50000.0, 50000.0), 0.0);
    assert_eq!(d.fee_side(id, 50000.0, 50000.0, EntryFeeSide::Taker), 0.0);
}

#[test]
fn taker_entry_costs_more_than_maker_entry() {
    let mut d = Desk::new();
    let id = d.asset("PROP_B");
    d.rate("PROP_B", 0.29e-4, 0.86e-4);
    // maker entry: (5000/10)*(0.29e-4 + 0.86e-4) = 500*1.15e-4 = 0.0575.
    // taker entry: (5000/10)*(0.86e-4 + 0.86e-4) = 500*1.72e-4 = 0.086.
    let maker = d.fee_side(id, 5000.0, 4990.0, EntryFeeSide::Maker);
    let taker = d.fee_side(id, 5000.0, 4990.0, EntryFeeSide::Taker);
    assert!((maker - 0.0575).abs() < 1e-9, "maker got {maker}");
    assert!((taker - 0.086).abs() < 1e-9, "taker got {taker}");
    // The convenience wrapper is exactly the maker-entry variant.
    assert_eq!(maker, d.fee(id, 5000.0, 4990.0));
    assert!(taker > maker);
}

#[test]
fn parse_schedule_round_trips_and_rejects_junk() {
    assert_eq!(parse_schedule("perp").unwrap(), FeeSchedule::Perp);
    assert_eq!(parse_schedule("PERP").unwrap(), FeeSchedule::Perp);
    assert_eq!(parse_schedule("Spot").unwrap(), FeeSchedule::Spot);
    assert_eq!(parse_schedule("futures").unwrap(), FeeSchedule::Futures);
    assert_eq!(
        parse_schedule("futures_full").unwrap(),
        FeeSchedule::FuturesFullSize
    );
    assert!(parse_schedule("not-a-venue").is_err());
}

#[test]
fn an_unknown_schedule_is_named_in_its_refusal() {
    assert_eq!(
        parse_schedule("Not-A-Venue").unwrap_err(),
        "unknown fee schedule 'not-a-venue' (expected perp|spot|futures|futures_full)"
    );
    assert_eq!(parse_schedule("FUTURES_fullsize").unwrap(), FeeSchedule::FuturesFullSize);
}

#[test]
fn futures_fee_is_flat_per_contract_and_price_independent() {
    let mut d = Desk::new();
    let id = d.asset("FUT_A");
    d.contract("FUT_A", 5.0, 1.90);
    set_schedule(&mut d.tables, FeeSchedule::Futures);
    // 4-point stop → 1.90 / (4 * 5) = 0.095 R.
    let fee = d.fee(id, 6400.0, 6396.0);
    assert!((fee - 0.095).abs() < 1e-9, "got {fee}");
    // The entry PRICE must not matter: flat dollars, no notional term.
    let low = d.fee(id, 5000.0, 4996.0);
    assert!((low - 0.095).abs() < 1e-9, "got {low}");
    // And maker vs taker must not matter either — a futures commission
    // does not distinguish a limit fill from a market fill.
    assert_eq!(fee, d.fee_side(id, 6400.0, 6396.0, EntryFeeSide::Taker));
}

#[test]
fn futures_fee_scales_with_the_contract_point_value() {
    let mut d = Desk::new();
    let id = d.asset("FUT_B");
    d.contract("FUT_B", 100.0, 2.20);
    set_schedule(&mut d.tables, FeeSchedule::Futures);
    // $0.50 stop on a $100/pt contract → 2.20 / (0.5 * 100) = 0.044 R.
    let fee = d.fee(id, 65.0, 64.5);
    assert!((fee - 0.044).abs() < 1e-9, "got {fee}");
}

#[test]
fn full_size_contracts_are_cheaper_per_r_than_micros() {
    let mut d = Desk::new();
    let id = d.asset("FUT_A");
    // A micro at $5/pt and its full-size sibling at $50/pt: ten times the
    // point value for roughly three times the round turn, so the same stop
    // costs materially less R on the full-size contract.
    d.contract("FUT_A", 5.0, 1.90);
    d.contract_full("FUT_A", 50.0, 5.76);

    set_schedule(&mut d.tables, FeeSchedule::Futures);
    let micro = d.fee(id, 6400.0, 6396.0); // 1.90 / 20  = 0.095
    set_schedule(&mut d.tables, FeeSchedule::FuturesFullSize);
    let full = d.fee(id, 6400.0, 6396.0); // 5.76 / 200 = 0.0288
    assert!((full - 0.0288).abs() < 1e-9, "got {full}");
    assert!(
        full < micro / 3.0,
        "full {full} should be >3x cheaper than micro {micro}"
    );
}

#[test]
fn a_futures_schedule_falls_back_for_unregistered_assets() {
    let mut d = Desk::new();
    let id = d.asset("PROP_A");
    d.rate("PROP_A", 1.44e-4, 4.32e-4);
    // Deliberately register NO contract spec for this asset: a mixed
    // basket can hold instruments the futures venue does not list.
    let perp = d.fee(id, 50000.0, 49900.0);
    set_schedule(&mut d.tables, FeeSchedule::Futures);
    let futures = d.fee(id, 50000.0, 49900.0);
    assert_eq!(perp, futures, "no contract spec → keep the proportional rate");
}

#[test]
fn an_empty_contract_table_never_silently_zeroes_a_fee() {
    let mut d = Desk::new();
    // The trap this guards: selecting a futures schedule and registering
    // nothing. Every asset must still be charged something, via the
    // proportional fallback, rather than trading fee-free.
    set_schedule(&mut d.tables, FeeSchedule::Futures);
    let id = d.asset("PROP_UNKNOWN");
    let fee = d.fee(id, 5000.0, 4990.0);
    assert!(fee > 0.0, "an unregistered futures asset must still pay a fee");
}

#[test]
fn the_default_rates_are_the_documented_numbers() {
    assert_eq!(num(DEFAULT_MAKER), 0.29e-4);
    assert_eq!(num(DEFAULT_TAKER), 0.86e-4);
    assert_eq!(num(SPOT_TAKER), 3.2e-4);
}

#[test]
fn clearing_forgets_what_was_registered_and_keeps_the_schedule() {
    let mut d = Desk::new();
    let id = d.asset("FUT_A");
    d.contract("FUT_A", 5.0, 1.90);
    d.contract_full("FUT_A", 50.0, 5.76);
    d.rate("FUT_A", 1e-4, 2e-4);
    set_schedule(&mut d.tables, FeeSchedule::Futures);
    assert!(contract_spec(&d.tables, "FUT_A").is_some());
    clear_registrations(&mut d.tables);
    assert_eq!(active_schedule(&d.tables), FeeSchedule::Futures);
    assert!(contract_spec(&d.tables, "FUT_A").is_none());
    let rate = fee_rate_for(&d.tables, &d.names, id);
    assert_eq!(num(rate.taker), 0.86e-4);
}

#[test]
fn a_proportional_schedule_ignores_contracts() {
    let mut d = Desk::new();
    let id = d.asset("FUT_A");
    d.contract("FUT_A", 5.0, 1.90);
    assert!(contract_spec(&d.tables, "FUT_A").is_none());
    assert!((d.fee(id, 5000.0, 4990.0) - 0.0575).abs() < 1e-9);
}
