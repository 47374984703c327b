//! From a command line to a run.
use backtest_engine::clock::{MINUTE, SECOND};
use backtest_engine::data::sources::{DataSource, SourceMap};
use backtest_engine::driver::args::{run, Cli, Commands, ReplayArgs};
use backtest_engine::driver::factory::{register_factory, select_factory};
use backtest_engine::driver::feed::{feed_conflict, run_label, streaming_feed};
use backtest_engine::driver::resolve::{
    all_timeframes, exec_tick_for, resolve, seed_args_from_registry, source_map_from, AssetSource,
    ContractEntry, FillLens, ResolveError, ResolvedReplay, StrategyFile, NO_ASSETS,
};
use backtest_engine::driver::window::{make_window, resolve_window, WindowError};
use backtest_engine::fees::{contract_spec, EntryFeeSide, FeeSchedule, FeeTables};
use backtest_engine::key::{bits_of_key, key_of_bits};
use backtest_engine::models::Candle;
use backtest_engine::params::bag::{Params, RawValue};
use backtest_engine::params::registry::{all_knobs, KnobRegistry};
use backtest_engine::params::value::{Kind, Knob, Value};

fn key(x: f64) -> i64 {
    key_of_bits(x.to_bits()).unwrap()
}

fn num(k: i64) -> f64 {
    f64::from_bits(bits_of_key(k))
}

fn texts(list: &[&str]) -> Vec<String> {
    list.iter().map(|s| s.to_string()).collect()
}

fn args() -> ReplayArgs {
    ReplayArgs {
        asset: Vec::new(),
        exclude_asset: Vec::new(),
        data_dir: texts(&["data"]),
        base_interval: "1m".to_string(),
        timeframe: Vec::new(),
        output: "text".to_string(),
        json_sidecar: None,
        config_strategy: None,
        config_fill: None,
        from: None,
        to: None,
        warmup_days: 0,
        fee_schedule: None,
        factory: None,
        roll_adjust: false,
        streaming: false,
    }
}

fn fill(mode: &str) -> FillLens {
    FillLens {
        allow_signal_bar_fill: false,
        entry_slippage_r: key(0.0),
        intrabar_stop_first: true,
        exit_gap_at_open: false,
        entry_fill_mode: mode.to_string(),
        chase_r: key(0.1),
        chase_requires_seed: true,
        immediate_chase_at_open: true,
        race_maker_first: false,
        deferred_chase_at_open: false,
        rest_min_lead_secs: 60,
        tick_chase: true,
        past_entry_fee: "taker".to_string(),
        stop_gap_bps_default: key(0.0),
        stop_gap_bps_asset: Vec::new(),
    }
}

fn file() -> StrategyFile {
    StrategyFile {
        params: Params::new(),
        assets: None,
        contracts: Vec::new(),
        roll_adjust: false,
        strategy_impl: None,
        sources: Vec::new(),
        exec_sources: Vec::new(),
    }
}

fn go(
    a: &ReplayArgs,
    f: Option<StrategyFile>,
    lens: FillLens,
    found: &[&str],
    tables: &mut FeeTables,
) -> Result<ResolvedReplay, ResolveError> {
    let reg = KnobRegistry::new();
    resolve(a, &f, lens, "ma_crossover", &texts(&["5m"]), &texts(found), &reg, tables)
}

fn refusal(r: Result<ResolvedReplay, ResolveError>) -> String {
    match r {
        Err(ResolveError::Refused(s)) => s,
        Err(ResolveError::Window(e)) => panic!("a window error: {e:?}"),
        Ok(_) => panic!("it resolved"),
    }
}

#[test]
fn a_command_line_asks_for_a_replay() {
    let mut a = args();
    a.warmup_days = 3;
    assert_eq!(run(Cli { command: Commands::Replay(a) }).warmup_days, 3);
}

#[test]
fn the_factory_is_the_named_one_or_the_only_one() {
    let two = texts(&["a", "b"]);
    assert_eq!(select_factory(Some("b"), Some("a"), &two), Ok(1));
    assert_eq!(select_factory(None, Some("a"), &two), Ok(0));
    assert_eq!(select_factory(None, None, &texts(&["only"])), Ok(0));
    assert_eq!(
        select_factory(None, None, &Vec::new()).unwrap_err(),
        "no strategy factories registered with the driver"
    );
    assert_eq!(
        select_factory(None, None, &two).unwrap_err(),
        "several strategy factories are registered (a, b); pick one with --factory or a top-level `factory = \"...\"` in the strategy file"
    );
    assert_eq!(
        select_factory(Some("c"), None, &two).unwrap_err(),
        "unknown strategy factory \"c\" (registered: a, b)"
    );
}

#[test]
fn a_factory_that_shadows_a_knob_is_named() {
    let mut reg = KnobRegistry::new();
    let k = |name: &str| Knob {
        name: name.to_string(),
        kind: Kind::F64,
        default: Value::F64(key(1.0)),
        doc: "A knob for the occasion.".to_string(),
    };
    assert!(register_factory(&mut reg, "mine", &vec![k("depth")]).is_ok());
    let e = register_factory(&mut reg, "mine", &vec![k("rr")]).unwrap_err();
    assert!(e.starts_with("factory \"mine\": "), "got {e}");
}

#[test]
fn a_run_without_files_has_every_default() {
    let mut tables = FeeTables::new();
    let r = go(&args(), None, fill("limit"), &["ETH", "BTC", "ETH"], &mut tables).unwrap();
    assert_eq!(r.assets, texts(&["BTC", "ETH"]), "found ones sorted, each once");
    assert_eq!(num(r.rr), 2.0);
    assert_eq!(num(r.min_score), 0.0);
    assert_eq!(r.max_hold, 300);
    assert_eq!(r.timeframes, texts(&["5m"]));
    assert!(!r.split_feed && !r.tick_mode && !r.roll_adjust);
    assert_eq!(tables.schedule, FeeSchedule::Perp, "an empty name changes nothing");
    for k in all_knobs(&KnobRegistry::new()) {
        assert!(r.params.is_set(&k.name), "{} is written out", k.name);
    }
}

#[test]
fn assets_come_from_the_command_line_then_the_file_then_the_data() {
    let mut tables = FeeTables::new();
    let mut a = args();
    a.config_strategy = Some("s.toml".to_string());
    let mut f = file();
    f.assets = Some(texts(&["Z", "A"]));
    let r = go(&a, Some(f.clone()), fill("limit"), &["Q"], &mut tables).unwrap();
    assert_eq!(r.assets, texts(&["Z", "A"]), "as the file has them");
    a.asset = texts(&["M", "N"]);
    a.exclude_asset = texts(&["N"]);
    let r = go(&a, Some(f), fill("limit"), &["Q"], &mut tables).unwrap();
    assert_eq!(r.assets, texts(&["M"]));
    a.exclude_asset = texts(&["M", "N"]);
    assert_eq!(refusal(go(&a, None, fill("limit"), &["Q"], &mut tables)), NO_ASSETS);
    assert!(NO_ASSETS.starts_with("no assets to run. Point --data-dir"));
}

#[test]
fn a_file_may_not_name_another_factory() {
    let mut tables = FeeTables::new();
    let mut a = args();
    a.config_strategy = Some("s.toml".to_string());
    let mut f = file();
    f.strategy_impl = Some("other".to_string());
    f.contracts.push(contract("ES", "futures"));
    assert_eq!(
        refusal(go(&a, Some(f), fill("limit"), &["Q"], &mut tables)),
        "s.toml names factory \"other\" but --factory selected \"ma_crossover\""
    );
    tables.schedule = FeeSchedule::Futures;
    assert!(contract_spec(&tables, "ES").is_none(), "nothing was registered");
}

fn contract(asset: &str, schedule: &str) -> ContractEntry {
    ContractEntry {
        asset: asset.to_string(),
        schedule: schedule.to_string(),
        point_value: key(5.0),
        round_turn: key(1.9),
    }
}

#[test]
fn contracts_and_the_schedule_are_registered() {
    let mut tables = FeeTables::new();
    let mut a = args();
    a.config_strategy = Some("s.toml".to_string());
    a.fee_schedule = Some("Futures".to_string());
    let mut f = file();
    f.roll_adjust = true;
    f.contracts = vec![contract("ES", "futures"), contract("NQ", "futures_full")];
    let r = go(&a, Some(f), fill("tick"), &["ES"], &mut tables).unwrap();
    assert!(r.roll_adjust && r.tick_mode);
    assert_eq!(tables.schedule, FeeSchedule::Futures);
    assert!(contract_spec(&tables, "ES").is_some());
    assert!(contract_spec(&tables, "NQ").is_none());
    tables.schedule = FeeSchedule::FuturesFullSize;
    assert!(contract_spec(&tables, "NQ").is_some());
    a.fee_schedule = Some("bogus".to_string());
    assert!(refusal(go(&a, None, fill("limit"), &["ES"], &mut tables))
        .starts_with("unknown fee schedule 'bogus'"));
}

#[test]
fn the_window_includes_its_last_day_and_loading_starts_earlier() {
    let (from, to) = (Some("2026-03-01".to_string()), Some("2026-03-02".to_string()));
    let day = 86_400 * SECOND;
    let w = resolve_window(&from, &to, 10).unwrap();
    let start = 1_772_323_200 * SECOND;
    assert_eq!(w.start, Some(start));
    assert_eq!(w.end, Some(start + 2 * day));
    assert_eq!(w.load_start, Some(start - 10 * day));
    let open = resolve_window(&None, &None, 10).unwrap();
    assert_eq!((open.start, open.end, open.load_start), (None, None, None));
    let bad = Some("03/01/2026".to_string());
    assert_eq!(resolve_window(&bad, &to, 0), Err(WindowError::From));
    assert_eq!(resolve_window(&from, &bad, 0), Err(WindowError::To));
    assert_eq!(make_window(Some(Some(719_163)), None, 1).unwrap().load_start, Some(-day));
    assert_eq!(make_window(Some(Some(i32::MAX)), None, 1), Err(WindowError::Range));
    let (from, to) = (Some("1500-06-01".to_string()), Some("2999-12-31".to_string()));
    let w = resolve_window(&from, &to, 10).unwrap();
    assert_eq!(w.start, Some(-171_513 * day));
    assert_eq!(w.end, Some(32_503_680_000 * SECOND));
    assert_eq!(w.load_start, Some(-171_523 * day));
}

#[test]
fn a_bad_day_stops_a_run() {
    let mut a = args();
    a.from = Some("soon".to_string());
    match go(&a, None, fill("limit"), &["Q"], &mut FeeTables::new()) {
        Err(ResolveError::Window(WindowError::From)) => {}
        other => panic!("expected a window error, got {other:?}"),
    }
}

#[test]
fn timeframes_are_added_once() {
    assert_eq!(
        all_timeframes(&texts(&["5m", "1h"]), &texts(&["1h", "4h", "4h"])),
        texts(&["5m", "1h", "4h"])
    );
}

#[test]
fn products_have_their_tick() {
    let tick = |stem: &str| {
        let mut m = SourceMap::new();
        m.insert("A", vec![DataSource::identity(stem)]);
        exec_tick_for(&m, "A").map(num)
    };
    assert_eq!(tick("ES"), Some(0.25));
    assert_eq!(tick("MES"), Some(0.25));
    assert_eq!(tick("MNQ"), Some(0.25));
    assert_eq!(tick("MGC"), Some(0.1));
    assert_eq!(tick("SIL"), Some(0.005));
    assert_eq!(tick("MCL"), Some(0.01));
    assert_eq!(tick("BTC"), None);
    let mut none = SourceMap::new();
    none.insert("A", Vec::new());
    assert_eq!(exec_tick_for(&none, "A"), None);
}

#[test]
fn execution_sources_split_the_feed() {
    let mut a = args();
    a.config_strategy = Some("s.toml".to_string());
    let mut f = file();
    f.exec_sources = vec![AssetSource {
        asset: "SP".to_string(),
        files: texts(&["ES", "MES"]),
        scale: key(1.0),
        offset: key(0.0),
    }];
    let r = go(&a, Some(f.clone()), fill("limit"), &["SP"], &mut FeeTables::new()).unwrap();
    assert!(r.split_feed);
    assert_eq!(r.exec_sources.sources_for("SP").len(), 2);
    assert_eq!(source_map_from(&f.exec_sources).sources_for("SP")[1].stem, "MES");
    assert!(feed_conflict(true, true).is_some());
    assert!(feed_conflict(true, false).is_none());
    assert!(feed_conflict(false, true).is_none());
}

#[test]
fn a_trader_is_built_as_the_run_says() {
    let reg = KnobRegistry::new();
    let table = vec![
        ("breakeven_r".to_string(), RawValue::Float(key(1.5))),
        ("fees".to_string(), RawValue::Boolean(false)),
        ("max_hold".to_string(), RawValue::Integer(42, key(42.0))),
    ];
    let mut a = args();
    a.config_strategy = Some("s.toml".to_string());
    let mut f = file();
    f.params = Params::from_table(&reg, &table, "s.toml").unwrap();
    let mut lens = fill("rest_on_ready");
    lens.past_entry_fee = "maker".to_string();
    lens.stop_gap_bps_asset = vec![("ES".to_string(), key(3.0))];
    let r = go(&a, Some(f), lens, &["Q"], &mut FeeTables::new()).unwrap();
    let pt = r.build_trader(&reg);
    assert_eq!(num(pt.knobs.breakeven_r), 1.5);
    assert!(!pt.knobs.use_fees);
    assert_eq!(pt.knobs.max_hold_candles, 42);
    assert!(pt.knobs.hybrid_fill && pt.knobs.rest_on_ready_fill && !pt.knobs.tick_fill);
    assert_eq!(pt.knobs.past_entry_fee, EntryFeeSide::Maker);
    assert_eq!(num(pt.knobs.account_size), 10000.0);
    assert_eq!(num(pt.gap_bps("MES")), 3.0);
    assert!(pt.trades.is_empty());
}

#[test]
fn seeding_keeps_what_is_set() {
    let reg = KnobRegistry::new();
    let table = vec![("rr".to_string(), RawValue::Float(key(9.0)))];
    let mut p = Params::from_table(&reg, &table, "x").unwrap();
    seed_args_from_registry(&reg, &mut p);
    assert_eq!(num(p.get_f64(&reg, "rr")), 9.0);
    assert_eq!(p.get_u32(&reg, "max_hold"), 300);
    assert!(p.is_set("max_hold"));
}

#[test]
fn streaming_interleaves_by_time_and_keeps_each_series() {
    let c = |asset: u16, min: i64, close: f64| Candle {
        asset,
        timeframe: 0,
        open: key(close),
        high: key(close),
        low: key(close),
        close: key(close),
        volume: 0,
        timestamp: min as i128 * MINUTE,
        complete: true,
    };
    let a = vec![c(0, 1, 1.0), c(0, 2, 2.0), c(0, 4, 3.0)];
    let b = vec![c(1, 0, 9.0), c(1, 2, 8.0), c(1, 3, 7.0)];
    let feed = streaming_feed(&vec![a.clone(), b.clone()]);
    let order: Vec<(u16, i128)> = feed.iter().map(|x| (x.asset, x.timestamp / MINUTE)).collect();
    assert_eq!(order, vec![(1, 0), (0, 1), (0, 2), (1, 2), (1, 3), (0, 4)]);
    let only = |asset: u16| -> Vec<Candle> {
        feed.iter().copied().filter(|x| x.asset == asset).collect()
    };
    assert_eq!(only(0), a);
    assert_eq!(only(1), b);
}

#[test]
fn a_label_names_factory_assets_and_candles() {
    assert_eq!(
        run_label("ma_crossover", &texts(&["BTC", "ETH"]), 1200),
        "ma_crossover | BTC, ETH | 1200 candles"
    );
}

#[test]
fn a_declared_contract_selects_its_flat_schedule() {
    let mut a = args();
    a.config_strategy = Some("s.toml".to_string());
    for (name, want) in
        [("futures", FeeSchedule::Futures), ("futures_full", FeeSchedule::FuturesFullSize)]
    {
        let mut tables = FeeTables::new();
        let mut f = file();
        f.contracts = vec![contract("ES", name)];
        go(&a, Some(f), fill("limit"), &["ES"], &mut tables).unwrap();
        assert_eq!(tables.schedule, want);
        assert!(contract_spec(&tables, "ES").is_some());
    }
    // A schedule that is named wins.
    a.fee_schedule = Some("spot".to_string());
    let mut tables = FeeTables::new();
    let mut f = file();
    f.contracts = vec![contract("ES", "futures")];
    go(&a, Some(f), fill("limit"), &["ES"], &mut tables).unwrap();
    assert_eq!(tables.schedule, FeeSchedule::Spot);
}

#[test]
fn a_lens_may_book_gapped_exits_at_the_open() {
    let mut tables = FeeTables::new();
    let mut lens = fill("limit");
    lens.exit_gap_at_open = true;
    let r = go(&args(), None, lens, &["ES"], &mut tables).unwrap();
    assert!(r.build_trader(&KnobRegistry::new()).knobs.exit_gap_at_open);
    let r = go(&args(), None, fill("limit"), &["ES"], &mut tables).unwrap();
    assert!(!r.build_trader(&KnobRegistry::new()).knobs.exit_gap_at_open);
}
