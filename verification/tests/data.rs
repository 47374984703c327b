//! Candle and tick files: columns, row groups, sources, merging, appending.
use backtest_engine::clock::{instant, MINUTE, SECOND};
use backtest_engine::data::columns::{
    bar_columns, choose_stamp, column_unit, find_col, missing_column, select_row_groups, stamp_of,
    text_stamp, tick_columns, Column, GroupStats, TimeColumn, Unit,
};
use backtest_engine::data::roll::{roll_splices, shift_plan, usual_jump};
use backtest_engine::data::rows::{
    check_after, check_rows, collector_schema, last_timestamp_us, latest, schema_compatible,
    AppendError, CandleRow, ColumnKind, FieldSpec,
};
use backtest_engine::data::series::{file_candles, file_ticks, merge_candles, sort_ticks};
use backtest_engine::data::sources::{
    asset_in, discover_files_for_asset, discover_parquet_files, files_for_stem, load_list,
    main_name, tick_candidates, tick_file_for_stem, tick_stems, DataSource, FoundFile, Listing,
    SourceMap,
};
use backtest_engine::key::{bits_of_key, key_of_bits};
use backtest_engine::models::{set_base_interval, Candle, Names, Tick};

fn key(x: f64) -> i64 {
    key_of_bits(x.to_bits()).unwrap()
}

fn num(k: i64) -> f64 {
    f64::from_bits(bits_of_key(k))
}

fn texts(list: &[&str]) -> Vec<String> {
    list.iter().map(|s| s.to_string()).collect()
}

// ─── Rolls ───────────────────────────────────────────────────────────────────

/// 2025-01-01
const T0: i128 = 1_735_689_600;

/// A flat 1m series over `days` UTC days with a small regular wobble,
/// plus a jump of `gap` applied from `roll_at` onward.
fn series(days: i64, roll_at: i128, gap: f64) -> Vec<Candle> {
    (0..days * 1440)
        .map(|i| {
            let ts = T0 * SECOND + i as i128 * MINUTE;
            let wobble = if i % 2 == 0 { 0.1 } else { -0.1 };
            let base = 100.0 + wobble + if ts >= roll_at { gap } else { 0.0 };
            Candle {
                asset: 0,
                timeframe: 0,
                open: key(base),
                high: key(base + 0.2),
                low: key(base - 0.2),
                close: key(base + 0.05),
                volume: key(1.0),
                timestamp: ts,
                complete: true,
            }
        })
        .collect()
}

fn roll_adjust(candles: &mut Vec<Candle>, max_gap_secs: i64) -> usize {
    let mut jumps = vec![0];
    for w in candles.windows(2) {
        jumps.push(key((num(w[1].open) - num(w[0].close)).abs()));
    }
    jumps.truncate(candles.len());
    let threshold = match usual_jump(candles, &jumps, max_gap_secs) {
        Some(j) => key_of_bits((4.0 * num(j)).to_bits()),
        None => None,
    };
    let splices = roll_splices(candles, &jumps, max_gap_secs, threshold);
    let mut offsets = vec![0.0; splices.len() + 1];
    for s in (0..splices.len()).rev() {
        let i = splices[s];
        offsets[s] = offsets[s + 1] + (num(candles[i].open) - num(candles[i - 1].close));
    }
    for (i, s) in shift_plan(candles.len(), &splices).into_iter().enumerate() {
        let offset = offsets[s];
        if offset != 0.0 {
            let c = &mut candles[i];
            c.open = key(num(c.open) + offset);
            c.high = key(num(c.high) + offset);
            c.low = key(num(c.low) + offset);
            c.close = key(num(c.close) + offset);
        }
    }
    splices.len()
}

#[test]
fn a_midnight_jump_is_removed_and_earlier_bars_shifted() {
    let roll = (T0 + 2 * 86_400) * SECOND;
    let mut c = series(5, roll, 40.0);
    let before_last = c.last().unwrap().close;
    let n = roll_adjust(&mut c, 600);
    assert_eq!(n, 1);
    // Anchored at the latest prices: the tail is untouched.
    assert_eq!(c.last().unwrap().close, before_last);
    // Earlier bars were lifted by the gap, so the series is continuous.
    // The measured gap is open-after minus close-before: 140.1 - 99.95.
    assert!(
        (num(c[0].open) - (100.1 + 40.15)).abs() < 1e-9,
        "got {}",
        num(c[0].open)
    );
    let max_jump = c
        .windows(2)
        .map(|w| (num(w[1].open) - num(w[0].close)).abs())
        .fold(0.0, f64::max);
    assert!(max_jump < 1.0, "residual jump {max_jump}");
}

#[test]
fn a_midday_jump_is_a_market_move_and_stays() {
    let mid = (T0 + 2 * 86_400 + 12 * 3600) * SECOND;
    let mut c = series(5, mid, 40.0);
    let first = c[0].open;
    assert_eq!(roll_adjust(&mut c, 600), 0);
    assert_eq!(c[0].open, first);
}

#[test]
fn short_series_are_left_alone() {
    let roll = (T0 + 3600) * SECOND;
    let mut c = series(5, roll, 40.0);
    c.truncate(100);
    assert_eq!(roll_adjust(&mut c, 600), 0);
}

#[test]
fn a_jump_after_a_pause_is_no_roll() {
    let roll = (T0 + 2 * 86_400) * SECOND;
    let mut c = series(5, roll, 40.0);
    // A half-hour pause over midnight.
    c.retain(|b| b.timestamp < roll || b.timestamp >= roll + 30 * MINUTE);
    assert_eq!(roll_adjust(&mut c, 600), 0);
}

#[test]
fn shifts_count_the_rolls_that_lie_ahead() {
    assert_eq!(shift_plan(6, &vec![2, 4]), vec![0, 0, 1, 1, 2, 2]);
    assert_eq!(shift_plan(2, &Vec::new()), vec![0, 0]);
}

// ─── Appending ───────────────────────────────────────────────────────────────

fn row(ts_us: i64, base: f64) -> CandleRow {
    CandleRow {
        timestamp_us: ts_us,
        open: key(base),
        high: key(base + 1.0),
        low: key(base - 1.0),
        close: key(base + 0.5),
        volume: key(10.0),
    }
}

/// A file as a list of row groups, appended to as a file is.
fn append(groups: &mut Vec<Vec<CandleRow>>, rows: &Vec<CandleRow>) -> Result<(), AppendError> {
    if rows.is_empty() {
        return Ok(());
    }
    check_rows(rows)?;
    let held: Vec<i64> = groups.iter().flatten().map(|r| r.timestamp_us).collect();
    check_after(rows, latest(&held))?;
    let history: Vec<CandleRow> = groups.iter().flatten().copied().collect();
    groups.clear();
    if !history.is_empty() {
        groups.push(history);
    }
    groups.push(rows.clone());
    Ok(())
}

fn stats(groups: &[Vec<CandleRow>]) -> Vec<GroupStats> {
    groups
        .iter()
        .map(|g| GroupStats {
            min: g.iter().map(|r| r.timestamp_us).min(),
            max: g.iter().map(|r| r.timestamp_us).max(),
        })
        .collect()
}

#[test]
fn append_rejects_backward_timestamp() {
    let mut file = Vec::new();
    append(&mut file, &vec![row(1_000_000_060_000, 100.0)]).unwrap();
    // Earlier timestamp must be rejected.
    let err = append(&mut file, &vec![row(1_000_000_000_000, 99.0)]).unwrap_err();
    assert_eq!(err, AppendError::NotAfter { first: 1_000_000_000_000, last: 1_000_000_060_000 });
    // Same timestamp must also be rejected.
    let err = append(&mut file, &vec![row(1_000_000_060_000, 99.0)]).unwrap_err();
    assert_eq!(
        err.message(),
        "append_row_group: first input row ts=1000000060000 not greater than existing max ts=1000000060000"
    );
}

#[test]
fn append_rejects_non_monotonic_input() {
    let mut file = Vec::new();
    let bad = vec![row(2, 1.0), row(1, 2.0)];
    let err = append(&mut file, &bad).unwrap_err();
    assert_eq!(
        err.message(),
        "append_row_group: input rows not strictly increasing (1 <= 2)"
    );
    let same = vec![row(-5, 1.0), row(-5, 2.0)];
    assert_eq!(
        check_rows(&same).unwrap_err().message(),
        "append_row_group: input rows not strictly increasing (-5 <= -5)"
    );
}

#[test]
fn last_timestamp_returns_max() {
    assert!(last_timestamp_us(&Vec::new(), &Vec::new()).is_none());
    let mut file = Vec::new();
    append(&mut file, &vec![row(1_000_000_000_000, 100.0)]).unwrap();
    append(&mut file, &vec![row(1_000_000_060_000, 101.0)]).unwrap();
    let maxes: Vec<Option<i64>> = stats(&file).iter().map(|s| s.max).collect();
    assert_eq!(last_timestamp_us(&maxes, &Vec::new()), Some(1_000_000_060_000));
    // Without statistics the last row group is scanned.
    let scanned = vec![7, 9, 8];
    assert_eq!(last_timestamp_us(&vec![None, None], &scanned), Some(9));
    // The last row group is scanned wherever its own statistics are missing.
    assert_eq!(last_timestamp_us(&vec![Some(5), None], &scanned), Some(9));
    assert_eq!(last_timestamp_us(&vec![None, Some(9)], &Vec::new()), Some(9));
}

#[test]
fn tail_filter_skips_old_row_groups() {
    // 5 row groups, one minute apart.
    let first = 1_000_000_000_000_000i64;
    let groups: Vec<Vec<CandleRow>> =
        (0..5i64).map(|i| vec![row(first + i * 60_000_000, 100.0 + i as f64)]).collect();
    // Filter to the last 2 minutes — should drop the first 3 row groups.
    let start = stamp_of(Unit::Micros, Some(first + 3 * 60_000_000)).unwrap();
    let keep = select_row_groups(&stats(&groups), Some(Unit::Micros), Some(start), None);
    assert_eq!(keep, vec![3, 4]);
    let end = start + 30 * SECOND;
    assert_eq!(select_row_groups(&stats(&groups), Some(Unit::Micros), Some(start), Some(end)), vec![3]);
    // No time column, or no statistics: everything is decoded.
    assert_eq!(select_row_groups(&stats(&groups), None, Some(start), None).len(), 5);
    let blind = vec![GroupStats { min: None, max: None }; 2];
    assert_eq!(select_row_groups(&blind, Some(Unit::Micros), Some(start), Some(end)), vec![0, 1]);
}

#[test]
fn only_candle_files_are_appended_to() {
    let good = collector_schema();
    assert!(schema_compatible(&good));
    let mut other = collector_schema();
    other[5].kind = ColumnKind::Other;
    assert!(!schema_compatible(&other));
    let mut renamed = collector_schema();
    renamed[0].name = "Timestamp".to_string();
    assert!(!schema_compatible(&renamed));
    let mut longer = collector_schema();
    longer.push(FieldSpec { name: "side".to_string(), kind: ColumnKind::Other });
    assert!(!schema_compatible(&longer));
}

// ─── Columns and timestamps ──────────────────────────────────────────────────

#[test]
fn columns_go_by_several_names() {
    let f = texts(&["Date", "O", "High", "l", "CLOSE", "TS"]);
    // "ts" is preferred over "date", wherever they stand.
    assert_eq!(find_col(&f, Column::Time), Some(5));
    let b = bar_columns(&f).unwrap();
    assert_eq!((b.time, b.open, b.high, b.low, b.close, b.volume), (5, 1, 2, 3, 4, None));
    assert_eq!(bar_columns(&texts(&["ts", "o", "h", "l"])).unwrap_err(), Column::Close);
    assert_eq!(missing_column(Column::Close), "No close column");
    // Row groups are chosen by the column that the times are read from, not by
    // the first that could be one.
    assert_eq!(find_col(&texts(&["date", "open", "Timestamp"]), Column::Time), Some(2));
    assert_eq!(find_col(&texts(&["open"]), Column::Time), None);
}

#[test]
fn tick_columns_need_a_time_and_a_price() {
    let t = tick_columns(&texts(&["side", "px", "sz", "time"])).unwrap();
    assert_eq!((t.time, t.price, t.size, t.side), (3, 1, Some(2), Some(0)));
    assert_eq!(tick_columns(&texts(&["px"])).unwrap_err(), Column::TickTime);
    assert_eq!(tick_columns(&texts(&["ts"])).unwrap_err(), Column::TickPrice);
}

#[test]
fn values_are_instants_by_unit() {
    assert_eq!(stamp_of(Unit::Seconds, Some(2)), Some(2 * SECOND));
    assert_eq!(stamp_of(Unit::Millis, Some(1_500)), Some(instant(1, 500_000_000)));
    assert_eq!(stamp_of(Unit::Micros, Some(7)), Some(7_000));
    assert_eq!(stamp_of(Unit::Nanos, None), Some(0));
    assert_eq!(stamp_of(Unit::Millis, Some(-2_000)), Some(-2 * SECOND));
    assert_eq!(stamp_of(Unit::Millis, Some(-1_500)), Some(instant(-2, 500_000_000)));
    assert_eq!(stamp_of(Unit::Nanos, Some(-1)), Some(instant(-1, 999_999_999)));
    assert_eq!(stamp_of(Unit::Seconds, Some(i64::MAX)), None);
    // Beyond what nanoseconds in a machine word reach.
    assert_eq!(stamp_of(Unit::Seconds, Some(32_503_680_000)), Some(32_503_680_000 * SECOND));
    assert_eq!(stamp_of(Unit::Millis, Some(-30_610_224_000_000)), Some(-30_610_224_000 * SECOND));
    assert_eq!(stamp_of(Unit::Micros, Some(8_000_000_000_000_000_001)), Some(instant(8_000_000_000_000, 1_000)));
}

#[test]
fn texts_are_instants_in_two_spellings() {
    assert_eq!(text_stamp("1970-01-02T00:00:01"), 86_401 * SECOND);
    assert_eq!(text_stamp("1970-01-02 00:00:02"), 86_402 * SECOND);
    assert_eq!(text_stamp("yesterday"), 0, "what does not read is the epoch");
    assert_eq!(choose_stamp(Some((5, 1)), Some((6, 0))), 5 * SECOND + 1);
    assert_eq!(choose_stamp(None, Some((6, 0))), 6 * SECOND);
    assert_eq!(choose_stamp(None, None), 0);
    assert_eq!(text_stamp("1000-01-01T00:00:00"), -30_610_224_000 * SECOND);
    assert_eq!(text_stamp("3000-01-01 00:00:00"), 32_503_680_000 * SECOND);
    // A leap second keeps its place between the seconds around it.
    assert_eq!(text_stamp("2016-12-31T23:59:60"), instant(1_483_228_799, 1_000_000_000));
}

// ─── Series ──────────────────────────────────────────────────────────────────

fn at(min: i64, close: f64) -> Candle {
    Candle {
        asset: 0,
        timeframe: 0,
        open: key(close),
        high: key(close),
        low: key(close),
        close: key(close),
        volume: 0,
        timestamp: min as i128 * MINUTE,
        complete: true,
    }
}

#[test]
fn the_first_source_of_a_time_wins() {
    let all = vec![at(3, 1.0), at(1, 2.0), at(3, 9.0), at(2, 4.0), at(1, 8.0)];
    let merged = merge_candles(&all);
    let got: Vec<(i128, f64)> =
        merged.iter().map(|c| (c.timestamp / MINUTE, num(c.close))).collect();
    assert_eq!(got, vec![(1, 2.0), (2, 4.0), (3, 1.0)]);
}

#[test]
fn a_file_is_trimmed_and_sorted() {
    let rows = vec![at(5, 5.0), at(2, 2.0), at(4, 4.0), at(4, 4.5), at(9, 9.0)];
    let got = file_candles(&rows, Some(3 * MINUTE), Some(5 * MINUTE));
    let closes: Vec<f64> = got.iter().map(|c| num(c.close)).collect();
    assert_eq!(closes, vec![4.0, 4.5, 5.0], "both bounds included, ties in file order");
}

fn tick(ms: i64, price: f64) -> Tick {
    let timestamp = stamp_of(Unit::Millis, Some(ms)).unwrap();
    Tick { timestamp, price: key(price), size: key(1.0), side: 0 }
}

#[test]
fn ticks_are_trimmed_sorted_and_never_dropped() {
    let rows = vec![tick(30, 3.0), tick(10, 1.0), tick(10, 1.5), tick(50, 5.0)];
    let got = file_ticks(&rows, None, Some(30_000_000));
    let prices: Vec<f64> = got.iter().map(|t| num(t.price)).collect();
    assert_eq!(prices, vec![1.0, 1.5, 3.0]);
    assert_eq!(sort_ticks(&rows).len(), 4);
}

// ─── Sources ─────────────────────────────────────────────────────────────────

fn listing(dir: &str, has_main: bool, names: &[&str]) -> Listing {
    Listing { dir: dir.to_string(), has_main, names: texts(names) }
}

#[test]
fn a_stem_has_a_main_file_and_dated_shards() {
    let l = vec![
        listing("data", true, &["BTC_1m.parquet", "BTC_1m_2024.parquet", "BTC_5m_x.parquet", "BTC_1m_notes.txt"]),
        listing("old/", false, &["BTC_1m_2023.parquet", "ETH_1m.parquet"]),
        listing("data", true, &["BTC_1m_2024.parquet"]),
    ];
    assert_eq!(
        files_for_stem("BTC", "1m", &l),
        texts(&["data/BTC_1m.parquet", "data/BTC_1m_2024.parquet", "old/BTC_1m_2023.parquet"])
    );
    assert_eq!(main_name("BTC", "1h"), "BTC_1h.parquet");
    let mut names = Names::new();
    assert_eq!(discover_files_for_asset(&names, "BTC", &l).len(), 3);
    set_base_interval(&mut names, "5m");
    assert_eq!(
        discover_files_for_asset(&names, "BTC", &l),
        texts(&["data/BTC_5m.parquet", "data/BTC_5m_x.parquet"])
    );
}

#[test]
fn an_override_replaces_the_sources_wholesale() {
    let mut m = SourceMap::new();
    assert!(m.is_empty());
    let own = m.sources_for("BTC");
    assert_eq!(own.len(), 1);
    assert_eq!(own[0].stem, "BTC");
    assert!(own[0].is_identity());
    m.insert("BTC", vec![DataSource::identity("A")]);
    let donor = DataSource { stem: "B".to_string(), scale: key(2.0), offset: key(1.0) };
    m.insert("BTC", vec![DataSource::identity("BTC"), donor]);
    assert!(!m.is_empty());
    let s = m.sources_for("BTC");
    assert_eq!(s.len(), 2);
    assert!(!s[1].is_identity());
    assert_eq!(tick_stems(&m, "BTC", "1m"), texts(&["BTC", "B", "BTC_1m"]));
    m.insert("ETH", vec![DataSource::identity("E")]);
    assert_eq!(tick_stems(&m, "ETH", "1m"), texts(&["E", "ETH", "ETH_1m"]));
    m.insert("SOL", vec![DataSource::identity("SOL_1m")]);
    assert_eq!(tick_stems(&m, "SOL", "1m"), texts(&["SOL_1m", "SOL"]), "no stem twice");
}

#[test]
fn a_file_is_loaded_for_its_first_source_only() {
    let paths = vec![texts(&["a", "b"]), texts(&["b", "c"]), texts(&["a"])];
    let got: Vec<(usize, String)> =
        load_list(&paths).into_iter().map(|f| (f.source, f.path)).collect();
    assert_eq!(
        got,
        vec![(0, "a".to_string()), (0, "b".to_string()), (1, "c".to_string())]
    );
}

#[test]
fn tick_files_are_looked_for_nested_then_flat() {
    let dirs = texts(&["data", "more"]);
    let places = tick_candidates("BTC", &dirs);
    assert_eq!(
        places,
        texts(&[
            "data/ticks/BTC_ticks.parquet",
            "data/BTC_ticks.parquet",
            "more/ticks/BTC_ticks.parquet",
            "more/BTC_ticks.parquet",
        ])
    );
    let there = vec![false, true, true, false];
    assert_eq!(
        tick_file_for_stem("BTC", &dirs, &there),
        Some("data/BTC_ticks.parquet".to_string())
    );
    assert_eq!(tick_file_for_stem("BTC", &dirs, &vec![false; 4]), None);
}

#[test]
fn the_largest_file_speaks_for_its_asset() {
    let f = |name: &str, rows: usize| FoundFile {
        path: format!("d/{name}"),
        name: name.to_string(),
        rows,
    };
    let found = vec![
        f("ETH_1m.parquet", 5),
        f("BTC_1m.parquet", 7),
        f("BTC_1m_2023.parquet", 9),
        f("BTC_1m_2024.parquet", 9),
        f("SOL_1h.parquet", 99),
        f("_1m.parquet", 99),
        f("readme.txt", 99),
    ];
    let got: Vec<(String, String)> = discover_parquet_files(&found, "1m")
        .into_iter()
        .map(|a| (a.asset, a.path))
        .collect();
    assert_eq!(
        got,
        vec![
            ("BTC".to_string(), "d/BTC_1m_2023.parquet".to_string()),
            ("ETH".to_string(), "d/ETH_1m.parquet".to_string()),
        ]
    );
    assert_eq!(asset_in("xyz:SP500_1m.parquet", "1m"), Some("xyz:SP500".to_string()));
    assert_eq!(asset_in("BTC.parquet", "1m"), None);
}

#[test]
fn a_tick_file_may_carry_the_base_interval() {
    let dirs = texts(&["data"]);
    let stems = tick_stems(&SourceMap::new(), "ES", "1m");
    assert_eq!(stems, texts(&["ES", "ES_1m"]));
    assert_eq!(
        tick_candidates(&stems[1], &dirs),
        texts(&["data/ticks/ES_1m_ticks.parquet", "data/ES_1m_ticks.parquet"])
    );
    assert_eq!(
        tick_file_for_stem(&stems[1], &dirs, &vec![false, true]),
        Some("data/ES_1m_ticks.parquet".to_string())
    );
}

#[test]
fn plain_numbers_count_milliseconds_in_rows_and_statistics() {
    assert_eq!(column_unit(TimeColumn::Stamps(Unit::Nanos)), Some(Unit::Nanos));
    assert_eq!(column_unit(TimeColumn::Text), None);
    let unit = column_unit(TimeColumn::Plain);
    assert_eq!(unit, Some(Unit::Millis));
    // A group of plain milliseconds around the epoch's second day.
    let groups = vec![GroupStats { min: Some(86_400_000), max: Some(86_460_000) }];
    let start = 86_400 * SECOND;
    assert_eq!(select_row_groups(&groups, unit, Some(start), None), vec![0]);
    assert_eq!(
        select_row_groups(&groups, unit, Some(start + 3_600 * SECOND), None),
        Vec::<usize>::new()
    );
}
