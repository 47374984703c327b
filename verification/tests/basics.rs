//! Small maps, texts, the calendar and ordering.
use backtest_engine::clock::{
    civil, date_stamp, instant, is_on_calendar, iso_stamp, seconds_between, shift, short_stamp,
    unix_millis, unix_seconds, FIRST_SECOND, LAST_SECOND, SECOND,
};
use backtest_engine::sort::stable_order;
use backtest_engine::strmap::StrMap;
use backtest_engine::text::{
    before_char, chars_of, contains_str, decimal_i64, join, sorted_unique, starts_with, str_eq,
    str_less, string_of, strip_suffix, to_lower, trim_start,
};
use backtest_engine::tfmap::TfMap;

fn texts(list: &[&str]) -> Vec<String> {
    list.iter().map(|s| s.to_string()).collect()
}

#[test]
fn a_string_map_maps_and_forgets() {
    let mut m: StrMap<i64> = StrMap::new();
    assert!(m.is_empty());
    m.insert("a".to_string(), 1);
    m.insert("b".to_string(), 2);
    m.insert("a".to_string(), 3);
    assert_eq!(m.get(&"a".to_string()), Some(3));
    assert_eq!(m.keys().len(), 2);
    assert_eq!(m.remove(&"a".to_string()), Some(3));
    assert_eq!(m.remove(&"a".to_string()), None);
    assert!(!m.contains(&"a".to_string()) && m.contains(&"b".to_string()));
    m.clear();
    assert!(m.is_empty());
}

#[test]
fn a_timeframe_map_holds_what_was_put() {
    let mut m: TfMap<i64> = TfMap::new();
    assert!(m.get(3).is_none());
    m.insert(3, 30);
    m.insert(60_000, 7);
    m.insert(3, 31);
    assert_eq!(m.get(3), Some(&31));
    assert_eq!(m.get(60_000), Some(&7));
    assert!(m.get(4).is_none());
}

#[test]
fn texts_are_taken_apart_and_put_together() {
    assert_eq!(string_of(&vec!['ä', 'b']), "äb");
    assert_eq!(chars_of("äb").len(), 2);
    assert!(str_eq("x", "x") && !str_eq("x", "X"));
    assert_eq!(to_lower("AbÄ"), "abÄ");
    assert!(contains_str("xyz:SP500", "SP") && !contains_str("SP", "SPX"));
    assert!(contains_str("abc", ""));
    assert!(starts_with("BTC_1m_x", "BTC_1m_"));
    assert_eq!(strip_suffix("a.parquet", ".parquet"), Some("a".to_string()));
    assert_eq!(strip_suffix("a.csv", ".parquet"), None);
    assert_eq!(before_char("BTC_1m", '_'), "BTC");
    assert_eq!(before_char("BTC", '_'), "BTC");
    assert_eq!(trim_start("MMES", 'M'), "ES");
    assert_eq!(join(&texts(&["a", "b", "c"]), ", "), "a, b, c");
    assert_eq!(decimal_i64(i64::MIN), "-9223372036854775808");
    assert_eq!(decimal_i64(1_203), "1203");
}

#[test]
fn texts_sort_as_a_dictionary_does() {
    assert!(str_less("A", "B") && str_less("A", "AA") && !str_less("b", "B"));
    let list = texts(&["b", "a", "ab", "b", "", "Z"]);
    let mut expected = list.clone();
    expected.sort();
    expected.dedup();
    assert_eq!(sorted_unique(&list), expected);
}

#[test]
fn equal_keys_keep_their_order() {
    let keys = vec![(2, 0), (1, 5), (2, 0), (1, 4), (1, 5)];
    assert_eq!(stable_order(&keys), vec![3, 1, 4, 0, 2]);
    assert!(stable_order(&Vec::new()).is_empty());
}

#[test]
fn instants_have_their_spellings() {
    let at = 1_772_600_767 * SECOND + 999_999_999;
    assert_eq!(iso_stamp(at), "2026-03-04T05:06:07");
    assert_eq!(short_stamp(at), "03-04 05:06");
    assert_eq!(date_stamp(at), "2026-03-04");
    assert_eq!(iso_stamp(-SECOND), "1969-12-31T23:59:59");
}

#[test]
fn seconds_round_down_and_spans_toward_zero() {
    assert_eq!(unix_seconds(instant(-1, 999_999_999)), -1);
    assert_eq!(unix_seconds(SECOND + 1), 1);
    assert_eq!(unix_millis(instant(-1, 999_999_999)), -1);
    assert_eq!(unix_millis(instant(1, 500_000_000)), 1_500);
    assert_eq!(seconds_between(0, instant(-2, 500_000_000)), -1);
    assert_eq!(seconds_between(0, instant(1, 500_000_000)), 1);
}

#[test]
fn instants_reach_over_the_whole_calendar() {
    assert_eq!(iso_stamp(instant(-9_223_372_800, 0)), "1677-09-21T00:00:00");
    assert_eq!(iso_stamp(instant(-30_610_224_000, 0)), "1000-01-01T00:00:00");
    assert_eq!(iso_stamp(instant(32_503_680_000, 0)), "3000-01-01T00:00:00");
    let (first, last) = (instant(FIRST_SECOND, 0), instant(LAST_SECOND, 1_999_999_999));
    assert_eq!(iso_stamp(first), "-262143-01-01T00:00:00");
    assert_eq!(iso_stamp(last), "+262142-12-31T23:59:60");
    assert!(is_on_calendar(first) && is_on_calendar(last));
    assert!(!is_on_calendar(first - 1) && !is_on_calendar(last + 1));
    assert_eq!(seconds_between(first, last), LAST_SECOND as i128 - FIRST_SECOND as i128 + 1);
}

#[test]
fn a_leap_second_stands_between_two_seconds() {
    // 2016-12-31T23:59:60.5
    let leap = instant(1_483_228_799, 1_500_000_000);
    let before = instant(1_483_228_799, 999_999_999);
    let after = instant(1_483_228_800, 0);
    assert!(before < leap && leap < after);
    assert_eq!(iso_stamp(leap), "2016-12-31T23:59:60");
    assert_eq!((unix_seconds(leap), unix_millis(leap)), (1_483_228_799, 1_483_228_800_500));
    assert_eq!(seconds_between(before, leap), 0);
    assert_eq!(seconds_between(instant(1_483_228_799, 0), leap), 1);
    assert_eq!(seconds_between(leap, instant(1_483_228_801, 0)), 0);
    // Within a day the leap second itself counts.
    let noon = instant(1_483_187_459, 1_500_000_000);
    assert_eq!(iso_stamp(noon), "2016-12-31T12:30:60");
    assert_eq!(seconds_between(noon, instant(1_483_187_461, 0)), 1);
    assert_eq!(seconds_between(instant(1_483_187_461, 0), noon), -1);
    assert_eq!(shift(leap, 60), instant(1_483_228_859, 500_000_000));
    assert_eq!(shift(leap, -60), instant(1_483_228_740, 500_000_000));
    // Only the last second of a minute can have one.
    assert!(!is_on_calendar(instant(1_483_228_798, 1_500_000_000)));
}

#[test]
fn time_passes_as_it_is_added() {
    let at = instant(1_772_600_767, 5);
    for secs in [0i64, 1, 60, 7_200, -1, -3_600, 90_000_000_000] {
        let then = shift(at, secs);
        assert_eq!(seconds_between(at, then), secs as i128);
        assert_eq!(seconds_between(then, at), -secs as i128);
        assert_eq!(shift(then, -secs), at);
    }
}

#[test]
fn the_calendar_of_a_known_second() {
    // 2026-03-04T05:06:07, a Wednesday of the tenth week.
    let c = civil(1_772_600_767);
    assert_eq!((c.week, c.month, c.hour, c.minute), (10, 3, 5, 6));
    // 2024-12-30 belongs to the first week of 2025.
    let c = civil(1_735_516_800);
    assert_eq!((c.week, c.month), (1, 12));
    // The second before the epoch.
    let c = civil(-1);
    assert_eq!((c.month, c.hour, c.minute), (12, 23, 59));
    // 3000-01-01 is a Wednesday.
    let c = civil(32_503_680_000);
    assert_eq!((c.week, c.month, c.hour), (1, 1, 0));
    // A second off the calendar reads as its first.
    let (first, off) = (civil(FIRST_SECOND), civil(i64::MAX));
    assert_eq!((off.week, off.month, off.hour), (first.week, first.month, first.hour));
}
