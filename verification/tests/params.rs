//! The knob registry and the bag of settings.
use backtest_engine::key::{bits_of_key, key_of_bits};
use backtest_engine::params::bag::{split_once, Params, RawItem, RawValue};
use backtest_engine::params::distance::edit_distance;
use backtest_engine::params::registry::{
    all_knobs, clear_registered_knobs, nearest_hint, register_knobs, spec_of, KnobRegistry,
};
use backtest_engine::params::value::{Kind, Knob, Value};

fn key(x: f64) -> i64 {
    key_of_bits(x.to_bits()).unwrap()
}

fn num(k: i64) -> f64 {
    f64::from_bits(bits_of_key(k))
}

fn knob(name: &str, kind: Kind, default: Value, doc: &str) -> Knob {
    Knob { name: name.to_string(), kind, default, doc: doc.to_string() }
}

fn plugin_knobs() -> Vec<Knob> {
    vec![
        knob("plug_depth", Kind::U32, Value::U32(7), "A strategy-declared knob."),
        knob("plug_ratio", Kind::F64, Value::F64(key(0.5)), "Another one."),
    ]
}

fn raw(v: &toml::Value) -> RawValue {
    match v {
        toml::Value::String(s) => RawValue::Text(s.clone()),
        toml::Value::Integer(i) => RawValue::Integer(*i, key(*i as f64)),
        toml::Value::Float(f) => RawValue::Float(key(*f)),
        toml::Value::Boolean(b) => RawValue::Boolean(*b),
        toml::Value::Datetime(_) => RawValue::Datetime,
        toml::Value::Array(a) => RawValue::List(
            a.iter()
                .map(|x| match x {
                    toml::Value::String(s) => RawItem::Text(s.clone()),
                    toml::Value::Integer(i) => RawItem::Integer(*i),
                    _ => RawItem::Other,
                })
                .collect(),
        ),
        toml::Value::Table(_) => RawValue::Table,
    }
}

fn table(toml_src: &str) -> Vec<(String, RawValue)> {
    toml_src
        .parse::<toml::Value>()
        .unwrap()
        .as_table()
        .unwrap()
        .iter()
        .map(|(k, v)| (k.clone(), raw(v)))
        .collect()
}

fn load(reg: &KnobRegistry, toml_src: &str, src: &str) -> Result<Params, String> {
    Params::from_table(reg, &table(toml_src), src)
}

fn numbers(p: &Params, reg: &KnobRegistry, name: &str) -> Vec<Option<i64>> {
    p.get_asset_pairs(reg, name)
        .iter()
        .map(|(_, v)| v.parse::<f64>().ok().map(key))
        .collect()
}

#[test]
fn registered_knobs_validate_and_default_like_builtin_ones() {
    let mut reg = KnobRegistry::new();
    // Before registration: unknown, and a hard error.
    assert!(spec_of(&reg, "plug_depth").is_none());
    assert!(load(&reg, "plug_depth = 3", "t").is_err());

    register_knobs(&mut reg, &plugin_knobs()).unwrap();
    let p = load(&reg, "plug_depth = 3", "t").unwrap();
    assert_eq!(p.get_u32(&reg, "plug_depth"), 3);
    // Unset resolves to the declared default, same as a built-in.
    assert_eq!(num(p.get_f64(&reg, "plug_ratio")), 0.5);
    assert!(!p.is_set("plug_ratio"));
    // Wrong type is still a hard error.
    assert!(load(&reg, "plug_ratio = \"x\"", "t").is_err());
    // Typo hints see strategy knobs too.
    let err = load(&reg, "plug_dept = 3", "t").unwrap_err();
    assert!(err.contains("plug_depth"), "got: {err}");
    // Registering the same slice again is a no-op.
    register_knobs(&mut reg, &plugin_knobs()).unwrap();
    assert_eq!(
        all_knobs(&reg)
            .iter()
            .filter(|k| k.name == "plug_depth")
            .count(),
        1
    );
    clear_registered_knobs(&mut reg);
    assert!(spec_of(&reg, "plug_depth").is_none());
}

#[test]
fn a_strategy_knob_may_not_shadow_a_builtin() {
    let mut reg = KnobRegistry::new();
    let clash = vec![knob("rr", Kind::F64, Value::F64(key(9.0)), "Redefines rr.")];
    let err = register_knobs(&mut reg, &clash).unwrap_err();
    assert!(err.contains("collides"), "got: {err}");
    match spec_of(&reg, "rr").unwrap().default {
        Value::F64(x) => assert_eq!(num(x), 2.0),
        other => panic!("rr is a number, got {other:?}"),
    }
}

#[test]
fn a_knob_may_not_be_redefined() {
    let mut reg = KnobRegistry::new();
    register_knobs(&mut reg, &plugin_knobs()).unwrap();
    let other = vec![knob("plug_depth", Kind::U32, Value::U32(8), "Another default.")];
    assert!(register_knobs(&mut reg, &other).is_err());
    match spec_of(&reg, "plug_depth").unwrap().default {
        Value::U32(n) => assert_eq!(n, 7),
        other => panic!("plug_depth is a count, got {other:?}"),
    }
}

#[test]
fn registry_names_are_unique() {
    let mut seen = std::collections::HashSet::new();
    for k in all_knobs(&KnobRegistry::new()) {
        assert!(seen.insert(k.name.clone()), "duplicate knob: {}", k.name);
    }
    assert_eq!(seen.len(), 36);
}

#[test]
fn registered_defaults_match_their_declared_kind() {
    for k in all_knobs(&KnobRegistry::new()) {
        assert_eq!(
            k.default.kind(),
            k.kind,
            "knob {} default is a different type than its declared kind",
            k.name
        );
    }
}

#[test]
fn unset_keys_read_their_registered_default() {
    let reg = KnobRegistry::new();
    let p = Params::new();
    assert!(!p.get_bool(&reg, "cancel_on_target_consumed"));
    assert_eq!(num(p.get_f64(&reg, "rr")), 2.0);
    assert_eq!(p.get_u32(&reg, "max_hold"), 300);
    assert_eq!(p.get_str(&reg, "entry_fill_mode"), "limit");
    assert!(p.get_vec_str(&reg, "stop_gap_bps_asset").is_empty());
    assert_eq!(p.get_i64(&reg, "rest_min_lead_secs"), 60);
}

#[test]
fn unknown_key_is_a_hard_error() {
    // The property everything else rests on: a typo must FAIL loudly, never
    // be silently ignored.
    let reg = KnobRegistry::new();
    let err = load(&reg, "min_scor = 5.0", "typo.toml").unwrap_err();
    assert!(err.contains("unknown [strategy] key"), "got: {err}");
    assert!(err.contains("min_scor"), "got: {err}");
    // And it points at the key it probably meant.
    assert!(err.contains("min_score"), "got: {err}");
}

#[test]
fn wrong_type_is_a_hard_error() {
    let reg = KnobRegistry::new();
    let err = load(&reg, "rr = \"two\"", "bad.toml").unwrap_err();
    assert!(err.contains("expects F64"), "got: {err}");
    let err2 = load(&reg, "race_maker_first = 1", "bad2.toml").unwrap_err();
    assert!(err2.contains("expects Bool"), "got: {err2}");
    assert_eq!(
        err2,
        "strategy config bad2.toml: [strategy] key \"race_maker_first\" expects Bool, got integer"
    );
}

#[test]
fn integer_literals_read_as_floats() {
    // A config writing `rr = 3` and `l2_max_staleness_s = 90` must land on
    // the float knobs without complaint.
    let reg = KnobRegistry::new();
    let p = load(&reg, "rr = 3\nl2_max_staleness_s = 90", "x.toml").unwrap();
    assert_eq!(num(p.get_f64(&reg, "rr")), 3.0);
    assert_eq!(num(p.get_f64(&reg, "l2_max_staleness_s")), 90.0);
}

#[test]
fn float_does_not_silently_truncate_into_an_integer_knob() {
    let err = load(&KnobRegistry::new(), "max_hold = 180.5", "x.toml").unwrap_err();
    assert!(err.contains("expects U32"), "got: {err}");
}

#[test]
fn overlay_is_child_wins_per_key() {
    let reg = KnobRegistry::new();
    let mut base = load(
        &reg,
        "min_score = 5.0\nrace_maker_first = true\nbreakeven_r = 1.5",
        "base.toml",
    )
    .unwrap();
    let child = load(&reg, "race_maker_first = false", "child.toml").unwrap();
    base.overlay(&child);
    assert!(!base.get_bool(&reg, "race_maker_first"), "child wins");
    assert_eq!(num(base.get_f64(&reg, "min_score")), 5.0, "unmentioned key inherited");
    assert_eq!(num(base.get_f64(&reg, "breakeven_r")), 1.5);
}

#[test]
fn overlay_replaces_lists_wholesale_never_concatenates() {
    let reg = KnobRegistry::new();
    let mut base = load(&reg, "stop_gap_bps_asset = [\"A:1\", \"B:2\"]", "b").unwrap();
    let child = load(&reg, "stop_gap_bps_asset = [\"C:3\"]", "c").unwrap();
    base.overlay(&child);
    assert_eq!(base.get_vec_str(&reg, "stop_gap_bps_asset"), vec!["C:3"]);
}

#[test]
fn is_set_distinguishes_unset_from_default_valued() {
    let p = load(&KnobRegistry::new(), "min_score = 0.0", "x").unwrap();
    assert!(
        p.is_set("min_score"),
        "explicitly set, even to the default value"
    );
    assert!(!Params::new().is_set("min_score"));
}

#[test]
fn sentinel_options_round_trip() {
    // `risk_usd` registers a negative sentinel because "unset" is
    // semantically distinct from any real value: a driver that needs a
    // size and finds None should refuse to run, not invent one.
    let reg = KnobRegistry::new();
    let p = Params::new();
    assert_eq!(p.get_opt_f64(&reg, "risk_usd", key(-1.0)), None);
    let p2 = load(&reg, "risk_usd = 25", "x").unwrap();
    assert_eq!(p2.get_opt_f64(&reg, "risk_usd", key(-1.0)), Some(key(25.0)));
}

#[test]
fn every_registered_default_is_readable_through_its_typed_accessor() {
    // Guards the failure mode where a knob's declared Kind and the
    // accessor callers actually use drift apart.
    let reg = KnobRegistry::new();
    let p = Params::new();
    for k in all_knobs(&reg) {
        match k.kind {
            Kind::Bool => {
                p.get_bool(&reg, &k.name);
            }
            Kind::F64 => {
                p.get_f64(&reg, &k.name);
            }
            Kind::U32 => {
                p.get_u32(&reg, &k.name);
            }
            Kind::I64 => {
                p.get_i64(&reg, &k.name);
            }
            Kind::Str => {
                p.get_str(&reg, &k.name);
            }
            Kind::VecStr => {
                p.get_vec_str(&reg, &k.name);
            }
            Kind::VecU32 => {
                p.get_vec_u32(&reg, &k.name);
            }
        }
    }
}

#[test]
fn every_knob_documents_itself() {
    // A registry row is also the knob's documentation; an empty doc string
    // would ship a knob nobody can find out the meaning of.
    for k in all_knobs(&KnobRegistry::new()) {
        assert!(!k.doc.trim().is_empty(), "knob {} has no doc string", k.name);
        assert!(k.doc.len() > 20, "knob {} has a uselessly short doc", k.name);
    }
}

#[test]
fn context_default_fees_only_fills_an_unset_key() {
    let reg = KnobRegistry::new();
    let mut replay = Params::new();
    replay.apply_context_default_fees(true);
    assert!(replay.get_bool(&reg, "fees"), "backtest defaults fees ON");

    let mut live = Params::new();
    live.apply_context_default_fees(false);
    assert!(!live.get_bool(&reg, "fees"), "non-backtest defaults fees OFF");

    let mut explicit = load(&reg, "fees = false", "x").unwrap();
    explicit.apply_context_default_fees(true);
    assert!(!explicit.get_bool(&reg, "fees"), "explicit value survives");
}

#[test]
fn asset_map_parsing_drops_malformed_entries() {
    let reg = KnobRegistry::new();
    let name = "stop_gap_bps_asset";
    let p = load(&reg, "stop_gap_bps_asset = [\"AAA:0.25\", \"BBB:0.5\"]", "x").unwrap();
    let m = p.get_asset_map(&reg, name, &numbers(&p, &reg, name));
    assert_eq!(m.get(&"AAA".to_string()), Some(key(0.25)));
    assert_eq!(m.get(&"BBB".to_string()), Some(key(0.5)));
    // A value that does not parse as a float is DROPPED, never defaulted —
    // a typo disables one override rather than silently installing a
    // number nobody wrote.
    let p2 = load(&reg, "stop_gap_bps_asset = [\"AAA:bad\", \"BBB:1.5\"]", "x").unwrap();
    let m2 = p2.get_asset_map(&reg, name, &numbers(&p2, &reg, name));
    assert_eq!(
        m2.get(&"AAA".to_string()),
        None,
        "malformed entry dropped, not defaulted"
    );
    assert_eq!(m2.get(&"BBB".to_string()), Some(key(1.5)));
    assert_eq!(m2.keys(), vec!["BBB".to_string()]);
}

#[test]
fn asset_map_splits_on_the_first_colon() {
    // A namespaced asset name keeps only its prefix as the KEY, and the
    // rest is read as the value.
    let reg = KnobRegistry::new();
    let name = "stop_gap_bps_asset";
    let p = load(&reg, "stop_gap_bps_asset = [\"ns:AAA\"]", "x").unwrap();
    // "ns" -> "AAA" does not parse as a float, so the entry drops.
    assert!(p.get_asset_map(&reg, name, &numbers(&p, &reg, name)).is_empty());
    assert_eq!(
        split_once("ns:AAA:1", ':'),
        Some(("ns".to_string(), "AAA:1".to_string()))
    );
}

#[test]
fn asset_pairs_parsing() {
    let reg = KnobRegistry::new();
    let p = load(&reg, "stop_gap_bps_asset = [\"AAA:one\", \"BBB:two\"]", "x").unwrap();
    assert_eq!(
        p.get_asset_pairs(&reg, "stop_gap_bps_asset"),
        vec![
            ("AAA".to_string(), "one".to_string()),
            ("BBB".to_string(), "two".to_string())
        ]
    );
}

#[test]
fn edit_distances_of_known_words() {
    assert_eq!(edit_distance("kitten", "sitting"), 3);
    assert_eq!(edit_distance("", "abc"), 3);
    assert_eq!(edit_distance("same", "same"), 0);
    assert_eq!(edit_distance("flaw", "lawn"), edit_distance("lawn", "flaw"));
}

#[test]
fn an_empty_text_is_no_text() {
    let reg = KnobRegistry::new();
    assert_eq!(Params::new().get_opt_str(&reg, "fee_schedule"), None);
    let p = load(&reg, "fee_schedule = \"spot\"", "x").unwrap();
    assert_eq!(p.get_opt_str(&reg, "fee_schedule"), Some("spot".to_string()));
}

#[test]
fn hints_are_for_near_misses_only() {
    let reg = KnobRegistry::new();
    assert!(nearest_hint(&reg, "max_hol").contains("max_hold"));
    assert_eq!(nearest_hint(&reg, "something_else_entirely_different"), "");
}

#[test]
fn edit_distances_obey_the_triangle_inequality() {
    let words = ["kitten", "sitting", "mitten", "", "fitting"];
    for a in words {
        for b in words {
            for c in words {
                assert!(edit_distance(a, c) <= edit_distance(a, b) + edit_distance(b, c));
            }
        }
    }
    // One edit of each kind.
    assert_eq!(edit_distance("chase", "chases"), 1);
    assert_eq!(edit_distance("chase", "chas"), 1);
    assert_eq!(edit_distance("chase", "phase"), 1);
}

#[test]
fn a_knob_described_otherwise_is_another_definition() {
    let mut reg = KnobRegistry::new();
    register_knobs(&mut reg, &vec![knob("plug", Kind::U32, Value::U32(7), "One thing.")]).unwrap();
    let e = register_knobs(
        &mut reg,
        &vec![knob("plug", Kind::U32, Value::U32(7), "Another thing.")],
    )
    .unwrap_err();
    assert_eq!(e, "strategy knob \"plug\" registered twice with different definitions");
}
