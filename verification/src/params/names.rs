//! The engine's knobs as a table: no name stands twice, and every default is
//! of its knob's type.
use vstd::prelude::*;
use crate::params::bag::{
    first_error, law_a_loaded_table_is_valid, loaded, reads, RawValue,
};
use crate::params::knobs::{
    builtin, builtin_0, builtin_1, builtin_2, builtin_3, law_defaults_match_their_kind,
};
use crate::params::registry::{knob_at, KnobRegistry};
use crate::params::value::{Kind, ValueView};

verus! {

/// A number that tells the engine's knob names apart.
spec fn code(s: Seq<char>) -> int {
    s.len() + s[0] as int + 4 * (s[1] as int) + 3 * (s[s.len() - 1] as int)
}

/// The place of a code in the table.
spec fn place(c: int) -> int {
    if c == 841 {
        0
    } else if c == 914 {
        1
    } else if c == 805 {
        2
    } else if c == 855 {
        3
    } else if c == 821 {
        4
    } else if c == 883 {
        5
    } else if c == 889 {
        6
    } else if c == 907 {
        7
    } else if c == 926 {
        8
    } else if c == 854 {
        9
    } else if c == 850 {
        10
    } else if c == 860 {
        11
    } else if c == 812 {
        12
    } else if c == 814 {
        13
    } else if c == 840 {
        14
    } else if c == 808 {
        15
    } else if c == 874 {
        16
    } else if c == 899 {
        17
    } else if c == 912 {
        18
    } else if c == 859 {
        19
    } else if c == 864 {
        20
    } else if c == 834 {
        21
    } else if c == 894 {
        22
    } else if c == 866 {
        23
    } else if c == 856 {
        24
    } else if c == 817 {
        25
    } else if c == 881 {
        26
    } else if c == 849 {
        27
    } else if c == 947 {
        28
    } else if c == 945 {
        29
    } else if c == 842 {
        30
    } else if c == 896 {
        31
    } else if c == 625 {
        32
    } else if c == 668 {
        33
    } else if c == 667 {
        34
    } else if c == 671 {
        35
    } else {
        -1
    }
}

proof fn lemma_places_0(i: int)
    requires
        0 <= i < builtin_0().len(),
    ensures
        place(code(builtin_0()[i].name)) == 0 + i,
{
    reveal_strlit("min_score");
    reveal_strlit("rr");
    reveal_strlit("max_hold");
    reveal_strlit("fees");
    reveal_strlit("fee_schedule");
    reveal_strlit("min_stop_atr");
    reveal_strlit("min_stop_pct");
    reveal_strlit("breakeven_r");
    reveal_strlit("trail_lock_r");
    reveal_strlit("partial_tp_r");
    assert(builtin_0()[0].name == "min_score"@);
    assert(code("min_score"@) == 841);
    assert(builtin_0()[1].name == "rr"@);
    assert(code("rr"@) == 914);
    assert(builtin_0()[2].name == "max_hold"@);
    assert(code("max_hold"@) == 805);
    assert(builtin_0()[3].name == "fees"@);
    assert(code("fees"@) == 855);
    assert(builtin_0()[4].name == "fee_schedule"@);
    assert(code("fee_schedule"@) == 821);
    assert(builtin_0()[5].name == "min_stop_atr"@);
    assert(code("min_stop_atr"@) == 883);
    assert(builtin_0()[6].name == "min_stop_pct"@);
    assert(code("min_stop_pct"@) == 889);
    assert(builtin_0()[7].name == "breakeven_r"@);
    assert(code("breakeven_r"@) == 907);
    assert(builtin_0()[8].name == "trail_lock_r"@);
    assert(code("trail_lock_r"@) == 926);
    assert(builtin_0()[9].name == "partial_tp_r"@);
    assert(code("partial_tp_r"@) == 854);
}

proof fn lemma_places_1(i: int)
    requires
        0 <= i < builtin_1().len(),
    ensures
        place(code(builtin_1()[i].name)) == 10 + i,
{
    reveal_strlit("derisk_after_min");
    reveal_strlit("derisk_below_r");
    reveal_strlit("cancel_on_target_consumed");
    reveal_strlit("cancel_on_setup_invalidated");
    reveal_strlit("risk_frac");
    reveal_strlit("account_size");
    reveal_strlit("allow_signal_bar_fill");
    reveal_strlit("entry_slippage_r");
    reveal_strlit("intrabar_stop_first");
    reveal_strlit("entry_fill_mode");
    assert(builtin_1()[0].name == "derisk_after_min"@);
    assert(code("derisk_after_min"@) == 850);
    assert(builtin_1()[1].name == "derisk_below_r"@);
    assert(code("derisk_below_r"@) == 860);
    assert(builtin_1()[2].name == "cancel_on_target_consumed"@);
    assert(code("cancel_on_target_consumed"@) == 812);
    assert(builtin_1()[3].name == "cancel_on_setup_invalidated"@);
    assert(code("cancel_on_setup_invalidated"@) == 814);
    assert(builtin_1()[4].name == "risk_frac"@);
    assert(code("risk_frac"@) == 840);
    assert(builtin_1()[5].name == "account_size"@);
    assert(code("account_size"@) == 808);
    assert(builtin_1()[6].name == "allow_signal_bar_fill"@);
    assert(code("allow_signal_bar_fill"@) == 874);
    assert(builtin_1()[7].name == "entry_slippage_r"@);
    assert(code("entry_slippage_r"@) == 899);
    assert(builtin_1()[8].name == "intrabar_stop_first"@);
    assert(code("intrabar_stop_first"@) == 912);
    assert(builtin_1()[9].name == "entry_fill_mode"@);
    assert(code("entry_fill_mode"@) == 859);
}

proof fn lemma_places_2(i: int)
    requires
        0 <= i < builtin_2().len(),
    ensures
        place(code(builtin_2()[i].name)) == 20 + i,
{
    reveal_strlit("chase_r");
    reveal_strlit("chase_requires_seed");
    reveal_strlit("immediate_chase_at_open");
    reveal_strlit("race_maker_first");
    reveal_strlit("deferred_chase_at_open");
    reveal_strlit("past_entry_fee");
    reveal_strlit("rest_min_lead_secs");
    reveal_strlit("tick_chase");
    reveal_strlit("stop_gap_bps_default");
    reveal_strlit("stop_gap_bps_asset");
    assert(builtin_2()[0].name == "chase_r"@);
    assert(code("chase_r"@) == 864);
    assert(builtin_2()[1].name == "chase_requires_seed"@);
    assert(code("chase_requires_seed"@) == 834);
    assert(builtin_2()[2].name == "immediate_chase_at_open"@);
    assert(code("immediate_chase_at_open"@) == 894);
    assert(builtin_2()[3].name == "race_maker_first"@);
    assert(code("race_maker_first"@) == 866);
    assert(builtin_2()[4].name == "deferred_chase_at_open"@);
    assert(code("deferred_chase_at_open"@) == 856);
    assert(builtin_2()[5].name == "past_entry_fee"@);
    assert(code("past_entry_fee"@) == 817);
    assert(builtin_2()[6].name == "rest_min_lead_secs"@);
    assert(code("rest_min_lead_secs"@) == 881);
    assert(builtin_2()[7].name == "tick_chase"@);
    assert(code("tick_chase"@) == 849);
    assert(builtin_2()[8].name == "stop_gap_bps_default"@);
    assert(code("stop_gap_bps_default"@) == 947);
    assert(builtin_2()[9].name == "stop_gap_bps_asset"@);
    assert(code("stop_gap_bps_asset"@) == 945);
}

proof fn lemma_places_3(i: int)
    requires
        0 <= i < builtin_3().len(),
    ensures
        place(code(builtin_3()[i].name)) == 30 + i,
{
    reveal_strlit("risk_usd");
    reveal_strlit("risk_usd_asset");
    reveal_strlit("l2_sizing_mode");
    reveal_strlit("l2_slip_cap_bps");
    reveal_strlit("l2_adverse_bps");
    reveal_strlit("l2_max_staleness_s");
    assert(builtin_3()[0].name == "risk_usd"@);
    assert(code("risk_usd"@) == 842);
    assert(builtin_3()[1].name == "risk_usd_asset"@);
    assert(code("risk_usd_asset"@) == 896);
    assert(builtin_3()[2].name == "l2_sizing_mode"@);
    assert(code("l2_sizing_mode"@) == 625);
    assert(builtin_3()[3].name == "l2_slip_cap_bps"@);
    assert(code("l2_slip_cap_bps"@) == 668);
    assert(builtin_3()[4].name == "l2_adverse_bps"@);
    assert(code("l2_adverse_bps"@) == 667);
    assert(builtin_3()[5].name == "l2_max_staleness_s"@);
    assert(code("l2_max_staleness_s"@) == 671);
}

proof fn lemma_places(i: int)
    requires
        0 <= i < builtin().len(),
    ensures
        place(code(builtin()[i].name)) == i,
{
    if i < 10 {
        lemma_places_0(i);
    } else if i < 20 {
        lemma_places_1(i - 10);
    } else if i < 30 {
        lemma_places_2(i - 20);
    } else {
        lemma_places_3(i - 30);
    }
}

/// No two of the engine's knobs have one name.
pub proof fn law_engine_knob_names_are_unique(i: int, j: int)
    requires
        0 <= i < j < builtin().len(),
    ensures
        builtin()[i].name != builtin()[j].name,
{
    lemma_places(i);
    lemma_places(j);
}

proof fn lemma_found(i: int, from: int)
    requires
        0 <= from <= i < builtin().len(),
    ensures
        knob_at(builtin(), builtin()[i].name, from) == i,
    decreases i - from,
{
    if from < i {
        law_engine_knob_names_are_unique(from, i);
        lemma_found(i, from + 1);
    }
}

/// Each of the engine's knobs is found under its name.
pub proof fn law_engine_knobs_are_found_by_name(reg: KnobRegistry, i: int)
    requires
        reg.wf(),
        0 <= i < builtin().len(),
    ensures
        reg.named(builtin()[i].name) == Some(builtin()[i]),
{
    lemma_found(i, 0);
}

/// Every value a bag holds is of the type of the knob it is held under.
pub open spec fn well_typed(bag: Map<Seq<char>, ValueView>, reg: KnobRegistry) -> bool {
    forall|n: Seq<char>| #[trigger]
        bag.contains_key(n) ==> (reg.named(n) matches Some(k) && k.kind == bag[n].kind())
}

/// What one of the engine's knobs reads, set or not, is of its type.
pub proof fn law_engine_knobs_read_their_kind(
    bag: Map<Seq<char>, ValueView>,
    reg: KnobRegistry,
    i: int,
)
    requires
        reg.wf(),
        well_typed(bag, reg),
        0 <= i < builtin().len(),
    ensures
        reads(bag, reg, builtin()[i].name) matches Some(v) && v.kind() == builtin()[i].kind,
{
    law_engine_knobs_are_found_by_name(reg, i);
    law_defaults_match_their_kind(i);
}

/// A bag loaded from a table without errors is well typed.
pub proof fn law_loaded_bags_are_well_typed(reg: KnobRegistry, table: Seq<(String, RawValue)>)
    requires
        first_error(reg, table, 0) >= table.len(),
    ensures
        well_typed(loaded(reg, table, table.len()), reg),
{
    let bag = loaded(reg, table, table.len());
    assert forall|n: Seq<char>| #[trigger] bag.contains_key(n) implies (reg.named(n) matches Some(k)
        && k.kind == bag[n].kind()) by {
        law_a_loaded_table_is_valid(reg, table, table.len(), n);
    }
}

/// The engine's knobs that a run reads are of the types it reads them as.
pub open spec fn run_knobs_read(bag: Map<Seq<char>, ValueView>, reg: KnobRegistry) -> bool {
    &&& (reads(bag, reg, "min_score"@) matches Some(v) && v.kind() == Kind::F64)
    &&& (reads(bag, reg, "rr"@) matches Some(v) && v.kind() == Kind::F64)
    &&& (reads(bag, reg, "max_hold"@) matches Some(v) && v.kind() == Kind::U32)
    &&& (reads(bag, reg, "fees"@) matches Some(v) && v.kind() == Kind::Bool)
    &&& (reads(bag, reg, "fee_schedule"@) matches Some(v) && v.kind() == Kind::Str)
    &&& (reads(bag, reg, "breakeven_r"@) matches Some(v) && v.kind() == Kind::F64)
    &&& (reads(bag, reg, "trail_lock_r"@) matches Some(v) && v.kind() == Kind::F64)
    &&& (reads(bag, reg, "partial_tp_r"@) matches Some(v) && v.kind() == Kind::F64)
    &&& (reads(bag, reg, "derisk_after_min"@) matches Some(v) && v.kind() == Kind::U32)
    &&& (reads(bag, reg, "derisk_below_r"@) matches Some(v) && v.kind() == Kind::F64)
    &&& (reads(bag, reg, "cancel_on_target_consumed"@) matches Some(v) && v.kind() == Kind::Bool)
    &&& (reads(bag, reg, "cancel_on_setup_invalidated"@) matches Some(v) && v.kind() == Kind::Bool)
    &&& (reads(bag, reg, "risk_frac"@) matches Some(v) && v.kind() == Kind::F64)
    &&& (reads(bag, reg, "account_size"@) matches Some(v) && v.kind() == Kind::F64)
}

/// A well-typed bag serves a run.
pub proof fn law_well_typed_bags_serve_a_run(bag: Map<Seq<char>, ValueView>, reg: KnobRegistry)
    requires
        reg.wf(),
        well_typed(bag, reg),
    ensures
        run_knobs_read(bag, reg),
{
    law_engine_knobs_read_their_kind(bag, reg, 0);
    law_engine_knobs_read_their_kind(bag, reg, 1);
    law_engine_knobs_read_their_kind(bag, reg, 2);
    law_engine_knobs_read_their_kind(bag, reg, 3);
    law_engine_knobs_read_their_kind(bag, reg, 4);
    law_engine_knobs_read_their_kind(bag, reg, 7);
    law_engine_knobs_read_their_kind(bag, reg, 8);
    law_engine_knobs_read_their_kind(bag, reg, 9);
    law_engine_knobs_read_their_kind(bag, reg, 10);
    law_engine_knobs_read_their_kind(bag, reg, 11);
    law_engine_knobs_read_their_kind(bag, reg, 12);
    law_engine_knobs_read_their_kind(bag, reg, 13);
    law_engine_knobs_read_their_kind(bag, reg, 14);
    law_engine_knobs_read_their_kind(bag, reg, 15);
    assert(builtin()[0] == builtin_0()[0]);
    assert(builtin()[1] == builtin_0()[1]);
    assert(builtin()[2] == builtin_0()[2]);
    assert(builtin()[3] == builtin_0()[3]);
    assert(builtin()[4] == builtin_0()[4]);
    assert(builtin()[7] == builtin_0()[7]);
    assert(builtin()[8] == builtin_0()[8]);
    assert(builtin()[9] == builtin_0()[9]);
    assert(builtin()[10] == builtin_1()[0]);
    assert(builtin()[11] == builtin_1()[1]);
    assert(builtin()[12] == builtin_1()[2]);
    assert(builtin()[13] == builtin_1()[3]);
    assert(builtin()[14] == builtin_1()[4]);
    assert(builtin()[15] == builtin_1()[5]);
}

/// What a run reads of the engine's knobs where nothing is set: no threshold,
/// twice the risk as target, three hundred bars of holding, fees charged on the
/// schedule of the contracts, no trailing, partial or de-risking, limit fills
/// with the stop first, chases within a tenth of the risk, and sizing that
/// ignores depth.
pub proof fn law_an_empty_bag_reads_the_defaults(reg: KnobRegistry)
    requires
        reg.wf(),
    ensures
        reads(Map::empty(), reg, "min_score"@) == Some(ValueView::F64(0)),
        reads(Map::empty(), reg, "rr"@) == Some(ValueView::F64(0x4000000000000000i64)),
        reads(Map::empty(), reg, "max_hold"@) == Some(ValueView::U32(300)),
        reads(Map::empty(), reg, "fees"@) == Some(ValueView::Bool(true)),
        reads(Map::empty(), reg, "fee_schedule"@) == Some(ValueView::Str(""@)),
        reads(Map::empty(), reg, "min_stop_atr"@) == Some(ValueView::F64(0)),
        reads(Map::empty(), reg, "min_stop_pct"@) == Some(ValueView::F64(0)),
        reads(Map::empty(), reg, "breakeven_r"@) == Some(ValueView::F64(0)),
        reads(Map::empty(), reg, "trail_lock_r"@) == Some(ValueView::F64(0)),
        reads(Map::empty(), reg, "partial_tp_r"@) == Some(ValueView::F64(0)),
        reads(Map::empty(), reg, "derisk_after_min"@) == Some(ValueView::U32(0)),
        reads(Map::empty(), reg, "derisk_below_r"@) == Some(ValueView::F64(0)),
        reads(Map::empty(), reg, "cancel_on_target_consumed"@) == Some(ValueView::Bool(false)),
        reads(Map::empty(), reg, "cancel_on_setup_invalidated"@) == Some(ValueView::Bool(false)),
        reads(Map::empty(), reg, "risk_frac"@) == Some(ValueView::F64(0)),
        reads(Map::empty(), reg, "account_size"@) == Some(ValueView::F64(0x40c3880000000000i64)),
        reads(Map::empty(), reg, "allow_signal_bar_fill"@) == Some(ValueView::Bool(false)),
        reads(Map::empty(), reg, "entry_slippage_r"@) == Some(ValueView::F64(0)),
        reads(Map::empty(), reg, "intrabar_stop_first"@) == Some(ValueView::Bool(true)),
        reads(Map::empty(), reg, "entry_fill_mode"@) == Some(ValueView::Str("limit"@)),
        reads(Map::empty(), reg, "chase_r"@) == Some(ValueView::F64(0x3fb999999999999ai64)),
        reads(Map::empty(), reg, "chase_requires_seed"@) == Some(ValueView::Bool(true)),
        reads(Map::empty(), reg, "immediate_chase_at_open"@) == Some(ValueView::Bool(true)),
        reads(Map::empty(), reg, "race_maker_first"@) == Some(ValueView::Bool(false)),
        reads(Map::empty(), reg, "deferred_chase_at_open"@) == Some(ValueView::Bool(false)),
        reads(Map::empty(), reg, "past_entry_fee"@) == Some(ValueView::Str("taker"@)),
        reads(Map::empty(), reg, "rest_min_lead_secs"@) == Some(ValueView::I64(60)),
        reads(Map::empty(), reg, "tick_chase"@) == Some(ValueView::Bool(true)),
        reads(Map::empty(), reg, "stop_gap_bps_default"@) == Some(ValueView::F64(0)),
        reads(Map::empty(), reg, "stop_gap_bps_asset"@) == Some(ValueView::VecStr(Seq::empty())),
        reads(Map::empty(), reg, "risk_usd"@) == Some(ValueView::F64(-0x3ff0000000000000i64)),
        reads(Map::empty(), reg, "risk_usd_asset"@) == Some(ValueView::VecStr(Seq::empty())),
        reads(Map::empty(), reg, "l2_sizing_mode"@) == Some(ValueView::Str("off"@)),
        reads(Map::empty(), reg, "l2_slip_cap_bps"@) == Some(ValueView::F64(0x4000000000000000i64)),
        reads(Map::empty(), reg, "l2_adverse_bps"@) == Some(ValueView::F64(0x3fe6666666666666i64)),
        reads(Map::empty(), reg, "l2_max_staleness_s"@) == Some(ValueView::F64(0x4056800000000000i64)),
{
    law_engine_knobs_are_found_by_name(reg, 0);
    law_engine_knobs_are_found_by_name(reg, 1);
    law_engine_knobs_are_found_by_name(reg, 2);
    law_engine_knobs_are_found_by_name(reg, 3);
    law_engine_knobs_are_found_by_name(reg, 4);
    law_engine_knobs_are_found_by_name(reg, 5);
    law_engine_knobs_are_found_by_name(reg, 6);
    law_engine_knobs_are_found_by_name(reg, 7);
    law_engine_knobs_are_found_by_name(reg, 8);
    law_engine_knobs_are_found_by_name(reg, 9);
    law_engine_knobs_are_found_by_name(reg, 10);
    law_engine_knobs_are_found_by_name(reg, 11);
    law_engine_knobs_are_found_by_name(reg, 12);
    law_engine_knobs_are_found_by_name(reg, 13);
    law_engine_knobs_are_found_by_name(reg, 14);
    law_engine_knobs_are_found_by_name(reg, 15);
    law_engine_knobs_are_found_by_name(reg, 16);
    law_engine_knobs_are_found_by_name(reg, 17);
    law_engine_knobs_are_found_by_name(reg, 18);
    law_engine_knobs_are_found_by_name(reg, 19);
    law_engine_knobs_are_found_by_name(reg, 20);
    law_engine_knobs_are_found_by_name(reg, 21);
    law_engine_knobs_are_found_by_name(reg, 22);
    law_engine_knobs_are_found_by_name(reg, 23);
    law_engine_knobs_are_found_by_name(reg, 24);
    law_engine_knobs_are_found_by_name(reg, 25);
    law_engine_knobs_are_found_by_name(reg, 26);
    law_engine_knobs_are_found_by_name(reg, 27);
    law_engine_knobs_are_found_by_name(reg, 28);
    law_engine_knobs_are_found_by_name(reg, 29);
    law_engine_knobs_are_found_by_name(reg, 30);
    law_engine_knobs_are_found_by_name(reg, 31);
    law_engine_knobs_are_found_by_name(reg, 32);
    law_engine_knobs_are_found_by_name(reg, 33);
    law_engine_knobs_are_found_by_name(reg, 34);
    law_engine_knobs_are_found_by_name(reg, 35);
    assert(builtin()[0] == builtin_0()[0]);
    assert(builtin()[1] == builtin_0()[1]);
    assert(builtin()[2] == builtin_0()[2]);
    assert(builtin()[3] == builtin_0()[3]);
    assert(builtin()[4] == builtin_0()[4]);
    assert(builtin()[5] == builtin_0()[5]);
    assert(builtin()[6] == builtin_0()[6]);
    assert(builtin()[7] == builtin_0()[7]);
    assert(builtin()[8] == builtin_0()[8]);
    assert(builtin()[9] == builtin_0()[9]);
    assert(builtin()[10] == builtin_1()[0]);
    assert(builtin()[11] == builtin_1()[1]);
    assert(builtin()[12] == builtin_1()[2]);
    assert(builtin()[13] == builtin_1()[3]);
    assert(builtin()[14] == builtin_1()[4]);
    assert(builtin()[15] == builtin_1()[5]);
    assert(builtin()[16] == builtin_1()[6]);
    assert(builtin()[17] == builtin_1()[7]);
    assert(builtin()[18] == builtin_1()[8]);
    assert(builtin()[19] == builtin_1()[9]);
    assert(builtin()[20] == builtin_2()[0]);
    assert(builtin()[21] == builtin_2()[1]);
    assert(builtin()[22] == builtin_2()[2]);
    assert(builtin()[23] == builtin_2()[3]);
    assert(builtin()[24] == builtin_2()[4]);
    assert(builtin()[25] == builtin_2()[5]);
    assert(builtin()[26] == builtin_2()[6]);
    assert(builtin()[27] == builtin_2()[7]);
    assert(builtin()[28] == builtin_2()[8]);
    assert(builtin()[29] == builtin_2()[9]);
    assert(builtin()[30] == builtin_3()[0]);
    assert(builtin()[31] == builtin_3()[1]);
    assert(builtin()[32] == builtin_3()[2]);
    assert(builtin()[33] == builtin_3()[3]);
    assert(builtin()[34] == builtin_3()[4]);
    assert(builtin()[35] == builtin_3()[5]);
}

} // verus!
