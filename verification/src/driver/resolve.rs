//! A replay, resolved: knobs, fill lens, assets, window and timeframes, before
//! any data loads.
use vstd::prelude::*;
use vstd::string::*;
use crate::data::sources::{
    source_views, sources_in, DataSource, SourceMap, SourceView,
};
use crate::driver::args::ReplayArgs;
use crate::driver::window::{bound_day, resolve_window, window_of, Window, WindowError};
use crate::fees::{
    parse_schedule, register_contract, register_contract_full, schedule_named, set_schedule,
    unknown_schedule, ContractSpec, EntryFeeSide, FeeSchedule, FeeTables,
};
use crate::key::Num;
use crate::paper::book::{default_knobs, empty_book, Book, Knobs, PaperTrader};
use crate::params::bag::{reads, Params};
use crate::params::knobs::{builtin, law_defaults_match_their_kind, views};
use crate::params::names::{
    law_engine_knobs_are_found_by_name, law_well_typed_bags_serve_a_run, well_typed,
};
use crate::params::registry::KnobRegistry;
use crate::params::value::{dup_texts, texts, KnobView, ValueView};
use crate::text::{
    ascending, contains_str, lower, occurs, sorted_unique, str_eq, texts_of, trim_start, trimmed,
};

verus! {

// ─── Configuration ──────────────────────────────────────────────────────────

/// A contract's fee spec, as a strategy file declares it.
#[derive(Debug, Clone)]
pub struct ContractEntry {
    pub asset: String,
    pub schedule: String,
    pub point_value: Num,
    pub round_turn: Num,
}

/// An asset's sources, as a strategy file declares them.
#[derive(Debug, Clone)]
pub struct AssetSource {
    pub asset: String,
    pub files: Vec<String>,
    pub scale: Num,
    pub offset: Num,
}

/// A strategy file, loaded.
#[derive(Debug, Clone)]
pub struct StrategyFile {
    pub params: Params,
    pub assets: Option<Vec<String>>,
    pub contracts: Vec<ContractEntry>,
    pub roll_adjust: bool,
    /// The factory the file names.
    pub strategy_impl: Option<String>,
    pub sources: Vec<AssetSource>,
    pub exec_sources: Vec<AssetSource>,
}

/// How orders execute, independently of what is selected.
#[derive(Debug, Clone)]
pub struct FillLens {
    pub allow_signal_bar_fill: bool,
    pub entry_slippage_r: Num,
    pub intrabar_stop_first: bool,
    /// A gapped exit is booked at the bar's open.
    pub exit_gap_at_open: bool,
    pub entry_fill_mode: String,
    pub chase_r: Num,
    pub chase_requires_seed: bool,
    pub immediate_chase_at_open: bool,
    pub race_maker_first: bool,
    pub deferred_chase_at_open: bool,
    pub rest_min_lead_secs: i64,
    pub tick_chase: bool,
    pub past_entry_fee: String,
    pub stop_gap_bps_default: Num,
    pub stop_gap_bps_asset: Vec<(String, Num)>,
}

// ─── Seeding ────────────────────────────────────────────────────────────────

/// The first `n` knobs are set to their defaults unless they are set.
pub open spec fn seeded(bag: Map<Seq<char>, ValueView>, knobs: Seq<KnobView>, n: nat) -> Map<
    Seq<char>,
    ValueView,
>
    decreases n,
{
    if n == 0 {
        bag
    } else {
        let rest = seeded(bag, knobs, (n - 1) as nat);
        if rest.contains_key(knobs[n - 1].name) {
            rest
        } else {
            rest.insert(knobs[n - 1].name, knobs[n - 1].default)
        }
    }
}

/// Set every knob of the engine that is not set to its default, so that the
/// effective configuration is written out.
pub fn seed_args_from_registry(reg: &KnobRegistry, p: &mut Params)
    requires
        reg.wf(),
    ensures
        final(p)@ == seeded(old(p)@, builtin(), builtin().len()),
{
    let ghost b = builtin();
    let mut i: usize = 0;
    while i < reg.own.len()
        invariant
            reg.wf(),
            b == builtin(),
            b == views(reg.own@),
            i <= reg.own@.len(),
            p@ == seeded(old(p)@, b, i as nat),
        decreases reg.own@.len() - i,
    {
        let k = &reg.own[i];
        proof {
            assert(b[i as int] == k@);
            law_engine_knobs_are_found_by_name(*reg, i as int);
            law_defaults_match_their_kind(i as int);
        }
        if !p.is_set(k.name.as_str()) {
            p.set(reg, k.name.as_str(), k.default.dup());
        }
        i = i + 1;
    }
}

/// Seeding changes what is written out, and nothing that is read.
pub proof fn law_seeding_changes_no_reading(
    bag: Map<Seq<char>, ValueView>,
    reg: KnobRegistry,
    n: nat,
    name: Seq<char>,
)
    requires
        reg.wf(),
        n <= builtin().len(),
    ensures
        reads(seeded(bag, builtin(), n), reg, name) == reads(bag, reg, name),
        well_typed(bag, reg) ==> well_typed(seeded(bag, builtin(), n), reg),
    decreases n,
{
    if n > 0 {
        law_seeding_changes_no_reading(bag, reg, (n - 1) as nat, name);
        law_engine_knobs_are_found_by_name(reg, n - 1);
        law_defaults_match_their_kind(n - 1);
    }
}

/// A seeded bag sets every knob of the engine.
pub proof fn law_seeding_sets_every_knob(bag: Map<Seq<char>, ValueView>, n: nat, i: int)
    requires
        0 <= i < n <= builtin().len(),
    ensures
        seeded(bag, builtin(), n).contains_key(builtin()[i].name),
    decreases n,
{
    if i < n - 1 {
        law_seeding_sets_every_knob(bag, (n - 1) as nat, i);
    }
}

// ─── Sources ────────────────────────────────────────────────────────────────

/// The sources an entry declares.
pub open spec fn entry_sources(e: AssetSource) -> Seq<SourceView> {
    Seq::new(
        e.files@.len(),
        |i: int| SourceView { stem: e.files@[i]@, scale: e.scale, offset: e.offset },
    )
}

/// What the first `n` entries map each asset to.
pub open spec fn declared(entries: Seq<AssetSource>, n: nat) -> Map<Seq<char>, Seq<SourceView>>
    decreases n,
{
    if n == 0 {
        Map::empty()
    } else {
        declared(entries, (n - 1) as nat).insert(
            entries[n - 1].asset@,
            entry_sources(entries[n - 1]),
        )
    }
}

/// The sources that entries declare.
pub fn source_map_from(entries: &Vec<AssetSource>) -> (r: SourceMap)
    ensures
        r@ == declared(entries@, entries@.len()),
{
    let mut map = SourceMap::new();
    let mut i: usize = 0;
    while i < entries.len()
        invariant
            i <= entries@.len(),
            map@ == declared(entries@, i as nat),
        decreases entries@.len() - i,
    {
        let e = &entries[i];
        let mut list: Vec<DataSource> = Vec::new();
        let mut k: usize = 0;
        while k < e.files.len()
            invariant
                k <= e.files@.len(),
                source_views(list@) == entry_sources(*e).take(k as int),
            decreases e.files@.len() - k,
        {
            let ghost had = source_views(list@);
            list.push(
                DataSource { stem: e.files[k].clone(), scale: e.scale, offset: e.offset },
            );
            proof {
                assert(source_views(list@) =~= had.push(entry_sources(*e)[k as int]));
                assert(entry_sources(*e).take(k + 1) =~= had.push(entry_sources(*e)[k as int]));
            }
            k = k + 1;
        }
        proof {
            assert(source_views(list@) =~= entry_sources(*e));
        }
        map.insert(e.asset.as_str(), list);
        i = i + 1;
    }
    map
}

/// The tick size of a product.
pub open spec fn product_tick(root: Seq<char>) -> Option<Num> {
    if root == "ES"@ || root == "NQ"@ {
        Some(QUARTER)
    } else if root == "GC"@ {
        Some(TENTH)
    } else if root == "SI"@ || root == "SIL"@ {
        Some(HALF_CENT)
    } else if root == "CL"@ {
        Some(CENT)
    } else {
        None
    }
}

/// The key of 0.25: index futures quote in quarter points.
pub const QUARTER: Num = 0x3fd0_0000_0000_0000;

/// The key of 0.1.
pub const TENTH: Num = 0x3fb9_9999_9999_999a;

/// The key of 0.005.
pub const HALF_CENT: Num = 0x3f74_7ae1_47ae_147b;

/// The key of 0.01.
pub const CENT: Num = 0x3f84_7ae1_47ae_147b;

/// The tick size an asset's brackets are rounded to: that of its first
/// execution stem's product, full-size or micro. An unknown product is not
/// rounded.
pub fn exec_tick_for(exec_sources: &SourceMap, asset: &str) -> (r: Option<Num>)
    ensures
        ({
            let list = sources_in(exec_sources@, asset@);
            r == if list.len() == 0 {
                None
            } else {
                product_tick(trimmed(list[0].stem, 'M'))
            }
        }),
{
    let list = exec_sources.sources_for(asset);
    if list.len() == 0 {
        return None;
    }
    assert(source_views(list@)[0] == list@[0]@);
    let root = trim_start(list[0].stem.as_str(), 'M');
    let s = root.as_str();
    if str_eq(s, "ES") || str_eq(s, "NQ") {
        Some(QUARTER)
    } else if str_eq(s, "GC") {
        Some(TENTH)
    } else if str_eq(s, "SI") || str_eq(s, "SIL") {
        Some(HALF_CENT)
    } else if str_eq(s, "CL") {
        Some(CENT)
    } else {
        None
    }
}

// ─── Fees ───────────────────────────────────────────────────────────────────

/// An entry's contract.
pub open spec fn contract_in(e: ContractEntry) -> ContractSpec {
    ContractSpec { point_value: e.point_value, round_turn: e.round_turn }
}

/// The contracts of one schedule once the first `n` entries are registered.
pub open spec fn contracts_with(
    m: Map<Seq<char>, ContractSpec>,
    entries: Seq<ContractEntry>,
    full: bool,
    n: nat,
) -> Map<Seq<char>, ContractSpec>
    decreases n,
{
    if n == 0 {
        m
    } else {
        let rest = contracts_with(m, entries, full, (n - 1) as nat);
        let e = entries[n - 1];
        if (e.schedule@ == "futures_full"@) == full {
            rest.insert(e.asset@, contract_in(e))
        } else {
            rest
        }
    }
}

/// Entries are registered with some tables; the rest of the tables stays.
pub open spec fn contracts_added(a: FeeTables, b: FeeTables, entries: Seq<ContractEntry>) -> bool {
    &&& b.contracts@ == contracts_with(a.contracts@, entries, false, entries.len())
    &&& b.contracts_full@ == contracts_with(a.contracts_full@, entries, true, entries.len())
    &&& b.rates == a.rates
}

/// Register the contracts a strategy file declares: those for the full-size
/// schedule there, all others with the micro one.
pub fn register_contracts(tables: &mut FeeTables, entries: &Vec<ContractEntry>)
    ensures
        contracts_added(*old(tables), *final(tables), entries@),
        final(tables).schedule == old(tables).schedule,
{
    let ghost t0 = *tables;
    let mut i: usize = 0;
    while i < entries.len()
        invariant
            i <= entries@.len(),
            t0 == *old(tables),
            tables.contracts@ == contracts_with(t0.contracts@, entries@, false, i as nat),
            tables.contracts_full@ == contracts_with(
                t0.contracts_full@,
                entries@,
                true,
                i as nat,
            ),
            tables.rates == t0.rates,
            tables.schedule == t0.schedule,
        decreases entries@.len() - i,
    {
        let e = &entries[i];
        let spec = ContractSpec { point_value: e.point_value, round_turn: e.round_turn };
        if str_eq(e.schedule.as_str(), "futures_full") {
            register_contract_full(tables, e.asset.as_str(), spec);
        } else {
            register_contract(tables, e.asset.as_str(), spec);
        }
        i = i + 1;
    }
}

// ─── Assets and timeframes ──────────────────────────────────────────────────

/// An asset is excluded: its name holds an excluded one.
pub open spec fn excluded(asset: Seq<char>, exclude: Seq<Seq<char>>) -> bool {
    exists|i: int| 0 <= i < exclude.len() && occurs(asset, #[trigger] exclude[i])
}

/// The assets among the first `n` that are not excluded.
pub open spec fn retained(list: Seq<Seq<char>>, exclude: Seq<Seq<char>>, n: nat) -> Seq<Seq<char>>
    decreases n,
{
    if n == 0 {
        Seq::empty()
    } else {
        let rest = retained(list, exclude, (n - 1) as nat);
        if excluded(list[n - 1], exclude) {
            rest
        } else {
            rest.push(list[n - 1])
        }
    }
}

fn is_excluded(asset: &str, exclude: &Vec<String>) -> (r: bool)
    ensures
        r == excluded(asset@, texts_of(exclude@)),
{
    let mut i: usize = 0;
    while i < exclude.len()
        invariant
            i <= exclude@.len(),
            forall|k: int| 0 <= k < i ==> !occurs(asset@, #[trigger] texts_of(exclude@)[k]),
        decreases exclude@.len() - i,
    {
        if contains_str(asset, exclude[i].as_str()) {
            assert(occurs(asset@, texts_of(exclude@)[i as int]));
            return true;
        }
        i = i + 1;
    }
    false
}

fn retain(list: &Vec<String>, exclude: &Vec<String>) -> (r: Vec<String>)
    ensures
        texts_of(r@) == retained(texts_of(list@), texts_of(exclude@), list@.len()),
{
    let mut out: Vec<String> = Vec::new();
    let mut i: usize = 0;
    proof {
        assert(texts_of(out@) =~= Seq::empty());
    }
    while i < list.len()
        invariant
            i <= list@.len(),
            texts_of(out@) == retained(texts_of(list@), texts_of(exclude@), i as nat),
        decreases list@.len() - i,
    {
        let ghost had = texts_of(out@);
        if !is_excluded(list[i].as_str(), exclude) {
            out.push(list[i].clone());
            proof {
                assert(texts_of(out@) =~= had.push(list@[i as int]@));
            }
        }
        i = i + 1;
    }
    out
}

/// The assets that are named: by the command line, else by the strategy file.
pub open spec fn named_assets(args: Seq<String>, file: Option<StrategyFile>) -> Seq<Seq<char>> {
    if args.len() > 0 {
        texts_of(args)
    } else {
        match file {
            Some(f) => match f.assets {
                Some(a) => texts_of(a@),
                None => Seq::empty(),
            },
            None => Seq::empty(),
        }
    }
}

/// The assets a run is for: those that are named, else those that were found,
/// in dictionary order and each once; the excluded ones left out.
pub open spec fn run_assets(
    named: Seq<Seq<char>>,
    found: Seq<Seq<char>>,
    exclude: Seq<Seq<char>>,
    r: Seq<Seq<char>>,
) -> bool {
    if named.len() > 0 {
        r == retained(named, exclude, named.len())
    } else {
        &&& ascending(r)
        &&& forall|a: Seq<char>| #[trigger]
            r.contains(a) <==> found.contains(a) && !excluded(a, exclude)
    }
}

proof fn lemma_retained(list: Seq<Seq<char>>, exclude: Seq<Seq<char>>, n: nat)
    requires
        n <= list.len(),
        ascending(list),
    ensures
        ascending(retained(list, exclude, n)),
        forall|a: Seq<char>| #[trigger]
            retained(list, exclude, n).contains(a) <==> list.take(n as int).contains(a)
                && !excluded(a, exclude),
    decreases n,
{
    let all = retained(list, exclude, n);
    if n > 0 {
        lemma_retained(list, exclude, (n - 1) as nat);
        let rest = retained(list, exclude, (n - 1) as nat);
        let had = list.take(n - 1);
        let now = list.take(n as int);
        let x = list[n - 1];
        assert forall|a: Seq<char>| #[trigger] all.contains(a) implies now.contains(a) && !excluded(
            a,
            exclude,
        ) by {
            let p = choose|p: int| 0 <= p < all.len() && all[p] == a;
            if p < rest.len() {
                assert(rest.contains(a)) by {
                    assert(rest[p] == a);
                }
                let q = choose|q: int| 0 <= q < had.len() && had[q] == a;
                assert(now[q] == a);
            } else {
                assert(now[n - 1] == a);
            }
        }
        assert forall|a: Seq<char>| now.contains(a) && !excluded(a, exclude) implies #[trigger] all.contains(
            a,
        ) by {
            let q = choose|q: int| 0 <= q < now.len() && now[q] == a;
            if q < n - 1 {
                assert(had[q] == a);
                assert(had.contains(a));
                assert(rest.contains(a));
                let p = choose|p: int| 0 <= p < rest.len() && rest[p] == a;
                assert(all[p] == a);
            } else {
                assert(all[rest.len() as int] == a);
            }
        }
        assert forall|i: int, j: int| 0 <= i < j < all.len() implies crate::text::less(
            #[trigger] all[i],
            #[trigger] all[j],
        ) by {
            if j < rest.len() {
                assert(crate::text::less(rest[i], rest[j]));
            } else {
                assert(rest.contains(rest[i]));
                let q = choose|q: int| 0 <= q < had.len() && had[q] == rest[i];
                assert(crate::text::less(list[q], list[n - 1]));
            }
        }
    }
}

fn choose_assets(
    args: &Vec<String>,
    file: &Option<StrategyFile>,
    found: &Vec<String>,
    exclude: &Vec<String>,
) -> (r: Vec<String>)
    ensures
        run_assets(named_assets(args@, *file), texts_of(found@), texts_of(exclude@), texts_of(r@)),
{
    if args.len() > 0 {
        return retain(args, exclude);
    }
    if let Some(f) = file {
        if let Some(a) = &f.assets {
            if a.len() > 0 {
                return retain(a, exclude);
            }
        }
    }
    let list = sorted_unique(found);
    let r = retain(&list, exclude);
    proof {
        let t = texts_of(list@);
        lemma_retained(t, texts_of(exclude@), list@.len());
        assert(t.take(list@.len() as int) =~= t);
    }
    r
}

/// The first `n` texts are added, each unless it is there.
pub open spec fn with_new(list: Seq<Seq<char>>, extra: Seq<Seq<char>>, n: nat) -> Seq<Seq<char>>
    decreases n,
{
    if n == 0 {
        list
    } else {
        let rest = with_new(list, extra, (n - 1) as nat);
        if rest.contains(extra[n - 1]) {
            rest
        } else {
            rest.push(extra[n - 1])
        }
    }
}

/// The timeframes a run builds: the factory's, then those the command line
/// adds.
pub fn all_timeframes(factory: &Vec<String>, extra: &Vec<String>) -> (r: Vec<String>)
    ensures
        texts_of(r@) == with_new(texts_of(factory@), texts_of(extra@), extra@.len()),
{
    let mut out = dup_texts(factory);
    proof {
        assert(texts_of(out@) =~= texts(out@));
        assert(texts_of(factory@) =~= texts(factory@));
    }
    let mut i: usize = 0;
    while i < extra.len()
        invariant
            i <= extra@.len(),
            texts_of(out@) == with_new(texts_of(factory@), texts_of(extra@), i as nat),
        decreases extra@.len() - i,
    {
        let ghost had = texts_of(out@);
        let mut known = false;
        let mut k: usize = 0;
        while k < out.len() && !known
            invariant
                i < extra@.len(),
                k <= out@.len(),
                had == texts_of(out@),
                known ==> had.contains(extra@[i as int]@),
                !known ==> forall|j: int| 0 <= j < k ==> #[trigger] had[j] != extra@[i as int]@,
            decreases out@.len() - k,
        {
            assert(had[k as int] == out@[k as int]@);
            if out[k] == extra[i] {
                known = true;
            }
            k = k + 1;
        }
        if !known {
            out.push(extra[i].clone());
            proof {
                assert(texts_of(out@) =~= had.push(extra@[i as int]@));
            }
        }
        i = i + 1;
    }
    out
}

// ─── Knobs ──────────────────────────────────────────────────────────────────

/// A switch a bag reads.
pub open spec fn bool_in(bag: Map<Seq<char>, ValueView>, reg: KnobRegistry, name: Seq<char>) -> bool {
    reads(bag, reg, name)->0->Bool_0
}

/// A number a bag reads.
pub open spec fn f64_in(bag: Map<Seq<char>, ValueView>, reg: KnobRegistry, name: Seq<char>) -> Num {
    reads(bag, reg, name)->0->F64_0
}

/// A count a bag reads.
pub open spec fn u32_in(bag: Map<Seq<char>, ValueView>, reg: KnobRegistry, name: Seq<char>) -> u32 {
    reads(bag, reg, name)->0->U32_0
}

/// Knobs as a bag and a fill lens set them.
pub open spec fn configured(
    k: Knobs,
    bag: Map<Seq<char>, ValueView>,
    reg: KnobRegistry,
    fill: FillLens,
) -> Knobs {
    let mode = fill.entry_fill_mode@;
    Knobs {
        min_score: k.min_score,
        rr_target: k.rr_target,
        max_hold_candles: k.max_hold_candles,
        use_fees: bool_in(bag, reg, "fees"@),
        breakeven_r: f64_in(bag, reg, "breakeven_r"@),
        trail_lock_r: f64_in(bag, reg, "trail_lock_r"@),
        stop_gap_bps_default: fill.stop_gap_bps_default,
        partial_tp_r: f64_in(bag, reg, "partial_tp_r"@),
        risk_frac: f64_in(bag, reg, "risk_frac"@),
        account_size: f64_in(bag, reg, "account_size"@),
        allow_signal_bar_fill: fill.allow_signal_bar_fill,
        entry_slippage_r: fill.entry_slippage_r,
        intrabar_stop_first: fill.intrabar_stop_first,
        exit_gap_at_open: fill.exit_gap_at_open,
        hybrid_fill: mode == "hybrid"@ || mode == "rest_on_ready"@,
        tick_fill: mode == "tick"@,
        tick_chase: fill.tick_chase,
        chase_r: fill.chase_r,
        chase_requires_seed: fill.chase_requires_seed,
        immediate_chase_at_open: fill.immediate_chase_at_open,
        race_maker_first: fill.race_maker_first,
        deferred_chase_at_open: fill.deferred_chase_at_open,
        past_entry_fee: if fill.past_entry_fee@ == "maker"@ {
            EntryFeeSide::Maker
        } else {
            EntryFeeSide::Taker
        },
        cancel_on_target_consumed: bool_in(bag, reg, "cancel_on_target_consumed"@),
        cancel_on_setup_invalidated: bool_in(bag, reg, "cancel_on_setup_invalidated"@),
        rest_on_ready_fill: mode == "rest_on_ready"@,
        rest_min_lead_secs: fill.rest_min_lead_secs,
        derisk_after_min: u32_in(bag, reg, "derisk_after_min"@) as usize,
        derisk_below_r: f64_in(bag, reg, "derisk_below_r"@),
    }
}

/// Some gaps, mathematically.
pub open spec fn gap_views(list: Seq<(String, Num)>) -> Seq<(Seq<char>, Num)> {
    Seq::new(list.len(), |i: int| (list[i].0@, list[i].1))
}

fn dup_gaps(list: &Vec<(String, Num)>) -> (r: Vec<(String, Num)>)
    ensures
        gap_views(r@) == gap_views(list@),
{
    let mut out: Vec<(String, Num)> = Vec::new();
    let mut i: usize = 0;
    while i < list.len()
        invariant
            i <= list@.len(),
            gap_views(out@) == gap_views(list@).take(i as int),
        decreases list@.len() - i,
    {
        let ghost had = gap_views(out@);
        out.push((list[i].0.clone(), list[i].1));
        proof {
            assert(gap_views(out@) =~= had.push(gap_views(list@)[i as int]));
            assert(gap_views(list@).take(i + 1) =~= had.push(gap_views(list@)[i as int]));
        }
        i = i + 1;
    }
    proof {
        assert(gap_views(out@) =~= gap_views(list@));
    }
    out
}

/// Set a book's knobs from a bag and a fill lens.
pub fn apply_config(pt: &mut PaperTrader, p: &Params, reg: &KnobRegistry, fill: &FillLens)
    requires
        old(pt).wf(),
        reg.wf(),
        well_typed(p@, *reg),
    ensures
        final(pt).wf(),
        final(pt)@ == (Book { gaps: final(pt)@.gaps, ..old(pt)@ }),
        final(pt).knobs == configured(old(pt).knobs, p@, *reg, *fill),
        gap_views(final(pt).stop_gap_bps_asset@) == gap_views(fill.stop_gap_bps_asset@),
{
    proof {
        law_well_typed_bags_serve_a_run(p@, *reg);
    }
    let mode = fill.entry_fill_mode.as_str();
    let k = pt.knobs;
    let rest_on_ready = str_eq(mode, "rest_on_ready");
    pt.knobs = Knobs {
        min_score: k.min_score,
        rr_target: k.rr_target,
        max_hold_candles: k.max_hold_candles,
        use_fees: p.get_bool(reg, "fees"),
        breakeven_r: p.get_f64(reg, "breakeven_r"),
        trail_lock_r: p.get_f64(reg, "trail_lock_r"),
        stop_gap_bps_default: fill.stop_gap_bps_default,
        partial_tp_r: p.get_f64(reg, "partial_tp_r"),
        risk_frac: p.get_f64(reg, "risk_frac"),
        account_size: p.get_f64(reg, "account_size"),
        allow_signal_bar_fill: fill.allow_signal_bar_fill,
        entry_slippage_r: fill.entry_slippage_r,
        intrabar_stop_first: fill.intrabar_stop_first,
        exit_gap_at_open: fill.exit_gap_at_open,
        hybrid_fill: str_eq(mode, "hybrid") || rest_on_ready,
        tick_fill: str_eq(mode, "tick"),
        tick_chase: fill.tick_chase,
        chase_r: fill.chase_r,
        chase_requires_seed: fill.chase_requires_seed,
        immediate_chase_at_open: fill.immediate_chase_at_open,
        race_maker_first: fill.race_maker_first,
        deferred_chase_at_open: fill.deferred_chase_at_open,
        past_entry_fee: if str_eq(fill.past_entry_fee.as_str(), "maker") {
            EntryFeeSide::Maker
        } else {
            EntryFeeSide::Taker
        },
        cancel_on_target_consumed: p.get_bool(reg, "cancel_on_target_consumed"),
        cancel_on_setup_invalidated: p.get_bool(reg, "cancel_on_setup_invalidated"),
        rest_on_ready_fill: rest_on_ready,
        rest_min_lead_secs: fill.rest_min_lead_secs,
        derisk_after_min: p.get_u32(reg, "derisk_after_min") as usize,
        derisk_below_r: p.get_f64(reg, "derisk_below_r"),
    };
    pt.stop_gap_bps_asset = dup_gaps(&fill.stop_gap_bps_asset);
}

// ─── Resolving ──────────────────────────────────────────────────────────────

/// Why a replay cannot run.
#[derive(Debug, Clone)]
pub enum ResolveError {
    /// What the run is refused with.
    Refused(String),
    /// The window's bounds.
    Window(WindowError),
}

/// A replay, resolved.
#[derive(Debug, Clone)]
pub struct ResolvedReplay {
    pub params: Params,
    pub fill: FillLens,
    pub assets: Vec<String>,
    pub sources: SourceMap,
    /// Sources that orders execute on; none: those decisions are made on.
    pub exec_sources: SourceMap,
    pub split_feed: bool,
    pub window: Window,
    pub timeframes: Vec<String>,
    pub roll_adjust: bool,
    pub tick_mode: bool,
    pub min_score: Num,
    pub rr: Num,
    pub max_hold: usize,
}

/// The factory that a file names is not the one that was selected.
pub open spec fn mismatch(file: Option<StrategyFile>, factory: Seq<char>) -> bool {
    file matches Some(f) && f.strategy_impl matches Some(n) && n@ != factory
}

/// The bag a run starts from: the file's, each other knob at its default.
pub open spec fn run_bag(file: Option<StrategyFile>) -> Map<Seq<char>, ValueView> {
    seeded(
        match file {
            Some(f) => f.params@,
            None => Map::empty(),
        },
        builtin(),
        builtin().len(),
    )
}

/// The name of the fee schedule: the command line's, else the bag's.
pub open spec fn schedule_name(
    args: ReplayArgs,
    file: Option<StrategyFile>,
    reg: KnobRegistry,
) -> Seq<char> {
    match args.fee_schedule {
        Some(s) => s@,
        None => reads(run_bag(file), reg, "fee_schedule"@)->0->Str_0,
    }
}

/// The flat schedule that declared contracts select: the first contract's.
/// Without one the schedule stays as it is.
pub open spec fn contracts_schedule(
    contracts: Seq<ContractEntry>,
    was: FeeSchedule,
) -> FeeSchedule {
    if contracts.len() == 0 {
        was
    } else if contracts[0].schedule@ == "futures_full"@ {
        FeeSchedule::FuturesFullSize
    } else {
        FeeSchedule::Futures
    }
}

/// The schedule a run is priced under: the one its name stands for, or,
/// without a name, the one that the declared contracts select.
pub open spec fn schedule_after(
    name: Seq<char>,
    contracts: Seq<ContractEntry>,
    was: FeeSchedule,
) -> Option<FeeSchedule> {
    if name.len() == 0 {
        Some(contracts_schedule(contracts, was))
    } else {
        schedule_named(lower(name))
    }
}

fn select_flat_schedule(tables: &mut FeeTables, contracts: &Vec<ContractEntry>)
    ensures
        *final(tables) == (FeeTables {
            schedule: contracts_schedule(contracts@, old(tables).schedule),
            ..*old(tables)
        }),
{
    if contracts.len() > 0 {
        if str_eq(contracts[0].schedule.as_str(), "futures_full") {
            set_schedule(tables, FeeSchedule::FuturesFullSize);
        } else {
            set_schedule(tables, FeeSchedule::Futures);
        }
    }
}

/// The contracts a file declares.
pub open spec fn contracts_of(file: Option<StrategyFile>) -> Seq<ContractEntry> {
    match file {
        Some(f) => f.contracts@,
        None => Seq::empty(),
    }
}

/// What a run without assets is refused with.
pub const NO_ASSETS: &'static str =
    "no assets to run. Point --data-dir at a directory of `{ASSET}_{interval}.parquet` files, or name assets with -a.";

/// What a mismatch is refused with.
pub open spec fn mismatch_text(path: Seq<char>, named: Seq<char>, factory: Seq<char>) -> Seq<char> {
    path + " names factory \""@ + named + "\" but --factory selected \""@ + factory + "\""@
}

/// A replay is resolved as the command line, the files and what was found say.
pub open spec fn resolves_to(
    args: ReplayArgs,
    file: Option<StrategyFile>,
    fill: FillLens,
    factory_timeframes: Seq<String>,
    found: Seq<String>,
    reg: KnobRegistry,
    r: ResolvedReplay,
) -> bool {
    let exec = match file {
        Some(f) => declared(f.exec_sources@, f.exec_sources@.len()),
        None => Map::empty(),
    };
    &&& r.params@ == run_bag(file)
    &&& r.fill == fill
    &&& run_assets(
        named_assets(args.asset@, file),
        texts_of(found),
        texts_of(args.exclude_asset@),
        texts_of(r.assets@),
    )
    &&& r.assets@.len() > 0
    &&& r.sources@ == match file {
        Some(f) => declared(f.sources@, f.sources@.len()),
        None => Map::empty(),
    }
    &&& r.exec_sources@ == exec
    &&& r.split_feed == (exec != Map::<Seq<char>, Seq<SourceView>>::empty())
    &&& window_of(bound_day(args.from), bound_day(args.to), args.warmup_days as int) == Ok::<
        Window,
        WindowError,
    >(r.window)
    &&& texts_of(r.timeframes@) == with_new(
        texts_of(factory_timeframes),
        texts_of(args.timeframe@),
        args.timeframe@.len(),
    )
    &&& r.roll_adjust == (args.roll_adjust || (file matches Some(f) && f.roll_adjust))
    &&& r.tick_mode == (fill.entry_fill_mode@ == "tick"@)
    &&& r.min_score == f64_in(run_bag(file), reg, "min_score"@)
    &&& r.rr == f64_in(run_bag(file), reg, "rr"@)
    &&& r.max_hold == u32_in(run_bag(file), reg, "max_hold"@)
}

/// No asset is left to run.
pub open spec fn nothing_to_run(
    args: ReplayArgs,
    file: Option<StrategyFile>,
    found: Seq<String>,
) -> bool {
    run_assets(
        named_assets(args.asset@, file),
        texts_of(found),
        texts_of(args.exclude_asset@),
        Seq::empty(),
    )
}

/// Resolve a replay, once the factory was selected and the files were loaded:
/// register contracts and the fee schedule, choose the assets, fix the window.
/// `found` are the assets the data directories hold.
pub fn resolve(
    args: &ReplayArgs,
    file: &Option<StrategyFile>,
    fill: FillLens,
    factory: &str,
    factory_timeframes: &Vec<String>,
    found: &Vec<String>,
    reg: &KnobRegistry,
    tables: &mut FeeTables,
) -> (r: Result<ResolvedReplay, ResolveError>)
    requires
        reg.wf(),
        file matches Some(f) ==> well_typed(f.params@, *reg) && args.config_strategy is Some,
    ensures
        ({
            let name = schedule_name(*args, *file, *reg);
            let schedule = schedule_after(name, contracts_of(*file), old(tables).schedule);
            if mismatch(*file, factory@) {
                &&& *final(tables) == *old(tables)
                &&& r matches Err(ResolveError::Refused(s)) && s@ == mismatch_text(
                    args.config_strategy->0@,
                    file->0.strategy_impl->0@,
                    factory@,
                )
            } else {
                &&& contracts_added(*old(tables), *final(tables), contracts_of(*file))
                &&& match schedule {
                    None => {
                        &&& final(tables).schedule == old(tables).schedule
                        &&& r matches Err(ResolveError::Refused(s)) && s@ == unknown_schedule(
                            lower(name),
                        )
                    },
                    Some(f) => {
                        &&& final(tables).schedule == f
                        &&& if nothing_to_run(*args, *file, found@) {
                            r matches Err(ResolveError::Refused(s)) && s@ == NO_ASSETS@
                        } else {
                            match window_of(
                                bound_day(args.from),
                                bound_day(args.to),
                                args.warmup_days as int,
                            ) {
                                Err(e) => r matches Err(ResolveError::Window(w)) && w == e,
                                Ok(_) => r matches Ok(run) && resolves_to(
                                    *args,
                                    *file,
                                    fill,
                                    factory_timeframes@,
                                    found@,
                                    *reg,
                                    run,
                                ),
                            }
                        }
                    },
                }
            }
        }),
{
    let ghost t0 = *tables;
    if let Some(f) = file {
        if let Some(n) = &f.strategy_impl {
            if !str_eq(n.as_str(), factory) {
                let mut s = String::new();
                if let Some(path) = &args.config_strategy {
                    s.append(path.as_str());
                }
                s.append(" names factory \"");
                s.append(n.as_str());
                s.append("\" but --factory selected \"");
                s.append(factory);
                s.append("\"");
                proof {
                    assert(s@ =~= mismatch_text(
                        args.config_strategy->0@,
                        file->0.strategy_impl->0@,
                        factory@,
                    ));
                }
                return Err(ResolveError::Refused(s));
            }
        }
    }
    let mut roll_adjust = args.roll_adjust;
    let mut sources = SourceMap::new();
    let mut exec_sources = SourceMap::new();
    if let Some(f) = file {
        register_contracts(tables, &f.contracts);
        roll_adjust = roll_adjust || f.roll_adjust;
        sources = source_map_from(&f.sources);
        exec_sources = source_map_from(&f.exec_sources);
    }
    let mut params = Params::new();
    if let Some(f) = file {
        params.overlay(&f.params);
        proof {
            assert(params@ =~= f.params@);
        }
    }
    proof {
        assert(well_typed(params@, *reg));
        law_seeding_changes_no_reading(params@, *reg, builtin().len(), "fee_schedule"@);
    }
    seed_args_from_registry(reg, &mut params);
    proof {
        assert(params@ == run_bag(*file));
        law_well_typed_bags_serve_a_run(params@, *reg);
    }
    let name = match &args.fee_schedule {
        Some(s) => s.clone(),
        None => params.get_str(reg, "fee_schedule"),
    };
    assert(name@ == schedule_name(*args, *file, *reg));
    if crate::text::chars_of(name.as_str()).len() > 0 {
        match parse_schedule(name.as_str()) {
            Ok(s) => set_schedule(tables, s),
            Err(e) => return Err(ResolveError::Refused(e)),
        }
    } else if let Some(f) = file {
        select_flat_schedule(tables, &f.contracts);
    }
    let assets = choose_assets(&args.asset, file, found, &args.exclude_asset);
    proof {
        let named = named_assets(args.asset@, *file);
        let ex = texts_of(args.exclude_asset@);
        let got = texts_of(assets@);
        if nothing_to_run(*args, *file, found@) && named.len() == 0 && got.len() > 0 {
            let none = Seq::<Seq<char>>::empty();
            assert(got.contains(got[0]));
            assert(texts_of(found@).contains(got[0]) && !excluded(got[0], ex));
            assert(none.contains(got[0]));
        }
        if assets@.len() == 0 {
            assert(got =~= Seq::empty());
        }
    }
    if assets.len() == 0 {
        return Err(ResolveError::Refused(NO_ASSETS.to_owned()));
    }
    let window = match resolve_window(&args.from, &args.to, args.warmup_days) {
        Ok(w) => w,
        Err(e) => return Err(ResolveError::Window(e)),
    };
    let timeframes = all_timeframes(factory_timeframes, &args.timeframe);
    let split_feed = !exec_sources.is_empty();
    let tick_mode = str_eq(fill.entry_fill_mode.as_str(), "tick");
    let min_score: Num = params.get_f64(reg, "min_score");
    let rr: Num = params.get_f64(reg, "rr");
    let max_hold: usize = params.get_u32(reg, "max_hold") as usize;
    Ok(
        ResolvedReplay {
            params,
            fill,
            assets,
            sources,
            exec_sources,
            split_feed,
            window,
            timeframes,
            roll_adjust,
            tick_mode,
            min_score,
            rr,
            max_hold,
        },
    )
}

impl ResolvedReplay {
    /// A book configured as the run says: every asset's, and the one that is
    /// reported on.
    pub fn build_trader(&self, reg: &KnobRegistry) -> (r: PaperTrader)
        requires
            reg.wf(),
            well_typed(self.params@, *reg),
        ensures
            r.wf(),
            r@ == (Book { gaps: r@.gaps, ..empty_book() }),
            r.knobs == configured(
                default_knobs(self.min_score, self.rr, self.max_hold),
                self.params@,
                *reg,
                self.fill,
            ),
            gap_views(r.stop_gap_bps_asset@) == gap_views(self.fill.stop_gap_bps_asset@),
    {
        let mut pt = PaperTrader::new(self.min_score, self.rr, self.max_hold);
        apply_config(&mut pt, &self.params, reg, &self.fill);
        pt
    }
}

} // verus!
