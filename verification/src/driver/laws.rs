//! What a run is made of, in names, days and counts alone.
use vstd::prelude::*;
use crate::clock::Stamp;
use crate::data::sources::SourceView;
use crate::driver::args::ReplayArgs;
use crate::driver::factory::selected;
use crate::driver::feed::{
    asset_feed_of, concatenated, exec_feed_of, label_text, AssetFeed, ExecFeed,
};
use crate::driver::merge::{absorbed, all_absorbed, counts_fit, ready_joined, reported_of};
use crate::driver::resolve::{
    configured, contracts_with, declared, excluded, named_assets, product_tick, resolves_to,
    retained, run_bag, schedule_after, seeded, with_new, AssetSource, ContractEntry, FillLens,
    ResolvedReplay, StrategyFile,
};
use crate::driver::window::{window_of, WindowError};
use crate::fees::{EntryFeeSide, FeeSchedule};
use crate::models::{Candle, PaperTrade};
use crate::paper::book::{Book, Knobs, PaperTrader};
use crate::params::bag::reads;
use crate::params::knobs::builtin;
use crate::params::names::law_engine_knob_names_are_unique;
use crate::params::registry::KnobRegistry;
use crate::params::value::{KnobView, ValueView};
use crate::sort::lemma_filtered;
use crate::text::{occurs, texts_of, trimmed};

verus! {

// ─── Factories ──────────────────────────────────────────────────────────────

/// A named factory is looked for under its name, the word of the command line
/// before the file's. Without a name a lone factory is used, and several are
/// refused.
pub proof fn law_a_lone_factory_needs_no_name(
    explicit: &str,
    config: Option<&str>,
    names: Seq<Seq<char>>,
)
    ensures
        selected(Some(explicit), config, names) == selected(Some(explicit), None, names),
        selected(None, Some(explicit), names) == selected(Some(explicit), None, names),
        selected(None, None, names) is Ok <==> names.len() == 1,
        names.len() == 1 ==> selected(None, None, names) == Ok::<int, Seq<char>>(0),
        names.len() == 0 ==> selected(Some(explicit), config, names) is Err,
{
}

// ─── The window ─────────────────────────────────────────────────────────────

/// A window runs from the midnight that starts its first day to the one that
/// ends its last, and loading starts so many days earlier; a day that cannot be
/// read is refused, the first one's fault before the last one's.
pub proof fn law_a_window_covers_its_days(first: i32, last: i32, warmup_days: int)
    requires
        0 <= warmup_days <= u32::MAX,
        -95_746_129 + warmup_days <= first <= 95_745_399,
        -95_746_129 <= last < 95_745_399,
    ensures
        ({
            let w = window_of(Some(Some(first)), Some(Some(last)), warmup_days);
            let day: int = 172_800_000_000_000;
            &&& w is Ok
            &&& w->Ok_0.start == Some(((first - 719_163) * day) as i128)
            &&& w->Ok_0.end == Some(((last + 1 - 719_163) * day) as i128)
            &&& w->Ok_0.load_start == Some(((first - warmup_days - 719_163) * day) as i128)
        }),
        window_of(None, None, warmup_days) is Ok,
        window_of(None, None, warmup_days)->Ok_0.start is None,
        window_of(None, None, warmup_days)->Ok_0.end is None,
        window_of(None, None, warmup_days)->Ok_0.load_start is None,
        window_of(Some(None), Some(None), warmup_days) == Err::<
            crate::driver::window::Window,
            WindowError,
        >(WindowError::From),
        window_of(None, Some(None), warmup_days) == Err::<
            crate::driver::window::Window,
            WindowError,
        >(WindowError::To),
{
}

// ─── Feeds ──────────────────────────────────────────────────────────────────

/// A stream holds the candles of all series and no others.
pub proof fn law_a_stream_holds_every_series(series: Seq<Vec<Candle>>, n: nat, c: Candle)
    requires
        n <= series.len(),
    ensures
        concatenated(series, n).contains(c) <==> exists|k: int|
            0 <= k < n && (#[trigger] series[k])@.contains(c),
    decreases n,
{
    if n > 0 {
        law_a_stream_holds_every_series(series, (n - 1) as nat, c);
        let (a, b) = (concatenated(series, (n - 1) as nat), series[n - 1]@);
        let all = concatenated(series, n);
        if a.contains(c) {
            let i = choose|i: int| 0 <= i < a.len() && a[i] == c;
            assert(all[i] == c);
        }
        if b.contains(c) {
            let i = choose|i: int| 0 <= i < b.len() && b[i] == c;
            assert(all[a.len() + i] == c);
        }
    }
}

/// An asset without candles is skipped; prints are looked for only in the mode
/// that walks them, and missed where there are none. An execution feed of its
/// own is there where feeds are split, the asset has sources for it and they
/// have candles; missing where they have none; and shared otherwise.
pub proof fn law_feeds_come_to_what_was_loaded(
    candles: int,
    tick_mode: bool,
    ticks: int,
    split: bool,
    sources: int,
)
    requires
        0 <= candles,
        0 <= ticks,
        0 <= sources,
    ensures
        ({
            let a = asset_feed_of(candles, tick_mode, ticks);
            &&& a == AssetFeed::Skipped <==> candles == 0
            &&& a == AssetFeed::Bars <==> candles >= 1 && !tick_mode
            &&& a == AssetFeed::NoTicks <==> candles >= 1 && tick_mode && ticks == 0
            &&& a == AssetFeed::Ticks <==> candles >= 1 && tick_mode && ticks >= 1
        }),
        ({
            let e = exec_feed_of(split, sources, candles);
            &&& e == ExecFeed::Loaded <==> split && sources >= 1 && candles >= 1
            &&& e == ExecFeed::Missing <==> split && sources >= 1 && candles == 0
        }),
{
}

/// A run reports the trades that were signalled at or after its first instant,
/// in order, and without one all of them.
pub proof fn law_a_report_starts_at_its_window(
    trades: Seq<PaperTrade>,
    from: Option<Stamp>,
    t: PaperTrade,
)
    ensures
        reported_of(trades, from).contains(t) <==> trades.contains(t) && (from is Some
            ==> t.opened_at >= from->0),
        reported_of(trades, from) == trades.filter(
            |x: PaperTrade| from is None || x.opened_at >= from->0,
        ),
{
    let p = |x: PaperTrade| crate::driver::feed::in_report(x, from);
    let q = |x: PaperTrade| from is None || x.opened_at >= from->0;
    lemma_filtered(trades, p, t);
    assert forall|x: PaperTrade| #[trigger] p(x) == q(x) by {}
    assert(p =~= q);
}

// ─── Merging ────────────────────────────────────────────────────────────────

/// A merged ledger adds up: every count and every reason's count is the sum,
/// what was taken is what the ledger holds, its own trades come first and the
/// other's reported ones follow, and a trade that came along keeps the time its
/// setup was ready.
pub proof fn law_merged_books_add_up(
    b: Book,
    o: Book,
    from: Option<Stamp>,
    reason: Seq<char>,
    id: Seq<char>,
)
    requires
        counts_fit(b, o),
    ensures
        ({
            let m = absorbed(b, o, from);
            let kept = o.trades.filter(
                |x: PaperTrade| from is None || x.opened_at >= from->0,
            );
            let times = |s: Map<Seq<char>, usize>|
                if s.contains_key(reason) {
                    s[reason] as int
                } else {
                    0
                };
            let came = exists|i: int|
                0 <= i < kept.len() && (#[trigger] kept[i]).opportunity_id@ == id;
            &&& m.seen == b.seen + o.seen && m.taken == m.trades.len()
            &&& m.trades == b.trades + kept
            &&& m.skips.contains_key(reason) <==> b.skips.contains_key(reason)
                || o.skips.contains_key(reason)
            &&& m.skips.contains_key(reason) ==> m.skips[reason] == times(b.skips) + times(o.skips)
            &&& m.intervals == b.intervals + o.intervals
            &&& m.tape.resolved_bars == b.tape.resolved_bars + o.tape.resolved_bars
            &&& m.tape.fallback_bars == b.tape.fallback_bars + o.tape.fallback_bars
            &&& m.tape.walked == b.tape.walked + o.tape.walked
            &&& m.counters.maker_fills == b.counters.maker_fills + o.counters.maker_fills
            &&& came && o.ids.ready.contains_key(id) ==> m.ids.ready.contains_key(id)
                && m.ids.ready[id] == o.ids.ready[id]
            &&& !came || !o.ids.ready.contains_key(id) ==> (m.ids.ready.contains_key(id)
                <==> b.ids.ready.contains_key(id)) && m.ids.ready[id] == b.ids.ready[id]
            &&& m.open == b.open && m.pending == b.pending
        }),
{
    let kept = reported_of(o.trades, from);
    law_a_report_starts_at_its_window(o.trades, from, kept[0]);
    lemma_ready(b.ids.ready, o.ids.ready, kept, kept.len(), id);
}

proof fn lemma_ready(
    a: Map<Seq<char>, Stamp>,
    b: Map<Seq<char>, Stamp>,
    trades: Seq<PaperTrade>,
    n: nat,
    id: Seq<char>,
)
    requires
        n <= trades.len(),
    ensures
        ({
            let r = ready_joined(a, b, trades, n);
            let came = exists|i: int|
                0 <= i < n && (#[trigger] trades[i]).opportunity_id@ == id;
            &&& came && b.contains_key(id) ==> r.contains_key(id) && r[id] == b[id]
            &&& !came || !b.contains_key(id) ==> (r.contains_key(id) <==> a.contains_key(id))
                && r[id] == a[id]
        }),
    decreases n,
{
    if n > 0 {
        lemma_ready(a, b, trades, (n - 1) as nat, id);
        assert(trades[n - 1].opportunity_id@ == id || trades[n - 1].opportunity_id@ != id);
    }
}

// ─── Configuration ──────────────────────────────────────────────────────────

/// Of several entries for an asset the last one holds, and an asset without one
/// has no sources of its own.
pub proof fn law_the_last_entry_of_an_asset_holds(
    entries: Seq<AssetSource>,
    n: nat,
    k: int,
    i: int,
    asset: Seq<char>,
)
    requires
        n <= entries.len(),
        -1 <= k < n,
        k >= 0 ==> entries[k].asset@ == asset && 0 <= i < entries[k].files@.len(),
        forall|j: int| k < j < n ==> (#[trigger] entries[j]).asset@ != asset,
    ensures
        ({
            let m = declared(entries, n);
            &&& m.contains_key(asset) <==> k >= 0
            &&& k >= 0 ==> m[asset].len() == entries[k].files@.len() && m[asset][i].stem
                == entries[k].files@[i]@ && m[asset][i].scale == entries[k].scale
                && m[asset][i].offset == entries[k].offset
        }),
    decreases n,
{
    if n > 0 && k < n - 1 {
        assert(entries[n - 1].asset@ != asset);
        law_the_last_entry_of_an_asset_holds(entries, (n - 1) as nat, k, i, asset);
    }
}

/// A contract is entered under its own schedule: the full-size ones on the
/// full-size list and all others on the plain one. The last entry of an asset
/// holds.
pub proof fn law_contracts_are_entered_under_their_schedule(
    m: Map<Seq<char>, crate::fees::ContractSpec>,
    entries: Seq<ContractEntry>,
    full: bool,
    n: nat,
    k: int,
    asset: Seq<char>,
)
    requires
        n <= entries.len(),
        -1 <= k < n,
        k >= 0 ==> entries[k].asset@ == asset && (full <==> entries[k].schedule@
            == "futures_full"@),
        forall|j: int|
            k < j < n ==> (#[trigger] entries[j]).asset@ != asset || (full
                <==> entries[j].schedule@ != "futures_full"@),
    ensures
        ({
            let r = contracts_with(m, entries, full, n);
            &&& k >= 0 ==> r.contains_key(asset) && r[asset].point_value == entries[k].point_value
                && r[asset].round_turn == entries[k].round_turn
            &&& k < 0 ==> (r.contains_key(asset) <==> m.contains_key(asset)) && r[asset]
                == m[asset]
        }),
    decreases n,
{
    if n > 0 && k < n - 1 {
        let e = entries[n - 1];
        assert(entries[n - 1].asset@ != asset || (full <==> entries[n - 1].schedule@
            != "futures_full"@));
        law_contracts_are_entered_under_their_schedule(m, entries, full, (n - 1) as nat, k, asset);
    }
}

/// The schedule is the one named; without a name it follows the first contract,
/// and without contracts it stays.
pub proof fn law_the_schedule_follows_its_name(
    contracts: Seq<ContractEntry>,
    was: FeeSchedule,
    name: Seq<char>,
)
    ensures
        name.len() == 0 ==> {
            let s = schedule_after(name, contracts, was);
            &&& contracts.len() == 0 ==> s == Some(was)
            &&& contracts.len() > 0 && contracts[0].schedule@ == "futures_full"@ ==> s == Some(
                FeeSchedule::FuturesFullSize,
            )
            &&& contracts.len() > 0 && contracts[0].schedule@ != "futures_full"@ ==> s == Some(
                FeeSchedule::Futures,
            )
        },
        name.len() > 0 ==> schedule_after(name, contracts, was) == schedule_after(
            name,
            Seq::empty(),
            FeeSchedule::Perp,
        ),
{
}

/// Assets are left out when a word to exclude occurs in their name, and kept in
/// order when none does; the assets named on the command line come before the
/// file's.
pub proof fn law_assets_are_left_out_by_name(
    list: Seq<Seq<char>>,
    exclude: Seq<Seq<char>>,
    n: nat,
    args: Seq<String>,
    file: StrategyFile,
)
    requires
        n <= list.len(),
    ensures
        retained(list, exclude, n) == list.take(n as int).filter(
            |a: Seq<char>|
                forall|i: int| 0 <= i < exclude.len() ==> !occurs(a, #[trigger] exclude[i]),
        ),
        args.len() > 0 ==> named_assets(args, Some(file)) == texts_of(args),
        args.len() == 0 && file.assets is Some ==> named_assets(args, Some(file)) == texts_of(
            file.assets->0@,
        ),
        args.len() == 0 ==> named_assets(args, None).len() == 0,
    decreases n,
{
    reveal(Seq::filter);
    let stays = |a: Seq<char>|
        forall|i: int| 0 <= i < exclude.len() ==> !occurs(a, #[trigger] exclude[i]);
    let now = list.take(n as int);
    if n > 0 {
        law_assets_are_left_out_by_name(list, exclude, (n - 1) as nat, args, file);
        assert(now.drop_last() =~= list.take(n - 1));
        assert(now.last() == list[n - 1]);
        assert(stays(list[n - 1]) <==> !excluded(list[n - 1], exclude));
    } else {
        assert(now.filter(stays) =~= Seq::empty());
    }
}

/// Extra timeframes follow the factory's, each once.
pub proof fn law_extra_timeframes_follow(
    list: Seq<Seq<char>>,
    extra: Seq<Seq<char>>,
    n: nat,
    t: Seq<char>,
)
    requires
        n <= extra.len(),
    ensures
        ({
            let r = with_new(list, extra, n);
            &&& r.len() >= list.len() && r.take(list.len() as int) == list
            &&& r.contains(t) <==> list.contains(t) || extra.take(n as int).contains(t)
            &&& list.no_duplicates() ==> r.no_duplicates()
        }),
    decreases n,
{
    let r = with_new(list, extra, n);
    let (was, now) = (extra.take(n - 1), extra.take(n as int));
    if n > 0 {
        law_extra_timeframes_follow(list, extra, (n - 1) as nat, t);
        let rest = with_new(list, extra, (n - 1) as nat);
        let x = extra[n - 1];
        assert(now =~= was.push(x));
        if was.contains(t) {
            let i = choose|i: int| 0 <= i < was.len() && was[i] == t;
            assert(now[i] == t);
        }
        if t == x {
            assert(now[n - 1] == t);
        }
        if now.contains(t) && t != x {
            let i = choose|i: int| 0 <= i < now.len() && now[i] == t;
            assert(was[i] == t);
        }
        if !rest.contains(x) {
            assert(r.last() == x);
            if rest.contains(t) {
                let i = choose|i: int| 0 <= i < rest.len() && rest[i] == t;
                assert(r[i] == t);
            }
            if r.contains(t) && t != x {
                let i = choose|i: int| 0 <= i < r.len() && r[i] == t;
                assert(rest[i] == t);
            }
        }
        assert(r.take(list.len() as int) =~= rest.take(list.len() as int));
    } else {
        assert(r.take(list.len() as int) =~= list);
        assert(now.len() == 0);
    }
}

/// A micro contract moves in the ticks of the full one: leading `M`s do not
/// matter. Index futures move in quarters, gold in tenths, silver in half
/// cents, oil in cents; of others nothing is known.
pub proof fn law_micros_move_in_the_full_contracts_ticks(root: Seq<char>)
    ensures
        product_tick(trimmed(seq!['M'] + root, 'M')) == product_tick(trimmed(root, 'M')),
        product_tick("ES"@) == Some(0x3fd0_0000_0000_0000i64),
        product_tick("NQ"@) == product_tick("ES"@),
        product_tick("GC"@) == Some(0x3fb9_9999_9999_999ai64),
        product_tick("SI"@) == Some(0x3f74_7ae1_47ae_147bi64),
        product_tick("SIL"@) == product_tick("SI"@),
        product_tick("CL"@) == Some(0x3f84_7ae1_47ae_147bi64),
        product_tick(root) is Some <==> root == "ES"@ || root == "NQ"@ || root == "GC"@ || root
            == "SI"@ || root == "SIL"@ || root == "CL"@,
{
    reveal_strlit("ES");
    reveal_strlit("NQ");
    reveal_strlit("GC");
    reveal_strlit("SI");
    reveal_strlit("SIL");
    reveal_strlit("CL");
    let s = seq!['M'] + root;
    assert(s.skip(1) =~= root);
    assert("GC"@[0] == 'G' && "ES"@[0] == 'E' && "NQ"@[0] == 'N' && "SI"@[0] == 'S' && "SIL"@[0]
        == 'S' && "CL"@[0] == 'C');
}

/// A fill mode turns on one model of fills: hybrid alone, hybrid with orders
/// that rest from readiness, or the walk of prints; any other mode is the plain
/// limit. The past-entry fee is a taker's unless it says maker. What a run is
/// asked for beyond that comes over as it is.
pub proof fn law_the_mode_sets_how_orders_fill(
    k: Knobs,
    bag: Map<Seq<char>, ValueView>,
    reg: KnobRegistry,
    fill: FillLens,
)
    ensures
        ({
            let c = configured(k, bag, reg, fill);
            let mode = fill.entry_fill_mode@;
            &&& c.tick_fill <==> mode == "tick"@
            &&& c.rest_on_ready_fill <==> mode == "rest_on_ready"@
            &&& c.hybrid_fill <==> mode == "hybrid"@ || mode == "rest_on_ready"@
            &&& c.past_entry_fee == EntryFeeSide::Maker <==> fill.past_entry_fee@ == "maker"@
            &&& c.min_score == k.min_score && c.rr_target == k.rr_target && c.max_hold_candles
                == k.max_hold_candles
            &&& c.allow_signal_bar_fill == fill.allow_signal_bar_fill && c.entry_slippage_r
                == fill.entry_slippage_r && c.intrabar_stop_first == fill.intrabar_stop_first
                && c.exit_gap_at_open == fill.exit_gap_at_open
            &&& c.tick_chase == fill.tick_chase && c.chase_r == fill.chase_r
                && c.chase_requires_seed == fill.chase_requires_seed && c.immediate_chase_at_open
                == fill.immediate_chase_at_open && c.race_maker_first == fill.race_maker_first
                && c.deferred_chase_at_open == fill.deferred_chase_at_open
            &&& c.rest_min_lead_secs == fill.rest_min_lead_secs && c.stop_gap_bps_default
                == fill.stop_gap_bps_default
        }),
{
}

/// A run's label names its factory, its assets and its candles, in that order.
pub proof fn law_a_label_names_the_run(factory: Seq<char>, assets: Seq<Seq<char>>, candles: int)
    ensures
        ({
            let l = label_text(factory, assets, candles);
            l.take(factory.len() as int) == factory
        }),
{
    let l = label_text(factory, assets, candles);
    assert(l.take(factory.len() as int) =~= factory);
}

/// A run is resolved from its arguments and its file: rolls are adjusted where
/// either asks for it, prints are walked in their mode, feeds are split where
/// an execution source is declared, and the threshold, the target and the hold
/// are those of the knobs. There is an asset to run.
pub proof fn law_a_run_is_resolved_from_its_arguments(
    args: ReplayArgs,
    file: Option<StrategyFile>,
    fill: FillLens,
    factory_timeframes: Seq<String>,
    found: Seq<String>,
    reg: KnobRegistry,
    r: ResolvedReplay,
)
    requires
        resolves_to(args, file, fill, factory_timeframes, found, reg, r),
    ensures
        r.assets@.len() >= 1,
        r.roll_adjust <==> args.roll_adjust || (file is Some && file->0.roll_adjust),
        r.tick_mode <==> fill.entry_fill_mode@ == "tick"@,
        file is None ==> !r.split_feed && r.sources@ == Map::<Seq<char>, Seq<SourceView>>::empty(),
        file is Some && file->0.exec_sources@.len() == 0 ==> !r.split_feed,
        file is Some && file->0.exec_sources@.len() > 0 ==> r.split_feed,
        reads(r.params@, reg, "min_score"@) is Some && reads(r.params@, reg, "min_score"@)->0
            is F64 ==> reads(r.params@, reg, "min_score"@) == Some(ValueView::F64(r.min_score)),
        reads(r.params@, reg, "rr"@) is Some && reads(r.params@, reg, "rr"@)->0 is F64 ==> reads(
            r.params@,
            reg,
            "rr"@,
        ) == Some(ValueView::F64(r.rr)),
        reads(r.params@, reg, "max_hold"@) is Some && reads(r.params@, reg, "max_hold"@)->0 is U32
            ==> reads(r.params@, reg, "max_hold"@) == Some(ValueView::U32(r.max_hold as u32)),
{
    if file is Some && file->0.exec_sources@.len() > 0 {
        let e = file->0.exec_sources@;
        let last = e[e.len() - 1].asset@;
        assert(declared(e, e.len()).contains_key(last));
    }
}

/// A knob that the file sets is run as set, and an engine knob that it does not
/// set is run at its default.
pub proof fn law_a_run_takes_the_files_settings(f: StrategyFile, i: int, name: Seq<char>)
    requires
        0 <= i < builtin().len(),
    ensures
        f.params@.contains_key(name) ==> run_bag(Some(f)).contains_key(name) && run_bag(
            Some(f),
        )[name] == f.params@[name],
        !f.params@.contains_key(builtin()[i].name) ==> run_bag(Some(f)).contains_key(
            builtin()[i].name,
        ) && run_bag(Some(f))[builtin()[i].name] == builtin()[i].default,
{
    lemma_seeded(f.params@, builtin(), builtin().len(), name);
    if !f.params@.contains_key(builtin()[i].name) {
        assert forall|j: int| 0 <= j < i implies (#[trigger] builtin()[j]).name
            != builtin()[i].name by {
            law_engine_knob_names_are_unique(j, i);
        }
        lemma_seeded_default(f.params@, builtin(), builtin().len(), i);
    }
}

proof fn lemma_seeded(
    bag: Map<Seq<char>, ValueView>,
    knobs: Seq<KnobView>,
    n: nat,
    name: Seq<char>,
)
    requires
        n <= knobs.len(),
    ensures
        bag.contains_key(name) ==> seeded(bag, knobs, n).contains_key(name) && seeded(
            bag,
            knobs,
            n,
        )[name] == bag[name],
    decreases n,
{
    if n > 0 {
        lemma_seeded(bag, knobs, (n - 1) as nat, name);
    }
}

proof fn lemma_seeded_default(
    bag: Map<Seq<char>, ValueView>,
    knobs: Seq<KnobView>,
    n: nat,
    i: int,
)
    requires
        0 <= i < knobs.len(),
        n <= knobs.len(),
        !bag.contains_key(knobs[i].name),
        forall|j: int| 0 <= j < i ==> (#[trigger] knobs[j]).name != knobs[i].name,
    ensures
        n <= i ==> !seeded(bag, knobs, n).contains_key(knobs[i].name),
        n > i ==> seeded(bag, knobs, n).contains_key(knobs[i].name) && seeded(
            bag,
            knobs,
            n,
        )[knobs[i].name] == knobs[i].default,
    decreases n,
{
    if n > 0 {
        lemma_seeded_default(bag, knobs, (n - 1) as nat, i);
        if n - 1 < i {
            assert(knobs[n - 1].name != knobs[i].name);
        }
    }
}

/// Books are merged in turn into the first.
pub proof fn law_books_are_merged_in_turn(
    b: Book,
    books: Seq<PaperTrader>,
    from: Option<Stamp>,
    n: nat,
)
    ensures
        all_absorbed(b, books, from, 0) == b,
        all_absorbed(b, books, from, n + 1) == absorbed(
            all_absorbed(b, books, from, n),
            books[n as int]@,
            from,
        ),
{
}

} // verus!
