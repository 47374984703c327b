//! Making a scanner.
use vstd::prelude::*;
use crate::key::Num;
use crate::liquidity::cfg::{len_of, to_len, ScannerCfg, SignificanceCfg};
use crate::liquidity::draw::DrawState;
use crate::liquidity::equal::EqState;
use crate::liquidity::gaps::GapStore;
use crate::liquidity::levels::Registry;
use crate::liquidity::scanner::{cfg_ok, Scanner, ScannerIds};
use crate::liquidity::session::{empty_range, PeriodIds, Periods, SessionRun, SessionState};
use crate::liquidity::signals::SignalStore;
use crate::liquidity::source::{names_of, Sources};
use crate::models::{interned, tf_id, Candle, Names, POOL_CAP};
use crate::tfmap::TfMap;

verus! {

/// The place of a timeframe in the pool, as its id.
pub open spec fn tf_named(names: Names, tf: Seq<char>) -> u16 {
    names.timeframes@.index_of(tf) as u16
}

/// The first `n` entries of a table by timeframe; a later entry of the same
/// timeframe overrides an earlier one.
pub open spec fn tf_table<V>(names: Names, entries: Seq<(Seq<char>, V)>, n: nat) -> Map<u16, V>
    decreases n,
{
    if n == 0 {
        Map::empty()
    } else {
        tf_table(names, entries, (n - 1) as nat).insert(
            tf_named(names, entries[n - 1].0),
            entries[n - 1].1,
        )
    }
}

/// The entries of a configured table.
pub open spec fn entries_of(list: Seq<(String, Num)>) -> Seq<(Seq<char>, Num)> {
    Seq::new(list.len(), |i: int| (list[i].0@, list[i].1))
}

/// The grid rows of the timeframes with a multiplier.
pub open spec fn rows_of(list: Seq<String>) -> Seq<(Seq<char>, usize)> {
    Seq::new(list.len(), |i: int| (list[i]@, (i + 1) as usize))
}

/// The gap significances that are configured.
pub open spec fn gap_sigs(cfg: ScannerCfg) -> Seq<(Seq<char>, Num)> {
    match cfg.draw {
        Some(d) => entries_of(d.fvg_sig@),
        None => Seq::empty(),
    }
}

/// The names of the equal-level sources.
pub open spec fn eq_names(cfg: ScannerCfg) -> (Seq<char>, Seq<char>) {
    match cfg.equal_levels {
        Some(e) => (e.high_source@, e.low_source@),
        None => ("equal_highs"@, "equal_lows"@),
    }
}

/// Each id is that of its source's or its timeframe's name.
pub open spec fn ids_named(s: Scanner, names: Names) -> bool {
    let i = s.sources.infos@;
    let p = s.ids.period;
    &&& i[p.pdh as int].name@ == "pdh"@
    &&& i[p.pdl as int].name@ == "pdl"@
    &&& i[p.pwh as int].name@ == "pwh"@
    &&& i[p.pwl as int].name@ == "pwl"@
    &&& i[p.pmh as int].name@ == "pmh"@
    &&& i[p.pml as int].name@ == "pml"@
    &&& i[p.session_high as int].name@ == "session_high"@
    &&& i[p.session_low as int].name@ == "session_low"@
    &&& i[s.ids.swing_high as int].name@ == s.cfg.primitives.swing_high_source@
    &&& i[s.ids.swing_low as int].name@ == s.cfg.primitives.swing_low_source@
    &&& i[s.ids.eqh as int].name@ == eq_names(s.cfg).0
    &&& i[s.ids.eql as int].name@ == eq_names(s.cfg).1
    &&& forall|k: int|
        0 <= k < s.open_mark_src@.len() ==> i[#[trigger] s.open_mark_src@[k] as int].name@
            == s.cfg.sessions.open_marks@[k].source@
    &&& s.ids.base_tf == tf_named(names, s.cfg.base_tf@)
    &&& p.tf_1d == tf_named(names, "1D"@)
    &&& p.tf_1w == tf_named(names, "1W"@)
    &&& p.tf_1mo == tf_named(names, "1M"@)
}

/// The names of the sources that a scanner knows from the start, in the order
/// they are looked up: the fixed ones, the opening marks', those with a
/// significance of their own, and the eligible targets.
pub open spec fn source_list(cfg: ScannerCfg, sig: SignificanceCfg) -> Seq<Seq<char>> {
    fixed_names(cfg) + mark_names(cfg) + entry_names(sig.base@) + entry_names(draw_weights(cfg))
}

/// The names of the fixed sources.
pub open spec fn fixed_names(cfg: ScannerCfg) -> Seq<Seq<char>> {
    seq![
        "pdh"@,
        "pdl"@,
        "pwh"@,
        "pwl"@,
        "pmh"@,
        "pml"@,
        "session_high"@,
        "session_low"@,
        cfg.primitives.swing_high_source@,
        cfg.primitives.swing_low_source@,
        eq_names(cfg).0,
        eq_names(cfg).1,
    ]
}

/// The names of the opening marks' sources.
pub open spec fn mark_names(cfg: ScannerCfg) -> Seq<Seq<char>> {
    Seq::new(cfg.sessions.open_marks@.len(), |k: int| cfg.sessions.open_marks@[k].source@)
}

/// The names of some entries.
pub open spec fn entry_names<V>(list: Seq<(String, V)>) -> Seq<Seq<char>> {
    Seq::new(list.len(), |k: int| list[k].0@)
}

/// A pool once the first `n` names are looked up.
pub open spec fn all_interned(pool: Seq<Seq<char>>, list: Seq<Seq<char>>, n: nat) -> Seq<Seq<char>>
    decreases n,
{
    if n == 0 {
        pool
    } else {
        interned(all_interned(pool, list, (n - 1) as nat), list[n - 1])
    }
}

/// A scanner set up on a configuration, its timeframes numbered by a pool: a
/// fresh one whose ids, tables and sources all follow from the two.
pub open spec fn set_up(s: Scanner, cfg: ScannerCfg, sig: SignificanceCfg, names: Names) -> bool {
    &&& s.cfg == cfg
    &&& is_fresh(s)
    &&& s.ring_cap == ring_cap_of(cfg)
    &&& ids_named(s, names)
    &&& names_of(s.sources.infos@) == all_interned(
        Seq::empty(),
        source_list(cfg, sig),
        source_list(cfg, sig).len(),
    )
    &&& s.sources.significance == sig
    &&& s.sources.tf_rows@ == tf_table(names, rows_of(sig.tf_mult@), sig.tf_mult@.len())
    &&& s.sources.draw_sources@ == draw_weights(cfg)
    &&& s.tf_minutes@ == tf_table(
        names,
        entries_of(cfg.levels.tf_minutes@),
        cfg.levels.tf_minutes@.len(),
    )
    &&& s.fvg_sig@ == tf_table(names, gap_sigs(cfg), gap_sigs(cfg).len())
}

proof fn lemma_interned_in_two(pool: Seq<Seq<char>>, a: Seq<Seq<char>>, b: Seq<Seq<char>>, n: nat)
    requires
        n <= b.len(),
    ensures
        all_interned(pool, a + b, a.len() + n) == all_interned(
            all_interned(pool, a, a.len()),
            b,
            n,
        ),
    decreases n,
{
    if n == 0 {
        lemma_interned_start(pool, a, a + b, a.len());
    } else {
        lemma_interned_in_two(pool, a, b, (n - 1) as nat);
        assert((a + b)[a.len() + n - 1] == b[n - 1]);
    }
}

proof fn lemma_interned_start(pool: Seq<Seq<char>>, a: Seq<Seq<char>>, b: Seq<Seq<char>>, n: nat)
    requires
        forall|i: int| 0 <= i < n ==> a[i] == #[trigger] b[i],
    ensures
        all_interned(pool, a, n) == all_interned(pool, b, n),
    decreases n,
{
    if n > 0 {
        lemma_interned_start(pool, a, b, (n - 1) as nat);
        assert(a[n - 1] == b[n - 1]);
    }
}

/// The bars kept per timeframe: what the ATR and a swing need, at least four.
pub open spec fn ring_cap_of(cfg: ScannerCfg) -> int {
    let a = len_of(cfg.primitives.atr_period) + 2;
    let b = 2 * len_of(cfg.primitives.swing_lookback) + 2;
    let m = if a >= b {
        a
    } else {
        b
    };
    if m >= 4 {
        m
    } else {
        4
    }
}

/// Nothing has been seen yet.
pub open spec fn is_fresh(s: Scanner) -> bool {
    &&& s.rings@ == Map::<u16, Vec<Candle>>::empty()
    &&& s.atr_cache@ == Map::<u16, Num>::empty()
    &&& s.candle_count == 0
    &&& s.base_count == 0
    &&& s.registry.levels@.len() == 0
    &&& s.registry.next_level_id == 0
    &&& s.registry.developing@.len() == 0
    &&& s.signals.signals@.len() == 0
    &&& s.sess.periods == (Periods {
        date: None,
        week: None,
        month: None,
        day_range: empty_range(),
        week_range: empty_range(),
        month_range: empty_range(),
    })
    &&& forall|k: int|
        0 <= k < s.sess.runs@.len() ==> #[trigger] s.sess.runs@[k] == (SessionRun {
            range: empty_range(),
            active: false,
        })
    &&& forall|k: int|
        0 <= k < s.sess.open_mark_date@.len() ==> #[trigger] s.sess.open_mark_date@[k] is None
    &&& match s.eq {
        Some(e) => e.count == 0 && e.highs@.len() == 0 && e.lows@.len() == 0 && e.last_close == 0
            && e.emitted@.len() == 0,
        None => true,
    }
    &&& (s.eq is Some <==> (s.cfg.equal_levels matches Some(e) && e.enabled))
    &&& s.gaps.fvgs@.len() == 0
    &&& s.gaps.active@.len() == 0
    &&& s.draw.recent_sweeps@.len() == 0
    &&& s.draw.map is None
    &&& s.draw.top1 is None
    &&& s.day_forming is None
    &&& s.last_atr == 0
}

/// The pools have room for what the configuration names.
pub open spec fn pools_room(cfg: ScannerCfg, sig: SignificanceCfg, names: Names) -> bool {
    &&& names.timeframes@.len() + sig.tf_mult@.len() + cfg.levels.tf_minutes@.len()
        + gap_sigs(cfg).len() + 4 <= POOL_CAP
    &&& 12 + cfg.sessions.open_marks@.len() + sig.base@.len() + match cfg.draw {
        Some(d) => d.sources@.len(),
        None => 0,
    } <= POOL_CAP
}

/// A pool only grew, keeping its ids.
pub open spec fn grew(a: Seq<Seq<char>>, b: Seq<Seq<char>>) -> bool {
    a.len() <= b.len() && forall|i: int| 0 <= i < a.len() ==> #[trigger] b[i] == a[i]
}

/// Nothing but the timeframe pool changed, and it only grew.
pub open spec fn tfs_grew(a: Names, b: Names) -> bool {
    &&& b.wf()
    &&& grew(a.timeframes@, b.timeframes@)
    &&& b.sig_types == a.sig_types
    &&& b.assets == a.assets
    &&& b.base_tf == a.base_tf
    &&& b.signal_counter == a.signal_counter
}

proof fn lemma_id_kept(a: Names, b: Names, tf: Seq<char>, id: int)
    requires
        b.wf(),
        grew(a.timeframes@, b.timeframes@),
        0 <= id < a.timeframes@.len(),
        a.timeframes@[id] == tf,
    ensures
        tf_named(b, tf) == id,
{
    assert(b.timeframes@[id] == tf);
    assert(b.timeframes@.contains(tf));
    let k = b.timeframes@.index_of(tf);
    assert(b.timeframes@[k] == tf);
    assert(k == id);
}

fn intern_tf(names: &mut Names, tf: &str) -> (r: u16)
    requires
        old(names).wf(),
        old(names).timeframes@.len() < POOL_CAP,
    ensures
        tfs_grew(*old(names), *final(names)),
        final(names).timeframes@.len() <= old(names).timeframes@.len() + 1,
        r < final(names).timeframes@.len(),
        final(names).timeframes@[r as int] == tf@,
{
    tf_id(names, tf)
}

proof fn lemma_table_kept<V>(a: Names, b: Names, entries: Seq<(Seq<char>, V)>, n: nat)
    requires
        a.wf(),
        b.wf(),
        grew(a.timeframes@, b.timeframes@),
        n <= entries.len(),
        forall|i: int| 0 <= i < n ==> a.timeframes@.contains((#[trigger] entries[i]).0),
    ensures
        tf_table(a, entries, n) == tf_table(b, entries, n),
    decreases n,
{
    if n > 0 {
        lemma_table_kept(a, b, entries, (n - 1) as nat);
        let tf = entries[n - 1].0;
        assert(a.timeframes@.contains(tf));
        let k = a.timeframes@.index_of(tf);
        assert(a.timeframes@[k] == tf && 0 <= k < a.timeframes@.len());
        lemma_id_kept(a, b, tf, k);
    }
}

fn table_of(names: &mut Names, list: &Vec<(String, Num)>) -> (r: TfMap<Num>)
    requires
        old(names).wf(),
        old(names).timeframes@.len() + list@.len() <= POOL_CAP,
    ensures
        tfs_grew(*old(names), *final(names)),
        final(names).timeframes@.len() <= old(names).timeframes@.len() + list@.len(),
        forall|i: int|
            0 <= i < list@.len() ==> final(names).timeframes@.contains(
                (#[trigger] entries_of(list@)[i]).0,
            ),
        r@ == tf_table(*final(names), entries_of(list@), list@.len()),
{
    let ghost n0 = *names;
    let ghost e = entries_of(list@);
    let mut out: TfMap<Num> = TfMap::new();
    let mut i: usize = 0;
    while i < list.len()
        invariant
            i <= list@.len(),
            e == entries_of(list@),
            n0.wf(),
            names.wf(),
            tfs_grew(n0, *names),
            names.timeframes@.len() <= n0.timeframes@.len() + i,
            n0.timeframes@.len() + list@.len() <= POOL_CAP,
            forall|k: int| 0 <= k < i ==> names.timeframes@.contains((#[trigger] e[k]).0),
            out@ == tf_table(*names, e, i as nat),
        decreases list@.len() - i,
    {
        let ghost before = *names;
        let id: u16 = intern_tf(names, list[i].0.as_str());
        proof {
            lemma_table_kept(before, *names, e, i as nat);
            lemma_id_kept(*names, *names, e[i as int].0, id as int);
            assert forall|k: int| 0 <= k < i + 1 implies names.timeframes@.contains(
                (#[trigger] e[k]).0,
            ) by {
                if k < i {
                    assert(before.timeframes@.contains(e[k].0));
                    let m = before.timeframes@.index_of(e[k].0);
                    assert(names.timeframes@[m] == e[k].0);
                } else {
                    assert(names.timeframes@[id as int] == e[k].0);
                }
            }
        }
        out.insert(id, list[i].1);
        i = i + 1;
    }
    out
}

fn rows_table(names: &mut Names, list: &Vec<String>) -> (r: TfMap<usize>)
    requires
        old(names).wf(),
        old(names).timeframes@.len() + list@.len() <= POOL_CAP,
    ensures
        tfs_grew(*old(names), *final(names)),
        final(names).timeframes@.len() <= old(names).timeframes@.len() + list@.len(),
        forall|i: int|
            0 <= i < list@.len() ==> final(names).timeframes@.contains(
                (#[trigger] rows_of(list@)[i]).0,
            ),
        r@ == tf_table(*final(names), rows_of(list@), list@.len()),
        forall|tf: u16| #[trigger] r@.contains_key(tf) ==> r@[tf] <= list@.len(),
{
    let ghost n0 = *names;
    let ghost e = rows_of(list@);
    let mut out: TfMap<usize> = TfMap::new();
    let mut i: usize = 0;
    while i < list.len()
        invariant
            i <= list@.len(),
            e == rows_of(list@),
            n0.wf(),
            names.wf(),
            tfs_grew(n0, *names),
            names.timeframes@.len() <= n0.timeframes@.len() + i,
            n0.timeframes@.len() + list@.len() <= POOL_CAP,
            forall|k: int| 0 <= k < i ==> names.timeframes@.contains((#[trigger] e[k]).0),
            out@ == tf_table(*names, e, i as nat),
            forall|tf: u16| #[trigger] out@.contains_key(tf) ==> out@[tf] <= list@.len(),
        decreases list@.len() - i,
    {
        let ghost before = *names;
        let id: u16 = intern_tf(names, list[i].as_str());
        proof {
            lemma_table_kept(before, *names, e, i as nat);
            lemma_id_kept(*names, *names, e[i as int].0, id as int);
            assert forall|k: int| 0 <= k < i + 1 implies names.timeframes@.contains(
                (#[trigger] e[k]).0,
            ) by {
                if k < i {
                    assert(before.timeframes@.contains(e[k].0));
                    let m = before.timeframes@.index_of(e[k].0);
                    assert(names.timeframes@[m] == e[k].0);
                } else {
                    assert(names.timeframes@[id as int] == e[k].0);
                }
            }
        }
        out.insert(id, i + 1);
        i = i + 1;
    }
    out
}

/// The sources only grew.
pub open spec fn sources_grew(a: Sources, b: Sources) -> bool {
    &&& b.wf()
    &&& b.same_tables(a)
    &&& a.infos@.len() <= b.infos@.len()
    &&& forall|i: int| 0 <= i < a.infos@.len() ==> #[trigger] b.infos@[i] == a.infos@[i]
}

fn intern_source(s: &mut Sources, name: &str) -> (r: u16)
    requires
        old(s).wf(),
        old(s).infos@.len() < POOL_CAP,
    ensures
        sources_grew(*old(s), *final(s)),
        final(s).infos@.len() <= old(s).infos@.len() + 1,
        r < final(s).infos@.len(),
        final(s).infos@[r as int].name@ == name@,
        names_of(final(s).infos@) == interned(names_of(old(s).infos@), name@),
{
    let r = s.intern(name);
    proof {
        assert(names_of(s.infos@).len() == s.infos@.len());
    }
    r
}

/// The fixed sources one by one: the periods' and sessions' first, then the
/// swings' and the equal levels'.
proof fn lemma_fixed_names(cfg: ScannerCfg, none: Seq<Seq<char>>, periods: Seq<Seq<char>>)
    requires
        none == Seq::<Seq<char>>::empty(),
        periods == period_names(none),
    ensures
        all_interned(none, fixed_names(cfg), 12) == interned(
            interned(
                interned(
                    interned(periods, cfg.primitives.swing_high_source@),
                    cfg.primitives.swing_low_source@,
                ),
                eq_names(cfg).0,
            ),
            eq_names(cfg).1,
        ),
{
    let list = fixed_names(cfg);
    assert(all_interned(none, list, 1) == interned(all_interned(none, list, 0), list[0]));
    assert(all_interned(none, list, 2) == interned(all_interned(none, list, 1), list[1]));
    assert(all_interned(none, list, 3) == interned(all_interned(none, list, 2), list[2]));
    assert(all_interned(none, list, 4) == interned(all_interned(none, list, 3), list[3]));
    assert(all_interned(none, list, 5) == interned(all_interned(none, list, 4), list[4]));
    assert(all_interned(none, list, 6) == interned(all_interned(none, list, 5), list[5]));
    assert(all_interned(none, list, 7) == interned(all_interned(none, list, 6), list[6]));
    assert(all_interned(none, list, 8) == interned(all_interned(none, list, 7), list[7]));
    assert(all_interned(none, list, 9) == interned(all_interned(none, list, 8), list[8]));
    assert(all_interned(none, list, 10) == interned(all_interned(none, list, 9), list[9]));
    assert(all_interned(none, list, 11) == interned(all_interned(none, list, 10), list[10]));
    assert(all_interned(none, list, 12) == interned(all_interned(none, list, 11), list[11]));
}

/// A pool after the periods' and the sessions' sources.
spec fn period_names(pool: Seq<Seq<char>>) -> Seq<Seq<char>> {
    let days = interned(interned(pool, "pdh"@), "pdl"@);
    let weeks = interned(interned(days, "pwh"@), "pwl"@);
    let months = interned(interned(weeks, "pmh"@), "pml"@);
    interned(interned(months, "session_high"@), "session_low"@)
}

/// The ids of the periods' and the sessions' sources.
fn intern_periods(s: &mut Sources, tfs: (u16, u16, u16)) -> (p: PeriodIds)
    requires
        old(s).wf(),
        old(s).infos@.len() == 0,
    ensures
        sources_grew(*old(s), *final(s)),
        final(s).infos@.len() <= 8,
        p.tf_1d == tfs.0,
        p.tf_1w == tfs.1,
        p.tf_1mo == tfs.2,
        ({
            let i = final(s).infos@;
            &&& p.pdh < i.len() && i[p.pdh as int].name@ == "pdh"@
            &&& p.pdl < i.len() && i[p.pdl as int].name@ == "pdl"@
            &&& p.pwh < i.len() && i[p.pwh as int].name@ == "pwh"@
            &&& p.pwl < i.len() && i[p.pwl as int].name@ == "pwl"@
            &&& p.pmh < i.len() && i[p.pmh as int].name@ == "pmh"@
            &&& p.pml < i.len() && i[p.pml as int].name@ == "pml"@
            &&& p.session_high < i.len() && i[p.session_high as int].name@ == "session_high"@
            &&& p.session_low < i.len() && i[p.session_low as int].name@ == "session_low"@
        }),
        names_of(final(s).infos@) == period_names(names_of(old(s).infos@)),
{
    let pdh: u16 = intern_source(s, "pdh");
    let pdl: u16 = intern_source(s, "pdl");
    let pwh: u16 = intern_source(s, "pwh");
    let pwl: u16 = intern_source(s, "pwl");
    let pmh: u16 = intern_source(s, "pmh");
    let pml: u16 = intern_source(s, "pml");
    let session_high: u16 = intern_source(s, "session_high");
    let session_low: u16 = intern_source(s, "session_low");
    PeriodIds {
        pdh,
        pdl,
        pwh,
        pwl,
        pmh,
        pml,
        session_high,
        session_low,
        tf_1d: tfs.0,
        tf_1w: tfs.1,
        tf_1mo: tfs.2,
    }
}

/// The ids of the fixed sources; the timeframe ids are still to be filled in.
fn intern_fixed(s: &mut Sources, cfg: &ScannerCfg, base_tf: u16, tfs: (u16, u16, u16)) -> (r: ScannerIds)
    requires
        old(s).wf(),
        old(s).infos@.len() == 0,
    ensures
        sources_grew(*old(s), *final(s)),
        final(s).infos@.len() <= 12,
        r.base_tf == base_tf,
        r.period.tf_1d == tfs.0,
        r.period.tf_1w == tfs.1,
        r.period.tf_1mo == tfs.2,
        ({
            let i = final(s).infos@;
            let p = r.period;
            &&& p.pdh < i.len() && i[p.pdh as int].name@ == "pdh"@
            &&& p.pdl < i.len() && i[p.pdl as int].name@ == "pdl"@
            &&& p.pwh < i.len() && i[p.pwh as int].name@ == "pwh"@
            &&& p.pwl < i.len() && i[p.pwl as int].name@ == "pwl"@
            &&& p.pmh < i.len() && i[p.pmh as int].name@ == "pmh"@
            &&& p.pml < i.len() && i[p.pml as int].name@ == "pml"@
            &&& p.session_high < i.len() && i[p.session_high as int].name@ == "session_high"@
            &&& p.session_low < i.len() && i[p.session_low as int].name@ == "session_low"@
            &&& r.swing_high < i.len() && i[r.swing_high as int].name@
                == cfg.primitives.swing_high_source@
            &&& r.swing_low < i.len() && i[r.swing_low as int].name@
                == cfg.primitives.swing_low_source@
            &&& r.eqh < i.len() && i[r.eqh as int].name@ == eq_names(*cfg).0
            &&& r.eql < i.len() && i[r.eql as int].name@ == eq_names(*cfg).1
        }),
        names_of(final(s).infos@) == all_interned(Seq::empty(), fixed_names(*cfg), 12),
{
    let ghost none = names_of(s.infos@);
    let period = intern_periods(s, tfs);
    proof {
        assert(none =~= Seq::empty());
        lemma_fixed_names(*cfg, none, names_of(s.infos@));
    }
    let swing_high: u16 = intern_source(s, cfg.primitives.swing_high_source.as_str());
    let swing_low: u16 = intern_source(s, cfg.primitives.swing_low_source.as_str());
    let eqh: u16 = match &cfg.equal_levels {
        Some(e) => intern_source(s, e.high_source.as_str()),
        None => intern_source(s, "equal_highs"),
    };
    let eql: u16 = match &cfg.equal_levels {
        Some(e) => intern_source(s, e.low_source.as_str()),
        None => intern_source(s, "equal_lows"),
    };
    ScannerIds {
        base_tf,
        period,
        swing_high,
        swing_low,
        eqh,
        eql,
    }
}

fn intern_marks(s: &mut Sources, cfg: &ScannerCfg) -> (r: Vec<u16>)
    requires
        old(s).wf(),
        old(s).infos@.len() + cfg.sessions.open_marks@.len() <= POOL_CAP,
    ensures
        sources_grew(*old(s), *final(s)),
        final(s).infos@.len() <= old(s).infos@.len() + cfg.sessions.open_marks@.len(),
        r@.len() == cfg.sessions.open_marks@.len(),
        forall|k: int|
            0 <= k < r@.len() ==> (#[trigger] r@[k]) < final(s).infos@.len() && final(s).infos@[r@[k] as int].name@ == cfg.sessions.open_marks@[k].source@,
        names_of(final(s).infos@) == all_interned(
            names_of(old(s).infos@),
            mark_names(*cfg),
            mark_names(*cfg).len(),
        ),
{
    let ghost s0 = *s;
    let mut out: Vec<u16> = Vec::new();
    let mut k: usize = 0;
    while k < cfg.sessions.open_marks.len()
        invariant
            k <= cfg.sessions.open_marks@.len(),
            s.wf(),
            sources_grew(s0, *s),
            s.infos@.len() <= s0.infos@.len() + k,
            s0.infos@.len() + cfg.sessions.open_marks@.len() <= POOL_CAP,
            out@.len() == k,
            forall|j: int|
                0 <= j < k ==> (#[trigger] out@[j]) < s.infos@.len() && s.infos@[out@[j] as int].name@
                    == cfg.sessions.open_marks@[j].source@,
            names_of(s.infos@) == all_interned(
                names_of(s0.infos@),
                mark_names(*cfg),
                k as nat,
            ),
        decreases cfg.sessions.open_marks@.len() - k,
    {
        let id: u16 = intern_source(s, cfg.sessions.open_marks[k].source.as_str());
        out.push(id);
        k = k + 1;
    }
    out
}

fn intern_configured(s: &mut Sources)
    requires
        old(s).wf(),
        old(s).infos@.len() + old(s).significance.base@.len() + old(s).draw_sources@.len()
            <= POOL_CAP,
    ensures
        sources_grew(*old(s), *final(s)),
        ({
            let a = entry_names(old(s).significance.base@);
            let b = entry_names(old(s).draw_sources@);
            names_of(final(s).infos@) == all_interned(
                all_interned(names_of(old(s).infos@), a, a.len()),
                b,
                b.len(),
            )
        }),
{
    let ghost s0 = *s;
    let ghost a = entry_names(s0.significance.base@);
    let ghost b = entry_names(s0.draw_sources@);
    let n: usize = s.significance.base.len();
    let mut i: usize = 0;
    while i < n
        invariant
            i <= n,
            n == s0.significance.base@.len(),
            s.wf(),
            sources_grew(s0, *s),
            s.infos@.len() <= s0.infos@.len() + i,
            s0.infos@.len() + n + s0.draw_sources@.len() <= POOL_CAP,
            a == entry_names(s0.significance.base@),
            names_of(s.infos@) == all_interned(names_of(s0.infos@), a, i as nat),
        decreases n - i,
    {
        let name = s.significance.base[i].0.clone();
        intern_source(s, name.as_str());
        i = i + 1;
    }
    let m: usize = s.draw_sources.len();
    let mut j: usize = 0;
    while j < m
        invariant
            j <= m,
            m == s0.draw_sources@.len(),
            n == s0.significance.base@.len(),
            s.wf(),
            sources_grew(s0, *s),
            s.infos@.len() <= s0.infos@.len() + n + j,
            s0.infos@.len() + n + m <= POOL_CAP,
            b == entry_names(s0.draw_sources@),
            names_of(s.infos@) == all_interned(
                all_interned(names_of(s0.infos@), a, a.len()),
                b,
                j as nat,
            ),
        decreases m - j,
    {
        let name = s.draw_sources[j].0.clone();
        intern_source(s, name.as_str());
        j = j + 1;
    }
}

/// The draw weights of the configured sources.
pub open spec fn draw_weights(cfg: ScannerCfg) -> Seq<(String, Num)> {
    match cfg.draw {
        Some(d) => d.sources@,
        None => Seq::empty(),
    }
}

fn copy_entries(list: &Vec<(String, Num)>) -> (r: Vec<(String, Num)>)
    ensures
        r@ == list@,
{
    let mut out: Vec<(String, Num)> = Vec::new();
    let mut i: usize = 0;
    while i < list.len()
        invariant
            i <= list@.len(),
            out@ == list@.subrange(0, i as int),
        decreases list@.len() - i,
    {
        out.push((list[i].0.clone(), list[i].1));
        i = i + 1;
        proof {
            assert(out@ =~= list@.subrange(0, i as int));
        }
    }
    proof {
        assert(out@ =~= list@);
    }
    out
}

impl Scanner {
    /// A scanner that has seen nothing.
    #[verifier::rlimit(40)]
    pub fn new(cfg: ScannerCfg, significance: SignificanceCfg, names: &mut Names) -> (r: Self)
        requires
            cfg_ok(cfg),
            significance.wf(),
            old(names).wf(),
            pools_room(cfg, significance, *old(names)),
        ensures
            r.wf(),
            set_up(r, cfg, significance, *final(names)),
            r.wake@.len() == 0,
            !r.wake_book,
            tfs_grew(*old(names), *final(names)),
    {
        let ghost n0 = *names;
        let tf_rows = rows_table(names, &significance.tf_mult);
        let ghost n1 = *names;
        let tf_minutes = table_of(names, &cfg.levels.tf_minutes);
        let ghost n2 = *names;
        let fvg_sig = match &cfg.draw {
            Some(d) => table_of(names, &d.fvg_sig),
            None => TfMap::new(),
        };
        let ghost n3 = *names;
        let base_tf: u16 = intern_tf(names, cfg.base_tf.as_str());
        let ghost n4 = *names;
        let tf_1d: u16 = intern_tf(names, "1D");
        let ghost n5 = *names;
        let tf_1w: u16 = intern_tf(names, "1W");
        let ghost n6 = *names;
        let tf_1mo: u16 = intern_tf(names, "1M");
        proof {
            lemma_table_kept(
                n1,
                *names,
                rows_of(significance.tf_mult@),
                significance.tf_mult@.len(),
            );
            lemma_table_kept(
                n2,
                *names,
                entries_of(cfg.levels.tf_minutes@),
                cfg.levels.tf_minutes@.len(),
            );
            lemma_table_kept(n3, *names, gap_sigs(cfg), gap_sigs(cfg).len());
            lemma_id_kept(n4, *names, cfg.base_tf@, base_tf as int);
            lemma_id_kept(n5, *names, "1D"@, tf_1d as int);
            lemma_id_kept(n6, *names, "1W"@, tf_1w as int);
            lemma_id_kept(*names, *names, "1M"@, tf_1mo as int);
        }
        let draw_sources = match &cfg.draw {
            Some(d) => copy_entries(&d.sources),
            None => Vec::new(),
        };
        let mut sources = Sources { infos: Vec::new(), significance, draw_sources, tf_rows };
        proof {
            assert(names_of(sources.infos@) =~= Seq::<Seq<char>>::empty());
        }
        let ids = intern_fixed(&mut sources, &cfg, base_tf, (tf_1d, tf_1w, tf_1mo));
        let open_mark_src = intern_marks(&mut sources, &cfg);
        intern_configured(&mut sources);
        proof {
            let (a, b) = (fixed_names(cfg), mark_names(cfg));
            let (c, d) = (entry_names(significance.base@), entry_names(draw_weights(cfg)));
            let none = Seq::<Seq<char>>::empty();
            lemma_interned_in_two(none, a, b, b.len());
            lemma_interned_in_two(none, a + b, c, c.len());
            lemma_interned_in_two(none, a + b + c, d, d.len());
        }
        let atr_len: usize = to_len(cfg.primitives.atr_period) + 2;
        let swing_len: usize = 2 * to_len(cfg.primitives.swing_lookback) + 2;
        let mut ring_cap: usize = if atr_len >= swing_len {
            atr_len
        } else {
            swing_len
        };
        if ring_cap < 4 {
            ring_cap = 4;
        }
        let eq = match &cfg.equal_levels {
            Some(e) => if e.enabled {
                Some(EqState::new())
            } else {
                None
            },
            None => None,
        };
        let sess = SessionState::new(&cfg.sessions);
        Scanner {
            cfg,
            sources,
            ids,
            open_mark_src,
            tf_minutes,
            fvg_sig,
            rings: TfMap::new(),
            ring_cap,
            atr_cache: TfMap::new(),
            candle_count: 0,
            base_count: 0,
            registry: Registry::new(),
            signals: SignalStore::new(),
            sess,
            eq,
            gaps: GapStore::new(),
            draw: DrawState::new(),
            day_forming: None,
            last_atr: 0,
            wake: Vec::new(),
            wake_book: false,
        }
    }

    /// The same scanner with every bar forgotten: a fresh one on the same
    /// configuration, with the strategy's wake settings carried over. Stepping
    /// it over a window of candles makes its state a function of the window
    /// and the configuration alone.
    pub fn rebuild_from(self, names: &mut Names) -> (r: Self)
        requires
            self.wf(),
            old(names).wf(),
            pools_room(self.cfg, self.sources.significance, *old(names)),
        ensures
            r.wf(),
            set_up(r, self.cfg, self.sources.significance, *final(names)),
            r.wake == self.wake,
            r.wake_book == self.wake_book,
            tfs_grew(*old(names), *final(names)),
    {
        let significance = self.sources.significance;
        let mut fresh = Scanner::new(self.cfg, significance, names);
        fresh.wake = self.wake;
        fresh.wake_book = self.wake_book;
        fresh
    }
}

} // verus!
