//! Scanners on one configuration that saw the same bars are alike.
use vstd::prelude::*;
use crate::liquidity::cfg::{ScannerCfg, SignificanceCfg};
use crate::liquidity::draw::{
    all_cands, level_cands, Boosts, DrawMap, DrawQuotes, DrawState, TargetQuote,
};
use crate::liquidity::equal::EqState;
use crate::liquidity::gaps::Fvg;
use crate::liquidity::levels::{joins_at, lemma_absorber, level_added, Band, Level, NewLevel, Reg};
use crate::liquidity::query::{draw_rebuilt, gaps_kept, registry_kept, signals_kept};
use crate::liquidity::runs::{is_run, op_done, ScanOp};
use crate::liquidity::scanner::{
    additions, all_added, atr_now, bar_room, bars_of, breaks_now, clusters_now, eq_additions,
    eq_due, gap_store_after, gaps_now, registry_filled, ring_of, session_now, swings_now, Addition,
    BarEvents, ScanQuote, Scanner,
};
use crate::liquidity::setup::{entries_of, gap_sigs, rows_of, set_up, tf_named, tf_table};
use crate::liquidity::source::{info_ok, names_of, SourceInfo, Sources};
use crate::liquidity::step::{active_gaps, lemma_additions, stepped};
use crate::key::Num;
use crate::models::{Candle, Names};

verus! {

/// The same highs, lows, count and emitted buckets.
pub open spec fn eq_alike(a: Option<EqState>, b: Option<EqState>) -> bool {
    match (a, b) {
        (Some(x), Some(y)) => x.count == y.count && x.highs@ == y.highs@ && x.lows@ == y.lows@
            && x.last_close == y.last_close && x.emitted@ == y.emitted@,
        (None, None) => true,
        _ => false,
    }
}

/// The same name and the same facts.
pub open spec fn info_alike(a: SourceInfo, b: SourceInfo) -> bool {
    a.name@ == b.name@ && a.grid == b.grid && a.tf_scaled == b.tf_scaled && a.draw_sig == b.draw_sig
}

/// The same sources under the same ids, and the same tables.
pub open spec fn sources_alike(a: Sources, b: Sources) -> bool {
    &&& a.infos@.len() == b.infos@.len()
    &&& forall|i: int| 0 <= i < a.infos@.len() ==> info_alike(#[trigger] a.infos@[i], b.infos@[i])
    &&& a.significance == b.significance
    &&& a.draw_sources@ == b.draw_sources@
    &&& a.tf_rows@ == b.tf_rows@
}

/// The same configuration, sources, tables and ids.
pub open spec fn same_setup(a: Scanner, b: Scanner) -> bool {
    &&& a.cfg == b.cfg
    &&& sources_alike(a.sources, b.sources)
    &&& a.ids == b.ids
    &&& a.open_mark_src@ == b.open_mark_src@
    &&& a.ring_cap == b.ring_cap
    &&& a.tf_minutes@ == b.tf_minutes@
    &&& a.fvg_sig@ == b.fvg_sig@
}

/// The same targets as of the same bar.
pub open spec fn map_alike(a: Option<DrawMap>, b: Option<DrawMap>) -> bool {
    match (a, b) {
        (Some(x), Some(y)) => x.ts == y.ts && x.price == y.price && x.atr == y.atr && x.targets@
            == y.targets@,
        (None, None) => true,
        _ => false,
    }
}

/// The same sweeps that can boost, map and incumbent.
pub open spec fn draw_alike(a: DrawState, b: DrawState) -> bool {
    &&& a.recent_sweeps@ == b.recent_sweeps@
    &&& map_alike(a.map, b.map)
    &&& a.top1 == b.top1
}

/// The same setup and the same derived state: bars, ATR, levels, crossings,
/// signals, gaps, sessions, equal levels, draw map and day.
pub open spec fn alike(a: Scanner, b: Scanner) -> bool {
    &&& same_setup(a, b)
    &&& forall|tf: u16| #[trigger] ring_of(a.rings@, tf) == ring_of(b.rings@, tf)
    &&& a.atr_cache@ == b.atr_cache@
    &&& a.candle_count == b.candle_count
    &&& a.base_count == b.base_count
    &&& a.registry@ == b.registry@
    &&& a.signals.signals@ == b.signals.signals@
    &&& a.sess.periods == b.sess.periods
    &&& a.sess.runs@ == b.sess.runs@
    &&& a.sess.open_mark_date@ == b.sess.open_mark_date@
    &&& eq_alike(a.eq, b.eq)
    &&& a.gaps@ == b.gaps@
    &&& draw_alike(a.draw, b.draw)
    &&& a.day_forming == b.day_forming
    &&& a.last_atr == b.last_atr
}

/// The same events.
pub open spec fn same_events(a: BarEvents, b: BarEvents) -> bool {
    &&& a.atr == b.atr
    &&& a.sweeps@ == b.sweeps@
    &&& a.breaks@ == b.breaks@
    &&& a.day_closed == b.day_closed
    &&& a.draw_due == b.draw_due
}

// ─── A rebuild erases history ───────────────────────────────────────────────

proof fn lemma_same_id(a: Sources, b: Sources, x: u16, y: u16)
    requires
        names_of(a.infos@) == names_of(b.infos@),
        names_of(a.infos@).no_duplicates(),
        x < a.infos@.len(),
        y < b.infos@.len(),
        a.infos@[x as int].name@ == b.infos@[y as int].name@,
    ensures
        x == y,
{
    let n = names_of(a.infos@);
    assert(n[x as int] == a.infos@[x as int].name@);
    assert(names_of(b.infos@)[y as int] == b.infos@[y as int].name@);
    assert(n.len() == a.infos@.len() && names_of(b.infos@).len() == b.infos@.len());
}

proof fn lemma_same_table<V>(a: Names, b: Names, entries: Seq<(Seq<char>, V)>, n: nat)
    requires
        a.timeframes@ == b.timeframes@,
    ensures
        tf_table(a, entries, n) == tf_table(b, entries, n),
    decreases n,
{
    if n > 0 {
        lemma_same_table(a, b, entries, (n - 1) as nat);
        assert(tf_named(a, entries[n - 1].0) == tf_named(b, entries[n - 1].0));
    }
}

proof fn lemma_same_sources(a: Scanner, b: Scanner, cfg: ScannerCfg, sig: SignificanceCfg, na: Names, nb: Names)
    requires
        a.wf(),
        b.wf(),
        set_up(a, cfg, sig, na),
        set_up(b, cfg, sig, nb),
        na.timeframes@ == nb.timeframes@,
    ensures
        sources_alike(a.sources, b.sources),
{
    lemma_same_table(na, nb, rows_of(sig.tf_mult@), sig.tf_mult@.len());
    let (x, y) = (a.sources, b.sources);
    assert(names_of(x.infos@).len() == names_of(y.infos@).len());
    assert forall|i: int| 0 <= i < x.infos@.len() implies info_alike(
        #[trigger] x.infos@[i],
        y.infos@[i],
    ) by {
        assert(names_of(x.infos@)[i] == names_of(y.infos@)[i]);
        assert(info_ok(x, x.infos@[i]));
        assert(info_ok(y, y.infos@[i]));
    }
}

proof fn lemma_same_ids(a: Scanner, b: Scanner, cfg: ScannerCfg, sig: SignificanceCfg, na: Names, nb: Names)
    requires
        a.wf(),
        b.wf(),
        set_up(a, cfg, sig, na),
        set_up(b, cfg, sig, nb),
        na.timeframes@ == nb.timeframes@,
    ensures
        a.ids == b.ids,
        a.open_mark_src@ == b.open_mark_src@,
{
    let (x, y) = (a.sources, b.sources);
    let (p, q) = (a.ids.period, b.ids.period);
    lemma_same_id(x, y, p.pdh, q.pdh);
    lemma_same_id(x, y, p.pdl, q.pdl);
    lemma_same_id(x, y, p.pwh, q.pwh);
    lemma_same_id(x, y, p.pwl, q.pwl);
    lemma_same_id(x, y, p.pmh, q.pmh);
    lemma_same_id(x, y, p.pml, q.pml);
    lemma_same_id(x, y, p.session_high, q.session_high);
    lemma_same_id(x, y, p.session_low, q.session_low);
    lemma_same_id(x, y, a.ids.swing_high, b.ids.swing_high);
    lemma_same_id(x, y, a.ids.swing_low, b.ids.swing_low);
    lemma_same_id(x, y, a.ids.eqh, b.ids.eqh);
    lemma_same_id(x, y, a.ids.eql, b.ids.eql);
    assert(a.open_mark_src@ =~= b.open_mark_src@) by {
        assert forall|k: int| 0 <= k < a.open_mark_src@.len() implies a.open_mark_src@[k]
            == b.open_mark_src@[k] by {
            let (m, n) = (a.open_mark_src@[k], b.open_mark_src@[k]);
            assert(x.infos@[m as int].name@ == cfg.sessions.open_marks@[k].source@);
            assert(y.infos@[n as int].name@ == cfg.sessions.open_marks@[k].source@);
            lemma_same_id(x, y, m, n);
        }
    }
}

/// Whatever two scanners had seen, once both are set up anew on one
/// configuration they are alike: the difference in history is erased.
pub proof fn law_rebuilding_erases_history(
    a: Scanner,
    b: Scanner,
    cfg: ScannerCfg,
    sig: SignificanceCfg,
    na: Names,
    nb: Names,
)
    requires
        a.wf(),
        b.wf(),
        set_up(a, cfg, sig, na),
        set_up(b, cfg, sig, nb),
        na.timeframes@ == nb.timeframes@,
    ensures
        alike(a, b),
{
    lemma_same_sources(a, b, cfg, sig, na, nb);
    lemma_same_ids(a, b, cfg, sig, na, nb);
    lemma_same_table(
        na,
        nb,
        entries_of(cfg.levels.tf_minutes@),
        cfg.levels.tf_minutes@.len(),
    );
    lemma_same_table(na, nb, gap_sigs(cfg), gap_sigs(cfg).len());
    assert(a.registry@.levels =~= b.registry@.levels);
    assert(a.registry@.devs =~= b.registry@.devs);
    assert(a.signals.signals@ =~= b.signals.signals@);
    assert(a.sess.runs@ =~= b.sess.runs@);
    assert(a.sess.open_mark_date@ =~= b.sess.open_mark_date@);
    assert(a.gaps@.fvgs =~= b.gaps@.fvgs);
    assert(a.gaps@.active =~= b.gaps@.active);
    assert(a.draw.recent_sweeps@ =~= b.draw.recent_sweeps@);
    match (a.eq, b.eq) {
        (Some(x), Some(y)) => {
            assert(x.highs@ =~= y.highs@);
            assert(x.lows@ =~= y.lows@);
            assert(x.emitted@ =~= y.emitted@);
        },
        _ => {},
    }
}

// ─── Alike scanners stay alike ──────────────────────────────────────────────

/// Every level's source is known.
spec fn sources_known(r: Reg, n: int) -> bool {
    forall|i: int| 0 <= i < r.levels.len() ==> (#[trigger] r.levels[i]).source < n
}

proof fn lemma_same_added(r: Reg, a: Sources, b: Sources, n: NewLevel, band: Option<Band>)
    requires
        sources_alike(a, b),
        sources_known(r, a.infos@.len() as int),
        n.source < a.infos@.len(),
    ensures
        level_added(r, a, n, band) == level_added(r, b, n, band),
        sources_known(level_added(r, a, n, band), a.infos@.len() as int),
{
    if let Some(x) = band {
        lemma_absorber(r.levels, n.side, x, 0);
    }
    let i = joins_at(r.levels, n, band);
    let source = if i < r.levels.len() {
        r.levels[i].source
    } else {
        n.source
    };
    assert(info_alike(a.infos@[source as int], b.infos@[source as int]));
}

proof fn lemma_same_all_added(r: Reg, a: Sources, b: Sources, list: Seq<Addition>, n: nat)
    requires
        sources_alike(a, b),
        sources_known(r, a.infos@.len() as int),
        n <= list.len(),
        forall|k: int| 0 <= k < list.len() ==> (#[trigger] list[k]).0.source < a.infos@.len(),
    ensures
        all_added(r, a, list, n) == all_added(r, b, list, n),
        sources_known(all_added(r, a, list, n), a.infos@.len() as int),
    decreases n,
{
    if n > 0 {
        lemma_same_all_added(r, a, b, list, (n - 1) as nat);
        let before = all_added(r, a, list, (n - 1) as nat);
        assert(list[n - 1].0.source < a.infos@.len());
        lemma_same_added(before, a, b, list[n - 1].0, list[n - 1].1);
    }
}

/// Scanners that are alike and take in the same bar stay alike and produce
/// the same events.
pub proof fn law_alike_scanners_stay_alike(
    a: Scanner,
    b: Scanner,
    a2: Scanner,
    b2: Scanner,
    c: Candle,
    q: ScanQuote,
    ra: BarEvents,
    rb: BarEvents,
)
    requires
        alike(a, b),
        a.wf(),
        bar_room(a, c, q),
        stepped(a, a2, c, q, ra),
        stepped(b, b2, c, q, rb),
    ensures
        alike(a2, b2),
        same_events(ra, rb),
{
    assert(bars_of(a, c) == bars_of(b, c));
    assert(atr_now(a, c, q) == atr_now(b, c, q));
    assert(swings_now(a, c) == swings_now(b, c));
    assert(gaps_now(a, c, q) == gaps_now(b, c, q));
    assert(breaks_now(a, c, q) == breaks_now(b, c, q));
    assert(session_now(a, c) == session_now(b, c));
    let atr = atr_now(a, c, q);
    if eq_due(a, c, atr) {
        assert(clusters_now(a, c, q) == clusters_now(b, c, q));
    }
    assert(eq_additions(a, c, q, atr) == eq_additions(b, c, q, atr));
    assert(additions(a, c, q) == additions(b, c, q));
    let list = additions(a, c, q);
    lemma_additions(a, c, q, atr);
    lemma_same_all_added(a.registry@, a.sources, b.sources, list, list.len());
    assert(registry_filled(a, c, q) == registry_filled(b, c, q));
    assert(gap_store_after(a, c, q) == gap_store_after(b, c, q));
    assert forall|tf: u16| #[trigger] ring_of(a2.rings@, tf) == ring_of(b2.rings@, tf) by {
        if tf == c.timeframe {
        } else {
            assert(ring_of(a.rings@, tf) == ring_of(b.rings@, tf));
            assert(ring_of(b2.rings@, tf) == ring_of(b.rings@, tf));
        }
    }
}

proof fn lemma_same_level_cands(
    a: Sources,
    b: Sources,
    levels: Seq<Level>,
    quotes: Seq<TargetQuote>,
    price: Num,
    boosts: Boosts,
    n: nat,
)
    requires
        sources_alike(a, b),
        n <= levels.len(),
        forall|i: int| 0 <= i < levels.len() ==> (#[trigger] levels[i]).source < a.infos@.len(),
    ensures
        level_cands(a.infos@, levels, quotes, price, boosts, n) == level_cands(
            b.infos@,
            levels,
            quotes,
            price,
            boosts,
            n,
        ),
    decreases n,
{
    if n > 0 {
        lemma_same_level_cands(a, b, levels, quotes, price, boosts, (n - 1) as nat);
        let source = levels[n - 1].source;
        assert(info_alike(a.infos@[source as int], b.infos@[source as int]));
    }
}

proof fn lemma_same_cands(
    a: Sources,
    b: Sources,
    levels: Seq<Level>,
    gaps: Seq<Fvg>,
    sigs: Map<u16, Num>,
    q: DrawQuotes,
    price: Num,
    boosts: Boosts,
)
    requires
        sources_alike(a, b),
        forall|i: int| 0 <= i < levels.len() ==> (#[trigger] levels[i]).source < a.infos@.len(),
    ensures
        all_cands(a.infos@, levels, gaps, sigs, q, price, boosts) == all_cands(
            b.infos@,
            levels,
            gaps,
            sigs,
            q,
            price,
            boosts,
        ),
{
    lemma_same_level_cands(a, b, levels, q.levels@, price, boosts, levels.len());
}

/// The same call with the same inputs.
pub open spec fn same_op(x: ScanOp, y: ScanOp) -> bool {
    match (x, y) {
        (ScanOp::Add { n, band }, ScanOp::Add { n: n2, band: band2 }) => n == n2 && band == band2,
        (ScanOp::Bar { c, q, r }, ScanOp::Bar { c: c2, q: q2, r: r2 }) => c == c2 && q == q2,
        (ScanOp::Draw { c, ev, q }, ScanOp::Draw { c: c2, ev: ev2, q: q2 }) => c == c2
            && same_events(ev, ev2) && q == q2,
        (ScanOp::Hooks { c, atr, q }, ScanOp::Hooks { c: c2, atr: atr2, q: q2 }) => c == c2 && atr
            == atr2 && q == q2,
        _ => false,
    }
}

/// The same call, and the same events where it is a bar.
pub open spec fn same_outcome(x: ScanOp, y: ScanOp) -> bool {
    &&& same_op(x, y)
    &&& (x matches ScanOp::Bar { c, q, r } ==> same_events(r, y->r))
}

/// Scanners that are alike stay alike under the same call, whichever it is.
pub proof fn law_the_same_call_keeps_scanners_alike(
    a: Scanner,
    b: Scanner,
    a2: Scanner,
    b2: Scanner,
    x: ScanOp,
    y: ScanOp,
)
    requires
        alike(a, b),
        same_op(x, y),
        op_done(a, a2, x),
        op_done(b, b2, y),
    ensures
        alike(a2, b2),
        same_outcome(x, y),
{
    match x {
        ScanOp::Add { n, band } => {
            lemma_same_added(a.registry@, a.sources, b.sources, n, band);
        },
        ScanOp::Bar { c, q, r } => {
            law_alike_scanners_stay_alike(a, b, a2, b2, c, q, r, y->r);
        },
        ScanOp::Draw { c, ev, q } => {
            lemma_draw_stays_alike(a, b, a2, b2, c, ev, y->ev, q);
        },
        ScanOp::Hooks { c, atr, q } => {
            assert(registry_kept(a, c, atr, q) == registry_kept(b, c, atr, q));
            assert(gaps_kept(a) == gaps_kept(b));
            assert(signals_kept(a) == signals_kept(b));
        },
    }
}

proof fn lemma_draw_stays_alike(
    a: Scanner,
    b: Scanner,
    a2: Scanner,
    b2: Scanner,
    c: Candle,
    ea: BarEvents,
    eb: BarEvents,
    q: DrawQuotes,
)
    requires
        alike(a, b),
        a.wf(),
        same_events(ea, eb),
        a2 == (Scanner { draw: a2.draw, ..a }),
        b2 == (Scanner { draw: b2.draw, ..b }),
        draw_rebuilt(a, a2.draw, c, ea, q),
        draw_rebuilt(b, b2.draw, c, eb, q),
    ensures
        alike(a2, b2),
{
    assert(a.registry.levels@ == b.registry@.levels);
    assert forall|boosts: Boosts|
        all_cands(
            a.sources.infos@,
            a.registry.levels@,
            active_gaps(a.gaps@),
            a.fvg_sig@,
            q,
            c.close,
            boosts,
        ) == #[trigger] all_cands(
            b.sources.infos@,
            b.registry.levels@,
            active_gaps(b.gaps@),
            b.fvg_sig@,
            q,
            c.close,
            boosts,
        ) by {
        lemma_same_cands(
            a.sources,
            b.sources,
            a.registry.levels@,
            active_gaps(a.gaps@),
            a.fvg_sig@,
            q,
            c.close,
            boosts,
        );
    }
    if let (Some(x), Some(y)) = (a2.draw.map, b2.draw.map) {
        assert(x.targets@ =~= y.targets@);
    }
}

/// Over any tape the state of a scanner is a function of the tape and the
/// configuration alone: two scanners set up on one configuration, whatever
/// they had seen before, that go through the same calls with the same inputs
/// are alike after every one of them and produce the same events.
pub proof fn law_state_follows_from_tape_and_configuration(
    a: Seq<Scanner>,
    b: Seq<Scanner>,
    x: Seq<ScanOp>,
    y: Seq<ScanOp>,
    cfg: ScannerCfg,
    sig: SignificanceCfg,
    na: Names,
    nb: Names,
    n: nat,
)
    requires
        is_run(a, x),
        is_run(b, y),
        x.len() == y.len(),
        forall|i: int| 0 <= i < x.len() ==> same_op(#[trigger] x[i], y[i]),
        a[0].wf(),
        b[0].wf(),
        set_up(a[0], cfg, sig, na),
        set_up(b[0], cfg, sig, nb),
        na.timeframes@ == nb.timeframes@,
        n <= x.len(),
    ensures
        alike(a[n as int], b[n as int]),
        forall|i: int| 0 <= i < n ==> same_outcome(#[trigger] x[i], y[i]),
    decreases n,
{
    if n == 0 {
        law_rebuilding_erases_history(a[0], b[0], cfg, sig, na, nb);
    } else {
        law_state_follows_from_tape_and_configuration(
            a,
            b,
            x,
            y,
            cfg,
            sig,
            na,
            nb,
            (n - 1) as nat,
        );
        assert(op_done(a[n - 1], a[n - 1 + 1], x[n - 1]));
        assert(op_done(b[n - 1], b[n - 1 + 1], y[n - 1]));
        law_the_same_call_keeps_scanners_alike(
            a[n - 1],
            b[n - 1],
            a[n as int],
            b[n as int],
            x[n - 1],
            y[n - 1],
        );
    }
}

} // verus!
