//! What a bar does to a scanner as a whole.
use vstd::prelude::*;
use crate::clock::civil_of;
use crate::key::Num;
use crate::liquidity::cfg::{len_of, DrawCfg, FvgCfg, ScannerCfg, SignificanceCfg, SweepCfg};
use crate::liquidity::draw::{
    cut, gap_cands, incumbent_kept, level_cands, ranked, targets_of, two_sided, Boosts, Candidate,
    DrawQuotes, DrawState, TargetQuote,
};
use crate::liquidity::equal::{last_n, EqState};
use crate::liquidity::gaps::{gap_added, Fvg, FvgStatus, Gaps};
use crate::liquidity::levels::{
    level_added, sweep_level, sweeps_after, Level, Reg, Status, SweepQuote,
};
use crate::liquidity::query::{active_count, draw_rebuilt, gaps_kept, on_cadence, signals_kept};
use crate::liquidity::scanner::{
    additions, all_added, atr_now, atr_of_bar, breaks_now, eq_additions, eq_due, eq_ok,
    gap_of_signal, gaps_now, gaps_tracked, ring_of, session_now, swings_now, terms_of, Addition,
    BarEvents, ScanQuote, Scanner,
};
use crate::liquidity::session::{mark_levels, period_levels, session_levels};
use crate::liquidity::setup::{ring_cap_of, rows_of, set_up, tf_table};
use crate::liquidity::signals::{GapQuote, Signal};
use crate::liquidity::source::{SourceInfo, Sources};
use crate::liquidity::step::stepped;
use crate::models::{Candle, Direction, Names};

verus! {

// ─── A bar ──────────────────────────────────────────────────────────────────

/// Three bars of a timeframe are measured; with fewer the last measure of the
/// timeframe stands, or zero where there is none.
pub proof fn law_three_bars_make_a_range(s: Scanner, tf: u16, bars: int, measured: Num)
    ensures
        bars >= 3 ==> atr_of_bar(s, tf, bars, measured) == measured,
        bars < 3 && s.atr_cache@.contains_key(tf) ==> atr_of_bar(s, tf, bars, measured)
            == s.atr_cache@[tf],
        bars < 3 && !s.atr_cache@.contains_key(tf) ==> atr_of_bar(s, tf, bars, measured) == 0,
{
}

/// A bar is counted once, and once more among the base bars where it is one. It
/// joins the bars of its own timeframe and no others. A positive range is the
/// last one known. What it finds is noted behind what was known: swings, then
/// gaps, then breaks; its breaks are reported. The day is followed on base bars
/// alone, where it is asked for. Nothing configured changes.
pub proof fn law_a_bar_moves_the_scanner_on(
    s: Scanner,
    t: Scanner,
    c: Candle,
    q: ScanQuote,
    r: BarEvents,
    tf: u16,
)
    requires
        stepped(s, t, c, q, r),
    ensures
        ({
            let base = c.timeframe == s.ids.base_tf;
            let known = s.signals.signals@;
            let (a, b, d) = (swings_now(s, c), gaps_now(s, c, q), breaks_now(s, c, q));
            &&& t.candle_count == s.candle_count + 1
            &&& base ==> t.base_count == s.base_count + 1
            &&& !base ==> t.base_count == s.base_count
            &&& ring_of(t.rings@, c.timeframe).last() == c || s.ring_cap == 0
            &&& tf != c.timeframe ==> ring_of(t.rings@, tf) == ring_of(s.rings@, tf)
            &&& r.atr > 0 ==> t.last_atr == r.atr
            &&& r.atr <= 0 ==> t.last_atr == s.last_atr
            &&& t.signals.signals@ == known + a + b + d
            &&& r.breaks@.len() == d.len()
            &&& forall|i: int|
                0 <= i < d.len() ==> (#[trigger] r.breaks@[i]).level == d[i].level && r.breaks@[i].dir
                    == d[i].dir && r.breaks@[i].ts == d[i].ts && r.breaks@[i].tf == d[i].tf
            &&& !(base && s.cfg.day_tracker) ==> t.day_forming == s.day_forming && r.day_closed
                is None
            &&& base && s.cfg.day_tracker ==> t.day_forming is Some && t.day_forming->0.close
                == c.close
            &&& t.cfg == s.cfg && t.sources == s.sources && t.ids == s.ids && t.draw == s.draw
        }),
{
}

/// A bar's new levels come in turn: those of its sessions and periods, which
/// merge with none, then its swings', then those of equal highs and lows.
pub proof fn law_new_levels_come_in_turn(s: Scanner, c: Candle, q: ScanQuote, i: int)
    requires
        0 <= i < additions(s, c, q).len(),
    ensures
        ({
            let all = additions(s, c, q);
            let (a, b) = (session_now(s, c), swings_now(s, c));
            let e = eq_additions(s, c, q, atr_now(s, c, q));
            &&& all.len() == a.len() + b.len() + e.len()
            &&& i < a.len() ==> all[i].0 == a[i] && all[i].1 is None
            &&& a.len() <= i < a.len() + b.len() ==> all[i].0.price == b[i - a.len()].level
                && all[i].0.ts == b[i - a.len()].ts
            &&& i >= a.len() + b.len() ==> all[i] == e[i - a.len() - b.len()] && all[i].1 is Some
        }),
{
}

/// Equal highs and lows are looked for on every so many-th base bar that has a
/// range, where they are asked for; on the bars between nothing is emitted. The
/// prices looked at are the last of a window, the newest last. With too many
/// buckets emitted the list starts over.
pub proof fn law_equal_levels_keep_their_cadence(
    s: Scanner,
    after: Option<EqState>,
    c: Candle,
    q: ScanQuote,
)
    requires
        eq_ok(s, after, c, q),
    ensures
        ({
            let atr = atr_now(s, c, q);
            let runs = s.cfg.equal_levels is Some && s.eq is Some && c.timeframe == s.ids.base_tf
                && 0 < atr;
            let every = s.cfg.equal_levels->0.every;
            let (was, now) = (s.eq->0, after->0);
            &&& eq_due(s, c, atr) <==> runs && every > 0 && (was.count + 1) % every as int == 0
            &&& !eq_due(s, c, atr) ==> eq_additions(s, c, q, atr).len() == 0
            &&& !runs ==> after == s.eq
            &&& runs ==> after is Some && now.count == was.count + 1 && now.last_close == c.close
            &&& runs && s.cfg.equal_levels->0.window > 0 ==> now.highs@.last() == c.high
                && now.lows@.last() == c.low
            &&& runs && !eq_due(s, c, atr) ==> now.emitted@ == was.emitted@
            &&& runs && eq_due(s, c, atr) && s.cfg.equal_levels->0.emitted_cap >= 0
                ==> now.emitted@.len() <= s.cfg.equal_levels->0.emitted_cap
        }),
{
}

/// A window holds the newest prices, as many as it is wide.
pub proof fn law_a_window_holds_the_newest(prices: Seq<Num>, n: int, i: int)
    requires
        0 <= n,
    ensures
        ({
            let w = last_n(prices, n);
            &&& w.len() == if prices.len() <= n {
                prices.len() as int
            } else {
                n
            }
            &&& 0 <= i < w.len() ==> w[i] == prices[prices.len() - w.len() + i]
        }),
{
}

// ─── After a bar ────────────────────────────────────────────────────────────

/// Gaps that are settled and signals past the cap are let go on every so
/// many-th bar and stay till then; nothing is on a cadence of zero.
pub proof fn law_clearing_waits_for_its_bar(s: Scanner)
    requires
        s.candle_count >= 0,
    ensures
        ({
            let every = s.cfg.levels.prune_every;
            let due = every > 0 && s.candle_count as int % every as int == 0;
            &&& due ==> signals_kept(s).len() <= len_of(s.cfg.primitives.signals_cap) || signals_kept(
                s,
            ) == s.signals.signals@
            &&& !due ==> signals_kept(s) == s.signals.signals@ && gaps_kept(s) == s.gaps@
            &&& gaps_kept(s).fvgs == s.gaps@.fvgs
        }),
        forall|n: i64| !#[trigger] on_cadence(n, 0),
{
}

/// The map is rebuilt when it is due, at the bar's time: without a price or a
/// range it is empty and the leader stays, else it holds the bar's close and
/// range and its first target is the leader. When it is not due it stays as it
/// is and the sweeps are remembered; without a map nothing changes.
pub proof fn law_the_map_is_rebuilt_when_due(
    s: Scanner,
    after: DrawState,
    c: Candle,
    ev: BarEvents,
    q: DrawQuotes,
)
    requires
        draw_rebuilt(s, after, c, ev, q),
    ensures
        ({
            let wanted = s.cfg.draw is Some && s.cfg.draw->0.enabled;
            let m = after.map->0;
            let blank = c.close <= 0 || ev.atr <= 0;
            &&& !wanted ==> after == s.draw
            &&& wanted && !ev.draw_due ==> after.map == s.draw.map && after.top1 == s.draw.top1
                && after.recent_sweeps@ == s.draw.recent_sweeps@ + ev.sweeps@
            &&& wanted && ev.draw_due ==> after.map is Some && m.ts as int == (c.timestamp as int
                / 2_000_000_000) as i64
            &&& wanted && ev.draw_due && blank ==> m.targets@.len() == 0 && after.top1
                == s.draw.top1
            &&& wanted && ev.draw_due && !blank ==> m.price == c.close && m.atr == ev.atr
            &&& wanted && ev.draw_due && !blank && m.targets@.len() > 0 ==> after.top1 == Some(
                (m.targets@[0].price, m.targets@[0].dir, m.targets@[0].draw_score),
            )
            &&& wanted && ev.draw_due && !blank && m.targets@.len() == 0 ==> after.top1
                == s.draw.top1
        }),
{
}

/// A level competes where it is active, in range and of a source that draws,
/// unless one of its source already does nearby; a gap where nothing has
/// mitigated it, it is in range and its timeframe draws. Levels come before
/// gaps, each in order.
pub proof fn law_active_levels_and_open_gaps_compete(
    infos: Seq<SourceInfo>,
    levels: Seq<Level>,
    quotes: Seq<TargetQuote>,
    price: Num,
    b: Boosts,
    n: nat,
    start: Seq<Candidate>,
    gaps: Seq<Fvg>,
    sigs: Map<u16, Num>,
    gap_quotes: Seq<TargetQuote>,
    m: nat,
)
    requires
        0 < n <= levels.len(),
        0 < m <= gaps.len(),
    ensures
        ({
            let (was, now) = (
                level_cands(infos, levels, quotes, price, b, (n - 1) as nat),
                level_cands(infos, levels, quotes, price, b, n),
            );
            let (l, q) = (levels[n - 1], quotes[n - 1]);
            let near = exists|i: int|
                0 <= i < was.seen.len() && (#[trigger] was.seen[i]).0 == l.source && q.same.lo
                    <= was.seen[i].1 && was.seen[i].1 <= q.same.hi;
            let goes = l.status == Status::Active && q.in_range
                && infos[l.source as int].draw_sig is Some && !near;
            &&& !goes ==> now == was
            &&& goes ==> now.list.len() == was.list.len() + 1 && now.list.last().target.price
                == l.price && now.list.last().target.level_id == l.id
                && now.list.last().target.significance == infos[l.source as int].draw_sig->0
                && now.seen == was.seen.push((l.source, l.price))
        }),
        ({
            let (was, now) = (
                gap_cands(start, gaps, sigs, gap_quotes, price, b, (m - 1) as nat),
                gap_cands(start, gaps, sigs, gap_quotes, price, b, m),
            );
            let (f, q) = (gaps[m - 1], gap_quotes[m - 1]);
            let goes = f.status == FvgStatus::Unmitigated && q.in_range && sigs.contains_key(f.tf);
            &&& !goes ==> now == was
            &&& goes ==> now.len() == was.len() + 1 && now.last().target.price == f.ce
                && now.last().target.level_id == -1 && now.last().target.significance == sigs[f.tf]
        }),
{
    let was = level_cands(infos, levels, quotes, price, b, (n - 1) as nat);
    let (l, q) = (levels[n - 1], quotes[n - 1]);
    let near = exists|i: int|
        0 <= i < was.seen.len() && (#[trigger] was.seen[i]).0 == l.source && q.same.lo
            <= was.seen[i].1 && was.seen[i].1 <= q.same.hi;
    if near {
        let i = choose|i: int|
            0 <= i < was.seen.len() && (#[trigger] was.seen[i]).0 == l.source && q.same.lo
                <= was.seen[i].1 && was.seen[i].1 <= q.same.hi;
        assert(crate::liquidity::levels::in_band(q.same, was.seen[i].1));
        assert(crate::liquidity::draw::taken(was.seen, l.source, q.same));
    }
}

/// A map that shows both sides already, or has nothing to show of the other,
/// is left as it is; one that does not brings the first opposing target forward
/// and moves the one it displaces to the end. The targets before stay.
pub proof fn law_the_other_side_is_brought_forward(c: Seq<Candidate>, n: int, keep: int, s: int)
    requires
        1 <= n < c.len() <= keep,
        1 <= s <= c.len(),
        forall|i: int| 0 <= i < s ==> (#[trigger] c[i]).target.dir == c[0].target.dir,
        s < c.len() ==> c[s].target.dir != c[0].target.dir,
    ensures
        ({
            let r = two_sided(c, n, keep);
            let brought = n <= s && s < c.len();
            &&& !brought ==> r == c
            &&& brought ==> r.len() == c.len() && r[n - 1] == c[s] && r.last() == c[n - 1]
                && forall|i: int| 0 <= i < n - 1 ==> #[trigger] r[i] == c[i]
        }),
        two_sided(c, c.len() as int, keep) == c,
{
    lemma_opposing_at(c, 1, s);
}

proof fn lemma_opposing_at(c: Seq<Candidate>, from: int, s: int)
    requires
        1 <= from <= s <= c.len(),
        forall|i: int| 0 <= i < s ==> (#[trigger] c[i]).target.dir == c[0].target.dir,
        s < c.len() ==> c[s].target.dir != c[0].target.dir,
    ensures
        crate::liquidity::draw::opposing_at(c, c[0].target.dir, from) == s,
    decreases s - from,
{
    if from < s {
        assert(c[from].target.dir == c[0].target.dir);
        lemma_opposing_at(c, from + 1, s);
    }
}

/// A level decays slower where the multiple is above one and its significance
/// reaches the threshold; its timeframe's minutes are those configured.
pub proof fn law_significant_levels_decay_slower(s: Scanner, l: Level)
    ensures
        ({
            let (minutes, slower) = terms_of(s, l);
            &&& slower <==> s.cfg.levels.sig_decay_mult > 0x3ff0_0000_0000_0000
                && s.cfg.levels.sig_decay_min_sig <= l.sig
            &&& minutes is Some <==> s.tf_minutes@.contains_key(l.tf)
            &&& minutes is Some ==> minutes->0 == s.tf_minutes@[l.tf]
        }),
{
}

/// The active levels counted are those that are active.
pub proof fn law_active_levels_are_counted(levels: Seq<Level>)
    ensures
        active_count(levels) == levels.filter(|l: Level| l.status == Status::Active).len(),
    decreases levels.len(),
{
    reveal(Seq::filter);
    if levels.len() > 0 {
        law_active_levels_are_counted(levels.drop_last());
    }
}

// ─── Setting up ─────────────────────────────────────────────────────────────

/// A timeframe keeps bars enough for its range and for a swing's two sides, and
/// four at least.
pub proof fn law_rings_hold_what_is_looked_at(cfg: ScannerCfg)
    requires
        0 <= cfg.primitives.atr_period <= 0x2000_0000,
        0 <= cfg.primitives.swing_lookback <= 0x2000_0000,
    ensures
        ({
            let n = ring_cap_of(cfg);
            let (a, b) = (
                cfg.primitives.atr_period as int + 2,
                2 * cfg.primitives.swing_lookback as int + 2,
            );
            &&& n >= a && n >= b && n >= 4
            &&& n == a || n == b || n == 4
        }),
{
}

/// The rows of a grid are those of the timeframes in their order, from one; of
/// a timeframe listed twice the later row counts.
pub proof fn law_timeframes_have_their_rows(names: Names, list: Seq<String>, n: nat, k: int)
    requires
        n <= list.len() < usize::MAX,
        names.wf(),
        0 <= k < n,
        forall|i: int| 0 <= i < n ==> names.timeframes@.contains((#[trigger] list[i])@),
        forall|i: int| k < i < n ==> (#[trigger] list[i])@ != list[k]@,
    ensures
        ({
            let m = tf_table(names, rows_of(list), n);
            let tf = names.timeframes@.index_of(list[k]@) as u16;
            m.contains_key(tf) && m[tf] == k + 1
        }),
    decreases n,
{
    let tf = names.timeframes@.index_of(list[k]@);
    let at = names.timeframes@.index_of(list[n - 1]@);
    assert(names.timeframes@.contains(list[k]@));
    assert(names.timeframes@.contains(list[n - 1]@));
    if k < n - 1 {
        law_timeframes_have_their_rows(names, list, (n - 1) as nat, k);
        assert(list[n - 1]@ != list[k]@);
        assert(names.timeframes@[at] != names.timeframes@[tf]);
    }
}

/// A bar's session levels come in turn: those of ended periods, then opening
/// marks, then ended sessions.
pub proof fn law_session_levels_come_in_turn(s: Scanner, c: Candle, i: int)
    requires
        0 <= i < session_now(s, c).len(),
    ensures
        ({
            let ts = (c.timestamp as int / 2_000_000_000) as i64;
            let now = civil_of(ts + s.cfg.sessions.tz_offset_secs);
            let a = period_levels(s.sess.periods, s.ids.period, now, ts);
            let marks = s.cfg.sessions.open_marks@;
            let b = mark_levels(
                marks,
                s.sess.open_mark_date@,
                s.open_mark_src@,
                c,
                now,
                ts,
                marks.len(),
            );
            let all = session_now(s, c);
            &&& i < a.len() ==> all[i] == a[i]
            &&& a.len() <= i < a.len() + b.len() ==> all[i] == b[i - a.len()]
            &&& i >= a.len() + b.len() ==> all[i] == session_levels(
                s.cfg.sessions.sessions@,
                s.sess.runs@,
                s.ids.period,
                c,
                now.hour,
                ts,
                s.cfg.sessions.sessions@.len(),
            )[i - a.len() - b.len()]
        }),
{
}

/// A new scanner knows its sources by name and its timeframes by theirs, and
/// has seen nothing: no bar, level, signal, gap or sweep.
pub proof fn law_a_new_scanner_has_seen_nothing(
    s: Scanner,
    cfg: ScannerCfg,
    sig: SignificanceCfg,
    names: Names,
)
    requires
        set_up(s, cfg, sig, names),
    ensures
        ({
            let i = s.sources.infos@;
            let p = s.ids.period;
            &&& i[p.pdh as int].name@ == "pdh"@ && i[p.pdl as int].name@ == "pdl"@
            &&& i[p.pwh as int].name@ == "pwh"@ && i[p.pwl as int].name@ == "pwl"@
            &&& i[p.pmh as int].name@ == "pmh"@ && i[p.pml as int].name@ == "pml"@
            &&& i[p.session_high as int].name@ == "session_high"@ && i[p.session_low as int].name@
                == "session_low"@
            &&& i[s.ids.swing_high as int].name@ == cfg.primitives.swing_high_source@
                && i[s.ids.swing_low as int].name@ == cfg.primitives.swing_low_source@
            &&& cfg.equal_levels is Some ==> i[s.ids.eqh as int].name@
                == cfg.equal_levels->0.high_source@ && i[s.ids.eql as int].name@
                == cfg.equal_levels->0.low_source@
            &&& cfg.equal_levels is None ==> i[s.ids.eqh as int].name@ == "equal_highs"@
                && i[s.ids.eql as int].name@ == "equal_lows"@
            &&& s.ids.base_tf == names.timeframes@.index_of(cfg.base_tf@) as u16
            &&& p.tf_1d == names.timeframes@.index_of("1D"@) as u16 && p.tf_1w
                == names.timeframes@.index_of("1W"@) as u16 && p.tf_1mo
                == names.timeframes@.index_of("1M"@) as u16
        }),
        s.cfg == cfg && s.sources.significance == sig,
        s.candle_count == 0 && s.base_count == 0 && s.last_atr == 0 && s.day_forming is None,
        s.registry.levels@.len() == 0 && s.registry.next_level_id == 0
            && s.registry.developing@.len() == 0,
        s.signals.signals@.len() == 0 && s.gaps.fvgs@.len() == 0 && s.gaps.active@.len() == 0,
        s.draw.map is None && s.draw.top1 is None && s.draw.recent_sweeps@.len() == 0,
        s.eq is Some <==> cfg.equal_levels is Some && cfg.equal_levels->0.enabled,
{
}

/// What a bar finds is taken in turn: gaps are tracked, levels added and levels
/// gone over for sweeps one after the other, each on what the one before it
/// left.
pub proof fn law_finds_are_taken_in_turn(
    g: Gaps,
    fvg: FvgCfg,
    list: Seq<Signal>,
    q: GapQuote,
    r: Reg,
    s: Sources,
    new: Seq<Addition>,
    sq: SweepQuote,
    sweep: SweepCfg,
    c: Candle,
    ts: i64,
    n: nat,
)
    ensures
        gaps_tracked(g, fvg, list, q, 0) == g,
        gaps_tracked(g, fvg, list, q, n + 1) == gap_added(
            gaps_tracked(g, fvg, list, q, n),
            fvg,
            gap_of_signal(list[n as int], q),
        ),
        all_added(r, s, new, 0) == r,
        all_added(r, s, new, n + 1) == level_added(
            all_added(r, s, new, n),
            s,
            new[n as int].0,
            new[n as int].1,
        ),
        sweeps_after(r, sq, sweep, c, ts, 0).reg == r,
        sweeps_after(r, sq, sweep, c, ts, 0).sweeps.len() == 0,
        sweeps_after(r, sq, sweep, c, ts, n + 1) == sweep_level(
            sweeps_after(r, sq, sweep, c, ts, n),
            n as int,
            sq,
            sweep,
            c,
            ts,
        ),
{
}

/// A map is the ranked candidates, the incumbent kept, cut to the first that it
/// keeps, and shown from both sides within as many as asked, one at least.
pub proof fn law_a_map_keeps_its_first_targets(
    c: Seq<Candidate>,
    cfg: DrawCfg,
    top: Option<Direction>,
    n: int,
    i: int,
)
    requires
        0 <= n,
    ensures
        ({
            let r = cut(c, n);
            &&& r.len() <= n && r.len() <= c.len() && (r.len() == n || r.len() == c.len())
            &&& 0 <= i < r.len() ==> r[i] == c[i]
        }),
        ({
            let first = cut(incumbent_kept(ranked(c, cfg.top_min_sig), top), len_of(cfg.keep));
            let deep = if cfg.one_sided_n <= 1 {
                1
            } else {
                len_of(cfg.one_sided_n)
            };
            &&& first.len() <= deep ==> targets_of(c, cfg, top) == first
            &&& targets_of(c, cfg, top) == two_sided(first, deep, len_of(cfg.keep))
        }),
{
}

} // verus!
