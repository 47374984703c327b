//! What holds along any run of calls on one scanner.
use vstd::prelude::*;
use crate::key::Num;
use crate::liquidity::cfg::SweepCfg;
use crate::liquidity::draw::DrawQuotes;
use crate::liquidity::levels::{
    active_levels, after_sweep, decayed, dev_at, joins_at, law_nearest_is_nearest, lemma_absorber,
    lemma_active, lemma_active_ascending, level_added, near_keys, nearest_at, nearest_first,
    refreshed, reg_room, standing, stands_beyond, sweep_level, sweeps_after, Band, Developing,
    Level, NewLevel, Reg, Side, Status, Sweep, SweepQuote, SweepRun,
};
use crate::liquidity::query::{
    draw_rebuilt, gaps_kept, on_cadence, registry_kept, signals_kept,
};
use crate::liquidity::scanner::{
    additions, all_added, atr_now, bar_room, registry_filled, Addition, BarEvents, HookQuote,
    ScanQuote, Scanner,
};
use crate::liquidity::signals::bar_second;
use crate::liquidity::source::Sources;
use crate::liquidity::step::{lemma_additions, stepped};
use crate::models::{Candle, Direction};
use crate::sort::{law_a_stable_order_exists, order_of};

verus! {

/// One call on a scanner: its inputs, and of a bar also what it produced.
pub enum ScanOp {
    /// A strategy adds a level of its own.
    Add { n: NewLevel, band: Option<Band> },
    /// A candle is taken in.
    Bar { c: Candle, q: ScanQuote, r: BarEvents },
    /// The draw map is brought up to the bar.
    Draw { c: Candle, ev: BarEvents, q: DrawQuotes },
    /// The maintenance after a strategy's hooks.
    Hooks { c: Candle, atr: Num, q: HookQuote },
}

/// A call leads from one state to the next: its conditions hold before it, and
/// it does what [`Scanner::add_level`], [`Scanner::process`],
/// [`Scanner::rebuild_draw`] and [`Scanner::after_hooks`] promise.
pub open spec fn op_done(s: Scanner, t: Scanner, op: ScanOp) -> bool {
    &&& s.wf()
    &&& t.wf()
    &&& match op {
        ScanOp::Add { n, band } => {
            &&& n.source < s.sources.infos@.len()
            &&& reg_room(s.registry@, n.touch as int)
            &&& t == (Scanner { registry: t.registry, ..s })
            &&& t.registry@ == level_added(s.registry@, s.sources, n, band)
        },
        ScanOp::Bar { c, q, r } => bar_room(s, c, q) && stepped(s, t, c, q, r),
        ScanOp::Draw { c, ev, q } => {
            &&& t == (Scanner { draw: t.draw, ..s })
            &&& draw_rebuilt(s, t.draw, c, ev, q)
        },
        ScanOp::Hooks { c, atr, q } => {
            &&& t == (Scanner { registry: t.registry, gaps: t.gaps, signals: t.signals, ..s })
            &&& q.decay@.len() == s.registry.levels@.len()
            &&& t.registry@ == registry_kept(s, c, atr, q)
            &&& t.gaps@ == gaps_kept(s)
            &&& t.signals.signals@ == signals_kept(s)
        },
    }
}

/// The states a run of calls goes through.
pub open spec fn is_run(states: Seq<Scanner>, ops: Seq<ScanOp>) -> bool {
    &&& states.len() == ops.len() + 1
    &&& forall|i: int|
        0 <= i < ops.len() ==> op_done(states[i], states[i + 1], #[trigger] ops[i])
}

/// The sweeps that a call returns.
pub open spec fn sweeps_of_op(op: ScanOp) -> Seq<Sweep> {
    match op {
        ScanOp::Bar { c, q, r } => r.sweeps@,
        _ => Seq::empty(),
    }
}

/// All sweeps that the first `n` calls return, in order.
pub open spec fn sweeps_along(ops: Seq<ScanOp>, n: nat) -> Seq<Sweep>
    decreases n,
{
    if n == 0 {
        Seq::empty()
    } else {
        sweeps_along(ops, (n - 1) as nat) + sweeps_of_op(ops[n - 1])
    }
}

// ─── Levels are swept once ──────────────────────────────────────────────────

/// A level's sweep is of enough significance and points away from its side.
pub open spec fn sweep_ok(s: Sweep, min_sig: Num) -> bool {
    &&& s.level_sig >= min_sig
    &&& s.dir == after_sweep(s.level_side)
}

/// Ids ascend in the order of the levels and stay below the next one.
pub open spec fn ids_ascend(r: Reg) -> bool {
    &&& forall|i: int| 0 <= i < r.levels.len() ==> (#[trigger] r.levels[i]).id < r.next_id
    &&& forall|i: int, j: int|
        0 <= i < j < r.levels.len() ==> (#[trigger] r.levels[i]).id < (#[trigger] r.levels[j]).id
}

/// A crossing belongs to a level that was added, and points away from its
/// side.
pub open spec fn devs_point(r: Reg) -> bool {
    &&& forall|k: int| 0 <= k < r.devs.len() ==> (#[trigger] r.devs[k]).level_id < r.next_id
    &&& forall|k: int, i: int|
        0 <= k < r.devs.len() && 0 <= i < r.levels.len() && (#[trigger] r.devs[k]).level_id == (
        #[trigger] r.levels[i]).id ==> r.devs[k].dir == after_sweep(r.levels[i].side)
}

/// A level under the id, if there still is one, is not active.
pub open spec fn is_retired(r: Reg, id: i64) -> bool {
    &&& id < r.next_id
    &&& forall|i: int|
        0 <= i < r.levels.len() && (#[trigger] r.levels[i]).id == id ==> r.levels[i].status
            != Status::Active
}

/// The sweeps so far: each is of a retired level, no level's twice, and each
/// is of enough significance and points away from its side.
pub open spec fn swept_once(r: Reg, done: Seq<Sweep>, min_sig: Num) -> bool {
    &&& forall|k: int|
        0 <= k < done.len() ==> is_retired(r, (#[trigger] done[k]).level_id) && sweep_ok(
            done[k],
            min_sig,
        )
    &&& forall|k: int, m: int|
        0 <= k < m < done.len() ==> (#[trigger] done[k]).level_id != (#[trigger] done[m]).level_id
}

/// What every call keeps.
pub open spec fn run_inv(r: Reg, done: Seq<Sweep>, min_sig: Num) -> bool {
    ids_ascend(r) && devs_point(r) && swept_once(r, done, min_sig)
}

proof fn lemma_add_keeps(
    r: Reg,
    s: Sources,
    n: NewLevel,
    band: Option<Band>,
    done: Seq<Sweep>,
    min_sig: Num,
)
    requires
        run_inv(r, done, min_sig),
        r.next_id < i64::MAX,
    ensures
        run_inv(level_added(r, s, n, band), done, min_sig),
        level_added(r, s, n, band).next_id <= r.next_id + 1,
{
    if let Some(b) = band {
        lemma_absorber(r.levels, n.side, b, 0);
    }
    let t = level_added(r, s, n, band);
    let at = joins_at(r.levels, n, band);
    assert forall|i: int, j: int| 0 <= i < j < t.levels.len() implies (#[trigger] t.levels[i]).id < (
    #[trigger] t.levels[j]).id by {
        if j < r.levels.len() {
            assert(r.levels[i].id < r.levels[j].id);
        } else {
            assert(r.levels[i].id < r.next_id);
        }
    }
    assert forall|i: int| 0 <= i < t.levels.len() implies (#[trigger] t.levels[i]).id < t.next_id by {
        if i < r.levels.len() {
            assert(r.levels[i].id < r.next_id);
        }
    }
    assert forall|k: int, i: int|
        0 <= k < t.devs.len() && 0 <= i < t.levels.len() && (#[trigger] t.devs[k]).level_id == (
        #[trigger] t.levels[i]).id implies t.devs[k].dir == after_sweep(t.levels[i].side) by {
        assert(r.devs[k].level_id < r.next_id);
        if i < r.levels.len() {
            assert(r.levels[i].id == t.levels[i].id);
        }
    }
    assert forall|k: int| 0 <= k < done.len() implies is_retired(t, (#[trigger] done[k]).level_id)
        && sweep_ok(done[k], min_sig) by {
        assert(is_retired(r, done[k].level_id));
        assert forall|i: int|
            0 <= i < t.levels.len() && (#[trigger] t.levels[i]).id == done[k].level_id implies t.levels[i].status
            != Status::Active by {
            if i < r.levels.len() {
                assert(r.levels[i].id == t.levels[i].id);
            }
        }
    }
}

proof fn lemma_adds_keep(
    r: Reg,
    s: Sources,
    list: Seq<Addition>,
    n: nat,
    done: Seq<Sweep>,
    min_sig: Num,
)
    requires
        run_inv(r, done, min_sig),
        r.next_id + n <= i64::MAX,
    ensures
        run_inv(all_added(r, s, list, n), done, min_sig),
        all_added(r, s, list, n).next_id <= r.next_id + n,
    decreases n,
{
    if n > 0 {
        lemma_adds_keep(r, s, list, (n - 1) as nat, done, min_sig);
        lemma_add_keeps(
            all_added(r, s, list, (n - 1) as nat),
            s,
            list[n - 1].0,
            list[n - 1].1,
            done,
            min_sig,
        );
    }
}

proof fn lemma_dev_found(devs: Seq<Developing>, id: i64, tf: u16, from: int)
    requires
        0 <= from <= devs.len(),
    ensures
        from <= dev_at(devs, id, tf, from) <= devs.len(),
        dev_at(devs, id, tf, from) < devs.len() ==> devs[dev_at(devs, id, tf, from)].level_id == id,
    decreases devs.len() - from,
{
    if from < devs.len() && !(devs[from].level_id == id && devs[from].tf == tf) {
        lemma_dev_found(devs, id, tf, from + 1);
    }
}

/// The levels are the same but for what became of them, no retired one came
/// back, and the crossings still belong to their levels.
proof fn lemma_levels_carry(r: Reg, t: Reg, done: Seq<Sweep>, min_sig: Num)
    requires
        run_inv(r, done, min_sig),
        t.next_id == r.next_id,
        t.levels.len() == r.levels.len(),
        forall|i: int|
            0 <= i < r.levels.len() ==> {
                &&& (#[trigger] t.levels[i]).id == r.levels[i].id
                &&& t.levels[i].side == r.levels[i].side
                &&& r.levels[i].status != Status::Active ==> t.levels[i].status != Status::Active
            },
        forall|k: int| 0 <= k < t.devs.len() ==> (#[trigger] t.devs[k]).level_id < t.next_id,
        forall|k: int, i: int|
            0 <= k < t.devs.len() && 0 <= i < r.levels.len() && (#[trigger] t.devs[k]).level_id == (
            #[trigger] r.levels[i]).id ==> t.devs[k].dir == after_sweep(r.levels[i].side),
    ensures
        run_inv(t, done, min_sig),
{
    assert forall|i: int, j: int| 0 <= i < j < t.levels.len() implies (#[trigger] t.levels[i]).id < (
    #[trigger] t.levels[j]).id by {
        assert(r.levels[i].id < r.levels[j].id);
    }
    assert forall|i: int| 0 <= i < t.levels.len() implies (#[trigger] t.levels[i]).id < t.next_id by {
        assert(r.levels[i].id < r.next_id);
    }
    assert forall|k: int, i: int|
        0 <= k < t.devs.len() && 0 <= i < t.levels.len() && (#[trigger] t.devs[k]).level_id == (
        #[trigger] t.levels[i]).id implies t.devs[k].dir == after_sweep(t.levels[i].side) by {
        assert(r.levels[i].id == t.levels[i].id);
    }
    assert forall|k: int| 0 <= k < done.len() implies is_retired(t, (#[trigger] done[k]).level_id)
        && sweep_ok(done[k], min_sig) by {
        assert(is_retired(r, done[k].level_id));
        assert forall|i: int|
            0 <= i < t.levels.len() && (#[trigger] t.levels[i]).id == done[k].level_id implies t.levels[i].status
            != Status::Active by {
            assert(r.levels[i].id == t.levels[i].id);
        }
    }
}

proof fn lemma_one_more_sweep(r: Reg, i: int, done: Seq<Sweep>, s: Sweep, min_sig: Num)
    requires
        run_inv(r, done, min_sig),
        0 <= i < r.levels.len(),
        r.levels[i].id == s.level_id,
        r.levels[i].status != Status::Active,
        sweep_ok(s, min_sig),
        forall|k: int| 0 <= k < done.len() ==> (#[trigger] done[k]).level_id != s.level_id,
    ensures
        run_inv(r, done.push(s), min_sig),
{
    let all = done.push(s);
    assert(is_retired(r, s.level_id)) by {
        assert forall|j: int|
            0 <= j < r.levels.len() && (#[trigger] r.levels[j]).id == s.level_id implies r.levels[j].status
            != Status::Active by {
            if j < i {
                assert(r.levels[j].id < r.levels[i].id);
            } else if j > i {
                assert(r.levels[i].id < r.levels[j].id);
            }
        }
    }
    assert forall|k: int| 0 <= k < all.len() implies is_retired(r, (#[trigger] all[k]).level_id)
        && sweep_ok(all[k], min_sig) by {
        if k < done.len() {
            assert(all[k] == done[k]);
        }
    }
    assert forall|k: int, m: int| 0 <= k < m < all.len() implies (#[trigger] all[k]).level_id != (
    #[trigger] all[m]).level_id by {
        if m < done.len() {
            assert(done[k].level_id != done[m].level_id);
        } else {
            assert(done[k].level_id != s.level_id);
        }
    }
}

proof fn lemma_level_swept_once(
    s: SweepRun,
    i: int,
    q: SweepQuote,
    cfg: SweepCfg,
    c: Candle,
    ts: i64,
    before: Seq<Sweep>,
)
    requires
        0 <= i < s.reg.levels.len(),
        run_inv(s.reg, before + s.sweeps, cfg.min_level_sig),
    ensures
        ({
            let t = sweep_level(s, i, q, cfg, c, ts);
            &&& run_inv(t.reg, before + t.sweeps, cfg.min_level_sig)
            &&& t.reg.levels.len() == s.reg.levels.len()
        }),
{
    let r = s.reg;
    let l = r.levels[i];
    let done = before + s.sweeps;
    let min_sig = cfg.min_level_sig;
    let t = sweep_level(s, i, q, cfg, c, ts);
    lemma_dev_found(r.devs, l.id, c.timeframe, 0);
    assert(l.id < r.next_id);
    assert forall|k: int| 0 <= k < t.reg.devs.len() implies (#[trigger] t.reg.devs[k]).level_id
        < t.reg.next_id by {
        let d = dev_at(r.devs, l.id, c.timeframe, 0);
        if k < r.devs.len() {
            assert(r.devs[k].level_id < r.next_id);
        }
        if k + 1 < r.devs.len() {
            assert(r.devs[k + 1].level_id < r.next_id);
        }
    }
    assert forall|k: int, j: int|
        0 <= k < t.reg.devs.len() && 0 <= j < r.levels.len() && (
        #[trigger] t.reg.devs[k]).level_id == (#[trigger] r.levels[j]).id implies t.reg.devs[k].dir
        == after_sweep(r.levels[j].side) by {
        let d = dev_at(r.devs, l.id, c.timeframe, 0);
        if j < i {
            assert(r.levels[j].id < r.levels[i].id);
        } else if j > i {
            assert(r.levels[i].id < r.levels[j].id);
        }
        if k < r.devs.len() {
            assert(r.devs[k].level_id == r.levels[j].id ==> r.devs[k].dir == after_sweep(
                r.levels[j].side,
            ));
        }
        if k + 1 < r.devs.len() {
            assert(r.devs[k + 1].level_id == r.levels[j].id ==> r.devs[k + 1].dir == after_sweep(
                r.levels[j].side,
            ));
        }
    }
    lemma_levels_carry(r, t.reg, done, min_sig);
    if t.sweeps.len() > s.sweeps.len() {
        let new = t.sweeps.last();
        let d = dev_at(r.devs, l.id, c.timeframe, 0);
        if d < r.devs.len() {
            assert(r.devs[d].level_id == r.levels[i].id);
        }
        assert(t.sweeps =~= s.sweeps.push(new));
        assert(new.level_id == l.id);
        assert(sweep_ok(new, min_sig));
        assert forall|k: int| 0 <= k < done.len() implies (#[trigger] done[k]).level_id
            != new.level_id by {
            assert(is_retired(r, done[k].level_id));
            assert(r.levels[i].status == Status::Active);
        }
        lemma_one_more_sweep(t.reg, i, done, new, min_sig);
        assert(done.push(new) =~= before + t.sweeps);
    } else {
        assert(t.sweeps == s.sweeps);
    }
}

proof fn lemma_bar_sweeps_once(
    r: Reg,
    q: SweepQuote,
    cfg: SweepCfg,
    c: Candle,
    ts: i64,
    n: nat,
    before: Seq<Sweep>,
)
    requires
        n <= r.levels.len(),
        run_inv(r, before, cfg.min_level_sig),
    ensures
        ({
            let t = sweeps_after(r, q, cfg, c, ts, n);
            &&& run_inv(t.reg, before + t.sweeps, cfg.min_level_sig)
            &&& t.reg.levels.len() == r.levels.len()
        }),
    decreases n,
{
    if n == 0 {
        assert(before + Seq::<Sweep>::empty() =~= before);
    } else {
        lemma_bar_sweeps_once(r, q, cfg, c, ts, (n - 1) as nat, before);
        let s = sweeps_after(r, q, cfg, c, ts, (n - 1) as nat);
        lemma_level_swept_once(s, n - 1, q, cfg, c, ts, before);
    }
}

proof fn lemma_prune_keeps(r: Reg, done: Seq<Sweep>, min_sig: Num)
    requires
        run_inv(r, done, min_sig),
    ensures
        run_inv(Reg { levels: active_levels(r.levels), ..r }, done, min_sig),
{
    let a = active_levels(r.levels);
    let t = Reg { levels: a, ..r };
    lemma_active(r.levels);
    lemma_active_ascending(r.levels);
    assert forall|i: int| 0 <= i < a.len() implies (#[trigger] a[i]).id < r.next_id by {
        assert(r.levels.contains(a[i]));
        let k = choose|k: int| 0 <= k < r.levels.len() && r.levels[k] == a[i];
        assert(r.levels[k].id < r.next_id);
    }
    assert forall|k: int, i: int|
        0 <= k < t.devs.len() && 0 <= i < a.len() && (#[trigger] t.devs[k]).level_id == (
        #[trigger] a[i]).id implies t.devs[k].dir == after_sweep(a[i].side) by {
        assert(r.levels.contains(a[i]));
        let m = choose|m: int| 0 <= m < r.levels.len() && r.levels[m] == a[i];
        assert(r.devs[k].level_id == r.levels[m].id);
    }
    assert forall|k: int| 0 <= k < done.len() implies is_retired(t, (#[trigger] done[k]).level_id)
        && sweep_ok(done[k], min_sig) by {
        assert(is_retired(r, done[k].level_id));
        assert forall|i: int|
            0 <= i < a.len() && (#[trigger] a[i]).id == done[k].level_id implies a[i].status
            != Status::Active by {
            assert(r.levels.contains(a[i]));
            let m = choose|m: int| 0 <= m < r.levels.len() && r.levels[m] == a[i];
            assert(r.levels[m].id == done[k].level_id);
        }
    }
}

proof fn lemma_hooks_keep(
    s: Scanner,
    c: Candle,
    atr: Num,
    q: HookQuote,
    done: Seq<Sweep>,
    min_sig: Num,
)
    requires
        run_inv(s.registry@, done, min_sig),
    ensures
        run_inv(registry_kept(s, c, atr, q), done, min_sig),
{
    let r0 = s.registry@;
    let r1 = if s.cfg.levels.refresh_atr > 0 && atr > 0 {
        Reg {
            levels: r0.levels.map_values(|l: Level| refreshed(l, c, q.retest, bar_second(c))),
            ..r0
        }
    } else {
        r0
    };
    assert(run_inv(r1, done, min_sig)) by {
        lemma_levels_carry(r0, r1, done, min_sig);
    }
    let r2 = if on_cadence(s.candle_count, s.cfg.levels.decay_every) {
        Reg {
            levels: Seq::new(
                r1.levels.len(),
                |i: int| decayed(r1.levels[i], q.decay@[i], s.cfg.levels.decay_candles),
            ),
            ..r1
        }
    } else {
        r1
    };
    assert(run_inv(r2, done, min_sig)) by {
        lemma_levels_carry(r1, r2, done, min_sig);
    }
    lemma_prune_keeps(r2, done, min_sig);
}

proof fn lemma_op_keeps(s: Scanner, t: Scanner, op: ScanOp, done: Seq<Sweep>)
    requires
        op_done(s, t, op),
        run_inv(s.registry@, done, s.cfg.sweep.min_level_sig),
    ensures
        t.cfg == s.cfg,
        run_inv(t.registry@, done + sweeps_of_op(op), s.cfg.sweep.min_level_sig),
{
    let min_sig = s.cfg.sweep.min_level_sig;
    match op {
        ScanOp::Add { n, band } => {
            lemma_add_keeps(s.registry@, s.sources, n, band, done, min_sig);
            assert(done + Seq::<Sweep>::empty() =~= done);
        },
        ScanOp::Bar { c, q, r } => {
            let a = additions(s, c, q);
            lemma_additions(s, c, q, atr_now(s, c, q));
            lemma_adds_keep(s.registry@, s.sources, a, a.len(), done, min_sig);
            let full = registry_filled(s, c, q);
            lemma_bar_sweeps_once(
                full,
                q.sweep,
                s.cfg.sweep,
                c,
                bar_second(c),
                full.levels.len(),
                done,
            );
        },
        ScanOp::Draw { c, ev, q } => {
            assert(done + Seq::<Sweep>::empty() =~= done);
        },
        ScanOp::Hooks { c, atr, q } => {
            lemma_hooks_keep(s, c, atr, q, done, min_sig);
            assert(done + Seq::<Sweep>::empty() =~= done);
        },
    }
}

proof fn lemma_run_keeps(states: Seq<Scanner>, ops: Seq<ScanOp>, n: nat)
    requires
        is_run(states, ops),
        states[0].registry@.levels.len() == 0,
        states[0].registry@.devs.len() == 0,
        n <= ops.len(),
    ensures
        states[n as int].cfg == states[0].cfg,
        run_inv(
            states[n as int].registry@,
            sweeps_along(ops, n),
            states[0].cfg.sweep.min_level_sig,
        ),
    decreases n,
{
    if n > 0 {
        lemma_run_keeps(states, ops, (n - 1) as nat);
        assert(op_done(states[n - 1], states[n - 1 + 1], ops[n - 1]));
        lemma_op_keeps(
            states[n - 1],
            states[n as int],
            ops[n - 1],
            sweeps_along(ops, (n - 1) as nat),
        );
    }
}

/// Along any run of calls on a scanner that starts without levels, whatever
/// levels, bars and maintenance it sees, no level is swept twice, and every
/// sweep is of a level of at least the configured significance, bearish when
/// the level is on the buy side and bullish when it is on the sell side.
pub proof fn law_no_level_is_swept_twice(states: Seq<Scanner>, ops: Seq<ScanOp>, n: nat)
    requires
        is_run(states, ops),
        states[0].registry@.levels.len() == 0,
        states[0].registry@.devs.len() == 0,
        n <= ops.len(),
    ensures
        ({
            let all = sweeps_along(ops, n);
            &&& forall|k: int, m: int|
                0 <= k < m < all.len() ==> (#[trigger] all[k]).level_id != (
                #[trigger] all[m]).level_id
            &&& forall|k: int|
                0 <= k < all.len() ==> (#[trigger] all[k]).level_sig
                    >= states[0].cfg.sweep.min_level_sig && (all[k].dir == Direction::Bear
                    <==> all[k].level_side == Side::Bsl)
        }),
{
    lemma_run_keeps(states, ops, n);
    let all = sweeps_along(ops, n);
    assert forall|k: int| 0 <= k < all.len() implies (#[trigger] all[k]).level_sig
        >= states[0].cfg.sweep.min_level_sig && (all[k].dir == Direction::Bear
        <==> all[k].level_side == Side::Bsl) by {
        assert(sweep_ok(all[k], states[0].cfg.sweep.min_level_sig));
    }
}

proof fn lemma_standing(levels: Seq<Level>, side: Side, price: Num, min_sig: Num, k: int)
    requires
        0 <= k < standing(levels, side, price, min_sig).len(),
    ensures
        ({
            let l = standing(levels, side, price, min_sig)[k];
            levels.contains(l) && stands_beyond(l, side, price)
        }),
    decreases levels.len(),
{
    let d = levels.drop_last();
    let rest = standing(d, side, price, min_sig);
    let l = standing(levels, side, price, min_sig)[k];
    if k < rest.len() {
        lemma_standing(d, side, price, min_sig, k);
        let m = choose|m: int| 0 <= m < d.len() && d[m] == l;
        assert(levels[m] == l);
    } else {
        assert(levels[levels.len() - 1] == l);
    }
}

proof fn lemma_standing_are_fewer(levels: Seq<Level>, side: Side, price: Num, min_sig: Num)
    ensures
        standing(levels, side, price, min_sig).len() <= levels.len(),
    decreases levels.len(),
{
    if levels.len() > 0 {
        lemma_standing_are_fewer(levels.drop_last(), side, price, min_sig);
    }
}

/// A level that was swept is never shown again: from the call that returned
/// its sweep on, it stands in no answer to which levels are beyond a price or
/// which is the nearest.
pub proof fn law_swept_levels_are_never_shown(
    states: Seq<Scanner>,
    ops: Seq<ScanOp>,
    n: nat,
    k: int,
    side: Side,
    price: Num,
    min_sig: Num,
)
    requires
        is_run(states, ops),
        states[0].registry@.levels.len() == 0,
        states[0].registry@.devs.len() == 0,
        n <= ops.len(),
        0 <= k < sweeps_along(ops, n).len(),
    ensures
        ({
            let id = sweeps_along(ops, n)[k].level_id;
            let levels = states[n as int].registry@.levels;
            let shown = nearest_first(levels, side, price, min_sig);
            let nearest = nearest_at(levels, side, price, levels.len());
            &&& nearest >= 0 ==> levels[nearest].id != id
            &&& forall|i: int|
                0 <= i < shown.len() ==> (#[trigger] shown[i]).id != id
        }),
{
    lemma_run_keeps(states, ops, n);
    let r = states[n as int].registry@;
    let all = sweeps_along(ops, n);
    let id = all[k].level_id;
    assert(is_retired(r, id));
    let found = standing(r.levels, side, price, min_sig);
    assert forall|i: int| 0 <= i < found.len() implies (#[trigger] found[i]).id != id by {
        lemma_standing(r.levels, side, price, min_sig, i);
        let m = choose|m: int| 0 <= m < r.levels.len() && r.levels[m] == found[i];
        assert(r.levels[m].status == Status::Active);
    }
    law_nearest_is_nearest(r.levels, side, price, r.levels.len());
    let keys = near_keys(found, side);
    lemma_standing_are_fewer(r.levels, side, price, min_sig);
    assert(states[n as int].registry.levels.len() == r.levels.len());
    law_a_stable_order_exists(keys);
    let shown = nearest_first(r.levels, side, price, min_sig);
    assert forall|i: int| 0 <= i < shown.len() implies (#[trigger] shown[i]).id != id by {
        assert(order_of(keys)[i] < found.len());
        assert(shown[i] == found[order_of(keys)[i] as int]);
    }
}

} // verus!
