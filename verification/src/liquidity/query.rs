//! The scanner's upkeep between bars, and what a strategy asks it.
use vstd::prelude::*;
use crate::clock::unix_seconds;
use crate::key::Num;
use crate::liquidity::cfg::{len_of, to_len, ScannerCfg};
use crate::liquidity::day::Day;
use crate::liquidity::draw::{
    all_cands, bare, bias_of, boosts_of, incumbent_dir, next_top, sweeps_since, targets_of, DrawMap,
    DrawQuotes, DrawState,
};
use crate::liquidity::gaps::{first_passing, gaps_matching, live_places, Fvg, GapFilter, Gaps};
use crate::liquidity::levels::{
    active_levels, added_id, decayed, level_added, lemma_prune_wf, lemma_same_levels_wf, nearest_at,
    nearest_first, refreshed, reg_room, target_of, Band, Level, NewLevel, Reg, Side,
    Status,
};
use crate::liquidity::scanner::{BarEvents, HookQuote, Scanner};
use crate::liquidity::signals::{bar_second, newest, Signal};
use crate::liquidity::source::{id_named, names_of};
use crate::liquidity::step::active_gaps;
use crate::models::{has_room, interned, Candle, Direction};

verus! {

/// The draw map is wanted.
pub open spec fn draws(cfg: ScannerCfg) -> bool {
    cfg.draw matches Some(d) && d.enabled
}

/// The registry after the maintenance that follows a strategy's hooks: a
/// retest refreshes, decay ticks on its cadence, and so does pruning.
pub open spec fn registry_kept(s: Scanner, c: Candle, atr: Num, q: HookQuote) -> Reg {
    let r0 = s.registry@;
    let r1 = if s.cfg.levels.refresh_atr > 0 && atr > 0 {
        Reg {
            levels: r0.levels.map_values(|l: Level| refreshed(l, c, q.retest, bar_second(c))),
            ..r0
        }
    } else {
        r0
    };
    let r2 = if on_cadence(s.candle_count, s.cfg.levels.decay_every) {
        Reg {
            levels: Seq::new(
                r1.levels.len(),
                |i: int| decayed(r1.levels[i], q.decay@[i], s.cfg.levels.decay_candles),
            ),
            ..r1
        }
    } else {
        r1
    };
    if on_cadence(s.candle_count, s.cfg.levels.prune_every) {
        Reg { levels: active_levels(r2.levels), ..r2 }
    } else {
        r2
    }
}

/// The gaps after that maintenance.
pub open spec fn gaps_kept(s: Scanner) -> Gaps {
    if on_cadence(s.candle_count, s.cfg.levels.prune_every) {
        Gaps { active: live_places(s.gaps@.fvgs, s.gaps@.active), ..s.gaps@ }
    } else {
        s.gaps@
    }
}

/// The signals after that maintenance.
pub open spec fn signals_kept(s: Scanner) -> Seq<Signal> {
    if on_cadence(s.candle_count, s.cfg.levels.prune_every) {
        newest(s.signals.signals@, len_of(s.cfg.primitives.signals_cap))
    } else {
        s.signals.signals@
    }
}

/// What becomes of the draw map between a strategy's detection and its
/// scoring: the bar's sweeps are recorded, and a map that is due is rebuilt
/// from the sweeps young enough to boost.
pub open spec fn draw_rebuilt(
    s: Scanner,
    after: DrawState,
    c: Candle,
    ev: BarEvents,
    q: DrawQuotes,
) -> bool {
    if !draws(s.cfg) {
        after == s.draw
    } else if !ev.draw_due {
        &&& after.recent_sweeps@ == s.draw.recent_sweeps@ + ev.sweeps@
        &&& after.map == s.draw.map
        &&& after.top1 == s.draw.top1
    } else {
        let d = s.cfg.draw->0;
        let ts = bar_second(c);
        let recent = sweeps_since(
            s.draw.recent_sweeps@ + ev.sweeps@,
            ts - d.sweep_window_secs,
        );
        &&& after.recent_sweeps@ == recent
        &&& after.map matches Some(m) && {
            &&& m.ts == ts
            &&& if c.close <= 0 || ev.atr <= 0 {
                &&& m.price == 0
                &&& m.atr == 0
                &&& m.targets@.len() == 0
                &&& after.top1 == s.draw.top1
            } else {
                let cands = all_cands(
                    s.sources.infos@,
                    s.registry.levels@,
                    active_gaps(s.gaps@),
                    s.fvg_sig@,
                    q,
                    c.close,
                    boosts_of(recent, d, ts),
                );
                let t = targets_of(cands, d, incumbent_dir(s.draw.top1));
                &&& m.price == c.close
                &&& m.atr == ev.atr
                &&& m.targets@ == bare(t)
                &&& after.top1 == next_top(s.draw.top1, t)
            }
        }
    }
}

/// A cadence falls on a count; one that is not positive never does.
pub open spec fn on_cadence(count: i64, every: i64) -> bool {
    every > 0 && count as int % every as int == 0
}

fn is_on_cadence(count: i64, every: i64) -> (r: bool)
    requires
        count >= 0,
    ensures
        r == on_cadence(count, every),
{
    every > 0 && (count as u64) % (every as u64) == 0
}

/// How many levels are active.
pub open spec fn active_count(levels: Seq<Level>) -> nat
    decreases levels.len(),
{
    if levels.len() == 0 {
        0
    } else {
        active_count(levels.drop_last()) + if levels.last().status == Status::Active {
            1nat
        } else {
            0nat
        }
    }
}

impl Scanner {
    /// The active gaps, oldest first: the draw map's gap candidates.
    pub fn active_gap_list(&self) -> (r: Vec<Fvg>)
        requires
            self.wf(),
        ensures
            r@ == active_gaps(self.gaps@),
    {
        let mut out: Vec<Fvg> = Vec::new();
        let mut k: usize = 0;
        while k < self.gaps.active.len()
            invariant
                self.wf(),
                k <= self.gaps.active@.len(),
                out@.len() == k,
                forall|j: int| 0 <= j < k ==> #[trigger] out@[j] == active_gaps(self.gaps@)[j],
            decreases self.gaps.active@.len() - k,
        {
            assert(self.gaps.active@[k as int] < self.gaps.fvgs@.len());
            out.push(self.gaps.fvgs[self.gaps.active[k]]);
            k = k + 1;
        }
        proof {
            assert(out@ =~= active_gaps(self.gaps@));
        }
        out
    }

    /// Record a bar's sweeps and rebuild the draw map when it is due: between
    /// a strategy's detection and its scoring, once per bar.
    pub fn rebuild_draw(&mut self, c: &Candle, ev: &BarEvents, q: &DrawQuotes)
        requires
            old(self).wf(),
            ev.draw_due ==> q.levels@.len() == old(self).registry.levels@.len() && q.gaps@.len()
                == old(self).gaps.active@.len(),
        ensures
            final(self).wf(),
            *final(self) == (Scanner { draw: final(self).draw, ..*old(self) }),
            draw_rebuilt(*old(self), final(self).draw, *c, *ev, *q),
    {
        let gaps = self.active_gap_list();
        if let Some(d) = &self.cfg.draw {
            if !d.enabled {
                return;
            }
            self.draw.record(&ev.sweeps);
            if !ev.draw_due {
                return;
            }
            let ts: i64 = unix_seconds(c.timestamp);
            self.draw.expire(ts, d.sweep_window_secs);
            self.draw.build_draw(
                d,
                &self.sources,
                &self.registry.levels,
                &gaps,
                &self.fvg_sig,
                q,
                c.close,
                ev.atr,
                ts,
            );
        }
    }

    /// The maintenance that follows a strategy's hooks: retests refresh, decay
    /// ticks, and what is spent is pruned.
    pub fn after_hooks(&mut self, c: &Candle, atr: Num, q: &HookQuote)
        requires
            old(self).wf(),
            q.decay@.len() == old(self).registry.levels@.len(),
        ensures
            final(self).wf(),
            *final(self) == (Scanner {
                registry: final(self).registry,
                gaps: final(self).gaps,
                signals: final(self).signals,
                ..*old(self)
            }),
            final(self).registry@ == registry_kept(*old(self), *c, atr, *q),
            final(self).gaps@ == gaps_kept(*old(self)),
            final(self).signals.signals@ == signals_kept(*old(self)),
    {
        let ghost n = self.sources.infos@.len() as int;
        let ghost r0 = self.registry@;
        let ts: i64 = unix_seconds(c.timestamp);
        if self.cfg.levels.refresh_atr > 0 && atr > 0 {
            self.registry.refresh_on_retest(c, &q.retest, ts);
            proof {
                lemma_same_levels_wf(r0, self.registry@, n);
            }
        }
        let ghost r1 = self.registry@;
        if is_on_cadence(self.candle_count, self.cfg.levels.decay_every) {
            let max: Num = self.cfg.levels.decay_candles;
            self.registry.tick_decay(&q.decay, max);
            proof {
                lemma_same_levels_wf(r1, self.registry@, n);
            }
        }
        let ghost r2 = self.registry@;
        if is_on_cadence(self.candle_count, self.cfg.levels.prune_every) {
            self.registry.prune_levels();
            proof {
                lemma_prune_wf(r2, n);
            }
            self.gaps.fvg_rebuild_active();
            let cap: usize = to_len(self.cfg.primitives.signals_cap);
            self.signals.prune_signals(cap);
        }
    }

    // ─── Queries ────────────────────────────────────────────────────────────

    /// The name of a source.
    pub fn source_name(&self, id: u16) -> (r: &str)
        requires
            id < self.sources.infos@.len(),
        ensures
            r@ == self.sources.infos@[id as int].name@,
    {
        self.sources.name(id)
    }

    /// The name of a level's source.
    pub fn source_name_owned(&self, l: &Level) -> (r: String)
        requires
            l.source < self.sources.infos@.len(),
        ensures
            r@ == self.sources.infos@[l.source as int].name@,
    {
        self.sources.name(l.source).to_owned()
    }

    /// The id of a source, for levels a strategy adds itself.
    pub fn source_id(&mut self, name: &str) -> (r: u16)
        requires
            old(self).wf(),
            has_room(names_of(old(self).sources.infos@), name@),
        ensures
            final(self).wf(),
            *final(self) == (Scanner { sources: final(self).sources, ..*old(self) }),
            names_of(final(self).sources.infos@) == interned(
                names_of(old(self).sources.infos@),
                name@,
            ),
            final(self).sources.same_tables(old(self).sources),
            r < final(self).sources.infos@.len(),
            final(self).sources.infos@[r as int].name@ == name@,
            r == id_named(final(self).sources.infos@, name@),
    {
        let ghost n0 = self.sources.infos@.len();
        let r = self.sources.intern(name);
        proof {
            assert(names_of(self.sources.infos@).len() == self.sources.infos@.len());
            assert(self.sources.infos@.len() >= n0);
        }
        r
    }

    /// The configured significance of a level.
    pub fn significance(&self, source: u16, tf: u16, touch: i64) -> (r: Num)
        requires
            self.wf(),
            source < self.sources.infos@.len(),
        ensures
            r == self.sources.sig_of(source, tf, touch),
    {
        self.sources.significance(source, tf, touch)
    }

    /// The configured significance of a level of a named source.
    pub fn significance_by_name(&mut self, source: &str, tf: u16, touch: i64) -> (r: Num)
        requires
            old(self).wf(),
            has_room(names_of(old(self).sources.infos@), source@),
        ensures
            final(self).wf(),
            *final(self) == (Scanner { sources: final(self).sources, ..*old(self) }),
            names_of(final(self).sources.infos@) == interned(
                names_of(old(self).sources.infos@),
                source@,
            ),
            final(self).sources.same_tables(old(self).sources),
            r == final(self).sources.sig_of(
                id_named(final(self).sources.infos@, source@),
                tf,
                touch,
            ),
    {
        let id: u16 = self.source_id(source);
        self.sources.significance(id, tf, touch)
    }

    /// Add a level, merging it into an active one of its side within `band`.
    pub fn add_level(&mut self, n: &NewLevel, band: Option<Band>) -> (r: i64)
        requires
            old(self).wf(),
            n.source < old(self).sources.infos@.len(),
            reg_room(old(self).registry@, n.touch as int),
        ensures
            final(self).wf(),
            *final(self) == (Scanner { registry: final(self).registry, ..*old(self) }),
            final(self).registry@ == level_added(
                old(self).registry@,
                old(self).sources,
                *n,
                band,
            ),
            r == added_id(old(self).registry@, *n, band),
    {
        self.registry.add_level(&self.sources, n, band)
    }

    /// Add a level of a named source.
    pub fn add_level_named(
        &mut self,
        price: Num,
        side: Side,
        source: &str,
        tf: u16,
        ts: i64,
        touch: i64,
        band: Option<Band>,
    ) -> (r: i64)
        requires
            old(self).wf(),
            has_room(names_of(old(self).sources.infos@), source@),
            reg_room(old(self).registry@, touch as int),
        ensures
            final(self).wf(),
            *final(self) == (Scanner {
                registry: final(self).registry,
                sources: final(self).sources,
                ..*old(self)
            }),
            names_of(final(self).sources.infos@) == interned(
                names_of(old(self).sources.infos@),
                source@,
            ),
            final(self).sources.same_tables(old(self).sources),
            ({
                let id = id_named(final(self).sources.infos@, source@);
                let n = NewLevel { price, side, source: id, tf, ts, touch };
                &&& final(self).registry@ == level_added(
                    old(self).registry@,
                    final(self).sources,
                    n,
                    band,
                )
                &&& r == added_id(old(self).registry@, n, band)
            }),
    {
        let id: u16 = self.source_id(source);
        let n = NewLevel { price, side, source: id, tf, ts, touch };
        self.registry.add_level(&self.sources, &n, band)
    }

    /// The level under an id.
    pub fn level(&self, id: i64) -> (r: Option<Level>)
        requires
            self.wf(),
        ensures
            r matches Some(l) ==> l.id == id && self.registry@.levels.contains(l),
            r is None ==> forall|i: int|
                0 <= i < self.registry@.levels.len() ==> (#[trigger] self.registry@.levels[i]).id
                    != id,
    {
        self.registry.level(id, &self.sources)
    }

    /// Active levels of a side beyond a price, nearest first.
    pub fn levels_beyond(&self, side: Side, price: Num, min_sig: Num) -> (r: Vec<Level>)
        ensures
            r@ == nearest_first(self.registry@.levels, side, price, min_sig),
    {
        self.registry.levels_beyond(side, price, min_sig)
    }

    /// The nearest active level of a side beyond a price.
    pub fn nearest_beyond(&self, side: Side, price: Num) -> (r: Option<Level>)
        ensures
            ({
                let b = nearest_at(
                    self.registry@.levels,
                    side,
                    price,
                    self.registry@.levels.len(),
                );
                r == if b >= 0 {
                    Some(self.registry@.levels[b])
                } else {
                    None
                }
            }),
    {
        self.registry.nearest_beyond(side, price)
    }

    /// The nearest level in a trade's direction at or beyond `reach` and at or
    /// above `min_sig` (0 = no floor): its price and id.
    pub fn find_target(
        &self,
        dir: Direction,
        entry: Num,
        has_risk: bool,
        reach: Num,
        min_sig: Num,
    ) -> (r: Option<(Num, i64)>)
        ensures
            r == target_of(self.registry@.levels, dir, entry, has_risk, reach, min_sig),
    {
        self.registry.find_target(dir, entry, has_risk, reach, min_sig)
    }

    /// The gap under an id.
    pub fn fvg(&self, id: i64) -> (r: Option<Fvg>)
        ensures
            r == if 0 <= id < self.gaps@.fvgs.len() {
                Some(self.gaps@.fvgs[id as int])
            } else {
                None
            },
    {
        self.gaps.fvg(id)
    }

    /// Unmitigated gaps on a timeframe, oldest first.
    pub fn fvgs_since(&self, tf: u16, dir: Direction, inverted: bool, since: i64) -> (r: Vec<Fvg>)
        requires
            self.wf(),
        ensures
            r@ == gaps_matching(self.gaps@.fvgs, self.gaps@.active, tf, dir, inverted, since),
    {
        self.gaps.fvgs_since(tf, dir, inverted, since)
    }

    /// The first of those gaps that is wide enough, overlaps the zone and
    /// clears.
    pub fn fvg_first(
        &self,
        tf: u16,
        dir: Direction,
        inverted: bool,
        since: i64,
        wide: &Vec<bool>,
        q: &GapFilter,
    ) -> (r: Option<Fvg>)
        requires
            self.wf(),
            wide@.len() == gaps_matching(
                self.gaps@.fvgs,
                self.gaps@.active,
                tf,
                dir,
                inverted,
                since,
            ).len(),
        ensures
            ({
                let list = gaps_matching(
                    self.gaps@.fvgs,
                    self.gaps@.active,
                    tf,
                    dir,
                    inverted,
                    since,
                );
                let i = first_passing(list, wide@, *q, 0);
                r == if i < list.len() {
                    Some(list[i])
                } else {
                    None
                }
            }),
    {
        self.gaps.fvg_first(tf, dir, inverted, since, wide, q)
    }

    /// The draw map.
    pub fn draw_map(&self) -> (r: Option<&DrawMap>)
        ensures
            r is Some <==> self.draw.map is Some,
            r matches Some(m) ==> *m == self.draw.map->0,
    {
        self.draw.map.as_ref()
    }

    /// The draw map's bias: the top target's direction and score, and the
    /// score of the first target that opposes it.
    pub fn draw_bias(&self) -> (r: Option<(Direction, Num, Option<Num>)>)
        ensures
            r == match self.draw.map {
                Some(m) => bias_of(m.targets@),
                None => None,
            },
    {
        self.draw.draw_bias()
    }

    /// The day in progress.
    pub fn day(&self) -> (r: Option<Day>)
        ensures
            r == self.day_forming,
    {
        self.day_forming
    }

    /// Candles seen.
    pub fn candle_count(&self) -> (r: i64)
        ensures
            r == self.candle_count,
    {
        self.candle_count
    }

    /// The newest positive ATR on any timeframe.
    pub fn last_atr(&self) -> (r: Num)
        ensures
            r == self.last_atr,
    {
        self.last_atr
    }

    /// The configuration.
    pub fn cfg(&self) -> (r: &ScannerCfg)
        ensures
            *r == self.cfg,
    {
        &self.cfg
    }

    /// Sizes: levels kept, active levels, gaps kept, active gaps, signals.
    pub fn sizes(&self) -> (r: (usize, usize, usize, usize, usize))
        ensures
            r.0 == self.registry@.levels.len(),
            r.1 == active_count(self.registry@.levels),
            r.2 == self.gaps@.fvgs.len(),
            r.3 == self.gaps@.active.len(),
            r.4 == self.signals.signals@.len(),
    {
        let ghost s = self.registry.levels@;
        let mut n: usize = 0;
        let mut i: usize = 0;
        while i < self.registry.levels.len()
            invariant
                s == self.registry.levels@,
                i <= s.len(),
                n <= i,
                n == active_count(s.subrange(0, i as int)),
            decreases s.len() - i,
        {
            proof {
                assert(s.subrange(0, i + 1).drop_last() =~= s.subrange(0, i as int));
            }
            if self.registry.levels[i].status == Status::Active {
                n = n + 1;
            }
            i = i + 1;
        }
        proof {
            assert(s.subrange(0, i as int) =~= s);
        }
        (
            self.registry.levels.len(),
            n,
            self.gaps.fvgs.len(),
            self.gaps.active.len(),
            self.signals.signals.len(),
        )
    }
}

} // verus!
