//! One candle through all services.
use vstd::prelude::*;
use crate::clock::{civil, civil_of, on_calendar, unix_seconds, FIRST_SECOND, LAST_SECOND};
use crate::key::Num;
use crate::liquidity::cfg::{len_of, to_len};
use crate::liquidity::day::{day_after, day_process, Day};
use crate::liquidity::equal::{
    bandless, counted, emitted_after, highs_after, law_clusters_count_their_prices,
    lemma_counted_joins, lemma_emitted, lows_after, side_cands,
};
use crate::liquidity::gaps::{Fvg, Gaps, NewGap};
use crate::liquidity::levels::{
    lemma_same_levels_wf, lemma_sweeps_keep, lemma_touch_joins, lemma_touch_of_ones, sweeps_after,
    total_touch, Band, NewLevel, Side, Sweep,
};
use crate::liquidity::scanner::{
    additions, atr_now, banded, bar_room, bare, bare_breaks, bars_of, base_count_after, breaks_now,
    clusters_now, draw_is_due, eq_additions, eq_due, eq_ok, gap_store_after, gaps_now, gaps_tracked,
    registry_filled, ring_of, session_now, swing_addition, swing_additions, swings_now, unmerged,
    Addition, BarEvents, Break, ScanQuote, Scanner, GAP_LIMIT, LIST_LIMIT, TOUCH_LIMIT,
};
use crate::liquidity::session::{lemma_bar_levels, marks_after, periods_after, sessions_after};
use crate::liquidity::signals::{bar_second, Signal, SignalKind};
use crate::models::{Candle, Direction};

verus! {

/// The active gaps, oldest first.
pub open spec fn active_gaps(g: Gaps) -> Seq<Fvg> {
    Seq::new(g.active.len(), |k: int| g.fvgs[g.active[k] as int])
}

/// What a bar did to the services and what it produced, all of it a function
/// of the state before, the bar and its numbers.
pub open spec fn stepped(s: Scanner, t: Scanner, c: Candle, q: ScanQuote, r: BarEvents) -> bool {
    &&& t.cfg == s.cfg
    &&& t.sources == s.sources
    &&& t.ids == s.ids
    &&& t.open_mark_src == s.open_mark_src
    &&& t.tf_minutes == s.tf_minutes
    &&& t.fvg_sig == s.fvg_sig
    &&& t.ring_cap == s.ring_cap
    &&& t.draw == s.draw
    &&& t.wake == s.wake
    &&& t.wake_book == s.wake_book
    &&& t.candle_count == s.candle_count + 1
    &&& t.base_count == base_count_after(s, c)
    &&& ring_of(t.rings@, c.timeframe) == bars_of(s, c)
    &&& (forall|tf: u16|
        tf != c.timeframe ==> #[trigger] ring_of(t.rings@, tf) == ring_of(s.rings@, tf))
    &&& ({
            let atr = atr_now(s, c, q);
            &&& r.atr == atr
            &&& t.last_atr == if atr > 0 {
                atr
            } else {
                s.last_atr
            }
            &&& t.atr_cache@ == if bars_of(s, c).len() > 2 {
                s.atr_cache@.insert(c.timeframe, atr)
            } else {
                s.atr_cache@
            }
        })
    &&& ({
            let (d, closed) = day_after(s.day_forming, c, bar_second(c) as int);
            if s.cfg.day_tracker && c.timeframe == s.ids.base_tf {
                t.day_forming == Some(d) && r.day_closed == closed
            } else {
                t.day_forming == s.day_forming && r.day_closed is None
            }
        })
    &&& ({
            let now = civil_of(bar_second(c) + s.cfg.sessions.tz_offset_secs);
            &&& t.sess.periods == periods_after(s.sess.periods, c, now)
            &&& t.sess.open_mark_date@ == marks_after(
                s.cfg.sessions.open_marks@,
                s.sess.open_mark_date@,
                now,
            )
            &&& t.sess.runs@ == sessions_after(
                s.cfg.sessions.sessions@,
                s.sess.runs@,
                c,
                now.hour,
            )
        })
    &&& t.signals.signals@ == s.signals.signals@ + swings_now(
            s,
            c,
        ) + gaps_now(s, c, q) + breaks_now(s, c, q)
    &&& eq_ok(s, t.eq, c, q)
    &&& t.gaps@ == gap_store_after(s, c, q)
    &&& ({
            let full = registry_filled(s, c, q);
            let run = sweeps_after(
                full,
                q.sweep,
                s.cfg.sweep,
                c,
                bar_second(c),
                full.levels.len(),
            );
            &&& t.registry@ == run.reg
            &&& r.sweeps@ == run.sweeps
            &&& r.draw_due == draw_is_due(
                s,
                c,
                r.atr,
                run.sweeps.len() as int,
            )
        })
    &&& r.breaks@ == bare_breaks(breaks_now(s, c, q))
}

fn bar_ts(c: &Candle) -> (r: i64)
    requires
        on_calendar(c.timestamp as int),
    ensures
        r == bar_second(*c),
        FIRST_SECOND <= r <= LAST_SECOND,
{
    unix_seconds(c.timestamp)
}

impl Scanner {
    fn push_sessions(&mut self, c: &Candle, ts: i64, list: &mut Vec<Addition>)
        requires
            old(self).wf(),
            ts == bar_second(*c),
            FIRST_SECOND <= ts <= LAST_SECOND,
            old(list)@.len() == 0,
        ensures
            final(self).wf(),
            *final(self) == (Scanner { sess: final(self).sess, ..*old(self) }),
            final(list)@ == unmerged(session_now(*old(self), *c)),
            ({
                let now = civil_of(ts + old(self).cfg.sessions.tz_offset_secs);
                &&& final(self).sess.periods == periods_after(old(self).sess.periods, *c, now)
                &&& final(self).sess.open_mark_date@ == marks_after(
                    old(self).cfg.sessions.open_marks@,
                    old(self).sess.open_mark_date@,
                    now,
                )
                &&& final(self).sess.runs@ == sessions_after(
                    old(self).cfg.sessions.sessions@,
                    old(self).sess.runs@,
                    *c,
                    now.hour,
                )
            }),
    {
        let now = civil(ts + self.cfg.sessions.tz_offset_secs);
        let ghost before = *self;
        let levels = self.sess.session_process(
            &self.cfg.sessions,
            &self.ids.period,
            &self.open_mark_src,
            c,
            &now,
            ts,
        );
        let mut i: usize = 0;
        while i < levels.len()
            invariant
                i <= levels@.len(),
                list@.len() == i,
                forall|k: int| 0 <= k < i ==> #[trigger] list@[k] == (levels@[k], None::<Band>),
            decreases levels@.len() - i,
        {
            list.push((levels[i], None));
            i = i + 1;
        }
        proof {
            assert(list@ =~= unmerged(session_now(before, *c)));
        }
    }

    fn push_swings(&self, swings: &Vec<Signal>, q: &ScanQuote, atr: Num, list: &mut Vec<Addition>)
        ensures
            final(list)@ == old(list)@ + swing_additions(self.ids, swings@, *q, atr),
    {
        let ghost l0 = list@;
        let mut i: usize = 0;
        while i < swings.len()
            invariant
                i <= swings@.len(),
                list@.len() == l0.len() + i,
                forall|k: int| 0 <= k < l0.len() ==> #[trigger] list@[k] == l0[k],
                forall|k: int|
                    l0.len() <= k < list@.len() ==> #[trigger] list@[k] == swing_addition(
                        self.ids,
                        swings@[k - l0.len()],
                        *q,
                        atr,
                    ),
            decreases swings@.len() - i,
        {
            let s = swings[i];
            let (side, source, band) = match s.kind {
                SignalKind::SwingHigh => (Side::Bsl, self.ids.swing_high, q.high_band),
                _ => (Side::Ssl, self.ids.swing_low, q.low_band),
            };
            let merge = if atr > 0 {
                Some(band)
            } else {
                None
            };
            list.push(
                (NewLevel { price: s.level, side, source, tf: s.tf, ts: s.ts, touch: 1 }, merge),
            );
            i = i + 1;
        }
        proof {
            assert(list@ =~= l0 + swing_additions(self.ids, swings@, *q, atr));
        }
    }

    fn push_equals(
        &mut self,
        c: &Candle,
        q: &ScanQuote,
        atr: Num,
        ts: i64,
        list: &mut Vec<Addition>,
    )
        requires
            old(self).wf(),
            bar_room(*old(self), *c, *q),
            ts == bar_second(*c),
            atr == atr_now(*old(self), *c, *q),
        ensures
            final(self).wf(),
            *final(self) == (Scanner { eq: final(self).eq, ..*old(self) }),
            final(list)@ == old(list)@ + eq_additions(*old(self), *c, *q, atr),
            eq_ok(*old(self), final(self).eq, *c, *q),
    {
        let ghost s0 = *self;
        let ghost l0 = list@;
        let tf = c.timeframe;
        let runs = c.timeframe == self.ids.base_tf && atr > 0;
        let (eqh, eql) = (self.ids.eqh, self.ids.eql);
        proof {
            assert(l0 + Seq::<Addition>::empty() =~= l0);
        }
        if let Some(cfg) = &self.cfg.equal_levels {
            if let Some(state) = &mut self.eq {
                if runs {
                    if state.push_bar(cfg, c) {
                        let cands = state.candidates(&q.equals);
                        let out = state.emit(cfg, &cands, eqh, eql, tf, ts);
                        let mut i: usize = 0;
                        while i < out.len()
                            invariant
                                i <= out@.len(),
                                list@.len() == l0.len() + i,
                                forall|k: int| 0 <= k < l0.len() ==> #[trigger] list@[k] == l0[k],
                                forall|k: int|
                                    l0.len() <= k < list@.len() ==> #[trigger] list@[k] == (
                                        out@[k - l0.len()].0,
                                        Some(out@[k - l0.len()].1),
                                    ),
                            decreases out@.len() - i,
                        {
                            let pair = out[i];
                            list.push((pair.0, Some(pair.1)));
                            i = i + 1;
                        }
                        proof {
                            assert(list@ =~= l0 + banded(out@));
                        }
                    }
                }
            }
        }
    }

    fn track_gaps(&mut self, c: &Candle, ts: i64, fresh: &Vec<Signal>, q: &ScanQuote)
        requires
            old(self).wf(),
            fresh@.len() <= 2,
            old(self).gaps.fvgs@.len() <= GAP_LIMIT,
            old(self).gaps.active@.len() <= GAP_LIMIT,
        ensures
            final(self).wf(),
            *final(self) == (Scanner { gaps: final(self).gaps, ..*old(self) }),
            final(self).gaps@ == crate::liquidity::gaps::gaps_after(
                gaps_tracked(
                    old(self).gaps@,
                    old(self).cfg.fvg,
                    fresh@,
                    q.gap,
                    fresh@.len(),
                ),
                old(self).cfg.fvg,
                *c,
                ts,
            ),
    {
        let ghost s0 = *self;
        let mut i: usize = 0;
        while i < fresh.len()
            invariant
                i <= fresh@.len() <= 2,
                s0.wf(),
                self.wf(),
                *self == (Scanner { gaps: self.gaps, ..s0 }),
                s0.gaps.fvgs@.len() <= GAP_LIMIT,
                s0.gaps.active@.len() <= GAP_LIMIT,
                self.gaps@.fvgs.len() == s0.gaps.fvgs@.len() + i,
                self.gaps@.active.len() <= s0.gaps.active@.len() + i,
                self.gaps@ == gaps_tracked(s0.gaps@, s0.cfg.fvg, fresh@, q.gap, i as nat),
            decreases fresh@.len() - i,
        {
            let s = fresh[i];
            let (near, far, ce) = match s.dir {
                Direction::Bull => (s.level_end, s.level, q.gap.bull_ce),
                Direction::Bear => (s.level, s.level_end, q.gap.bear_ce),
            };
            self.gaps.fvg_add(
                &self.cfg.fvg,
                &NewGap {
                    dir: s.dir,
                    tf: s.tf,
                    ts: s.ts,
                    near,
                    far,
                    ce,
                    c1_stop: s.c1_stop,
                },
            );
            i = i + 1;
        }
        self.gaps.fvg_process(&self.cfg.fvg, c, ts);
    }

    fn sweep(&mut self, c: &Candle, ts: i64, q: &ScanQuote) -> (r: Vec<Sweep>)
        requires
            old(self).wf(),
        ensures
            final(self).wf(),
            *final(self) == (Scanner { registry: final(self).registry, ..*old(self) }),
            ({
                let t = sweeps_after(
                    old(self).registry@,
                    q.sweep,
                    old(self).cfg.sweep,
                    *c,
                    ts,
                    old(self).registry@.levels.len(),
                );
                &&& final(self).registry@ == t.reg
                &&& r@ == t.sweeps
            }),
    {
        let ghost r0 = self.registry@;
        let r = self.registry.detect_sweeps(c, ts, &q.sweep, &self.cfg.sweep);
        proof {
            lemma_sweeps_keep(r0, q.sweep, self.cfg.sweep, *c, ts, r0.levels.len());
            lemma_same_levels_wf(r0, self.registry@, self.sources.infos@.len() as int);
        }
        r
    }

    fn keep_signals(&mut self, list: &Vec<Signal>)
        requires
            old(self).wf(),
        ensures
            final(self).wf(),
            *final(self) == (Scanner { signals: final(self).signals, ..*old(self) }),
            final(self).signals.signals@ == old(self).signals.signals@ + list@,
    {
        let ghost s0 = *self;
        let ghost l0 = self.signals.signals@;
        let mut i: usize = 0;
        proof {
            assert(l0 + list@.subrange(0, 0) =~= l0);
        }
        while i < list.len()
            invariant
                i <= list@.len(),
                s0.wf(),
                self.wf(),
                *self == (Scanner { signals: self.signals, ..s0 }),
                self.signals.signals@ == l0 + list@.subrange(0, i as int),
            decreases list@.len() - i,
        {
            self.signals.add_signal(list[i]);
            i = i + 1;
            proof {
                assert(self.signals.signals@ =~= l0 + list@.subrange(0, i as int));
            }
        }
        proof {
            assert(list@.subrange(0, i as int) =~= list@);
        }
    }

    fn due(&self, c: &Candle, atr: Num, swept: bool) -> (r: bool)
        requires
            0 <= self.base_count,
        ensures
            r == match self.cfg.draw {
                Some(d) => d.enabled && atr > 0 && (swept || (c.timeframe == self.ids.base_tf
                    && d.every > 0 && self.base_count as int % d.every as int == 0)),
                None => false,
            },
    {
        match &self.cfg.draw {
            Some(d) => d.enabled && atr > 0 && (swept || (c.timeframe == self.ids.base_tf && d.every
                > 0 && (self.base_count as u64) % (d.every as u64) == 0)),
            None => false,
        }
    }

    /// Step every service by one completed candle: the bars and their ATR, the
    /// day, the sessions, swings, gaps and breaks, the levels they make, the
    /// gaps' life, then the sweeps.
    #[verifier::rlimit(60)]
    pub fn process(&mut self, c: &Candle, q: &ScanQuote) -> (r: BarEvents)
        requires
            old(self).wf(),
            bar_room(*old(self), *c, *q),
        ensures
            final(self).wf(),
            stepped(*old(self), *final(self), *c, *q, r),
    {
        let ghost s0 = *self;
        let tf = c.timeframe;
        let ts: i64 = bar_ts(c);
        let bars = self.bars_with(c);
        let measured = bars.len() > 2;
        let atr: Num = self.bar_atr(tf, bars.len(), q.atr);
        let lookback: usize = to_len(self.cfg.primitives.swing_lookback);
        let swings = self.signals.detect_swings(&bars, tf, lookback);
        let fresh = self.signals.detect_fvgs(&bars, tf, &q.gap);
        let breaks = self.signals.detect_structure(bars.len(), tf, c, &q.brk);
        let mut list: Vec<Addition> = Vec::new();
        self.push_sessions(c, ts, &mut list);
        self.push_swings(&swings, q, atr, &mut list);
        self.push_equals(c, q, atr, ts, &mut list);
        proof {
            lemma_additions(s0, *c, *q, atr);
            assert(list@ =~= additions(s0, *c, *q));
        }
        self.add_levels(&list);
        self.keep_signals(&swings);
        self.keep_signals(&fresh);
        self.keep_signals(&breaks);
        self.track_gaps(c, ts, &fresh, q);
        let sweeps = self.sweep(c, ts, q);
        self.rings.insert(tf, bars);
        if measured {
            self.atr_cache.insert(tf, atr);
        }
        self.candle_count = self.candle_count + 1;
        if tf == self.ids.base_tf {
            self.base_count = self.base_count + 1;
        }
        if atr > 0 {
            self.last_atr = atr;
        }
        let mut day_closed: Option<Day> = None;
        if self.cfg.day_tracker && tf == self.ids.base_tf {
            let (d, closed) = day_process(self.day_forming, c, ts);
            self.day_forming = Some(d);
            day_closed = closed;
        }
        let draw_due = self.due(c, atr, sweeps.len() > 0);
        let seen = bare_list(&breaks);
        BarEvents { atr, sweeps, breaks: seen, day_closed, draw_due }
    }
}

fn bare_list(list: &Vec<Signal>) -> (r: Vec<Break>)
    ensures
        r@ == bare_breaks(list@),
{
    let mut out: Vec<Break> = Vec::new();
    let mut i: usize = 0;
    while i < list.len()
        invariant
            i <= list@.len(),
            out@.len() == i,
            forall|k: int| 0 <= k < i ==> #[trigger] out@[k] == bare_breaks(list@)[k],
        decreases list@.len() - i,
    {
        let s = list[i];
        out.push(Break { tf: s.tf, ts: s.ts, level: s.level, dir: s.dir });
        i = i + 1;
    }
    proof {
        assert(out@ =~= bare_breaks(list@));
    }
    out
}

proof fn lemma_clusters_are_few(s: Scanner, c: Candle, q: ScanQuote)
    requires
        bar_room(s, c, q),
        eq_due(s, c, atr_now(s, c, q)),
    ensures
        ({
            let e = clusters_now(s, c, q);
            &&& e.len() <= LIST_LIMIT
            &&& counted(e, e.len()) <= 2 * LIST_LIMIT
            &&& forall|i: int| 0 <= i < e.len() ==> 0 <= (#[trigger] e[i]).count
        }),
{
    let window = len_of(s.cfg.equal_levels->0.window);
    let highs = highs_after(s.eq->0, c, window);
    let lows = lows_after(s.eq->0, c, window);
    let t = q.equals.tolerance;
    law_clusters_count_their_prices(highs, t, q.equals.highs, true);
    law_clusters_count_their_prices(lows, t, q.equals.lows, false);
    let h = side_cands(highs, t, q.equals.highs, true);
    let l = side_cands(lows, t, q.equals.lows, false);
    let e = clusters_now(s, c, q);
    assert(e == h + l);
    lemma_counted_joins(h, l, l.len());
    assert forall|i: int| 0 <= i < e.len() implies 0 <= (#[trigger] e[i]).count by {
        if i < h.len() {
            assert(e[i] == h[i]);
        } else {
            assert(e[i] == l[i - h.len()]);
        }
    }
}

/// A bar's additions are of known sources, within the touch limit, and few.
pub(crate) proof fn lemma_additions(s: Scanner, c: Candle, q: ScanQuote, atr: Num)
    requires
        s.wf(),
        bar_room(s, c, q),
        atr == atr_now(s, c, q),
    ensures
        ({
            let a = additions(s, c, q);
            &&& a.len() <= 8 * LIST_LIMIT
            &&& total_touch(bare(a)) <= TOUCH_LIMIT
            &&& forall|k: int|
                0 <= k < a.len() ==> (#[trigger] a[k]).0.source < s.sources.infos@.len() && 0
                    <= a[k].0.touch
        }),
{
    let n = s.sources.infos@.len() as int;
    let ts = bar_second(c);
    lemma_bar_levels(
        s.sess,
        s.cfg.sessions,
        s.ids.period,
        s.open_mark_src@,
        c,
        civil_of(ts + s.cfg.sessions.tz_offset_secs),
        ts,
        n,
    );
    let a = unmerged(session_now(s, c));
    let b = swing_additions(s.ids, swings_now(s, c), q, atr);
    let e = eq_additions(s, c, q, atr);
    assert(b.len() <= 2);
    if eq_due(s, c, atr) {
        lemma_clusters_are_few(s, c, q);
        let cands = clusters_now(s, c, q);
        let cfg = s.cfg.equal_levels->0;
        let out = emitted_after(
            s.eq->0.emitted@,
            cfg,
            cands,
            s.ids.eqh,
            s.ids.eql,
            c.timeframe,
            ts,
            cands.len(),
        ).out;
        lemma_emitted(
            s.eq->0.emitted@,
            cfg,
            cands,
            s.ids.eqh,
            s.ids.eql,
            c.timeframe,
            ts,
            cands.len(),
        );
        assert(bare(e) =~= bandless(out));
    } else {
        assert(bare(e) =~= Seq::empty());
    }
    let all = additions(s, c, q);
    assert(all == a + b + e);
    assert(bare(all) =~= bare(a) + bare(b) + bare(e));
    lemma_touch_joins(bare(a) + bare(b), bare(e));
    lemma_touch_joins(bare(a), bare(b));
    assert forall|k: int| 0 <= k < a.len() implies (#[trigger] bare(a)[k]).touch == 1 by {
        assert(session_now(s, c)[k].source < n);
    }
    lemma_touch_of_ones(bare(a));
    lemma_touch_of_ones(bare(b));
    assert forall|k: int| 0 <= k < all.len() implies (#[trigger] all[k]).0.source
        < s.sources.infos@.len() && 0 <= all[k].0.touch by {
        if k < a.len() {
            assert(all[k] == a[k]);
            assert(session_now(s, c)[k].source < n);
        } else if k < a.len() + b.len() {
            assert(all[k] == b[k - a.len()]);
        } else {
            assert(all[k] == e[k - a.len() - b.len()]);
        }
    }
}

} // verus!
