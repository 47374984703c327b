//! What a scan finds in candles, in prices and times alone.
use vstd::prelude::*;
use crate::clock::Civil;
use crate::key::Num;
use crate::liquidity::cfg::{DrawCfg, EqualLevelsCfg, OpenMark, SessionSpec};
use crate::liquidity::day::{day_after, Day};
use crate::liquidity::draw::{
    bias_of, boosts_of, by_score, candidate, incumbent_at, incumbent_kept, leader, nearest_of,
    opposing_target, ranked, score_keys, sweeps_since, Boosts, Candidate, DrawTarget,
    TargetQuote,
};
use crate::liquidity::equal::{
    clusters, clusters_from, emitted_after, eq_cands, price_keys, sorted, EqCandidate, EqQuote,
};
use crate::liquidity::gaps::{
    first_passing, gap_step, gaps_matching, live_places, passes, Fvg, FvgStatus, GapFilter,
    GapRun,
};
use crate::liquidity::levels::{NewLevel, Side, Sweep};
use crate::liquidity::scanner::{
    draw_is_due, gap_of_signal, ring_after, swing_addition, Scanner, ScannerIds, ScanQuote,
};
use crate::liquidity::session::{
    in_hours, mark_levels, marks_after, period_levels, periods_after, range_levels,
    session_after, session_levels, widened, PeriodIds, Periods, Range, SessionRun,
};
use crate::liquidity::signals::{
    breaks_of, gaps_of, latest_map, newest, swings_of, BreakQuote, GapQuote, Signal, SignalKind,
};
use crate::models::{Candle, Direction};
use crate::sort::{before, law_a_stable_order_exists, order_of};

verus! {

// ─── Swings, gaps and breaks ────────────────────────────────────────────────

/// The second a bar starts at.
pub open spec fn starts_at(c: Candle) -> i64 {
    (c.timestamp as int / 2_000_000_000) as i64
}

proof fn lemma_pair<A>(a: bool, x: A, b: bool, y: A, z: A)
    ensures
        ((if a {
            seq![x]
        } else {
            Seq::<A>::empty()
        }) + (if b {
            seq![y]
        } else {
            Seq::<A>::empty()
        })).contains(z) <==> (a && z == x) || (b && z == y),
{
    let l = if a {
        seq![x]
    } else {
        Seq::<A>::empty()
    };
    let r = if b {
        seq![y]
    } else {
        Seq::<A>::empty()
    };
    let s = l + r;
    if a {
        assert(s[0] == x);
    }
    if b {
        assert(s[l.len() as int] == y);
    }
}

/// A swing is found at the bar in the middle of the last `2 n + 1`: a swing
/// high where none of them trades above its high, a swing low where none trades
/// below its low. It stands at that extreme and that bar's time, and is found
/// once. There is none before there are so many bars.
pub proof fn law_a_swing_is_the_extreme_of_its_neighbours(
    signals: Seq<Signal>,
    bars: Seq<Candle>,
    tf: u16,
    n: int,
    s: Signal,
)
    requires
        0 <= n,
    ensures
        ({
            let found = swings_of(signals, bars, tf, n);
            let m = bars[bars.len() - 1 - n];
            let high = forall|j: int|
                bars.len() - 1 - 2 * n <= j < bars.len() ==> (#[trigger] bars[j]).high <= m.high;
            let low = forall|j: int|
                bars.len() - 1 - 2 * n <= j < bars.len() ==> (#[trigger] bars[j]).low >= m.low;
            let had = |kind: SignalKind|
                exists|i: int|
                    0 <= i < signals.len() && (#[trigger] signals[i]).kind == kind && signals[i].tf
                        == tf && signals[i].ts == starts_at(m);
            &&& bars.len() <= 2 * n ==> found.len() == 0
            &&& bars.len() > 2 * n ==> (found.contains(s) <==> s.tf == tf && s.ts == starts_at(m)
                && s.level_end == 0 && s.gap_ts == 0 && s.c1_stop == 0 && ((s.kind
                == SignalKind::SwingHigh && high && !had(SignalKind::SwingHigh) && s.level == m.high
                && s.dir == Direction::Bear) || (s.kind == SignalKind::SwingLow && low && !had(
                SignalKind::SwingLow,
            ) && s.level == m.low && s.dir == Direction::Bull)))
        }),
{
    if bars.len() > 2 * n {
        let at = bars.len() - 1 - n;
        let m = bars[at];
        let from = bars.len() - 1 - 2 * n;
        let h = crate::liquidity::signals::high_signal(tf, m);
        let l = crate::liquidity::signals::low_signal(tf, m);
        let a = crate::liquidity::signals::tops(bars, at, from)
            && !crate::liquidity::signals::reported(signals, h);
        let b = crate::liquidity::signals::bottoms(bars, at, from)
            && !crate::liquidity::signals::reported(signals, l);
        lemma_pair(a, h, b, l, s);
        lemma_reported_swing(signals, h);
        lemma_reported_swing(signals, l);
    }
}

proof fn lemma_reported_swing(signals: Seq<Signal>, s: Signal)
    requires
        s.kind == SignalKind::SwingHigh || s.kind == SignalKind::SwingLow,
    ensures
        crate::liquidity::signals::reported(signals, s) <==> exists|i: int|
            0 <= i < signals.len() && (#[trigger] signals[i]).kind == s.kind && signals[i].tf
                == s.tf && signals[i].ts == s.ts,
{
    if exists|i: int|
        0 <= i < signals.len() && (#[trigger] signals[i]).kind == s.kind && signals[i].tf == s.tf
            && signals[i].ts == s.ts {
        let i = choose|i: int|
            0 <= i < signals.len() && (#[trigger] signals[i]).kind == s.kind && signals[i].tf
                == s.tf && signals[i].ts == s.ts;
        assert(crate::liquidity::signals::same_event(signals[i], s));
    }
}

/// A gap is found where the last bar and the one two before it do not overlap,
/// wide enough: a bullish one from the first bar's high up to the last bar's
/// low, a bearish one from the last bar's high up to the first bar's low. It is
/// named after the bar between them, guarded by the first bar's other extreme,
/// and found once.
pub proof fn law_a_gap_lies_between_bars_that_do_not_overlap(
    signals: Seq<Signal>,
    bars: Seq<Candle>,
    tf: u16,
    q: GapQuote,
    s: Signal,
)
    ensures
        ({
            let found = gaps_of(signals, bars, tf, q);
            let (a, b, c) = (bars[bars.len() - 3], bars[bars.len() - 2], bars[bars.len() - 1]);
            let had = |dir: Direction|
                exists|i: int|
                    0 <= i < signals.len() && (#[trigger] signals[i]).kind == SignalKind::Fvg
                        && signals[i].tf == tf && signals[i].gap_ts == starts_at(b)
                        && signals[i].dir == dir;
            &&& bars.len() < 3 ==> found.len() == 0
            &&& bars.len() >= 3 ==> (found.contains(s) <==> s.kind == SignalKind::Fvg && s.tf == tf
                && s.ts == starts_at(c) && s.gap_ts == starts_at(b) && ((s.dir == Direction::Bull
                && c.low > a.high && q.bull_wide && !had(Direction::Bull) && s.level == a.high
                && s.level_end == c.low && s.c1_stop == a.low) || (s.dir == Direction::Bear
                && c.high < a.low && q.bear_wide && !had(Direction::Bear) && s.level == c.high
                && s.level_end == a.low && s.c1_stop == a.high)))
        }),
{
    if bars.len() >= 3 {
        let (a, b, c) = (bars[bars.len() - 3], bars[bars.len() - 2], bars[bars.len() - 1]);
        let up = crate::liquidity::signals::bull_gap(tf, a, b, c);
        let down = crate::liquidity::signals::bear_gap(tf, a, b, c);
        lemma_pair(
            c.low > a.high && q.bull_wide && !crate::liquidity::signals::reported(signals, up),
            up,
            c.high < a.low && q.bear_wide && !crate::liquidity::signals::reported(signals, down),
            down,
            s,
        );
        lemma_reported_gap(signals, up);
        lemma_reported_gap(signals, down);
    }
}

proof fn lemma_reported_gap(signals: Seq<Signal>, s: Signal)
    requires
        s.kind == SignalKind::Fvg,
    ensures
        crate::liquidity::signals::reported(signals, s) <==> exists|i: int|
            0 <= i < signals.len() && (#[trigger] signals[i]).kind == SignalKind::Fvg
                && signals[i].tf == s.tf && signals[i].gap_ts == s.gap_ts && signals[i].dir
                == s.dir,
{
    if exists|i: int|
        0 <= i < signals.len() && (#[trigger] signals[i]).kind == SignalKind::Fvg && signals[i].tf
            == s.tf && signals[i].gap_ts == s.gap_ts && signals[i].dir == s.dir {
        let i = choose|i: int|
            0 <= i < signals.len() && (#[trigger] signals[i]).kind == SignalKind::Fvg
                && signals[i].tf == s.tf && signals[i].gap_ts == s.gap_ts && signals[i].dir
                == s.dir;
        assert(crate::liquidity::signals::same_event(signals[i], s));
    }
}

/// A swing is the latest of its kind on a timeframe: no other is later, and of
/// equally late ones it was found last.
pub open spec fn is_latest(signals: Seq<Signal>, kind: SignalKind, tf: u16, i: int) -> bool {
    &&& 0 <= i < signals.len() && signals[i].kind == kind && signals[i].tf == tf
    &&& forall|j: int|
        0 <= j < signals.len() && (#[trigger] signals[j]).kind == kind && signals[j].tf == tf
            ==> signals[j].ts <= signals[i].ts && (j > i ==> signals[j].ts < signals[i].ts)
}

/// The latest swing of a kind on a timeframe is the one with the latest time
/// among all that were found there, the last found of equally late ones; a
/// timeframe without one has none.
pub proof fn law_the_latest_swing_is_the_latest(
    signals: Seq<Signal>,
    kind: SignalKind,
    tf: u16,
) -> (i: int)
    ensures
        ({
            let m = latest_map(signals, kind);
            &&& m.contains_key(tf) ==> is_latest(signals, kind, tf, i) && m[tf].ts == signals[i].ts
                && m[tf].level == signals[i].level
            &&& !m.contains_key(tf) ==> forall|j: int|
                0 <= j < signals.len() ==> !((#[trigger] signals[j]).kind == kind && signals[j].tf
                    == tf)
        }),
    decreases signals.len(),
{
    if signals.len() == 0 {
        0
    } else {
        let d = signals.drop_last();
        let i = law_the_latest_swing_is_the_latest(d, kind, tf);
        let (was, m) = (latest_map(d, kind), latest_map(signals, kind));
        let s = signals.last();
        let n = signals.len() - 1;
        let fits = s.kind == kind && s.tf == tf;
        assert forall|j: int| 0 <= j < n implies #[trigger] signals[j] == d[j] by {}
        if fits && (!was.contains_key(tf) || was[tf].ts <= s.ts) {
            assert(is_latest(signals, kind, tf, n)) by {
                assert forall|j: int|
                    0 <= j < signals.len() && (#[trigger] signals[j]).kind == kind && signals[j].tf
                        == tf implies signals[j].ts <= s.ts by {
                    if j < n {
                        assert(signals[j] == d[j]);
                    }
                }
            }
            n
        } else {
            i
        }
    }
}

/// A break of structure is a close past the latest swing's mark, above a swing
/// high or below a swing low, once there are three bars: it names the swing's
/// level, and a level is broken once each way.
pub proof fn law_a_break_closes_past_the_latest_swing(
    signals: Seq<Signal>,
    count: int,
    tf: u16,
    c: Candle,
    q: BreakQuote,
    s: Signal,
)
    ensures
        ({
            let found = breaks_of(signals, count, tf, c, q);
            let highs = latest_map(signals, SignalKind::SwingHigh);
            let lows = latest_map(signals, SignalKind::SwingLow);
            let had = exists|i: int|
                0 <= i < signals.len() && (#[trigger] signals[i]).kind == SignalKind::Break
                    && signals[i].tf == tf && signals[i].level == s.level && signals[i].dir
                    == s.dir;
            &&& count < 3 ==> found.len() == 0
            &&& count >= 3 ==> (found.contains(s) <==> s.kind == SignalKind::Break && s.tf == tf
                && s.ts == starts_at(c) && s.level_end == 0 && s.gap_ts == 0 && s.c1_stop == 0
                && !had && ((s.dir == Direction::Bull && highs.contains_key(tf) && c.close > q.above
                && s.level == highs[tf].level) || (s.dir == Direction::Bear && lows.contains_key(
                tf,
            ) && c.close < q.below && s.level == lows[tf].level)))
        }),
{
    if count >= 3 {
        let highs = latest_map(signals, SignalKind::SwingHigh);
        let lows = latest_map(signals, SignalKind::SwingLow);
        let up = crate::liquidity::signals::break_signal(
            tf,
            starts_at(c),
            crate::liquidity::signals::swing_level(highs, tf),
            Direction::Bull,
        );
        let down = crate::liquidity::signals::break_signal(
            tf,
            starts_at(c),
            crate::liquidity::signals::swing_level(lows, tf),
            Direction::Bear,
        );
        lemma_pair(
            highs.contains_key(tf) && c.close > q.above && !crate::liquidity::signals::reported(
                signals,
                up,
            ),
            up,
            lows.contains_key(tf) && c.close < q.below && !crate::liquidity::signals::reported(
                signals,
                down,
            ),
            down,
            s,
        );
        lemma_reported_break(signals, up);
        lemma_reported_break(signals, down);
    }
}

proof fn lemma_reported_break(signals: Seq<Signal>, s: Signal)
    requires
        s.kind == SignalKind::Break,
    ensures
        crate::liquidity::signals::reported(signals, s) <==> exists|i: int|
            0 <= i < signals.len() && (#[trigger] signals[i]).kind == SignalKind::Break
                && signals[i].tf == s.tf && signals[i].level == s.level && signals[i].dir == s.dir,
{
    if exists|i: int|
        0 <= i < signals.len() && (#[trigger] signals[i]).kind == SignalKind::Break
            && signals[i].tf == s.tf && signals[i].level == s.level && signals[i].dir == s.dir {
        let i = choose|i: int|
            0 <= i < signals.len() && (#[trigger] signals[i]).kind == SignalKind::Break
                && signals[i].tf == s.tf && signals[i].level == s.level && signals[i].dir == s.dir;
        assert(crate::liquidity::signals::same_event(signals[i], s));
    }
}

/// The newest signals and the newest bars are what is kept, in order, no more
/// than the cap and no fewer than there are up to it.
pub proof fn law_the_newest_are_kept(
    signals: Seq<Signal>,
    ring: Seq<Candle>,
    c: Candle,
    cap: int,
    i: int,
)
    requires
        1 <= cap,
    ensures
        ({
            let s = newest(signals, cap);
            &&& s.len() <= cap && s.len() <= signals.len()
            &&& s.len() == cap || s.len() == signals.len()
            &&& 0 <= i < s.len() ==> s[i] == signals[signals.len() - s.len() + i]
        }),
        ({
            let r = ring_after(ring, c, cap);
            &&& r.len() <= cap && r.last() == c
            &&& r.len() == cap || r.len() == ring.len() + 1
            &&& 0 <= i < r.len() - 1 ==> r[i] == ring[ring.len() + 1 - r.len() + i]
        }),
{
}

/// A swing becomes a level at its price and time, above a swing high and below
/// a swing low, with one touch; it merges within its band where there is an
/// ATR.
pub proof fn law_a_swing_becomes_a_level(
    ids: ScannerIds,
    s: Signal,
    q: ScanQuote,
    atr: Num,
)
    ensures
        ({
            let (l, band) = swing_addition(ids, s, q, atr);
            let high = s.kind == SignalKind::SwingHigh;
            &&& l.price == s.level && l.tf == s.tf && l.ts == s.ts && l.touch == 1
            &&& high ==> l.side == Side::Bsl && l.source == ids.swing_high
            &&& !high ==> l.side == Side::Ssl && l.source == ids.swing_low
            &&& atr > 0 ==> band == Some(
                if high {
                    q.high_band
                } else {
                    q.low_band
                },
            )
            &&& atr <= 0 ==> band is None
        }),
{
}

// ─── Fair-value gaps ────────────────────────────────────────────────────────

/// A tracked gap's near edge is the one a retrace reaches first: the upper edge
/// of a bullish gap, the lower edge of a bearish one.
pub proof fn law_a_retrace_reaches_the_near_edge_first(s: Signal, q: GapQuote)
    requires
        s.level <= s.level_end,
    ensures
        ({
            let g = gap_of_signal(s, q);
            &&& g.dir == s.dir && g.tf == s.tf && g.ts == s.ts && g.c1_stop == s.c1_stop
            &&& s.dir == Direction::Bull ==> g.near == s.level_end && g.far == s.level && g.near
                >= g.far && g.ce == q.bull_ce
            &&& s.dir == Direction::Bear ==> g.near == s.level && g.far == s.level_end && g.near
                <= g.far && g.ce == q.bear_ce
        }),
{
}

/// What a bar does to a live gap. A body that ends past the far edge, below a
/// bullish gap's and above a bearish one's, inverts it: it is retired and a gap
/// of the other direction with the same midpoint takes its place. Short of that
/// an unmitigated gap is mitigated by a bar that trades to its midpoint, and a
/// mitigated one filled by a bar that trades to its far edge. Any other bar
/// leaves it as it is.
pub proof fn law_a_gap_is_mitigated_then_filled_or_inverted(s: GapRun, i: int, c: Candle, ts: i64)
    requires
        0 <= i < s.fvgs.len() < 0x7fff_ffff,
    ensures
        ({
            let f = s.fvgs[i];
            let bull = f.dir == Direction::Bull;
            let inverted = if bull {
                c.open < f.far || c.close < f.far
            } else {
                c.open > f.far || c.close > f.far
            };
            let reaches = |price: Num|
                if bull {
                    c.low <= price
                } else {
                    c.high >= price
                };
            let after = gap_step(s, i, c, ts);
            let status = if inverted {
                FvgStatus::Inverted
            } else if f.status == FvgStatus::Mitigated && reaches(f.far) {
                FvgStatus::Filled
            } else if f.status == FvgStatus::Unmitigated && reaches(f.ce) {
                FvgStatus::Mitigated
            } else {
                f.status
            };
            &&& after.fvgs[i] == (Fvg { status, ..f })
            &&& forall|j: int|
                0 <= j < s.fvgs.len() && j != i ==> #[trigger] after.fvgs[j] == s.fvgs[j]
            &&& !inverted ==> after.fvgs.len() == s.fvgs.len() && after.fresh == s.fresh
            &&& inverted ==> after.removed && after.fvgs.len() == s.fvgs.len() + 1 && after.fresh
                == s.fresh.push(s.fvgs.len() as usize) && ({
                let g = after.fvgs.last();
                &&& g.id == s.fvgs.len() && g.tf == c.timeframe && g.ts == ts && g.ce == f.ce
                &&& g.dir != f.dir && g.status == FvgStatus::Unmitigated && g.is_inverted_kind
                &&& g.c1_stop is None
            })
            &&& after.removed <==> s.removed || inverted || (f.status == FvgStatus::Mitigated
                && reaches(f.far))
        }),
{
}

/// Gaps still to be traded on a timeframe are the active ones of the kind and
/// direction that nothing has mitigated, no older than asked, in order.
pub proof fn law_open_gaps_are_the_unmitigated_ones(
    fvgs: Seq<Fvg>,
    active: Seq<usize>,
    tf: u16,
    dir: Direction,
    inverted: bool,
    since: i64,
)
    ensures
        gaps_matching(fvgs, active, tf, dir, inverted, since) == active.map_values(
            |i: usize| fvgs[i as int],
        ).filter(
            |f: Fvg|
                f.tf == tf && f.dir == dir && f.is_inverted_kind == inverted && since <= f.ts
                    && f.status == FvgStatus::Unmitigated,
        ),
    decreases active.len(),
{
    reveal(Seq::filter);
    let all = active.map_values(|i: usize| fvgs[i as int]);
    if active.len() > 0 {
        law_open_gaps_are_the_unmitigated_ones(
            fvgs,
            active.drop_last(),
            tf,
            dir,
            inverted,
            since,
        );
        assert(all.drop_last() =~= active.drop_last().map_values(|i: usize| fvgs[i as int]));
        assert(all.last() == fvgs[active.last() as int]);
    }
}

/// A gap stays active while it is unmitigated or mitigated, and no longer.
pub proof fn law_settled_gaps_are_not_active(fvgs: Seq<Fvg>, active: Seq<usize>)
    ensures
        live_places(fvgs, active) == active.filter(
            |i: usize|
                fvgs[i as int].status == FvgStatus::Unmitigated || fvgs[i as int].status
                    == FvgStatus::Mitigated,
        ),
    decreases active.len(),
{
    reveal(Seq::filter);
    if active.len() > 0 {
        law_settled_gaps_are_not_active(fvgs, active.drop_last());
    }
}

/// A gap passes a filter when it shares a price with the zone and its near edge
/// is clear: at or above the mark for a bullish gap, at or below it for a
/// bearish one.
pub proof fn law_a_passing_gap_overlaps_the_zone(f: Fvg, q: GapFilter)
    requires
        q.zone_lo <= q.zone_hi,
    ensures
        passes(f, q) <==> (exists|p: Num|
            #![trigger trades_through(f, p)]
            trades_through(f, p) && q.zone_lo <= p <= q.zone_hi) && (f.dir == Direction::Bull
            ==> f.near >= q.clear_at) && (f.dir == Direction::Bear ==> f.near <= q.clear_at),
{
    let (lo, hi) = if f.near <= f.far {
        (f.near, f.far)
    } else {
        (f.far, f.near)
    };
    let p = if lo >= q.zone_lo {
        lo
    } else {
        q.zone_lo
    };
    if lo <= q.zone_hi && hi >= q.zone_lo {
        assert(trades_through(f, p));
    }
}

/// A price lies between a gap's edges.
pub open spec fn trades_through(f: Fvg, p: Num) -> bool {
    (f.near <= p <= f.far) || (f.far <= p <= f.near)
}

/// The first gap that passes and is wide enough is the one found.
pub proof fn law_the_first_passing_gap_is_found(
    list: Seq<Fvg>,
    wide: Seq<bool>,
    q: GapFilter,
    from: int,
    i: int,
)
    requires
        0 <= from <= i <= list.len(),
        forall|j: int| from <= j < i ==> !(wide[j] && passes(#[trigger] list[j], q)),
        i < list.len() ==> wide[i] && passes(list[i], q),
    ensures
        first_passing(list, wide, q, from) == i,
    decreases i - from,
{
    if from < i {
        assert(!(wide[from] && passes(list[from], q)));
        law_the_first_passing_gap_is_found(list, wide, q, from + 1, i);
    }
}

// ─── Days, periods and sessions ─────────────────────────────────────────────

/// A bar on the day that is forming goes into it; the first bar of another day
/// ends it, as it stood, and opens the next with its own prices.
pub proof fn law_a_new_day_ends_the_one_before(forming: Day, c: Candle, secs: int)
    requires
        0 <= secs < 0x1000_0000_0000,
    ensures
        ({
            let (day, ended) = day_after(Some(forming), c, secs);
            let same = forming.day_ms == secs / 86_400 * 86_400_000;
            &&& same ==> ended is None && day.day_ms == forming.day_ms && day.open == forming.open
                && day.close == c.close && (day.high == forming.high || day.high == c.high)
                && (day.low == forming.low || day.low == c.low)
            &&& !same ==> ended == Some(forming) && day == (Day {
                day_ms: (secs / 86_400 * 86_400_000) as i64,
                open: c.open,
                high: c.high,
                low: c.low,
                close: c.close,
            })
        }),
        day_after(None, c, secs).1 is None,
        day_after(None, c, secs).0.open == c.open && day_after(None, c, secs).0.high == c.high
            && day_after(None, c, secs).0.low == c.low,
{
}

/// A range takes in a bar: it covers what it covered and the bar, and no more.
pub proof fn law_a_range_widens_to_the_bar(r: Range, c: Candle)
    ensures
        ({
            let w = widened(r, c);
            &&& w.high is Some && w.low is Some
            &&& w.high->0 >= c.high && w.low->0 <= c.low
            &&& r.high is Some ==> w.high->0 >= r.high->0 && (w.high->0 == r.high->0 || w.high->0
                == c.high)
            &&& r.high is None ==> w.high->0 == c.high
            &&& r.low is Some ==> w.low->0 <= r.low->0 && (w.low->0 == r.low->0 || w.low->0
                == c.low)
            &&& r.low is None ==> w.low->0 == c.low
        }),
{
}

/// A level of a range: its high on the buy side under one source, or its low on
/// the sell side under the other, with one touch.
pub open spec fn of_range(
    l: NewLevel,
    r: Range,
    high: u16,
    low: u16,
    tf: u16,
    ts: i64,
) -> bool {
    &&& l.tf == tf && l.ts == ts && l.touch == 1
    &&& (r.high == Some(l.price) && l.side == Side::Bsl && l.source == high) || (r.low == Some(
        l.price,
    ) && l.side == Side::Ssl && l.source == low)
}

proof fn lemma_range_levels(l: NewLevel, r: Range, high: u16, low: u16, tf: u16, ts: i64)
    ensures
        range_levels(r, high, low, tf, ts).contains(l) <==> of_range(l, r, high, low, tf, ts),
{
    let h = NewLevel {
        price: r.high->0,
        side: Side::Bsl,
        source: high,
        tf,
        ts,
        touch: 1,
    };
    let w = NewLevel { price: r.low->0, side: Side::Ssl, source: low, tf, ts, touch: 1 };
    lemma_pair(r.high is Some, h, r.low is Some, w, l);
    let p = (if r.high is Some {
        seq![h]
    } else {
        Seq::<NewLevel>::empty()
    }) + (if r.low is Some {
        seq![w]
    } else {
        Seq::<NewLevel>::empty()
    });
    assert(range_levels(r, high, low, tf, ts) =~= p);
}

proof fn lemma_joined<A>(a: Seq<A>, b: Seq<A>, x: A)
    ensures
        (a + b).contains(x) <==> a.contains(x) || b.contains(x),
{
    if a.contains(x) {
        let i = choose|i: int| 0 <= i < a.len() && a[i] == x;
        assert((a + b)[i] == x);
    }
    if b.contains(x) {
        let i = choose|i: int| 0 <= i < b.len() && b[i] == x;
        assert((a + b)[a.len() + i] == x);
    }
}

/// The first bar of another day makes levels of the day before: its high above
/// and its low below, and so do weeks and months; a bar of the same day, week
/// and month makes none, nor does the first bar of all.
pub proof fn law_a_period_leaves_its_extremes(
    p: Periods,
    ids: PeriodIds,
    now: Civil,
    ts: i64,
    l: NewLevel,
)
    ensures
        period_levels(p, ids, now, ts).contains(l) <==> {
            ||| p.date is Some && p.date->0 != now.day && of_range(
                l,
                p.day_range,
                ids.pdh,
                ids.pdl,
                ids.tf_1d,
                ts,
            )
            ||| p.week is Some && p.week->0 != now.week && of_range(
                l,
                p.week_range,
                ids.pwh,
                ids.pwl,
                ids.tf_1w,
                ts,
            )
            ||| p.month is Some && p.month->0 != now.month && of_range(
                l,
                p.month_range,
                ids.pmh,
                ids.pml,
                ids.tf_1mo,
                ts,
            )
        },
{
    lemma_range_levels(l, p.day_range, ids.pdh, ids.pdl, ids.tf_1d, ts);
    lemma_range_levels(l, p.week_range, ids.pwh, ids.pwl, ids.tf_1w, ts);
    lemma_range_levels(l, p.month_range, ids.pmh, ids.pml, ids.tf_1mo, ts);
    let a = crate::liquidity::session::ended_levels(
        crate::liquidity::session::day_ended(p, now),
        p.day_range,
        ids.pdh,
        ids.pdl,
        ids.tf_1d,
        ts,
    );
    let b = crate::liquidity::session::ended_levels(
        crate::liquidity::session::week_ended(p, now),
        p.week_range,
        ids.pwh,
        ids.pwl,
        ids.tf_1w,
        ts,
    );
    let c = crate::liquidity::session::ended_levels(
        crate::liquidity::session::month_ended(p, now),
        p.month_range,
        ids.pmh,
        ids.pml,
        ids.tf_1mo,
        ts,
    );
    lemma_joined(a + b, c, l);
    lemma_joined(a, b, l);
}

/// A period that ended starts over with the bar; one that goes on widens to it.
pub proof fn law_a_period_starts_over_with_its_first_bar(p: Periods, c: Candle, now: Civil)
    ensures
        ({
            let after = periods_after(p, c, now);
            let alone = Range { high: Some(c.high), low: Some(c.low) };
            &&& after.date == Some(now.day) && after.week == Some(now.week) && after.month == Some(
                now.month,
            )
            &&& p.date is Some ==> after.day_range == if p.date->0 == now.day {
                widened(p.day_range, c)
            } else {
                alone
            }
            &&& p.week is Some ==> after.week_range == if p.week->0 == now.week {
                widened(p.week_range, c)
            } else {
                alone
            }
            &&& p.month is Some ==> after.month_range == if p.month->0 == now.month {
                widened(p.month_range, c)
            } else {
                alone
            }
        }),
{
}

/// An opening mark that was not made today becomes a level at the bar's open
/// once the clock reaches its time, and is made for the day; one that was made,
/// or whose time has not come, becomes none.
pub proof fn law_a_mark_is_the_open_at_its_time(
    marks: Seq<OpenMark>,
    marked: Seq<Option<i32>>,
    sources: Seq<u16>,
    c: Candle,
    now: Civil,
    ts: i64,
    n: nat,
    l: NewLevel,
)
    requires
        n <= marks.len(),
        marked.len() == marks.len(),
    ensures
        mark_levels(marks, marked, sources, c, now, ts, n).contains(l) <==> l.price == c.open
            && l.tf == c.timeframe && l.ts == ts && l.touch == 1 && l.side == Side::Bsl
            && exists|k: int|
            0 <= k < n && (now.hour > (#[trigger] marks[k]).hour || (now.hour == marks[k].hour
                && now.minute >= marks[k].minute)) && marked[k] != Some(now.day) && l.source
                == sources[k],
        forall|k: int|
            0 <= k < marks.len() ==> #[trigger] marks_after(marks, marked, now)[k] == if (now.hour
                > marks[k].hour || (now.hour == marks[k].hour && now.minute >= marks[k].minute)) {
                Some(now.day)
            } else {
                marked[k]
            },
    decreases n,
{
    if n > 0 {
        law_a_mark_is_the_open_at_its_time(
            marks,
            marked,
            sources,
            c,
            now,
            ts,
            (n - 1) as nat,
            l,
        );
        let list = mark_levels(marks, marked, sources, c, now, ts, n);
        let rest = mark_levels(marks, marked, sources, c, now, ts, (n - 1) as nat);
        let m = marks[n - 1];
        if list.len() > rest.len() {
            let x = list.last();
            assert(list == rest + seq![x]);
            lemma_joined(rest, seq![x], l);
            assert(seq![x].contains(l) <==> l == x) by {
                assert(seq![x][0] == x);
            }
        }
    }
}

/// A session that starts before it ends is on from its first hour up to its
/// last; one that ends before it starts runs over midnight; one that starts
/// where it ends is always on.
pub proof fn law_a_session_is_on_in_its_hours(s: SessionSpec, hour: i64)
    ensures
        s.start_hour < s.end_hour ==> (in_hours(s, hour) <==> s.start_hour <= hour && hour
            < s.end_hour),
        s.start_hour > s.end_hour ==> (in_hours(s, hour) <==> hour >= s.start_hour || hour
            < s.end_hour),
        s.start_hour == s.end_hour ==> in_hours(s, hour),
{
}

/// A session's range widens to every bar in its hours; the first bar after them
/// makes levels of its high and its low and clears it; a session that is not
/// running makes none.
pub proof fn law_a_session_leaves_its_extremes(
    specs: Seq<SessionSpec>,
    runs: Seq<SessionRun>,
    ids: PeriodIds,
    c: Candle,
    hour: i64,
    ts: i64,
    n: nat,
    l: NewLevel,
)
    requires
        n <= specs.len(),
        runs.len() == specs.len(),
    ensures
        session_levels(specs, runs, ids, c, hour, ts, n).contains(l) <==> exists|k: int|
            0 <= k < n && !in_hours(#[trigger] specs[k], hour) && runs[k].active && of_range(
                l,
                runs[k].range,
                ids.session_high,
                ids.session_low,
                c.timeframe,
                ts,
            ),
        forall|k: int|
            0 <= k < n ==> {
                let (s, r) = (#[trigger] specs[k], runs[k]);
                let after = session_after(s, r, c, hour);
                &&& in_hours(s, hour) ==> after.active && after.range == widened(r.range, c)
                &&& !in_hours(s, hour) ==> !after.active
                &&& !in_hours(s, hour) && r.active ==> after.range.high is None && after.range.low
                    is None
                &&& !in_hours(s, hour) && !r.active ==> after == r
            },
    decreases n,
{
    if n > 0 {
        law_a_session_leaves_its_extremes(specs, runs, ids, c, hour, ts, (n - 1) as nat, l);
        let rest = session_levels(specs, runs, ids, c, hour, ts, (n - 1) as nat);
        let more = range_levels(
            runs[n - 1].range,
            ids.session_high,
            ids.session_low,
            c.timeframe,
            ts,
        );
        lemma_joined(rest, more, l);
        lemma_range_levels(
            l,
            runs[n - 1].range,
            ids.session_high,
            ids.session_low,
            c.timeframe,
            ts,
        );
        let s = specs[n - 1];
    }
}

// ─── Equal highs and lows ───────────────────────────────────────────────────

/// Sorted prices climb and are the same prices: each as often as before.
pub proof fn law_sorted_prices_climb(s: Seq<Num>)
    requires
        s.len() <= usize::MAX,
    ensures
        sorted(s).len() == s.len(),
        forall|i: int, j: int|
            0 <= i < j < s.len() ==> (#[trigger] sorted(s)[i]) <= (#[trigger] sorted(s)[j]),
        forall|x: Num| #[trigger] sorted(s).contains(x) <==> s.contains(x),
{
    let keys = price_keys(s);
    law_a_stable_order_exists(keys);
    let order = order_of(keys);
    assert forall|i: int, j: int| 0 <= i < j < s.len() implies (#[trigger] sorted(s)[i]) <= (
    #[trigger] sorted(s)[j]) by {
        assert(before(keys, order[i] as int, order[j] as int));
    }
    assert forall|x: Num| #[trigger] sorted(s).contains(x) <==> s.contains(x) by {
        if sorted(s).contains(x) {
            let i = choose|i: int| 0 <= i < s.len() && sorted(s)[i] == x;
            assert(s[order[i] as int] == x);
        }
        if s.contains(x) {
            let j = choose|j: int| 0 <= j < s.len() && s[j] == x;
            assert(order.contains(j as usize));
            let i = choose|i: int| 0 <= i < order.len() && order[i] == j as usize;
            assert(sorted(s)[i] == x);
        }
    }
}

/// Clusters are as large as they can be, and none is missed: the price after a
/// cluster is out of reach of its first one, and a price in no cluster does not
/// reach the next.
pub proof fn law_clusters_are_as_large_as_they_can_be(s: Seq<Num>, reach: Seq<Num>)
    requires
        s.len() <= usize::MAX,
        reach.len() == s.len(),
    ensures
        forall|k: int|
            0 <= k < clusters(s, reach).len() ==> {
                let c = #[trigger] clusters(s, reach)[k];
                c.1 < s.len() ==> s[c.1 as int] > reach[c.0 as int]
            },
        forall|i: int|
            0 <= i < s.len() - 1 && !in_a_cluster(clusters(s, reach), i) ==> s[i + 1]
                > #[trigger] reach[i],
{
    if s.len() > 0 {
        lemma_large(s, reach, 0, 1);
    }
}

/// A place is in one of some ranges.
pub open spec fn in_a_cluster(c: Seq<(usize, usize)>, i: int) -> bool {
    exists|k: int| 0 <= k < c.len() && (#[trigger] c[k]).0 <= i < c[k].1
}

proof fn lemma_large(s: Seq<Num>, reach: Seq<Num>, start: int, i: int)
    requires
        0 <= start < i <= s.len() <= usize::MAX,
        reach.len() == s.len(),
        forall|j: int| start < j < i ==> (#[trigger] s[j]) <= reach[start],
    ensures
        ({
            let c = clusters_from(s, reach, start, i);
            &&& forall|k: int|
                0 <= k < c.len() ==> ((#[trigger] c[k]).1 < s.len() ==> s[c[k].1 as int]
                    > reach[c[k].0 as int])
            &&& forall|x: int|
                start <= x < s.len() - 1 && !in_a_cluster(c, x) ==> s[x + 1] > #[trigger] reach[x]
        }),
    decreases s.len() - i,
{
    let c = clusters_from(s, reach, start, i);
    let done = if i - start >= 2 {
        seq![(start as usize, i as usize)]
    } else {
        Seq::empty()
    };
    if i < s.len() {
        if s[i] > reach[start] {
            lemma_large(s, reach, i, i + 1);
            let rest = clusters_from(s, reach, i, i + 1);
            assert(c == done + rest);
            assert forall|k: int| 0 <= k < c.len() implies ((#[trigger] c[k]).1 < s.len()
                ==> s[c[k].1 as int] > reach[c[k].0 as int]) by {
                if k >= done.len() {
                    assert(c[k] == rest[k - done.len()]);
                }
            }
            assert forall|x: int| start <= x < s.len() - 1 && !in_a_cluster(c, x) implies s[x + 1]
                > #[trigger] reach[x] by {
                if x >= i {
                    if in_a_cluster(rest, x) {
                        let k = choose|k: int|
                            0 <= k < rest.len() && (#[trigger] rest[k]).0 <= x < rest[k].1;
                        assert(c[done.len() + k] == rest[k]);
                    }
                } else if i - start >= 2 {
                    assert(c[0] == (start as usize, i as usize));
                }
            }
        } else {
            lemma_large(s, reach, start, i + 1);
        }
    } else {
        assert forall|x: int| start <= x < s.len() - 1 && !in_a_cluster(c, x) implies s[x + 1]
            > #[trigger] reach[x] by {
            if i - start >= 2 {
                assert(c[0] == (start as usize, i as usize));
            }
        }
    }
}

/// A cluster counts its prices and carries the figures quoted for it, highs
/// before lows; without a tolerance there are none.
pub proof fn law_a_cluster_counts_its_prices(highs: Seq<Num>, lows: Seq<Num>, q: EqQuote, k: int)
    ensures
        ({
            let c = eq_cands(highs, lows, q);
            let a = clusters(sorted(highs), q.highs.reach@);
            let b = clusters(sorted(lows), q.lows.reach@);
            let (r, f) = if k < a.len() {
                (a[k], q.highs.clusters@[k])
            } else {
                (b[k - a.len()], q.lows.clusters@[k - a.len()])
            };
            &&& q.tolerance <= 0 ==> c.len() == 0
            &&& q.tolerance > 0 ==> c.len() == a.len() + b.len()
            &&& 0 <= k < c.len() ==> (c[k].is_high <==> k < a.len()) && c[k].count == (r.1
                - r.0) as i64 && c[k].price == f.price && c[k].near == f.near && c[k].bucket
                == f.bucket && c[k].band == f.band
        }),
{
}

/// A cluster becomes a level when it has touches enough, lies far enough from
/// the close and its bucket was not emitted before on its side; the bucket is
/// then emitted. The level stands at the cluster's price with its touches,
/// above for highs and below for lows.
pub proof fn law_a_cluster_is_emitted_once(
    emitted: Seq<(bool, i64)>,
    cfg: EqualLevelsCfg,
    cands: Seq<EqCandidate>,
    eqh: u16,
    eql: u16,
    tf: u16,
    ts: i64,
    n: nat,
)
    requires
        0 < n <= cands.len(),
    ensures
        ({
            let before = emitted_after(emitted, cfg, cands, eqh, eql, tf, ts, (n - 1) as nat);
            let after = emitted_after(emitted, cfg, cands, eqh, eql, tf, ts, n);
            let q = cands[n - 1];
            let goes = cfg.min_count <= q.count && !q.near && !before.emitted.contains(
                (q.is_high, q.bucket),
            );
            &&& !goes ==> after == before
            &&& goes ==> after.emitted == before.emitted.push((q.is_high, q.bucket))
                && after.out.len() == before.out.len() + 1 && after.out.drop_last() == before.out
                && ({
                let (l, band) = after.out.last();
                &&& l.price == q.price && l.touch == q.count && l.tf == tf && l.ts == ts && band
                    == q.band
                &&& q.is_high ==> l.side == Side::Bsl && l.source == eqh
                &&& !q.is_high ==> l.side == Side::Ssl && l.source == eql
            })
        }),
{
    let before = emitted_after(emitted, cfg, cands, eqh, eql, tf, ts, (n - 1) as nat);
    let after = emitted_after(emitted, cfg, cands, eqh, eql, tf, ts, n);
    if after.out.len() > before.out.len() {
        assert(after.out.drop_last() =~= before.out);
    }
}

// ─── The map of targets ─────────────────────────────────────────────────────

/// A target above the price draws up, one at or below it draws down; it is
/// scored as boosted exactly where a boost of its direction applies.
pub proof fn law_a_target_draws_toward_itself(
    level_id: i64,
    at: Num,
    price: Num,
    significance: Num,
    q: TargetQuote,
    b: Boosts,
)
    ensures
        ({
            let c = candidate(level_id, at, price, significance, q, b);
            let up = at > price;
            let boost = if up {
                b.bull
            } else {
                b.bear
            };
            &&& c.target.dir == Direction::Bull <==> up
            &&& c.target.price == at && c.target.level_id == level_id && c.target.significance
                == significance && c.target.distance_atr == q.distance
            &&& boost ==> c.target.draw_score == q.boosted.score && c.weight == q.boosted.weight
                && c.held == q.boosted.held
            &&& !boost ==> c.target.draw_score == q.plain.score && c.weight == q.plain.weight
                && c.held == q.plain.held
            &&& c.tie == q.tie && c.at_incumbent == q.at_incumbent
        }),
{
}

/// A direction is boosted while a sweep toward it is younger than the window
/// and large enough, and only then; older sweeps are forgotten.
pub proof fn law_young_sweeps_boost(sweeps: Seq<Sweep>, cfg: DrawCfg, ts: i64, cutoff: int)
    ensures
        ({
            let counts = |s: Sweep|
                s.start_ts > ts - cfg.sweep_window_secs && cfg.boost_min_magnitude
                    <= s.magnitude_atr;
            let b = boosts_of(sweeps, cfg, ts);
            &&& b.bull <==> exists|i: int|
                0 <= i < sweeps.len() && (#[trigger] sweeps[i]).dir == Direction::Bull && counts(
                    sweeps[i],
                )
            &&& b.bear <==> exists|i: int|
                0 <= i < sweeps.len() && (#[trigger] sweeps[i]).dir == Direction::Bear && counts(
                    sweeps[i],
                )
        }),
        sweeps_since(sweeps, cutoff) == sweeps.filter(|s: Sweep| cutoff < s.start_ts),
    decreases sweeps.len(),
{
    reveal(Seq::filter);
    let b = boosts_of(sweeps, cfg, ts);
    assert forall|dir: Direction| #[trigger] crate::liquidity::draw::boosted_by(
        sweeps,
        cfg,
        ts,
        dir,
    ) <==> exists|i: int|
        0 <= i < sweeps.len() && (#[trigger] sweeps[i]).dir == dir && sweeps[i].start_ts > ts
            - cfg.sweep_window_secs && cfg.boost_min_magnitude <= sweeps[i].magnitude_atr by {
        if exists|i: int|
            0 <= i < sweeps.len() && (#[trigger] sweeps[i]).dir == dir && sweeps[i].start_ts > ts
                - cfg.sweep_window_secs && cfg.boost_min_magnitude <= sweeps[i].magnitude_atr {
            let i = choose|i: int|
                0 <= i < sweeps.len() && (#[trigger] sweeps[i]).dir == dir && sweeps[i].start_ts
                    > ts - cfg.sweep_window_secs && cfg.boost_min_magnitude
                    <= sweeps[i].magnitude_atr;
            assert(crate::liquidity::draw::boosting(sweeps[i], cfg, ts, dir));
        }
    }
    if sweeps.len() > 0 {
        law_young_sweeps_boost(sweeps.drop_last(), cfg, ts, cutoff);
    }
}

/// The nearest significant candidate of a direction: none of that direction and
/// significance is nearer, and the first of equally near ones is taken.
pub proof fn law_the_nearest_candidate_of_a_side(
    c: Seq<Candidate>,
    dir: Direction,
    min_sig: Num,
    n: nat,
)
    requires
        n <= c.len(),
    ensures
        ({
            let b = nearest_of(c, dir, min_sig, n);
            let fits = |t: DrawTarget| t.dir == dir && t.significance >= min_sig;
            &&& -1 <= b < n
            &&& b >= 0 ==> fits(c[b].target)
            &&& forall|i: int|
                0 <= i < n && fits((#[trigger] c[i]).target) ==> b >= 0
                    && c[b].target.distance_atr <= c[i].target.distance_atr && (i < b
                    ==> c[b].target.distance_atr < c[i].target.distance_atr)
        }),
    decreases n,
{
    if n > 0 {
        law_the_nearest_candidate_of_a_side(c, dir, min_sig, (n - 1) as nat);
    }
}

/// The leader is the nearer of the two sides' nearest candidates; where their
/// distances tie, the heavier one, up before down. A side without one leaves
/// the lead to the other.
pub proof fn law_the_nearer_side_leads(c: Seq<Candidate>, min_sig: Num)
    ensures
        ({
            let up = nearest_of(c, Direction::Bull, min_sig, c.len());
            let down = nearest_of(c, Direction::Bear, min_sig, c.len());
            let l = leader(c, min_sig);
            let (x, y) = (c[up], c[down]);
            let tie = x.tie.lo <= y.target.distance_atr <= x.tie.hi;
            &&& up < 0 ==> l == down
            &&& down < 0 && up >= 0 ==> l == up
            &&& up >= 0 && down >= 0 && tie ==> l == if y.weight > x.weight {
                down
            } else {
                up
            }
            &&& up >= 0 && down >= 0 && !tie ==> l == if x.target.distance_atr
                < y.target.distance_atr {
                up
            } else {
                down
            }
        }),
{
}

/// Ranked candidates stand by score, the highest first, and by significance
/// where scores are equal; every candidate is ranked. The leader stands before
/// all of them.
pub proof fn law_candidates_stand_by_score(c: Seq<Candidate>, min_sig: Num)
    requires
        c.len() <= usize::MAX,
    ensures
        ({
            let r = by_score(c);
            &&& r.len() == c.len()
            &&& forall|i: int, j: int|
                0 <= i < j < r.len() ==> {
                    let (a, b) = ((#[trigger] r[i]).target, (#[trigger] r[j]).target);
                    a.draw_score > b.draw_score || (a.draw_score == b.draw_score && a.significance
                        >= b.significance)
                }
            &&& forall|x: Candidate| #[trigger] r.contains(x) <==> c.contains(x)
        }),
        leader(c, min_sig) >= 0 ==> ranked(c, min_sig).len() == c.len() && ranked(c, min_sig)[0]
            == c[leader(c, min_sig)],
        leader(c, min_sig) < 0 ==> ranked(c, min_sig) == by_score(c),
{
    let keys = score_keys(c);
    law_a_stable_order_exists(keys);
    let order = order_of(keys);
    let r = by_score(c);
    assert forall|i: int, j: int| 0 <= i < j < r.len() implies ({
        let (a, b) = ((#[trigger] r[i]).target, (#[trigger] r[j]).target);
        a.draw_score > b.draw_score || (a.draw_score == b.draw_score && a.significance
            >= b.significance)
    }) by {
        assert(before(keys, order[i] as int, order[j] as int));
    }
    assert forall|x: Candidate| #[trigger] r.contains(x) <==> c.contains(x) by {
        if r.contains(x) {
            let i = choose|i: int| 0 <= i < r.len() && r[i] == x;
            assert(c[order[i] as int] == x);
        }
        if c.contains(x) {
            let j = choose|j: int| 0 <= j < c.len() && c[j] == x;
            assert(order.contains(j as usize));
            let i = choose|i: int| 0 <= i < order.len() && order[i] == j as usize;
            assert(r[i] == x);
        }
    }
    crate::liquidity::draw::law_the_leader_is_significant(c, min_sig);
}

/// The target that led before leads again while the new leader's score is below
/// what it holds its place at; else the order stands. The others keep theirs.
pub proof fn law_the_incumbent_keeps_its_lead(c: Seq<Candidate>, dir: Direction, i: int)
    requires
        0 <= i < c.len(),
        c[i].target.dir == dir,
        c[i].at_incumbent,
        forall|j: int| 0 <= j < i ==> !((#[trigger] c[j]).target.dir == dir && c[j].at_incumbent),
    ensures
        ({
            let r = incumbent_kept(c, Some(dir));
            let stays = 0 < i && c[0].target.draw_score < c[i].held;
            &&& r.len() == c.len()
            &&& stays ==> r[0] == c[i] && forall|j: int| 0 < j <= i ==> #[trigger] r[j] == c[j - 1]
            &&& !stays ==> r == c
        }),
        incumbent_kept(c, None) == c,
{
    lemma_incumbent_at(c, dir, 0, i);
}

proof fn lemma_incumbent_at(c: Seq<Candidate>, dir: Direction, from: int, i: int)
    requires
        0 <= from <= i < c.len(),
        c[i].target.dir == dir,
        c[i].at_incumbent,
        forall|j: int| 0 <= j < i ==> !((#[trigger] c[j]).target.dir == dir && c[j].at_incumbent),
    ensures
        incumbent_at(c, dir, from) == i,
    decreases i - from,
{
    if from < i {
        assert(!(c[from].target.dir == dir && c[from].at_incumbent));
        lemma_incumbent_at(c, dir, from + 1, i);
    }
}

/// The bias of a map is its first target's direction and score, with the score
/// of the first target that draws the other way, where there is one.
pub proof fn law_the_first_target_is_the_bias(t: Seq<DrawTarget>, i: int)
    requires
        1 <= i <= t.len(),
        forall|j: int| 0 <= j < i ==> (#[trigger] t[j]).dir == t[0].dir,
        i < t.len() ==> t[i].dir != t[0].dir,
    ensures
        bias_of(t) == Some(
            (
                t[0].dir,
                t[0].draw_score,
                if i < t.len() {
                    Some(t[i].draw_score)
                } else {
                    None
                },
            ),
        ),
        bias_of(Seq::empty()) is None,
{
    lemma_opposing_target(t, 1, i);
}

proof fn lemma_opposing_target(t: Seq<DrawTarget>, from: int, i: int)
    requires
        1 <= from <= i <= t.len(),
        forall|j: int| 0 <= j < i ==> (#[trigger] t[j]).dir == t[0].dir,
        i < t.len() ==> t[i].dir != t[0].dir,
    ensures
        opposing_target(t, t[0].dir, from) == i,
    decreases i - from,
{
    if from < i {
        assert(t[from].dir == t[0].dir);
        lemma_opposing_target(t, from + 1, i);
    }
}

/// The map is due on a bar that finalizes a sweep and on every so many-th base
/// candle, wherever there is an ATR and a map is asked for; and on no other
/// bar.
pub proof fn law_the_map_is_due_on_its_cadence(s: Scanner, c: Candle, atr: Num, sweeps: int)
    requires
        s.cfg.draw is Some,
        sweeps >= 0,
    ensures
        ({
            let d = s.cfg.draw->0;
            let on_base = c.timeframe == s.ids.base_tf;
            draw_is_due(s, c, atr, sweeps) <==> d.enabled && 0 < atr && (sweeps != 0 || (on_base
                && 0 < d.every && (s.base_count + 1) % d.every as int == 0))
        }),
{
}

} // verus!
