//! Previous-period, session and opening levels.
use vstd::prelude::*;
use crate::clock::Civil;
use crate::key::Num;
use crate::liquidity::cfg::{OpenMark, SessionSpec, SessionsCfg};
use crate::liquidity::levels::{NewLevel, Side};
use crate::models::Candle;

verus! {

/// A running high and low.
#[derive(Debug, Clone, Copy, PartialEq, Eq, Structural)]
pub struct Range {
    pub high: Option<Num>,
    pub low: Option<Num>,
}

/// No bar yet.
pub open spec fn empty_range() -> Range {
    Range { high: None, low: None }
}

/// The range once a bar is in.
pub open spec fn widened(r: Range, c: Candle) -> Range {
    Range {
        high: match r.high {
            Some(h) if c.high <= h => Some(h),
            _ => Some(c.high),
        },
        low: match r.low {
            Some(l) if c.low >= l => Some(l),
            _ => Some(c.low),
        },
    }
}

fn widen(r: Range, c: &Candle) -> (w: Range)
    ensures
        w == widened(r, *c),
{
    Range {
        high: match r.high {
            Some(h) => if c.high > h {
                Some(c.high)
            } else {
                Some(h)
            },
            None => Some(c.high),
        },
        low: match r.low {
            Some(l) => if c.low < l {
                Some(c.low)
            } else {
                Some(l)
            },
            None => Some(c.low),
        },
    }
}

/// A session's state.
#[derive(Debug, Clone, Copy, PartialEq, Eq, Structural)]
pub struct SessionRun {
    pub range: Range,
    pub active: bool,
}

/// The sources and timeframes that period levels stand under.
#[derive(Debug, Clone, Copy, PartialEq, Eq, Structural)]
pub struct PeriodIds {
    pub pdh: u16,
    pub pdl: u16,
    pub pwh: u16,
    pub pwl: u16,
    pub pmh: u16,
    pub pml: u16,
    pub session_high: u16,
    pub session_low: u16,
    pub tf_1d: u16,
    pub tf_1w: u16,
    pub tf_1mo: u16,
}

/// The periods in progress.
#[derive(Debug, Clone, Copy, PartialEq, Eq, Structural)]
pub struct Periods {
    pub date: Option<i32>,
    pub week: Option<u32>,
    pub month: Option<u32>,
    pub day_range: Range,
    pub week_range: Range,
    pub month_range: Range,
}

/// The levels of a range that ended: its high, then its low.
pub open spec fn range_levels(r: Range, high: u16, low: u16, tf: u16, ts: i64) -> Seq<NewLevel> {
    (match r.high {
        Some(h) => seq![NewLevel { price: h, side: Side::Bsl, source: high, tf, ts, touch: 1 }],
        None => Seq::empty(),
    }) + (match r.low {
        Some(l) => seq![NewLevel { price: l, side: Side::Ssl, source: low, tf, ts, touch: 1 }],
        None => Seq::empty(),
    })
}

/// The levels of a period, where it ended.
pub open spec fn ended_levels(
    ended: bool,
    r: Range,
    high: u16,
    low: u16,
    tf: u16,
    ts: i64,
) -> Seq<NewLevel> {
    if ended {
        range_levels(r, high, low, tf, ts)
    } else {
        Seq::empty()
    }
}

/// The range of a period once the bar is in: a new period starts with it.
pub open spec fn period_range(ended: bool, r: Range, c: Candle) -> Range {
    widened(
        if ended {
            empty_range()
        } else {
            r
        },
        c,
    )
}

/// The bar starts a new day.
pub open spec fn day_ended(p: Periods, now: Civil) -> bool {
    p.date is Some && p.date != Some(now.day)
}

/// The bar starts a new ISO week.
pub open spec fn week_ended(p: Periods, now: Civil) -> bool {
    p.week is Some && p.week != Some(now.week)
}

/// The bar starts a new month.
pub open spec fn month_ended(p: Periods, now: Civil) -> bool {
    p.month is Some && p.month != Some(now.month)
}

/// The levels of the periods a bar ends: the day's, the week's, the month's.
pub open spec fn period_levels(p: Periods, ids: PeriodIds, now: Civil, ts: i64) -> Seq<NewLevel> {
    ended_levels(day_ended(p, now), p.day_range, ids.pdh, ids.pdl, ids.tf_1d, ts) + ended_levels(
        week_ended(p, now),
        p.week_range,
        ids.pwh,
        ids.pwl,
        ids.tf_1w,
        ts,
    ) + ended_levels(
        month_ended(p, now),
        p.month_range,
        ids.pmh,
        ids.pml,
        ids.tf_1mo,
        ts,
    )
}

/// The periods once the bar is in.
pub open spec fn periods_after(p: Periods, c: Candle, now: Civil) -> Periods {
    Periods {
        date: Some(now.day),
        week: Some(now.week),
        month: Some(now.month),
        day_range: period_range(day_ended(p, now), p.day_range, c),
        week_range: period_range(week_ended(p, now), p.week_range, c),
        month_range: period_range(month_ended(p, now), p.month_range, c),
    }
}

/// The time of day is at or after the mark's.
pub open spec fn mark_reached(m: OpenMark, now: Civil) -> bool {
    now.hour > m.hour || (now.hour == m.hour && now.minute >= m.minute)
}

/// Whether a mark's time has come today and was not marked yet.
pub open spec fn mark_due(m: OpenMark, marked: Option<i32>, now: Civil) -> bool {
    mark_reached(m, now) && marked != Some(now.day)
}

/// An opening level.
pub open spec fn open_level(c: Candle, source: u16, ts: i64) -> NewLevel {
    NewLevel { price: c.open, side: Side::Bsl, source, tf: c.timeframe, ts, touch: 1 }
}

/// The opening levels of the first `n` marks.
pub open spec fn mark_levels(
    marks: Seq<OpenMark>,
    marked: Seq<Option<i32>>,
    sources: Seq<u16>,
    c: Candle,
    now: Civil,
    ts: i64,
    n: nat,
) -> Seq<NewLevel>
    decreases n,
{
    if n == 0 {
        Seq::empty()
    } else {
        let rest = mark_levels(marks, marked, sources, c, now, ts, (n - 1) as nat);
        if mark_due(marks[n - 1], marked[n - 1], now) {
            rest.push(open_level(c, sources[n - 1], ts))
        } else {
            rest
        }
    }
}

/// The days the marks were last made on.
pub open spec fn marks_after(
    marks: Seq<OpenMark>,
    marked: Seq<Option<i32>>,
    now: Civil,
) -> Seq<Option<i32>> {
    Seq::new(
        marked.len(),
        |k: int|
            if mark_due(marks[k], marked[k], now) {
                Some(now.day)
            } else {
                marked[k]
            },
    )
}

/// Whether an hour is in a session; one that ends before it starts runs over
/// midnight.
pub open spec fn in_hours(s: SessionSpec, hour: i64) -> bool {
    if s.start_hour < s.end_hour {
        s.start_hour <= hour < s.end_hour
    } else {
        hour >= s.start_hour || hour < s.end_hour
    }
}

/// A session once the bar is in.
pub open spec fn session_after(s: SessionSpec, r: SessionRun, c: Candle, hour: i64) -> SessionRun {
    if in_hours(s, hour) {
        SessionRun { range: widened(r.range, c), active: true }
    } else if r.active {
        SessionRun { range: empty_range(), active: false }
    } else {
        r
    }
}

/// The levels of the first `n` sessions: of those that a bar ends.
pub open spec fn session_levels(
    specs: Seq<SessionSpec>,
    runs: Seq<SessionRun>,
    ids: PeriodIds,
    c: Candle,
    hour: i64,
    ts: i64,
    n: nat,
) -> Seq<NewLevel>
    decreases n,
{
    if n == 0 {
        Seq::empty()
    } else {
        let rest = session_levels(specs, runs, ids, c, hour, ts, (n - 1) as nat);
        if !in_hours(specs[n - 1], hour) && runs[n - 1].active {
            rest + range_levels(
                runs[n - 1].range,
                ids.session_high,
                ids.session_low,
                c.timeframe,
                ts,
            )
        } else {
            rest
        }
    }
}

/// The sessions once the bar is in.
pub open spec fn sessions_after(
    specs: Seq<SessionSpec>,
    runs: Seq<SessionRun>,
    c: Candle,
    hour: i64,
) -> Seq<SessionRun> {
    Seq::new(runs.len(), |k: int| session_after(specs[k], runs[k], c, hour))
}

/// Periods, sessions and marks in progress.
#[derive(Debug, Clone)]
pub struct SessionState {
    pub periods: Periods,
    pub runs: Vec<SessionRun>,
    /// The day each mark was last made on.
    pub open_mark_date: Vec<Option<i32>>,
}

/// All levels a bar brings, in order.
pub open spec fn levels_of_bar(
    s: SessionState,
    cfg: SessionsCfg,
    ids: PeriodIds,
    mark_src: Seq<u16>,
    c: Candle,
    now: Civil,
    ts: i64,
) -> Seq<NewLevel> {
    period_levels(s.periods, ids, now, ts) + mark_levels(
        cfg.open_marks@,
        s.open_mark_date@,
        mark_src,
        c,
        now,
        ts,
        cfg.open_marks@.len(),
    ) + session_levels(
        cfg.sessions@,
        s.runs@,
        ids,
        c,
        now.hour,
        ts,
        cfg.sessions@.len(),
    )
}

fn push_range(out: &mut Vec<NewLevel>, r: Range, high: u16, low: u16, tf: u16, ts: i64)
    ensures
        final(out)@ == old(out)@ + range_levels(r, high, low, tf, ts),
{
    if let Some(h) = r.high {
        out.push(NewLevel { price: h, side: Side::Bsl, source: high, tf, ts, touch: 1 });
    }
    if let Some(l) = r.low {
        out.push(NewLevel { price: l, side: Side::Ssl, source: low, tf, ts, touch: 1 });
    }
    proof {
        assert(out@ =~= old(out)@ + range_levels(r, high, low, tf, ts));
    }
}

fn is_in_hours(s: &SessionSpec, hour: i64) -> (r: bool)
    ensures
        r == in_hours(*s, hour),
{
    if s.start_hour < s.end_hour {
        hour >= s.start_hour && hour < s.end_hour
    } else {
        hour >= s.start_hour || hour < s.end_hour
    }
}

impl SessionState {
    /// There is a run per session and a day per mark.
    pub open spec fn wf(&self, cfg: SessionsCfg) -> bool {
        &&& self.runs@.len() == cfg.sessions@.len()
        &&& self.open_mark_date@.len() == cfg.open_marks@.len()
    }

    /// Nothing seen yet.
    pub fn new(cfg: &SessionsCfg) -> (r: Self)
        ensures
            r.wf(*cfg),
            r.periods == (Periods {
                date: None,
                week: None,
                month: None,
                day_range: empty_range(),
                week_range: empty_range(),
                month_range: empty_range(),
            }),
            forall|k: int|
                0 <= k < r.runs@.len() ==> #[trigger] r.runs@[k] == (SessionRun {
                    range: empty_range(),
                    active: false,
                }),
            forall|k: int| 0 <= k < r.open_mark_date@.len() ==> #[trigger] r.open_mark_date@[k] is None,
    {
        let none = Range { high: None, low: None };
        let mut runs: Vec<SessionRun> = Vec::new();
        let mut k: usize = 0;
        while k < cfg.sessions.len()
            invariant
                k <= cfg.sessions@.len(),
                none == empty_range(),
                runs@.len() == k,
                forall|j: int|
                    0 <= j < k ==> #[trigger] runs@[j] == (SessionRun {
                        range: empty_range(),
                        active: false,
                    }),
            decreases cfg.sessions@.len() - k,
        {
            runs.push(SessionRun { range: none, active: false });
            k = k + 1;
        }
        let mut marks: Vec<Option<i32>> = Vec::new();
        let mut m: usize = 0;
        while m < cfg.open_marks.len()
            invariant
                m <= cfg.open_marks@.len(),
                marks@.len() == m,
                forall|j: int| 0 <= j < m ==> #[trigger] marks@[j] is None,
            decreases cfg.open_marks@.len() - m,
        {
            marks.push(None);
            m = m + 1;
        }
        SessionState {
            periods: Periods {
                date: None,
                week: None,
                month: None,
                day_range: none,
                week_range: none,
                month_range: none,
            },
            runs,
            open_mark_date: marks,
        }
    }

    /// Emit the levels of the periods that this bar ends, and start the new
    /// ones.
    fn emit_period(
        &mut self,
        ids: &PeriodIds,
        c: &Candle,
        now: &Civil,
        ts: i64,
        out: &mut Vec<NewLevel>,
    )
        ensures
            final(self).runs == old(self).runs,
            final(self).open_mark_date == old(self).open_mark_date,
            final(self).periods == periods_after(old(self).periods, *c, *now),
            final(out)@ == old(out)@ + period_levels(old(self).periods, *ids, *now, ts),
    {
        let p = self.periods;
        let none = Range { high: None, low: None };
        let day = match p.date {
            Some(d) => d != now.day,
            None => false,
        };
        let week = match p.week {
            Some(w) => w != now.week,
            None => false,
        };
        let month = match p.month {
            Some(m) => m != now.month,
            None => false,
        };
        let mut next = p;
        if day {
            push_range(out, p.day_range, ids.pdh, ids.pdl, ids.tf_1d, ts);
            next.day_range = none;
        }
        if week {
            push_range(out, p.week_range, ids.pwh, ids.pwl, ids.tf_1w, ts);
            next.week_range = none;
        }
        if month {
            push_range(out, p.month_range, ids.pmh, ids.pml, ids.tf_1mo, ts);
            next.month_range = none;
        }
        next.date = Some(now.day);
        next.week = Some(now.week);
        next.month = Some(now.month);
        next.day_range = widen(next.day_range, c);
        next.week_range = widen(next.week_range, c);
        next.month_range = widen(next.month_range, c);
        self.periods = next;
        proof {
            assert(out@ =~= old(out)@ + period_levels(p, *ids, *now, ts));
        }
    }

    fn emit_marks(
        &mut self,
        cfg: &SessionsCfg,
        sources: &Vec<u16>,
        c: &Candle,
        now: &Civil,
        ts: i64,
        out: &mut Vec<NewLevel>,
    )
        requires
            old(self).wf(*cfg),
            sources@.len() == cfg.open_marks@.len(),
        ensures
            final(self).wf(*cfg),
            final(self).runs == old(self).runs,
            final(self).periods == old(self).periods,
            final(self).open_mark_date@ == marks_after(
                cfg.open_marks@,
                old(self).open_mark_date@,
                *now,
            ),
            final(out)@ == old(out)@ + mark_levels(
                cfg.open_marks@,
                old(self).open_mark_date@,
                sources@,
                *c,
                *now,
                ts,
                cfg.open_marks@.len(),
            ),
    {
        let ghost m0 = self.open_mark_date@;
        let ghost o0 = out@;
        let mut k: usize = 0;
        proof {
            assert(o0 + Seq::<NewLevel>::empty() =~= o0);
        }
        while k < cfg.open_marks.len()
            invariant
                k <= cfg.open_marks@.len(),
                self.wf(*cfg),
                m0.len() == cfg.open_marks@.len(),
                sources@.len() == cfg.open_marks@.len(),
                self.runs == old(self).runs,
                self.periods == old(self).periods,
                forall|j: int|
                    0 <= j < k ==> #[trigger] self.open_mark_date@[j] == marks_after(
                        cfg.open_marks@,
                        m0,
                        *now,
                    )[j],
                forall|j: int| k <= j < m0.len() ==> #[trigger] self.open_mark_date@[j] == m0[j],
                out@ == o0 + mark_levels(
                    cfg.open_marks@,
                    m0,
                    sources@,
                    *c,
                    *now,
                    ts,
                    k as nat,
                ),
            decreases cfg.open_marks@.len() - k,
        {
            let m = &cfg.open_marks[k];
            let done = match self.open_mark_date[k] {
                Some(d) => d == now.day,
                None => false,
            };
            let ghost before = out@;
            if (now.hour > m.hour || (now.hour == m.hour && now.minute >= m.minute)) && !done {
                out.push(
                    NewLevel {
                        price: c.open,
                        side: Side::Bsl,
                        source: sources[k],
                        tf: c.timeframe,
                        ts,
                        touch: 1,
                    },
                );
                self.open_mark_date.set(k, Some(now.day));
            }
            k = k + 1;
            proof {
                assert(out@ =~= o0 + mark_levels(
                    cfg.open_marks@,
                    m0,
                    sources@,
                    *c,
                    *now,
                    ts,
                    k as nat,
                ));
            }
        }
        proof {
            assert(self.open_mark_date@ =~= marks_after(cfg.open_marks@, m0, *now));
        }
    }

    fn emit_sessions(
        &mut self,
        cfg: &SessionsCfg,
        ids: &PeriodIds,
        c: &Candle,
        hour: i64,
        ts: i64,
        out: &mut Vec<NewLevel>,
    )
        requires
            old(self).wf(*cfg),
        ensures
            final(self).wf(*cfg),
            final(self).open_mark_date == old(self).open_mark_date,
            final(self).periods == old(self).periods,
            final(self).runs@ == sessions_after(cfg.sessions@, old(self).runs@, *c, hour),
            final(out)@ == old(out)@ + session_levels(
                cfg.sessions@,
                old(self).runs@,
                *ids,
                *c,
                hour,
                ts,
                cfg.sessions@.len(),
            ),
    {
        let ghost r0 = self.runs@;
        let ghost o0 = out@;
        let mut k: usize = 0;
        proof {
            assert(o0 + Seq::<NewLevel>::empty() =~= o0);
        }
        while k < cfg.sessions.len()
            invariant
                k <= cfg.sessions@.len(),
                self.wf(*cfg),
                r0.len() == cfg.sessions@.len(),
                self.open_mark_date == old(self).open_mark_date,
                self.periods == old(self).periods,
                forall|j: int|
                    0 <= j < k ==> #[trigger] self.runs@[j] == session_after(
                        cfg.sessions@[j],
                        r0[j],
                        *c,
                        hour,
                    ),
                forall|j: int| k <= j < r0.len() ==> #[trigger] self.runs@[j] == r0[j],
                out@ == o0 + session_levels(cfg.sessions@, r0, *ids, *c, hour, ts, k as nat),
            decreases cfg.sessions@.len() - k,
        {
            let run = self.runs[k];
            if is_in_hours(&cfg.sessions[k], hour) {
                self.runs.set(k, SessionRun { range: widen(run.range, c), active: true });
            } else if run.active {
                push_range(out, run.range, ids.session_high, ids.session_low, c.timeframe, ts);
                self.runs.set(
                    k,
                    SessionRun { range: Range { high: None, low: None }, active: false },
                );
            }
            k = k + 1;
            proof {
                assert(out@ =~= o0 + session_levels(
                    cfg.sessions@,
                    r0,
                    *ids,
                    *c,
                    hour,
                    ts,
                    k as nat,
                ));
            }
        }
        proof {
            assert(self.runs@ =~= sessions_after(cfg.sessions@, r0, *c, hour));
        }
    }

    /// Take in a bar: the levels of the periods and sessions that end with
    /// it, and of the marks whose time has come.
    pub fn session_process(
        &mut self,
        cfg: &SessionsCfg,
        ids: &PeriodIds,
        mark_src: &Vec<u16>,
        c: &Candle,
        now: &Civil,
        ts: i64,
    ) -> (r: Vec<NewLevel>)
        requires
            old(self).wf(*cfg),
            mark_src@.len() == cfg.open_marks@.len(),
        ensures
            final(self).wf(*cfg),
            final(self).periods == periods_after(old(self).periods, *c, *now),
            final(self).open_mark_date@ == marks_after(
                cfg.open_marks@,
                old(self).open_mark_date@,
                *now,
            ),
            final(self).runs@ == sessions_after(cfg.sessions@, old(self).runs@, *c, now.hour),
            r@ == levels_of_bar(*old(self), *cfg, *ids, mark_src@, *c, *now, ts),
    {
        let mut out: Vec<NewLevel> = Vec::new();
        self.emit_period(ids, c, now, ts, &mut out);
        self.emit_marks(cfg, mark_src, c, now, ts, &mut out);
        self.emit_sessions(cfg, ids, c, now.hour, ts, &mut out);
        proof {
            assert(out@ =~= levels_of_bar(*old(self), *cfg, *ids, mark_src@, *c, *now, ts));
        }
        out
    }
}

/// Every level is of a known source and has one touch.
pub open spec fn plain_levels(list: Seq<NewLevel>, sources: int) -> bool {
    forall|i: int|
        0 <= i < list.len() ==> (#[trigger] list[i]).source < sources && list[i].touch == 1
}

proof fn lemma_plain_append(a: Seq<NewLevel>, b: Seq<NewLevel>, sources: int)
    requires
        plain_levels(a, sources),
        plain_levels(b, sources),
    ensures
        plain_levels(a + b, sources),
{
    let c = a + b;
    assert forall|i: int| 0 <= i < c.len() implies (#[trigger] c[i]).source < sources
        && c[i].touch == 1 by {
        if i < a.len() {
            assert(c[i] == a[i]);
        } else {
            assert(c[i] == b[i - a.len()]);
        }
    }
}

proof fn lemma_mark_levels(
    marks: Seq<OpenMark>,
    marked: Seq<Option<i32>>,
    src: Seq<u16>,
    c: Candle,
    now: Civil,
    ts: i64,
    n: nat,
    sources: int,
)
    requires
        n <= src.len(),
        forall|k: int| 0 <= k < src.len() ==> (#[trigger] src[k]) < sources,
    ensures
        plain_levels(mark_levels(marks, marked, src, c, now, ts, n), sources),
        mark_levels(marks, marked, src, c, now, ts, n).len() <= n,
    decreases n,
{
    if n > 0 {
        lemma_mark_levels(marks, marked, src, c, now, ts, (n - 1) as nat, sources);
    }
}

proof fn lemma_session_levels(
    specs: Seq<SessionSpec>,
    runs: Seq<SessionRun>,
    ids: PeriodIds,
    c: Candle,
    hour: i64,
    ts: i64,
    n: nat,
    sources: int,
)
    requires
        ids.session_high < sources,
        ids.session_low < sources,
    ensures
        plain_levels(session_levels(specs, runs, ids, c, hour, ts, n), sources),
        session_levels(specs, runs, ids, c, hour, ts, n).len() <= 2 * n,
    decreases n,
{
    if n > 0 {
        lemma_session_levels(specs, runs, ids, c, hour, ts, (n - 1) as nat, sources);
        let rest = session_levels(specs, runs, ids, c, hour, ts, (n - 1) as nat);
        let more = range_levels(
            runs[n - 1].range,
            ids.session_high,
            ids.session_low,
            c.timeframe,
            ts,
        );
        lemma_plain_append(rest, more, sources);
    }
}

/// A bar's levels are of known sources, have one touch each, and are few.
pub(crate) proof fn lemma_bar_levels(
    s: SessionState,
    cfg: SessionsCfg,
    ids: PeriodIds,
    src: Seq<u16>,
    c: Candle,
    now: Civil,
    ts: i64,
    sources: int,
)
    requires
        src.len() == cfg.open_marks@.len(),
        forall|k: int| 0 <= k < src.len() ==> (#[trigger] src[k]) < sources,
        ids.pdh < sources,
        ids.pdl < sources,
        ids.pwh < sources,
        ids.pwl < sources,
        ids.pmh < sources,
        ids.pml < sources,
        ids.session_high < sources,
        ids.session_low < sources,
    ensures
        plain_levels(levels_of_bar(s, cfg, ids, src, c, now, ts), sources),
        levels_of_bar(s, cfg, ids, src, c, now, ts).len() <= 6 + cfg.open_marks@.len() + 2
            * cfg.sessions@.len(),
{
    let p = s.periods;
    let a = ended_levels(day_ended(p, now), p.day_range, ids.pdh, ids.pdl, ids.tf_1d, ts);
    let b = ended_levels(week_ended(p, now), p.week_range, ids.pwh, ids.pwl, ids.tf_1w, ts);
    let d = ended_levels(month_ended(p, now), p.month_range, ids.pmh, ids.pml, ids.tf_1mo, ts);
    assert(plain_levels(a, sources) && a.len() <= 2);
    assert(plain_levels(b, sources) && b.len() <= 2);
    assert(plain_levels(d, sources) && d.len() <= 2);
    lemma_plain_append(a, b, sources);
    lemma_plain_append(a + b, d, sources);
    lemma_mark_levels(
        cfg.open_marks@,
        s.open_mark_date@,
        src,
        c,
        now,
        ts,
        cfg.open_marks@.len(),
        sources,
    );
    let m = mark_levels(
        cfg.open_marks@,
        s.open_mark_date@,
        src,
        c,
        now,
        ts,
        cfg.open_marks@.len(),
    );
    lemma_plain_append(a + b + d, m, sources);
    lemma_session_levels(
        cfg.sessions@,
        s.runs@,
        ids,
        c,
        now.hour,
        ts,
        cfg.sessions@.len(),
        sources,
    );
    let e = session_levels(cfg.sessions@, s.runs@, ids, c, now.hour, ts, cfg.sessions@.len());
    lemma_plain_append(a + b + d + m, e, sources);
}

/// An opening mark is made at the first bar of the day at or after its time,
/// however late that bar is, and at no other bar of the day.
pub proof fn law_marks_once_a_day(m: OpenMark, marked: Option<i32>, now: Civil, later: Civil)
    requires
        marked != Some(now.day),
        later.day == now.day,
    ensures
        0 <= now.minute < 60 && 0 <= m.minute < 60 ==> (mark_due(m, marked, now) <==> m.hour * 60
            + m.minute <= now.hour * 60 + now.minute),
        mark_due(m, marked, now) ==> !mark_due(m, Some(now.day), later),
        !mark_due(m, marked, now) && mark_reached(m, later) ==> mark_due(m, marked, later),
{
}

/// A session's hours and their complement: with start and end exchanged an
/// hour is in exactly one of the two.
pub proof fn law_hours_wrap(s: SessionSpec, swapped: SessionSpec, hour: i64)
    requires
        s.start_hour != s.end_hour,
        swapped.start_hour == s.end_hour,
        swapped.end_hour == s.start_hour,
    ensures
        in_hours(s, hour) <==> !in_hours(swapped, hour),
{
}

} // verus!
