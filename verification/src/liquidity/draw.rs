//! The ranked map of where price is drawn to.
use vstd::prelude::*;
use crate::key::Num;
use crate::liquidity::cfg::{len_of, to_len, DrawCfg};
use crate::liquidity::gaps::{Fvg, FvgStatus};
use crate::liquidity::levels::{in_band, Band, Level, Status, Sweep};
use crate::liquidity::source::{SourceInfo, Sources};
use crate::models::Direction;
use crate::sort::{order_of, stable_order, stable_order_of, Key};
use crate::tfmap::TfMap;

verus! {

/// A ranked target.
#[derive(Debug, Clone, Copy, PartialEq, Eq, Structural)]
pub struct DrawTarget {
    /// The level's id, -1 for a gap's midpoint.
    pub level_id: i64,
    pub price: Num,
    pub dir: Direction,
    pub distance_atr: Num,
    pub significance: Num,
    pub draw_score: Num,
}

/// The map as of a bar.
#[derive(Debug, Clone)]
pub struct DrawMap {
    pub ts: i64,
    pub price: Num,
    pub atr: Num,
    pub targets: Vec<DrawTarget>,
}

/// A candidate's numbers, as the caller computes them from its price and
/// significance.
#[derive(Debug, Clone, Copy, PartialEq, Eq, Structural)]
pub struct TargetQuote {
    /// It is not at the price itself and not too far from it.
    pub in_range: bool,
    /// The prices within the quantum of its own: levels of one source that
    /// stand there are one candidate.
    pub same: Band,
    /// Distance in ATR.
    pub distance: Num,
    /// Distances that count as the same.
    pub tie: Band,
    /// It is at the incumbent's price.
    pub at_incumbent: bool,
    /// Score, weighted significance and score times the hysteresis factor,
    /// without and with a boost.
    pub plain: TargetScore,
    pub boosted: TargetScore,
}

/// A candidate's score figures.
#[derive(Debug, Clone, Copy, PartialEq, Eq, Structural)]
pub struct TargetScore {
    pub score: Num,
    pub weight: Num,
    /// A challenger must reach this to take the incumbent's place.
    pub held: Num,
}

/// The numbers of all candidates: one per level, one per active gap.
#[derive(Debug, Clone)]
pub struct DrawQuotes {
    pub levels: Vec<TargetQuote>,
    pub gaps: Vec<TargetQuote>,
}

/// A candidate.
#[derive(Debug, Clone, Copy, PartialEq, Eq, Structural)]
pub struct Candidate {
    pub target: DrawTarget,
    pub tie: Band,
    pub at_incumbent: bool,
    pub weight: Num,
    pub held: Num,
}

/// Which directions recent sweeps boost.
#[derive(Debug, Clone, Copy, PartialEq, Eq, Structural)]
pub struct Boosts {
    pub bull: bool,
    pub bear: bool,
}

/// A sweep that boosts its direction: young and large enough.
pub open spec fn boosting(s: Sweep, cfg: DrawCfg, ts: i64, dir: Direction) -> bool {
    s.dir == dir && s.start_ts > ts - cfg.sweep_window_secs && s.magnitude_atr
        >= cfg.boost_min_magnitude
}

/// Some sweep boosts a direction.
pub open spec fn boosted_by(sweeps: Seq<Sweep>, cfg: DrawCfg, ts: i64, dir: Direction) -> bool {
    exists|i: int| 0 <= i < sweeps.len() && boosting(#[trigger] sweeps[i], cfg, ts, dir)
}

/// The directions recent sweeps boost.
pub open spec fn boosts_of(sweeps: Seq<Sweep>, cfg: DrawCfg, ts: i64) -> Boosts {
    Boosts {
        bull: boosted_by(sweeps, cfg, ts, Direction::Bull),
        bear: boosted_by(sweeps, cfg, ts, Direction::Bear),
    }
}

/// The direction a target draws price in.
pub open spec fn draw_dir(target: Num, price: Num) -> Direction {
    if target > price {
        Direction::Bull
    } else {
        Direction::Bear
    }
}

/// A candidate at a price.
pub open spec fn candidate(
    level_id: i64,
    at: Num,
    price: Num,
    significance: Num,
    q: TargetQuote,
    b: Boosts,
) -> Candidate {
    let dir = draw_dir(at, price);
    let s = if (dir == Direction::Bull && b.bull) || (dir == Direction::Bear && b.bear) {
        q.boosted
    } else {
        q.plain
    };
    Candidate {
        target: DrawTarget {
            level_id,
            price: at,
            dir,
            distance_atr: q.distance,
            significance,
            draw_score: s.score,
        },
        tie: q.tie,
        at_incumbent: q.at_incumbent,
        weight: s.weight,
        held: s.held,
    }
}

/// The candidates so far, and the source and price of each.
pub struct Cands {
    pub seen: Seq<(u16, Num)>,
    pub list: Seq<Candidate>,
}

/// A candidate of the source stands within the band.
pub open spec fn taken(seen: Seq<(u16, Num)>, source: u16, band: Band) -> bool {
    exists|i: int|
        0 <= i < seen.len() && (#[trigger] seen[i]).0 == source && in_band(band, seen[i].1)
}

/// Whether a level competes: active, of an eligible source, in range.
pub open spec fn level_competes(infos: Seq<SourceInfo>, l: Level, q: TargetQuote) -> bool {
    l.status == Status::Active && infos[l.source as int].draw_sig is Some && q.in_range
}

/// The candidates among the first `n` levels: of those of one source within
/// the quantum of each other, the first.
pub open spec fn level_cands(
    infos: Seq<SourceInfo>,
    levels: Seq<Level>,
    quotes: Seq<TargetQuote>,
    price: Num,
    b: Boosts,
    n: nat,
) -> Cands
    decreases n,
{
    if n == 0 {
        Cands { seen: Seq::empty(), list: Seq::empty() }
    } else {
        let r = level_cands(infos, levels, quotes, price, b, (n - 1) as nat);
        let (l, q) = (levels[n - 1], quotes[n - 1]);
        if level_competes(infos, l, q) && !taken(r.seen, l.source, q.same) {
            Cands {
                seen: r.seen.push((l.source, l.price)),
                list: r.list.push(
                    candidate(
                        l.id,
                        l.price,
                        price,
                        infos[l.source as int].draw_sig->0,
                        q,
                        b,
                    ),
                ),
            }
        } else {
            r
        }
    }
}

/// Those candidates, then the midpoints of the first `n` active gaps that are
/// unmitigated, of an eligible timeframe and in range.
pub open spec fn gap_cands(
    start: Seq<Candidate>,
    gaps: Seq<Fvg>,
    sigs: Map<u16, Num>,
    quotes: Seq<TargetQuote>,
    price: Num,
    b: Boosts,
    n: nat,
) -> Seq<Candidate>
    decreases n,
{
    if n == 0 {
        start
    } else {
        let r = gap_cands(start, gaps, sigs, quotes, price, b, (n - 1) as nat);
        let (f, q) = (gaps[n - 1], quotes[n - 1]);
        if f.status == FvgStatus::Unmitigated && sigs.contains_key(f.tf) && q.in_range {
            r.push(candidate(-1i64, f.ce, price, sigs[f.tf], q, b))
        } else {
            r
        }
    }
}

/// The place of the nearest candidate of a direction among the first `n` that
/// may take the top slot, the first of equally near ones; none is -1.
pub open spec fn nearest_of(c: Seq<Candidate>, dir: Direction, min_sig: Num, n: nat) -> int
    decreases n,
{
    if n == 0 {
        -1
    } else {
        let best = nearest_of(c, dir, min_sig, (n - 1) as nat);
        let t = c[n - 1].target;
        if t.dir == dir && t.significance >= min_sig && (best < 0 || t.distance_atr
            < c[best].target.distance_atr) {
            n - 1
        } else {
            best
        }
    }
}

/// The place of the candidate that leads: the nearer of the nearest bull and
/// the nearest bear, the heavier one where they tie; none is -1.
pub open spec fn leader(c: Seq<Candidate>, min_sig: Num) -> int {
    let bull = nearest_of(c, Direction::Bull, min_sig, c.len());
    let bear = nearest_of(c, Direction::Bear, min_sig, c.len());
    if bull < 0 {
        bear
    } else if bear < 0 {
        bull
    } else {
        let (x, y) = (c[bull], c[bear]);
        if in_band(x.tie, y.target.distance_atr) {
            if x.weight >= y.weight {
                bull
            } else {
                bear
            }
        } else if x.target.distance_atr < y.target.distance_atr {
            bull
        } else {
            bear
        }
    }
}

/// The keys that order candidates: the higher score first, then the higher
/// significance.
pub open spec fn score_keys(c: Seq<Candidate>) -> Seq<Key> {
    Seq::new(
        c.len(),
        |i: int|
            (
                (-c[i].target.draw_score) as i128,
                (-1 - c[i].target.significance) as i64,
            ),
    )
}

/// The candidates by score.
pub open spec fn by_score(c: Seq<Candidate>) -> Seq<Candidate> {
    let order = order_of(score_keys(c));
    Seq::new(c.len(), |i: int| c[order[i] as int])
}

/// The ranking: the leader, then the others by score.
pub open spec fn ranked(c: Seq<Candidate>, min_sig: Num) -> Seq<Candidate> {
    let t = leader(c, min_sig);
    if t >= 0 {
        by_score(c.remove(t)).insert(0, c[t])
    } else {
        by_score(c)
    }
}

/// The place of the incumbent: the first candidate at its price and in its
/// direction, at or after `from`.
pub open spec fn incumbent_at(c: Seq<Candidate>, dir: Direction, from: int) -> int
    decreases c.len() - from,
{
    if from >= c.len() || (c[from].target.dir == dir && c[from].at_incumbent) {
        from
    } else {
        incumbent_at(c, dir, from + 1)
    }
}

/// The incumbent keeps the top slot unless the challenger reaches its score
/// times the hysteresis factor.
pub open spec fn incumbent_kept(c: Seq<Candidate>, top: Option<Direction>) -> Seq<Candidate> {
    match top {
        None => c,
        Some(dir) => {
            let i = incumbent_at(c, dir, 0);
            if 0 < i < c.len() && c[0].target.draw_score < c[i].held {
                c.remove(i).insert(0, c[i])
            } else {
                c
            }
        },
    }
}

/// At most `n` of the candidates.
pub open spec fn cut(c: Seq<Candidate>, n: int) -> Seq<Candidate> {
    if c.len() <= n {
        c
    } else {
        c.subrange(0, n)
    }
}

/// The first candidate at or after `from` in another direction.
pub open spec fn opposing_at(c: Seq<Candidate>, dir: Direction, from: int) -> int
    decreases c.len() - from,
{
    if from >= c.len() || c[from].target.dir != dir {
        from
    } else {
        opposing_at(c, dir, from + 1)
    }
}

/// With the first `n` targets all one direction, the first opposing one takes
/// slot `n - 1`, and what stood there goes to the end.
pub open spec fn two_sided(c: Seq<Candidate>, n: int, keep: int) -> Seq<Candidate> {
    if c.len() <= n {
        c
    } else {
        let s = opposing_at(c, c[0].target.dir, 1);
        if n <= s < c.len() {
            let rest = c.remove(s).remove(n - 1).insert(n - 1, c[s]);
            cut(rest.push(c[n - 1]), keep)
        } else {
            c
        }
    }
}

/// The one-sidedness depth: at least one.
pub open spec fn depth_of(n: i64) -> int {
    if len_of(n) < 1 {
        1
    } else {
        len_of(n)
    }
}

/// The targets of a map, from its candidates.
pub open spec fn targets_of(c: Seq<Candidate>, cfg: DrawCfg, top: Option<Direction>) -> Seq<
    Candidate,
> {
    let keep = len_of(cfg.keep);
    two_sided(
        cut(incumbent_kept(ranked(c, cfg.top_min_sig), top), keep),
        depth_of(cfg.one_sided_n),
        keep,
    )
}

/// All candidates of a bar.
pub open spec fn all_cands(
    infos: Seq<SourceInfo>,
    levels: Seq<Level>,
    gaps: Seq<Fvg>,
    sigs: Map<u16, Num>,
    q: DrawQuotes,
    price: Num,
    b: Boosts,
) -> Seq<Candidate> {
    gap_cands(
        level_cands(infos, levels, q.levels@, price, b, levels.len()).list,
        gaps,
        sigs,
        q.gaps@,
        price,
        b,
        gaps.len(),
    )
}

/// The targets alone.
pub open spec fn bare(c: Seq<Candidate>) -> Seq<DrawTarget> {
    Seq::new(c.len(), |i: int| c[i].target)
}

// ─── Laws ───────────────────────────────────────────────────────────────────

proof fn lemma_nearest_of(c: Seq<Candidate>, dir: Direction, min_sig: Num, n: nat)
    requires
        n <= c.len(),
    ensures
        -1 <= nearest_of(c, dir, min_sig, n) < n,
        nearest_of(c, dir, min_sig, n) >= 0 ==> c[nearest_of(c, dir, min_sig, n)].target.dir == dir
            && c[nearest_of(c, dir, min_sig, n)].target.significance >= min_sig,
    decreases n,
{
    if n > 0 {
        lemma_nearest_of(c, dir, min_sig, (n - 1) as nat);
    }
}

/// The leader is one of the candidates and significant enough for the top
/// slot.
pub proof fn law_the_leader_is_significant(c: Seq<Candidate>, min_sig: Num)
    ensures
        -1 <= leader(c, min_sig) < c.len(),
        leader(c, min_sig) >= 0 ==> c[leader(c, min_sig)].target.significance >= min_sig,
{
    lemma_nearest_of(c, Direction::Bull, min_sig, c.len());
    lemma_nearest_of(c, Direction::Bear, min_sig, c.len());
}

proof fn lemma_incumbent(c: Seq<Candidate>, dir: Direction, from: int)
    requires
        0 <= from <= c.len(),
    ensures
        from <= incumbent_at(c, dir, from) <= c.len(),
    decreases c.len() - from,
{
    if from < c.len() && !(c[from].target.dir == dir && c[from].at_incumbent) {
        lemma_incumbent(c, dir, from + 1);
    }
}

proof fn lemma_opposing(c: Seq<Candidate>, dir: Direction, from: int)
    requires
        0 <= from <= c.len(),
    ensures
        from <= opposing_at(c, dir, from) <= c.len(),
        opposing_at(c, dir, from) < c.len() ==> c[opposing_at(c, dir, from)].target.dir != dir,
    decreases c.len() - from,
{
    if from < c.len() && c[from].target.dir == dir {
        lemma_opposing(c, dir, from + 1);
    }
}

/// No two candidates of one source stand within the quantum of each other:
/// a level that has a candidate of its source there is none itself.
pub proof fn law_candidates_of_a_source_stand_apart(
    infos: Seq<SourceInfo>,
    levels: Seq<Level>,
    quotes: Seq<TargetQuote>,
    price: Num,
    b: Boosts,
    n: nat,
    k: int,
)
    requires
        n < levels.len(),
        0 <= k < level_cands(infos, levels, quotes, price, b, n).seen.len(),
        level_cands(infos, levels, quotes, price, b, n).seen[k].0 == levels[n as int].source,
        in_band(
            quotes[n as int].same,
            level_cands(infos, levels, quotes, price, b, n).seen[k].1,
        ),
    ensures
        level_cands(infos, levels, quotes, price, b, n + 1) == level_cands(
            infos,
            levels,
            quotes,
            price,
            b,
            n,
        ),
{
}

/// A map never holds more targets than it keeps.
pub proof fn law_the_map_is_bounded(c: Seq<Candidate>, cfg: DrawCfg, top: Option<Direction>)
    ensures
        targets_of(c, cfg, top).len() <= len_of(cfg.keep),
{
    let keep = len_of(cfg.keep);
    let k = cut(incumbent_kept(ranked(c, cfg.top_min_sig), top), keep);
    let n = depth_of(cfg.one_sided_n);
    if k.len() > n {
        lemma_opposing(k, k[0].target.dir, 1);
    }
}

/// A map whose first `n` targets would all draw one way shows an opposing
/// target in slot `n - 1`, where there is one to show.
pub proof fn law_the_map_shows_both_sides(c: Seq<Candidate>, n: int, keep: int)
    requires
        1 <= n < c.len() <= keep,
        opposing_at(c, c[0].target.dir, 1) >= n,
        opposing_at(c, c[0].target.dir, 1) < c.len(),
    ensures
        two_sided(c, n, keep)[n - 1].target.dir != c[0].target.dir,
        two_sided(c, n, keep).len() == c.len(),
{
    lemma_opposing(c, c[0].target.dir, 1);
}

// ─── Building ───────────────────────────────────────────────────────────────

fn make_candidate(
    level_id: i64,
    at: Num,
    price: Num,
    significance: Num,
    q: &TargetQuote,
    b: &Boosts,
) -> (r: Candidate)
    ensures
        r == candidate(level_id, at, price, significance, *q, *b),
{
    let dir = if at > price {
        Direction::Bull
    } else {
        Direction::Bear
    };
    let boosted = match dir {
        Direction::Bull => b.bull,
        Direction::Bear => b.bear,
    };
    let s = if boosted {
        q.boosted
    } else {
        q.plain
    };
    Candidate {
        target: DrawTarget {
            level_id,
            price: at,
            dir,
            distance_atr: q.distance,
            significance,
            draw_score: s.score,
        },
        tie: q.tie,
        at_incumbent: q.at_incumbent,
        weight: s.weight,
        held: s.held,
    }
}

fn find_boosts(sweeps: &Vec<Sweep>, cfg: &DrawCfg, ts: i64) -> (r: Boosts)
    ensures
        r == boosts_of(sweeps@, *cfg, ts),
{
    let cutoff: i128 = ts as i128 - cfg.sweep_window_secs as i128;
    let mut b = Boosts { bull: false, bear: false };
    let mut i: usize = 0;
    while i < sweeps.len()
        invariant
            i <= sweeps@.len(),
            cutoff == ts - cfg.sweep_window_secs,
            b.bull == (exists|k: int|
                0 <= k < i && boosting(#[trigger] sweeps@[k], *cfg, ts, Direction::Bull)),
            b.bear == (exists|k: int|
                0 <= k < i && boosting(#[trigger] sweeps@[k], *cfg, ts, Direction::Bear)),
        decreases sweeps@.len() - i,
    {
        let s = sweeps[i];
        let ghost before = b;
        if s.start_ts as i128 > cutoff && s.magnitude_atr >= cfg.boost_min_magnitude {
            match s.dir {
                Direction::Bull => b.bull = true,
                Direction::Bear => b.bear = true,
            }
        }
        proof {
            assert(boosting(sweeps@[i as int], *cfg, ts, Direction::Bull) ==> b.bull);
            assert(boosting(sweeps@[i as int], *cfg, ts, Direction::Bear) ==> b.bear);
            assert(b.bull && !before.bull ==> boosting(
                sweeps@[i as int],
                *cfg,
                ts,
                Direction::Bull,
            ));
            assert(b.bear && !before.bear ==> boosting(
                sweeps@[i as int],
                *cfg,
                ts,
                Direction::Bear,
            ));
        }
        i = i + 1;
    }
    b
}

fn is_taken(seen: &Vec<(u16, Num)>, source: u16, band: &Band) -> (r: bool)
    ensures
        r == taken(seen@, source, *band),
{
    let mut i: usize = 0;
    while i < seen.len()
        invariant
            i <= seen@.len(),
            forall|j: int|
                0 <= j < i ==> !((#[trigger] seen@[j]).0 == source && in_band(*band, seen@[j].1)),
        decreases seen@.len() - i,
    {
        let e = seen[i];
        if e.0 == source && band.lo <= e.1 && e.1 <= band.hi {
            assert(seen@[i as int].0 == source && in_band(*band, seen@[i as int].1));
            return true;
        }
        i = i + 1;
    }
    false
}

fn collect_levels(
    sources: &Sources,
    levels: &Vec<Level>,
    quotes: &Vec<TargetQuote>,
    price: Num,
    b: &Boosts,
) -> (r: Vec<Candidate>)
    requires
        quotes@.len() == levels@.len(),
        forall|i: int|
            0 <= i < levels@.len() ==> (#[trigger] levels@[i]).source < sources.infos@.len(),
    ensures
        r@ == level_cands(sources.infos@, levels@, quotes@, price, *b, levels@.len()).list,
{
    let mut seen: Vec<(u16, Num)> = Vec::new();
    let mut out: Vec<Candidate> = Vec::new();
    let mut i: usize = 0;
    while i < levels.len()
        invariant
            i <= levels@.len(),
            quotes@.len() == levels@.len(),
            forall|k: int|
                0 <= k < levels@.len() ==> (#[trigger] levels@[k]).source < sources.infos@.len(),
            ({
                let c = level_cands(sources.infos@, levels@, quotes@, price, *b, i as nat);
                &&& seen@ == c.seen
                &&& out@ == c.list
            }),
        decreases levels@.len() - i,
    {
        let l = levels[i];
        assert(levels@[i as int].source < sources.infos@.len());
        if l.status == Status::Active {
            if let Some(sig) = sources.infos[l.source as usize].draw_sig {
                let q = &quotes[i];
                if q.in_range && !is_taken(&seen, l.source, &q.same) {
                    seen.push((l.source, l.price));
                    out.push(make_candidate(l.id, l.price, price, sig, q, b));
                }
            }
        }
        i = i + 1;
    }
    out
}

fn collect_gaps(
    start: Vec<Candidate>,
    gaps: &Vec<Fvg>,
    sigs: &TfMap<Num>,
    quotes: &Vec<TargetQuote>,
    price: Num,
    b: &Boosts,
) -> (r: Vec<Candidate>)
    requires
        quotes@.len() == gaps@.len(),
    ensures
        r@ == gap_cands(start@, gaps@, sigs@, quotes@, price, *b, gaps@.len()),
{
    let ghost s0 = start@;
    let mut out = start;
    let mut i: usize = 0;
    while i < gaps.len()
        invariant
            i <= gaps@.len(),
            quotes@.len() == gaps@.len(),
            out@ == gap_cands(s0, gaps@, sigs@, quotes@, price, *b, i as nat),
        decreases gaps@.len() - i,
    {
        let f = gaps[i];
        if f.status == FvgStatus::Unmitigated {
            if let Some(sig) = sigs.get(f.tf) {
                if quotes[i].in_range {
                    let s: Num = *sig;
                    out.push(make_candidate(-1, f.ce, price, s, &quotes[i], b));
                }
            }
        }
        i = i + 1;
    }
    out
}

fn find_nearest(c: &Vec<Candidate>, dir: Direction, min_sig: Num) -> (r: Option<usize>)
    ensures
        nearest_of(c@, dir, min_sig, c@.len()) == match r {
            Some(i) => i as int,
            None => -1int,
        },
        r matches Some(i) ==> i < c@.len(),
{
    let mut best: Option<usize> = None;
    let mut i: usize = 0;
    while i < c.len()
        invariant
            i <= c@.len(),
            nearest_of(c@, dir, min_sig, i as nat) == match best {
                Some(k) => k as int,
                None => -1int,
            },
            best matches Some(k) ==> k < i,
        decreases c@.len() - i,
    {
        let t = c[i].target;
        if t.dir == dir && t.significance >= min_sig {
            let nearer = match best {
                None => true,
                Some(k) => t.distance_atr < c[k].target.distance_atr,
            };
            if nearer {
                best = Some(i);
            }
        }
        i = i + 1;
    }
    best
}

fn find_leader(c: &Vec<Candidate>, min_sig: Num) -> (r: Option<usize>)
    ensures
        leader(c@, min_sig) == match r {
            Some(i) => i as int,
            None => -1int,
        },
        r matches Some(i) ==> i < c@.len(),
{
    let bull = find_nearest(c, Direction::Bull, min_sig);
    let bear = find_nearest(c, Direction::Bear, min_sig);
    match (bull, bear) {
        (Some(x), Some(y)) => {
            let d: Num = c[y].target.distance_atr;
            if c[x].tie.lo <= d && d <= c[x].tie.hi {
                if c[x].weight >= c[y].weight {
                    Some(x)
                } else {
                    Some(y)
                }
            } else if c[x].target.distance_atr < d {
                Some(x)
            } else {
                Some(y)
            }
        },
        (Some(x), None) => Some(x),
        (None, Some(y)) => Some(y),
        (None, None) => None,
    }
}

fn sort_by_score(c: &Vec<Candidate>) -> (r: Vec<Candidate>)
    ensures
        r@ == by_score(c@),
{
    let mut keys: Vec<Key> = Vec::new();
    let mut i: usize = 0;
    while i < c.len()
        invariant
            i <= c@.len(),
            keys@.len() == i,
            forall|k: int| 0 <= k < i ==> #[trigger] keys@[k] == score_keys(c@)[k],
        decreases c@.len() - i,
    {
        let t = c[i].target;
        keys.push((-(t.draw_score as i128), -1 - t.significance));
        i = i + 1;
    }
    proof {
        assert(keys@ =~= score_keys(c@));
    }
    let order = stable_order(&keys);
    let mut out: Vec<Candidate> = Vec::new();
    let mut j: usize = 0;
    while j < order.len()
        invariant
            j <= order@.len(),
            order@.len() == c@.len(),
            stable_order_of(score_keys(c@), order@),
            score_keys(c@).len() == c@.len(),
            out@.len() == j,
            forall|k: int| 0 <= k < j ==> #[trigger] out@[k] == c@[order@[k] as int],
        decreases order@.len() - j,
    {
        assert(order@[j as int] < c@.len());
        out.push(c[order[j]]);
        j = j + 1;
    }
    proof {
        assert(out@ =~= by_score(c@));
    }
    out
}

fn rank(cands: Vec<Candidate>, min_sig: Num) -> (r: Vec<Candidate>)
    ensures
        r@ == ranked(cands@, min_sig),
{
    match find_leader(&cands, min_sig) {
        Some(t) => {
            let mut rest = cands;
            let first = rest.remove(t);
            let mut out = sort_by_score(&rest);
            out.insert(0, first);
            out
        },
        None => sort_by_score(&cands),
    }
}

fn keep_incumbent(cands: Vec<Candidate>, top: Option<Direction>) -> (r: Vec<Candidate>)
    ensures
        r@ == incumbent_kept(cands@, top),
{
    let mut c = cands;
    if let Some(dir) = top {
        let mut i: usize = 0;
        while i < c.len() && !(c[i].target.dir == dir && c[i].at_incumbent)
            invariant
                i <= c@.len(),
                c@ == cands@,
                incumbent_at(c@, dir, i as int) == incumbent_at(c@, dir, 0),
            decreases c@.len() - i,
        {
            i = i + 1;
        }
        if 0 < i && i < c.len() && c[0].target.draw_score < c[i].held {
            let x = c.remove(i);
            c.insert(0, x);
        }
    }
    c
}

fn show_both_sides(cands: Vec<Candidate>, n: usize, keep: usize) -> (r: Vec<Candidate>)
    requires
        n >= 1,
    ensures
        r@ == two_sided(cands@, n as int, keep as int),
{
    let mut c = cands;
    if c.len() <= n {
        return c;
    }
    let dir = c[0].target.dir;
    let mut s: usize = 1;
    while s < c.len() && c[s].target.dir == dir
        invariant
            1 <= s <= c@.len(),
            c@ == cands@,
            opposing_at(c@, dir, s as int) == opposing_at(c@, dir, 1),
        decreases c@.len() - s,
    {
        s = s + 1;
    }
    if n <= s && s < c.len() {
        let opposing = c.remove(s);
        let replaced = c.remove(n - 1);
        c.insert(n - 1, opposing);
        c.push(replaced);
        c.truncate(keep);
        proof {
            let rest = cands@.remove(s as int).remove(n - 1).insert(n - 1, cands@[s as int]);
            assert(c@ =~= cut(rest.push(cands@[n - 1]), keep as int));
        }
    }
    c
}

/// The map's state: the sweeps that can boost, the map, and the incumbent.
#[derive(Debug, Clone)]
pub struct DrawState {
    pub recent_sweeps: Vec<Sweep>,
    pub map: Option<DrawMap>,
    pub top1: Option<(Num, Direction, Num)>,
}

/// The sweeps that started after an instant.
pub open spec fn sweeps_since(sweeps: Seq<Sweep>, cutoff: int) -> Seq<Sweep>
    decreases sweeps.len(),
{
    if sweeps.len() == 0 {
        Seq::empty()
    } else if sweeps.last().start_ts > cutoff {
        sweeps_since(sweeps.drop_last(), cutoff).push(sweeps.last())
    } else {
        sweeps_since(sweeps.drop_last(), cutoff)
    }
}

/// The direction of the incumbent.
pub open spec fn incumbent_dir(top1: Option<(Num, Direction, Num)>) -> Option<Direction> {
    match top1 {
        Some(t) => Some(t.1),
        None => None,
    }
}

/// The incumbent after a map: its first target, or the one before.
pub open spec fn next_top(before: Option<(Num, Direction, Num)>, targets: Seq<Candidate>) -> Option<
    (Num, Direction, Num),
> {
    if targets.len() > 0 {
        let t = targets[0].target;
        Some((t.price, t.dir, t.draw_score))
    } else {
        before
    }
}

impl DrawState {
    /// No map yet.
    pub fn new() -> (r: Self)
        ensures
            r.recent_sweeps@.len() == 0,
            r.map is None,
            r.top1 is None,
    {
        DrawState { recent_sweeps: Vec::new(), map: None, top1: None }
    }

    /// Remember sweeps.
    pub fn record(&mut self, sweeps: &Vec<Sweep>)
        ensures
            final(self).recent_sweeps@ == old(self).recent_sweeps@ + sweeps@,
            final(self).map == old(self).map,
            final(self).top1 == old(self).top1,
    {
        let ghost r0 = self.recent_sweeps@;
        let mut i: usize = 0;
        proof {
            assert(r0 + sweeps@.subrange(0, 0) =~= r0);
        }
        while i < sweeps.len()
            invariant
                i <= sweeps@.len(),
                self.recent_sweeps@ == r0 + sweeps@.subrange(0, i as int),
                self.map == old(self).map,
                self.top1 == old(self).top1,
            decreases sweeps@.len() - i,
        {
            self.recent_sweeps.push(sweeps[i]);
            i = i + 1;
            proof {
                assert(self.recent_sweeps@ =~= r0 + sweeps@.subrange(0, i as int));
            }
        }
        proof {
            assert(sweeps@.subrange(0, i as int) =~= sweeps@);
        }
    }

    /// Forget the sweeps that are too old to boost.
    pub fn expire(&mut self, ts: i64, window: i64)
        ensures
            final(self).recent_sweeps@ == sweeps_since(old(self).recent_sweeps@, ts - window),
            final(self).map == old(self).map,
            final(self).top1 == old(self).top1,
    {
        let cutoff: i128 = ts as i128 - window as i128;
        let ghost s = self.recent_sweeps@;
        let mut kept: Vec<Sweep> = Vec::new();
        let mut i: usize = 0;
        while i < self.recent_sweeps.len()
            invariant
                s == self.recent_sweeps@,
                i <= s.len(),
                cutoff == ts - window,
                kept@ == sweeps_since(s.subrange(0, i as int), ts - window),
            decreases s.len() - i,
        {
            proof {
                assert(s.subrange(0, i + 1).drop_last() =~= s.subrange(0, i as int));
            }
            if self.recent_sweeps[i].start_ts as i128 > cutoff {
                kept.push(self.recent_sweeps[i]);
            }
            i = i + 1;
        }
        proof {
            assert(s.subrange(0, i as int) =~= s);
        }
        self.recent_sweeps = kept;
    }

    /// Rank the targets as of a bar. Without a positive price and ATR the map
    /// is empty.
    pub fn build_draw(
        &mut self,
        cfg: &DrawCfg,
        sources: &Sources,
        levels: &Vec<Level>,
        gaps: &Vec<Fvg>,
        sigs: &TfMap<Num>,
        q: &DrawQuotes,
        price: Num,
        atr: Num,
        ts: i64,
    )
        requires
            q.levels@.len() == levels@.len(),
            q.gaps@.len() == gaps@.len(),
            forall|i: int|
                0 <= i < levels@.len() ==> (#[trigger] levels@[i]).source < sources.infos@.len(),
        ensures
            final(self).recent_sweeps == old(self).recent_sweeps,
            final(self).map is Some,
            price <= 0 || atr <= 0 ==> final(self).top1 == old(self).top1 && ({
                let m = final(self).map->0;
                m.ts == ts && m.price == 0 && m.atr == 0 && m.targets@.len() == 0
            }),
            price > 0 && atr > 0 ==> ({
                let c = all_cands(
                    sources.infos@,
                    levels@,
                    gaps@,
                    sigs@,
                    *q,
                    price,
                    boosts_of(old(self).recent_sweeps@, *cfg, ts),
                );
                let t = targets_of(c, *cfg, incumbent_dir(old(self).top1));
                let m = final(self).map->0;
                &&& m.ts == ts
                &&& m.price == price
                &&& m.atr == atr
                &&& m.targets@ == bare(t)
                &&& final(self).top1 == next_top(old(self).top1, t)
            }),
    {
        if price <= 0 || atr <= 0 {
            self.map = Some(DrawMap { ts, price: 0, atr: 0, targets: Vec::new() });
            return;
        }
        let b = find_boosts(&self.recent_sweeps, cfg, ts);
        let from_levels = collect_levels(sources, levels, &q.levels, price, &b);
        let cands = collect_gaps(from_levels, gaps, sigs, &q.gaps, price, &b);
        let top = match self.top1 {
            Some(t) => Some(t.1),
            None => None,
        };
        let keep: usize = to_len(cfg.keep);
        let mut n: usize = to_len(cfg.one_sided_n);
        if n < 1 {
            n = 1;
        }
        let mut kept = keep_incumbent(rank(cands, cfg.top_min_sig), top);
        kept.truncate(keep);
        proof {
            assert(kept@ =~= cut(
                incumbent_kept(ranked(cands@, cfg.top_min_sig), top),
                keep as int,
            ));
        }
        let list = show_both_sides(kept, n, keep);
        let mut targets: Vec<DrawTarget> = Vec::new();
        let mut i: usize = 0;
        while i < list.len()
            invariant
                i <= list@.len(),
                targets@.len() == i,
                forall|k: int| 0 <= k < i ==> #[trigger] targets@[k] == list@[k].target,
            decreases list@.len() - i,
        {
            targets.push(list[i].target);
            i = i + 1;
        }
        proof {
            assert(targets@ =~= bare(list@));
        }
        if list.len() > 0 {
            let t = list[0].target;
            self.top1 = Some((t.price, t.dir, t.draw_score));
        }
        self.map = Some(DrawMap { ts, price, atr, targets });
    }

    /// The map's bias: the top target's direction and score, and the score of
    /// the first target that opposes it.
    pub fn draw_bias(&self) -> (r: Option<(Direction, Num, Option<Num>)>)
        ensures
            r == match self.map {
                Some(m) => bias_of(m.targets@),
                None => None,
            },
    {
        match &self.map {
            None => None,
            Some(m) => {
                if m.targets.len() == 0 {
                    return None;
                }
                let top = m.targets[0];
                let mut i: usize = 1;
                while i < m.targets.len() && m.targets[i].dir == top.dir
                    invariant
                        1 <= i <= m.targets@.len(),
                        opposing_target(m.targets@, top.dir, i as int) == opposing_target(
                            m.targets@,
                            top.dir,
                            1,
                        ),
                    decreases m.targets@.len() - i,
                {
                    i = i + 1;
                }
                let opposing = if i < m.targets.len() {
                    Some(m.targets[i].draw_score)
                } else {
                    None
                };
                Some((top.dir, top.draw_score, opposing))
            },
        }
    }
}

/// The first target at or after `from` in another direction.
pub open spec fn opposing_target(t: Seq<DrawTarget>, dir: Direction, from: int) -> int
    decreases t.len() - from,
{
    if from >= t.len() || t[from].dir != dir {
        from
    } else {
        opposing_target(t, dir, from + 1)
    }
}

/// The bias of some targets.
pub open spec fn bias_of(t: Seq<DrawTarget>) -> Option<(Direction, Num, Option<Num>)> {
    if t.len() == 0 {
        None
    } else {
        let i = opposing_target(t, t[0].dir, 1);
        Some(
            (
                t[0].dir,
                t[0].draw_score,
                if i < t.len() {
                    Some(t[i].draw_score)
                } else {
                    None
                },
            ),
        )
    }
}

} // verus!
