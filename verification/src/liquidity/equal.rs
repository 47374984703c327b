//! Equal highs and lows: prices that many bars turned at.
use vstd::prelude::*;
use crate::key::Num;
use crate::liquidity::cfg::{len_of, to_len, EqualLevelsCfg};
use crate::liquidity::levels::{total_touch, Band, NewLevel, Side};
use crate::models::Candle;
use crate::sort::{order_of, stable_order, stable_order_of, Key};

verus! {

/// The last `n` of some prices.
pub open spec fn last_n(s: Seq<Num>, n: int) -> Seq<Num> {
    if s.len() <= n {
        s
    } else {
        s.subrange(s.len() - n, s.len() as int)
    }
}

/// The keys that order prices.
pub open spec fn price_keys(s: Seq<Num>) -> Seq<Key> {
    Seq::new(s.len(), |i: int| (s[i] as i128, 0i64))
}

/// The prices in ascending order.
pub open spec fn sorted(s: Seq<Num>) -> Seq<Num> {
    let order = order_of(price_keys(s));
    Seq::new(s.len(), |i: int| s[order[i] as int])
}

/// The clusters of sorted prices from `start` on, `i` being the next price to
/// look at: a price past the reach of the cluster's first one starts the next
/// cluster, and only clusters of two or more count.
pub open spec fn clusters_from(s: Seq<Num>, reach: Seq<Num>, start: int, i: int) -> Seq<
    (usize, usize),
>
    decreases s.len() - i,
{
    let done = if i - start >= 2 {
        seq![(start as usize, i as usize)]
    } else {
        Seq::empty()
    };
    if i >= s.len() {
        done
    } else if s[i] > reach[start] {
        done + clusters_from(s, reach, i, i + 1)
    } else {
        clusters_from(s, reach, start, i + 1)
    }
}

/// The clusters of sorted prices, as ranges of places.
pub open spec fn clusters(s: Seq<Num>, reach: Seq<Num>) -> Seq<(usize, usize)> {
    if s.len() == 0 {
        Seq::empty()
    } else {
        clusters_from(s, reach, 0, 1)
    }
}

/// The clusters of sorted prices, as ranges of places: `reach[i]` is the
/// highest price within tolerance of the `i`-th one.
pub fn eq_cluster(s: &Vec<Num>, reach: &Vec<Num>) -> (r: Vec<(usize, usize)>)
    requires
        reach@.len() == s@.len(),
    ensures
        r@ == clusters(s@, reach@),
{
    let mut out: Vec<(usize, usize)> = Vec::new();
    if s.len() == 0 {
        return out;
    }
    let mut start: usize = 0;
    let mut i: usize = 1;
    proof {
        assert(out@ + clusters_from(s@, reach@, 0, 1) =~= clusters(s@, reach@));
    }
    while i < s.len()
        invariant
            reach@.len() == s@.len(),
            start < i <= s@.len(),
            out@ + clusters_from(s@, reach@, start as int, i as int) == clusters(s@, reach@),
        decreases s@.len() - i,
    {
        if s[i] > reach[start] {
            let ghost before = out@;
            if i - start >= 2 {
                out.push((start, i));
            }
            proof {
                assert(out@ + clusters_from(s@, reach@, i as int, i + 1) =~= before
                    + clusters_from(s@, reach@, start as int, i as int));
            }
            start = i;
        }
        i = i + 1;
    }
    let ghost before = out@;
    if i - start >= 2 {
        out.push((start, i));
    }
    proof {
        assert(out@ =~= before + clusters_from(s@, reach@, start as int, i as int));
    }
    out
}

/// A cluster range is at least two places, in order, within the list.
pub open spec fn range_ok(r: (usize, usize), from: int, len: int) -> bool {
    from <= r.0 && r.0 + 2 <= r.1 <= len
}

/// The cluster's members after the first are within the first's reach.
pub open spec fn in_reach(s: Seq<Num>, reach: Seq<Num>, r: (usize, usize)) -> bool {
    forall|j: int| r.0 < j < r.1 ==> (#[trigger] s[j]) <= reach[r.0 as int]
}

/// Clusters in order, within the list, apart from each other and in reach.
pub open spec fn clusters_ok(
    s: Seq<Num>,
    reach: Seq<Num>,
    c: Seq<(usize, usize)>,
    from: int,
) -> bool {
    &&& forall|k: int|
        0 <= k < c.len() ==> range_ok(#[trigger] c[k], from, s.len() as int) && in_reach(
            s,
            reach,
            c[k],
        )
    &&& forall|k: int, m: int| 0 <= k < m < c.len() ==> (#[trigger] c[k]).1 <= (#[trigger] c[m]).0
}

proof fn lemma_clusters(s: Seq<Num>, reach: Seq<Num>, start: int, i: int)
    requires
        0 <= start < i <= s.len(),
        s.len() <= usize::MAX,
        in_reach(s, reach, (start as usize, i as usize)),
    ensures
        clusters_ok(s, reach, clusters_from(s, reach, start, i), start),
    decreases s.len() - i,
{
    if i < s.len() {
        if s[i] > reach[start] {
            assert(in_reach(s, reach, (i as usize, (i + 1) as usize)));
            lemma_clusters(s, reach, i, i + 1);
            let done = if i - start >= 2 {
                seq![(start as usize, i as usize)]
            } else {
                Seq::empty()
            };
            let rest = clusters_from(s, reach, i, i + 1);
            let c = done + rest;
            assert forall|k: int| 0 <= k < c.len() implies range_ok(
                #[trigger] c[k],
                start,
                s.len() as int,
            ) && in_reach(s, reach, c[k]) by {
                if k >= done.len() {
                    assert(c[k] == rest[k - done.len()]);
                }
            }
            assert forall|k: int, m: int| 0 <= k < m < c.len() implies (#[trigger] c[k]).1 <= (
            #[trigger] c[m]).0 by {
                assert(c[m] == rest[m - done.len()]);
                assert(range_ok(rest[m - done.len()], i, s.len() as int));
                if k >= done.len() {
                    assert(c[k] == rest[k - done.len()]);
                }
            }
        } else {
            assert(in_reach(s, reach, (start as usize, (i + 1) as usize)));
            lemma_clusters(s, reach, start, i + 1);
        }
    }
}

/// Clusters have two or more members, do not overlap, and every member is
/// within reach of the cluster's first.
pub proof fn law_clusters_are_tight(s: Seq<Num>, reach: Seq<Num>)
    requires
        s.len() <= usize::MAX,
        reach.len() == s.len(),
    ensures
        clusters_ok(s, reach, clusters(s, reach), 0),
{
    if s.len() > 0 {
        lemma_clusters(s, reach, 0, 1);
    }
}

/// A cluster's numbers, as the caller computes them from its prices.
#[derive(Debug, Clone, Copy, PartialEq, Eq, Structural)]
pub struct EqFigures {
    /// The mean of its prices.
    pub price: Num,
    /// It is too near the close.
    pub near: bool,
    /// The tolerance bucket the mean falls in.
    pub bucket: i64,
    /// The prices that merge with it.
    pub band: Band,
}

/// The numbers of the highs, or of the lows.
#[derive(Debug, Clone)]
pub struct EqSide {
    /// The highest price within tolerance of each price, in ascending order.
    pub reach: Vec<Num>,
    /// One entry per cluster.
    pub clusters: Vec<EqFigures>,
}

/// A scan's numbers. Without a positive tolerance nothing clusters.
#[derive(Debug, Clone)]
pub struct EqQuote {
    pub tolerance: Num,
    pub highs: EqSide,
    pub lows: EqSide,
}

/// The clusters of some prices.
pub open spec fn side_ranges(prices: Seq<Num>, tolerance: Num, side: EqSide) -> Seq<(usize, usize)> {
    if tolerance > 0 {
        clusters(sorted(prices), side.reach@)
    } else {
        Seq::empty()
    }
}

/// There is a reach for each price and an entry for each cluster.
pub open spec fn side_fits(prices: Seq<Num>, tolerance: Num, side: EqSide) -> bool {
    tolerance > 0 ==> side.reach@.len() == prices.len() && side.clusters@.len() == side_ranges(
        prices,
        tolerance,
        side,
    ).len()
}

/// A cluster of two or more prices.
#[derive(Debug, Clone, Copy, PartialEq, Eq, Structural)]
pub struct EqCandidate {
    pub is_high: bool,
    /// The cluster's mean price.
    pub price: Num,
    /// How many prices it has.
    pub count: i64,
    /// It is too near the close.
    pub near: bool,
    /// The tolerance bucket the price falls in.
    pub bucket: i64,
    /// The prices that merge with it.
    pub band: Band,
}

/// A cluster with its numbers.
pub open spec fn eq_candidate(range: (usize, usize), f: EqFigures, is_high: bool) -> EqCandidate {
    EqCandidate {
        is_high,
        price: f.price,
        count: (range.1 - range.0) as i64,
        near: f.near,
        bucket: f.bucket,
        band: f.band,
    }
}

/// The clusters of the highs, or of the lows.
pub open spec fn side_cands(
    prices: Seq<Num>,
    tolerance: Num,
    side: EqSide,
    is_high: bool,
) -> Seq<EqCandidate> {
    let ranges = side_ranges(prices, tolerance, side);
    Seq::new(ranges.len(), |k: int| eq_candidate(ranges[k], side.clusters@[k], is_high))
}

/// The clusters of equal highs, then those of equal lows.
pub open spec fn eq_cands(highs: Seq<Num>, lows: Seq<Num>, q: EqQuote) -> Seq<EqCandidate> {
    side_cands(highs, q.tolerance, q.highs, true) + side_cands(lows, q.tolerance, q.lows, false)
}

/// There is a number for everything the scan needs one for.
pub open spec fn equals_fit(highs: Seq<Num>, lows: Seq<Num>, q: EqQuote) -> bool {
    side_fits(highs, q.tolerance, q.highs) && side_fits(lows, q.tolerance, q.lows)
}

/// The counts of the first `n` clusters together.
pub open spec fn counted(cands: Seq<EqCandidate>, n: nat) -> int
    decreases n,
{
    if n == 0 {
        0
    } else {
        counted(cands, (n - 1) as nat) + cands[n - 1].count
    }
}

/// A cluster's count is the number of its prices: at least two, at most as
/// many as there are. The clusters of a side do not share a price: together
/// they count no more than there are.
pub proof fn law_clusters_count_their_prices(
    prices: Seq<Num>,
    tolerance: Num,
    side: EqSide,
    is_high: bool,
)
    requires
        prices.len() <= i64::MAX,
        prices.len() <= usize::MAX,
        side_fits(prices, tolerance, side),
    ensures
        ({
            let c = side_cands(prices, tolerance, side, is_high);
            &&& 2 * c.len() <= prices.len()
            &&& counted(c, c.len()) <= prices.len()
            &&& forall|k: int|
                0 <= k < c.len() ==> 2 <= (#[trigger] c[k]).count <= prices.len() && c[k].is_high
                    == is_high
        }),
{
    let r = side_ranges(prices, tolerance, side);
    if tolerance > 0 {
        law_clusters_are_tight(sorted(prices), side.reach@);
        let c = side_cands(prices, tolerance, side, is_high);
        assert forall|k: int| 0 <= k < c.len() implies 2 <= (#[trigger] c[k]).count
            <= prices.len() && c[k].is_high == is_high by {
            assert(range_ok(r[k], 0, sorted(prices).len() as int));
        }
        lemma_ranges_are_few(r, sorted(prices), side.reach@, r.len());
        lemma_counted(r, sorted(prices), side.reach@, c, r.len());
    }
}

proof fn lemma_ranges_are_few(r: Seq<(usize, usize)>, s: Seq<Num>, reach: Seq<Num>, n: nat)
    requires
        n <= r.len(),
        clusters_ok(s, reach, r, 0),
    ensures
        n > 0 ==> 2 * n <= r[n - 1].1,
        2 * n <= s.len(),
    decreases n,
{
    if n > 0 {
        lemma_ranges_are_few(r, s, reach, (n - 1) as nat);
        assert(range_ok(r[n - 1], 0, s.len() as int));
        if n > 1 {
            assert(r[n - 2].1 <= r[n - 1].0);
        }
    }
}

proof fn lemma_counted(
    r: Seq<(usize, usize)>,
    s: Seq<Num>,
    reach: Seq<Num>,
    c: Seq<EqCandidate>,
    n: nat,
)
    requires
        n <= r.len(),
        clusters_ok(s, reach, r, 0),
        c.len() == r.len(),
        forall|k: int| 0 <= k < c.len() ==> (#[trigger] c[k]).count == r[k].1 - r[k].0,
    ensures
        n > 0 ==> counted(c, n) <= r[n - 1].1,
        counted(c, n) <= s.len(),
    decreases n,
{
    if n > 0 {
        lemma_counted(r, s, reach, c, (n - 1) as nat);
        assert(range_ok(r[n - 1], 0, s.len() as int));
        assert(c[n - 1].count == r[n - 1].1 - r[n - 1].0);
        if n > 1 {
            assert(r[n - 2].1 <= r[n - 1].0);
        }
    }
}

/// The count of two lists of clusters is that of both.
pub(crate) proof fn lemma_counted_joins(a: Seq<EqCandidate>, b: Seq<EqCandidate>, n: nat)
    requires
        n <= b.len(),
    ensures
        counted(a + b, a.len() + n) == counted(a, a.len()) + counted(b, n),
    decreases n,
{
    if n > 0 {
        lemma_counted_joins(a, b, (n - 1) as nat);
        assert((a + b)[a.len() + n - 1] == b[n - 1]);
    } else {
        lemma_counted_prefix(a, b, a.len());
    }
}

proof fn lemma_counted_prefix(a: Seq<EqCandidate>, b: Seq<EqCandidate>, n: nat)
    requires
        n <= a.len(),
    ensures
        counted(a + b, n) == counted(a, n),
    decreases n,
{
    if n > 0 {
        lemma_counted_prefix(a, b, (n - 1) as nat);
        assert((a + b)[n - 1] == a[n - 1]);
    }
}

/// Whether a bucket was emitted before.
pub open spec fn was_emitted(emitted: Seq<(bool, i64)>, q: EqCandidate) -> bool {
    emitted.contains((q.is_high, q.bucket))
}

/// Whether a cluster becomes a level.
pub open spec fn emits(emitted: Seq<(bool, i64)>, cfg: EqualLevelsCfg, q: EqCandidate) -> bool {
    q.count >= cfg.min_count && !q.near && !was_emitted(emitted, q)
}

/// The level of a cluster.
pub open spec fn eq_level(q: EqCandidate, eqh: u16, eql: u16, tf: u16, ts: i64) -> NewLevel {
    NewLevel {
        price: q.price,
        side: if q.is_high {
            Side::Bsl
        } else {
            Side::Ssl
        },
        source: if q.is_high {
            eqh
        } else {
            eql
        },
        tf,
        ts,
        touch: q.count,
    }
}

/// The emission so far.
pub struct EqRun {
    pub emitted: Seq<(bool, i64)>,
    pub out: Seq<(NewLevel, Band)>,
}

/// The first `n` clusters: each bucket is emitted once.
pub open spec fn emitted_after(
    emitted: Seq<(bool, i64)>,
    cfg: EqualLevelsCfg,
    cands: Seq<EqCandidate>,
    eqh: u16,
    eql: u16,
    tf: u16,
    ts: i64,
    n: nat,
) -> EqRun
    decreases n,
{
    if n == 0 {
        EqRun { emitted, out: Seq::empty() }
    } else {
        let r = emitted_after(emitted, cfg, cands, eqh, eql, tf, ts, (n - 1) as nat);
        let q = cands[n - 1];
        if emits(r.emitted, cfg, q) {
            EqRun {
                emitted: r.emitted.push((q.is_high, q.bucket)),
                out: r.out.push((eq_level(q, eqh, eql, tf, ts), q.band)),
            }
        } else {
            r
        }
    }
}

/// The levels emitted, without their bands.
pub open spec fn bandless(list: Seq<(NewLevel, Band)>) -> Seq<NewLevel> {
    Seq::new(list.len(), |i: int| list[i].0)
}

/// The levels emitted are of the two sources, have their clusters' touches,
/// and are no more than the clusters.
pub(crate) proof fn lemma_emitted(
    emitted: Seq<(bool, i64)>,
    cfg: EqualLevelsCfg,
    cands: Seq<EqCandidate>,
    eqh: u16,
    eql: u16,
    tf: u16,
    ts: i64,
    n: nat,
)
    requires
        n <= cands.len(),
        forall|i: int| 0 <= i < cands.len() ==> 0 <= (#[trigger] cands[i]).count,
    ensures
        ({
            let out = emitted_after(emitted, cfg, cands, eqh, eql, tf, ts, n).out;
            &&& out.len() <= n
            &&& total_touch(bandless(out)) <= counted(cands, n)
            &&& forall|i: int|
                0 <= i < out.len() ==> ((#[trigger] out[i]).0.source == eqh || out[i].0.source
                    == eql) && 0 <= out[i].0.touch
        }),
    decreases n,
{
    if n > 0 {
        lemma_emitted(emitted, cfg, cands, eqh, eql, tf, ts, (n - 1) as nat);
        let before = emitted_after(emitted, cfg, cands, eqh, eql, tf, ts, (n - 1) as nat).out;
        let out = emitted_after(emitted, cfg, cands, eqh, eql, tf, ts, n).out;
        assert(0 <= cands[n - 1].count);
        if out != before {
            assert(bandless(out).drop_last() =~= bandless(before));
        }
    }
}

/// The highs and lows kept, and the buckets emitted.
#[derive(Debug, Clone)]
pub struct EqState {
    pub count: i64,
    pub highs: Vec<Num>,
    pub lows: Vec<Num>,
    pub last_close: Num,
    pub emitted: Vec<(bool, i64)>,
}

/// The highs kept once a bar is in.
pub open spec fn highs_after(s: EqState, c: Candle, window: int) -> Seq<Num> {
    last_n(s.highs@.push(c.high), window)
}

/// The lows kept once a bar is in.
pub open spec fn lows_after(s: EqState, c: Candle, window: int) -> Seq<Num> {
    last_n(s.lows@.push(c.low), window)
}

fn keep_last(v: &mut Vec<Num>, n: usize)
    ensures
        final(v)@ == last_n(old(v)@, n as int),
{
    let ghost s = v@;
    while v.len() > n
        invariant
            v@.len() <= s.len(),
            v@ == s.subrange(s.len() - v@.len(), s.len() as int),
            v@.len() >= n || v@ == s,
        decreases v@.len(),
    {
        let ghost before = v@;
        v.remove(0);
        proof {
            assert(v@ =~= s.subrange(s.len() - v@.len(), s.len() as int));
        }
    }
    proof {
        assert(v@ =~= last_n(s, n as int));
    }
}

fn sort_prices(s: &Vec<Num>) -> (r: Vec<Num>)
    ensures
        r@ == sorted(s@),
{
    let mut keys: Vec<Key> = Vec::new();
    let mut i: usize = 0;
    while i < s.len()
        invariant
            i <= s@.len(),
            keys@.len() == i,
            forall|k: int| 0 <= k < i ==> #[trigger] keys@[k] == (s@[k] as i128, 0i64),
        decreases s@.len() - i,
    {
        keys.push((s[i] as i128, 0));
        i = i + 1;
    }
    proof {
        assert(keys@ =~= price_keys(s@));
    }
    let order = stable_order(&keys);
    let mut out: Vec<Num> = Vec::new();
    let mut j: usize = 0;
    while j < order.len()
        invariant
            j <= order@.len(),
            order@.len() == s@.len(),
            stable_order_of(price_keys(s@), order@),
            price_keys(s@).len() == s@.len(),
            out@.len() == j,
            forall|k: int| 0 <= k < j ==> #[trigger] out@[k] == s@[order@[k] as int],
        decreases order@.len() - j,
    {
        assert(order@[j as int] < s@.len());
        out.push(s[order[j]]);
        j = j + 1;
    }
    proof {
        assert(out@ =~= sorted(s@));
    }
    out
}

fn side_clusters(prices: &Vec<Num>, tolerance: Num, side: &EqSide) -> (r: Vec<(usize, usize)>)
    requires
        tolerance > 0 ==> side.reach@.len() == prices@.len(),
    ensures
        r@ == side_ranges(prices@, tolerance, *side),
{
    if tolerance > 0 {
        eq_cluster(&sort_prices(prices), &side.reach)
    } else {
        Vec::new()
    }
}

pub(crate) fn fits_side(prices: &Vec<Num>, tolerance: Num, side: &EqSide) -> (r: bool)
    ensures
        r == side_fits(prices@, tolerance, *side),
{
    tolerance <= 0 || (side.reach.len() == prices.len() && side.clusters.len() == side_clusters(
        prices,
        tolerance,
        side,
    ).len())
}

fn side_list(prices: &Vec<Num>, tolerance: Num, side: &EqSide, is_high: bool) -> (r: Vec<
    EqCandidate,
>)
    requires
        side_fits(prices@, tolerance, *side),
        prices@.len() <= i64::MAX,
    ensures
        r@ == side_cands(prices@, tolerance, *side, is_high),
{
    let ranges = side_clusters(prices, tolerance, side);
    let mut out: Vec<EqCandidate> = Vec::new();
    let len: usize = prices.len();
    proof {
        assert(prices@.len() == len);
        if tolerance > 0 {
            law_clusters_are_tight(sorted(prices@), side.reach@);
        }
    }
    let mut k: usize = 0;
    while k < ranges.len()
        invariant
            k <= ranges@.len(),
            ranges@ == side_ranges(prices@, tolerance, *side),
            side_fits(prices@, tolerance, *side),
            prices@.len() <= i64::MAX,
            forall|j: int|
                0 <= j < ranges@.len() ==> range_ok(
                    #[trigger] ranges@[j],
                    0,
                    prices@.len() as int,
                ),
            out@.len() == k,
            forall|j: int|
                0 <= j < k ==> #[trigger] out@[j] == eq_candidate(
                    ranges@[j],
                    side.clusters@[j],
                    is_high,
                ),
        decreases ranges@.len() - k,
    {
        let (from, to) = ranges[k];
        let f = side.clusters[k];
        assert(range_ok(ranges@[k as int], 0, prices@.len() as int));
        out.push(
            EqCandidate {
                is_high,
                price: f.price,
                count: (to - from) as i64,
                near: f.near,
                bucket: f.bucket,
                band: f.band,
            },
        );
        k = k + 1;
    }
    proof {
        assert(out@ =~= side_cands(prices@, tolerance, *side, is_high));
    }
    out
}

impl EqState {
    /// Nothing seen yet.
    pub fn new() -> (r: Self)
        ensures
            r.count == 0,
            r.highs@.len() == 0,
            r.lows@.len() == 0,
            r.last_close == 0,
            r.emitted@.len() == 0,
    {
        EqState {
            count: 0,
            highs: Vec::new(),
            lows: Vec::new(),
            last_close: 0,
            emitted: Vec::new(),
        }
    }

    /// The highs and the lows that are kept once this bar is in.
    pub fn kept_with(&self, c: &Candle, window: usize) -> (r: (Vec<Num>, Vec<Num>))
        ensures
            r.0@ == highs_after(*self, *c, window as int),
            r.1@ == lows_after(*self, *c, window as int),
    {
        let mut highs = self.highs.clone();
        let mut lows = self.lows.clone();
        proof {
            assert(highs@ =~= self.highs@);
            assert(lows@ =~= self.lows@);
        }
        highs.push(c.high);
        lows.push(c.low);
        keep_last(&mut highs, window);
        keep_last(&mut lows, window);
        (highs, lows)
    }

    /// The highs (or lows) that the next scan will see once this bar is in,
    /// in ascending order.
    pub fn preview(&self, c: &Candle, window: usize, highs: bool) -> (r: Vec<Num>)
        ensures
            r@ == if highs {
                sorted(highs_after(*self, *c, window as int))
            } else {
                sorted(lows_after(*self, *c, window as int))
            },
    {
        let (above, below) = self.kept_with(c, window);
        if highs {
            sort_prices(&above)
        } else {
            sort_prices(&below)
        }
    }

    /// Take in a base bar. Returns whether a scan is due.
    pub fn push_bar(&mut self, cfg: &EqualLevelsCfg, c: &Candle) -> (due: bool)
        requires
            0 <= old(self).count < i64::MAX,
        ensures
            final(self).count == old(self).count + 1,
            final(self).highs@ == highs_after(*old(self), *c, len_of(cfg.window)),
            final(self).lows@ == lows_after(*old(self), *c, len_of(cfg.window)),
            final(self).last_close == c.close,
            final(self).emitted == old(self).emitted,
            due == (cfg.every > 0 && final(self).count as int % cfg.every as int == 0),
    {
        let window: usize = to_len(cfg.window);
        self.highs.push(c.high);
        self.lows.push(c.low);
        self.last_close = c.close;
        keep_last(&mut self.highs, window);
        keep_last(&mut self.lows, window);
        self.count = self.count + 1;
        cfg.every > 0 && (self.count as u64) % (cfg.every as u64) == 0
    }

    /// The clusters of the highs and lows that are kept.
    pub fn candidates(&self, q: &EqQuote) -> (r: Vec<EqCandidate>)
        requires
            equals_fit(self.highs@, self.lows@, *q),
            self.highs@.len() <= i64::MAX,
            self.lows@.len() <= i64::MAX,
        ensures
            r@ == eq_cands(self.highs@, self.lows@, *q),
    {
        let mut out = side_list(&self.highs, q.tolerance, &q.highs, true);
        let mut lows = side_list(&self.lows, q.tolerance, &q.lows, false);
        out.append(&mut lows);
        out
    }

    fn is_emitted(&self, q: &EqCandidate) -> (r: bool)
        ensures
            r == was_emitted(self.emitted@, *q),
    {
        let mut i: usize = 0;
        while i < self.emitted.len()
            invariant
                i <= self.emitted@.len(),
                forall|j: int|
                    0 <= j < i ==> #[trigger] self.emitted@[j] != (q.is_high, q.bucket),
            decreases self.emitted@.len() - i,
        {
            let e = self.emitted[i];
            if e.0 == q.is_high && e.1 == q.bucket {
                assert(self.emitted@[i as int] == (q.is_high, q.bucket));
                return true;
            }
            i = i + 1;
        }
        false
    }

    /// The levels of the clusters that have enough touches, are not too near
    /// and were not emitted before. The memory of what was emitted is cleared
    /// once it is over its cap.
    pub fn emit(
        &mut self,
        cfg: &EqualLevelsCfg,
        cands: &Vec<EqCandidate>,
        eqh: u16,
        eql: u16,
        tf: u16,
        ts: i64,
    ) -> (r: Vec<(NewLevel, Band)>)
        ensures
            final(self).count == old(self).count,
            final(self).highs == old(self).highs,
            final(self).lows == old(self).lows,
            final(self).last_close == old(self).last_close,
            ({
                let e = emitted_after(
                    old(self).emitted@,
                    *cfg,
                    cands@,
                    eqh,
                    eql,
                    tf,
                    ts,
                    cands@.len(),
                );
                &&& r@ == e.out
                &&& final(self).emitted@ == if e.emitted.len() > cfg.emitted_cap {
                    Seq::empty()
                } else {
                    e.emitted
                }
            }),
    {
        let ghost e0 = self.emitted@;
        let mut out: Vec<(NewLevel, Band)> = Vec::new();
        let mut i: usize = 0;
        while i < cands.len()
            invariant
                i <= cands@.len(),
                self.count == old(self).count,
                self.highs == old(self).highs,
                self.lows == old(self).lows,
                self.last_close == old(self).last_close,
                ({
                    let e = emitted_after(e0, *cfg, cands@, eqh, eql, tf, ts, i as nat);
                    &&& out@ == e.out
                    &&& self.emitted@ == e.emitted
                }),
            decreases cands@.len() - i,
        {
            let q = cands[i];
            if q.count >= cfg.min_count && !q.near && !self.is_emitted(&q) {
                let (side, source) = if q.is_high {
                    (Side::Bsl, eqh)
                } else {
                    (Side::Ssl, eql)
                };
                out.push(
                    (NewLevel { price: q.price, side, source, tf, ts, touch: q.count }, q.band),
                );
                self.emitted.push((q.is_high, q.bucket));
            }
            i = i + 1;
        }
        if self.emitted.len() as i128 > cfg.emitted_cap as i128 {
            self.emitted.clear();
        }
        out
    }
}

} // verus!
