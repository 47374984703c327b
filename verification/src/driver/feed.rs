//! The order candles are fed in, and what a run says of itself.
use vstd::prelude::*;
use vstd::string::*;
use crate::clock::Stamp;
use crate::data::series::{by_time, candle_keys, sort_candles};
use crate::models::{Candle, PaperTrade};
use crate::sort::{before, law_a_stable_order_exists, order_of, stable_order_of};
use crate::text::{decimal_text, decimal_u64, join, joined, str_eq, texts_of};

verus! {

/// The candles of the first `n` series, one series after the other.
pub open spec fn concatenated(series: Seq<Vec<Candle>>, n: nat) -> Seq<Candle>
    decreases n,
{
    if n == 0 {
        Seq::empty()
    } else {
        concatenated(series, (n - 1) as nat) + series[n - 1]@
    }
}

/// The feed of several series: by time, and at one time in the order of the
/// series.
pub fn streaming_feed(series: &Vec<Vec<Candle>>) -> (r: Vec<Candle>)
    ensures
        r@ == by_time(concatenated(series@, series@.len())),
{
    let mut all: Vec<Candle> = Vec::new();
    let mut i: usize = 0;
    while i < series.len()
        invariant
            i <= series@.len(),
            all@ == concatenated(series@, i as nat),
        decreases series@.len() - i,
    {
        let s = &series[i];
        let ghost had = all@;
        let mut k: usize = 0;
        while k < s.len()
            invariant
                k <= s@.len(),
                all@ == had + s@.take(k as int),
            decreases s@.len() - k,
        {
            all.push(s[k]);
            k = k + 1;
            proof {
                assert(all@ =~= had + s@.take(k as int));
            }
        }
        proof {
            assert(s@.take(s@.len() as int) =~= s@);
        }
        i = i + 1;
    }
    sort_candles(&all)
}

/// A series is one asset's, in order of time.
pub open spec fn is_series_of(s: Seq<Candle>, asset: u16) -> bool {
    &&& forall|i: int| 0 <= i < s.len() ==> (#[trigger] s[i]).asset == asset
    &&& forall|i: int, j: int|
        0 <= i < j < s.len() ==> (#[trigger] s[i]).timestamp <= (#[trigger] s[j]).timestamp
}

/// Streaming gives each asset what a batch gives it: the candles of an asset,
/// taken out of the feed, are its own series.
pub proof fn law_streaming_feeds_each_asset_its_own_series(
    series: Seq<Vec<Candle>>,
    k: int,
    asset: u16,
)
    requires
        concatenated(series, series.len()).len() <= usize::MAX,
        0 <= k < series.len(),
        is_series_of(series[k]@, asset),
        forall|j: int, i: int|
            0 <= j < series.len() && j != k && 0 <= i < series[j]@.len() ==> (
            #[trigger] series[j]@[i]).asset != asset,
    ensures
        by_time(concatenated(series, series.len())).filter(|c: Candle| c.asset == asset)
            == series[k]@,
{
    let all = concatenated(series, series.len());
    let keys = candle_keys(all);
    law_a_stable_order_exists(keys);
    let order = order_of(keys);
    let lo = concatenated(series, k as nat).len() as int;
    lemma_segments(series, series.len(), k, asset);
    let hi = lo + series[k]@.len();
    let r = by_time(all);
    let p = |c: Candle| c.asset == asset;
    let c = lemma_picked(all, order, lo, hi, asset, order.len());
    assert(r.take(order.len() as int) =~= r);
    assert(c == hi - lo) by {
        if c < hi - lo {
            let x = (lo + c) as usize;
            assert(order.contains(x));
            let q = choose|q: int| 0 <= q < order.len() && order[q] == x;
            assert(order[q] < lo + c);
        }
    }
    assert(all.subrange(lo, hi) =~= series[k]@);
}

/// Where a series stands in the concatenation.
proof fn lemma_segments(series: Seq<Vec<Candle>>, n: nat, k: int, asset: u16)
    requires
        0 <= k < n <= series.len(),
        forall|j: int, i: int|
            0 <= j < series.len() && j != k && 0 <= i < series[j]@.len() ==> (
            #[trigger] series[j]@[i]).asset != asset,
    ensures
        ({
            let all = concatenated(series, n);
            let lo = concatenated(series, k as nat).len() as int;
            let hi = lo + series[k]@.len();
            &&& hi <= all.len()
            &&& all.subrange(lo, hi) == series[k]@
            &&& forall|i: int|
                0 <= i < all.len() && !(lo <= i < hi) ==> (#[trigger] all[i]).asset != asset
        }),
    decreases n,
{
    let all = concatenated(series, n);
    let prev = concatenated(series, (n - 1) as nat);
    let lo = concatenated(series, k as nat).len() as int;
    let hi = lo + series[k]@.len();
    if n - 1 == k {
        lemma_before_segment(series, (n - 1) as nat, k, asset);
        assert(all.subrange(lo, hi) =~= series[k]@);
        assert forall|i: int| 0 <= i < all.len() && !(lo <= i < hi) implies (
        #[trigger] all[i]).asset != asset by {
            assert(all[i] == prev[i]);
        }
    } else {
        lemma_segments(series, (n - 1) as nat, k, asset);
        assert(all.subrange(lo, hi) =~= prev.subrange(lo, hi));
        assert forall|i: int| 0 <= i < all.len() && !(lo <= i < hi) implies (
        #[trigger] all[i]).asset != asset by {
            if i < prev.len() {
                assert(all[i] == prev[i]);
            } else {
                assert(all[i] == series[n - 1]@[i - prev.len()]);
            }
        }
    }
}

proof fn lemma_before_segment(series: Seq<Vec<Candle>>, n: nat, k: int, asset: u16)
    requires
        n <= k < series.len(),
        forall|j: int, i: int|
            0 <= j < series.len() && j != k && 0 <= i < series[j]@.len() ==> (
            #[trigger] series[j]@[i]).asset != asset,
    ensures
        forall|i: int|
            0 <= i < concatenated(series, n).len() ==> (#[trigger] concatenated(series, n)[i]).asset
                != asset,
    decreases n,
{
    if n > 0 {
        lemma_before_segment(series, (n - 1) as nat, k, asset);
        let prev = concatenated(series, (n - 1) as nat);
        let all = concatenated(series, n);
        assert forall|i: int| 0 <= i < all.len() implies (#[trigger] all[i]).asset != asset by {
            if i < prev.len() {
                assert(all[i] == prev[i]);
            } else {
                assert(all[i] == series[n - 1]@[i - prev.len()]);
            }
        }
    }
}

/// What the first `m` of the feed hold of one segment: its first candles, in
/// order.
proof fn lemma_picked(
    all: Seq<Candle>,
    order: Seq<usize>,
    lo: int,
    hi: int,
    asset: u16,
    m: nat,
) -> (c: int)
    requires
        stable_order_of(candle_keys(all), order),
        order == order_of(candle_keys(all)),
        0 <= lo <= hi <= all.len(),
        all.len() <= usize::MAX,
        is_series_of(all.subrange(lo, hi), asset),
        forall|i: int| 0 <= i < all.len() && !(lo <= i < hi) ==> (#[trigger] all[i]).asset != asset,
        m <= order.len(),
    ensures
        0 <= c <= hi - lo,
        by_time(all).take(m as int).filter(|x: Candle| x.asset == asset) == all.subrange(
            lo,
            lo + c,
        ),
        forall|i: int| 0 <= i < m && lo <= #[trigger] order[i] < hi ==> order[i] < lo + c,
        forall|x: int|
            lo <= x < lo + c ==> order.take(m as int).contains(#[trigger] (x as usize)),
    decreases m,
{
    let r = by_time(all);
    let p = |x: Candle| x.asset == asset;
    reveal(Seq::filter);
    if m == 0 {
        assert(r.take(0) =~= Seq::empty());
        assert(r.take(0).filter(p) =~= Seq::empty());
        assert(all.subrange(lo, lo) =~= Seq::empty());
        0
    } else {
        let c = lemma_picked(all, order, lo, hi, asset, (m - 1) as nat);
        let keys = candle_keys(all);
        let x = order[m - 1] as int;
        assert(r.take(m as int).drop_last() =~= r.take(m - 1));
        assert(r.take(m as int).last() == all[x]);
        let had = order.take(m - 1);
        let now = order.take(m as int);
        assert forall|y: usize| had.contains(y) implies #[trigger] now.contains(y) by {
            let q = choose|q: int| 0 <= q < had.len() && had[q] == y;
            assert(now[q] == y);
        }
        if lo <= x < hi {
            let seg = all.subrange(lo, hi);
            assert(seg[x - lo] == all[x]);
            if x < lo + c {
                assert(had.contains(x as usize));
                let q = choose|q: int| 0 <= q < had.len() && had[q] == x as usize;
                assert(before(keys, order[q] as int, order[m - 1] as int));
            }
            if x > lo + c {
                let y = lo + c;
                assert(seg[y - lo].timestamp <= seg[x - lo].timestamp);
                assert(order.contains(y as usize));
                let q = choose|q: int| 0 <= q < order.len() && order[q] == y as usize;
                if q > m - 1 {
                    assert(before(keys, order[m - 1] as int, order[q] as int));
                } else {
                    assert(order[q] < lo + c);
                }
            }
            assert(x == lo + c);
            assert(now[m - 1] == x as usize);
            assert(all.subrange(lo, lo + c).push(all[x]) =~= all.subrange(lo, lo + c + 1));
            c + 1
        } else {
            c
        }
    }
}

// ─── What a run reports ─────────────────────────────────────────────────────

/// A trade is reported: it was signalled in the window.
pub open spec fn in_report(t: PaperTrade, window_start: Option<Stamp>) -> bool {
    window_start matches Some(s) ==> s <= t.opened_at
}

/// The trades that are reported: what was signalled while warming up is not.
pub fn reported(trades: &Vec<PaperTrade>, window_start: Option<Stamp>) -> (r: Vec<PaperTrade>)
    ensures
        r@ == trades@.filter(|t: PaperTrade| in_report(t, window_start)),
{
    let ghost p = |t: PaperTrade| in_report(t, window_start);
    let mut out: Vec<PaperTrade> = Vec::new();
    let mut i: usize = 0;
    proof {
        reveal(Seq::filter);
        assert(trades@.take(0) =~= Seq::empty());
        assert(trades@.take(0).filter(p) =~= Seq::empty());
    }
    while i < trades.len()
        invariant
            i <= trades@.len(),
            p == (|t: PaperTrade| in_report(t, window_start)),
            out@ == trades@.take(i as int).filter(p),
        decreases trades@.len() - i,
    {
        proof {
            reveal(Seq::filter);
            assert(trades@.take(i + 1).drop_last() =~= trades@.take(i as int));
            assert(trades@.take(i + 1).last() == trades@[i as int]);
        }
        let keep = match window_start {
            Some(s) => s <= trades[i].opened_at,
            None => true,
        };
        if keep {
            out.push(trades[i].dup());
        }
        i = i + 1;
    }
    proof {
        assert(trades@.take(trades@.len() as int) =~= trades@);
    }
    out
}

// ─── What a run says ────────────────────────────────────────────────────────

/// Why a run cannot start: ticks cannot resolve fills on another venue, which
/// is replayed from bars.
pub fn feed_conflict(split_feed: bool, tick_mode: bool) -> (r: Option<&'static str>)
    ensures
        r is Some <==> split_feed && tick_mode,
        r matches Some(s) ==> s@
            == "tick fill mode cannot be combined with a split feed — the execution venue is replayed from 1m bars, so there are no execution-side ticks to resolve fills against."@,
{
    if split_feed && tick_mode {
        Some(
            "tick fill mode cannot be combined with a split feed — the execution venue is replayed from 1m bars, so there are no execution-side ticks to resolve fills against.",
        )
    } else {
        None
    }
}

/// What an asset's execution feed comes to in a split-feed run.
#[derive(Debug, Clone, Copy, PartialEq, Eq, Structural)]
pub enum ExecFeed {
    /// The asset executes on the feed its decisions are made on.
    Shared,
    /// It has execution sources and nothing in them: the run is refused, since
    /// two price worlds in one book would leave no sign in the output.
    Missing,
    Loaded,
}

/// An asset's execution feed.
pub open spec fn exec_feed_of(split_feed: bool, sources: int, candles: int) -> ExecFeed {
    if !split_feed || sources == 0 {
        ExecFeed::Shared
    } else if candles == 0 {
        ExecFeed::Missing
    } else {
        ExecFeed::Loaded
    }
}

/// What an asset's execution feed comes to, given its sources and candles.
pub fn exec_feed(split_feed: bool, sources: usize, candles: usize) -> (r: ExecFeed)
    ensures
        r == exec_feed_of(split_feed, sources as int, candles as int),
{
    if !split_feed || sources == 0 {
        ExecFeed::Shared
    } else if candles == 0 {
        ExecFeed::Missing
    } else {
        ExecFeed::Loaded
    }
}

/// What an asset's data comes to.
#[derive(Debug, Clone, Copy, PartialEq, Eq, Structural)]
pub enum AssetFeed {
    /// No candles in range: the asset is left out.
    Skipped,
    /// Bars resolve fills.
    Bars,
    /// Ticks were asked for and there are none: bars resolve fills.
    NoTicks,
    /// Ticks resolve fills.
    Ticks,
}

/// An asset's data.
pub open spec fn asset_feed_of(candles: int, tick_mode: bool, ticks: int) -> AssetFeed {
    if candles == 0 {
        AssetFeed::Skipped
    } else if !tick_mode {
        AssetFeed::Bars
    } else if ticks == 0 {
        AssetFeed::NoTicks
    } else {
        AssetFeed::Ticks
    }
}

/// What an asset's data comes to, given how much was loaded.
pub fn asset_feed(candles: usize, tick_mode: bool, ticks: usize) -> (r: AssetFeed)
    ensures
        r == asset_feed_of(candles as int, tick_mode, ticks as int),
{
    if candles == 0 {
        AssetFeed::Skipped
    } else if !tick_mode {
        AssetFeed::Bars
    } else if ticks == 0 {
        AssetFeed::NoTicks
    } else {
        AssetFeed::Ticks
    }
}

/// What is done with a run's report.
#[derive(Debug, Clone, Copy, PartialEq, Eq, Structural)]
pub struct ReportPlan {
    /// The JSON report is made.
    pub json: bool,
    /// It is written beside the run.
    pub sidecar: bool,
    /// It is printed, in place of the tables.
    pub print_json: bool,
}

/// What is done with a run's report, given the format asked for.
pub fn report_plan(output: &str, has_sidecar: bool) -> (r: ReportPlan)
    ensures
        r.print_json == (output@ == "json"@),
        r.sidecar == has_sidecar,
        r.json == (r.print_json || r.sidecar),
{
    let print_json = str_eq(output, "json");
    ReportPlan { json: print_json || has_sidecar, sidecar: has_sidecar, print_json }
}

/// The label of a run's report.
pub open spec fn label_text(factory: Seq<char>, assets: Seq<Seq<char>>, candles: int) -> Seq<char> {
    factory + " | "@ + joined(assets, ", "@) + " | "@ + decimal_text(candles) + " candles"@
}

/// The label of a run's report.
pub fn run_label(factory: &str, assets: &Vec<String>, candles: u64) -> (r: String)
    ensures
        r@ == label_text(factory@, texts_of(assets@), candles as int),
{
    let mut s = factory.to_owned();
    s.append(" | ");
    s.append(join(assets, ", ").as_str());
    s.append(" | ");
    s.append(decimal_u64(candles).as_str());
    s.append(" candles");
    s
}

} // verus!
