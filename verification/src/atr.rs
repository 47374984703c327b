//! Which bars an average true range is taken over.
use vstd::prelude::*;
use crate::models::Candle;

verus! {

/// A bar and the bar before it, by place: the two closes and the range that
/// one true range is made of.
#[derive(Debug, Clone, Copy, PartialEq, Eq, Structural)]
pub struct Span {
    pub bar: usize,
    pub prev: usize,
}

/// How many true ranges are averaged: at most the period, and one fewer than
/// there are bars.
pub open spec fn span_count(len: nat, period: nat) -> nat {
    if len == 0 {
        0
    } else if period < len - 1 {
        period
    } else {
        (len - 1) as nat
    }
}

/// The spans of the last `period` bars.
pub open spec fn last_spans(len: nat, period: nat) -> Seq<Span> {
    let n = span_count(len, period);
    Seq::new(
        n,
        |k: int| Span { bar: (len - n + k) as usize, prev: (len - n + k - 1) as usize },
    )
}

/// The places among the first `n` whose bar has a range.
pub open spec fn ranged(candles: Seq<Candle>, n: nat) -> Seq<usize>
    decreases n,
{
    if n == 0 {
        Seq::empty()
    } else {
        let rest = ranged(candles, (n - 1) as nat);
        if candles[n - 1].high > candles[n - 1].low {
            rest.push((n - 1) as usize)
        } else {
            rest
        }
    }
}

/// The spans of the last `period` bars with a range, each against the ranged
/// bar before it.
pub open spec fn ranged_spans(candles: Seq<Candle>, period: nat) -> Seq<Span> {
    let kept = ranged(candles, candles.len());
    last_spans(kept.len(), period).map_values(
        |s: Span| Span { bar: kept[s.bar as int], prev: kept[s.prev as int] },
    )
}

/// The spans an average true range over `period` is taken over.
pub open spec fn spans_of(candles: Seq<Candle>, period: nat, skip_zero_range: bool) -> Seq<Span> {
    if skip_zero_range {
        ranged_spans(candles, period)
    } else {
        last_spans(candles.len(), period)
    }
}

/// The spans of the last `period` bars. None: the average is zero.
pub fn plain_spans(len: usize, period: usize) -> (r: Vec<Span>)
    ensures
        r@ == last_spans(len as nat, period as nat),
{
    let mut out: Vec<Span> = Vec::new();
    if len == 0 {
        proof {
            assert(out@ =~= last_spans(len as nat, period as nat));
        }
        return out;
    }
    let n: usize = if period < len - 1 {
        period
    } else {
        len - 1
    };
    let mut k: usize = 0;
    while k < n
        invariant
            k <= n,
            n <= len - 1,
            n == span_count(len as nat, period as nat),
            out@ == last_spans(len as nat, period as nat).take(k as int),
        decreases n - k,
    {
        out.push(Span { bar: len - n + k, prev: len - n + k - 1 });
        k = k + 1;
        proof {
            assert(out@ =~= last_spans(len as nat, period as nat).take(k as int));
        }
    }
    proof {
        assert(out@ =~= last_spans(len as nat, period as nat));
    }
    out
}

fn ranged_places(candles: &Vec<Candle>) -> (r: Vec<usize>)
    ensures
        r@ == ranged(candles@, candles@.len()),
{
    let mut out: Vec<usize> = Vec::new();
    let mut i: usize = 0;
    while i < candles.len()
        invariant
            i <= candles@.len(),
            out@ == ranged(candles@, i as nat),
        decreases candles@.len() - i,
    {
        if candles[i].high > candles[i].low {
            out.push(i);
        }
        i = i + 1;
    }
    out
}

/// The spans an average true range over `period` is taken over, bars without
/// a range left out where asked. None: the average is zero.
pub fn atr_spans(candles: &Vec<Candle>, period: usize, skip_zero_range: bool) -> (r: Vec<Span>)
    ensures
        r@ == spans_of(candles@, period as nat, skip_zero_range),
{
    if !skip_zero_range {
        return plain_spans(candles.len(), period);
    }
    let kept = ranged_places(candles);
    let spans = plain_spans(kept.len(), period);
    let mut out: Vec<Span> = Vec::new();
    let ghost goal = ranged_spans(candles@, period as nat);
    let mut k: usize = 0;
    while k < spans.len()
        invariant
            k <= spans@.len(),
            spans@ == last_spans(kept@.len(), period as nat),
            kept@ == ranged(candles@, candles@.len()),
            goal == ranged_spans(candles@, period as nat),
            out@ == goal.take(k as int),
        decreases spans@.len() - k,
    {
        let s = spans[k];
        assert(s == last_spans(kept@.len(), period as nat)[k as int]);
        out.push(Span { bar: kept[s.bar], prev: kept[s.prev] });
        k = k + 1;
        proof {
            assert(out@ =~= goal.take(k as int));
        }
    }
    proof {
        assert(out@ =~= goal);
    }
    out
}

/// Where every bar has a range, the filter changes nothing.
pub proof fn law_the_filter_is_idle_on_ranged_bars(candles: Seq<Candle>, period: nat)
    requires
        candles.len() <= usize::MAX,
        forall|i: int| 0 <= i < candles.len() ==> (#[trigger] candles[i]).high > candles[i].low,
    ensures
        spans_of(candles, period, true) == spans_of(candles, period, false),
{
    lemma_all_ranged(candles, candles.len());
    assert(spans_of(candles, period, true) =~= spans_of(candles, period, false));
}

proof fn lemma_all_ranged(candles: Seq<Candle>, n: nat)
    requires
        n <= candles.len() <= usize::MAX,
        forall|i: int| 0 <= i < candles.len() ==> (#[trigger] candles[i]).high > candles[i].low,
    ensures
        ranged(candles, n).len() == n,
        forall|i: int| 0 <= i < n ==> #[trigger] ranged(candles, n)[i] == i,
    decreases n,
{
    if n > 0 {
        lemma_all_ranged(candles, (n - 1) as nat);
        assert(candles[n - 1].high > candles[n - 1].low);
    }
}

/// Every span is of bars of the series, the earlier one first; under the
/// filter both have a range.
pub proof fn law_spans_lie_in_the_series(
    candles: Seq<Candle>,
    period: nat,
    skip_zero_range: bool,
    k: int,
)
    requires
        candles.len() <= usize::MAX,
        0 <= k < spans_of(candles, period, skip_zero_range).len(),
    ensures
        ({
            let s = spans_of(candles, period, skip_zero_range)[k];
            &&& s.prev < s.bar < candles.len()
            &&& skip_zero_range ==> candles[s.bar as int].high > candles[s.bar as int].low
                && candles[s.prev as int].high > candles[s.prev as int].low
        }),
{
    if skip_zero_range {
        lemma_ranged(candles, candles.len());
        let kept = ranged(candles, candles.len());
        let s = last_spans(kept.len(), period)[k];
        assert(s.prev < s.bar < kept.len());
        assert(kept[s.prev as int] < kept[s.bar as int]);
    }
}

proof fn lemma_ranged(candles: Seq<Candle>, n: nat)
    requires
        n <= candles.len() <= usize::MAX,
    ensures
        ranged(candles, n).len() <= n,
        forall|i: int|
            0 <= i < ranged(candles, n).len() ==> (#[trigger] ranged(candles, n)[i]) < n
                && candles[ranged(candles, n)[i] as int].high > candles[ranged(candles, n)[i] as int].low,
        forall|i: int, j: int|
            0 <= i < j < ranged(candles, n).len() ==> #[trigger] ranged(candles, n)[i]
                < #[trigger] ranged(candles, n)[j],
    decreases n,
{
    if n > 0 {
        lemma_ranged(candles, (n - 1) as nat);
    }
}

/// A plain average measures each of the last bars against the bar directly
/// before it: as many as the period asks for, but one fewer than there are
/// bars; in order, up to the last bar.
pub proof fn law_each_bar_is_measured_against_the_one_before(
    candles: Seq<Candle>,
    period: nat,
    k: int,
)
    requires
        candles.len() <= usize::MAX,
    ensures
        ({
            let s = spans_of(candles, period, false);
            let n = candles.len();
            &&& s.len() <= period
            &&& n > 0 ==> s.len() < n && (s.len() == period || s.len() == n - 1)
            &&& n == 0 ==> s.len() == 0
            &&& 0 <= k < s.len() ==> s[k].prev + 1 == s[k].bar && s[k].bar + s.len() == n + k
        }),
{
}

/// Under the filter every span is of two bars with a range and none with a
/// range between them; the spans' bars are the last ones with a range, each
/// span starting where the one before it ended.
pub proof fn law_ranged_bars_are_measured_against_the_ranged_bar_before(
    candles: Seq<Candle>,
    period: nat,
    k: int,
)
    requires
        candles.len() <= usize::MAX,
        0 <= k < spans_of(candles, period, true).len(),
    ensures
        ({
            let s = spans_of(candles, period, true);
            let (prev, bar) = (s[k].prev as int, s[k].bar as int);
            &&& s.len() <= period
            &&& 0 <= prev < bar < candles.len()
            &&& candles[prev].high > candles[prev].low && candles[bar].high > candles[bar].low
            &&& forall|i: int|
                prev < i < bar ==> !((#[trigger] candles[i]).high > candles[i].low)
            &&& k + 1 < s.len() ==> s[k + 1].prev == s[k].bar
            &&& k + 1 == s.len() ==> forall|i: int|
                bar < i < candles.len() ==> !((#[trigger] candles[i]).high > candles[i].low)
            &&& k == 0 && s.len() < period ==> forall|i: int|
                0 <= i < prev ==> !((#[trigger] candles[i]).high > candles[i].low)
        }),
{
    let kept = ranged(candles, candles.len());
    lemma_ranged(candles, candles.len());
    let s = last_spans(kept.len(), period)[k];
    assert(s.prev + 1 == s.bar && s.bar < kept.len());
    let (prev, bar) = (kept[s.prev as int] as int, kept[s.bar as int] as int);
    assert forall|i: int| prev < i < bar implies !((#[trigger] candles[i]).high
        > candles[i].low) by {
        if candles[i].high > candles[i].low {
            let j = lemma_ranged_has(candles, candles.len(), i);
            assert(kept[j] == i);
            if j <= s.prev {
                assert(kept[j] <= kept[s.prev as int]);
            } else {
                assert(kept[s.bar as int] <= kept[j]);
            }
        }
    }
    assert forall|i: int|
        k + 1 == spans_of(candles, period, true).len() && bar < i < candles.len() implies !((
    #[trigger] candles[i]).high > candles[i].low) by {
        if candles[i].high > candles[i].low {
            let j = lemma_ranged_has(candles, candles.len(), i);
            assert(s.bar == kept.len() - 1);
            assert(kept[j] <= kept[s.bar as int]);
        }
    }
    assert forall|i: int|
        k == 0 && spans_of(candles, period, true).len() < period && 0 <= i < prev implies !((
    #[trigger] candles[i]).high > candles[i].low) by {
        if candles[i].high > candles[i].low {
            let j = lemma_ranged_has(candles, candles.len(), i);
            assert(s.prev == 0);
            assert(kept[0] <= kept[j]);
        }
    }
}

/// Every bar with a range is found.
proof fn lemma_ranged_has(candles: Seq<Candle>, n: nat, i: int) -> (j: int)
    requires
        0 <= i < n <= candles.len() <= usize::MAX,
        candles[i].high > candles[i].low,
    ensures
        0 <= j < ranged(candles, n).len(),
        ranged(candles, n)[j] == i,
    decreases n,
{
    if i == n - 1 {
        ranged(candles, n).len() - 1
    } else {
        lemma_ranged_has(candles, (n - 1) as nat, i)
    }
}

} // verus!
