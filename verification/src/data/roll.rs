//! Contract rolls in a continuous series: where the lead contract switched,
//! and which bars the gap is taken out of.
use vstd::prelude::*;
use crate::clock::{day_number, second_of, unix_second, DAY_SECS};
use crate::key::Num;
use crate::models::Candle;
use crate::sort::{
    before, law_a_stable_order_exists, order_of, places, stable_order, stable_order_of, Key,
};

verus! {

/// Series shorter than this have no stable jump distribution.
pub const MIN_BARS: usize = 500;

/// Fewer ordinary jumps than this have none either.
pub const MIN_JUMPS: usize = 100;

/// The key of the infinite jump.
pub const INFINITE: Num = 0x7ff0_0000_0000_0000;

/// The day a second falls on.
pub open spec fn day_of(secs: int) -> int {
    secs / (DAY_SECS as int)
}

/// A bar follows the one before it without a pause.
pub open spec fn contiguous(candles: Seq<Candle>, i: int, max_gap_secs: int) -> bool {
    unix_second(candles[i].timestamp as int) - unix_second(candles[i - 1].timestamp as int)
        <= max_gap_secs
}

/// Midnight (UTC) lies between a bar and the one before it.
pub open spec fn over_midnight(candles: Seq<Candle>, i: int) -> bool {
    day_of(unix_second(candles[i].timestamp as int)) != day_of(
        unix_second(candles[i - 1].timestamp as int),
    )
}

/// The jumps into the first `n` bars that follow without a pause within a day.
pub open spec fn ordinary_jumps(
    candles: Seq<Candle>,
    jumps: Seq<Num>,
    max_gap_secs: int,
    n: nat,
) -> Seq<Num>
    decreases n,
{
    if n <= 1 {
        Seq::empty()
    } else {
        let rest = ordinary_jumps(candles, jumps, max_gap_secs, (n - 1) as nat);
        if contiguous(candles, n - 1, max_gap_secs) && !over_midnight(candles, n - 1) {
            rest.push(jumps[n - 1])
        } else {
            rest
        }
    }
}

/// The sort keys of jumps.
pub open spec fn jump_keys(list: Seq<Num>) -> Seq<Key> {
    Seq::new(list.len(), |i: int| (list[i] as i128, 0i64))
}

/// The place of the 99.9th percentile among `n` jumps in order.
pub open spec fn rank(n: int) -> int {
    n * 999 / 1000
}

/// The 99.9th percentile of the ordinary jumps, where there are enough bars
/// and jumps to have one.
pub open spec fn usual_jump_of(
    candles: Seq<Candle>,
    jumps: Seq<Num>,
    max_gap_secs: int,
) -> Option<Num> {
    let o = ordinary_jumps(candles, jumps, max_gap_secs, candles.len());
    if candles.len() < MIN_BARS || o.len() < MIN_JUMPS {
        None
    } else {
        Some(o[order_of(jump_keys(o))[rank(o.len() as int)] as int])
    }
}

fn follows(candles: &Vec<Candle>, i: usize, max_gap_secs: i64) -> (r: (bool, bool))
    requires
        0 < i < candles@.len(),
    ensures
        r.0 == contiguous(candles@, i as int, max_gap_secs as int),
        r.1 == over_midnight(candles@, i as int),
{
    let a: i128 = second_of(candles[i - 1].timestamp);
    let b: i128 = second_of(candles[i].timestamp);
    (b - a <= max_gap_secs as i128, day_number(b) != day_number(a))
}

/// The 99.9th percentile of the jumps between bars that follow without a pause
/// within a day. `jumps[i]` is the distance from the close before bar `i` to
/// its open. None: too little to go by, and nothing is a roll.
pub fn usual_jump(candles: &Vec<Candle>, jumps: &Vec<Num>, max_gap_secs: i64) -> (r: Option<Num>)
    requires
        jumps@.len() == candles@.len(),
    ensures
        r == usual_jump_of(candles@, jumps@, max_gap_secs as int),
{
    if candles.len() < MIN_BARS {
        return None;
    }
    let mut list: Vec<Num> = Vec::new();
    let mut keys: Vec<Key> = Vec::new();
    let mut i: usize = 1;
    while i < candles.len()
        invariant
            1 <= i <= candles@.len(),
            jumps@.len() == candles@.len(),
            list@ == ordinary_jumps(candles@, jumps@, max_gap_secs as int, i as nat),
            keys@ == jump_keys(list@),
        decreases candles@.len() - i,
    {
        let (near, midnight) = follows(candles, i, max_gap_secs);
        if near && !midnight {
            list.push(jumps[i]);
            keys.push((jumps[i] as i128, 0));
            proof {
                assert(keys@ =~= jump_keys(list@));
            }
        }
        i = i + 1;
    }
    if list.len() < MIN_JUMPS {
        return None;
    }
    let order = stable_order(&keys);
    let n: usize = list.len();
    let whole: usize = n / 1000;
    let short: usize = if n % 1000 == 0 {
        whole
    } else {
        whole + 1
    };
    let at: usize = n - short;
    proof {
        assert(at == rank(n as int));
        assert(0 <= at < n);
        assert(places(order@, 0, n as int));
    }
    Some(list[order[at]])
}

/// The threshold is one that a jump can exceed.
pub open spec fn usable(threshold: Option<Num>) -> bool {
    threshold matches Some(t) && 0 < t < INFINITE
}

/// A bar is the first after a roll: it follows without a pause, over midnight,
/// by a jump beyond the threshold.
pub open spec fn is_splice(
    candles: Seq<Candle>,
    jumps: Seq<Num>,
    max_gap_secs: int,
    threshold: Num,
    i: int,
) -> bool {
    contiguous(candles, i, max_gap_secs) && over_midnight(candles, i) && jumps[i] > threshold
}

/// The bars among the first `n` that are first after a roll.
pub open spec fn splices_of(
    candles: Seq<Candle>,
    jumps: Seq<Num>,
    max_gap_secs: int,
    threshold: Num,
    n: nat,
) -> Seq<usize>
    decreases n,
{
    if n <= 1 {
        Seq::empty()
    } else {
        let rest = splices_of(candles, jumps, max_gap_secs, threshold, (n - 1) as nat);
        if is_splice(candles, jumps, max_gap_secs, threshold, n - 1) {
            rest.push((n - 1) as usize)
        } else {
            rest
        }
    }
}

/// The rolls of a series.
pub open spec fn rolls(
    candles: Seq<Candle>,
    jumps: Seq<Num>,
    max_gap_secs: int,
    threshold: Option<Num>,
) -> Seq<usize> {
    if usual_jump_of(candles, jumps, max_gap_secs) is Some && usable(threshold) {
        splices_of(candles, jumps, max_gap_secs, threshold->0, candles.len())
    } else {
        Seq::empty()
    }
}

/// The bars that are first after a roll, given four times the usual jump.
pub fn roll_splices(
    candles: &Vec<Candle>,
    jumps: &Vec<Num>,
    max_gap_secs: i64,
    threshold: Option<Num>,
) -> (r: Vec<usize>)
    requires
        jumps@.len() == candles@.len(),
    ensures
        r@ == rolls(candles@, jumps@, max_gap_secs as int, threshold),
{
    let mut out: Vec<usize> = Vec::new();
    if usual_jump(candles, jumps, max_gap_secs).is_none() {
        return out;
    }
    let t: Num = match threshold {
        Some(t) => t,
        None => return out,
    };
    if t <= 0 || t >= INFINITE {
        return out;
    }
    let mut i: usize = 1;
    while i < candles.len()
        invariant
            1 <= i,
            i <= candles@.len() || candles@.len() == 0,
            jumps@.len() == candles@.len(),
            out@ == splices_of(candles@, jumps@, max_gap_secs as int, t, i as nat),
        decreases candles@.len() - i,
    {
        let (near, midnight) = follows(candles, i, max_gap_secs);
        if near && midnight && jumps[i] > t {
            out.push(i);
        }
        i = i + 1;
    }
    out
}

/// For each bar, the first roll that lies after it: the gaps of that roll and
/// of all later ones are taken out of the bar.
pub open spec fn shifts(splices: Seq<usize>, r: Seq<usize>) -> bool {
    forall|i: int|
        0 <= i < r.len() ==> {
            &&& (#[trigger] r[i]) <= splices.len()
            &&& forall|s: int| 0 <= s < r[i] ==> (#[trigger] splices[s]) <= i
            &&& forall|s: int| r[i] <= s < splices.len() ==> i < #[trigger] splices[s]
        }
}

/// The places stand in order.
pub open spec fn climbing(splices: Seq<usize>) -> bool {
    forall|a: int, b: int| 0 <= a < b < splices.len() ==> #[trigger] splices[a] < #[trigger] splices[b]
}

/// For each of `n` bars, the first roll that lies after it.
pub fn shift_plan(n: usize, splices: &Vec<usize>) -> (r: Vec<usize>)
    requires
        climbing(splices@),
    ensures
        r@.len() == n,
        shifts(splices@, r@),
{
    let mut out: Vec<usize> = Vec::new();
    let mut s: usize = 0;
    let mut i: usize = 0;
    while i < n
        invariant
            i <= n,
            climbing(splices@),
            s <= splices@.len(),
            out@.len() == i,
            shifts(splices@, out@),
            forall|k: int| 0 <= k < s ==> (#[trigger] splices@[k]) < i || splices@[k] == 0,
        decreases n - i,
    {
        while s < splices.len() && splices[s] <= i
            invariant
                i < n,
                s <= splices@.len(),
                forall|k: int| 0 <= k < s ==> (#[trigger] splices@[k]) <= i,
            decreases splices@.len() - s,
        {
            s = s + 1;
        }
        proof {
            assert forall|k: int| s <= k < splices@.len() implies i < #[trigger] splices@[k] by {
                if k > s {
                    assert(splices@[s as int] < splices@[k]);
                }
            }
        }
        out.push(s);
        i = i + 1;
    }
    out
}

/// The rolls found stand in order, each inside the series, so that their
/// shifts can be planned.
pub proof fn law_rolls_climb(
    candles: Seq<Candle>,
    jumps: Seq<Num>,
    max_gap_secs: int,
    threshold: Option<Num>,
)
    requires
        candles.len() <= usize::MAX,
    ensures
        climbing(rolls(candles, jumps, max_gap_secs, threshold)),
        forall|s: int|
            0 <= s < rolls(candles, jumps, max_gap_secs, threshold).len() ==> 0 < (
            #[trigger] rolls(candles, jumps, max_gap_secs, threshold)[s]) < candles.len(),
{
    if usable(threshold) {
        lemma_climbs(candles, jumps, max_gap_secs, threshold->0, candles.len());
    }
}

proof fn lemma_climbs(
    candles: Seq<Candle>,
    jumps: Seq<Num>,
    max_gap_secs: int,
    threshold: Num,
    n: nat,
)
    requires
        n <= candles.len() <= usize::MAX,
    ensures
        climbing(splices_of(candles, jumps, max_gap_secs, threshold, n)),
        forall|s: int|
            0 <= s < splices_of(candles, jumps, max_gap_secs, threshold, n).len() ==> 0 < (
            #[trigger] splices_of(candles, jumps, max_gap_secs, threshold, n)[s]) < n,
    decreases n,
{
    if n > 1 {
        lemma_climbs(candles, jumps, max_gap_secs, threshold, (n - 1) as nat);
    }
}

/// A jump within a day is a market move and stays: only a bar over midnight is
/// ever first after a roll.
pub proof fn law_rolls_fall_on_midnight(
    candles: Seq<Candle>,
    jumps: Seq<Num>,
    max_gap_secs: int,
    threshold: Option<Num>,
    s: int,
)
    requires
        candles.len() <= usize::MAX,
        0 <= s < rolls(candles, jumps, max_gap_secs, threshold).len(),
    ensures
        over_midnight(candles, rolls(candles, jumps, max_gap_secs, threshold)[s] as int),
        contiguous(
            candles,
            rolls(candles, jumps, max_gap_secs, threshold)[s] as int,
            max_gap_secs,
        ),
{
    lemma_on_midnight(candles, jumps, max_gap_secs, threshold->0, candles.len(), s);
}

proof fn lemma_on_midnight(
    candles: Seq<Candle>,
    jumps: Seq<Num>,
    max_gap_secs: int,
    threshold: Num,
    n: nat,
    s: int,
)
    requires
        n <= candles.len() <= usize::MAX,
        0 <= s < splices_of(candles, jumps, max_gap_secs, threshold, n).len(),
    ensures
        is_splice(
            candles,
            jumps,
            max_gap_secs,
            threshold,
            splices_of(candles, jumps, max_gap_secs, threshold, n)[s] as int,
        ),
    decreases n,
{
    let rest = splices_of(candles, jumps, max_gap_secs, threshold, (n - 1) as nat);
    if s < rest.len() {
        lemma_on_midnight(candles, jumps, max_gap_secs, threshold, (n - 1) as nat, s);
    }
}

/// The series is anchored at its latest prices: no gap is taken out of a bar
/// at or after the last roll.
pub proof fn law_the_latest_prices_stay(splices: Seq<usize>, r: Seq<usize>, i: int)
    requires
        climbing(splices),
        shifts(splices, r),
        0 <= i < r.len(),
        splices.len() > 0 ==> splices.last() <= i,
    ensures
        r[i] == splices.len(),
{
    if r[i] < splices.len() {
        assert(i < splices[splices.len() - 1]);
    }
}

/// A short series is left alone.
pub proof fn law_short_series_are_left_alone(
    candles: Seq<Candle>,
    jumps: Seq<Num>,
    max_gap_secs: int,
    threshold: Option<Num>,
)
    requires
        candles.len() < MIN_BARS,
    ensures
        rolls(candles, jumps, max_gap_secs, threshold).len() == 0,
{
}

/// The places of a list whose jump is at most `v`.
pub open spec fn at_most(list: Seq<Num>, v: Num) -> Set<int> {
    Set::new(|i: int| 0 <= i < list.len() && list[i] <= v)
}

/// The places of a list whose jump is at least `v`.
pub open spec fn at_least(list: Seq<Num>, v: Num) -> Set<int> {
    Set::new(|i: int| 0 <= i < list.len() && list[i] >= v)
}

/// The ordinary jumps of a series, in order: those into a bar that starts on
/// the same day (UTC) as the bar before it and no more than so many seconds
/// later.
pub proof fn law_ordinary_jumps_are_within_a_day(
    candles: Seq<Candle>,
    jumps: Seq<Num>,
    max_gap_secs: int,
)
    requires
        candles.len() > 0,
    ensures
        ({
            let second = |i: int| candles[i].timestamp as int / 2_000_000_000;
            let ordinary = |i: int|
                0 < i && second(i) - second(i - 1) <= max_gap_secs && second(i) / 86_400 == second(
                    i - 1,
                ) / 86_400;
            let bars = Seq::new(candles.len(), |i: int| i).filter(ordinary);
            ordinary_jumps(candles, jumps, max_gap_secs, candles.len()) == Seq::new(
                bars.len(),
                |j: int| jumps[bars[j]],
            )
        }),
{
    lemma_ordinary(candles, jumps, max_gap_secs, candles.len());
}

proof fn lemma_ordinary(candles: Seq<Candle>, jumps: Seq<Num>, max_gap_secs: int, n: nat)
    requires
        0 < n <= candles.len(),
    ensures
        ({
            let second = |i: int| candles[i].timestamp as int / 2_000_000_000;
            let ordinary = |i: int|
                0 < i && second(i) - second(i - 1) <= max_gap_secs && second(i) / 86_400 == second(
                    i - 1,
                ) / 86_400;
            let bars = Seq::new(n, |i: int| i).filter(ordinary);
            ordinary_jumps(candles, jumps, max_gap_secs, n) == Seq::new(
                bars.len(),
                |j: int| jumps[bars[j]],
            )
        }),
    decreases n,
{
    reveal(Seq::filter);
    let second = |i: int| candles[i].timestamp as int / 2_000_000_000;
    let ordinary = |i: int|
        0 < i && second(i) - second(i - 1) <= max_gap_secs && second(i) / 86_400 == second(i - 1)
            / 86_400;
    let all = Seq::new(n, |i: int| i);
    let bars = all.filter(ordinary);
    let less = Seq::new((n - 1) as nat, |i: int| i);
    assert(all.drop_last() =~= less);
    assert(all.last() == n - 1);
    if n == 1 {
        assert(less.filter(ordinary) =~= Seq::empty());
        assert(bars =~= Seq::empty());
        assert(ordinary_jumps(candles, jumps, max_gap_secs, n) =~= Seq::new(
            bars.len(),
            |j: int| jumps[bars[j]],
        ));
    } else {
        lemma_ordinary(candles, jumps, max_gap_secs, (n - 1) as nat);
        let was = less.filter(ordinary);
        assert(ordinary(n - 1) <==> contiguous(candles, n - 1, max_gap_secs) && !over_midnight(
            candles,
            n - 1,
        ));
        assert(ordinary_jumps(candles, jumps, max_gap_secs, n) =~= Seq::new(
            bars.len(),
            |j: int| jumps[bars[j]],
        ));
    }
}

/// The usual jump, of five hundred bars or more with a hundred ordinary jumps
/// or more, is the 99.9th percentile of those jumps: it is one of the `n`, at
/// least `floor(999 n / 1000) + 1` of them are no larger, and at least
/// `n - floor(999 n / 1000)` are no smaller. Fewer bars or jumps have none.
pub proof fn law_the_usual_jump_is_a_percentile(
    candles: Seq<Candle>,
    jumps: Seq<Num>,
    max_gap_secs: int,
)
    requires
        candles.len() <= usize::MAX,
    ensures
        ({
            let o = ordinary_jumps(candles, jumps, max_gap_secs, candles.len());
            let n = o.len() as int;
            let usual = usual_jump_of(candles, jumps, max_gap_secs);
            &&& usual is Some <==> candles.len() >= 500 && n >= 100
            &&& usual matches Some(v) ==> o.contains(v) && at_most(o, v).len() >= 999 * n / 1000 + 1
                && at_least(o, v).len() >= n - 999 * n / 1000
        }),
{
    let o = ordinary_jumps(candles, jumps, max_gap_secs, candles.len());
    lemma_few_ordinary(candles, jumps, max_gap_secs, candles.len());
    let n = o.len() as int;
    if candles.len() >= MIN_BARS && n >= MIN_JUMPS {
        let keys = jump_keys(o);
        law_a_stable_order_exists(keys);
        let order = order_of(keys);
        let at = rank(n);
        let v = o[order[at] as int];
        assert(0 <= at < n);
        assert(o[order[at] as int] == v);
        lemma_order_has_no_twins(keys, order);
        let low = order.take(at + 1).map_values(|x: usize| x as int);
        let high = order.subrange(at, n).map_values(|x: usize| x as int);
        assert(low.no_duplicates());
        assert(high.no_duplicates());
        low.unique_seq_to_set();
        high.unique_seq_to_set();
        assert forall|x: int| #[trigger] low.to_set().contains(x) implies at_most(o, v).contains(
            x,
        ) by {
            let i = choose|i: int| 0 <= i < low.len() && low[i] == x;
            assert(low[i] == order[i] as int);
            if i < at {
                assert(before(keys, order[i] as int, order[at] as int));
            }
        }
        assert forall|x: int| #[trigger] high.to_set().contains(x) implies at_least(o, v).contains(
            x,
        ) by {
            let i = choose|i: int| 0 <= i < high.len() && high[i] == x;
            assert(high[i] == order[at + i] as int);
            if i > 0 {
                assert(before(keys, order[at] as int, order[at + i] as int));
            }
        }
        lemma_places_are_finite(o, v);
        vstd::set_lib::lemma_len_subset(low.to_set(), at_most(o, v));
        vstd::set_lib::lemma_len_subset(high.to_set(), at_least(o, v));
    }
}

proof fn lemma_places_are_finite(o: Seq<Num>, v: Num)
    ensures
        at_most(o, v).finite(),
        at_least(o, v).finite(),
{
    let all = vstd::set_lib::set_int_range(0, o.len() as int);
    vstd::set_lib::lemma_int_range(0, o.len() as int);
    assert(at_most(o, v).subset_of(all));
    assert(at_least(o, v).subset_of(all));
    vstd::set_lib::lemma_set_subset_finite(all, at_most(o, v));
    vstd::set_lib::lemma_set_subset_finite(all, at_least(o, v));
}

proof fn lemma_order_has_no_twins(keys: Seq<Key>, order: Seq<usize>)
    requires
        stable_order_of(keys, order),
    ensures
        order.no_duplicates(),
{
    assert forall|i: int, j: int| 0 <= i < order.len() && 0 <= j < order.len() && i != j implies
        order[i] != order[j] by {
        if i < j {
            assert(before(keys, order[i] as int, order[j] as int));
        } else {
            assert(before(keys, order[j] as int, order[i] as int));
        }
    }
}

proof fn lemma_few_ordinary(candles: Seq<Candle>, jumps: Seq<Num>, max_gap_secs: int, n: nat)
    ensures
        ordinary_jumps(candles, jumps, max_gap_secs, n).len() <= n,
    decreases n,
{
    if n > 1 {
        lemma_few_ordinary(candles, jumps, max_gap_secs, (n - 1) as nat);
    }
}

/// A bar is taken for the first after a roll exactly when it follows within the
/// gap allowed, on another day (UTC) than the bar before it, by a jump beyond
/// the threshold; and only in a series that has a usual jump.
pub proof fn law_rolls_are_the_large_jumps_over_midnight(
    candles: Seq<Candle>,
    jumps: Seq<Num>,
    max_gap_secs: int,
    threshold: Num,
    i: int,
)
    requires
        0 < i < candles.len() <= usize::MAX,
        0 < threshold < 0x7ff0_0000_0000_0000,
        usual_jump_of(candles, jumps, max_gap_secs) is Some,
    ensures
        ({
            let now = candles[i].timestamp as int / 2_000_000_000;
            let then = candles[i - 1].timestamp as int / 2_000_000_000;
            rolls(candles, jumps, max_gap_secs, Some(threshold)).contains(i as usize) <==> now
                - then <= max_gap_secs && now / 86_400 != then / 86_400 && jumps[i] > threshold
        }),
{
    lemma_splices(candles, jumps, max_gap_secs, threshold, candles.len(), i);
}

proof fn lemma_splices(
    candles: Seq<Candle>,
    jumps: Seq<Num>,
    max_gap_secs: int,
    threshold: Num,
    n: nat,
    i: int,
)
    requires
        0 < i < n <= candles.len() <= usize::MAX,
    ensures
        splices_of(candles, jumps, max_gap_secs, threshold, n).contains(i as usize) <==> is_splice(
            candles,
            jumps,
            max_gap_secs,
            threshold,
            i,
        ),
    decreases n,
{
    let list = splices_of(candles, jumps, max_gap_secs, threshold, n);
    let rest = splices_of(candles, jumps, max_gap_secs, threshold, (n - 1) as nat);
    if i == n - 1 {
        lemma_climbs(candles, jumps, max_gap_secs, threshold, (n - 1) as nat);
        if is_splice(candles, jumps, max_gap_secs, threshold, i) {
            assert(list[rest.len() as int] == i as usize);
        }
    } else {
        lemma_splices(candles, jumps, max_gap_secs, threshold, (n - 1) as nat, i);
        if rest.contains(i as usize) {
            let j = choose|j: int| 0 <= j < rest.len() && rest[j] == i as usize;
            assert(list[j] == i as usize);
        }
        if list.contains(i as usize) {
            let j = choose|j: int| 0 <= j < list.len() && list[j] == i as usize;
            assert(rest[j] == i as usize);
        }
    }
}

} // verus!
