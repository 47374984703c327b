//! Series of candles and ticks: trimmed to a range, merged, put in order.
use vstd::prelude::*;
use crate::clock::Stamp;
use crate::models::{Candle, Tick};
use crate::sort::{before, order_of, places, stable_order, stable_order_of, Key};

verus! {

/// An instant lies between two bounds, both included.
pub open spec fn in_range(at: Stamp, start: Option<Stamp>, end: Option<Stamp>) -> bool {
    &&& (start matches Some(s) ==> s <= at)
    &&& (end matches Some(e) ==> at <= e)
}

fn keeps(at: Stamp, start: Option<Stamp>, end: Option<Stamp>) -> (r: bool)
    ensures
        r == in_range(at, start, end),
{
    let low = match start {
        Some(s) => s <= at,
        None => true,
    };
    let high = match end {
        Some(e) => at <= e,
        None => true,
    };
    low && high
}

// ─── Candles ────────────────────────────────────────────────────────────────

/// The sort keys of candles by time.
pub open spec fn candle_keys(list: Seq<Candle>) -> Seq<Key> {
    Seq::new(list.len(), |i: int| (list[i].timestamp, 0i64))
}

/// Candles by time; those of one time keep their order.
pub open spec fn by_time(list: Seq<Candle>) -> Seq<Candle> {
    let order = order_of(candle_keys(list));
    Seq::new(order.len(), |i: int| list[order[i] as int])
}

/// The candles in range.
pub open spec fn trimmed(list: Seq<Candle>, start: Option<Stamp>, end: Option<Stamp>) -> Seq<
    Candle,
> {
    list.filter(|c: Candle| in_range(c.timestamp, start, end))
}

fn key_list(list: &Vec<Candle>) -> (r: Vec<Key>)
    ensures
        r@ == candle_keys(list@),
{
    let mut keys: Vec<Key> = Vec::new();
    let mut i: usize = 0;
    while i < list.len()
        invariant
            i <= list@.len(),
            keys@ == candle_keys(list@).take(i as int),
        decreases list@.len() - i,
    {
        keys.push((list[i].timestamp, 0));
        i = i + 1;
        proof {
            assert(keys@ =~= candle_keys(list@).take(i as int));
        }
    }
    proof {
        assert(keys@ =~= candle_keys(list@));
    }
    keys
}

/// Candles by time; those of one time keep their order.
pub fn sort_candles(list: &Vec<Candle>) -> (r: Vec<Candle>)
    ensures
        r@ == by_time(list@),
        r@.len() == list@.len(),
        forall|i: int, j: int|
            0 <= i < j < r@.len() ==> (#[trigger] r@[i]).timestamp <= (#[trigger] r@[j]).timestamp,
{
    let order = stable_order(&key_list(list));
    let mut out: Vec<Candle> = Vec::new();
    let mut i: usize = 0;
    while i < order.len()
        invariant
            i <= order@.len(),
            order@ == order_of(candle_keys(list@)),
            places(order@, 0, list@.len() as int),
            out@ == by_time(list@).take(i as int),
        decreases order@.len() - i,
    {
        out.push(list[order[i]]);
        i = i + 1;
        proof {
            assert(out@ =~= by_time(list@).take(i as int));
        }
    }
    proof {
        assert(out@ =~= by_time(list@));
        let ks = candle_keys(list@);
        assert forall|i: int, j: int| 0 <= i < j < out@.len() implies (
        #[trigger] out@[i]).timestamp <= (#[trigger] out@[j]).timestamp by {
            assert(before(ks, order@[i] as int, order@[j] as int));
        }
    }
    out
}

/// A file's candles: those in range, by time.
pub fn file_candles(rows: &Vec<Candle>, start: Option<Stamp>, end: Option<Stamp>) -> (r: Vec<
    Candle,
>)
    ensures
        r@ == by_time(trimmed(rows@, start, end)),
{
    let mut kept: Vec<Candle> = Vec::new();
    let mut i: usize = 0;
    let ghost p = |c: Candle| in_range(c.timestamp, start, end);
    proof {
        assert(rows@.take(0) =~= Seq::empty());
        reveal(Seq::filter);
        assert(rows@.take(0).filter(p) =~= Seq::empty());
    }
    while i < rows.len()
        invariant
            i <= rows@.len(),
            p == (|c: Candle| in_range(c.timestamp, start, end)),
            kept@ == rows@.take(i as int).filter(p),
        decreases rows@.len() - i,
    {
        let c = rows[i];
        proof {
            reveal(Seq::filter);
            assert(rows@.take(i + 1).drop_last() =~= rows@.take(i as int));
            assert(rows@.take(i + 1).last() == c);
        }
        if keeps(c.timestamp, start, end) {
            kept.push(c);
        }
        i = i + 1;
    }
    proof {
        assert(rows@.take(rows@.len() as int) =~= rows@);
    }
    sort_candles(&kept)
}

/// The first candle of a time, at or after `from`.
pub open spec fn first_of(list: Seq<Candle>, at: Stamp, from: int) -> int
    decreases list.len() - from,
{
    if from >= list.len() || list[from].timestamp == at {
        from
    } else {
        first_of(list, at, from + 1)
    }
}

/// The merged series of some candles: strictly by time, for every time the
/// candle that came first, and nothing else.
pub open spec fn merged_from(list: Seq<Candle>, r: Seq<Candle>) -> bool {
    &&& forall|i: int, j: int|
        0 <= i < j < r.len() ==> (#[trigger] r[i]).timestamp < (#[trigger] r[j]).timestamp
    &&& forall|i: int|
        0 <= i < r.len() ==> ({
            let f = first_of(list, (#[trigger] r[i]).timestamp, 0);
            f < list.len() && r[i] == list[f]
        })
    &&& forall|k: int|
        0 <= k < list.len() ==> exists|i: int|
            0 <= i < r.len() && (#[trigger] r[i]).timestamp == (#[trigger] list[k]).timestamp
}

proof fn lemma_first_is(list: Seq<Candle>, k: int, from: int)
    requires
        0 <= from <= k < list.len(),
        forall|j: int| from <= j < k ==> (#[trigger] list[j]).timestamp != list[k].timestamp,
    ensures
        first_of(list, list[k].timestamp, from) == k,
    decreases k - from,
{
    if from < k {
        lemma_first_is(list, k, from + 1);
    }
}

/// Candles merged: by time, the first of each time kept. An earlier source
/// wins over a later one.
pub fn merge_candles(list: &Vec<Candle>) -> (r: Vec<Candle>)
    ensures
        merged_from(list@, r@),
{
    let keys = key_list(list);
    let order = stable_order(&keys);
    let ghost ks = candle_keys(list@);
    let mut out: Vec<Candle> = Vec::new();
    let mut i: usize = 0;
    while i < order.len()
        invariant
            i <= order@.len(),
            ks == candle_keys(list@),
            stable_order_of(ks, order@),
            order@.len() == list@.len(),
            out@.len() == 0 <==> i == 0,
            i > 0 ==> out@.last().timestamp == list@[order@[i - 1] as int].timestamp,
            forall|a: int, b: int|
                0 <= a < b < out@.len() ==> (#[trigger] out@[a]).timestamp < (
                #[trigger] out@[b]).timestamp,
            forall|a: int|
                0 <= a < out@.len() ==> ({
                    let f = first_of(list@, (#[trigger] out@[a]).timestamp, 0);
                    f < list@.len() && out@[a] == list@[f]
                }),
            forall|a: int|
                0 <= a < i ==> exists|b: int|
                    0 <= b < out@.len() && (#[trigger] out@[b]).timestamp == list@[#[trigger] order@[a] as int].timestamp,
        decreases order@.len() - i,
    {
        let k: usize = order[i];
        let c = list[k];
        let fresh = match out.len() {
            0 => true,
            n => out[n - 1].timestamp != c.timestamp,
        };
        let ghost out0 = out@;
        if fresh {
            out.push(c);
        }
        proof {
            if i > 0 {
                assert(before(ks, order@[i - 1] as int, order@[i as int] as int));
            }
            if fresh {
                assert forall|j: int| 0 <= j < k implies (#[trigger] list@[j]).timestamp
                    != c.timestamp by {
                    if list@[j].timestamp == c.timestamp {
                        assert(order@.contains(j as usize));
                        let p = choose|p: int| 0 <= p < order@.len() && order@[p] == j as usize;
                        if p > i {
                            assert(before(ks, order@[i as int] as int, order@[p] as int));
                        } else if p < i - 1 {
                            assert(before(ks, order@[p] as int, order@[i - 1] as int));
                        }
                    }
                }
                lemma_first_is(list@, k as int, 0);
                assert forall|a: int, b: int| 0 <= a < b < out@.len() implies (
                #[trigger] out@[a]).timestamp < (#[trigger] out@[b]).timestamp by {
                    if b == out0.len() {
                        if a < out0.len() - 1 {
                            assert(out0[a].timestamp < out0[out0.len() - 1].timestamp);
                        }
                    }
                }
            }
            assert forall|a: int| 0 <= a < i + 1 implies exists|b: int|
                0 <= b < out@.len() && (#[trigger] out@[b]).timestamp == list@[#[trigger] order@[a] as int].timestamp by {
                if a < i {
                    let b = choose|b: int|
                        0 <= b < out0.len() && (#[trigger] out0[b]).timestamp
                            == list@[order@[a] as int].timestamp;
                    assert(out@[b].timestamp == list@[order@[a] as int].timestamp);
                } else {
                    assert(out@[out@.len() - 1].timestamp == c.timestamp);
                }
            }
        }
        i = i + 1;
    }
    proof {
        assert forall|k: int| 0 <= k < list@.len() implies exists|b: int|
            0 <= b < out@.len() && (#[trigger] out@[b]).timestamp == (
            #[trigger] list@[k]).timestamp by {
            assert(order@.contains(k as usize));
            let p = choose|p: int| 0 <= p < order@.len() && order@[p] == k as usize;
            let b = choose|b: int|
                0 <= b < out@.len() && (#[trigger] out@[b]).timestamp
                    == list@[order@[p] as int].timestamp;
            assert(out@[b].timestamp == list@[k].timestamp);
        }
    }
    out
}

/// There is one merged series: the sources and their order decide it.
pub proof fn law_the_merged_series_is_unique(list: Seq<Candle>, a: Seq<Candle>, b: Seq<Candle>)
    requires
        merged_from(list, a),
        merged_from(list, b),
    ensures
        a == b,
{
    lemma_same_start(list, a, b, if a.len() < b.len() {
        a.len()
    } else {
        b.len()
    });
    lemma_no_longer(list, a, b);
    lemma_no_longer(list, b, a);
    assert(a =~= b);
}

proof fn lemma_present(list: Seq<Candle>, a: Seq<Candle>, b: Seq<Candle>, k: int) -> (i: int)
    requires
        merged_from(list, a),
        merged_from(list, b),
        0 <= k < b.len(),
    ensures
        0 <= i < a.len(),
        a[i].timestamp == b[k].timestamp,
{
    lemma_first_bound(list, b[k].timestamp, 0);
    let f = first_of(list, b[k].timestamp, 0);
    assert(b[k] == list[f]);
    let i = choose|i: int| 0 <= i < a.len() && (#[trigger] a[i]).timestamp == list[f].timestamp;
    i
}

proof fn lemma_first_bound(list: Seq<Candle>, at: Stamp, from: int)
    requires
        0 <= from,
    ensures
        from <= first_of(list, at, from),
    decreases list.len() - from,
{
    if from < list.len() && list[from].timestamp != at {
        lemma_first_bound(list, at, from + 1);
    }
}

proof fn lemma_same_start(list: Seq<Candle>, a: Seq<Candle>, b: Seq<Candle>, n: nat)
    requires
        merged_from(list, a),
        merged_from(list, b),
        n <= a.len(),
        n <= b.len(),
    ensures
        forall|i: int| 0 <= i < n ==> #[trigger] a[i] == b[i],
    decreases n,
{
    if n > 0 {
        lemma_same_start(list, a, b, (n - 1) as nat);
        let m = n - 1;
        let p = lemma_present(list, a, b, m);
        let q = lemma_present(list, b, a, m);
        if p < m {
            assert(a[p] == b[p]);
            assert(b[p].timestamp < b[m].timestamp);
        }
        if q < m {
            assert(a[q] == b[q]);
            assert(a[q].timestamp < a[m].timestamp);
        }
        if p > m {
            assert(a[m].timestamp < a[p].timestamp);
        }
        if q > m {
            assert(b[m].timestamp < b[q].timestamp);
        }
        assert(a[m].timestamp == b[m].timestamp);
    }
}

proof fn lemma_no_longer(list: Seq<Candle>, a: Seq<Candle>, b: Seq<Candle>)
    requires
        merged_from(list, a),
        merged_from(list, b),
        forall|i: int| 0 <= i < a.len() && i < b.len() ==> #[trigger] a[i] == b[i],
    ensures
        b.len() <= a.len(),
{
    if a.len() < b.len() {
        let p = lemma_present(list, a, b, a.len() as int);
        assert(a[p] == b[p]);
        assert(b[p].timestamp < b[a.len() as int].timestamp);
    }
}

// ─── Ticks ──────────────────────────────────────────────────────────────────

/// The sort keys of ticks by time.
pub open spec fn tick_keys(list: Seq<Tick>) -> Seq<Key> {
    Seq::new(list.len(), |i: int| (list[i].timestamp, 0i64))
}

/// Ticks by time; those of one time keep their order.
pub open spec fn ticks_by_time(list: Seq<Tick>) -> Seq<Tick> {
    let order = order_of(tick_keys(list));
    Seq::new(order.len(), |i: int| list[order[i] as int])
}

/// Ticks by time; those of one time keep their order.
pub fn sort_ticks(list: &Vec<Tick>) -> (r: Vec<Tick>)
    ensures
        r@ == ticks_by_time(list@),
        r@.len() == list@.len(),
        forall|i: int, j: int|
            0 <= i < j < r@.len() ==> (#[trigger] r@[i]).timestamp <= (#[trigger] r@[j]).timestamp,
{
    let mut keys: Vec<Key> = Vec::new();
    let mut i: usize = 0;
    while i < list.len()
        invariant
            i <= list@.len(),
            keys@ == tick_keys(list@).take(i as int),
        decreases list@.len() - i,
    {
        keys.push((list[i].timestamp, 0));
        i = i + 1;
        proof {
            assert(keys@ =~= tick_keys(list@).take(i as int));
        }
    }
    proof {
        assert(keys@ =~= tick_keys(list@));
    }
    let order = stable_order(&keys);
    let mut out: Vec<Tick> = Vec::new();
    let mut k: usize = 0;
    while k < order.len()
        invariant
            k <= order@.len(),
            order@ == order_of(tick_keys(list@)),
            places(order@, 0, list@.len() as int),
            out@ == ticks_by_time(list@).take(k as int),
        decreases order@.len() - k,
    {
        out.push(list[order[k]]);
        k = k + 1;
        proof {
            assert(out@ =~= ticks_by_time(list@).take(k as int));
        }
    }
    proof {
        assert(out@ =~= ticks_by_time(list@));
        let ks = tick_keys(list@);
        assert forall|i: int, j: int| 0 <= i < j < out@.len() implies (
        #[trigger] out@[i]).timestamp <= (#[trigger] out@[j]).timestamp by {
            assert(before(ks, order@[i] as int, order@[j] as int));
        }
    }
    out
}

/// A file's ticks: those in range, by time.
pub fn file_ticks(rows: &Vec<Tick>, start: Option<Stamp>, end: Option<Stamp>) -> (r: Vec<Tick>)
    ensures
        r@ == ticks_by_time(rows@.filter(|t: Tick| in_range(t.timestamp, start, end))),
{
    let mut kept: Vec<Tick> = Vec::new();
    let mut i: usize = 0;
    let ghost p = |t: Tick| in_range(t.timestamp, start, end);
    proof {
        assert(rows@.take(0) =~= Seq::empty());
        reveal(Seq::filter);
        assert(rows@.take(0).filter(p) =~= Seq::empty());
    }
    while i < rows.len()
        invariant
            i <= rows@.len(),
            p == (|t: Tick| in_range(t.timestamp, start, end)),
            kept@ == rows@.take(i as int).filter(p),
        decreases rows@.len() - i,
    {
        let t = rows[i];
        proof {
            reveal(Seq::filter);
            assert(rows@.take(i + 1).drop_last() =~= rows@.take(i as int));
            assert(rows@.take(i + 1).last() == t);
        }
        if keeps(t.timestamp, start, end) {
            kept.push(t);
        }
        i = i + 1;
    }
    proof {
        assert(rows@.take(rows@.len() as int) =~= rows@);
    }
    sort_ticks(&kept)
}

} // verus!
