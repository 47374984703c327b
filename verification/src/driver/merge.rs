//! One ledger for the report, out of the assets' books.
use vstd::prelude::*;
use crate::clock::Stamp;
use crate::driver::feed::{in_report, reported};
use crate::models::PaperTrade;
use crate::paper::book::{Book, IdMaps, PaperTrader, TickTape};
use crate::paper::counters::{can_merge, merged};
use crate::strmap::StrMap;

verus! {

/// How often a reason was counted.
pub open spec fn times_counted(skips: Map<Seq<char>, usize>, reason: Seq<char>) -> int {
    if skips.contains_key(reason) {
        skips[reason] as int
    } else {
        0
    }
}

/// Two counts of reasons together.
pub open spec fn skips_joined(a: Map<Seq<char>, usize>, b: Map<Seq<char>, usize>) -> Map<
    Seq<char>,
    usize,
> {
    Map::new(
        |k: Seq<char>| a.contains_key(k) || b.contains_key(k),
        |k: Seq<char>| (times_counted(a, k) + times_counted(b, k)) as usize,
    )
}

/// The two counts of each reason add up.
pub open spec fn skips_fit(a: Map<Seq<char>, usize>, b: Map<Seq<char>, usize>) -> bool {
    forall|k: Seq<char>| #[trigger]
        b.contains_key(k) ==> times_counted(a, k) + times_counted(b, k) <= usize::MAX
}

/// Ready times with those of the first `n` trades, where they are known.
pub open spec fn ready_joined(
    a: Map<Seq<char>, Stamp>,
    b: Map<Seq<char>, Stamp>,
    trades: Seq<PaperTrade>,
    n: nat,
) -> Map<Seq<char>, Stamp>
    decreases n,
{
    if n == 0 {
        a
    } else {
        let r = ready_joined(a, b, trades, (n - 1) as nat);
        let id = trades[n - 1].opportunity_id@;
        if b.contains_key(id) {
            r.insert(id, b[id])
        } else {
            r
        }
    }
}

/// The trades of a book that are reported.
pub open spec fn reported_of(trades: Seq<PaperTrade>, from: Option<Stamp>) -> Seq<PaperTrade> {
    trades.filter(|t: PaperTrade| in_report(t, from))
}

/// A ledger with another book's: its reported trades at the end, its counts
/// added.
pub open spec fn absorbed(b: Book, o: Book, from: Option<Stamp>) -> Book {
    let kept = reported_of(o.trades, from);
    Book {
        trades: b.trades + kept,
        seen: b.seen + o.seen,
        taken: (b.trades + kept).len() as int,
        skips: skips_joined(b.skips, o.skips),
        counters: merged(b.counters, o.counters),
        ids: IdMaps { ready: ready_joined(b.ids.ready, o.ids.ready, kept, kept.len()), ..b.ids },
        intervals: b.intervals + o.intervals,
        tape: TickTape {
            resolved_bars: (b.tape.resolved_bars + o.tape.resolved_bars) as usize,
            fallback_bars: (b.tape.fallback_bars + o.tape.fallback_bars) as usize,
            walked: (b.tape.walked + o.tape.walked) as usize,
            ..b.tape
        },
        ..b
    }
}

/// The counts of two books add up.
pub open spec fn counts_fit(b: Book, o: Book) -> bool {
    &&& b.seen + o.seen <= usize::MAX
    &&& skips_fit(b.skips, o.skips)
    &&& can_merge(b.counters, o.counters)
    &&& b.tape.resolved_bars + o.tape.resolved_bars <= usize::MAX
    &&& b.tape.fallback_bars + o.tape.fallback_bars <= usize::MAX
    &&& b.tape.walked + o.tape.walked <= usize::MAX
}

/// A ledger with the first `n` books'.
pub open spec fn all_absorbed(
    b: Book,
    books: Seq<PaperTrader>,
    from: Option<Stamp>,
    n: nat,
) -> Book
    decreases n,
{
    if n == 0 {
        b
    } else {
        absorbed(all_absorbed(b, books, from, (n - 1) as nat), books[n - 1]@, from)
    }
}

/// The counts of the first `n` books add up.
pub open spec fn all_fit(b: Book, books: Seq<PaperTrader>, from: Option<Stamp>, n: nat) -> bool
    decreases n,
{
    n == 0 || (all_fit(b, books, from, (n - 1) as nat) && counts_fit(
        all_absorbed(b, books, from, (n - 1) as nat),
        books[n - 1]@,
    ))
}

fn do_skips_fit(a: &StrMap<usize>, b: &StrMap<usize>) -> (r: bool)
    ensures
        r == skips_fit(a@, b@),
{
    let keys = b.keys();
    let mut i: usize = 0;
    while i < keys.len()
        invariant
            i <= keys@.len(),
            forall|j: int|
                0 <= j < keys@.len() ==> b@.contains_key((#[trigger] keys@[j])@),
            forall|j: int|
                0 <= j < i ==> times_counted(a@, (#[trigger] keys@[j])@) + times_counted(
                    b@,
                    keys@[j]@,
                ) <= usize::MAX,
        decreases keys@.len() - i,
    {
        assert(b@.contains_key(keys@[i as int]@));
        let x: usize = match a.get(&keys[i]) {
            Some(n) => n,
            None => 0,
        };
        let y: usize = match b.get(&keys[i]) {
            Some(n) => n,
            None => 0,
        };
        if y > usize::MAX - x {
            return false;
        }
        i = i + 1;
    }
    true
}

fn join_skips(a: &mut StrMap<usize>, b: &StrMap<usize>)
    requires
        skips_fit(old(a)@, b@),
    ensures
        final(a)@ == skips_joined(old(a)@, b@),
{
    let ghost a0 = a@;
    let keys = b.keys();
    let mut i: usize = 0;
    while i < keys.len()
        invariant
            i <= keys@.len(),
            skips_fit(a0, b@),
            forall|j: int|
                0 <= j < keys@.len() ==> b@.contains_key((#[trigger] keys@[j])@),
            forall|j: int, l: int|
                0 <= j < l < keys@.len() ==> (#[trigger] keys@[j])@ != (#[trigger] keys@[l])@,
            forall|k: Seq<char>| #[trigger]
                a@.contains_key(k) <==> a0.contains_key(k) || exists|j: int|
                    0 <= j < i && (#[trigger] keys@[j])@ == k,
            forall|j: int|
                0 <= j < i ==> a@[(#[trigger] keys@[j])@] == times_counted(a0, keys@[j]@)
                    + times_counted(b@, keys@[j]@),
            forall|k: Seq<char>|
                (forall|j: int| 0 <= j < i ==> (#[trigger] keys@[j])@ != k) ==> #[trigger] a@[k]
                    == a0[k],
        decreases keys@.len() - i,
    {
        let ghost key = keys@[i as int]@;
        let ghost before = a@;
        proof {
            assert(b@.contains_key(key));
            assert(forall|j: int| 0 <= j < i ==> (#[trigger] keys@[j])@ != key);
            assert(a@[key] == a0[key]);
            if a@.contains_key(key) {
                assert(a0.contains_key(key));
            }
        }
        let x: usize = match a.get(&keys[i]) {
            Some(n) => n,
            None => 0,
        };
        let y: usize = match b.get(&keys[i]) {
            Some(n) => n,
            None => 0,
        };
        a.insert(keys[i].clone(), x + y);
        i = i + 1;
        proof {
            assert forall|k: Seq<char>| #[trigger] a@.contains_key(k) <==> a0.contains_key(k)
                || exists|j: int| 0 <= j < i && (#[trigger] keys@[j])@ == k by {
                if k == key {
                    assert(keys@[i - 1]@ == k);
                } else {
                    assert(before.contains_key(k) <==> a@.contains_key(k));
                }
            }
            assert forall|k: Seq<char>|
                (forall|j: int| 0 <= j < i ==> (#[trigger] keys@[j])@ != k) implies #[trigger] a@[k]
                == a0[k] by {
                assert(keys@[i - 1]@ != k);
                assert(forall|j: int| 0 <= j < i - 1 ==> (#[trigger] keys@[j])@ != k);
                assert(before[k] == a0[k]);
            }
        }
    }
    proof {
        let goal = skips_joined(a0, b@);
        assert forall|k: Seq<char>| #[trigger] a@.contains_key(k) <==> goal.contains_key(k) by {
            assert(b@.contains_key(k) <==> exists|j: int|
                0 <= j < keys@.len() && (#[trigger] keys@[j])@ == k);
        }
        assert forall|k: Seq<char>| #[trigger] a@.contains_key(k) implies a@[k] == goal[k] by {
            if b@.contains_key(k) {
                let j = choose|j: int| 0 <= j < keys@.len() && (#[trigger] keys@[j])@ == k;
                assert(keys@[j]@ == k);
            } else {
                assert forall|j: int| 0 <= j < i implies (#[trigger] keys@[j])@ != k by {
                    assert(b@.contains_key(keys@[j]@));
                }
                assert(a@[k] == a0[k]);
                assert(a0.contains_key(k));
            }
        }
        assert(a@ =~= goal);
    }
}

impl PaperTrader {
    fn joins(&self, o: &PaperTrader) -> (r: bool)
        ensures
            r == counts_fit(self@, o@),
    {
        o.opportunities_seen <= usize::MAX - self.opportunities_seen && do_skips_fit(
            &self.skips,
            &o.skips,
        ) && self.hybrid_counters.can_take(&o.hybrid_counters) && o.tape.resolved_bars
            <= usize::MAX - self.tape.resolved_bars && o.tape.fallback_bars <= usize::MAX
            - self.tape.fallback_bars && o.tape.walked <= usize::MAX - self.tape.walked
    }

    fn absorb(&mut self, o: &PaperTrader, from: Option<Stamp>)
        requires
            old(self).wf(),
            counts_fit(old(self)@, o@),
        ensures
            final(self).wf(),
            final(self).knobs == old(self).knobs,
            final(self)@ == absorbed(old(self)@, o@, from),
    {
        let ghost b = self@;
        let kept = reported(&o.trades, from);
        self.opportunities_seen = self.opportunities_seen + o.opportunities_seen;
        join_skips(&mut self.skips, &o.skips);
        self.hybrid_counters.merge(&o.hybrid_counters);
        self.tape.resolved_bars = self.tape.resolved_bars + o.tape.resolved_bars;
        self.tape.fallback_bars = self.tape.fallback_bars + o.tape.fallback_bars;
        self.tape.walked = self.tape.walked + o.tape.walked;
        let ghost mid = *self;
        let mut i: usize = 0;
        while i < kept.len()
            invariant
                i <= kept@.len(),
                self.trades@ == b.trades + kept@.take(i as int),
                self.ids@ == (IdMaps {
                    ready: ready_joined(b.ids.ready, o@.ids.ready, kept@, i as nat),
                    ..b.ids
                }),
                *self == (PaperTrader { trades: self.trades, ids: self.ids, ..mid }),
            decreases kept@.len() - i,
        {
            let t = &kept[i];
            match o.ids.trade_ready_at.get(&t.opportunity_id) {
                Some(at) => self.ids.trade_ready_at.insert(t.opportunity_id.clone(), at),
                None => {},
            }
            self.trades.push(t.dup());
            proof {
                assert(kept@.take(i + 1) =~= kept@.take(i as int).push(kept@[i as int]));
                assert(self.trades@ =~= b.trades + kept@.take(i + 1));
            }
            i = i + 1;
        }
        proof {
            assert(kept@.take(kept@.len() as int) =~= kept@);
        }
        let ghost late = *self;
        let mut j: usize = 0;
        while j < o.resting_intervals.len()
            invariant
                j <= o.resting_intervals@.len(),
                self.resting_intervals@ == b.intervals + o.resting_intervals@.take(j as int),
                *self == (PaperTrader { resting_intervals: self.resting_intervals, ..late }),
            decreases o.resting_intervals@.len() - j,
        {
            self.resting_intervals.push(o.resting_intervals[j]);
            proof {
                assert(o.resting_intervals@.take(j + 1) =~= o.resting_intervals@.take(
                    j as int,
                ).push(o.resting_intervals@[j as int]));
                assert(self.resting_intervals@ =~= b.intervals + o.resting_intervals@.take(j + 1));
            }
            j = j + 1;
        }
        proof {
            assert(o.resting_intervals@.take(j as int) =~= o.resting_intervals@);
        }
        self.opportunities_taken = self.trades.len();
    }
}

/// The assets' books in one ledger, in their order: the reported trades with
/// their ready times, and the counts added up. `None` where a count would not
/// fit.
pub fn merge_traders(
    base: PaperTrader,
    traders: &Vec<PaperTrader>,
    from: Option<Stamp>,
) -> (r: Option<PaperTrader>)
    requires
        base.wf(),
    ensures
        r is Some <==> all_fit(base@, traders@, from, traders@.len()),
        r matches Some(m) ==> m.wf() && m.knobs == base.knobs && m@ == all_absorbed(
            base@,
            traders@,
            from,
            traders@.len(),
        ),
{
    let ghost b = base@;
    let ghost knobs = base.knobs;
    let mut merged = base;
    let mut i: usize = 0;
    while i < traders.len()
        invariant
            i <= traders@.len(),
            b == base@,
            merged.wf(),
            merged.knobs == knobs,
            merged@ == all_absorbed(b, traders@, from, i as nat),
            all_fit(b, traders@, from, i as nat),
        decreases traders@.len() - i,
    {
        if !merged.joins(&traders[i]) {
            proof {
                lemma_a_misfit_stays(b, traders@, from, (i + 1) as nat, traders@.len());
            }
            return None;
        }
        merged.absorb(&traders[i], from);
        i = i + 1;
    }
    Some(merged)
}

proof fn lemma_a_misfit_stays(
    b: Book,
    books: Seq<PaperTrader>,
    from: Option<Stamp>,
    n: nat,
    m: nat,
)
    requires
        n <= m,
        !all_fit(b, books, from, n),
    ensures
        !all_fit(b, books, from, m),
    decreases m,
{
    if n < m {
        lemma_a_misfit_stays(b, books, from, n, (m - 1) as nat);
    }
}

/// No reported trade is lost: every trade of every book that was signalled in
/// the window stands in the ledger, behind what the ledger held before.
pub proof fn law_every_reported_trade_is_in_the_ledger(
    b: Book,
    books: Seq<PaperTrader>,
    from: Option<Stamp>,
    n: nat,
    i: int,
    t: PaperTrade,
)
    requires
        0 <= i < n <= books.len(),
        books[i]@.trades.contains(t),
        in_report(t, from),
    ensures
        all_absorbed(b, books, from, n).trades.contains(t),
        all_absorbed(b, books, from, n).trades.take(b.trades.len() as int) == b.trades,
    decreases n,
{
    let before = all_absorbed(b, books, from, (n - 1) as nat);
    let kept = reported_of(books[n - 1]@.trades, from);
    let after = all_absorbed(b, books, from, n).trades;
    assert(after == before.trades + kept);
    lemma_the_ledger_only_grows(b, books, from, n);
    if i == n - 1 {
        broadcast use vstd::seq_lib::group_filter_ensures;

        let p = |t: PaperTrade| in_report(t, from);
        assert(p(t));
        assert(kept.contains(t));
        let j = choose|j: int| 0 <= j < kept.len() && kept[j] == t;
        assert(after[before.trades.len() + j] == t);
    } else {
        law_every_reported_trade_is_in_the_ledger(b, books, from, (n - 1) as nat, i, t);
        let j = choose|j: int| 0 <= j < before.trades.len() && before.trades[j] == t;
        assert(after[j] == t);
    }
}

proof fn lemma_the_ledger_only_grows(
    b: Book,
    books: Seq<PaperTrader>,
    from: Option<Stamp>,
    n: nat,
)
    ensures
        b.trades.len() <= all_absorbed(b, books, from, n).trades.len(),
        all_absorbed(b, books, from, n).trades.take(b.trades.len() as int) == b.trades,
    decreases n,
{
    let after = all_absorbed(b, books, from, n).trades;
    if n == 0 {
        assert(after.take(b.trades.len() as int) =~= b.trades);
    } else {
        lemma_the_ledger_only_grows(b, books, from, (n - 1) as nat);
        let before = all_absorbed(b, books, from, (n - 1) as nat).trades;
        assert(after.take(b.trades.len() as int) =~= before.take(b.trades.len() as int));
    }
}

} // verus!
