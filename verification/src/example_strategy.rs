//! A moving-average crossover, deliberately naive: a known quantity to hold
//! changes of the engine against.
use vstd::prelude::*;
use crate::key::Num;
use crate::models::{
    asset_name, base_name, base_tf_id, has_room, interned, signal_id, tf_name, Candle, Direction,
    Names, Opportunity,
};

verus! {

/// The key of 1.0, the score every crossing has.
pub const FLAT_SCORE: Num = 0x3ff0_0000_0000_0000;

/// The key of the infinite price.
pub const INFINITE: Num = 0x7ff0_0000_0000_0000;

/// Rolling state for one asset.
#[derive(Debug, Clone)]
pub struct AssetState {
    pub asset: u16,
    /// The last bars, oldest first, at most the slow window.
    pub bars: Vec<Candle>,
    /// Whether the fast average was above the slow one; unknown until both
    /// exist.
    pub fast_above: Option<bool>,
}

/// Rolling state for one asset, mathematically.
pub struct StateView {
    pub bars: Seq<Candle>,
    pub fast_above: Option<bool>,
}

/// The averages and stops of a full window. No value: not a number.
#[derive(Debug, Clone, Copy)]
pub struct CrossQuote {
    pub fast_ma: Option<Num>,
    pub slow_ma: Option<Num>,
    /// The stop distance.
    pub risk: Option<Num>,
    /// The stop of a long, and of a short, from this bar's close.
    pub stop_long: Num,
    pub stop_short: Num,
}

/// The bars once one is added to a window of `slow`.
pub open spec fn window_with(bars: Seq<Candle>, c: Candle, slow: nat) -> Seq<Candle> {
    let w = bars.push(c);
    if w.len() > slow {
        w.remove(0)
    } else {
        w
    }
}

/// Whether the fast average is above the slow one.
pub open spec fn above(q: CrossQuote) -> bool {
    match (q.fast_ma, q.slow_ma) {
        (Some(f), Some(s)) => f > s,
        _ => false,
    }
}

/// The stop distance is one that can be divided by.
pub open spec fn usable_risk(q: CrossQuote) -> bool {
    q.risk matches Some(r) && 0 < r < INFINITE
}

/// A state after a bar of its asset.
pub open spec fn advanced(st: StateView, c: Candle, q: CrossQuote, slow: nat) -> StateView {
    let bars = window_with(st.bars, c, slow);
    StateView {
        bars,
        fast_above: if bars.len() < slow {
            st.fast_above
        } else {
            Some(above(q))
        },
    }
}

/// A bar crosses: the window is full, a sign was known, and it changed.
pub open spec fn crosses(st: StateView, c: Candle, q: CrossQuote, slow: nat) -> bool {
    &&& window_with(st.bars, c, slow).len() >= slow
    &&& (st.fast_above matches Some(was) && was != above(q))
    &&& usable_risk(q)
}

/// The place of an asset's state, at or after `from`.
pub open spec fn state_at(list: Seq<AssetState>, asset: u16, from: int) -> int
    decreases list.len() - from,
{
    if from >= list.len() || list[from].asset == asset {
        from
    } else {
        state_at(list, asset, from + 1)
    }
}

/// A moving-average crossover.
#[derive(Debug, Clone)]
pub struct MaCrossover {
    pub fast: usize,
    pub slow: usize,
    /// Stop distance as a multiple of the mean range over the slow window.
    pub stop_atr_mult: Num,
    pub state: Vec<AssetState>,
}

/// The key of 2.0.
pub const DEFAULT_STOP_MULT: Num = 0x4000_0000_0000_0000;

/// The word of a crossing.
pub open spec fn crossing_word(up: bool) -> Seq<char> {
    if up {
        "ma_cross_up"@
    } else {
        "ma_cross_down"@
    }
}

/// Bars of another grain than the base, and bars still forming, are not
/// looked at.
pub open spec fn looked_at(names: Names, c: Candle) -> bool {
    &&& c.complete
    &&& c.timeframe < names.timeframes@.len()
    &&& names.timeframes@[c.timeframe as int] == base_name(names)
}

impl MaCrossover {
    /// The windows are usable and no asset has two states or too many bars.
    pub open spec fn wf(&self) -> bool {
        &&& 0 < self.fast < self.slow
        &&& forall|i: int| 0 <= i < self.state@.len() ==> (#[trigger] self.state@[i]).bars@.len()
            <= self.slow
        &&& forall|i: int, j: int|
            0 <= i < j < self.state@.len() ==> (#[trigger] self.state@[i]).asset != (
            #[trigger] self.state@[j]).asset
    }

    /// What is known of an asset.
    pub open spec fn of(&self, asset: u16) -> StateView {
        let i = state_at(self.state@, asset, 0);
        if i < self.state@.len() {
            StateView { bars: self.state@[i].bars@, fast_above: self.state@[i].fast_above }
        } else {
            StateView { bars: Seq::empty(), fast_above: None }
        }
    }

    /// A crossover with the given windows, in base-timeframe bars.
    pub fn new(fast: usize, slow: usize, stop_atr_mult: Num) -> (r: Self)
        requires
            0 < fast < slow,
        ensures
            r.wf(),
            r.fast == fast,
            r.slow == slow,
            r.stop_atr_mult == stop_atr_mult,
            forall|asset: u16|
                (#[trigger] r.of(asset)) == (StateView { bars: Seq::empty(), fast_above: None }),
    {
        MaCrossover { fast, slow, stop_atr_mult, state: Vec::new() }
    }

    fn find(&self, asset: u16) -> (r: usize)
        ensures
            r <= self.state@.len(),
            r == state_at(self.state@, asset, 0),
            r < self.state@.len() ==> self.state@[r as int].asset == asset,
            r == self.state@.len() ==> forall|i: int|
                0 <= i < self.state@.len() ==> (#[trigger] self.state@[i]).asset != asset,
    {
        let mut i: usize = 0;
        while i < self.state.len() && self.state[i].asset != asset
            invariant
                i <= self.state@.len(),
                state_at(self.state@, asset, i as int) == state_at(self.state@, asset, 0),
                forall|k: int| 0 <= k < i ==> (#[trigger] self.state@[k]).asset != asset,
            decreases self.state@.len() - i,
        {
            i = i + 1;
        }
        i
    }

    /// The bars the averages of a candle are taken over: the last `fast` of
    /// them for the fast one, all for the slow. None while warming up, and
    /// for a candle that is not looked at.
    pub fn window(&self, names: &Names, candle: &Candle) -> (r: Option<Vec<Candle>>)
        requires
            self.wf(),
            names.wf(),
        ensures
            r is Some <==> looked_at(*names, *candle) && window_with(
                self.of(candle.asset).bars,
                *candle,
                self.slow as nat,
            ).len() >= self.slow,
            r matches Some(bars) ==> bars@ == window_with(
                self.of(candle.asset).bars,
                *candle,
                self.slow as nat,
            ) && bars@.len() == self.slow,
    {
        if !on_base(names, candle) {
            return None;
        }
        let i: usize = self.find(candle.asset);
        let mut out: Vec<Candle> = Vec::new();
        if i < self.state.len() {
            let mut k: usize = 0;
            while k < self.state[i].bars.len()
                invariant
                    i < self.state@.len(),
                    k <= self.state@[i as int].bars@.len(),
                    out@ == self.state@[i as int].bars@.take(k as int),
                decreases self.state@[i as int].bars@.len() - k,
            {
                out.push(self.state[i].bars[k]);
                k = k + 1;
                proof {
                    assert(out@ =~= self.state@[i as int].bars@.take(k as int));
                }
            }
        }
        proof {
            assert(out@ =~= self.of(candle.asset).bars);
        }
        out.push(*candle);
        if out.len() > self.slow {
            out.remove(0);
        }
        if out.len() < self.slow {
            None
        } else {
            Some(out)
        }
    }

    /// A candle arrives. What the strategy emits: at a crossing one
    /// opportunity at the close, stopped on the far side.
    pub fn on_candle(&mut self, names: &mut Names, candle: &Candle, quote: &CrossQuote) -> (r: Vec<
        Opportunity,
    >)
        requires
            old(self).wf(),
            old(names).wf(),
            candle.asset < old(names).assets@.len(),
            has_room(old(names).sig_types@, "ma_cross_up"@),
            has_room(old(names).sig_types@, "ma_cross_down"@),
        ensures
            final(self).wf(),
            final(names).wf(),
            final(self).fast == old(self).fast,
            final(self).slow == old(self).slow,
            final(self).stop_atr_mult == old(self).stop_atr_mult,
            forall|asset: u16|
                asset != candle.asset || !looked_at(*old(names), *candle) ==> (
                #[trigger] final(self).of(asset)) == old(self).of(asset),
            looked_at(*old(names), *candle) ==> final(self).of(candle.asset) == advanced(
                old(self).of(candle.asset),
                *candle,
                *quote,
                old(self).slow as nat,
            ),
            ({
                let up = above(*quote);
                if looked_at(*old(names), *candle) && crosses(
                    old(self).of(candle.asset),
                    *candle,
                    *quote,
                    old(self).slow as nat,
                ) {
                    &&& r@.len() == 1
                    &&& final(names).sig_types@ == interned(old(names).sig_types@, crossing_word(up))
                    &&& final(names).assets@ == old(names).assets@
                    &&& final(names).timeframes@ == old(names).timeframes@
                    &&& final(names).base_tf == old(names).base_tf
                    &&& final(names).signal_counter == (old(names).signal_counter + 1)
                        % 0x1_0000_0000_0000_0000
                    &&& r@[0].id@ == signal_id(old(names).signal_counter as nat)
                    &&& r@[0].signal_type < final(names).sig_types@.len()
                    &&& final(names).sig_types@[r@[0].signal_type as int] == crossing_word(up)
                    &&& r@[0].asset == candle.asset
                    &&& r@[0].timeframe == candle.timeframe
                    &&& r@[0].direction == (if up {
                        Direction::Bull
                    } else {
                        Direction::Bear
                    })
                    &&& r@[0].created_at == candle.timestamp
                    &&& r@[0].score == FLAT_SCORE
                    &&& !r@[0].developing
                    &&& !r@[0].invalidated
                    &&& r@[0].invalidation_reason is None
                    &&& r@[0].target is None
                    &&& r@[0].entry == Some(candle.close)
                    &&& r@[0].stop == Some(
                        if up {
                            quote.stop_long
                        } else {
                            quote.stop_short
                        },
                    )
                } else {
                    r@.len() == 0 && *final(names) == *old(names)
                }
            }),
    {
        if !on_base(names, candle) {
            return Vec::new();
        }
        let ghost s0 = *self;
        let ghost before = self.of(candle.asset);
        let i: usize = self.find(candle.asset);
        if i == self.state.len() {
            self.state.push(
                AssetState { asset: candle.asset, bars: Vec::new(), fast_above: None },
            );
            proof {
                assert(self.state@.drop_last() =~= s0.state@);
                lemma_pushed(s0.state@, self.state@[i as int], candle.asset);
            }
        }
        let ghost s1 = *self;
        let now_above = match (quote.fast_ma, quote.slow_ma) {
            (Some(f), Some(s)) => f > s,
            _ => false,
        };
        let mut st = self.state.remove(i);
        st.bars.push(*candle);
        if st.bars.len() > self.slow {
            st.bars.remove(0);
        }
        let full = st.bars.len() >= self.slow;
        let was = st.fast_above;
        if full {
            st.fast_above = Some(now_above);
        }
        self.state.insert(i, st);
        proof {
            assert(self.state@ =~= s1.state@.update(i as int, st));
            lemma_updated(s1.state@, i as int, st);
            let now = self.of(candle.asset);
            assert(now.bars =~= window_with(before.bars, *candle, s0.slow as nat));
            assert forall|asset: u16| asset != candle.asset implies (#[trigger] self.of(asset))
                == s0.of(asset) by {
                lemma_updated_elsewhere(s1.state@, i as int, st, asset);
                lemma_grown(s0.state@, s1.state@, candle.asset, asset);
            }
        }
        if !full {
            return Vec::new();
        }
        let crossed = match was {
            Some(w) => w != now_above,
            None => false,
        };
        let usable = match quote.risk {
            Some(r) => 0 < r && r < INFINITE,
            None => false,
        };
        if !crossed || !usable {
            return Vec::new();
        }
        let asset = asset_name(names, candle.asset);
        let tf = tf_name(names, candle.timeframe);
        let (word, direction, stop) = if now_above {
            ("ma_cross_up", Direction::Bull, quote.stop_long)
        } else {
            ("ma_cross_down", Direction::Bear, quote.stop_short)
        };
        let ghost n0 = *names;
        let o = Opportunity::new(
            names,
            word,
            asset.as_str(),
            tf.as_str(),
            direction,
            candle.timestamp,
        );
        let o = o.with_score(FLAT_SCORE).with_entry_stop(candle.close, stop);
        proof {
            assert(n0.assets@.contains(asset@));
            assert(n0.timeframes@.contains(tf@));
        }
        let mut out: Vec<Opportunity> = Vec::new();
        out.push(o);
        out
    }
}

impl Default for MaCrossover {
    /// 20 bars against 60, stopping at twice the mean range.
    fn default() -> (r: Self)
        ensures
            r.wf(),
            r.fast == 20,
            r.slow == 60,
            r.stop_atr_mult == DEFAULT_STOP_MULT,
            r.state@.len() == 0,
    {
        MaCrossover { fast: 20, slow: 60, stop_atr_mult: DEFAULT_STOP_MULT, state: Vec::new() }
    }
}

fn on_base(names: &Names, candle: &Candle) -> (r: bool)
    requires
        names.wf(),
    ensures
        r == looked_at(*names, *candle),
{
    candle.timeframe == base_tf_id(names) && candle.complete
}

proof fn lemma_pushed(list: Seq<AssetState>, st: AssetState, asset: u16)
    requires
        state_at(list, asset, 0) == list.len(),
        st.asset == asset,
    ensures
        state_at(list.push(st), asset, 0) == list.len(),
{
    lemma_pushed_from(list, st, asset, 0);
}

proof fn lemma_pushed_from(list: Seq<AssetState>, st: AssetState, asset: u16, from: int)
    requires
        0 <= from <= list.len(),
        state_at(list, asset, from) == list.len(),
        st.asset == asset,
    ensures
        state_at(list.push(st), asset, from) == list.len(),
    decreases list.len() - from,
{
    if from < list.len() {
        lemma_pushed_from(list, st, asset, from + 1);
    }
}

proof fn lemma_updated(list: Seq<AssetState>, i: int, st: AssetState)
    requires
        0 <= i < list.len(),
        state_at(list, st.asset, 0) == i,
    ensures
        state_at(list.update(i, st), st.asset, 0) == i,
{
    lemma_updated_from(list, i, st, 0);
}

proof fn lemma_updated_from(list: Seq<AssetState>, i: int, st: AssetState, from: int)
    requires
        0 <= from <= i < list.len(),
        state_at(list, st.asset, from) == i,
    ensures
        state_at(list.update(i, st), st.asset, from) == i,
    decreases list.len() - from,
{
    if from < i {
        lemma_updated_from(list, i, st, from + 1);
    }
}

proof fn lemma_updated_elsewhere(list: Seq<AssetState>, i: int, st: AssetState, asset: u16)
    requires
        0 <= i < list.len(),
        list[i].asset == st.asset,
        asset != st.asset,
    ensures
        state_at(list.update(i, st), asset, 0) == state_at(list, asset, 0),
        state_at(list, asset, 0) < list.len() ==> state_at(list, asset, 0) != i && 0 <= state_at(
            list,
            asset,
            0,
        ),
{
    lemma_elsewhere_from(list, i, st, asset, 0);
}

proof fn lemma_elsewhere_from(
    list: Seq<AssetState>,
    i: int,
    st: AssetState,
    asset: u16,
    from: int,
)
    requires
        0 <= i < list.len(),
        0 <= from <= list.len(),
        list[i].asset == st.asset,
        asset != st.asset,
    ensures
        state_at(list.update(i, st), asset, from) == state_at(list, asset, from),
        from <= state_at(list, asset, from) <= list.len(),
        state_at(list, asset, from) != i,
    decreases list.len() - from,
{
    if from < list.len() && list[from].asset != asset {
        lemma_elsewhere_from(list, i, st, asset, from + 1);
    }
}

proof fn lemma_grown(a: Seq<AssetState>, b: Seq<AssetState>, new: u16, asset: u16)
    requires
        asset != new,
        b == a || (b.len() == a.len() + 1 && b.drop_last() == a && b.last().asset == new),
    ensures
        state_at(a, asset, 0) < a.len() ==> state_at(b, asset, 0) == state_at(a, asset, 0),
        state_at(a, asset, 0) >= a.len() ==> state_at(b, asset, 0) >= b.len(),
        state_at(a, asset, 0) < a.len() ==> 0 <= state_at(a, asset, 0) && b[state_at(a, asset, 0)]
            == a[state_at(a, asset, 0)],
{
    if b != a {
        lemma_grown_from(a, b, new, asset, 0);
    } else {
        lemma_in_range(a, asset, 0);
    }
}

proof fn lemma_in_range(a: Seq<AssetState>, asset: u16, from: int)
    requires
        0 <= from <= a.len(),
    ensures
        from <= state_at(a, asset, from) <= a.len(),
    decreases a.len() - from,
{
    if from < a.len() && a[from].asset != asset {
        lemma_in_range(a, asset, from + 1);
    }
}

proof fn lemma_grown_from(
    a: Seq<AssetState>,
    b: Seq<AssetState>,
    new: u16,
    asset: u16,
    from: int,
)
    requires
        asset != new,
        0 <= from <= a.len(),
        b.len() == a.len() + 1,
        b.drop_last() == a,
        b.last().asset == new,
    ensures
        from <= state_at(a, asset, from) <= a.len(),
        state_at(a, asset, from) < a.len() ==> state_at(b, asset, from) == state_at(a, asset, from)
            && b[state_at(a, asset, from)] == a[state_at(a, asset, from)],
        state_at(a, asset, from) == a.len() ==> state_at(b, asset, from) == b.len(),
    decreases a.len() - from,
{
    if from < a.len() {
        assert(b[from] == a[from]);
        if a[from].asset != asset {
            lemma_grown_from(a, b, new, asset, from + 1);
        }
    } else {
        assert(b[a.len() as int].asset == new);
        assert(state_at(b, asset, from + 1) == b.len());
    }
}

// ─── Laws ───────────────────────────────────────────────────────────────────

/// One bar of a stream, with its averages and stops.
pub type Event = (Candle, CrossQuote);

/// The bars of an asset that count among the first `n` of a stream.
pub open spec fn own_events(names: Names, events: Seq<Event>, asset: u16, n: nat) -> Seq<Event>
    decreases n,
{
    if n == 0 {
        Seq::empty()
    } else {
        let rest = own_events(names, events, asset, (n - 1) as nat);
        let e = events[n - 1];
        if looked_at(names, e.0) && e.0.asset == asset {
            rest.push(e)
        } else {
            rest
        }
    }
}

/// An asset's state after the first `n` bars of a stream: [`MaCrossover::on_candle`]
/// moves it by a bar of the asset that is looked at, and by no other.
pub open spec fn streamed(
    names: Names,
    events: Seq<Event>,
    asset: u16,
    slow: nat,
    n: nat,
) -> StateView
    decreases n,
{
    if n == 0 {
        StateView { bars: Seq::empty(), fast_above: None }
    } else {
        let st = streamed(names, events, asset, slow, (n - 1) as nat);
        let e = events[n - 1];
        if looked_at(names, e.0) && e.0.asset == asset {
            advanced(st, e.0, e.1, slow)
        } else {
            st
        }
    }
}

/// The last `m` bars of a list, or all where it is shorter.
pub open spec fn last_bars(events: Seq<Event>, m: nat) -> Seq<Candle> {
    let bars = events.map_values(|e: Event| e.0);
    if bars.len() <= m {
        bars
    } else {
        bars.subrange(bars.len() - m, bars.len() as int)
    }
}

proof fn lemma_window_slides(own: Seq<Event>, e: Event, slow: nat)
    requires
        0 < slow,
    ensures
        window_with(last_bars(own, slow), e.0, slow) == last_bars(own.push(e), slow),
{
    let w = window_with(last_bars(own, slow), e.0, slow);
    assert(own.push(e).map_values(|e: Event| e.0) =~= own.map_values(|e: Event| e.0).push(e.0));
    assert(w =~= last_bars(own.push(e), slow));
}

proof fn lemma_streamed(names: Names, events: Seq<Event>, asset: u16, slow: nat, n: nat)
    requires
        0 < slow,
        n <= events.len(),
    ensures
        ({
            let own = own_events(names, events, asset, n);
            let st = streamed(names, events, asset, slow, n);
            &&& st.bars == last_bars(own, slow)
            &&& st.fast_above == (if own.len() < slow {
                None
            } else {
                Some(above(own.last().1))
            })
        }),
    decreases n,
{
    if n == 0 {
        let none = own_events(names, events, asset, 0);
        assert(last_bars(none, slow) =~= Seq::empty());
    } else {
        lemma_streamed(names, events, asset, slow, (n - 1) as nat);
        let e = events[n - 1];
        if looked_at(names, e.0) && e.0.asset == asset {
            let own = own_events(names, events, asset, (n - 1) as nat);
            lemma_window_slides(own, e, slow);
        }
    }
}

/// Over a whole stream, whatever assets and grains it mixes, a bar that is
/// looked at emits exactly when at least `slow` bars of its asset came before
/// it, the sign of the averages changed against the last of them, and the
/// risk is usable. The averages are taken over the asset's own last bars, this
/// one included.
pub proof fn law_a_stream_emits_at_each_crossing(
    names: Names,
    events: Seq<Event>,
    slow: nat,
    n: nat,
)
    requires
        0 < slow,
        n < events.len(),
        looked_at(names, events[n as int].0),
    ensures
        ({
            let (c, q) = events[n as int];
            let own = own_events(names, events, c.asset, n);
            let st = streamed(names, events, c.asset, slow, n);
            &&& crosses(st, c, q, slow) <==> own.len() >= slow && above(q) != above(own.last().1)
                && usable_risk(q)
            &&& window_with(st.bars, c, slow) == last_bars(own.push((c, q)), slow)
        }),
{
    let (c, q) = events[n as int];
    let own = own_events(names, events, c.asset, n);
    lemma_streamed(names, events, c.asset, slow, n);
    lemma_window_slides(own, events[n as int], slow);
}

/// A bar of another asset, of another grain, or still forming changes nothing
/// for an asset: what the asset's later bars emit is the same without it.
pub proof fn law_other_bars_change_nothing(
    names: Names,
    events: Seq<Event>,
    asset: u16,
    slow: nat,
    at: nat,
    n: nat,
)
    requires
        at < n <= events.len(),
        !(looked_at(names, events[at as int].0) && events[at as int].0.asset == asset),
    ensures
        streamed(names, events.remove(at as int), asset, slow, (n - 1) as nat) == streamed(
            names,
            events,
            asset,
            slow,
            n,
        ),
    decreases n,
{
    let without = events.remove(at as int);
    if n == at + 1 {
        lemma_same_start(names, events, without, asset, slow, at);
    } else {
        law_other_bars_change_nothing(names, events, asset, slow, at, (n - 1) as nat);
        assert(without[n - 2] == events[n - 1]);
    }
}

proof fn lemma_same_start(
    names: Names,
    a: Seq<Event>,
    b: Seq<Event>,
    asset: u16,
    slow: nat,
    n: nat,
)
    requires
        forall|i: int| 0 <= i < n ==> a[i] == #[trigger] b[i],
    ensures
        streamed(names, a, asset, slow, n) == streamed(names, b, asset, slow, n),
    decreases n,
{
    if n > 0 {
        lemma_same_start(names, a, b, asset, slow, (n - 1) as nat);
        assert(a[n - 1] == b[n - 1]);
    }
}

/// Nothing is emitted until the slow window is full, and the bar that fills it
/// only establishes the sign.
pub proof fn law_silent_until_the_window_is_full(
    names: Names,
    events: Seq<Event>,
    slow: nat,
    n: nat,
)
    requires
        0 < slow,
        n < slow,
        n < events.len(),
        looked_at(names, events[n as int].0),
    ensures
        !crosses(
            streamed(names, events, events[n as int].0.asset, slow, n),
            events[n as int].0,
            events[n as int].1,
            slow,
        ),
{
    let asset = events[n as int].0.asset;
    law_a_stream_emits_at_each_crossing(names, events, slow, n);
    lemma_own_are_fewer(names, events, asset, n);
}

proof fn lemma_own_are_fewer(names: Names, events: Seq<Event>, asset: u16, n: nat)
    ensures
        own_events(names, events, asset, n).len() <= n,
    decreases n,
{
    if n > 0 {
        lemma_own_are_fewer(names, events, asset, (n - 1) as nat);
    }
}

/// A series on which the fast average of an asset stays on one side never
/// crosses.
pub proof fn law_one_sided_series_never_cross(
    names: Names,
    events: Seq<Event>,
    slow: nat,
    n: nat,
    side: bool,
)
    requires
        0 < slow,
        n < events.len(),
        looked_at(names, events[n as int].0),
        forall|i: int|
            0 <= i < events.len() && (#[trigger] events[i]).0.asset == events[n as int].0.asset
                ==> above(events[i].1) == side,
    ensures
        !crosses(
            streamed(names, events, events[n as int].0.asset, slow, n),
            events[n as int].0,
            events[n as int].1,
            slow,
        ),
{
    law_a_stream_emits_at_each_crossing(names, events, slow, n);
    lemma_own_sided(names, events, events[n as int].0.asset, n, side);
}

proof fn lemma_own_sided(names: Names, events: Seq<Event>, asset: u16, n: nat, side: bool)
    requires
        n <= events.len(),
        forall|i: int|
            0 <= i < events.len() && (#[trigger] events[i]).0.asset == asset ==> above(events[i].1)
                == side,
    ensures
        forall|i: int|
            0 <= i < own_events(names, events, asset, n).len() ==> above(
                (#[trigger] own_events(names, events, asset, n)[i]).1,
            ) == side,
    decreases n,
{
    if n > 0 {
        lemma_own_sided(names, events, asset, (n - 1) as nat, side);
        let rest = own_events(names, events, asset, (n - 1) as nat);
        let own = own_events(names, events, asset, n);
        assert forall|i: int| 0 <= i < own.len() implies above((#[trigger] own[i]).1) == side by {
            if i < rest.len() {
                assert(own[i] == rest[i]);
            } else {
                assert(own[i] == events[n - 1]);
            }
        }
    }
}

/// A bar crosses when the fast average was on one side of the slow one and is
/// now on the other: above is strictly greater, and an average that is missing
/// is above nothing. The risk must be positive and finite.
pub proof fn law_a_crossing_changes_sides(
    st: StateView,
    c: Candle,
    fast: Num,
    slow_ma: Num,
    q: CrossQuote,
    slow: nat,
)
    requires
        st.bars.len() <= slow,
    ensures
        ({
            let q1 = CrossQuote { fast_ma: Some(fast), slow_ma: Some(slow_ma), ..q };
            let risky = q.risk is Some && q.risk->0 > 0 && q.risk->0 < 0x7ff0_0000_0000_0000;
            let full = st.bars.len() + 1 >= slow;
            &&& crosses(st, c, q1, slow) <==> full && risky && ((st.fast_above == Some(true)
                && fast <= slow_ma) || (st.fast_above == Some(false) && fast > slow_ma))
            &&& full ==> advanced(st, c, q1, slow).fast_above == Some(fast > slow_ma)
            &&& !full ==> advanced(st, c, q1, slow).fast_above == st.fast_above
            &&& advanced(st, c, q1, slow).bars.last() == c || slow == 0
            &&& advanced(st, c, q1, slow).bars.len() == if st.bars.len() < slow {
                st.bars.len() + 1
            } else {
                slow
            }
        }),
        q.fast_ma is None || q.slow_ma is None ==> !above(q),
{
}

/// A bar is looked at when it is complete and on the base timeframe: the one
/// that is set, or one minute where none is.
pub proof fn law_only_complete_base_bars_are_looked_at(names: Names, c: Candle)
    requires
        c.timeframe < names.timeframes@.len(),
    ensures
        looked_at(names, c) <==> c.complete && names.timeframes@[c.timeframe as int]
            == if names.base_tf is Some {
            names.timeframes@[names.base_tf->0 as int]
        } else {
            "1m"@
        },
{
}

} // verus!
