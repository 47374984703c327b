//! The engine's data: interned names, candles, ticks, opportunities, trades.
use vstd::prelude::*;
use crate::clock::{on_calendar, seconds_between, whole_seconds, Stamp};
use crate::key::Num;
use crate::text::{str_eq, string_of};

verus! {

// ─── Interned names ─────────────────────────────────────────────────────────

/// How many names a pool can give an id to.
pub const POOL_CAP: usize = 65536;

/// Names in the order in which they were first seen; a name's id is its place.
#[derive(Debug, Clone)]
pub struct InternPool {
    pub names: Vec<String>,
}

impl View for InternPool {
    type V = Seq<Seq<char>>;

    open spec fn view(&self) -> Seq<Seq<char>> {
        Seq::new(self.names@.len(), |i: int| self.names@[i]@)
    }
}

/// The pool after a name was asked for: unchanged when it held the name, with
/// the name at its end when it did not.
pub open spec fn interned(pool: Seq<Seq<char>>, name: Seq<char>) -> Seq<Seq<char>> {
    if pool.contains(name) {
        pool
    } else {
        pool.push(name)
    }
}

/// Whether the pool can answer for this name.
pub open spec fn has_room(pool: Seq<Seq<char>>, name: Seq<char>) -> bool {
    pool.contains(name) || pool.len() < POOL_CAP
}

impl InternPool {
    /// No name occurs twice, and every place fits an id.
    pub open spec fn wf(&self) -> bool {
        self@.no_duplicates() && self@.len() <= POOL_CAP
    }

    /// The empty pool.
    pub fn new() -> (r: Self)
        ensures
            r.wf(),
            r@ == Seq::<Seq<char>>::empty(),
    {
        let r = InternPool { names: Vec::new() };
        proof {
            assert(r@ =~= Seq::<Seq<char>>::empty());
        }
        r
    }

    /// The id a name already has.
    pub fn find(&self, name: &str) -> (r: Option<u16>)
        requires
            self.wf(),
        ensures
            r is Some <==> self@.contains(name@),
            r matches Some(id) ==> id < self@.len() && self@[id as int] == name@,
    {
        let mut i: usize = 0;
        while i < self.names.len()
            invariant
                self.wf(),
                i <= self.names.len(),
                forall|j: int| 0 <= j < i ==> #[trigger] self@[j] != name@,
            decreases self.names.len() - i,
        {
            assert(self@[i as int] == self.names@[i as int]@);
            if str_eq(self.names[i].as_str(), name) {
                assert(self@.contains(name@));
                return Some(i as u16);
            }
            i = i + 1;
        }
        None
    }

    /// Whether the pool can answer for this name.
    pub fn can_hold(&self, name: &str) -> (r: bool)
        requires
            self.wf(),
        ensures
            r == has_room(self@, name@),
    {
        self.names.len() < POOL_CAP || self.find(name).is_some()
    }

    /// The id of a name, given to it now if it has none.
    pub fn id(&mut self, name: &str) -> (r: u16)
        requires
            old(self).wf(),
            has_room(old(self)@, name@),
        ensures
            final(self).wf(),
            final(self)@ == interned(old(self)@, name@),
            r < final(self)@.len(),
            final(self)@[r as int] == name@,
    {
        match self.find(name) {
            Some(id) => id,
            None => {
                let id: usize = self.names.len();
                self.names.push(name.to_owned());
                proof {
                    assert(self@ =~= old(self)@.push(name@));
                    assert forall|i: int, j: int|
                        0 <= i < self@.len() && 0 <= j < self@.len() && i != j implies self@[i]
                        != self@[j] by {
                        if i < id && j < id {
                            assert(old(self)@[i] != old(self)@[j]);
                        } else if i < id {
                            assert(old(self)@[i] != name@);
                        } else {
                            assert(old(self)@[j] != name@);
                        }
                    }
                }
                id as u16
            },
        }
    }

    /// The name an id was given to.
    pub fn name(&self, id: u16) -> (r: String)
        requires
            id < self@.len(),
        ensures
            r@ == self@[id as int],
    {
        self.names[id as usize].clone()
    }
}

/// An id keeps its name whatever is interned after it.
pub proof fn law_ids_are_stable(pool: Seq<Seq<char>>, name: Seq<char>, id: int)
    requires
        0 <= id < pool.len(),
    ensures
        interned(pool, name)[id] == pool[id],
{
}

/// Asking for the same name again changes nothing.
pub proof fn law_interning_is_idempotent(pool: Seq<Seq<char>>, name: Seq<char>)
    ensures
        interned(interned(pool, name), name) == interned(pool, name),
{
    if !pool.contains(name) {
        assert(pool.push(name)[pool.len() as int] == name);
    }
}

/// Two ids stand for one name exactly when they are the same id.
pub proof fn law_ids_are_distinct(pool: InternPool, a: int, b: int)
    requires
        pool.wf(),
        0 <= a < pool@.len(),
        0 <= b < pool@.len(),
    ensures
        pool@[a] == pool@[b] <==> a == b,
{
}

/// Everything a run interns, its base interval and its signal counter.
#[derive(Debug, Clone)]
pub struct Names {
    pub sig_types: InternPool,
    pub assets: InternPool,
    pub timeframes: InternPool,
    pub base_tf: Option<u16>,
    pub signal_counter: u64,
}

impl Names {
    /// The pools are well formed, the one-minute and five-minute timeframes
    /// stand at their fixed places, and a base interval that was set is known.
    pub open spec fn wf(&self) -> bool {
        &&& self.sig_types.wf()
        &&& self.assets.wf()
        &&& self.timeframes.wf()
        &&& self.timeframes@.len() >= 2
        &&& self.timeframes@[0] == "1m"@
        &&& self.timeframes@[1] == "5m"@
        &&& (self.base_tf matches Some(b) ==> b < self.timeframes@.len())
    }

    /// Fresh pools: no asset or signal type, the base interval not set.
    pub fn new() -> (r: Self)
        ensures
            r.wf(),
            r.sig_types@ == Seq::<Seq<char>>::empty(),
            r.assets@ == Seq::<Seq<char>>::empty(),
            r.timeframes@ == seq!["1m"@, "5m"@],
            r.base_tf is None,
            r.signal_counter == 0,
    {
        let mut timeframes = InternPool::new();
        timeframes.id("1m");
        proof {
            reveal_strlit("1m");
            reveal_strlit("5m");
            assert(timeframes@ =~= seq!["1m"@]);
            assert("1m"@[0] != "5m"@[0]);
        }
        timeframes.id("5m");
        proof {
            assert(timeframes@ =~= seq!["1m"@, "5m"@]);
        }
        Names {
            sig_types: InternPool::new(),
            assets: InternPool::new(),
            timeframes,
            base_tf: None,
            signal_counter: 0,
        }
    }
}

/// The id of a signal type.
pub fn sig_type_id(names: &mut Names, name: &str) -> (r: u16)
    requires
        old(names).wf(),
        has_room(old(names).sig_types@, name@),
    ensures
        final(names).wf(),
        final(names).sig_types@ == interned(old(names).sig_types@, name@),
        r < final(names).sig_types@.len(),
        final(names).sig_types@[r as int] == name@,
        final(names).assets == old(names).assets,
        final(names).timeframes == old(names).timeframes,
        final(names).base_tf == old(names).base_tf,
        final(names).signal_counter == old(names).signal_counter,
{
    names.sig_types.id(name)
}

/// The signal type an id was given to.
pub fn sig_type_name(names: &Names, id: u16) -> (r: String)
    requires
        id < names.sig_types@.len(),
    ensures
        r@ == names.sig_types@[id as int],
{
    names.sig_types.name(id)
}

/// The id of an asset.
pub fn asset_id(names: &mut Names, name: &str) -> (r: u16)
    requires
        old(names).wf(),
        has_room(old(names).assets@, name@),
    ensures
        final(names).wf(),
        final(names).assets@ == interned(old(names).assets@, name@),
        r < final(names).assets@.len(),
        final(names).assets@[r as int] == name@,
        final(names).sig_types == old(names).sig_types,
        final(names).timeframes == old(names).timeframes,
        final(names).base_tf == old(names).base_tf,
        final(names).signal_counter == old(names).signal_counter,
{
    names.assets.id(name)
}

/// The asset an id was given to.
pub fn asset_name(names: &Names, id: u16) -> (r: String)
    requires
        id < names.assets@.len(),
    ensures
        r@ == names.assets@[id as int],
{
    names.assets.name(id)
}

/// The id of a timeframe.
pub fn tf_id(names: &mut Names, name: &str) -> (r: u16)
    requires
        old(names).wf(),
        has_room(old(names).timeframes@, name@),
    ensures
        final(names).wf(),
        final(names).timeframes@ == interned(old(names).timeframes@, name@),
        r < final(names).timeframes@.len(),
        final(names).timeframes@[r as int] == name@,
        final(names).sig_types == old(names).sig_types,
        final(names).assets == old(names).assets,
        final(names).base_tf == old(names).base_tf,
        final(names).signal_counter == old(names).signal_counter,
{
    names.timeframes.id(name)
}

/// The timeframe an id was given to.
pub fn tf_name(names: &Names, id: u16) -> (r: String)
    requires
        id < names.timeframes@.len(),
    ensures
        r@ == names.timeframes@[id as int],
{
    names.timeframes.name(id)
}

/// The id of the literal one-minute timeframe, whatever the base interval is.
pub fn tf_1m_id(names: &Names) -> (r: u16)
    requires
        names.wf(),
    ensures
        r < names.timeframes@.len(),
        names.timeframes@[r as int] == "1m"@,
{
    0
}

/// `tf` is the id of a timeframe with this name.
pub open spec fn is_named(names: Names, tf: u16, name: Seq<char>) -> bool {
    tf < names.timeframes@.len() && names.timeframes@[tf as int] == name
}

/// Whether `tf` is the literal one-minute timeframe.
pub fn is_1m(names: &Names, tf: u16) -> (r: bool)
    requires
        names.wf(),
    ensures
        r == is_named(*names, tf, "1m"@),
{
    tf == 0
}

/// Whether `tf` is the literal five-minute timeframe.
pub fn is_5m(names: &Names, tf: u16) -> (r: bool)
    requires
        names.wf(),
    ensures
        r == is_named(*names, tf, "5m"@),
{
    tf == 1
}

/// The pools once a base interval was set: it has an id, which is the base
/// one, and nothing else changed.
pub open spec fn base_set(before: Names, interval: Seq<char>, after: Names) -> bool {
    &&& after.timeframes@ == interned(before.timeframes@, interval)
    &&& after.base_tf matches Some(b) && is_named(after, b, interval)
    &&& after.sig_types == before.sig_types
    &&& after.assets == before.assets
    &&& after.signal_counter == before.signal_counter
}

/// Set the base (smallest) timeframe of the run.
pub fn set_base_interval(names: &mut Names, interval: &str)
    requires
        old(names).wf(),
        has_room(old(names).timeframes@, interval@),
    ensures
        final(names).wf(),
        base_set(*old(names), interval@, *final(names)),
{
    let id: u16 = names.timeframes.id(interval);
    names.base_tf = Some(id);
}

/// The name of the base interval: "1m" until one is set.
pub open spec fn base_name(names: Names) -> Seq<char> {
    match names.base_tf {
        Some(b) => names.timeframes@[b as int],
        None => "1m"@,
    }
}

/// The id of the base interval: the one it was set to, or that of one minute.
pub open spec fn base_id(names: Names) -> u16 {
    match names.base_tf {
        Some(b) => b,
        None => 0,
    }
}

/// The id of the base interval.
pub fn base_tf_id(names: &Names) -> (r: u16)
    requires
        names.wf(),
    ensures
        r == base_id(*names),
        is_named(*names, r, base_name(*names)),
{
    match names.base_tf {
        Some(b) => b,
        None => 0,
    }
}

/// The base interval as a string.
pub fn base_interval(names: &Names) -> (r: String)
    requires
        names.wf(),
    ensures
        r@ == base_name(*names),
{
    tf_name(names, base_tf_id(names))
}

/// Once a base interval is set it is the one read back; its id is the base one
/// and no other, and asking for its id again adds no name. The one-minute test
/// still asks for the literal name: the base timeframe passes it just where the
/// interval is `1m`.
pub proof fn law_base_interval_is_read_back(before: Names, interval: Seq<char>, after: Names)
    requires
        before.wf(),
        after.wf(),
        base_set(before, interval, after),
    ensures
        base_name(after) == interval,
        forall|tf: u16| #[trigger] is_named(after, tf, interval) <==> tf == base_id(after),
        interned(after.timeframes@, interval) == after.timeframes@,
        is_named(after, base_id(after), "1m"@) <==> interval == "1m"@,
        forall|tf: u16| #[trigger] is_named(after, tf, "1m"@) <==> is_named(before, tf, "1m"@),
{
    let b = base_id(after);
    assert(is_named(after, b, interval));
    assert forall|tf: u16| #[trigger] is_named(after, tf, interval) implies tf == b by {
        assert(after.timeframes@[tf as int] == after.timeframes@[b as int]);
    }
    assert(after.timeframes@.contains(interval));
    assert forall|tf: u16| #[trigger] is_named(after, tf, "1m"@) <==> is_named(before, tf, "1m"@) by {
        if is_named(after, tf, "1m"@) {
            assert(after.timeframes@[tf as int] == after.timeframes@[0]);
        }
        if is_named(before, tf, "1m"@) {
            assert(before.timeframes@[tf as int] == before.timeframes@[0]);
        }
    }
}

// ─── Signal ids ─────────────────────────────────────────────────────────────

/// The lower-case hexadecimal digit of a value below sixteen.
pub open spec fn hex_char(d: int) -> char {
    "0123456789abcdef"@[d]
}

/// A number in lower-case hexadecimal.
pub open spec fn hex_digits(n: nat) -> Seq<char>
    decreases n,
{
    if n < 16 {
        seq![hex_char(n as int)]
    } else {
        hex_digits(n / 16).push(hex_char((n % 16) as int))
    }
}

/// A signal id: the counter in hexadecimal, padded to twelve digits.
pub open spec fn signal_id(n: nat) -> Seq<char> {
    let d = hex_digits(n);
    if d.len() >= 12 {
        d
    } else {
        Seq::new((12 - d.len()) as nat, |i: int| '0') + d
    }
}

fn hex_digit(d: u64) -> (r: char)
    requires
        d < 16,
    ensures
        r == hex_char(d as int),
{
    proof {
        reveal_strlit("0123456789abcdef");
    }
    match d {
        0 => '0',
        1 => '1',
        2 => '2',
        3 => '3',
        4 => '4',
        5 => '5',
        6 => '6',
        7 => '7',
        8 => '8',
        9 => '9',
        10 => 'a',
        11 => 'b',
        12 => 'c',
        13 => 'd',
        14 => 'e',
        _ => 'f',
    }
}

fn hex_of(n: u64) -> (r: Vec<char>)
    ensures
        r@ == hex_digits(n as nat),
    decreases n,
{
    if n < 16 {
        let mut out: Vec<char> = Vec::new();
        out.push(hex_digit(n));
        proof {
            assert(out@ =~= hex_digits(n as nat));
        }
        out
    } else {
        let mut out = hex_of(n / 16);
        out.push(hex_digit(n % 16));
        out
    }
}

fn format_signal_id(n: u64) -> (r: String)
    ensures
        r@ == signal_id(n as nat),
{
    let mut digits = hex_of(n);
    let ghost d = digits@;
    let mut out: Vec<char> = Vec::new();
    let len: usize = digits.len();
    while len < 12 && out.len() < 12 - len
        invariant
            len == d.len(),
            out@.len() <= if len < 12 {
                12 - len
            } else {
                0
            },
            out@ == Seq::new(out@.len(), |i: int| '0'),
        decreases 12 - out@.len(),
    {
        out.push('0');
        proof {
            assert(out@ =~= Seq::new(out@.len(), |i: int| '0'));
        }
    }
    out.append(&mut digits);
    proof {
        assert(out@ =~= signal_id(n as nat));
    }
    string_of(&out)
}

/// The id of the next signal; the counter moves on, and starts over after its
/// largest value.
pub fn next_signal_id(names: &mut Names) -> (r: String)
    ensures
        r@ == signal_id(old(names).signal_counter as nat),
        final(names).signal_counter == (old(names).signal_counter + 1) % 0x1_0000_0000_0000_0000,
        final(names).sig_types == old(names).sig_types,
        final(names).assets == old(names).assets,
        final(names).timeframes == old(names).timeframes,
        final(names).base_tf == old(names).base_tf,
{
    let id = format_signal_id(names.signal_counter);
    names.signal_counter = if names.signal_counter == u64::MAX {
        0
    } else {
        names.signal_counter + 1
    };
    id
}

/// What a string of hexadecimal digits stands for.
pub open spec fn hex_value(s: Seq<char>) -> nat
    decreases s.len(),
{
    if s.len() == 0 {
        0
    } else {
        hex_value(s.drop_last()) * 16 + digit_value(s.last())
    }
}

/// What a hexadecimal digit stands for.
pub open spec fn digit_value(c: char) -> nat {
    let v = c as u32;
    if 48 <= v <= 57 {
        (v - 48) as nat
    } else if 97 <= v <= 102 {
        (v - 87) as nat
    } else {
        0
    }
}

proof fn lemma_hex_value(n: nat)
    ensures
        hex_value(hex_digits(n)) == n,
    decreases n,
{
    reveal_strlit("0123456789abcdef");
    if n < 16 {
        let s = hex_digits(n);
        assert(s.drop_last() =~= Seq::<char>::empty());
        assert(hex_value(s.drop_last()) == 0);
        assert(digit_value(s.last()) == n);
    } else {
        lemma_hex_value(n / 16);
        let s = hex_digits(n);
        assert(s.drop_last() =~= hex_digits(n / 16));
        assert(digit_value(s.last()) == n % 16);
    }
}

proof fn lemma_zeros_add_nothing(k: nat, s: Seq<char>)
    ensures
        hex_value(Seq::new(k, |i: int| '0') + s) == hex_value(s),
    decreases k + s.len(),
{
    let z = Seq::new(k, |i: int| '0');
    if s.len() == 0 {
        assert(z + s =~= z);
        if k > 0 {
            assert(z.drop_last() =~= Seq::new((k - 1) as nat, |i: int| '0'));
            assert(Seq::new((k - 1) as nat, |i: int| '0') + s =~= Seq::new(
                (k - 1) as nat,
                |i: int| '0',
            ));
            lemma_zeros_add_nothing((k - 1) as nat, s);
            assert(digit_value(z.last()) == 0);
        }
    } else {
        assert((z + s).drop_last() =~= z + s.drop_last());
        lemma_zeros_add_nothing(k, s.drop_last());
    }
}

/// Different counter values give different signal ids.
pub proof fn law_signal_ids_are_distinct(a: nat, b: nat)
    ensures
        signal_id(a) == signal_id(b) <==> a == b,
{
    lemma_hex_value(a);
    lemma_hex_value(b);
    if hex_digits(a).len() < 12 {
        lemma_zeros_add_nothing((12 - hex_digits(a).len()) as nat, hex_digits(a));
    }
    if hex_digits(b).len() < 12 {
        lemma_zeros_add_nothing((12 - hex_digits(b).len()) as nat, hex_digits(b));
    }
}

// ─── Directions, candles, ticks ─────────────────────────────────────────────

/// Which way a trade profits.
#[derive(Debug, Clone, Copy, PartialEq, Eq, Hash, Structural)]
pub enum Direction {
    Bull,
    Bear,
}

/// The other direction.
pub open spec fn opposite_of(d: Direction) -> Direction {
    match d {
        Direction::Bull => Direction::Bear,
        Direction::Bear => Direction::Bull,
    }
}

impl Direction {
    /// The other direction.
    pub fn opposite(self) -> (r: Direction)
        ensures
            r == opposite_of(self),
    {
        match self {
            Direction::Bull => Direction::Bear,
            Direction::Bear => Direction::Bull,
        }
    }

    /// The direction's name.
    pub open spec fn label(self) -> Seq<char> {
        match self {
            Direction::Bull => "bull"@,
            Direction::Bear => "bear"@,
        }
    }

    /// The direction's name.
    pub fn as_str(&self) -> (r: &'static str)
        ensures
            r@ == self.label(),
    {
        match self {
            Direction::Bull => "bull",
            Direction::Bear => "bear",
        }
    }
}

/// Turning round twice comes back.
pub proof fn law_opposite_is_an_involution(d: Direction)
    ensures
        opposite_of(opposite_of(d)) == d,
        opposite_of(d) != d,
{
}

/// One bar of one asset on one timeframe.
#[derive(Debug, Clone, Copy, PartialEq, Eq, Structural)]
pub struct Candle {
    pub asset: u16,
    pub timeframe: u16,
    pub open: Num,
    pub high: Num,
    pub low: Num,
    pub close: Num,
    pub volume: Num,
    pub timestamp: Stamp,
    pub complete: bool,
}

impl Candle {
    pub fn is_bullish(&self) -> (r: bool)
        ensures
            r == (self.close > self.open),
    {
        self.close > self.open
    }

    pub fn is_bearish(&self) -> (r: bool)
        ensures
            r == (self.close < self.open),
    {
        self.close < self.open
    }

    /// The higher end of the body.
    pub open spec fn top(self) -> Num {
        if self.open >= self.close {
            self.open
        } else {
            self.close
        }
    }

    /// The lower end of the body.
    pub open spec fn bottom(self) -> Num {
        if self.open <= self.close {
            self.open
        } else {
            self.close
        }
    }

    pub fn body_high(&self) -> (r: Num)
        ensures
            r == self.top(),
    {
        if self.open >= self.close {
            self.open
        } else {
            self.close
        }
    }

    pub fn body_low(&self) -> (r: Num)
        ensures
            r == self.bottom(),
    {
        if self.open <= self.close {
            self.open
        } else {
            self.close
        }
    }
}

/// One executed trade print.
#[derive(Debug, Clone, Copy, PartialEq, Eq, Structural)]
pub struct Tick {
    pub timestamp: Stamp,
    pub price: Num,
    pub size: Num,
    /// Aggressor side: 0 = buy, 1 = sell.
    pub side: u8,
}

// ─── Opportunities and trades ───────────────────────────────────────────────

/// A setup a strategy reports.
#[derive(Debug, Clone)]
pub struct Opportunity {
    pub signal_type: u16,
    pub asset: u16,
    pub timeframe: u16,
    pub direction: Direction,
    pub score: Num,
    /// When the setup completed; the fill can come many bars later.
    pub created_at: Stamp,
    pub invalidated: bool,
    pub invalidation_reason: Option<String>,
    pub id: String,
    /// Not final yet: journaled, never traded.
    pub developing: bool,
    pub entry: Option<Num>,
    pub stop: Option<Num>,
    pub target: Option<Num>,
}

/// An opportunity, mathematically.
pub struct OpportunityView {
    pub signal_type: u16,
    pub asset: u16,
    pub timeframe: u16,
    pub direction: Direction,
    pub score: Num,
    pub created_at: Stamp,
    pub invalidated: bool,
    pub invalidation_reason: Option<Seq<char>>,
    pub id: Seq<char>,
    pub developing: bool,
    pub entry: Option<Num>,
    pub stop: Option<Num>,
    pub target: Option<Num>,
}

impl View for Opportunity {
    type V = OpportunityView;

    open spec fn view(&self) -> OpportunityView {
        OpportunityView {
            signal_type: self.signal_type,
            asset: self.asset,
            timeframe: self.timeframe,
            direction: self.direction,
            score: self.score,
            created_at: self.created_at,
            invalidated: self.invalidated,
            invalidation_reason: match self.invalidation_reason {
                Some(s) => Some(s@),
                None => None,
            },
            id: self.id@,
            developing: self.developing,
            entry: self.entry,
            stop: self.stop,
            target: self.target,
        }
    }
}

impl Opportunity {
    /// An equal opportunity.
    pub fn dup(&self) -> (r: Self)
        ensures
            r@ == self@,
    {
        let reason = match &self.invalidation_reason {
            Some(s) => Some(s.clone()),
            None => None,
        };
        Opportunity {
            signal_type: self.signal_type,
            asset: self.asset,
            timeframe: self.timeframe,
            direction: self.direction,
            score: self.score,
            created_at: self.created_at,
            invalidated: self.invalidated,
            invalidation_reason: reason,
            id: self.id.clone(),
            developing: self.developing,
            entry: self.entry,
            stop: self.stop,
            target: self.target,
        }
    }

    /// A bare opportunity: zero score, no geometry, a fresh id.
    pub fn new(
        names: &mut Names,
        signal_type: &str,
        asset: &str,
        timeframe: &str,
        direction: Direction,
        created_at: Stamp,
    ) -> (r: Self)
        requires
            old(names).wf(),
            has_room(old(names).sig_types@, signal_type@),
            has_room(old(names).assets@, asset@),
            has_room(old(names).timeframes@, timeframe@),
        ensures
            final(names).wf(),
            final(names).sig_types@ == interned(old(names).sig_types@, signal_type@),
            final(names).assets@ == interned(old(names).assets@, asset@),
            final(names).timeframes@ == interned(old(names).timeframes@, timeframe@),
            final(names).base_tf == old(names).base_tf,
            final(names).signal_counter == (old(names).signal_counter + 1)
                % 0x1_0000_0000_0000_0000,
            r.signal_type < final(names).sig_types@.len(),
            final(names).sig_types@[r.signal_type as int] == signal_type@,
            r.asset < final(names).assets@.len(),
            final(names).assets@[r.asset as int] == asset@,
            r.timeframe < final(names).timeframes@.len(),
            final(names).timeframes@[r.timeframe as int] == timeframe@,
            r.id@ == signal_id(old(names).signal_counter as nat),
            r.direction == direction,
            r.created_at == created_at,
            r.score == 0,
            !r.invalidated,
            r.invalidation_reason is None,
            !r.developing,
            r.entry is None,
            r.stop is None,
            r.target is None,
    {
        let signal_type: u16 = sig_type_id(names, signal_type);
        let asset: u16 = asset_id(names, asset);
        let timeframe: u16 = tf_id(names, timeframe);
        let id = next_signal_id(names);
        Opportunity {
            signal_type,
            asset,
            timeframe,
            direction,
            score: 0,
            created_at,
            invalidated: false,
            invalidation_reason: None,
            id,
            developing: false,
            entry: None,
            stop: None,
            target: None,
        }
    }

    /// The same opportunity with its entry and stop stamped.
    pub fn with_entry_stop(self, entry: Num, stop: Num) -> (r: Self)
        ensures
            r == (Opportunity { entry: Some(entry), stop: Some(stop), ..self }),
    {
        let mut o = self;
        o.entry = Some(entry);
        o.stop = Some(stop);
        o
    }

    /// The same opportunity with its score stamped.
    pub fn with_score(self, score: Num) -> (r: Self)
        ensures
            r == (Opportunity { score, ..self }),
    {
        let mut o = self;
        o.score = score;
        o
    }

    /// The entry and stop, where the strategy stamped both.
    pub fn entry_stop(&self) -> (r: Option<(Num, Num)>)
        ensures
            r == match (self.entry, self.stop) {
                (Some(e), Some(s)) => Some((e, s)),
                _ => None,
            },
    {
        match (self.entry, self.stop) {
            (Some(e), Some(s)) => Some((e, s)),
            _ => None,
        }
    }

    /// Whole seconds since the setup completed, rounded toward zero.
    pub fn age_seconds(&self, now: Stamp) -> (r: i64)
        requires
            on_calendar(self.created_at as int),
            on_calendar(now as int),
        ensures
            r == whole_seconds(self.created_at as int, now as int),
    {
        seconds_between(self.created_at, now) as i64
    }
}

/// How a trade ended.
#[derive(Debug, Clone, Copy, PartialEq, Eq, Structural)]
pub enum TradeResult {
    Win,
    Loss,
    Inconclusive,
}

impl TradeResult {
    /// The result's name.
    pub open spec fn label(self) -> Seq<char> {
        match self {
            TradeResult::Win => "win"@,
            TradeResult::Loss => "loss"@,
            TradeResult::Inconclusive => "inconclusive"@,
        }
    }

    /// The result's name.
    pub fn as_str(&self) -> (r: &'static str)
        ensures
            r@ == self.label(),
    {
        match self {
            TradeResult::Win => "win",
            TradeResult::Loss => "loss",
            TradeResult::Inconclusive => "inconclusive",
        }
    }
}

/// A trade: a resting order's template, then a position, then its outcome.
#[derive(Debug, Clone)]
pub struct PaperTrade {
    pub opportunity_id: String,
    pub signal_type: u16,
    pub asset: u16,
    pub timeframe: u16,
    pub direction: Direction,
    pub entry: Num,
    pub stop: Num,
    pub tp: Num,
    /// The price the entry filled at.
    pub fill: Num,
    pub score: Num,
    /// The signal time, which can precede the fill.
    pub opened_at: Stamp,
    pub filled_at: Option<Stamp>,
    pub closed_at: Option<Stamp>,
    pub result: TradeResult,
    pub r_pnl: Num,
    /// The round trip's fee in R.
    pub fee_r: Num,
}

impl PaperTrade {
    /// An equal trade.
    pub fn dup(&self) -> (r: Self)
        ensures
            r == *self,
    {
        PaperTrade {
            opportunity_id: self.opportunity_id.clone(),
            signal_type: self.signal_type,
            asset: self.asset,
            timeframe: self.timeframe,
            direction: self.direction,
            entry: self.entry,
            stop: self.stop,
            tp: self.tp,
            fill: self.fill,
            score: self.score,
            opened_at: self.opened_at,
            filled_at: self.filled_at,
            closed_at: self.closed_at,
            result: self.result,
            r_pnl: self.r_pnl,
            fee_r: self.fee_r,
        }
    }
}

// ─── Memoized timeframe lookups ─────────────────────────────────────────────

/// Timeframe ids a memo covers; ids past it are computed each time.
pub const TF_MEMO_SLOTS: usize = 64;

/// A memo over a function of timeframe ids.
pub struct TfMemo<F: Fn(u16) -> Num> {
    slots: Vec<Option<Num>>,
    compute: F,
}

impl<F: Fn(u16) -> Num> TfMemo<F> {
    /// The function behind the memo.
    pub closed spec fn function(&self) -> F {
        self.compute
    }

    /// Each slot is empty or holds what the function gives for its id, and
    /// the function takes every id.
    pub closed spec fn wf(&self) -> bool {
        &&& self.slots@.len() == TF_MEMO_SLOTS
        &&& forall|tf: u16| self.compute.requires((tf,))
        &&& forall|i: u16|
            i < TF_MEMO_SLOTS ==> (#[trigger] self.slots@[i as int] matches Some(v) ==> self.compute.ensures((i,), v))
    }

    /// An empty memo of a function.
    pub fn new(compute: F) -> (r: Self)
        requires
            forall|tf: u16| compute.requires((tf,)),
        ensures
            r.wf(),
            r.function() == compute,
    {
        let mut slots: Vec<Option<Num>> = Vec::new();
        let mut i: usize = 0;
        while i < TF_MEMO_SLOTS
            invariant
                i <= TF_MEMO_SLOTS,
                slots@.len() == i,
                forall|j: int| 0 <= j < i ==> #[trigger] slots@[j] is None,
            decreases TF_MEMO_SLOTS - i,
        {
            slots.push(None);
            i = i + 1;
        }
        TfMemo { slots, compute }
    }

    /// What the function gives for an id, computed at most once per slot.
    pub fn get(&mut self, tf: u16) -> (r: Num)
        requires
            old(self).wf(),
        ensures
            final(self).wf(),
            final(self).function() == old(self).function(),
            old(self).function().ensures((tf,), r),
    {
        let idx: usize = tf as usize;
        if idx >= TF_MEMO_SLOTS {
            return (self.compute)(tf);
        }
        match self.slots[idx] {
            Some(v) => v,
            None => {
                let value: Num = (self.compute)(tf);
                self.slots.set(idx, Some(value));
                value
            },
        }
    }
}

/// A candle's body lies between its open and its close: the top is the greater
/// of the two and the bottom the lesser.
pub proof fn law_a_body_spans_open_and_close(c: Candle)
    ensures
        c.top() >= c.open && c.top() >= c.close && (c.top() == c.open || c.top() == c.close),
        c.bottom() <= c.open && c.bottom() <= c.close && (c.bottom() == c.open || c.bottom()
            == c.close),
        opposite_of(Direction::Bull) == Direction::Bear,
        opposite_of(Direction::Bear) == Direction::Bull,
{
}

/// A signal's id is its number in hexadecimal, with zeros in front up to twelve
/// digits.
pub proof fn law_a_signal_id_is_its_number(n: nat)
    ensures
        hex_value(signal_id(n)) == n,
        signal_id(n).len() >= 12,
{
    lemma_hex_value(n);
    let d = hex_digits(n);
    if d.len() < 12 {
        lemma_zeros_add_nothing((12 - d.len()) as nat, d);
    }
}

} // verus!
