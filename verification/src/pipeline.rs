//! The order in which things happen to a candle: a strategy emits, its
//! opportunities are offered, the completed bar advances the book, and only
//! then are higher timeframes offered.
use vstd::prelude::*;
use crate::clock::{is_on_calendar_after, on_calendar};
use crate::models::{Candle, Direction, Opportunity, OpportunityView, PaperTrade};
use crate::paper::book::{
    deadline_of, evaluated, Book, CloseTicket, Decision, PaperTrader, FILL_DEADLINE_SECS,
};
use crate::paper::quote::BarQuotes;
use crate::paper::race::bar_room;
use crate::paper::update::{
    bar_applied, bar_quotes_fit, bar_tickets, prints_fit, prints_of, tape_advanced, tape_room,
};

verus! {

/// Expired opportunities kept before the oldest is dropped.
pub const EXPIRED_CAP: usize = 50;

// ─── Stages ─────────────────────────────────────────────────────────────────

/// What is done with a candle, in order.
#[derive(Debug, Clone, Copy, PartialEq, Eq, Structural)]
pub enum Stage {
    /// The strategy sees the candle.
    Emit,
    /// What it emitted is offered.
    Offer,
    /// The completed bar advances the book.
    Advance,
    /// Higher-timeframe bars are built from it.
    Aggregate,
    /// The strategy sees them, and what it emits is offered.
    OfferHigher,
    Done,
}

/// The stage after another. An asset without a book is left alone; an
/// incomplete bar is offered on and nothing more.
pub open spec fn stage_after(s: Stage, registered: bool, complete: bool) -> Stage {
    match s {
        Stage::Emit => if registered {
            Stage::Offer
        } else {
            Stage::Done
        },
        Stage::Offer => if complete {
            Stage::Advance
        } else {
            Stage::Done
        },
        Stage::Advance => Stage::Aggregate,
        Stage::Aggregate => Stage::OfferHigher,
        Stage::OfferHigher => Stage::Done,
        Stage::Done => Stage::Done,
    }
}

/// The stage after another.
pub fn next_stage(s: Stage, registered: bool, complete: bool) -> (r: Stage)
    ensures
        r == stage_after(s, registered, complete),
{
    match s {
        Stage::Emit => if registered {
            Stage::Offer
        } else {
            Stage::Done
        },
        Stage::Offer => if complete {
            Stage::Advance
        } else {
            Stage::Done
        },
        Stage::Advance => Stage::Aggregate,
        Stage::Aggregate => Stage::OfferHigher,
        Stage::OfferHigher => Stage::Done,
        Stage::Done => Stage::Done,
    }
}

/// The stage reached after `n` steps.
pub open spec fn stage_at(n: nat, registered: bool, complete: bool) -> Stage
    decreases n,
{
    if n == 0 {
        Stage::Emit
    } else {
        stage_after(stage_at((n - 1) as nat, registered, complete), registered, complete)
    }
}

/// An incomplete bar never reaches the stages that advance prices or build
/// higher timeframes, and neither does an unregistered asset's.
pub proof fn law_incomplete_bars_never_advance(n: nat, registered: bool, complete: bool)
    requires
        !registered || !complete,
    ensures
        stage_at(n, registered, complete) != Stage::Advance,
        stage_at(n, registered, complete) != Stage::Aggregate,
        stage_at(n, registered, complete) != Stage::OfferHigher,
    decreases n,
{
    if n > 0 {
        law_incomplete_bars_never_advance((n - 1) as nat, registered, complete);
    }
}

/// A completed bar goes through all stages, offers before prices and higher
/// timeframes after them.
pub proof fn law_offers_come_before_prices()
    ensures
        stage_at(0, true, true) == Stage::Emit,
        stage_at(1, true, true) == Stage::Offer,
        stage_at(2, true, true) == Stage::Advance,
        stage_at(3, true, true) == Stage::Aggregate,
        stage_at(4, true, true) == Stage::OfferHigher,
        stage_at(5, true, true) == Stage::Done,
{
    reveal_with_fuel(stage_at, 6);
}

// ─── Offers ─────────────────────────────────────────────────────────────────

/// Some opportunities, mathematically.
pub open spec fn views(list: Seq<Opportunity>) -> Seq<OpportunityView> {
    Seq::new(list.len(), |i: int| list[i]@)
}

/// The book once the first `n` opportunities were offered: a developing one
/// is never traded, any other is evaluated with its verdict.
pub open spec fn offered(
    b: Book,
    opps: Seq<Opportunity>,
    verdicts: Seq<Decision>,
    n: nat,
) -> Book
    decreases n,
{
    if n == 0 {
        b
    } else {
        let before = offered(b, opps, verdicts, (n - 1) as nat);
        if opps[n - 1].developing {
            before
        } else {
            evaluated(before, opps[n - 1], verdicts[n - 1])
        }
    }
}

/// The opportunities among the first `n` that became orders.
pub open spec fn admitted(opps: Seq<Opportunity>, verdicts: Seq<Decision>, n: nat) -> Seq<
    OpportunityView,
>
    decreases n,
{
    if n == 0 {
        Seq::empty()
    } else {
        let rest = admitted(opps, verdicts, (n - 1) as nat);
        if !opps[n - 1].developing && verdicts[n - 1] is Take {
            rest.push(opps[n - 1]@)
        } else {
            rest
        }
    }
}

/// The place of an id among some opportunities, at or after `from`.
pub open spec fn opp_at(list: Seq<OpportunityView>, id: Seq<char>, from: int) -> int
    decreases list.len() - from,
{
    if from >= list.len() || list[from].id == id {
        from
    } else {
        opp_at(list, id, from + 1)
    }
}

/// The live opportunities once one is noted: it replaces one of its id.
pub open spec fn noted(active: Seq<OpportunityView>, o: OpportunityView) -> Seq<OpportunityView> {
    let i = opp_at(active, o.id, 0);
    if i < active.len() {
        active.update(i, o)
    } else {
        active.push(o)
    }
}

/// The first `n` are noted.
pub open spec fn all_noted(active: Seq<OpportunityView>, opps: Seq<Opportunity>, n: nat) -> Seq<
    OpportunityView,
>
    decreases n,
{
    if n == 0 {
        active
    } else {
        noted(all_noted(active, opps, (n - 1) as nat), opps[n - 1]@)
    }
}

/// The counts can take the offers in, and each order placed has a deadline.
pub open spec fn offers_room(b: Book, opps: Seq<Opportunity>, verdicts: Seq<Decision>) -> bool {
    &&& b.seen + opps.len() <= usize::MAX
    &&& forall|k: Seq<char>| #[trigger]
        b.skips.contains_key(k) ==> b.skips[k] + opps.len() <= usize::MAX
    &&& forall|i: int|
        0 <= i < opps.len() ==> !(#[trigger] opps[i]).developing ==> verdicts[i] is Take
            ==> on_calendar(deadline_of(opps[i].created_at))
}

/// A developing opportunity never changes the book.
pub proof fn law_developing_setups_are_never_traded(
    b: Book,
    opps: Seq<Opportunity>,
    verdicts: Seq<Decision>,
    n: nat,
)
    requires
        n <= opps.len(),
        forall|i: int| 0 <= i < n ==> (#[trigger] opps[i]).developing,
    ensures
        offered(b, opps, verdicts, n) == b,
        admitted(opps, verdicts, n).len() == 0,
    decreases n,
{
    if n > 0 {
        law_developing_setups_are_never_traded(b, opps, verdicts, (n - 1) as nat);
    }
}

// ─── Reaping ────────────────────────────────────────────────────────────────

/// An opportunity whose trade closed.
pub open spec fn spent(o: OpportunityView) -> OpportunityView {
    OpportunityView { invalidated: true, invalidation_reason: Some("trade_closed"@), ..o }
}

/// The expired opportunities once one is added: the oldest leaves when there
/// are too many.
pub open spec fn expired_with(list: Seq<OpportunityView>, o: OpportunityView) -> Seq<
    OpportunityView,
> {
    let l = list.push(o);
    if l.len() > EXPIRED_CAP {
        l.remove(0)
    } else {
        l
    }
}

/// Live and expired opportunities.
pub struct Journal {
    pub active: Seq<OpportunityView>,
    pub expired: Seq<OpportunityView>,
}

/// A trade is reaped: where it closed and its opportunity is live, the
/// opportunity expires.
pub open spec fn reaped(j: Journal, t: PaperTrade) -> Journal {
    let i = opp_at(j.active, t.opportunity_id@, 0);
    if t.closed_at is Some && i < j.active.len() {
        Journal {
            active: j.active.remove(i),
            expired: expired_with(j.expired, spent(j.active[i])),
        }
    } else {
        j
    }
}

/// The first `n` trades are reaped.
pub open spec fn all_reaped(j: Journal, trades: Seq<PaperTrade>, n: nat) -> Journal
    decreases n,
{
    if n == 0 {
        j
    } else {
        reaped(all_reaped(j, trades, (n - 1) as nat), trades[n - 1])
    }
}

/// The expired opportunities never exceed their cap.
pub proof fn law_expired_opportunities_are_bounded(j: Journal, trades: Seq<PaperTrade>, n: nat)
    requires
        j.expired.len() <= EXPIRED_CAP,
    ensures
        all_reaped(j, trades, n).expired.len() <= EXPIRED_CAP,
    decreases n,
{
    if n > 0 {
        law_expired_opportunities_are_bounded(j, trades, (n - 1) as nat);
    }
}

/// One asset's book.
#[derive(Clone)]
pub struct AssetBook {
    pub asset: u16,
    pub trader: PaperTrader,
}

/// The place of an asset's book, at or after `from`.
pub open spec fn book_at(books: Seq<AssetBook>, asset: u16, from: int) -> int
    decreases books.len() - from,
{
    if from >= books.len() || books[from].asset == asset {
        from
    } else {
        book_at(books, asset, from + 1)
    }
}

/// The books of a run, and the opportunities seen.
#[derive(Clone)]
pub struct Pipeline {
    pub books: Vec<AssetBook>,
    pub active_opps: Vec<Opportunity>,
    /// Newest last.
    pub expired_opps: Vec<Opportunity>,
}

fn find_opp(list: &Vec<Opportunity>, id: &String) -> (r: usize)
    ensures
        r <= list@.len(),
        r == opp_at(views(list@), id@, 0),
{
    let mut i: usize = 0;
    while i < list.len() && list[i].id != *id
        invariant
            i <= list@.len(),
            opp_at(views(list@), id@, i as int) == opp_at(views(list@), id@, 0),
        decreases list@.len() - i,
    {
        i = i + 1;
    }
    i
}

fn note(active: &mut Vec<Opportunity>, o: &Opportunity)
    ensures
        views(final(active)@) == noted(views(old(active)@), o@),
{
    let i: usize = find_opp(active, &o.id);
    if i < active.len() {
        active.set(i, o.dup());
    } else {
        active.push(o.dup());
    }
    proof {
        assert(views(active@) =~= noted(views(old(active)@), o@));
    }
}

/// The wording of an offered opportunity's direction.
pub fn direction_word(d: Direction) -> (r: &'static str)
    ensures
        r@ == match d {
            Direction::Bull => "LONG"@,
            Direction::Bear => "SHORT"@,
        },
{
    match d {
        Direction::Bull => "LONG",
        Direction::Bear => "SHORT",
    }
}

impl Pipeline {
    /// Every book is well formed, and no asset has two.
    pub open spec fn wf(&self) -> bool {
        &&& forall|i: int| 0 <= i < self.books@.len() ==> (#[trigger] self.books@[i]).trader.wf()
        &&& forall|i: int, j: int|
            0 <= i < j < self.books@.len() ==> (#[trigger] self.books@[i]).asset != (
            #[trigger] self.books@[j]).asset
    }

    /// The journal.
    pub open spec fn journal(&self) -> Journal {
        Journal { active: views(self.active_opps@), expired: views(self.expired_opps@) }
    }

    /// No books, nothing seen.
    pub fn new() -> (r: Self)
        ensures
            r.wf(),
            r.books@.len() == 0,
            r.journal() == (Journal { active: Seq::empty(), expired: Seq::empty() }),
    {
        let r = Pipeline {
            books: Vec::new(),
            active_opps: Vec::new(),
            expired_opps: Vec::new(),
        };
        proof {
            assert(views(r.active_opps@) =~= Seq::empty());
            assert(views(r.expired_opps@) =~= Seq::empty());
        }
        r
    }

    /// The place of an asset's book.
    pub fn find_book(&self, asset: u16) -> (r: usize)
        ensures
            r <= self.books@.len(),
            r == book_at(self.books@, asset, 0),
            r < self.books@.len() ==> self.books@[r as int].asset == asset,
            r == self.books@.len() ==> forall|i: int|
                0 <= i < self.books@.len() ==> (#[trigger] self.books@[i]).asset != asset,
    {
        let mut i: usize = 0;
        while i < self.books.len() && self.books[i].asset != asset
            invariant
                i <= self.books@.len(),
                book_at(self.books@, asset, i as int) == book_at(self.books@, asset, 0),
                forall|k: int| 0 <= k < i ==> (#[trigger] self.books@[k]).asset != asset,
            decreases self.books@.len() - i,
        {
            i = i + 1;
        }
        i
    }

    /// Register an asset's book, in place of one it has.
    pub fn insert_asset(&mut self, asset: u16, trader: PaperTrader)
        requires
            old(self).wf(),
            trader.wf(),
        ensures
            final(self).wf(),
            final(self).journal() == old(self).journal(),
            ({
                let i = book_at(old(self).books@, asset, 0);
                final(self).books@ == if i < old(self).books@.len() {
                    old(self).books@.update(i, AssetBook { asset, trader })
                } else {
                    old(self).books@.push(AssetBook { asset, trader })
                }
            }),
    {
        let i: usize = self.find_book(asset);
        if i < self.books.len() {
            self.books.set(i, AssetBook { asset, trader });
        } else {
            self.books.push(AssetBook { asset, trader });
        }
    }

    /// Whether a book can take these offers in: see [`offers_room`].
    pub fn can_offer(&self, at: usize, opps: &Vec<Opportunity>, verdicts: &Vec<Decision>) -> (r: bool)
        requires
            at < self.books@.len(),
            verdicts@.len() == opps@.len(),
        ensures
            r == offers_room(self.books@[at as int].trader@, opps@, verdicts@),
    {
        if !self.books[at].trader.can_see(opps.len()) {
            return false;
        }
        let mut i: usize = 0;
        while i < opps.len()
            invariant
                i <= opps@.len(),
                verdicts@.len() == opps@.len(),
                forall|j: int|
                    0 <= j < i ==> !(#[trigger] opps@[j]).developing ==> verdicts@[j] is Take
                        ==> on_calendar(deadline_of(opps@[j].created_at)),
            decreases opps@.len() - i,
        {
            if let Decision::Take(_) = &verdicts[i] {
                if !opps[i].developing && !is_on_calendar_after(
                    opps[i].created_at,
                    FILL_DEADLINE_SECS,
                ) {
                    assert(!opps@[i as int].developing);
                    return false;
                }
            }
            i = i + 1;
        }
        true
    }

    /// Offer opportunities to the book at a place, each with the verdict the
    /// strategy gave it. Returns those that became orders; all are noted.
    pub fn offer(
        &mut self,
        at: usize,
        opps: &Vec<Opportunity>,
        verdicts: &Vec<Decision>,
    ) -> (r: Vec<Opportunity>)
        requires
            old(self).wf(),
            at < old(self).books@.len(),
            verdicts@.len() == opps@.len(),
            offers_room(old(self).books@[at as int].trader@, opps@, verdicts@),
        ensures
            final(self).wf(),
            views(r@) == admitted(opps@, verdicts@, opps@.len()),
            final(self).journal() == (Journal {
                active: all_noted(old(self).journal().active, opps@, opps@.len()),
                ..old(self).journal()
            }),
            final(self).books@.len() == old(self).books@.len(),
            forall|i: int|
                0 <= i < old(self).books@.len() && i != at ==> #[trigger] final(self).books@[i]
                    == old(self).books@[i],
            ({
                let before = old(self).books@[at as int];
                let after = final(self).books@[at as int];
                &&& after.asset == before.asset
                &&& after.trader.knobs == before.trader.knobs
                &&& after.trader@ == offered(before.trader@, opps@, verdicts@, opps@.len())
            }),
    {
        let ghost b0 = self.books@[at as int].trader@;
        let ghost k0 = self.books@[at as int].trader.knobs;
        let ghost s0 = *self;
        let mut out: Vec<Opportunity> = Vec::new();
        let mut i: usize = 0;
        proof {
            assert(views(out@) =~= Seq::empty());
        }
        while i < opps.len()
            invariant
                i <= opps@.len(),
                verdicts@.len() == opps@.len(),
                s0 == *old(self),
                self.wf(),
                at < self.books@.len(),
                self.books@.len() == s0.books@.len(),
                self.expired_opps == s0.expired_opps,
                offers_room(b0, opps@, verdicts@),
                b0 == s0.books@[at as int].trader@,
                k0 == s0.books@[at as int].trader.knobs,
                self.books@[at as int].asset == s0.books@[at as int].asset,
                self.books@[at as int].trader.knobs == k0,
                self.books@[at as int].trader@ == offered(b0, opps@, verdicts@, i as nat),
                self.books@[at as int].trader@.seen <= b0.seen + i,
                forall|k: Seq<char>| #[trigger]
                    self.books@[at as int].trader@.skips.contains_key(k) ==> self.books@[at as int].trader@.skips[k]
                        + (opps@.len() - i) <= usize::MAX,
                forall|j: int|
                    0 <= j < s0.books@.len() && j != at ==> #[trigger] self.books@[j] == s0.books@[j],
                views(out@) == admitted(opps@, verdicts@, i as nat),
                views(self.active_opps@) == all_noted(
                    views(s0.active_opps@),
                    opps@,
                    i as nat,
                ),
            decreases opps@.len() - i,
        {
            let o = &opps[i];
            let ghost before = out@;
            if !o.developing {
                assert(!opps@[i as int].developing);
                let ghost skips0 = self.books@[at as int].trader@.skips;
                let placed = self.books[at].trader.evaluate(o, &verdicts[i]);
                proof {
                    let after = self.books@[at as int].trader@.skips;
                    assert forall|k: Seq<char>| #[trigger] after.contains_key(k) implies after[k] + (
                    opps@.len() - i - 1) <= usize::MAX by {
                        if skips0.contains_key(k) {
                            assert(skips0[k] + (opps@.len() - i) <= usize::MAX);
                        }
                    }
                }
                if placed.is_some() {
                    out.push(o.dup());
                }
            }
            proof {
                assert(views(out@) =~= admitted(opps@, verdicts@, (i + 1) as nat));
            }
            note(&mut self.active_opps, o);
            i = i + 1;
        }
        out
    }

    /// Advance the book at a place by a completed bar, then let the
    /// opportunities expire whose trades closed. Returns the tickets of the
    /// closes.
    pub fn advance(
        &mut self,
        at: usize,
        candle: &Candle,
        quotes: &BarQuotes,
        chase_override: Option<bool>,
    ) -> (r: Vec<CloseTicket>)
        requires
            old(self).wf(),
            at < old(self).books@.len(),
            ({
                let t = old(self).books@[at as int].trader;
                &&& prints_fit(t.knobs, t.tape, candle.timestamp)
                &&& tape_room(t.knobs, t.tape, candle.timestamp)
                &&& bar_quotes_fit(t@, *quotes, prints_of(t.knobs, t.tape, candle.timestamp))
                &&& bar_room(t@)
            }),
        ensures
            final(self).wf(),
            final(self).books@.len() == old(self).books@.len(),
            forall|i: int|
                0 <= i < old(self).books@.len() && i != at ==> #[trigger] final(self).books@[i]
                    == old(self).books@[i],
            ({
                let before = old(self).books@[at as int].trader;
                let after = final(self).books@[at as int].trader;
                let ticks = prints_of(before.knobs, before.tape, candle.timestamp);
                let b = Book { closed: Seq::empty(), tape: after.tape, ..before@ };
                &&& final(self).books@[at as int].asset == old(self).books@[at as int].asset
                &&& after.knobs == before.knobs
                &&& tape_advanced(before.knobs, before.tape, after.tape, candle.timestamp)
                &&& after@ == bar_applied(
                    before.knobs,
                    chase_override,
                    b,
                    *quotes,
                    *candle,
                    ticks,
                )
                &&& r@ == bar_tickets(
                    before.knobs,
                    chase_override,
                    b,
                    *quotes,
                    *candle,
                    ticks,
                )
                &&& final(self).journal() == all_reaped(
                    old(self).journal(),
                    after@.trades,
                    after@.trades.len(),
                )
            }),
    {
        let tickets = self.books[at].trader.update_prices(candle, quotes, chase_override);
        self.reap_closed(at);
        tickets
    }

    /// Move the opportunities whose trade closed out of the live ones.
    fn reap_closed(&mut self, at: usize)
        requires
            old(self).wf(),
            at < old(self).books@.len(),
        ensures
            final(self).wf(),
            final(self).books == old(self).books,
            final(self).journal() == all_reaped(
                old(self).journal(),
                old(self).books@[at as int].trader@.trades,
                old(self).books@[at as int].trader@.trades.len(),
            ),
    {
        let ghost j0 = self.journal();
        let ghost t = self.books@[at as int].trader@.trades;
        let mut i: usize = 0;
        while i < self.books[at].trader.trades.len()
            invariant
                self.wf(),
                self.books == old(self).books,
                at < self.books@.len(),
                t == self.books@[at as int].trader.trades@,
                i <= t.len(),
                self.journal() == all_reaped(j0, t, i as nat),
            decreases t.len() - i,
        {
            let id = self.books[at].trader.trades[i].opportunity_id.clone();
            let closed = self.books[at].trader.trades[i].closed_at.is_some();
            let k: usize = find_opp(&self.active_opps, &id);
            if closed && k < self.active_opps.len() {
                let ghost a0 = self.active_opps@;
                let ghost e0 = self.expired_opps@;
                let mut o = self.active_opps.remove(k);
                o.invalidated = true;
                o.invalidation_reason = Some("trade_closed".to_owned());
                self.expired_opps.push(o);
                proof {
                    assert(views(self.active_opps@) =~= views(a0).remove(k as int));
                    assert(o@ == spent(views(a0)[k as int]));
                    assert(views(self.expired_opps@) =~= views(e0).push(o@));
                }
                if self.expired_opps.len() > EXPIRED_CAP {
                    let ghost e1 = self.expired_opps@;
                    self.expired_opps.remove(0);
                    proof {
                        assert(views(self.expired_opps@) =~= views(e1).remove(0));
                    }
                }
            }
            i = i + 1;
        }
    }

    /// Take an asset's book out at the end of a run, with nothing left open.
    pub fn finish(&mut self, asset: u16) -> (r: Option<PaperTrader>)
        requires
            old(self).wf(),
        ensures
            final(self).wf(),
            final(self).journal() == old(self).journal(),
            ({
                let i = book_at(old(self).books@, asset, 0);
                if i < old(self).books@.len() {
                    &&& final(self).books@ == old(self).books@.remove(i)
                    &&& r matches Some(t) && t.wf() && t.knobs == old(self).books@[i].trader.knobs
                        && t@ == (Book {
                        open: Seq::empty(),
                        ..old(self).books@[i].trader@
                    })
                } else {
                    r is None && final(self).books@ == old(self).books@
                }
            }),
    {
        let i: usize = self.find_book(asset);
        if i >= self.books.len() {
            return None;
        }
        let ghost b0 = self.books@;
        let mut book = self.books.remove(i);
        proof {
            assert forall|j: int| 0 <= j < self.books@.len() implies (
            #[trigger] self.books@[j]).trader.wf() by {
                let k = if j < i {
                    j
                } else {
                    j + 1
                };
                assert(self.books@[j] == b0[k]);
            }
            assert forall|a: int, b: int| 0 <= a < b < self.books@.len() implies (
            #[trigger] self.books@[a]).asset != (#[trigger] self.books@[b]).asset by {
                let ka = if a < i {
                    a
                } else {
                    a + 1
                };
                let kb = if b < i {
                    b
                } else {
                    b + 1
                };
                assert(self.books@[a] == b0[ka]);
                assert(self.books@[b] == b0[kb]);
            }
        }
        book.trader.close_remaining();
        Some(book.trader)
    }
}

/// A bar goes from emitting to offering only where its asset is registered, and
/// from offering to prices only where it is complete.
pub proof fn law_stages_wait_for_their_bar(registered: bool, complete: bool)
    ensures
        stage_after(Stage::Emit, registered, complete) == Stage::Offer <==> registered,
        stage_after(Stage::Offer, registered, complete) == Stage::Advance <==> complete,
        stage_after(Stage::Emit, false, complete) == Stage::Done,
        stage_after(Stage::Offer, registered, false) == Stage::Done,
        stage_after(Stage::Done, registered, complete) == Stage::Done,
{
}

/// Every opportunity that is not developing is seen once by the book, with its
/// own word; those it is told to take are the ones admitted, in order.
pub proof fn law_every_mature_opportunity_is_evaluated(
    b: Book,
    opps: Seq<Opportunity>,
    verdicts: Seq<Decision>,
    n: nat,
)
    requires
        0 < n <= opps.len(),
        verdicts.len() == opps.len(),
    ensures
        ({
            let (o, d) = (opps[n - 1], verdicts[n - 1]);
            let before = offered(b, opps, verdicts, (n - 1) as nat);
            let after = offered(b, opps, verdicts, n);
            let (had, has) = (admitted(opps, verdicts, (n - 1) as nat), admitted(opps, verdicts, n));
            &&& o.developing ==> after == before && has == had
            &&& !o.developing ==> after.seen == before.seen + 1
            &&& !o.developing && d is Take ==> after.pending.len() == before.pending.len() + 1
                && after.pending.last().trade.opportunity_id == o.id && has.len() == had.len() + 1
                && has.last() == o@
            &&& !o.developing && d is Skip ==> after.pending == before.pending && has == had
        }),
{
}

/// A noted opportunity is live: it takes the place of the one under its id, and
/// stands last where there was none. The others stay as they are.
pub proof fn law_a_noted_opportunity_is_live(
    active: Seq<OpportunityView>,
    o: OpportunityView,
    i: int,
)
    requires
        0 <= i <= active.len(),
        forall|j: int| 0 <= j < i ==> (#[trigger] active[j]).id != o.id,
        i < active.len() ==> active[i].id == o.id,
    ensures
        ({
            let after = noted(active, o);
            &&& after.len() == if i < active.len() {
                active.len()
            } else {
                active.len() + 1
            }
            &&& after[i] == o
            &&& forall|j: int| 0 <= j < active.len() && j != i ==> #[trigger] after[j] == active[j]
        }),
{
    lemma_opp_at(active, o.id, 0, i);
}

proof fn lemma_opp_at(list: Seq<OpportunityView>, id: Seq<char>, from: int, i: int)
    requires
        0 <= from <= i <= list.len(),
        forall|j: int| 0 <= j < i ==> (#[trigger] list[j]).id != id,
        i < list.len() ==> list[i].id == id,
    ensures
        opp_at(list, id, from) == i,
    decreases i - from,
{
    if from < i {
        assert(list[from].id != id);
        lemma_opp_at(list, id, from + 1, i);
    }
}

/// A closed trade's opportunity leaves the live ones and is the newest of the
/// expired, marked as closed; with fifty there already the oldest goes. A trade
/// that is open, or whose opportunity is not live, changes nothing.
pub proof fn law_a_closed_trade_expires_its_opportunity(j: Journal, t: PaperTrade, i: int)
    requires
        0 <= i <= j.active.len(),
        forall|k: int| 0 <= k < i ==> (#[trigger] j.active[k]).id != t.opportunity_id@,
        i < j.active.len() ==> j.active[i].id == t.opportunity_id@,
        j.expired.len() <= 50,
    ensures
        ({
            let after = reaped(j, t);
            let goes = t.closed_at is Some && i < j.active.len();
            let o = after.expired.last();
            &&& !goes ==> after == j
            &&& goes ==> after.active == j.active.remove(i) && o.id == t.opportunity_id@
                && o.invalidated && o.invalidation_reason == Some("trade_closed"@) && o.asset
                == j.active[i].asset && o.created_at == j.active[i].created_at
            &&& goes && j.expired.len() < 50 ==> after.expired.drop_last() == j.expired
            &&& goes && j.expired.len() == 50 ==> after.expired.drop_last()
                == j.expired.drop_first()
        }),
{
    lemma_opp_at(j.active, t.opportunity_id@, 0, i);
    let after = reaped(j, t);
    if t.closed_at is Some && i < j.active.len() {
        if j.expired.len() < 50 {
            assert(after.expired.drop_last() =~= j.expired);
        } else {
            assert(after.expired.drop_last() =~= j.expired.drop_first());
        }
    }
}

/// Opportunities are noted, and trades reaped, in turn.
pub proof fn law_opportunities_are_noted_in_turn(
    active: Seq<OpportunityView>,
    opps: Seq<Opportunity>,
    j: Journal,
    trades: Seq<PaperTrade>,
    n: nat,
)
    ensures
        all_noted(active, opps, 0) == active,
        all_noted(active, opps, n + 1) == noted(all_noted(active, opps, n), opps[n as int]@),
        all_reaped(j, trades, 0) == j,
        all_reaped(j, trades, n + 1) == reaped(all_reaped(j, trades, n), trades[n as int]),
{
}

} // verus!
