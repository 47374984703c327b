//! The book: resting orders, open positions, the ledger, and what is kept
//! about each of them by opportunity id.
use vstd::prelude::*;
use crate::clock::{on_calendar, shift, shifted, Stamp};
use crate::fees::EntryFeeSide;
use crate::hold::HoldClock;
use crate::key::Num;
use crate::models::{Candle, Direction, Opportunity, PaperTrade, TradeResult};
use crate::paper::counters::{zero_counters, HybridFillCounters};
use crate::paper::fill::{is_down_to, touches, worst, HybridAbandon};
use crate::paper::ticks::TickStore;
use crate::strmap::StrMap;
use crate::text::str_eq;

verus! {

/// An entry unfilled this long after its signal is cancelled by the limit
/// model.
pub const FILL_DEADLINE_SECS: i64 = 7200;

/// An entry unfilled this long after it came to rest is given up by the
/// hybrid model.
pub const HYBRID_ENTRY_MAX_AGE_SECS: i64 = 1800;

/// Candles kept per asset.
pub const RECENT_CAP: usize = 120;

/// A decided trade's geometry.
#[derive(Debug, Clone, Copy, PartialEq, Eq, Structural)]
pub struct TakeParams {
    pub entry: Num,
    pub stop: Num,
    pub tp: Num,
}

/// The stop is on the losing side of the entry and the target on the winning
/// side.
pub open spec fn valid_geometry(dir: Direction, entry: Num, stop: Num, tp: Num) -> bool {
    match dir {
        Direction::Bull => stop < entry < tp,
        Direction::Bear => tp < entry < stop,
    }
}

impl TakeParams {
    /// Whether the geometry makes sense for a direction.
    pub fn is_valid(&self, direction: Direction) -> (r: bool)
        ensures
            r == valid_geometry(direction, self.entry, self.stop, self.tp),
    {
        match direction {
            Direction::Bull => self.stop < self.entry && self.entry < self.tp,
            Direction::Bear => self.tp < self.entry && self.entry < self.stop,
        }
    }
}

/// The verdict on an opportunity, made before it reaches the book.
#[derive(Debug, Clone)]
pub enum Decision {
    Take(TakeParams),
    /// Not taken, for the named reason.
    Skip(String),
}

/// An entry order that waits for price to reach it.
#[derive(Debug, Clone)]
pub struct PendingFill {
    pub trade: PaperTrade,
    pub deadline: Stamp,
    /// Whether the signal bar was seen.
    pub seen_first_candle: bool,
    /// The signal bar's stamp: when the order came to rest.
    pub age_anchor: Option<Stamp>,
    /// Whether the bar before the signal bar traded to the entry.
    pub hybrid_pred_touch: bool,
    /// Whether chases are armed; decided on the signal bar.
    pub hybrid_armed: Option<bool>,
    pub hybrid_seen_decision_bar: bool,
    /// The decision bar's open, carried as the price of a deferred chase.
    pub hybrid_b0_open: Option<Num>,
    /// A completed bar closing past this price cancels the order.
    pub min_target: Option<Num>,
    /// When the setup became final.
    pub ready_at: Option<Stamp>,
    /// A cancel to be applied before the next bar's fill attempt.
    pub cancel_pending: Option<HybridAbandon>,
}

impl PendingFill {
    /// An equal order.
    pub fn dup(&self) -> (r: Self)
        ensures
            r == *self,
    {
        PendingFill {
            trade: self.trade.dup(),
            deadline: self.deadline,
            seen_first_candle: self.seen_first_candle,
            age_anchor: self.age_anchor,
            hybrid_pred_touch: self.hybrid_pred_touch,
            hybrid_armed: self.hybrid_armed,
            hybrid_seen_decision_bar: self.hybrid_seen_decision_bar,
            hybrid_b0_open: self.hybrid_b0_open,
            min_target: self.min_target,
            ready_at: self.ready_at,
            cancel_pending: self.cancel_pending,
        }
    }
}

/// How fills, exits and costs are modelled.
#[derive(Debug, Clone, Copy, PartialEq, Eq, Structural)]
pub struct Knobs {
    pub min_score: Num,
    pub rr_target: Num,
    pub max_hold_candles: usize,
    /// Charge fees.
    pub use_fees: bool,
    /// Open profit in R at which the stop moves to `trail_lock_r` (0 = off).
    pub breakeven_r: Num,
    pub trail_lock_r: Num,
    /// Stop-exit gap in basis points, where no asset entry matches.
    pub stop_gap_bps_default: Num,
    /// Half is banked at this R (0 = off).
    pub partial_tp_r: Num,
    pub risk_frac: Num,
    pub account_size: Num,
    /// Limit model: the signal bar itself may fill.
    pub allow_signal_bar_fill: bool,
    pub entry_slippage_r: Num,
    /// A bar that spans stop and target resolves to the stop.
    pub intrabar_stop_first: bool,
    /// A stop or target that the bar opens through is booked at the open
    /// instead of at its own price.
    pub exit_gap_at_open: bool,
    /// The hybrid model instead of the limit model.
    pub hybrid_fill: bool,
    /// Resolve bars by their prints, where there are any.
    pub tick_fill: bool,
    /// Tick model: an armed order whose cap is reached first is chased.
    pub tick_chase: bool,
    pub chase_r: Num,
    pub chase_requires_seed: bool,
    pub immediate_chase_at_open: bool,
    pub race_maker_first: bool,
    pub deferred_chase_at_open: bool,
    pub past_entry_fee: EntryFeeSide,
    pub cancel_on_target_consumed: bool,
    pub cancel_on_setup_invalidated: bool,
    /// An order that rested before the signal bar may fill on it.
    pub rest_on_ready_fill: bool,
    pub rest_min_lead_secs: i64,
    /// Close a trade held longer than this many bars that is no better than
    /// `derisk_below_r` (0 = off).
    pub derisk_after_min: usize,
    /// At zero, a stale trade that is flat or under water is closed.
    pub derisk_below_r: Num,
}

/// What is kept by opportunity id.
#[derive(Clone)]
pub struct IdBook {
    pub hold_counts: StrMap<HoldClock>,
    /// Best R seen per open trade.
    pub watermarks: StrMap<Num>,
    /// Trades that banked half.
    pub partial_taken: StrMap<()>,
    pub entry_fee_side: StrMap<EntryFeeSide>,
    /// Trades whose fill bar also reached the stop.
    pub first_touch_ids: StrMap<()>,
    /// When each resting order was placed.
    pub pending_placed_at: StrMap<Stamp>,
    /// When each placed order's setup became final.
    pub trade_ready_at: StrMap<Stamp>,
    /// Stops a strategy moved.
    pub stop_overrides: StrMap<Num>,
}

/// The prints a book resolves its bars by, and how often it could.
#[derive(Clone)]
pub struct TickTape {
    pub store: Option<TickStore>,
    pub fallback_bars: usize,
    pub resolved_bars: usize,
    pub walked: usize,
}

/// One asset's book under one set of knobs.
#[derive(Clone)]
pub struct PaperTrader {
    pub knobs: Knobs,
    /// Stop-exit gaps of the assets whose name holds the entry's key.
    pub stop_gap_bps_asset: Vec<(String, Num)>,
    pub tape: TickTape,
    pub hybrid_counters: HybridFillCounters,
    pub trades: Vec<PaperTrade>,
    pub open_trades: Vec<PaperTrade>,
    pub pending: Vec<PendingFill>,
    pub opportunities_seen: usize,
    pub opportunities_taken: usize,
    /// How many opportunities each reason turned away.
    pub skips: StrMap<usize>,
    /// The last candles of each asset, oldest first.
    pub recent_candles: Vec<Candle>,
    pub ids: IdBook,
    /// When each resolved order was placed and resolved.
    pub resting_intervals: Vec<(Stamp, Stamp)>,
    /// This bar's closes: the trade's place in `trades`, and whether it was a
    /// genuine stop exit.
    pub closed_this_bar: Vec<(usize, bool)>,
}

/// [`IdBook`] as maps.
pub struct IdMaps {
    pub clocks: Map<Seq<char>, HoldClock>,
    pub marks: Map<Seq<char>, Num>,
    pub partial: Map<Seq<char>, ()>,
    pub sides: Map<Seq<char>, EntryFeeSide>,
    pub first_touch: Map<Seq<char>, ()>,
    pub placed: Map<Seq<char>, Stamp>,
    pub ready: Map<Seq<char>, Stamp>,
    pub overrides: Map<Seq<char>, Num>,
}

impl View for IdBook {
    type V = IdMaps;

    open spec fn view(&self) -> IdMaps {
        IdMaps {
            clocks: self.hold_counts@,
            marks: self.watermarks@,
            partial: self.partial_taken@,
            sides: self.entry_fee_side@,
            first_touch: self.first_touch_ids@,
            placed: self.pending_placed_at@,
            ready: self.trade_ready_at@,
            overrides: self.stop_overrides@,
        }
    }
}

/// Everything a book keeps, apart from its knobs.
pub struct Book {
    pub gaps: Seq<(String, Num)>,
    pub trades: Seq<PaperTrade>,
    pub open: Seq<PaperTrade>,
    pub pending: Seq<PendingFill>,
    pub seen: int,
    pub taken: int,
    pub skips: Map<Seq<char>, usize>,
    pub counters: HybridFillCounters,
    pub recent: Seq<Candle>,
    pub ids: IdMaps,
    pub intervals: Seq<(Stamp, Stamp)>,
    pub closed: Seq<(usize, bool)>,
    pub tape: TickTape,
}

impl View for PaperTrader {
    type V = Book;

    open spec fn view(&self) -> Book {
        Book {
            gaps: self.stop_gap_bps_asset@,
            trades: self.trades@,
            open: self.open_trades@,
            pending: self.pending@,
            seen: self.opportunities_seen as int,
            taken: self.opportunities_taken as int,
            skips: self.skips@,
            counters: self.hybrid_counters,
            recent: self.recent_candles@,
            ids: self.ids@,
            intervals: self.resting_intervals@,
            closed: self.closed_this_bar@,
            tape: self.tape,
        }
    }
}

// ─── What the operations do to a book ───────────────────────────────────────

/// Nothing kept by any id.
pub open spec fn empty_ids() -> IdMaps {
    IdMaps {
        clocks: Map::empty(),
        marks: Map::empty(),
        partial: Map::empty(),
        sides: Map::empty(),
        first_touch: Map::empty(),
        placed: Map::empty(),
        ready: Map::empty(),
        overrides: Map::empty(),
    }
}

/// The book with nothing in it.
pub open spec fn empty_book() -> Book {
    Book {
        gaps: Seq::empty(),
        trades: Seq::empty(),
        open: Seq::empty(),
        pending: Seq::empty(),
        seen: 0,
        taken: 0,
        skips: Map::empty(),
        counters: zero_counters(),
        recent: Seq::empty(),
        ids: empty_ids(),
        intervals: Seq::empty(),
        closed: Seq::empty(),
        tape: TickTape { store: None, fallback_bars: 0, resolved_bars: 0, walked: 0 },
    }
}

/// The chase cap a run starts from: the key of 0.1.
pub const CHASE_R: Num = 0x3fb999999999999a;

/// The account size a run starts from: the key of 10000.0.
pub const ACCOUNT_SIZE: Num = 0x40c3880000000000;

/// The knobs a run starts from: the pessimistic ones.
pub open spec fn default_knobs(
    min_score: Num,
    rr_target: Num,
    max_hold_candles: usize,
) -> Knobs {
    Knobs {
        min_score,
        rr_target,
        max_hold_candles,
        use_fees: false,
        breakeven_r: 0,
        trail_lock_r: 0,
        stop_gap_bps_default: 0,
        partial_tp_r: 0,
        risk_frac: 0,
        account_size: ACCOUNT_SIZE,
        allow_signal_bar_fill: false,
        entry_slippage_r: 0,
        intrabar_stop_first: true,
        exit_gap_at_open: false,
        hybrid_fill: false,
        tick_fill: false,
        tick_chase: true,
        chase_r: CHASE_R,
        chase_requires_seed: true,
        immediate_chase_at_open: true,
        race_maker_first: false,
        deferred_chase_at_open: false,
        past_entry_fee: EntryFeeSide::Taker,
        cancel_on_target_consumed: false,
        cancel_on_setup_invalidated: false,
        rest_on_ready_fill: false,
        rest_min_lead_secs: 60,
        derisk_after_min: 0,
        derisk_below_r: 0,
    }
}

/// How many of the candles are the asset's.
pub open spec fn asset_count(s: Seq<Candle>, asset: u16) -> nat
    decreases s.len(),
{
    if s.len() == 0 {
        0
    } else {
        asset_count(s.drop_last(), asset) + if s.last().asset == asset {
            1nat
        } else {
            0nat
        }
    }
}

/// The place of the asset's oldest candle at or after `from`.
pub open spec fn first_of(s: Seq<Candle>, asset: u16, from: int) -> int
    decreases s.len() - from,
{
    if from >= s.len() || s[from].asset == asset {
        from
    } else {
        first_of(s, asset, from + 1)
    }
}

/// The asset's newest candle.
pub open spec fn last_of(s: Seq<Candle>, asset: u16) -> Option<Candle>
    decreases s.len(),
{
    if s.len() == 0 {
        None
    } else if s.last().asset == asset {
        Some(s.last())
    } else {
        last_of(s.drop_last(), asset)
    }
}

/// The asset's candles, oldest first.
pub open spec fn candles_of(s: Seq<Candle>, asset: u16) -> Seq<Candle>
    decreases s.len(),
{
    if s.len() == 0 {
        Seq::empty()
    } else if s.last().asset == asset {
        candles_of(s.drop_last(), asset).push(s.last())
    } else {
        candles_of(s.drop_last(), asset)
    }
}

/// The candles kept once `c` is added: its asset's oldest leaves when there
/// are more than [`RECENT_CAP`].
pub open spec fn remember(s: Seq<Candle>, c: Candle) -> Seq<Candle> {
    let t = s.push(c);
    if asset_count(t, c.asset) > RECENT_CAP {
        t.remove(first_of(t, c.asset, 0))
    } else {
        t
    }
}

/// An order leaves the book: its resting interval is closed.
pub open spec fn resting_ended(b: Book, id: Seq<char>, at: Stamp) -> Book {
    if b.ids.placed.contains_key(id) {
        Book {
            intervals: b.intervals.push((b.ids.placed[id], at)),
            ids: IdMaps { placed: b.ids.placed.remove(id), ..b.ids },
            ..b
        }
    } else {
        b
    }
}

/// A trade filled at a price and an instant.
pub open spec fn filled(t: PaperTrade, px: Num, at: Stamp) -> PaperTrade {
    PaperTrade { fill: px, filled_at: Some(at), ..t }
}

/// What is recorded of a fill, but for the open position itself.
pub open spec fn recorded_fill(
    b: Book,
    t: PaperTrade,
    px: Num,
    side: EntryFeeSide,
    at: Stamp,
) -> Book {
    let id = t.opportunity_id@;
    Book {
        trades: b.trades.push(filled(t, px, at)),
        taken: b.taken + 1,
        ids: IdMaps {
            sides: b.ids.sides.insert(id, side),
            clocks: b.ids.clocks.insert(id, HoldClock { candles_held: 0 }),
            marks: b.ids.marks.insert(id, 0),
            ..b.ids
        },
        ..b
    }
}

/// A fill is booked: the trade is recorded and opened.
pub open spec fn booked(b: Book, t: PaperTrade, px: Num, side: EntryFeeSide, at: Stamp) -> Book {
    let r = recorded_fill(b, t, px, side, at);
    Book { open: b.open.push(filled(t, px, at)), ..r }
}

/// The ledger's first undecided trade under an id, at or after `from`.
pub open spec fn undecided(trades: Seq<PaperTrade>, id: Seq<char>, from: int) -> int
    decreases trades.len() - from,
{
    if from >= trades.len() || (trades[from].opportunity_id@ == id && trades[from].result
        == TradeResult::Inconclusive) {
        from
    } else {
        undecided(trades, id, from + 1)
    }
}

/// A decided exit, before its costs.
#[derive(Debug)]
pub struct Close {
    pub id: String,
    pub result: TradeResult,
    pub r_pnl: Num,
    pub at: Stamp,
    /// A genuine stop exit: not a target, not a trailing lock, not a
    /// management close.
    pub is_stop_exit: bool,
}

/// What the costs of a close depend on.
#[derive(Debug, Clone, Copy, PartialEq, Eq, Structural)]
pub struct CloseTicket {
    /// The trade's place in the ledger.
    pub idx: usize,
    /// The exit's R before costs.
    pub r_pnl: Num,
    pub is_stop_exit: bool,
    /// Half was banked on the way.
    pub had_partial: bool,
    pub entry_side: EntryFeeSide,
    /// The fill bar also reached the stop.
    pub first_touch: bool,
}

/// A close is entered in the ledger: the first undecided trade under the id
/// takes the result, the raw R and the time.
pub open spec fn ledger_closed(
    b: Book,
    id: Seq<char>,
    result: TradeResult,
    r: Num,
    at: Stamp,
    is_stop_exit: bool,
) -> Book {
    let i = undecided(b.trades, id, 0);
    let partial = b.ids.partial.remove(id);
    if i < b.trades.len() {
        Book {
            trades: b.trades.update(
                i,
                PaperTrade { result, r_pnl: r, closed_at: Some(at), ..b.trades[i] },
            ),
            ids: IdMaps { partial, first_touch: b.ids.first_touch.remove(id), ..b.ids },
            closed: b.closed.push((i as usize, is_stop_exit)),
            ..b
        }
    } else {
        Book { ids: IdMaps { partial, ..b.ids }, ..b }
    }
}

/// The ticket of that close, when the ledger had such a trade.
pub open spec fn ticket_of(b: Book, id: Seq<char>, r: Num, is_stop_exit: bool) -> Option<CloseTicket> {
    let i = undecided(b.trades, id, 0);
    if i < b.trades.len() {
        Some(
            CloseTicket {
                idx: i as usize,
                r_pnl: r,
                is_stop_exit,
                had_partial: b.ids.partial.contains_key(id),
                entry_side: if b.ids.sides.contains_key(id) {
                    b.ids.sides[id]
                } else {
                    EntryFeeSide::Maker
                },
                first_touch: b.ids.first_touch.contains_key(id),
            },
        )
    } else {
        None
    }
}

/// What was kept about an open trade is dropped.
pub open spec fn forgotten(b: Book, id: Seq<char>) -> Book {
    Book {
        ids: IdMaps {
            marks: b.ids.marks.remove(id),
            partial: b.ids.partial.remove(id),
            sides: b.ids.sides.remove(id),
            overrides: b.ids.overrides.remove(id),
            ..b.ids
        },
        ..b
    }
}

/// A close is entered and the trade forgotten.
pub open spec fn closed_out(b: Book, k: Close) -> Book {
    forgotten(ledger_closed(b, k.id@, k.result, k.r_pnl, k.at, k.is_stop_exit), k.id@)
}

/// The first `n` closes are entered, in order.
pub open spec fn all_closed(b: Book, closes: Seq<Close>, n: nat) -> Book
    decreases n,
{
    if n == 0 {
        b
    } else {
        closed_out(all_closed(b, closes, (n - 1) as nat), closes[n - 1])
    }
}

/// The tickets of the first `n` closes.
pub open spec fn all_tickets(b: Book, closes: Seq<Close>, n: nat) -> Seq<CloseTicket>
    decreases n,
{
    if n == 0 {
        Seq::empty()
    } else {
        let k = closes[n - 1];
        let done = all_tickets(b, closes, (n - 1) as nat);
        match ticket_of(all_closed(b, closes, (n - 1) as nat), k.id@, k.r_pnl, k.is_stop_exit) {
            Some(t) => done.push(t),
            None => done,
        }
    }
}

/// The template a placed order rests on.
pub open spec fn order_template(o: Opportunity, take: TakeParams) -> PaperTrade {
    PaperTrade {
        opportunity_id: o.id,
        signal_type: o.signal_type,
        asset: o.asset,
        timeframe: o.timeframe,
        direction: o.direction,
        entry: take.entry,
        stop: take.stop,
        tp: take.tp,
        fill: take.entry,
        score: o.score,
        opened_at: o.created_at,
        filled_at: None,
        closed_at: None,
        result: TradeResult::Inconclusive,
        r_pnl: 0,
        fee_r: 0,
    }
}

/// A fresh order on a template.
pub open spec fn fresh_order(t: PaperTrade, deadline: Stamp, pred_touch: bool) -> PendingFill {
    PendingFill {
        trade: t,
        deadline,
        seen_first_candle: false,
        age_anchor: None,
        hybrid_pred_touch: pred_touch,
        hybrid_armed: None,
        hybrid_seen_decision_bar: false,
        hybrid_b0_open: None,
        min_target: None,
        ready_at: None,
        cancel_pending: None,
    }
}

/// Whether the asset's newest candle traded to the level.
pub open spec fn pred_touched(recent: Seq<Candle>, asset: u16, dir: Direction, level: Num) -> bool {
    match last_of(recent, asset) {
        Some(k) => touches(dir, k, level),
        None => false,
    }
}

/// When an order placed for a signal of some instant is cancelled.
pub open spec fn deadline_of(at: Stamp) -> int {
    shifted(at as int, FILL_DEADLINE_SECS as int)
}

/// An order is placed for a taken opportunity.
pub open spec fn placed_order(b: Book, o: Opportunity, take: TakeParams) -> Book {
    Book {
        pending: b.pending.push(
            fresh_order(
                order_template(o, take),
                deadline_of(o.created_at) as i128,
                pred_touched(b.recent, o.asset, o.direction, take.entry),
            ),
        ),
        ids: IdMaps { placed: b.ids.placed.insert(o.id@, o.created_at), ..b.ids },
        ..b
    }
}

/// The skip counts after one more skip for a reason.
pub open spec fn one_more_skip(skips: Map<Seq<char>, usize>, reason: Seq<char>) -> Map<
    Seq<char>,
    usize,
> {
    skips.insert(
        reason,
        if skips.contains_key(reason) {
            (skips[reason] + 1) as usize
        } else {
            1
        },
    )
}

/// An opportunity is evaluated.
pub open spec fn evaluated(b: Book, o: Opportunity, d: Decision) -> Book {
    let b1 = Book { seen: b.seen + 1, ..b };
    match d {
        Decision::Take(take) => placed_order(b1, o, take),
        Decision::Skip(reason) => Book { skips: one_more_skip(b.skips, reason@), ..b1 },
    }
}

/// The pending orders without those under an id.
pub open spec fn without(pending: Seq<PendingFill>, id: Seq<char>) -> Seq<PendingFill>
    decreases pending.len(),
{
    if pending.len() == 0 {
        Seq::empty()
    } else {
        let rest = without(pending.drop_last(), id);
        if pending.last().trade.opportunity_id@ == id {
            rest
        } else {
            rest.push(pending.last())
        }
    }
}

/// An order marked for cancellation because its setup was invalidated.
pub open spec fn marked_invalid(p: PendingFill, id: Seq<char>) -> PendingFill {
    if p.trade.opportunity_id@ == id && p.cancel_pending is None {
        PendingFill { cancel_pending: Some(HybridAbandon::SetupInvalidated), ..p }
    } else {
        p
    }
}

/// The newest order once its setup's readiness and first target are known.
pub open spec fn annotated(b: Book, ready_at: Option<Stamp>, min_target: Option<Num>) -> Book {
    let n = b.pending.len() - 1;
    if n < 0 {
        b
    } else {
        Book {
            pending: b.pending.update(n, PendingFill { ready_at, min_target, ..b.pending[n] }),
            ids: match ready_at {
                Some(at) => IdMaps {
                    ready: b.ids.ready.insert(b.pending[n].trade.opportunity_id@, at),
                    ..b.ids
                },
                None => b.ids,
            },
            ..b
        }
    }
}

/// The book once the orders of an id are cancelled.
pub open spec fn cancelled(b: Book, id: Seq<char>, at: Stamp) -> Book {
    let kept = without(b.pending, id);
    let c = Book { pending: kept, ..b };
    if kept.len() != b.pending.len() {
        resting_ended(c, id, at)
    } else {
        c
    }
}

/// The book once the target of an open position is moved.
pub open spec fn target_moved(b: Book, id: Seq<char>, tp: Num) -> Book {
    let i = find_id(b.open, id, 0);
    Book { open: b.open.update(i, PaperTrade { tp, ..b.open[i] }), ..b }
}

/// The book once an open position is closed at the market.
pub open spec fn closed_at_market(b: Book, id: Seq<char>, exit_r: Num, at: Stamp) -> Book {
    let left = Book { open: b.open.remove(find_id(b.open, id, 0)), ..b };
    let done = forgotten(
        ledger_closed(left, id, management_result(exit_r), exit_r, at, false),
        id,
    );
    Book { ids: IdMaps { clocks: done.ids.clocks.remove(id), ..done.ids }, ..done }
}

/// The book once a close's net figures are in.
pub open spec fn settled(
    b: Book,
    ticket: CloseTicket,
    net_r: Num,
    fee_r: Num,
    net_r_milli: i64,
) -> Book {
    Book {
        trades: b.trades.update(
            ticket.idx as int,
            PaperTrade { r_pnl: net_r, fee_r, ..b.trades[ticket.idx as int] },
        ),
        counters: if ticket.first_touch {
            HybridFillCounters {
                first_touch_stop_r_milli: (b.counters.first_touch_stop_r_milli
                    + net_r_milli) as i64,
                ..b.counters
            }
        } else {
            b.counters
        },
        ..b
    }
}

/// A position entered at a candle's close.
pub open spec fn market_trade(
    id: String,
    signal_type: u16,
    direction: Direction,
    stop: Num,
    tp: Num,
    score: Num,
    c: Candle,
) -> PaperTrade {
    PaperTrade {
        opportunity_id: id,
        signal_type,
        asset: c.asset,
        timeframe: c.timeframe,
        direction,
        entry: c.close,
        stop,
        tp,
        fill: c.close,
        score,
        opened_at: c.timestamp,
        filled_at: None,
        closed_at: None,
        result: TradeResult::Inconclusive,
        r_pnl: 0,
        fee_r: 0,
    }
}

/// The book once such a position is entered.
pub open spec fn entered_at_market(b: Book, t: PaperTrade, c: Candle) -> Book {
    booked(b, t, c.close, EntryFeeSide::Taker, c.timestamp)
}

/// Some trade of the list is under the id.
pub open spec fn has_id(trades: Seq<PaperTrade>, id: Seq<char>) -> bool {
    exists|i: int| 0 <= i < trades.len() && (#[trigger] trades[i]).opportunity_id@ == id
}

/// The first trade of the list under the id, at or after `from`.
pub open spec fn find_id(trades: Seq<PaperTrade>, id: Seq<char>, from: int) -> int
    decreases trades.len() - from,
{
    if from >= trades.len() || trades[from].opportunity_id@ == id {
        from
    } else {
        find_id(trades, id, from + 1)
    }
}

impl PaperTrader {
    /// Every booked trade was counted as taken, and the prints' cursor is in
    /// place.
    pub open spec fn wf(&self) -> bool {
        &&& self.opportunities_taken == self.trades@.len()
        &&& (self.tape.store matches Some(s) ==> s.wf())
    }

    /// An empty book with the pessimistic knobs: no fill on the signal bar,
    /// no slippage, stop first, the limit model.
    pub fn new(min_score: Num, rr_target: Num, max_hold_candles: usize) -> (r: Self)
        ensures
            r.wf(),
            r@ == empty_book(),
            r.knobs == default_knobs(min_score, rr_target, max_hold_candles),
            r.stop_gap_bps_asset@.len() == 0,
    {
        PaperTrader {
            knobs: Knobs {
                min_score,
                rr_target,
                max_hold_candles,
                use_fees: false,
                breakeven_r: 0,
                trail_lock_r: 0,
                stop_gap_bps_default: 0,
                partial_tp_r: 0,
                risk_frac: 0,
                account_size: ACCOUNT_SIZE,
                allow_signal_bar_fill: false,
                entry_slippage_r: 0,
                intrabar_stop_first: true,
                exit_gap_at_open: false,
                hybrid_fill: false,
                tick_fill: false,
                tick_chase: true,
                chase_r: CHASE_R,
                chase_requires_seed: true,
                immediate_chase_at_open: true,
                race_maker_first: false,
                deferred_chase_at_open: false,
                past_entry_fee: EntryFeeSide::Taker,
                cancel_on_target_consumed: false,
                cancel_on_setup_invalidated: false,
                rest_on_ready_fill: false,
                rest_min_lead_secs: 60,
                derisk_after_min: 0,
                derisk_below_r: 0,
            },
            stop_gap_bps_asset: Vec::new(),
            tape: TickTape { store: None, fallback_bars: 0, resolved_bars: 0, walked: 0 },
            hybrid_counters: HybridFillCounters::default(),
            trades: Vec::new(),
            open_trades: Vec::new(),
            pending: Vec::new(),
            opportunities_seen: 0,
            opportunities_taken: 0,
            skips: StrMap::new(),
            recent_candles: Vec::new(),
            ids: IdBook {
                hold_counts: StrMap::new(),
                watermarks: StrMap::new(),
                partial_taken: StrMap::new(),
                entry_fee_side: StrMap::new(),
                first_touch_ids: StrMap::new(),
                pending_placed_at: StrMap::new(),
                trade_ready_at: StrMap::new(),
                stop_overrides: StrMap::new(),
            },
            resting_intervals: Vec::new(),
            closed_this_bar: Vec::new(),
        }
    }

    // ─── Recent candles ─────────────────────────────────────────────────────

    /// Add a candle to its asset's recent ones.
    pub(crate) fn remember_candle(&mut self, candle: &Candle)
        requires
            old(self).wf(),
        ensures
            final(self).wf(),
            final(self).knobs == old(self).knobs,
            final(self)@ == (Book { recent: remember(old(self)@.recent, *candle), ..old(self)@ }),
    {
        self.recent_candles.push(*candle);
        let ghost t = self.recent_candles@;
        let mut count: usize = 0;
        let mut i: usize = 0;
        while i < self.recent_candles.len()
            invariant
                self.recent_candles@ == t,
                i <= t.len(),
                count <= i,
                count == asset_count(t.subrange(0, i as int), candle.asset),
            decreases t.len() - i,
        {
            proof {
                assert(t.subrange(0, i + 1).drop_last() =~= t.subrange(0, i as int));
            }
            if self.recent_candles[i].asset == candle.asset {
                count = count + 1;
            }
            i = i + 1;
        }
        proof {
            assert(t.subrange(0, i as int) =~= t);
        }
        if count > RECENT_CAP {
            let mut k: usize = 0;
            proof {
                lemma_first_of_exists(t, candle.asset, t.len() - 1, 0);
            }
            while self.recent_candles[k].asset != candle.asset
                invariant
                    self.recent_candles@ == t,
                    first_of(t, candle.asset, 0) < t.len(),
                    k <= first_of(t, candle.asset, 0),
                    k < self.recent_candles.len(),
                    first_of(t, candle.asset, k as int) == first_of(t, candle.asset, 0),
                decreases t.len() - k,
            {
                k = k + 1;
                proof {
                    lemma_first_of_bounds(t, candle.asset, k as int);
                }
            }
            self.recent_candles.remove(k);
        }
    }

    /// The asset's recent candles, oldest first: what a strategy is shown
    /// when it is asked about an opportunity.
    pub fn recent_for(&self, asset: u16) -> (r: Vec<Candle>)
        ensures
            r@ == candles_of(self@.recent, asset),
    {
        let mut out: Vec<Candle> = Vec::new();
        let mut i: usize = 0;
        let ghost t = self.recent_candles@;
        while i < self.recent_candles.len()
            invariant
                self.recent_candles@ == t,
                i <= t.len(),
                out@ == candles_of(t.subrange(0, i as int), asset),
            decreases t.len() - i,
        {
            proof {
                assert(t.subrange(0, i + 1).drop_last() =~= t.subrange(0, i as int));
            }
            if self.recent_candles[i].asset == asset {
                out.push(self.recent_candles[i]);
            }
            i = i + 1;
        }
        proof {
            assert(t.subrange(0, i as int) =~= t);
        }
        out
    }

    fn last_touched(&self, asset: u16, dir: Direction, level: Num) -> (r: bool)
        ensures
            r == pred_touched(self@.recent, asset, dir, level),
    {
        let ghost t = self.recent_candles@;
        let mut i: usize = self.recent_candles.len();
        proof {
            assert(t.subrange(0, i as int) =~= t);
        }
        while i > 0
            invariant
                self.recent_candles@ == t,
                i <= t.len(),
                last_of(t, asset) == last_of(t.subrange(0, i as int), asset),
            decreases i,
        {
            proof {
                assert(t.subrange(0, i as int).drop_last() =~= t.subrange(0, i - 1));
            }
            i = i - 1;
            if self.recent_candles[i].asset == asset {
                return is_down_to(dir, worst(dir, &self.recent_candles[i]), level);
            }
        }
        false
    }

    // ─── Placing orders ─────────────────────────────────────────────────────

    /// Count an opportunity, then place its order or count the skip, as
    /// decided. Returns the order's trade, which is booked only when price
    /// reaches the entry.
    pub fn evaluate(&mut self, opp: &Opportunity, decision: &Decision) -> (r: Option<PaperTrade>)
        requires
            old(self).wf(),
            old(self)@.seen < usize::MAX,
            decision is Take ==> on_calendar(deadline_of(opp.created_at)),
            decision matches Decision::Skip(reason) ==> old(self)@.skips.contains_key(reason@)
                ==> old(self)@.skips[reason@] < usize::MAX,
        ensures
            final(self).wf(),
            final(self).knobs == old(self).knobs,
            final(self)@ == evaluated(old(self)@, *opp, *decision),
            r == match *decision {
                Decision::Take(take) => Some(order_template(*opp, take)),
                Decision::Skip(reason) => None,
            },
    {
        self.opportunities_seen = self.opportunities_seen + 1;
        match decision {
            Decision::Take(take) => Some(self.place_order(opp, take)),
            Decision::Skip(reason) => {
                let n: usize = match self.skips.get(reason) {
                    Some(k) => k + 1,
                    None => 1,
                };
                self.skips.insert(reason.clone(), n);
                None
            },
        }
    }

    /// Whether `n` more opportunities can be counted, whatever turns them away.
    pub fn can_see(&self, n: usize) -> (r: bool)
        ensures
            r == (self@.seen + n <= usize::MAX && forall|k: Seq<char>| #[trigger]
                self@.skips.contains_key(k) ==> self@.skips[k] + n <= usize::MAX),
    {
        if self.opportunities_seen > usize::MAX - n {
            return false;
        }
        let keys = self.skips.keys();
        let mut i: usize = 0;
        while i < keys.len()
            invariant
                i <= keys@.len(),
                forall|j: int|
                    0 <= j < keys@.len() ==> self@.skips.contains_key((#[trigger] keys@[j])@),
                forall|j: int|
                    0 <= j < i ==> self@.skips[(#[trigger] keys@[j])@] + n <= usize::MAX,
            decreases keys@.len() - i,
        {
            assert(self@.skips.contains_key(keys@[i as int]@));
            match self.skips.get(&keys[i]) {
                Some(k) => {
                    if k > usize::MAX - n {
                        return false;
                    }
                },
                None => {},
            }
            i = i + 1;
        }
        true
    }

    /// Place a resting entry order.
    pub(crate) fn place_order(&mut self, opp: &Opportunity, take: &TakeParams) -> (r: PaperTrade)
        requires
            old(self).wf(),
            on_calendar(deadline_of(opp.created_at)),
        ensures
            final(self).wf(),
            final(self).knobs == old(self).knobs,
            final(self)@ == placed_order(old(self)@, *opp, *take),
            r == order_template(*opp, *take),
    {
        let trade = PaperTrade {
            opportunity_id: opp.id.clone(),
            signal_type: opp.signal_type,
            asset: opp.asset,
            timeframe: opp.timeframe,
            direction: opp.direction,
            entry: take.entry,
            stop: take.stop,
            tp: take.tp,
            fill: take.entry,
            score: opp.score,
            opened_at: opp.created_at,
            filled_at: None,
            closed_at: None,
            result: TradeResult::Inconclusive,
            r_pnl: 0,
            fee_r: 0,
        };
        let template = trade.dup();
        let deadline: Stamp = shift(opp.created_at, FILL_DEADLINE_SECS);
        let pred_touch = self.last_touched(opp.asset, opp.direction, take.entry);
        self.ids.pending_placed_at.insert(opp.id.clone(), opp.created_at);
        self.pending.push(
            PendingFill {
                trade,
                deadline,
                seen_first_candle: false,
                age_anchor: None,
                hybrid_pred_touch: pred_touch,
                hybrid_armed: None,
                hybrid_seen_decision_bar: false,
                hybrid_b0_open: None,
                min_target: None,
                ready_at: None,
                cancel_pending: None,
            },
        );
        template
    }

    /// Stamp the newest order with when its setup became final and with the
    /// price past which its move is spent.
    pub fn annotate_last_pending(&mut self, ready_at: Option<Stamp>, min_target: Option<Num>)
        requires
            old(self).wf(),
        ensures
            final(self).wf(),
            final(self).knobs == old(self).knobs,
            final(self)@ == annotated(old(self)@, ready_at, min_target),
    {
        let n: usize = self.pending.len();
        if n == 0 {
            return;
        }
        let mut last = self.pending[n - 1].dup();
        last.ready_at = ready_at;
        last.min_target = min_target;
        if let Some(at) = ready_at {
            self.ids.trade_ready_at.insert(last.trade.opportunity_id.clone(), at);
        }
        self.pending.set(n - 1, last);
    }

    // ─── Watchdogs and cancels ──────────────────────────────────────────────

    /// The ids of the orders the invalidation watchdog may still cancel; none
    /// while it is off.
    pub fn pending_watchdog_ids(&self) -> (r: Vec<String>)
        ensures
            !self.knobs.cancel_on_setup_invalidated ==> r@.len() == 0,
            self.knobs.cancel_on_setup_invalidated ==> r@ == watchdog_ids(self@.pending),
    {
        let mut out: Vec<String> = Vec::new();
        if !self.knobs.cancel_on_setup_invalidated {
            return out;
        }
        let ghost p = self.pending@;
        let mut i: usize = 0;
        while i < self.pending.len()
            invariant
                self.pending@ == p,
                i <= p.len(),
                out@ == watchdog_ids(p.subrange(0, i as int)),
            decreases p.len() - i,
        {
            proof {
                assert(p.subrange(0, i + 1).drop_last() =~= p.subrange(0, i as int));
            }
            if self.pending[i].cancel_pending.is_none() {
                out.push(self.pending[i].trade.opportunity_id.clone());
            }
            i = i + 1;
        }
        proof {
            assert(p.subrange(0, i as int) =~= p);
        }
        out
    }

    /// Mark an order whose setup was invalidated as of the previous bar's
    /// close. The cancel is applied before the next bar's fill attempt.
    pub fn cancel_pending_invalidated(&mut self, opp_id: &str)
        requires
            old(self).wf(),
        ensures
            final(self).wf(),
            final(self).knobs == old(self).knobs,
            final(self)@ == (Book {
                pending: if old(self).knobs.cancel_on_setup_invalidated {
                    old(self)@.pending.map_values(|p: PendingFill| marked_invalid(p, opp_id@))
                } else {
                    old(self)@.pending
                },
                ..old(self)@
            }),
    {
        if !self.knobs.cancel_on_setup_invalidated {
            return;
        }
        let ghost want = self.pending@.map_values(|p: PendingFill| marked_invalid(p, opp_id@));
        let ghost p0 = self.pending@;
        let mut i: usize = 0;
        while i < self.pending.len()
            invariant
                self.wf(),
                self.knobs == old(self).knobs,
                self.pending@.len() == p0.len(),
                i <= p0.len(),
                self@ == (Book { pending: self.pending@, ..old(self)@ }),
                want.len() == p0.len(),
                forall|j: int| 0 <= j < p0.len() ==> #[trigger] want[j] == marked_invalid(p0[j], opp_id@),
                forall|j: int| 0 <= j < i ==> #[trigger] self.pending@[j] == want[j],
                forall|j: int| i <= j < p0.len() ==> #[trigger] self.pending@[j] == p0[j],
            decreases p0.len() - i,
        {
            if str_eq(self.pending[i].trade.opportunity_id.as_str(), opp_id)
                && self.pending[i].cancel_pending.is_none() {
                let mut p = self.pending[i].dup();
                p.cancel_pending = Some(HybridAbandon::SetupInvalidated);
                self.pending.set(i, p);
            }
            i = i + 1;
        }
        proof {
            assert(self.pending@ =~= want);
        }
    }

    /// The ids of all resting orders.
    pub fn pending_ids(&self) -> (r: Vec<String>)
        ensures
            r@ == self@.pending.map_values(|p: PendingFill| p.trade.opportunity_id),
    {
        let mut out: Vec<String> = Vec::new();
        let mut i: usize = 0;
        while i < self.pending.len()
            invariant
                i <= self.pending@.len(),
                out@.len() == i,
                forall|j: int|
                    0 <= j < i ==> #[trigger] out@[j] == self.pending@[j].trade.opportunity_id,
            decreases self.pending@.len() - i,
        {
            out.push(self.pending[i].trade.opportunity_id.clone());
            i = i + 1;
        }
        proof {
            assert(out@ =~= self@.pending.map_values(|p: PendingFill| p.trade.opportunity_id));
        }
        out
    }

    /// Cancel a resting order outright: it leaves the book and books no
    /// trade. An id that does not rest changes nothing.
    pub fn cancel_pending_by_id(&mut self, opp_id: &String, at: Stamp)
        requires
            old(self).wf(),
        ensures
            final(self).wf(),
            final(self).knobs == old(self).knobs,
            final(self)@ == cancelled(old(self)@, opp_id@, at),
    {
        let ghost p = self.pending@;
        let mut kept: Vec<PendingFill> = Vec::new();
        let mut i: usize = 0;
        while i < self.pending.len()
            invariant
                self.pending@ == p,
                i <= p.len(),
                kept@ == without(p.subrange(0, i as int), opp_id@),
            decreases p.len() - i,
        {
            proof {
                assert(p.subrange(0, i + 1).drop_last() =~= p.subrange(0, i as int));
            }
            if self.pending[i].trade.opportunity_id != *opp_id {
                kept.push(self.pending[i].dup());
            }
            i = i + 1;
        }
        proof {
            assert(p.subrange(0, i as int) =~= p);
        }
        let removed = kept.len() != self.pending.len();
        self.pending = kept;
        if removed {
            self.end_resting(opp_id, at);
        }
    }

    /// Close out an order's resting interval.
    pub(crate) fn end_resting(&mut self, opp_id: &String, at: Stamp)
        requires
            old(self).wf(),
        ensures
            final(self).wf(),
            final(self).knobs == old(self).knobs,
            final(self)@ == resting_ended(old(self)@, opp_id@, at),
    {
        let found = self.ids.pending_placed_at.get(opp_id);
        if found.is_some() {
            self.ids.pending_placed_at.remove(opp_id);
            self.resting_intervals.push((found.unwrap(), at));
        }
    }

    // ─── Fills and closes ───────────────────────────────────────────────────

    /// Record a filled trade in the ledger and start what is kept about it.
    pub(crate) fn record_fill(
        &mut self,
        trade: &PaperTrade,
        fill_px: Num,
        entry_side: EntryFeeSide,
        filled_at: Stamp,
    ) -> (r: PaperTrade)
        requires
            old(self).wf(),
        ensures
            final(self).wf(),
            final(self).knobs == old(self).knobs,
            final(self)@ == recorded_fill(old(self)@, *trade, fill_px, entry_side, filled_at),
            r == filled(*trade, fill_px, filled_at),
    {
        let mut t = trade.dup();
        t.fill = fill_px;
        t.filled_at = Some(filled_at);
        self.ids.entry_fee_side.insert(t.opportunity_id.clone(), entry_side);
        self.trades.push(t.dup());
        let taken: usize = self.trades.len();
        self.opportunities_taken = taken;
        self.ids.hold_counts.insert(t.opportunity_id.clone(), HoldClock::default());
        self.ids.watermarks.insert(t.opportunity_id.clone(), 0);
        t
    }

    /// Book a filled order: it is recorded and opened, and raced from the
    /// next candle on.
    pub(crate) fn book_fill(
        &mut self,
        trade: &PaperTrade,
        fill_px: Num,
        entry_side: EntryFeeSide,
        filled_at: Stamp,
    )
        requires
            old(self).wf(),
        ensures
            final(self).wf(),
            final(self).knobs == old(self).knobs,
            final(self)@ == booked(old(self)@, *trade, fill_px, entry_side, filled_at),
    {
        let t = self.record_fill(trade, fill_px, entry_side, filled_at);
        self.open_trades.push(t);
    }

    /// Enter a close in the ledger. What it costs is settled from the ticket.
    pub(crate) fn close_trade(
        &mut self,
        opp_id: &String,
        result: TradeResult,
        r_pnl: Num,
        closed_at: Stamp,
        is_stop_exit: bool,
    ) -> (r: Option<CloseTicket>)
        requires
            old(self).wf(),
        ensures
            final(self).wf(),
            final(self).knobs == old(self).knobs,
            final(self)@ == ledger_closed(
                old(self)@,
                opp_id@,
                result,
                r_pnl,
                closed_at,
                is_stop_exit,
            ),
            r == ticket_of(old(self)@, opp_id@, r_pnl, is_stop_exit),
    {
        let had_partial = self.ids.partial_taken.remove(opp_id).is_some();
        let entry_side = match self.ids.entry_fee_side.get(opp_id) {
            Some(s) => s,
            None => EntryFeeSide::Maker,
        };
        let mut idx: usize = 0;
        while idx < self.trades.len() && !(self.trades[idx].opportunity_id == *opp_id
            && self.trades[idx].result == TradeResult::Inconclusive)
            invariant
                self.trades@ == old(self).trades@,
                idx <= self.trades@.len(),
                undecided(self.trades@, opp_id@, idx as int) == undecided(
                    self.trades@,
                    opp_id@,
                    0,
                ),
            decreases self.trades@.len() - idx,
        {
            idx = idx + 1;
        }
        if idx >= self.trades.len() {
            return None;
        }
        let mut t = self.trades[idx].dup();
        t.result = result;
        t.r_pnl = r_pnl;
        t.closed_at = Some(closed_at);
        self.trades.set(idx, t);
        let first_touch = self.ids.first_touch_ids.remove(opp_id).is_some();
        self.closed_this_bar.push((idx, is_stop_exit));
        Some(CloseTicket { idx, r_pnl, is_stop_exit, had_partial, entry_side, first_touch })
    }

    /// Drop what was kept about an open trade.
    pub(crate) fn forget(&mut self, opp_id: &String)
        requires
            old(self).wf(),
        ensures
            final(self).wf(),
            final(self).knobs == old(self).knobs,
            final(self)@ == forgotten(old(self)@, opp_id@),
    {
        self.ids.watermarks.remove(opp_id);
        self.ids.partial_taken.remove(opp_id);
        self.ids.entry_fee_side.remove(opp_id);
        self.ids.stop_overrides.remove(opp_id);
    }

    /// Enter every close in order and forget its trade.
    pub(crate) fn apply_closes(&mut self, closes: &Vec<Close>) -> (r: Vec<CloseTicket>)
        requires
            old(self).wf(),
        ensures
            final(self).wf(),
            final(self).knobs == old(self).knobs,
            final(self)@ == all_closed(old(self)@, closes@, closes@.len()),
            r@ == all_tickets(old(self)@, closes@, closes@.len()),
    {
        let mut tickets: Vec<CloseTicket> = Vec::new();
        let mut i: usize = 0;
        while i < closes.len()
            invariant
                self.wf(),
                self.knobs == old(self).knobs,
                i <= closes@.len(),
                self@ == all_closed(old(self)@, closes@, i as nat),
                tickets@ == all_tickets(old(self)@, closes@, i as nat),
            decreases closes@.len() - i,
        {
            let k = &closes[i];
            let ticket = self.close_trade(&k.id, k.result, k.r_pnl, k.at, k.is_stop_exit);
            self.forget(&k.id);
            if let Some(t) = ticket {
                tickets.push(t);
            }
            i = i + 1;
        }
        tickets
    }

    /// Write a close's net R and fee, and attribute the net R (in
    /// thousandths) to the first-touch sum where the ticket says so.
    pub fn settle_close(&mut self, ticket: &CloseTicket, net_r: Num, fee_r: Num, net_r_milli: i64)
        requires
            old(self).wf(),
            ticket.idx < old(self)@.trades.len(),
            ticket.first_touch ==> i64::MIN <= old(self)@.counters.first_touch_stop_r_milli
                + net_r_milli <= i64::MAX,
        ensures
            final(self).wf(),
            final(self).knobs == old(self).knobs,
            final(self)@ == settled(old(self)@, *ticket, net_r, fee_r, net_r_milli),
    {
        let mut t = self.trades[ticket.idx].dup();
        t.r_pnl = net_r;
        t.fee_r = fee_r;
        self.trades.set(ticket.idx, t);
        if ticket.first_touch {
            self.hybrid_counters.first_touch_stop_r_milli =
            self.hybrid_counters.first_touch_stop_r_milli + net_r_milli;
        }
    }

    // ─── Strategy-managed positions ─────────────────────────────────────────

    /// Open a position at this bar's close as a taker. Refused when the
    /// geometry makes no sense or the ledger already has the id.
    pub fn book_market_entry(
        &mut self,
        opportunity_id: &String,
        signal_type: u16,
        direction: Direction,
        stop: Num,
        tp: Num,
        score: Num,
        candle: &Candle,
    ) -> (r: bool)
        requires
            old(self).wf(),
        ensures
            final(self).wf(),
            final(self).knobs == old(self).knobs,
            r == (valid_geometry(direction, candle.close, stop, tp) && !has_id(
                old(self)@.trades,
                opportunity_id@,
            )),
            !r ==> final(self)@ == old(self)@,
            r ==> final(self)@ == entered_at_market(
                old(self)@,
                market_trade(*opportunity_id, signal_type, direction, stop, tp, score, *candle),
                *candle,
            ),
    {
        let take = TakeParams { entry: candle.close, stop, tp };
        if !take.is_valid(direction) {
            return false;
        }
        if find_trade(&self.trades, opportunity_id) < self.trades.len() {
            return false;
        }
        let trade = PaperTrade {
            opportunity_id: opportunity_id.clone(),
            signal_type,
            asset: candle.asset,
            timeframe: candle.timeframe,
            direction,
            entry: candle.close,
            stop,
            tp,
            fill: candle.close,
            score,
            opened_at: candle.timestamp,
            filled_at: None,
            closed_at: None,
            result: TradeResult::Inconclusive,
            r_pnl: 0,
            fee_r: 0,
        };
        self.book_fill(&trade, candle.close, EntryFeeSide::Taker, candle.timestamp);
        true
    }

    /// Move an open trade's stop, from the next candle on.
    pub fn set_open_stop(&mut self, opportunity_id: &String, stop: Num) -> (r: bool)
        requires
            old(self).wf(),
        ensures
            final(self).wf(),
            final(self).knobs == old(self).knobs,
            r == has_id(old(self)@.open, opportunity_id@),
            final(self)@ == if r {
                Book {
                    ids: IdMaps {
                        overrides: old(self)@.ids.overrides.insert(opportunity_id@, stop),
                        ..old(self)@.ids
                    },
                    ..old(self)@
                }
            } else {
                old(self)@
            },
    {
        if find_trade(&self.open_trades, opportunity_id) >= self.open_trades.len() {
            return false;
        }
        self.ids.stop_overrides.insert(opportunity_id.clone(), stop);
        true
    }

    /// Move an open trade's target, from the next candle on.
    pub fn set_open_tp(&mut self, opportunity_id: &String, tp: Num) -> (r: bool)
        requires
            old(self).wf(),
        ensures
            final(self).wf(),
            final(self).knobs == old(self).knobs,
            r == has_id(old(self)@.open, opportunity_id@),
            final(self)@ == if r {
                target_moved(old(self)@, opportunity_id@, tp)
            } else {
                old(self)@
            },
    {
        let i: usize = find_trade(&self.open_trades, opportunity_id);
        if i >= self.open_trades.len() {
            return false;
        }
        let mut t = self.open_trades[i].dup();
        t.tp = tp;
        self.open_trades.set(i, t);
        true
    }

    /// The stop that applies to an open trade: the one a strategy moved it
    /// to, else the planned one.
    pub fn effective_stop(&self, trade: &PaperTrade) -> (r: Num)
        ensures
            r == stop_in_force(self@.ids.overrides, *trade),
    {
        match self.ids.stop_overrides.get(&trade.opportunity_id) {
            Some(s) => s,
            None => trade.stop,
        }
    }

    /// Close an open trade at this bar's close, `exit_r` being its R there. A
    /// negative R is a loss, any other is inconclusive.
    pub fn close_open_at_market(
        &mut self,
        opportunity_id: &String,
        candle: &Candle,
        exit_r: Num,
    ) -> (r: Option<Option<CloseTicket>>)
        requires
            old(self).wf(),
        ensures
            final(self).wf(),
            final(self).knobs == old(self).knobs,
            r is Some <==> has_id(old(self)@.open, opportunity_id@),
            r is None ==> final(self)@ == old(self)@,
            r matches Some(ticket) ==> ticket == ticket_of(
                old(self)@,
                opportunity_id@,
                exit_r,
                false,
            ) && final(self)@ == closed_at_market(
                old(self)@,
                opportunity_id@,
                exit_r,
                candle.timestamp,
            ),
    {
        let pos: usize = find_trade(&self.open_trades, opportunity_id);
        if pos >= self.open_trades.len() {
            return None;
        }
        self.open_trades.remove(pos);
        let result = if exit_r < 0 {
            TradeResult::Loss
        } else {
            TradeResult::Inconclusive
        };
        let ticket = self.close_trade(opportunity_id, result, exit_r, candle.timestamp, false);
        self.forget(opportunity_id);
        self.ids.hold_counts.remove(opportunity_id);
        Some(ticket)
    }

    /// Drop what is still open at the end of a run; the ledger keeps it as it
    /// is, undecided.
    pub fn close_remaining(&mut self)
        requires
            old(self).wf(),
        ensures
            final(self).wf(),
            final(self).knobs == old(self).knobs,
            final(self)@ == (Book { open: Seq::empty(), ..old(self)@ }),
    {
        self.open_trades.clear();
    }
}

/// The ids of the orders without a cancel pending.
pub open spec fn watchdog_ids(pending: Seq<PendingFill>) -> Seq<String>
    decreases pending.len(),
{
    if pending.len() == 0 {
        Seq::empty()
    } else if pending.last().cancel_pending is None {
        watchdog_ids(pending.drop_last()).push(pending.last().trade.opportunity_id)
    } else {
        watchdog_ids(pending.drop_last())
    }
}

/// The stop that applies to an open trade.
pub open spec fn stop_in_force(overrides: Map<Seq<char>, Num>, t: PaperTrade) -> Num {
    if overrides.contains_key(t.opportunity_id@) {
        overrides[t.opportunity_id@]
    } else {
        t.stop
    }
}

/// The result of a close that is neither stop nor target.
pub open spec fn management_result(r: Num) -> TradeResult {
    if r < 0 {
        TradeResult::Loss
    } else {
        TradeResult::Inconclusive
    }
}

/// The place of the first trade under an id, or the list's length.
pub(crate) fn find_trade(trades: &Vec<PaperTrade>, id: &String) -> (r: usize)
    ensures
        r <= trades@.len(),
        r == find_id(trades@, id@, 0),
        r < trades@.len() <==> has_id(trades@, id@),
{
    let mut i: usize = 0;
    while i < trades.len() && trades[i].opportunity_id != *id
        invariant
            i <= trades@.len(),
            find_id(trades@, id@, i as int) == find_id(trades@, id@, 0),
            forall|j: int| 0 <= j < i ==> (#[trigger] trades@[j]).opportunity_id@ != id@,
        decreases trades@.len() - i,
    {
        i = i + 1;
    }
    i
}

proof fn lemma_first_of_bounds(s: Seq<Candle>, asset: u16, from: int)
    requires
        0 <= from <= s.len(),
    ensures
        from <= first_of(s, asset, from) <= s.len(),
    decreases s.len() - from,
{
    if from < s.len() && s[from].asset != asset {
        lemma_first_of_bounds(s, asset, from + 1);
    }
}

proof fn lemma_first_of_exists(s: Seq<Candle>, asset: u16, at: int, from: int)
    requires
        0 <= from <= at < s.len(),
        s[at].asset == asset,
    ensures
        from <= first_of(s, asset, from) <= at,
    decreases at - from,
{
    if s[from].asset != asset {
        lemma_first_of_exists(s, asset, at, from + 1);
    }
}

} // verus!
