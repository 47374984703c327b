//! What happens to orders and positions, as it happens.
use vstd::prelude::*;
use crate::clock::{iso_stamp, on_calendar, stamp_text, Stamp, ISO};
use crate::key::Num;
use crate::models::{asset_name, sig_type_name, Direction, Names, TradeResult};
use crate::record::{num_of, text_of, Fields, Leaf, LeafView, Record};

verus! {

/// Why a position closed.
#[derive(Debug, Clone, Copy, PartialEq, Eq, Structural)]
pub enum ExitReason {
    /// A genuine stop exit.
    Stop,
    /// The stop had been moved to a profit lock.
    TrailLock,
    /// The target was reached.
    Target,
    /// The hold limit was reached.
    Timeout,
    /// A stale trade below its threshold.
    Derisk,
    /// The strategy closed it.
    Management,
}

impl ExitReason {
    /// The reason's name.
    pub open spec fn label(self) -> Seq<char> {
        match self {
            ExitReason::Stop => "stop"@,
            ExitReason::TrailLock => "trail_lock"@,
            ExitReason::Target => "target"@,
            ExitReason::Timeout => "timeout"@,
            ExitReason::Derisk => "derisk"@,
            ExitReason::Management => "management"@,
        }
    }

    /// The reason's name.
    pub fn as_str(&self) -> (r: &'static str)
        ensures
            r@ == self.label(),
    {
        match self {
            ExitReason::Stop => "stop",
            ExitReason::TrailLock => "trail_lock",
            ExitReason::Target => "target",
            ExitReason::Timeout => "timeout",
            ExitReason::Derisk => "derisk",
            ExitReason::Management => "management",
        }
    }
}

/// Why a resting entry order was cancelled unfilled.
#[derive(Debug, Clone, Copy, PartialEq, Eq, Structural)]
pub enum CancelReason {
    /// The fill deadline lapsed.
    Deadline,
    /// A bar opened through the stop.
    GapStop,
    /// A bar opened past the target.
    TpOpen,
    /// The target was reached while unfilled.
    TpRange,
    /// The order rested too long.
    Age,
    /// A bar closed past the order's target.
    TargetConsumed,
    /// The setup was invalidated.
    SetupInvalidated,
    /// It was cancelled outright.
    Driver,
}

impl CancelReason {
    /// The reason's name.
    pub open spec fn label(self) -> Seq<char> {
        match self {
            CancelReason::Deadline => "deadline"@,
            CancelReason::GapStop => "gap_stop"@,
            CancelReason::TpOpen => "tp_open"@,
            CancelReason::TpRange => "tp_range"@,
            CancelReason::Age => "age"@,
            CancelReason::TargetConsumed => "target_consumed"@,
            CancelReason::SetupInvalidated => "setup_invalidated"@,
            CancelReason::Driver => "driver"@,
        }
    }

    /// The reason's name.
    pub fn as_str(&self) -> (r: &'static str)
        ensures
            r@ == self.label(),
    {
        match self {
            CancelReason::Deadline => "deadline",
            CancelReason::GapStop => "gap_stop",
            CancelReason::TpOpen => "tp_open",
            CancelReason::TpRange => "tp_range",
            CancelReason::Age => "age",
            CancelReason::TargetConsumed => "target_consumed",
            CancelReason::SetupInvalidated => "setup_invalidated",
            CancelReason::Driver => "driver",
        }
    }
}

/// One transition of the book.
#[derive(Debug, Clone)]
pub enum BookEvent {
    /// An opportunity was offered and not taken.
    Skipped {
        opportunity_id: String,
        asset: u16,
        signal_type: u16,
        reason: String,
        at: Stamp,
    },
    /// An entry order rests.
    EntryPlaced {
        opportunity_id: String,
        asset: u16,
        signal_type: u16,
        direction: Direction,
        entry: Num,
        stop: Num,
        tp: Num,
        score: Num,
        at: Stamp,
    },
    /// An entry filled and the position is open; `maker` tells a resting fill
    /// from an aggressing one.
    EntryFilled {
        opportunity_id: String,
        asset: u16,
        signal_type: u16,
        direction: Direction,
        price: Num,
        entry: Num,
        stop: Num,
        tp: Num,
        maker: bool,
        at: Stamp,
    },
    /// An entry order was cancelled unfilled.
    EntryCancelled {
        opportunity_id: String,
        asset: u16,
        reason: CancelReason,
        at: Stamp,
    },
    /// An open trade's stop was moved.
    StopMoved {
        opportunity_id: String,
        asset: u16,
        stop: Num,
        at: Stamp,
    },
    /// An open trade's target was moved.
    TargetMoved {
        opportunity_id: String,
        asset: u16,
        tp: Num,
        at: Stamp,
    },
    /// Half of an open trade was banked.
    PartialBanked {
        opportunity_id: String,
        asset: u16,
        at: Stamp,
    },
    /// The position closed.
    Closed {
        opportunity_id: String,
        asset: u16,
        reason: ExitReason,
        result: TradeResult,
        r_pnl: Num,
        fee_r: Num,
        at: Stamp,
    },
}

impl BookEvent {
    /// The opportunity the event belongs to.
    pub open spec fn id_of(self) -> String {
        match self {
            BookEvent::Skipped { opportunity_id, .. }
            | BookEvent::EntryPlaced { opportunity_id, .. }
            | BookEvent::EntryFilled { opportunity_id, .. }
            | BookEvent::EntryCancelled { opportunity_id, .. }
            | BookEvent::StopMoved { opportunity_id, .. }
            | BookEvent::TargetMoved { opportunity_id, .. }
            | BookEvent::PartialBanked { opportunity_id, .. }
            | BookEvent::Closed { opportunity_id, .. } => opportunity_id,
        }
    }

    /// The asset the event belongs to.
    pub open spec fn asset_of(self) -> u16 {
        match self {
            BookEvent::Skipped { asset, .. }
            | BookEvent::EntryPlaced { asset, .. }
            | BookEvent::EntryFilled { asset, .. }
            | BookEvent::EntryCancelled { asset, .. }
            | BookEvent::StopMoved { asset, .. }
            | BookEvent::TargetMoved { asset, .. }
            | BookEvent::PartialBanked { asset, .. }
            | BookEvent::Closed { asset, .. } => asset,
        }
    }

    /// When it happened.
    pub open spec fn time_of(self) -> Stamp {
        match self {
            BookEvent::Skipped { at, .. }
            | BookEvent::EntryPlaced { at, .. }
            | BookEvent::EntryFilled { at, .. }
            | BookEvent::EntryCancelled { at, .. }
            | BookEvent::StopMoved { at, .. }
            | BookEvent::TargetMoved { at, .. }
            | BookEvent::PartialBanked { at, .. }
            | BookEvent::Closed { at, .. } => at,
        }
    }

    /// The event's name.
    pub open spec fn label(self) -> Seq<char> {
        match self {
            BookEvent::Skipped { .. } => "skipped"@,
            BookEvent::EntryPlaced { .. } => "entry_placed"@,
            BookEvent::EntryFilled { .. } => "entry_filled"@,
            BookEvent::EntryCancelled { .. } => "entry_cancelled"@,
            BookEvent::StopMoved { .. } => "stop_moved"@,
            BookEvent::TargetMoved { .. } => "target_moved"@,
            BookEvent::PartialBanked { .. } => "partial_banked"@,
            BookEvent::Closed { .. } => "closed"@,
        }
    }

    /// The event's own values, in a journal line.
    pub open spec fn details(self, names: Names) -> Fields {
        match self {
            BookEvent::Skipped { signal_type, reason, .. } => seq![
                text_of("signal_type"@, names.sig_types@[signal_type as int]),
                text_of("reason"@, reason@),
            ],
            BookEvent::EntryPlaced { signal_type, direction, entry, stop, tp, score, .. } => seq![
                text_of("signal_type"@, names.sig_types@[signal_type as int]),
                text_of("direction"@, direction.label()),
                num_of("entry"@, entry),
                num_of("stop"@, stop),
                num_of("tp"@, tp),
                num_of("score"@, score),
            ],
            BookEvent::EntryFilled { signal_type, direction, price, entry, stop, tp, maker, .. } => seq![
                text_of("signal_type"@, names.sig_types@[signal_type as int]),
                text_of("direction"@, direction.label()),
                num_of("price"@, price),
                num_of("entry"@, entry),
                num_of("stop"@, stop),
                num_of("tp"@, tp),
                ("maker"@, LeafView::Bool(maker)),
            ],
            BookEvent::EntryCancelled { reason, .. } => seq![
                text_of("reason"@, reason.label()),
            ],
            BookEvent::StopMoved { stop, .. } => seq![
                num_of("stop"@, stop),
            ],
            BookEvent::TargetMoved { tp, .. } => seq![
                num_of("tp"@, tp),
            ],
            BookEvent::PartialBanked { .. } => Seq::empty(),
            BookEvent::Closed { reason, result, r_pnl, fee_r, .. } => seq![
                text_of("reason"@, reason.label()),
                text_of("result"@, result.label()),
                num_of("r_pnl"@, r_pnl),
                num_of("fee_r"@, fee_r),
            ],
        }
    }

    /// The event's journal line.
    pub open spec fn line(self, names: Names) -> Fields {
        seq![
            text_of("event"@, self.label()),
            text_of("opportunity_id"@, self.id_of()@),
            text_of("asset"@, names.assets@[self.asset_of() as int]),
        ] + self.details(names) + seq![text_of("at"@, stamp_text(self.time_of(), ISO@))]
    }

    /// The event's ids are known to the pools.
    pub open spec fn known(self, names: Names) -> bool {
        &&& self.asset_of() < names.assets@.len()
        &&& match self {
            BookEvent::Skipped { signal_type, .. }
            | BookEvent::EntryPlaced { signal_type, .. }
            | BookEvent::EntryFilled { signal_type, .. } => signal_type < names.sig_types@.len(),
            _ => true,
        }
    }

    /// The opportunity the event belongs to.
    pub fn opportunity_id(&self) -> (r: &str)
        ensures
            r@ == self.id_of()@,
    {
        match self {
            BookEvent::Skipped { opportunity_id, .. }
            | BookEvent::EntryPlaced { opportunity_id, .. }
            | BookEvent::EntryFilled { opportunity_id, .. }
            | BookEvent::EntryCancelled { opportunity_id, .. }
            | BookEvent::StopMoved { opportunity_id, .. }
            | BookEvent::TargetMoved { opportunity_id, .. }
            | BookEvent::PartialBanked { opportunity_id, .. }
            | BookEvent::Closed { opportunity_id, .. } => opportunity_id.as_str(),
        }
    }

    /// The asset the event belongs to.
    pub fn asset(&self) -> (r: u16)
        ensures
            r == self.asset_of(),
    {
        match self {
            BookEvent::Skipped { asset, .. }
            | BookEvent::EntryPlaced { asset, .. }
            | BookEvent::EntryFilled { asset, .. }
            | BookEvent::EntryCancelled { asset, .. }
            | BookEvent::StopMoved { asset, .. }
            | BookEvent::TargetMoved { asset, .. }
            | BookEvent::PartialBanked { asset, .. }
            | BookEvent::Closed { asset, .. } => *asset,
        }
    }

    /// When it happened.
    pub fn at(&self) -> (r: Stamp)
        ensures
            r == self.time_of(),
    {
        match self {
            BookEvent::Skipped { at, .. }
            | BookEvent::EntryPlaced { at, .. }
            | BookEvent::EntryFilled { at, .. }
            | BookEvent::EntryCancelled { at, .. }
            | BookEvent::StopMoved { at, .. }
            | BookEvent::TargetMoved { at, .. }
            | BookEvent::PartialBanked { at, .. }
            | BookEvent::Closed { at, .. } => *at,
        }
    }

    /// The event's name.
    pub fn kind(&self) -> (r: &'static str)
        ensures
            r@ == self.label(),
    {
        match self {
            BookEvent::Skipped { .. } => "skipped",
            BookEvent::EntryPlaced { .. } => "entry_placed",
            BookEvent::EntryFilled { .. } => "entry_filled",
            BookEvent::EntryCancelled { .. } => "entry_cancelled",
            BookEvent::StopMoved { .. } => "stop_moved",
            BookEvent::TargetMoved { .. } => "target_moved",
            BookEvent::PartialBanked { .. } => "partial_banked",
            BookEvent::Closed { .. } => "closed",
        }
    }

    fn put_details(&self, names: &Names, line: &mut Record)
        requires
            self.known(*names),
        ensures
            final(line)@ == old(line)@ + self.details(*names),
    {
        match self {
            BookEvent::Skipped { signal_type, reason, .. } => {
                line.text("signal_type", sig_type_name(names, *signal_type).as_str());
                line.text("reason", reason.as_str());
            },
            BookEvent::EntryPlaced { signal_type, direction, entry, stop, tp, score, .. } => {
                line.text("signal_type", sig_type_name(names, *signal_type).as_str());
                line.text("direction", direction.as_str());
                line.num("entry", *entry);
                line.num("stop", *stop);
                line.num("tp", *tp);
                line.num("score", *score);
            },
            BookEvent::EntryFilled { signal_type, direction, price, entry, stop, tp, maker, .. } => {
                line.text("signal_type", sig_type_name(names, *signal_type).as_str());
                line.text("direction", direction.as_str());
                line.num("price", *price);
                line.num("entry", *entry);
                line.num("stop", *stop);
                line.num("tp", *tp);
                line.put("maker", Leaf::Bool(*maker));
            },
            BookEvent::EntryCancelled { reason, .. } => {
                line.text("reason", reason.as_str());
            },
            BookEvent::StopMoved { stop, .. } => {
                line.num("stop", *stop);
            },
            BookEvent::TargetMoved { tp, .. } => {
                line.num("tp", *tp);
            },
            BookEvent::PartialBanked { .. } => {},
            BookEvent::Closed { reason, result, r_pnl, fee_r, .. } => {
                line.text("reason", reason.as_str());
                line.text("result", result.as_str());
                line.num("r_pnl", *r_pnl);
                line.num("fee_r", *fee_r);
            },
        }
        proof {
            assert(line@ =~= old(line)@ + self.details(*names));
        }
    }

    /// The event's journal line: the ids by their names, the time as ISO.
    pub fn to_json(&self, names: &Names) -> (r: Record)
        requires
            self.known(*names),
            on_calendar(self.time_of() as int),
        ensures
            r@ == self.line(*names),
    {
        let mut line = Record::new();
        line.text("event", self.kind());
        line.text("opportunity_id", self.opportunity_id());
        line.text("asset", asset_name(names, self.asset()).as_str());
        self.put_details(names, &mut line);
        line.text("at", iso_stamp(self.at()).as_str());
        proof {
            assert(line@ =~= self.line(*names));
        }
        line
    }
}

/// An event's line begins with its kind, its opportunity and its asset and ends
/// with its time.
pub proof fn law_a_line_begins_with_its_kind(e: BookEvent, names: Names)
    ensures
        ({
            let l = e.line(names);
            let n = l.len() as int;
            &&& n >= 4
            &&& l[0] == ("event"@, LeafView::Text(e.label()))
            &&& l[1] == ("opportunity_id"@, LeafView::Text(e.id_of()@))
            &&& l[2] == ("asset"@, LeafView::Text(names.assets@[e.asset_of() as int]))
            &&& l[n - 1] == ("at"@, LeafView::Text(stamp_text(e.time_of(), ISO@)))
        }),
{
}

/// A fill says at what price it filled and whether it was a maker's; a close
/// says why, how it ended, and the R with the fee.
pub proof fn law_fills_and_closes_say_what_happened(
    id: String,
    asset: u16,
    signal_type: u16,
    direction: Direction,
    price: Num,
    entry: Num,
    stop: Num,
    tp: Num,
    maker: bool,
    reason: ExitReason,
    result: TradeResult,
    at: Stamp,
    names: Names,
)
    ensures
        ({
            let e = BookEvent::EntryFilled {
                opportunity_id: id,
                asset,
                signal_type,
                direction,
                price,
                entry,
                stop,
                tp,
                maker,
                at,
            };
            let d = e.details(names);
            &&& e.label() == "entry_filled"@ && e.id_of() == id && e.asset_of() == asset
                && e.time_of() == at
            &&& d[2] == ("price"@, LeafView::Num(price)) && d[3] == ("entry"@, LeafView::Num(entry))
            &&& d[4] == ("stop"@, LeafView::Num(stop)) && d[5] == ("tp"@, LeafView::Num(tp))
            &&& d[6] == ("maker"@, LeafView::Bool(maker))
        }),
        ({
            let e = BookEvent::Closed {
                opportunity_id: id,
                asset,
                reason,
                result,
                r_pnl: price,
                fee_r: entry,
                at,
            };
            let d = e.details(names);
            &&& e.label() == "closed"@ && e.id_of() == id && e.asset_of() == asset && e.time_of()
                == at
            &&& d[0] == ("reason"@, LeafView::Text(reason.label()))
            &&& d[1] == ("result"@, LeafView::Text(result.label()))
            &&& d[2] == ("r_pnl"@, LeafView::Num(price)) && d[3] == ("fee_r"@, LeafView::Num(entry))
        }),
{
}

} // verus!
