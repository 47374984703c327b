//! The numbers a bar's decisions compare: computed by the caller from the
//! book's prices, one set per resting order and per open trade.
use vstd::prelude::*;
use crate::key::Num;

verus! {

/// One open trade's numbers on one bar. All R multiples are measured from the
/// trade's fill over its planned risk, the distance from entry to stop.
#[derive(Debug, Clone)]
pub struct TradeQuote {
    /// The planned risk is positive.
    pub has_risk: bool,
    /// R at the bar's favourable extreme; with prints, R at each print.
    pub favorable: Vec<Num>,
    /// R at the bar's open.
    pub open_r: Num,
    /// The stop that locks in the trailing profit.
    pub trail_stop: Num,
    /// R at the stop in force when it is not the trailing one.
    pub stop_r: Num,
    /// R at the target.
    pub win_r: Num,
    /// R booked by a timeout at the bar's close.
    pub timeout_r: Num,
    /// R at the bar's close.
    pub unreal_r: Num,
}

/// One resting order's numbers on one bar.
#[derive(Debug, Clone)]
pub struct OrderQuote {
    /// The cap on a chase.
    pub boundary: Num,
    /// The entry moved by the limit model's slippage.
    pub slipped: Num,
    /// The trade's numbers were it filled at the entry.
    pub at_entry: TradeQuote,
    /// The trade's numbers were it filled at the cap.
    pub at_boundary: TradeQuote,
}

/// A bar's numbers: one quote per resting order and per open trade, in the
/// book's order.
#[derive(Debug, Clone)]
pub struct BarQuotes {
    pub orders: Vec<OrderQuote>,
    pub trades: Vec<TradeQuote>,
}

} // verus!
