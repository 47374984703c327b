//! What a close costs, and what the ledger adds up to.
use vstd::prelude::*;
use crate::fees::EntryFeeSide;
use crate::key::Num;
use crate::models::{PaperTrade, TradeResult};
use crate::paper::book::{CloseTicket, Knobs, PaperTrader};
use crate::text::{contains_str, occurs};

verus! {

/// The gap of the first entry at or after `from` whose key stands in the
/// asset's name, else the default.
pub open spec fn gap_from(
    gaps: Seq<(String, Num)>,
    default: Num,
    asset: Seq<char>,
    from: int,
) -> Num
    decreases gaps.len() - from,
{
    if from >= gaps.len() {
        default
    } else if occurs(asset, gaps[from].0@) {
        gaps[from].1
    } else {
        gap_from(gaps, default, asset, from + 1)
    }
}

/// How a close's net R comes from its raw R: the stop slips first, then half
/// may have been banked, and last the fee is taken off.
#[derive(Debug, Clone, Copy, PartialEq, Eq, Structural)]
pub struct SettlePlan {
    /// Half was banked at the partial level: the R is the mean of that level
    /// and what the other half got.
    pub bank_half: bool,
    /// The stop slipped by this many basis points.
    pub gap_bps: Option<Num>,
    /// A fee is due, with the entry on this side.
    pub fee_side: Option<EntryFeeSide>,
}

/// A close's costs: only a genuine stop exit slips, and only where there is a
/// risk to measure it by.
pub open spec fn plan_of(
    k: Knobs,
    gaps: Seq<(String, Num)>,
    t: CloseTicket,
    asset: Seq<char>,
    has_risk: bool,
) -> SettlePlan {
    let gap = gap_from(gaps, k.stop_gap_bps_default, asset, 0);
    SettlePlan {
        bank_half: t.had_partial && k.partial_tp_r > 0,
        gap_bps: if t.is_stop_exit && gap > 0 && has_risk {
            Some(gap)
        } else {
            None
        },
        fee_side: if k.use_fees {
            Some(t.entry_side)
        } else {
            None
        },
    }
}

/// How many trades ended so.
pub open spec fn count_of(trades: Seq<PaperTrade>, result: TradeResult) -> nat
    decreases trades.len(),
{
    if trades.len() == 0 {
        0
    } else {
        count_of(trades.drop_last(), result) + if trades.last().result == result {
            1nat
        } else {
            0nat
        }
    }
}

/// Every trade has one of the three results.
pub proof fn law_results_partition_the_ledger(trades: Seq<PaperTrade>)
    ensures
        count_of(trades, TradeResult::Win) + count_of(trades, TradeResult::Loss) + count_of(
            trades,
            TradeResult::Inconclusive,
        ) == trades.len(),
    decreases trades.len(),
{
    if trades.len() > 0 {
        law_results_partition_the_ledger(trades.drop_last());
    }
}

/// A target, a timeout, a trailing lock or a management close never slips.
pub proof fn law_only_stop_exits_slip(
    k: Knobs,
    gaps: Seq<(String, Num)>,
    t: CloseTicket,
    asset: Seq<char>,
    has_risk: bool,
)
    requires
        !t.is_stop_exit,
    ensures
        plan_of(k, gaps, t, asset, has_risk).gap_bps is None,
{
}

impl PaperTrader {
    /// The stop-exit gap of an asset: the first entry whose key stands in its
    /// name, else the default.
    pub fn gap_bps(&self, asset: &str) -> (r: Num)
        ensures
            r == gap_from(self@.gaps, self.knobs.stop_gap_bps_default, asset@, 0),
    {
        let ghost g = self.stop_gap_bps_asset@;
        let ghost d = self.knobs.stop_gap_bps_default;
        let mut i: usize = 0;
        while i < self.stop_gap_bps_asset.len()
            invariant
                g == self.stop_gap_bps_asset@,
                d == self.knobs.stop_gap_bps_default,
                i <= g.len(),
                gap_from(g, d, asset@, i as int) == gap_from(g, d, asset@, 0),
            decreases g.len() - i,
        {
            if contains_str(asset, self.stop_gap_bps_asset[i].0.as_str()) {
                return self.stop_gap_bps_asset[i].1;
            }
            i = i + 1;
        }
        self.knobs.stop_gap_bps_default
    }

    /// How a close is settled.
    pub fn settle_plan(&self, ticket: &CloseTicket, asset: &str, has_risk: bool) -> (r: SettlePlan)
        ensures
            r == plan_of(self.knobs, self@.gaps, *ticket, asset@, has_risk),
    {
        let gap: Num = if ticket.is_stop_exit {
            self.gap_bps(asset)
        } else {
            0
        };
        SettlePlan {
            bank_half: ticket.had_partial && self.knobs.partial_tp_r > 0,
            gap_bps: if gap > 0 && has_risk {
                Some(gap)
            } else {
                None
            },
            fee_side: if self.knobs.use_fees {
                Some(ticket.entry_side)
            } else {
                None
            },
        }
    }

    fn count_results(&self, result: TradeResult) -> (r: usize)
        ensures
            r == count_of(self@.trades, result),
            r <= self@.trades.len(),
    {
        let ghost t = self.trades@;
        let mut n: usize = 0;
        let mut i: usize = 0;
        while i < self.trades.len()
            invariant
                t == self.trades@,
                i <= t.len(),
                n <= i,
                n == count_of(t.subrange(0, i as int), result),
            decreases t.len() - i,
        {
            proof {
                assert(t.subrange(0, i + 1).drop_last() =~= t.subrange(0, i as int));
            }
            if self.trades[i].result == result {
                n = n + 1;
            }
            i = i + 1;
        }
        proof {
            assert(t.subrange(0, i as int) =~= t);
        }
        n
    }

    /// How many trades won.
    pub fn wins(&self) -> (r: usize)
        ensures
            r == count_of(self@.trades, TradeResult::Win),
    {
        self.count_results(TradeResult::Win)
    }

    /// How many trades lost.
    pub fn losses(&self) -> (r: usize)
        ensures
            r == count_of(self@.trades, TradeResult::Loss),
    {
        self.count_results(TradeResult::Loss)
    }

    /// How many trades are undecided.
    pub fn inconclusive(&self) -> (r: usize)
        ensures
            r == count_of(self@.trades, TradeResult::Inconclusive),
    {
        self.count_results(TradeResult::Inconclusive)
    }

    /// How many trades won or lost.
    pub fn decided(&self) -> (r: usize)
        ensures
            r == count_of(self@.trades, TradeResult::Win) + count_of(
                self@.trades,
                TradeResult::Loss,
            ),
    {
        proof {
            law_results_partition_the_ledger(self.trades@);
        }
        let n: usize = self.trades.len();
        let w: usize = self.wins();
        let l: usize = self.losses();
        w + l
    }
}

} // verus!
