//! What a report says of a ledger.
use vstd::prelude::*;
use crate::clock::Stamp;
use crate::key::Num;
use crate::models::{Direction, Names, PaperTrade, TradeResult};
use crate::paper::book::{Book, Knobs};
use crate::paper::counters::HybridFillCounters;
use crate::paper::report::{
    compound_fields, equity_keys, group_count, group_fields, head_fields, members, path_fields,
    profit_keys, ready_time, time_keys, trade_fields, CompoundFigures, Group, GroupBy, RunFigures,
    TradeFigures,
};
use crate::paper::settle::count_of;
use crate::paper::table::{
    group_row, rate_view, shown, summary_of, trade_row, CellView, GroupFigures, Style,
};
use crate::record::{Fields, LeafView};
use crate::sort::{before, law_a_stable_order_exists, order_of, stable_order_of};

verus! {

/// A record says something under a name.
pub open spec fn says(f: Fields, name: Seq<char>, v: LeafView) -> bool {
    exists|i: int| 0 <= i < f.len() && #[trigger] f[i] == (name, v)
}

// ─── Groups ─────────────────────────────────────────────────────────────────

/// A group holds exactly the trades of its signal type or its asset, in order.
pub proof fn law_a_group_holds_its_own_trades(
    trades: Seq<PaperTrade>,
    by: GroupBy,
    id: u16,
    i: int,
)
    requires
        0 <= i < trades.len() <= usize::MAX,
    ensures
        ({
            let m = members(trades, by, id);
            let own = match by {
                GroupBy::SignalType => trades[i].signal_type == id,
                GroupBy::Asset => trades[i].asset == id,
            };
            &&& m.contains(i as usize) <==> own
            &&& forall|a: int, b: int|
                0 <= a < b < m.len() ==> #[trigger] m[a] < #[trigger] m[b]
            &&& forall|a: int| 0 <= a < m.len() ==> #[trigger] m[a] < trades.len()
        }),
    decreases trades.len(),
{
    let d = trades.drop_last();
    let (was, now) = (members(d, by, id), members(trades, by, id));
    let n = trades.len() - 1;
    if d.len() > 0 {
        law_a_group_holds_its_own_trades(
            d,
            by,
            id,
            if i < n {
                i
            } else {
                0
            },
        );
    }
    if i < n {
        assert(d[i] == trades[i]);
        if was.contains(i as usize) {
            let k = choose|k: int| 0 <= k < was.len() && was[k] == i as usize;
            assert(now[k] == i as usize);
        }
        if now.contains(i as usize) {
            let k = choose|k: int| 0 <= k < now.len() && now[k] == i as usize;
            assert(was[k] == i as usize);
        }
    } else {
        if now.len() > was.len() {
            assert(now[was.len() as int] == i as usize);
        }
        if now.contains(i as usize) && now.len() == was.len() {
            let k = choose|k: int| 0 <= k < now.len() && now[k] == i as usize;
            assert(was[k] == i as usize);
        }
    }
}

/// A group's wins, losses and undecided trades are all of its trades, each
/// counted once.
pub proof fn law_a_groups_counts_add_up(trades: Seq<PaperTrade>, by: GroupBy, id: u16)
    ensures
        group_count(trades, by, id, TradeResult::Win) + group_count(
            trades,
            by,
            id,
            TradeResult::Loss,
        ) + group_count(trades, by, id, TradeResult::Inconclusive) == members(trades, by, id).len(),
        group_count(trades, by, id, TradeResult::Win) == trades.filter(
            |t: PaperTrade|
                t.result == TradeResult::Win && match by {
                    GroupBy::SignalType => t.signal_type == id,
                    GroupBy::Asset => t.asset == id,
                },
        ).len(),
        group_count(trades, by, id, TradeResult::Loss) == trades.filter(
            |t: PaperTrade|
                t.result == TradeResult::Loss && match by {
                    GroupBy::SignalType => t.signal_type == id,
                    GroupBy::Asset => t.asset == id,
                },
        ).len(),
    decreases trades.len(),
{
    reveal(Seq::filter);
    if trades.len() > 0 {
        law_a_groups_counts_add_up(trades.drop_last(), by, id);
    }
}

// ─── Order ──────────────────────────────────────────────────────────────────

/// Rows stand in the order their trades were signalled; trades of one instant
/// keep the ledger's.
pub proof fn law_rows_stand_by_time(trades: Seq<PaperTrade>, i: int, j: int)
    requires
        trades.len() <= usize::MAX,
        0 <= i < j < trades.len(),
    ensures
        ({
            let o = order_of(time_keys(trades));
            let (a, b) = (trades[o[i] as int], trades[o[j] as int]);
            &&& o.len() == trades.len()
            &&& a.opened_at < b.opened_at || (a.opened_at == b.opened_at && o[i] < o[j])
        }),
{
    let keys = time_keys(trades);
    law_a_stable_order_exists(keys);
    let o = order_of(keys);
    assert(before(keys, o[i] as int, o[j] as int));
}

/// Assets stand by profit, the most profitable first.
pub proof fn law_assets_stand_by_profit(profits: Seq<Num>, i: int, j: int)
    requires
        profits.len() <= usize::MAX,
        0 <= i < j < profits.len(),
    ensures
        ({
            let o = order_of(profit_keys(profits));
            let (a, b) = (profits[o[i] as int], profits[o[j] as int]);
            o.len() == profits.len() && (a > b || (a == b && o[i] < o[j]))
        }),
{
    let keys = profit_keys(profits);
    law_a_stable_order_exists(keys);
    let o = order_of(keys);
    assert(before(keys, o[i] as int, o[j] as int));
}

/// A curve goes through its events in time: a trade's opening at its signal and
/// its closing at its close, or at its signal where it never closed. At one
/// instant the closings of trades that were open come before openings, and the
/// closings of trades that open there come last.
pub proof fn law_a_curve_follows_time(trades: Seq<PaperTrade>, order: Seq<usize>, i: int, j: int)
    requires
        stable_order_of(equity_keys(trades), order),
        0 <= i < j < 2 * trades.len(),
    ensures
        ({
            let at = |e: int|
                {
                    let t = trades[e / 2];
                    if e % 2 == 0 || t.closed_at is None {
                        t.opened_at
                    } else {
                        t.closed_at->0
                    }
                };
            let opens = |e: int| e % 2 == 0;
            let at_once = |e: int| e % 2 == 1 && at(e) == trades[e / 2].opened_at;
            let (a, b) = (order[i] as int, order[j] as int);
            &&& order.len() == 2 * trades.len()
            &&& at(a) <= at(b)
            &&& at(a) == at(b) && opens(a) ==> opens(b) || at_once(b)
            &&& at(a) == at(b) && at_once(a) ==> at_once(b)
        }),
{
    let keys = equity_keys(trades);
    assert(before(keys, order[i] as int, order[j] as int));
}

// ─── What is said ───────────────────────────────────────────────────────────

/// The head of a report counts the ledger: wins and losses are its trades of
/// that result, the decided ones are both together, and with the undecided ones
/// they are all of it.
pub proof fn law_a_head_counts_the_ledger(
    label: Seq<char>,
    b: Book,
    k: Knobs,
    f: RunFigures,
)
    requires
        b.trades.len() <= usize::MAX,
    ensures
        ({
            let h = head_fields(label, b, k, f);
            let wins = b.trades.filter(|t: PaperTrade| t.result == TradeResult::Win).len();
            let losses = b.trades.filter(|t: PaperTrade| t.result == TradeResult::Loss).len();
            let open = b.trades.filter(
                |t: PaperTrade| t.result == TradeResult::Inconclusive,
            ).len();
            &&& says(h, "wins"@, LeafView::Count(wins as u64))
            &&& says(h, "losses"@, LeafView::Count(losses as u64))
            &&& says(h, "inconclusive"@, LeafView::Count(open as u64))
            &&& says(h, "trades_decided"@, LeafView::Count((wins + losses) as u64))
            &&& wins + losses + open == b.trades.len()
            &&& says(h, "opportunities_seen"@, LeafView::Count(b.seen as u64))
            &&& says(h, "opportunities_taken"@, LeafView::Count(b.taken as u64))
            &&& says(h, "label"@, LeafView::Text(label))
            &&& says(h, "win_rate"@, LeafView::Num(f.win_rate))
            &&& says(h, "expectancy"@, LeafView::Num(f.expectancy))
            &&& says(h, "total_r_pnl"@, LeafView::Num(f.total_r_pnl))
            &&& says(h, "gross_r_pnl"@, LeafView::Num(f.gross_r_pnl))
            &&& says(h, "total_fees"@, LeafView::Num(f.total_fees))
            &&& says(h, "use_fees"@, LeafView::Bool(k.use_fees))
            &&& says(h, "hybrid_fill"@, LeafView::Bool(k.hybrid_fill))
            &&& says(h, "min_score"@, LeafView::Num(k.min_score))
            &&& says(h, "rr_target"@, LeafView::Num(k.rr_target))
        }),
{
    crate::paper::book_laws::law_a_count_is_the_trades_with_that_result(b.trades, TradeResult::Win);
    crate::paper::book_laws::law_a_count_is_the_trades_with_that_result(
        b.trades,
        TradeResult::Loss,
    );
    crate::paper::book_laws::law_a_count_is_the_trades_with_that_result(
        b.trades,
        TradeResult::Inconclusive,
    );
    crate::paper::settle::law_results_partition_the_ledger(b.trades);
    let h = head_fields(label, b, k, f);
    let wins = count_of(b.trades, TradeResult::Win);
    let losses = count_of(b.trades, TradeResult::Loss);
    assert(h[0] == ("label"@, LeafView::Text(label)));
    assert(h[1] == ("rr_target"@, LeafView::Num(k.rr_target)));
    assert(h[2] == ("min_score"@, LeafView::Num(k.min_score)));
    assert(h[3] == ("opportunities_seen"@, LeafView::Count(b.seen as u64)));
    assert(h[4] == ("opportunities_taken"@, LeafView::Count(b.taken as u64)));
    assert(h[5] == ("trades_decided"@, LeafView::Count((wins + losses) as u64)));
    assert(h[6] == ("wins"@, LeafView::Count(wins as u64)));
    assert(h[7] == ("losses"@, LeafView::Count(losses as u64)));
    assert(h[8] == (
        "inconclusive"@,
        LeafView::Count(count_of(b.trades, TradeResult::Inconclusive) as u64),
    ));
    assert(h[9] == ("win_rate"@, LeafView::Num(f.win_rate)));
    assert(h[10] == ("expectancy"@, LeafView::Num(f.expectancy)));
    assert(h[11] == ("total_r_pnl"@, LeafView::Num(f.total_r_pnl)));
    assert(h[12] == ("gross_r_pnl"@, LeafView::Num(f.gross_r_pnl)));
    assert(h[13] == ("total_fees"@, LeafView::Num(f.total_fees)));
    assert(h[14] == ("use_fees"@, LeafView::Bool(k.use_fees)));
    assert(h[15] == ("hybrid_fill"@, LeafView::Bool(k.hybrid_fill)));
}

/// A trade's line says its plan, its fill, its outcome and its times under
/// their names; the balance and the profit in money only where the run
/// compounds.
pub proof fn law_a_line_says_how_a_trade_went(
    t: PaperTrade,
    f: TradeFigures,
    compounds: bool,
    ready: Option<Stamp>,
    names: Names,
)
    ensures
        ({
            let r = trade_fields(t, f, compounds, ready, names);
            &&& says(r, "opportunity_id"@, LeafView::Text(t.opportunity_id@))
            &&& says(r, "asset"@, LeafView::Text(names.assets@[t.asset as int]))
            &&& says(r, "signal_type"@, LeafView::Text(names.sig_types@[t.signal_type as int]))
            &&& says(r, "timeframe"@, LeafView::Text(names.timeframes@[t.timeframe as int]))
            &&& says(r, "entry"@, LeafView::Num(t.entry)) && says(r, "fill"@, LeafView::Num(t.fill))
            &&& says(r, "stop"@, LeafView::Num(t.stop)) && says(r, "tp"@, LeafView::Num(t.tp))
            &&& says(r, "score"@, LeafView::Num(t.score))
            &&& says(r, "r_pnl"@, LeafView::Num(t.r_pnl))
            &&& says(r, "fee_r"@, LeafView::Num(t.fee_r))
            &&& says(r, "gross_r_pnl"@, LeafView::Num(f.gross_r))
            &&& t.direction == Direction::Bull ==> says(r, "direction"@, LeafView::Text("bull"@))
            &&& t.direction == Direction::Bear ==> says(r, "direction"@, LeafView::Text("bear"@))
            &&& t.result == TradeResult::Win ==> says(r, "result"@, LeafView::Text("win"@))
            &&& t.result == TradeResult::Loss ==> says(r, "result"@, LeafView::Text("loss"@))
            &&& t.result == TradeResult::Inconclusive ==> says(
                r,
                "result"@,
                LeafView::Text("inconclusive"@),
            )
            &&& t.closed_at is None ==> says(r, "closed_at"@, LeafView::Null)
            &&& t.filled_at is None ==> says(r, "filled_at"@, LeafView::Null)
            &&& ready is None ==> says(r, "ready_at"@, LeafView::Null)
            &&& compounds ==> says(r, "equity"@, LeafView::Num(f.equity)) && says(
                r,
                "pnl_dollars"@,
                LeafView::Num(f.pnl_dollars),
            )
            &&& !compounds ==> says(r, "equity"@, LeafView::Null) && says(
                r,
                "pnl_dollars"@,
                LeafView::Null,
            )
        }),
{
    let r = trade_fields(t, f, compounds, ready, names);
    assert(r[0] == ("opportunity_id"@, LeafView::Text(t.opportunity_id@)));
    assert(r[1] == ("signal_type"@, LeafView::Text(names.sig_types@[t.signal_type as int])));
    assert(r[2] == ("asset"@, LeafView::Text(names.assets@[t.asset as int])));
    assert(r[3] == ("timeframe"@, LeafView::Text(names.timeframes@[t.timeframe as int])));
    assert(r[4] == ("direction"@, LeafView::Text(t.direction.label())));
    assert(r[5] == ("entry"@, LeafView::Num(t.entry)));
    assert(r[6] == ("fill"@, LeafView::Num(t.fill)));
    assert(r[7] == ("stop"@, LeafView::Num(t.stop)));
    assert(r[8] == ("tp"@, LeafView::Num(t.tp)));
    assert(r[9] == ("score"@, LeafView::Num(t.score)));
    assert(r[11].0 == "filled_at"@);
    assert(r[12].0 == "closed_at"@);
    assert(r[13] == ("result"@, LeafView::Text(t.result.label())));
    assert(r[14] == ("r_pnl"@, LeafView::Num(t.r_pnl)));
    assert(r[15] == ("fee_r"@, LeafView::Num(t.fee_r)));
    assert(r[16] == ("gross_r_pnl"@, LeafView::Num(f.gross_r)));
    assert(r[17].0 == "equity"@);
    assert(r[18].0 == "pnl_dollars"@);
    assert(r[19].0 == "ready_at"@);
}

/// A trade's readiness is the time noted for its own opportunity.
pub proof fn law_a_trade_was_ready_when_noted(b: Book, t: PaperTrade)
    ensures
        ready_time(b, t) is Some <==> b.ids.ready.contains_key(t.opportunity_id@),
        ready_time(b, t) is Some ==> ready_time(b, t)->0 == b.ids.ready[t.opportunity_id@],
{
}

// ─── Tables ─────────────────────────────────────────────────────────────────

/// A rate is of the wins among the decided trades, and a dash where none is
/// decided; a figure that is not to be shown is a dash.
pub proof fn law_rates_are_of_decided_trades(wins: int, losses: int, x: Num, style: Style)
    requires
        0 <= wins,
        0 <= losses,
    ensures
        wins + losses >= 1 ==> rate_view(wins, losses) == (CellView::Rate {
            wins,
            decided: wins + losses,
        }),
        wins + losses == 0 ==> rate_view(wins, losses) == CellView::Text("-"@),
        shown(true, x, style) == CellView::Number(x, style),
        shown(false, x, style) == CellView::Text("-"@),
{
}

/// A group's row counts its trades, its wins and its losses; with fees it ends
/// in gross, fees and net, without in the net alone.
pub proof fn law_a_groups_row_counts_its_trades(
    name: Seq<char>,
    g: Group,
    f: GroupFigures,
    fees: bool,
)
    ensures
        ({
            let r = group_row(name, g, f, fees);
            &&& r[0] == CellView::Text(name)
            &&& r[1] == CellView::Count(g.members@.len() as int)
            &&& r[2] == CellView::Count(g.wins as int) && r[3] == CellView::Count(g.losses as int)
            &&& r.last() == CellView::Number(f.pnl, Style::One)
            &&& fees ==> r.len() == 8 && r[5] == CellView::Number(f.gross, Style::One) && r[6]
                == CellView::Number(f.fees, Style::One)
            &&& !fees ==> r.len() == 6
        }),
{
}

/// A trade's row shows its entry, stop and target and ends in its net R, dashed
/// where nothing was won, lost or paid.
pub proof fn law_a_trades_row_ends_in_its_net(
    t: PaperTrade,
    gross: Num,
    names: Names,
    fees: bool,
)
    ensures
        ({
            let r = trade_row(t, gross, names, fees);
            &&& r[4] == CellView::Number(t.score, Style::One) && r[5] == CellView::Number(
                t.entry,
                Style::Two,
            )
            &&& r[6] == CellView::Number(t.stop, Style::Two) && r[7] == CellView::Number(
                t.tp,
                Style::Two,
            )
            &&& r[1] == CellView::Text(names.assets@[t.asset as int]) && r[3] == CellView::Text(
                names.sig_types@[t.signal_type as int],
            )
            &&& !fees ==> r.len() == 10 && (t.r_pnl != 0 ==> r[9] == CellView::Number(
                t.r_pnl,
                Style::SignedOneR,
            )) && (t.r_pnl == 0 ==> r[9] == CellView::Text("-"@))
            &&& fees ==> r.len() == 12 && (gross != 0 ==> r[9] == CellView::Number(
                gross,
                Style::SignedTwoR,
            )) && (t.fee_r != 0 ==> r[10] == CellView::Number(t.fee_r, Style::TwoR)) && (t.r_pnl
                != 0 || t.fee_r != 0 ==> r[11] == CellView::Number(t.r_pnl, Style::SignedTwoR))
            &&& fees && t.r_pnl == 0 && t.fee_r == 0 ==> r[10] == CellView::Text("-"@) && r[11]
                == CellView::Text("-"@)
            &&& fees && gross == 0 ==> r[9] == CellView::Text("-"@)
        }),
{
}

/// A summary counts the ledger where any trade was decided; it is good where
/// the win rate is fifty at least.
pub proof fn law_a_summary_needs_a_decided_trade(
    trades: Seq<PaperTrade>,
    k: Knobs,
    run: RunFigures,
)
    requires
        trades.len() <= usize::MAX,
    ensures
        ({
            let s = summary_of(trades, k, run);
            let n = |r: TradeResult| trades.filter(|t: PaperTrade| t.result == r).len();
            &&& s is Undecided <==> n(TradeResult::Win) == 0 && n(TradeResult::Loss) == 0
            &&& s is Decided ==> s->wins == n(TradeResult::Win) && s->losses == n(
                TradeResult::Loss,
            ) && s->inconclusive == n(TradeResult::Inconclusive) && s->fees == k.use_fees
            &&& s is Decided ==> (s->good <==> run.win_rate >= 0x4049_0000_0000_0000)
        }),
{
    crate::paper::book_laws::law_a_count_is_the_trades_with_that_result(trades, TradeResult::Win);
    crate::paper::book_laws::law_a_count_is_the_trades_with_that_result(trades, TradeResult::Loss);
    crate::paper::book_laws::law_a_count_is_the_trades_with_that_result(
        trades,
        TradeResult::Inconclusive,
    );
    crate::paper::settle::law_results_partition_the_ledger(trades);
}

/// A group's counts are named as its breakdown names them.
pub proof fn law_a_breakdown_counts_by_result(trades: Seq<PaperTrade>, id: u16)
    ensures
        ({
            let f = group_fields(trades, GroupBy::SignalType, id);
            let n = |r: TradeResult| group_count(trades, GroupBy::SignalType, id, r);
            &&& says(f, "wins"@, LeafView::Count(n(TradeResult::Win) as u64))
            &&& says(f, "losses"@, LeafView::Count(n(TradeResult::Loss) as u64))
            &&& says(f, "inconclusive"@, LeafView::Count(n(TradeResult::Inconclusive) as u64))
        }),
        ({
            let f = group_fields(trades, GroupBy::Asset, id);
            let n = |r: TradeResult| group_count(trades, GroupBy::Asset, id, r);
            &&& says(f, "win"@, LeafView::Count(n(TradeResult::Win) as u64))
            &&& says(f, "loss"@, LeafView::Count(n(TradeResult::Loss) as u64))
            &&& says(f, "inconclusive"@, LeafView::Count(n(TradeResult::Inconclusive) as u64))
        }),
{
    let f = group_fields(trades, GroupBy::SignalType, id);
    let g = group_fields(trades, GroupBy::Asset, id);
    let a = group_count(trades, GroupBy::SignalType, id, TradeResult::Win);
    let b = group_count(trades, GroupBy::Asset, id, TradeResult::Win);
    assert(f[0] == ("wins"@, LeafView::Count(a as u64)));
    assert(f[1].0 == "losses"@);
    assert(f[2].0 == "inconclusive"@);
    assert(g[0] == ("win"@, LeafView::Count(b as u64)));
    assert(g[1].0 == "loss"@);
    assert(g[2].0 == "inconclusive"@);
}

/// The fill paths say each count under its own name.
pub proof fn law_each_path_says_its_own_count(c: HybridFillCounters, first_touch_r: Num)
    ensures
        ({
            let f = path_fields(c, first_touch_r);
            &&& says(f, "past_entry_fills"@, LeafView::Count(c.past_entry_fills as u64))
            &&& says(f, "immediate_chases"@, LeafView::Count(c.immediate_chases as u64))
            &&& says(f, "deferred_chases"@, LeafView::Count(c.deferred_chases as u64))
            &&& says(f, "boundary_chases_from_below"@, LeafView::Count(c.boundary_chases_from_below as u64))
            &&& says(f, "boundary_chases_from_above"@, LeafView::Count(c.boundary_chases_from_above as u64))
            &&& says(f, "maker_fills"@, LeafView::Count(c.maker_fills as u64))
            &&& says(f, "rested_maker_fills"@, LeafView::Count(c.rested_maker_fills as u64))
            &&& says(f, "abandon_gap_stop"@, LeafView::Count(c.abandon_gap_stop as u64))
            &&& says(f, "abandon_tp_open"@, LeafView::Count(c.abandon_tp_open as u64))
            &&& says(f, "abandon_tp_range"@, LeafView::Count(c.abandon_tp_range as u64))
            &&& says(f, "abandon_age"@, LeafView::Count(c.abandon_age as u64))
            &&& says(f, "abandon_deadline"@, LeafView::Count(c.abandon_deadline as u64))
            &&& says(f, "abandon_target_consumed"@, LeafView::Count(c.abandon_target_consumed as u64))
            &&& says(f, "abandon_setup_invalidated"@, LeafView::Count(c.abandon_setup_invalidated as u64))
            &&& says(f, "first_touch_stop_fills"@, LeafView::Count(c.first_touch_stop_fills as u64))
            &&& says(f, "first_touch_stop_r"@, LeafView::Num(first_touch_r))
        }),
{
    let f = path_fields(c, first_touch_r);
    assert(f[0] == ("past_entry_fills"@, LeafView::Count(c.past_entry_fills as u64)));
    assert(f[1] == ("immediate_chases"@, LeafView::Count(c.immediate_chases as u64)));
    assert(f[2] == ("deferred_chases"@, LeafView::Count(c.deferred_chases as u64)));
    assert(f[3] == ("boundary_chases_from_below"@, LeafView::Count(c.boundary_chases_from_below as u64)));
    assert(f[4] == ("boundary_chases_from_above"@, LeafView::Count(c.boundary_chases_from_above as u64)));
    assert(f[5] == ("maker_fills"@, LeafView::Count(c.maker_fills as u64)));
    assert(f[6] == ("rested_maker_fills"@, LeafView::Count(c.rested_maker_fills as u64)));
    assert(f[7] == ("abandon_gap_stop"@, LeafView::Count(c.abandon_gap_stop as u64)));
    assert(f[8] == ("abandon_tp_open"@, LeafView::Count(c.abandon_tp_open as u64)));
    assert(f[9] == ("abandon_tp_range"@, LeafView::Count(c.abandon_tp_range as u64)));
    assert(f[10] == ("abandon_age"@, LeafView::Count(c.abandon_age as u64)));
    assert(f[11] == ("abandon_deadline"@, LeafView::Count(c.abandon_deadline as u64)));
    assert(f[12] == ("abandon_target_consumed"@, LeafView::Count(c.abandon_target_consumed as u64)));
    assert(f[13] == ("abandon_setup_invalidated"@, LeafView::Count(c.abandon_setup_invalidated as u64)));
    assert(f[14] == ("first_touch_stop_fills"@, LeafView::Count(c.first_touch_stop_fills as u64)));
    assert(f[15] == ("first_touch_stop_r"@, LeafView::Num(first_touch_r)));
}

/// A compounded run says what it risked and what came of it.
pub proof fn law_a_compounded_run_says_its_balance(k: Knobs, f: CompoundFigures)
    ensures
        ({
            let r = compound_fields(k, f);
            &&& says(r, "risk_frac"@, LeafView::Num(k.risk_frac))
            &&& says(r, "account_size"@, LeafView::Num(k.account_size))
            &&& says(r, "final_balance"@, LeafView::Num(f.final_balance))
            &&& says(r, "max_dd_frac"@, LeafView::Num(f.max_dd_frac))
            &&& says(r, "multiple"@, LeafView::Num(f.multiple))
        }),
{
    let r = compound_fields(k, f);
    assert(r[0] == ("risk_frac"@, LeafView::Num(k.risk_frac)));
    assert(r[1] == ("account_size"@, LeafView::Num(k.account_size)));
    assert(r[2] == ("final_balance"@, LeafView::Num(f.final_balance)));
    assert(r[3] == ("max_dd_frac"@, LeafView::Num(f.max_dd_frac)));
    assert(r[4] == ("multiple"@, LeafView::Num(f.multiple)));
}

} // verus!
