//! A run's report as tables: which there are, their columns, their rows and
//! what each cell shows. How a number is spelled is left to the printer.
use vstd::prelude::*;
use crate::clock::{on_calendar, short_stamp, stamp_text, SHORT};
use crate::key::Num;
use crate::models::{asset_name, sig_type_name, Direction, Names, PaperTrade, TradeResult};
use crate::paper::book::{Knobs, PaperTrader};
use crate::paper::report::{
    arrow, group_id, group_name, group_ok, has_group, ids_known, lemma_member_exists,
    order_by_profit, profit_keys, result_cell, time_keys, Group, GroupBy, RunFigures,
};
use crate::paper::settle::count_of;
use crate::sort::{order_of, places};

verus! {

/// How a number is spelled.
#[derive(Debug, Clone, Copy, PartialEq, Eq, Structural)]
pub enum Style {
    /// One digit after the point.
    One,
    /// Two digits.
    Two,
    /// Two digits, in R.
    TwoR,
    /// Two digits and a sign, in R.
    SignedTwoR,
    /// One digit and a sign, in R.
    SignedOneR,
}

/// What a cell shows.
#[derive(Debug, Clone)]
pub enum Cell {
    Text(String),
    Count(usize),
    /// Wins among decided trades, in whole percent.
    Rate { wins: usize, decided: usize },
    Number(Num, Style),
}

/// What a cell shows, mathematically.
pub enum CellView {
    Text(Seq<char>),
    Count(int),
    Rate { wins: int, decided: int },
    Number(Num, Style),
}

impl View for Cell {
    type V = CellView;

    open spec fn view(&self) -> CellView {
        match self {
            Cell::Text(s) => CellView::Text(s@),
            Cell::Count(n) => CellView::Count(*n as int),
            Cell::Rate { wins, decided } => CellView::Rate {
                wins: *wins as int,
                decided: *decided as int,
            },
            Cell::Number(x, style) => CellView::Number(*x, *style),
        }
    }
}

/// Some cells, mathematically.
pub open spec fn cells(row: Seq<Cell>) -> Seq<CellView> {
    Seq::new(row.len(), |i: int| row[i]@)
}

/// A table.
#[derive(Debug, Clone)]
pub struct TextTable {
    pub title: &'static str,
    pub header: Vec<&'static str>,
    pub rows: Vec<Vec<Cell>>,
}

/// Some words, mathematically.
pub open spec fn words(list: Seq<&'static str>) -> Seq<Seq<char>> {
    Seq::new(list.len(), |i: int| list[i]@)
}

/// The line on how the trades ended.
#[derive(Debug, Clone, Copy, PartialEq, Eq, Structural)]
pub enum Summary {
    /// No trade won or lost.
    Undecided,
    Decided {
        wins: usize,
        losses: usize,
        inconclusive: usize,
        /// At least half won.
        good: bool,
        /// Gross, fees and net are told apart.
        fees: bool,
    },
}

/// A run's report as tables; a run without trades has none.
#[derive(Debug, Clone)]
pub struct TextReport {
    pub summary: Summary,
    pub tables: Vec<TextTable>,
}

/// The key of fifty.
pub const HALF: Num = 0x4049_0000_0000_0000;

/// A group's summed figures, in R.
#[derive(Debug, Clone, Copy, PartialEq, Eq, Structural)]
pub struct GroupFigures {
    pub gross: Num,
    pub fees: Num,
    pub pnl: Num,
}

/// The columns of a breakdown.
pub open spec fn group_header(by: GroupBy, fees: bool) -> Seq<Seq<char>> {
    let first = match by {
        GroupBy::SignalType => "Signal Type"@,
        GroupBy::Asset => "Asset"@,
    };
    if fees {
        seq![first, "Taken"@, "W"@, "L"@, "WR%"@, "Gross (R)"@, "Fees (R)"@, "Net (R)"@]
    } else {
        seq![first, "Taken"@, "W"@, "L"@, "WR%"@, "P&L (R)"@]
    }
}

/// The share of wins, or a dash where nothing is decided.
pub open spec fn rate_view(wins: int, losses: int) -> CellView {
    if wins + losses > 0 {
        CellView::Rate { wins, decided: wins + losses }
    } else {
        CellView::Text("-"@)
    }
}

/// A number, or a dash where it is not shown.
pub open spec fn shown(show: bool, x: Num, style: Style) -> CellView {
    if show {
        CellView::Number(x, style)
    } else {
        CellView::Text("-"@)
    }
}

/// A group's row.
pub open spec fn group_row(name: Seq<char>, g: Group, f: GroupFigures, fees: bool) -> Seq<CellView> {
    let head = seq![
        CellView::Text(name),
        CellView::Count(g.members@.len() as int),
        CellView::Count(g.wins as int),
        CellView::Count(g.losses as int),
        rate_view(g.wins as int, g.losses as int),
    ];
    if fees {
        head + seq![
            CellView::Number(f.gross, Style::One),
            CellView::Number(f.fees, Style::One),
            CellView::Number(f.pnl, Style::One),
        ]
    } else {
        head + seq![CellView::Number(f.pnl, Style::One)]
    }
}

/// The columns of the trades.
pub open spec fn trade_header(fees: bool) -> Seq<Seq<char>> {
    let head = seq![
        "Time"@,
        "Asset"@,
        "Dir"@,
        "Type"@,
        "Score"@,
        "Entry"@,
        "Stop"@,
        "TP"@,
        "Result"@,
    ];
    if fees {
        head + seq!["Gross"@, "Fee"@, "Net"@]
    } else {
        head + seq!["P&L"@]
    }
}

/// A trade's row.
pub open spec fn trade_row(t: PaperTrade, gross: Num, names: Names, fees: bool) -> Seq<CellView> {
    let head = seq![
        CellView::Text(stamp_text(t.opened_at, SHORT@)),
        CellView::Text(names.assets@[t.asset as int]),
        CellView::Text(
            match t.direction {
                Direction::Bull => "▲"@,
                Direction::Bear => "▼"@,
            },
        ),
        CellView::Text(names.sig_types@[t.signal_type as int]),
        CellView::Number(t.score, Style::One),
        CellView::Number(t.entry, Style::Two),
        CellView::Number(t.stop, Style::Two),
        CellView::Number(t.tp, Style::Two),
        CellView::Text(
            match t.result {
                TradeResult::Win => "WIN"@,
                TradeResult::Loss => "LOSS"@,
                TradeResult::Inconclusive => "---"@,
            },
        ),
    ];
    if fees {
        head + seq![
            shown(gross != 0, gross, Style::SignedTwoR),
            shown(t.fee_r != 0, t.fee_r, Style::TwoR),
            shown(t.r_pnl != 0 || t.fee_r != 0, t.r_pnl, Style::SignedTwoR),
        ]
    } else {
        head + seq![shown(t.r_pnl != 0, t.r_pnl, Style::SignedOneR)]
    }
}

fn rate_cell(wins: usize, losses: usize) -> (r: Cell)
    requires
        wins + losses <= usize::MAX,
    ensures
        r@ == rate_view(wins as int, losses as int),
{
    if wins + losses > 0 {
        Cell::Rate { wins, decided: wins + losses }
    } else {
        Cell::Text("-".to_owned())
    }
}

fn shown_cell(show: bool, x: Num, style: Style) -> (r: Cell)
    ensures
        r@ == shown(show, x, style),
{
    if show {
        Cell::Number(x, style)
    } else {
        Cell::Text("-".to_owned())
    }
}

fn make_group_row(name: String, g: &Group, f: &GroupFigures, fees: bool) -> (r: Vec<Cell>)
    requires
        g.wins + g.losses <= usize::MAX,
    ensures
        cells(r@) == group_row(name@, *g, *f, fees),
{
    let ghost text = name@;
    let mut row: Vec<Cell> = Vec::new();
    row.push(Cell::Text(name));
    row.push(Cell::Count(g.members.len()));
    row.push(Cell::Count(g.wins));
    row.push(Cell::Count(g.losses));
    row.push(rate_cell(g.wins, g.losses));
    if fees {
        row.push(Cell::Number(f.gross, Style::One));
        row.push(Cell::Number(f.fees, Style::One));
    }
    row.push(Cell::Number(f.pnl, Style::One));
    proof {
        assert(cells(row@) =~= group_row(text, *g, *f, fees));
    }
    row
}

fn make_trade_row(t: &PaperTrade, gross: Num, names: &Names, fees: bool) -> (r: Vec<Cell>)
    requires
        ids_known(*t, *names),
        on_calendar(t.opened_at as int),
    ensures
        cells(r@) == trade_row(*t, gross, *names, fees),
{
    let mut row: Vec<Cell> = Vec::new();
    row.push(Cell::Text(short_stamp(t.opened_at)));
    row.push(Cell::Text(asset_name(names, t.asset)));
    row.push(Cell::Text(arrow(t.direction).to_owned()));
    row.push(Cell::Text(sig_type_name(names, t.signal_type)));
    row.push(Cell::Number(t.score, Style::One));
    row.push(Cell::Number(t.entry, Style::Two));
    row.push(Cell::Number(t.stop, Style::Two));
    row.push(Cell::Number(t.tp, Style::Two));
    row.push(Cell::Text(result_cell(t.result).to_owned()));
    if fees {
        row.push(shown_cell(gross != 0, gross, Style::SignedTwoR));
        row.push(shown_cell(t.fee_r != 0, t.fee_r, Style::TwoR));
        row.push(shown_cell(t.r_pnl != 0 || t.fee_r != 0, t.r_pnl, Style::SignedTwoR));
    } else {
        row.push(shown_cell(t.r_pnl != 0, t.r_pnl, Style::SignedOneR));
    }
    proof {
        assert(cells(row@) =~= trade_row(*t, gross, *names, fees));
    }
    row
}

fn make_group_header(by: GroupBy, fees: bool) -> (r: Vec<&'static str>)
    ensures
        words(r@) == group_header(by, fees),
{
    let mut h: Vec<&'static str> = Vec::new();
    h.push(
        match by {
            GroupBy::SignalType => "Signal Type",
            GroupBy::Asset => "Asset",
        },
    );
    h.push("Taken");
    h.push("W");
    h.push("L");
    h.push("WR%");
    if fees {
        h.push("Gross (R)");
        h.push("Fees (R)");
        h.push("Net (R)");
    } else {
        h.push("P&L (R)");
    }
    proof {
        assert(words(h@) =~= group_header(by, fees));
    }
    h
}

fn make_trade_header(fees: bool) -> (r: Vec<&'static str>)
    ensures
        words(r@) == trade_header(fees),
{
    let mut h: Vec<&'static str> = Vec::new();
    h.push("Time");
    h.push("Asset");
    h.push("Dir");
    h.push("Type");
    h.push("Score");
    h.push("Entry");
    h.push("Stop");
    h.push("TP");
    h.push("Result");
    if fees {
        h.push("Gross");
        h.push("Fee");
        h.push("Net");
    } else {
        h.push("P&L");
    }
    proof {
        assert(words(h@) =~= trade_header(fees));
    }
    h
}

/// The groups are those of a ledger, ascending by id.
pub open spec fn groups_of(trades: Seq<PaperTrade>, by: GroupBy, groups: Seq<Group>) -> bool {
    &&& forall|g: int| 0 <= g < groups.len() ==> group_ok(trades, by, #[trigger] groups[g])
    &&& forall|g: int, h: int|
        0 <= g < h < groups.len() ==> (#[trigger] groups[g]).id < (#[trigger] groups[h]).id
    &&& forall|i: int|
        0 <= i < trades.len() ==> has_group(groups, group_id(by, #[trigger] trades[i]))
}

/// A breakdown's rows, in the given order of the groups.
pub open spec fn rows_of_groups(
    by: GroupBy,
    groups: Seq<Group>,
    figures: Seq<GroupFigures>,
    order: Seq<usize>,
    names: Names,
    fees: bool,
) -> Seq<Seq<CellView>> {
    Seq::new(
        order.len(),
        |i: int|
            {
                let g = groups[order[i] as int];
                group_row(group_name(by, g.id, names), g, figures[order[i] as int], fees)
            },
    )
}

/// The places in order.
pub open spec fn in_order(n: nat) -> Seq<usize> {
    Seq::new(n, |i: int| i as usize)
}

/// The summed R of the groups.
pub open spec fn pnls(figures: Seq<GroupFigures>) -> Seq<Num> {
    Seq::new(figures.len(), |i: int| figures[i].pnl)
}

/// Some rows, mathematically.
pub open spec fn row_views(rows: Seq<Vec<Cell>>) -> Seq<Seq<CellView>> {
    Seq::new(rows.len(), |i: int| cells(rows[i]@))
}

/// The trades' rows, by signal time.
pub open spec fn rows_of_trades(
    trades: Seq<PaperTrade>,
    gross: Seq<Num>,
    names: Names,
    fees: bool,
) -> Seq<Seq<CellView>> {
    let order = order_of(time_keys(trades));
    Seq::new(
        order.len(),
        |i: int| trade_row(trades[order[i] as int], gross[order[i] as int], names, fees),
    )
}

/// The line on how the trades ended.
pub open spec fn summary_of(trades: Seq<PaperTrade>, k: Knobs, run: RunFigures) -> Summary {
    let wins = count_of(trades, TradeResult::Win);
    let losses = count_of(trades, TradeResult::Loss);
    if wins + losses > 0 {
        Summary::Decided {
            wins: wins as usize,
            losses: losses as usize,
            inconclusive: count_of(trades, TradeResult::Inconclusive) as usize,
            good: run.win_rate >= HALF,
            fees: k.use_fees,
        }
    } else {
        Summary::Undecided
    }
}

impl PaperTrader {
    fn group_table(
        &self,
        by: GroupBy,
        title: &'static str,
        groups: &Vec<Group>,
        figures: &Vec<GroupFigures>,
        order: &Vec<usize>,
        names: &Names,
    ) -> (r: TextTable)
        requires
            groups_of(self@.trades, by, groups@),
            figures@.len() == groups@.len(),
            self.ledger_known(*names),
            places(order@, 0, groups@.len() as int),
        ensures
            r.title == title,
            words(r.header@) == group_header(by, self.knobs.use_fees),
            row_views(r.rows@) == rows_of_groups(
                by,
                groups@,
                figures@,
                order@,
                *names,
                self.knobs.use_fees,
            ),
    {
        let fees = self.knobs.use_fees;
        let ghost goal = rows_of_groups(by, groups@, figures@, order@, *names, fees);
        let mut rows: Vec<Vec<Cell>> = Vec::new();
        let mut i: usize = 0;
        while i < order.len()
            invariant
                i <= order@.len(),
                groups_of(self@.trades, by, groups@),
                figures@.len() == groups@.len(),
                self.ledger_known(*names),
                places(order@, 0, groups@.len() as int),
                goal == rows_of_groups(by, groups@, figures@, order@, *names, fees),
                rows@.len() == i,
                forall|k: int| 0 <= k < i ==> cells((#[trigger] rows@[k])@) == goal[k],
            decreases order@.len() - i,
        {
            let at: usize = order[i];
            let g = &groups[at];
            let n: usize = self.trades.len();
            proof {
                assert(n == self@.trades.len());
                assert(group_ok(self@.trades, by, groups@[at as int]));
                lemma_member_exists(self@.trades, by, g.id);
                let m = choose|m: int|
                    0 <= m < self@.trades.len() && group_id(by, #[trigger] self@.trades[m]) == g.id;
                assert(ids_known(self@.trades[m], *names));
                lemma_group_counts(self@.trades, by, g.id);
            }
            let name = match by {
                GroupBy::SignalType => sig_type_name(names, g.id),
                GroupBy::Asset => asset_name(names, g.id),
            };
            rows.push(make_group_row(name, g, &figures[at], fees));
            i = i + 1;
        }
        proof {
            assert(row_views(rows@) =~= goal);
        }
        TextTable { title, header: make_group_header(by, fees), rows }
    }

    /// Every trade was opened on the calendar.
    pub open spec fn rows_dated(&self) -> bool {
        forall|i: int|
            0 <= i < self@.trades.len() ==> on_calendar((#[trigger] self@.trades[i]).opened_at as int)
    }

    fn trade_table(&self, gross: &Vec<Num>, names: &Names) -> (r: TextTable)
        requires
            gross@.len() == self@.trades.len(),
            self.ledger_known(*names),
            self.rows_dated(),
        ensures
            r.title@ == "Trades:"@,
            words(r.header@) == trade_header(self.knobs.use_fees),
            row_views(r.rows@) == rows_of_trades(
                self@.trades,
                gross@,
                *names,
                self.knobs.use_fees,
            ),
    {
        let fees = self.knobs.use_fees;
        let order = self.rows_by_time();
        let ghost goal = rows_of_trades(self@.trades, gross@, *names, fees);
        let mut rows: Vec<Vec<Cell>> = Vec::new();
        let mut i: usize = 0;
        while i < order.len()
            invariant
                i <= order@.len(),
                gross@.len() == self@.trades.len(),
                self.ledger_known(*names),
                self.rows_dated(),
                order@ == order_of(time_keys(self@.trades)),
                places(order@, 0, self@.trades.len() as int),
                goal == rows_of_trades(self@.trades, gross@, *names, fees),
                rows@.len() == i,
                forall|k: int| 0 <= k < i ==> cells((#[trigger] rows@[k])@) == goal[k],
            decreases order@.len() - i,
        {
            let at: usize = order[i];
            assert(ids_known(self@.trades[at as int], *names));
            rows.push(make_trade_row(&self.trades[at], gross[at], names, fees));
            i = i + 1;
        }
        proof {
            assert(row_views(rows@) =~= goal);
        }
        TextTable { title: "Trades:", header: make_trade_header(fees), rows }
    }

    fn summary(&self, run: &RunFigures) -> (r: Summary)
        ensures
            r == summary_of(self@.trades, self.knobs, *run),
    {
        let wins: usize = self.wins();
        let losses: usize = self.losses();
        if self.decided() > 0 {
            Summary::Decided {
                wins,
                losses,
                inconclusive: self.inconclusive(),
                good: run.win_rate >= HALF,
                fees: self.knobs.use_fees,
            }
        } else {
            Summary::Undecided
        }
    }

    /// The run's report as tables: how the trades ended; then, where there are
    /// any, the breakdown by signal type, the one by asset with the best
    /// first, and the trades by time. The groups are the ledger's own, the
    /// figures theirs; `gross` is each trade's R before fees.
    pub fn render_text(
        &self,
        names: &Names,
        run: &RunFigures,
        types: &Vec<Group>,
        type_figures: &Vec<GroupFigures>,
        assets: &Vec<Group>,
        asset_figures: &Vec<GroupFigures>,
        gross: &Vec<Num>,
    ) -> (r: TextReport)
        requires
            self.ledger_known(*names),
            groups_of(self@.trades, GroupBy::SignalType, types@),
            groups_of(self@.trades, GroupBy::Asset, assets@),
            type_figures@.len() == types@.len(),
            asset_figures@.len() == assets@.len(),
            gross@.len() == self@.trades.len(),
            self.rows_dated(),
        ensures
            r.summary == summary_of(self@.trades, self.knobs, *run),
            self@.trades.len() == 0 ==> r.tables@.len() == 0,
            self@.trades.len() > 0 ==> {
                let fees = self.knobs.use_fees;
                &&& r.tables@.len() == 3
                &&& r.tables@[0].title@ == "By Signal Type:"@
                &&& words(r.tables@[0].header@) == group_header(GroupBy::SignalType, fees)
                &&& row_views(r.tables@[0].rows@) == rows_of_groups(
                    GroupBy::SignalType,
                    types@,
                    type_figures@,
                    in_order(types@.len()),
                    *names,
                    fees,
                )
                &&& r.tables@[1].title@ == "By Asset:"@
                &&& words(r.tables@[1].header@) == group_header(GroupBy::Asset, fees)
                &&& row_views(r.tables@[1].rows@) == rows_of_groups(
                    GroupBy::Asset,
                    assets@,
                    asset_figures@,
                    order_of(profit_keys(pnls(asset_figures@))),
                    *names,
                    fees,
                )
                &&& r.tables@[2].title@ == "Trades:"@
                &&& words(r.tables@[2].header@) == trade_header(fees)
                &&& row_views(r.tables@[2].rows@) == rows_of_trades(
                    self@.trades,
                    gross@,
                    *names,
                    fees,
                )
            },
    {
        let summary = self.summary(run);
        let mut tables: Vec<TextTable> = Vec::new();
        if self.trades.len() > 0 {
            let mut same: Vec<usize> = Vec::new();
            let mut i: usize = 0;
            while i < types.len()
                invariant
                    i <= types@.len(),
                    same@ == in_order(i as nat),
                decreases types@.len() - i,
            {
                same.push(i);
                i = i + 1;
                proof {
                    assert(same@ =~= in_order(i as nat));
                }
            }
            proof {
                assert forall|x: usize| 0 <= x < types@.len() implies #[trigger] same@.contains(
                    x,
                ) by {
                    assert(same@[x as int] == x);
                }
            }
            tables.push(
                self.group_table(
                    GroupBy::SignalType,
                    "By Signal Type:",
                    types,
                    type_figures,
                    &same,
                    names,
                ),
            );
            let mut profits: Vec<Num> = Vec::new();
            let mut j: usize = 0;
            while j < asset_figures.len()
                invariant
                    j <= asset_figures@.len(),
                    profits@ == pnls(asset_figures@).take(j as int),
                decreases asset_figures@.len() - j,
            {
                profits.push(asset_figures[j].pnl);
                j = j + 1;
                proof {
                    assert(profits@ =~= pnls(asset_figures@).take(j as int));
                }
            }
            proof {
                assert(profits@ =~= pnls(asset_figures@));
            }
            let order = order_by_profit(&profits);
            proof {
                assert(profit_keys(profits@).len() == assets@.len());
            }
            tables.push(
                self.group_table(
                    GroupBy::Asset,
                    "By Asset:",
                    assets,
                    asset_figures,
                    &order,
                    names,
                ),
            );
            tables.push(self.trade_table(gross, names));
        }
        TextReport { summary, tables }
    }
}

/// A group's wins and losses are among its trades.
proof fn lemma_group_counts(trades: Seq<PaperTrade>, by: GroupBy, id: u16)
    ensures
        crate::paper::report::group_count(trades, by, id, TradeResult::Win)
            + crate::paper::report::group_count(trades, by, id, TradeResult::Loss)
            <= trades.len(),
    decreases trades.len(),
{
    if trades.len() > 0 {
        lemma_group_counts(trades.drop_last(), by, id);
    }
}

} // verus!
