//! The engine's own knobs.
use vstd::prelude::*;
use crate::params::value::{texts, Kind, Knob, KnobView, Value, ValueView};

verus! {

/// A knob, mathematically.
pub open spec fn row(
    name: Seq<char>,
    kind: Kind,
    default: ValueView,
    doc: Seq<char>,
) -> KnobView {
    KnobView { name, kind, default, doc }
}

/// The engine's own knobs: every `[strategy]` key a config may set without a
/// strategy declaring it, with its type, its default and what it does. Every
/// gate is off.
pub open spec fn builtin() -> Seq<KnobView> {
    builtin_0() + builtin_1() + builtin_2() + builtin_3()
}

/// Part of [`builtin`].
pub open spec fn builtin_0() -> Seq<KnobView> {
    seq![
        row(
            "min_score"@,
            Kind::F64,
            ValueView::F64(0),
            "Minimum opportunity score to place an order. The driver may override this per run, so a strategy reads the effective value from `AdmitContext::min_score` rather than from the bag."@,
        ),
        row(
            "rr"@,
            Kind::F64,
            ValueView::F64(0x4000000000000000i64),
            "Reward:risk target multiple used to project the take-profit from the entry and stop."@,
        ),
        row(
            "max_hold"@,
            Kind::U32,
            ValueView::U32(300),
            "Maximum base-timeframe bars a filled position may stay open before it is closed at market as a timeout. The result is inconclusive — a timeout is neither a win nor a stop-out."@,
        ),
        row(
            "fees"@,
            Kind::Bool,
            ValueView::Bool(true),
            "Charge round-trip fees against every closed trade. The default is context-dependent: a backtest turns it ON, a paper-only run OFF (see `Params::apply_context_default_fees`)."@,
        ),
        row(
            "fee_schedule"@,
            Kind::Str,
            ValueView::Str(""@),
            "Named fee schedule to price trades under. Empty = infer from the data source (see `fees::FeeSchedule`); an explicit value always wins."@,
        ),
        row(
            "min_stop_atr"@,
            Kind::F64,
            ValueView::F64(0),
            "Floor on the stop distance, in ATR units of the recent candle buffer (0 = off). A strategy applies this in its own `admit`."@,
        ),
        row(
            "min_stop_pct"@,
            Kind::F64,
            ValueView::F64(0),
            "Floor on the stop distance, as a percent of the entry price (0 = off). Wider stops carry proportionally less fee drag per R."@,
        ),
        row(
            "breakeven_r"@,
            Kind::F64,
            ValueView::F64(0),
            "Open profit in R at which the stop moves up to lock in `trail_lock_r` (0 = off). Measured from the actual fill, not the planned entry."@,
        ),
        row(
            "trail_lock_r"@,
            Kind::F64,
            ValueView::F64(0),
            "R the trailing stop locks in once `breakeven_r` is reached. 0 means plain breakeven; 0.5 locks half an R."@,
        ),
        row(
            "partial_tp_r"@,
            Kind::F64,
            ValueView::F64(0),
            "Bank half the position when open profit reaches this many R, letting the rest run to its stop or target (0 = off)."@,
        ),
    ]
}

/// Part of [`builtin`].
pub open spec fn builtin_1() -> Seq<KnobView> {
    seq![
        row(
            "derisk_after_min"@,
            Kind::U32,
            ValueView::U32(0),
            "After a position has been open this many base-timeframe bars, close it at market if its unrealized R at the bar close is below `derisk_below_r` (0 = off). Models standing down from a stale trade that is going nowhere rather than waiting for the full stop."@,
        ),
        row(
            "derisk_below_r"@,
            Kind::F64,
            ValueView::F64(0),
            "Unrealized-R threshold for the de-risk exit. Only meaningful when `derisk_after_min > 0`; 0.0 closes stale trades that are flat or under water."@,
        ),
        row(
            "cancel_on_target_consumed"@,
            Kind::Bool,
            ValueView::Bool(false),
            "Cancel a pending entry limit when a completed bar closes beyond the strategy's stamped `min_target` — the move ran without us. Hybrid fill lens only; acts on bars strictly before the fill bar."@,
        ),
        row(
            "cancel_on_setup_invalidated"@,
            Kind::Bool,
            ValueView::Bool(false),
            "Cancel a pending entry limit when the driver reports the strategy's setup invalidated on a completed bar. Hybrid fill lens only; acts on bars strictly before the fill bar."@,
        ),
        row(
            "risk_frac"@,
            Kind::F64,
            ValueView::F64(0),
            "Compounding-risk sizing: when > 0 the report embeds a dollar equity curve where each trade risks this fraction of the running balance, sized off the balance realized at the trade's open, starting from `account_size`. 0 = off (pure R-multiple report). Affects REPORTING ONLY — never which trades fire."@,
        ),
        row(
            "account_size"@,
            Kind::F64,
            ValueView::F64(0x40c3880000000000i64),
            "Starting account balance for the compounding equity curve."@,
        ),
        row(
            "allow_signal_bar_fill"@,
            Kind::Bool,
            ValueView::Bool(false),
            "Whether the entry limit may fill on the signal bar itself. false is the honest default: that bar's high and low printed before the order existed, so the fill search starts on the bar after the signal."@,
        ),
        row(
            "entry_slippage_r"@,
            Kind::F64,
            ValueView::F64(0),
            "Entry slippage in R-multiples of the planned risk. The fill price moves toward the losing side by `slip · R`; the divisor stays the planned R, so slippage reads as a uniform drag, never a rescale."@,
        ),
        row(
            "intrabar_stop_first"@,
            Kind::Bool,
            ValueView::Bool(true),
            "Tie-break when one candle spans both the stop and the take-profit and the intrabar order is unknowable. true resolves to the stop (pessimistic)."@,
        ),
        row(
            "entry_fill_mode"@,
            Kind::Str,
            ValueView::Str("limit"@),
            "How an entry order fills. \"limit\" = a pure resting limit that fills when price reaches it. \"hybrid\" = the order-management model: pays taker when it aggresses past the entry, models a seed-and-chase watchdog, and abandons on target/stop-gap/age. \"tick\" = resolve entries and exits against real trade prints in true time order. \"rest_on_ready\" = hybrid, plus a maker fill on the signal bar when the order demonstrably rested before it."@,
        ),
    ]
}

/// Part of [`builtin`].
pub open spec fn builtin_2() -> Seq<KnobView> {
    seq![
        row(
            "chase_r"@,
            Kind::F64,
            ValueView::F64(0x3fb999999999999ai64),
            "Chase gate and fill cap for the hybrid lens, in R-multiples of |entry − stop|. When price sits in front of the entry, a fill is only taken out to `entry ± chase_r · R`, taker at that boundary."@,
        ),
        row(
            "chase_requires_seed"@,
            Kind::Bool,
            ValueView::Bool(true),
            "Require a seed touch — the signal bar or its predecessor traded to the entry — before any chase is armed."@,
        ),
        row(
            "immediate_chase_at_open"@,
            Kind::Bool,
            ValueView::Bool(true),
            "When armed and the decision bar opens in front of the entry but inside the chase cap, fill immediately at the open as a taker, modelling a watchdog firing on its first poll."@,
        ),
        row(
            "race_maker_first"@,
            Kind::Bool,
            ValueView::Bool(false),
            "When one bar reaches BOTH the entry and the chase boundary, and the intrabar order is unknowable, resolve to the maker fill at the entry instead of the pessimistic boundary chase."@,
        ),
        row(
            "deferred_chase_at_open"@,
            Kind::Bool,
            ValueView::Bool(false),
            "Deferred open-chase: a decision bar opening in front of the entry within the cap carries its open as the limit's chase price for the limit's whole life. A maker touch at the entry still wins the race, but every other resolution books taker at the carried open instead of the full-cap boundary, and never abandons."@,
        ),
        row(
            "past_entry_fee"@,
            Kind::Str,
            ValueView::Str("taker"@),
            "Fee side when the decision bar opens at or past the entry. \"taker\" because a resting limit is marketable once price is already through it, so it aggresses; \"maker\" is a counterfactual."@,
        ),
        row(
            "rest_min_lead_secs"@,
            Kind::I64,
            ValueView::I64(60),
            "Minimum lead, in seconds, between a setup becoming final and the signal bar, before the rest-on-ready lens grants a maker fill on that bar. Larger is stricter."@,
        ),
        row(
            "tick_chase"@,
            Kind::Bool,
            ValueView::Bool(true),
            "In tick mode, model the entry chase on real tick order: an armed limit whose chase boundary is reached before any tick touches the entry fills taker at the boundary rather than never filling."@,
        ),
        row(
            "stop_gap_bps_default"@,
            Kind::F64,
            ValueView::F64(0),
            "Stop-exit gap penalty in basis points of the stop price, applied to every asset without a per-asset override. On a genuine stop-loss exit the fill is widened toward the loss before P&L and the exit fee are computed, modelling the trigger-cascade slippage a resting stop suffers. 0 = off."@,
        ),
        row(
            "stop_gap_bps_asset"@,
            Kind::VecStr,
            ValueView::VecStr(Seq::empty()),
            "Per-asset `stop_gap_bps` overrides as `ASSET:bps` strings. Assets with no match use `stop_gap_bps_default`."@,
        ),
    ]
}

/// Part of [`builtin`].
pub open spec fn builtin_3() -> Seq<KnobView> {
    seq![
        row(
            "risk_usd"@,
            Kind::F64,
            ValueView::F64(-0x3ff0000000000000i64),
            "Dollar risk per trade, for a driver that sizes positions. -1 (unset) reads back as None. The backtest reports in R-multiples and ignores it."@,
        ),
        row(
            "risk_usd_asset"@,
            Kind::VecStr,
            ValueView::VecStr(Seq::empty()),
            "Per-asset `risk_usd` overrides as `ASSET:usd` strings, parsed on the LAST ':' so a prefixed asset name also works. Assets with no match size at `risk_usd`."@,
        ),
        row(
            "l2_sizing_mode"@,
            Kind::Str,
            ValueView::Str("off"@),
            "\"off\" (default) | \"log\" (compute and journal the depth cap, size unchanged) | \"cap\" (size = min(risk sizing, depth cap)) | \"max\" (size = the depth cap outright)."@,
        ),
        row(
            "l2_slip_cap_bps"@,
            Kind::F64,
            ValueView::F64(0x4000000000000000i64),
            "Slippage budget per taker leg, in basis points of mid, including the half-spread. Both the entry leg and the stop-exit leg must fit inside it: size that can get in but not out is not size you can carry."@,
        ),
        row(
            "l2_adverse_bps"@,
            Kind::F64,
            ValueView::F64(0x3fe6666666666666i64),
            "Flat offset added to the book-walk slippage, in basis points — the latency and adverse-selection tax a real taker pays over what a pre-fill book snapshot predicts."@,
        ),
        row(
            "l2_max_staleness_s"@,
            Kind::F64,
            ValueView::F64(0x4056800000000000i64),
            "Maximum book-snapshot age, in seconds, the sizing will still act on. Anything older falls back to the risk-based size and journals no cap."@,
        ),
    ]
}

fn no_texts() -> (r: Value)
    ensures
        r@ == ValueView::VecStr(Seq::empty()),
{
    let v: Vec<String> = Vec::new();
    proof {
        assert(texts(v@) =~= Seq::empty());
    }
    Value::VecStr(v)
}

fn push(out: &mut Vec<Knob>, name: &'static str, kind: Kind, default: Value, doc: &'static str)
    ensures
        views(final(out)@) == views(old(out)@).push(row(name@, kind, default@, doc@)),
{
    out.push(Knob { name: name.to_owned(), kind, default, doc: doc.to_owned() });
    proof {
        assert(views(out@) =~= views(old(out)@).push(row(name@, kind, default@, doc@)));
    }
}

/// Some knobs, mathematically.
pub open spec fn views(knobs: Seq<Knob>) -> Seq<KnobView> {
    Seq::new(knobs.len(), |i: int| knobs[i]@)
}

fn push_0(out: &mut Vec<Knob>)
    ensures
        views(final(out)@) == views(old(out)@) + builtin_0(),
{
    push(
        out,
        "min_score",
        Kind::F64,
        Value::F64(0),
        "Minimum opportunity score to place an order. The driver may override this per run, so a strategy reads the effective value from `AdmitContext::min_score` rather than from the bag.",
    );
    push(
        out,
        "rr",
        Kind::F64,
        Value::F64(0x4000000000000000i64),
        "Reward:risk target multiple used to project the take-profit from the entry and stop.",
    );
    push(
        out,
        "max_hold",
        Kind::U32,
        Value::U32(300),
        "Maximum base-timeframe bars a filled position may stay open before it is closed at market as a timeout. The result is inconclusive — a timeout is neither a win nor a stop-out.",
    );
    push(
        out,
        "fees",
        Kind::Bool,
        Value::Bool(true),
        "Charge round-trip fees against every closed trade. The default is context-dependent: a backtest turns it ON, a paper-only run OFF (see `Params::apply_context_default_fees`).",
    );
    push(
        out,
        "fee_schedule",
        Kind::Str,
        Value::Str("".to_owned()),
        "Named fee schedule to price trades under. Empty = infer from the data source (see `fees::FeeSchedule`); an explicit value always wins.",
    );
    push(
        out,
        "min_stop_atr",
        Kind::F64,
        Value::F64(0),
        "Floor on the stop distance, in ATR units of the recent candle buffer (0 = off). A strategy applies this in its own `admit`.",
    );
    push(
        out,
        "min_stop_pct",
        Kind::F64,
        Value::F64(0),
        "Floor on the stop distance, as a percent of the entry price (0 = off). Wider stops carry proportionally less fee drag per R.",
    );
    push(
        out,
        "breakeven_r",
        Kind::F64,
        Value::F64(0),
        "Open profit in R at which the stop moves up to lock in `trail_lock_r` (0 = off). Measured from the actual fill, not the planned entry.",
    );
    push(
        out,
        "trail_lock_r",
        Kind::F64,
        Value::F64(0),
        "R the trailing stop locks in once `breakeven_r` is reached. 0 means plain breakeven; 0.5 locks half an R.",
    );
    push(
        out,
        "partial_tp_r",
        Kind::F64,
        Value::F64(0),
        "Bank half the position when open profit reaches this many R, letting the rest run to its stop or target (0 = off).",
    );
    proof {
        assert(views(out@) =~= views(old(out)@) + builtin_0());
    }
}

fn push_1(out: &mut Vec<Knob>)
    ensures
        views(final(out)@) == views(old(out)@) + builtin_1(),
{
    push(
        out,
        "derisk_after_min",
        Kind::U32,
        Value::U32(0),
        "After a position has been open this many base-timeframe bars, close it at market if its unrealized R at the bar close is below `derisk_below_r` (0 = off). Models standing down from a stale trade that is going nowhere rather than waiting for the full stop.",
    );
    push(
        out,
        "derisk_below_r",
        Kind::F64,
        Value::F64(0),
        "Unrealized-R threshold for the de-risk exit. Only meaningful when `derisk_after_min > 0`; 0.0 closes stale trades that are flat or under water.",
    );
    push(
        out,
        "cancel_on_target_consumed",
        Kind::Bool,
        Value::Bool(false),
        "Cancel a pending entry limit when a completed bar closes beyond the strategy's stamped `min_target` — the move ran without us. Hybrid fill lens only; acts on bars strictly before the fill bar.",
    );
    push(
        out,
        "cancel_on_setup_invalidated",
        Kind::Bool,
        Value::Bool(false),
        "Cancel a pending entry limit when the driver reports the strategy's setup invalidated on a completed bar. Hybrid fill lens only; acts on bars strictly before the fill bar.",
    );
    push(
        out,
        "risk_frac",
        Kind::F64,
        Value::F64(0),
        "Compounding-risk sizing: when > 0 the report embeds a dollar equity curve where each trade risks this fraction of the running balance, sized off the balance realized at the trade's open, starting from `account_size`. 0 = off (pure R-multiple report). Affects REPORTING ONLY — never which trades fire.",
    );
    push(
        out,
        "account_size",
        Kind::F64,
        Value::F64(0x40c3880000000000i64),
        "Starting account balance for the compounding equity curve.",
    );
    push(
        out,
        "allow_signal_bar_fill",
        Kind::Bool,
        Value::Bool(false),
        "Whether the entry limit may fill on the signal bar itself. false is the honest default: that bar's high and low printed before the order existed, so the fill search starts on the bar after the signal.",
    );
    push(
        out,
        "entry_slippage_r",
        Kind::F64,
        Value::F64(0),
        "Entry slippage in R-multiples of the planned risk. The fill price moves toward the losing side by `slip · R`; the divisor stays the planned R, so slippage reads as a uniform drag, never a rescale.",
    );
    push(
        out,
        "intrabar_stop_first",
        Kind::Bool,
        Value::Bool(true),
        "Tie-break when one candle spans both the stop and the take-profit and the intrabar order is unknowable. true resolves to the stop (pessimistic).",
    );
    push(
        out,
        "entry_fill_mode",
        Kind::Str,
        Value::Str("limit".to_owned()),
        "How an entry order fills. \"limit\" = a pure resting limit that fills when price reaches it. \"hybrid\" = the order-management model: pays taker when it aggresses past the entry, models a seed-and-chase watchdog, and abandons on target/stop-gap/age. \"tick\" = resolve entries and exits against real trade prints in true time order. \"rest_on_ready\" = hybrid, plus a maker fill on the signal bar when the order demonstrably rested before it.",
    );
    proof {
        assert(views(out@) =~= views(old(out)@) + builtin_1());
    }
}

fn push_2(out: &mut Vec<Knob>)
    ensures
        views(final(out)@) == views(old(out)@) + builtin_2(),
{
    push(
        out,
        "chase_r",
        Kind::F64,
        Value::F64(0x3fb999999999999ai64),
        "Chase gate and fill cap for the hybrid lens, in R-multiples of |entry − stop|. When price sits in front of the entry, a fill is only taken out to `entry ± chase_r · R`, taker at that boundary.",
    );
    push(
        out,
        "chase_requires_seed",
        Kind::Bool,
        Value::Bool(true),
        "Require a seed touch — the signal bar or its predecessor traded to the entry — before any chase is armed.",
    );
    push(
        out,
        "immediate_chase_at_open",
        Kind::Bool,
        Value::Bool(true),
        "When armed and the decision bar opens in front of the entry but inside the chase cap, fill immediately at the open as a taker, modelling a watchdog firing on its first poll.",
    );
    push(
        out,
        "race_maker_first",
        Kind::Bool,
        Value::Bool(false),
        "When one bar reaches BOTH the entry and the chase boundary, and the intrabar order is unknowable, resolve to the maker fill at the entry instead of the pessimistic boundary chase.",
    );
    push(
        out,
        "deferred_chase_at_open",
        Kind::Bool,
        Value::Bool(false),
        "Deferred open-chase: a decision bar opening in front of the entry within the cap carries its open as the limit's chase price for the limit's whole life. A maker touch at the entry still wins the race, but every other resolution books taker at the carried open instead of the full-cap boundary, and never abandons.",
    );
    push(
        out,
        "past_entry_fee",
        Kind::Str,
        Value::Str("taker".to_owned()),
        "Fee side when the decision bar opens at or past the entry. \"taker\" because a resting limit is marketable once price is already through it, so it aggresses; \"maker\" is a counterfactual.",
    );
    push(
        out,
        "rest_min_lead_secs",
        Kind::I64,
        Value::I64(60),
        "Minimum lead, in seconds, between a setup becoming final and the signal bar, before the rest-on-ready lens grants a maker fill on that bar. Larger is stricter.",
    );
    push(
        out,
        "tick_chase",
        Kind::Bool,
        Value::Bool(true),
        "In tick mode, model the entry chase on real tick order: an armed limit whose chase boundary is reached before any tick touches the entry fills taker at the boundary rather than never filling.",
    );
    push(
        out,
        "stop_gap_bps_default",
        Kind::F64,
        Value::F64(0),
        "Stop-exit gap penalty in basis points of the stop price, applied to every asset without a per-asset override. On a genuine stop-loss exit the fill is widened toward the loss before P&L and the exit fee are computed, modelling the trigger-cascade slippage a resting stop suffers. 0 = off.",
    );
    push(
        out,
        "stop_gap_bps_asset",
        Kind::VecStr,
        no_texts(),
        "Per-asset `stop_gap_bps` overrides as `ASSET:bps` strings. Assets with no match use `stop_gap_bps_default`.",
    );
    proof {
        assert(views(out@) =~= views(old(out)@) + builtin_2());
    }
}

fn push_3(out: &mut Vec<Knob>)
    ensures
        views(final(out)@) == views(old(out)@) + builtin_3(),
{
    push(
        out,
        "risk_usd",
        Kind::F64,
        Value::F64(-0x3ff0000000000000i64),
        "Dollar risk per trade, for a driver that sizes positions. -1 (unset) reads back as None. The backtest reports in R-multiples and ignores it.",
    );
    push(
        out,
        "risk_usd_asset",
        Kind::VecStr,
        no_texts(),
        "Per-asset `risk_usd` overrides as `ASSET:usd` strings, parsed on the LAST ':' so a prefixed asset name also works. Assets with no match size at `risk_usd`.",
    );
    push(
        out,
        "l2_sizing_mode",
        Kind::Str,
        Value::Str("off".to_owned()),
        "\"off\" (default) | \"log\" (compute and journal the depth cap, size unchanged) | \"cap\" (size = min(risk sizing, depth cap)) | \"max\" (size = the depth cap outright).",
    );
    push(
        out,
        "l2_slip_cap_bps",
        Kind::F64,
        Value::F64(0x4000000000000000i64),
        "Slippage budget per taker leg, in basis points of mid, including the half-spread. Both the entry leg and the stop-exit leg must fit inside it: size that can get in but not out is not size you can carry.",
    );
    push(
        out,
        "l2_adverse_bps",
        Kind::F64,
        Value::F64(0x3fe6666666666666i64),
        "Flat offset added to the book-walk slippage, in basis points — the latency and adverse-selection tax a real taker pays over what a pre-fill book snapshot predicts.",
    );
    push(
        out,
        "l2_max_staleness_s",
        Kind::F64,
        Value::F64(0x4056800000000000i64),
        "Maximum book-snapshot age, in seconds, the sizing will still act on. Anything older falls back to the risk-based size and journals no cap.",
    );
    proof {
        assert(views(out@) =~= views(old(out)@) + builtin_3());
    }
}

/// The engine's own knobs.
pub fn builtin_knobs() -> (r: Vec<Knob>)
    ensures
        views(r@) == builtin(),
{
    let mut out: Vec<Knob> = Vec::new();
    proof {
        assert(views(out@) =~= Seq::<KnobView>::empty());
        assert(Seq::<KnobView>::empty() + builtin_0() =~= builtin_0());
    }
    push_0(&mut out);
    push_1(&mut out);
    push_2(&mut out);
    push_3(&mut out);
    out
}

/// Every default is of its knob's declared type.
pub proof fn law_defaults_match_their_kind(i: int)
    requires
        0 <= i < builtin().len(),
    ensures
        builtin()[i].default.kind() == builtin()[i].kind,
{
}

} // verus!
