//! What a round trip costs: which schedule applies, and on what basis an
//! asset is charged.
use vstd::prelude::*;
use vstd::string::*;
use crate::key::Num;
use crate::models::{asset_name, Names};
use crate::strmap::StrMap;
use crate::text::{lower, str_eq, to_lower};

verus! {

/// Which rate the entry leg paid; the exit always pays the taker's.
#[derive(Debug, Clone, Copy, PartialEq, Eq, Structural)]
pub enum EntryFeeSide {
    /// A passive limit that rested and was hit at its price.
    Maker,
    /// An aggressing fill: a marketable limit or a market chase.
    Taker,
}

/// A proportional rate pair, as fractions of notional.
#[derive(Debug, Clone, Copy, PartialEq, Eq, Structural)]
pub struct FeeRate {
    pub maker: Num,
    pub taker: Num,
}

/// How a venue charges for a round trip: a fraction of notional, or a flat
/// amount per contract.
#[derive(Debug, Clone, Copy, PartialEq, Eq, Structural)]
pub enum FeeSchedule {
    /// Perpetual futures, proportional. The default.
    Perp,
    /// Spot, proportional.
    Spot,
    /// Micro futures, flat per contract.
    Futures,
    /// Full-size futures, flat per contract.
    FuturesFullSize,
}

/// A flat per-contract spec.
#[derive(Debug, Clone, Copy, PartialEq, Eq, Structural)]
pub struct ContractSpec {
    /// Dollars per point of price movement, per contract.
    pub point_value: Num,
    /// All-in fee per contract for the round trip, in dollars.
    pub round_turn: Num,
}

/// The maker rate of an asset without one of its own: 0.29 basis points.
pub const DEFAULT_MAKER: Num = 0x3efe68a0d349be90;

/// The taker rate of an asset without one of its own: 0.86 basis points.
pub const DEFAULT_TAKER: Num = 0x3f168b5cbff47736;

/// The spot taker rate of an asset without one of its own: 3.2 basis points;
/// makers pay nothing.
pub const SPOT_TAKER: Num = 0x3f34f8b588e368f1;

/// The rate a schedule charges an asset without one of its own.
pub open spec fn default_rate(schedule: FeeSchedule) -> FeeRate {
    if schedule == FeeSchedule::Spot {
        FeeRate { maker: 0, taker: SPOT_TAKER }
    } else {
        FeeRate { maker: DEFAULT_MAKER, taker: DEFAULT_TAKER }
    }
}

/// The active schedule and what was registered per asset.
#[derive(Debug, Clone)]
pub struct FeeTables {
    pub schedule: FeeSchedule,
    pub contracts: StrMap<ContractSpec>,
    pub contracts_full: StrMap<ContractSpec>,
    pub rates: StrMap<FeeRate>,
}

impl FeeTables {
    /// The default schedule, nothing registered.
    pub fn new() -> (r: Self)
        ensures
            r.schedule == FeeSchedule::Perp,
            r.contracts@ == Map::<Seq<char>, ContractSpec>::empty(),
            r.contracts_full@ == Map::<Seq<char>, ContractSpec>::empty(),
            r.rates@ == Map::<Seq<char>, FeeRate>::empty(),
    {
        FeeTables {
            schedule: FeeSchedule::Perp,
            contracts: StrMap::new(),
            contracts_full: StrMap::new(),
            rates: StrMap::new(),
        }
    }
}

/// Set the active schedule.
pub fn set_schedule(tables: &mut FeeTables, schedule: FeeSchedule)
    ensures
        *final(tables) == (FeeTables { schedule, ..*old(tables) }),
{
    tables.schedule = schedule;
}

/// The active schedule.
pub fn active_schedule(tables: &FeeTables) -> (r: FeeSchedule)
    ensures
        r == tables.schedule,
{
    tables.schedule
}

/// The schedule of a name in lower case.
pub open spec fn schedule_named(s: Seq<char>) -> Option<FeeSchedule> {
    if s == "perp"@ {
        Some(FeeSchedule::Perp)
    } else if s == "spot"@ {
        Some(FeeSchedule::Spot)
    } else if s == "futures"@ {
        Some(FeeSchedule::Futures)
    } else if s == "futures_full"@ || s == "futures_fullsize"@ {
        Some(FeeSchedule::FuturesFullSize)
    } else {
        None
    }
}

/// The message on an unknown schedule.
pub open spec fn unknown_schedule(s: Seq<char>) -> Seq<char> {
    "unknown fee schedule '"@ + s + "' (expected perp|spot|futures|futures_full)"@
}

/// The schedule of a name, whatever its case.
pub fn parse_schedule(s: &str) -> (r: Result<FeeSchedule, String>)
    ensures
        match schedule_named(lower(s@)) {
            Some(f) => r == Ok::<FeeSchedule, String>(f),
            None => r matches Err(e) && e@ == unknown_schedule(lower(s@)),
        },
{
    let name = to_lower(s);
    let n = name.as_str();
    if str_eq(n, "perp") {
        Ok(FeeSchedule::Perp)
    } else if str_eq(n, "spot") {
        Ok(FeeSchedule::Spot)
    } else if str_eq(n, "futures") {
        Ok(FeeSchedule::Futures)
    } else if str_eq(n, "futures_full") || str_eq(n, "futures_fullsize") {
        Ok(FeeSchedule::FuturesFullSize)
    } else {
        let mut e = "unknown fee schedule '".to_owned();
        e.append(n);
        e.append("' (expected perp|spot|futures|futures_full)");
        Err(e)
    }
}

/// A name's case does not matter.
pub proof fn law_schedule_names_ignore_case(a: Seq<char>, b: Seq<char>)
    requires
        lower(a) == lower(b),
    ensures
        schedule_named(lower(a)) == schedule_named(lower(b)),
{
}

/// Register a contract for the micro schedule.
pub fn register_contract(tables: &mut FeeTables, asset: &str, spec: ContractSpec)
    ensures
        final(tables).contracts@ == old(tables).contracts@.insert(asset@, spec),
        *final(tables) == (FeeTables { contracts: final(tables).contracts, ..*old(tables) }),
{
    tables.contracts.insert(asset.to_owned(), spec);
}

/// Register a contract for the full-size schedule.
pub fn register_contract_full(tables: &mut FeeTables, asset: &str, spec: ContractSpec)
    ensures
        final(tables).contracts_full@ == old(tables).contracts_full@.insert(asset@, spec),
        *final(tables) == (FeeTables {
            contracts_full: final(tables).contracts_full,
            ..*old(tables)
        }),
{
    tables.contracts_full.insert(asset.to_owned(), spec);
}

/// Register an asset's own proportional rate.
pub fn register_rate(tables: &mut FeeTables, asset: &str, rate: FeeRate)
    ensures
        final(tables).rates@ == old(tables).rates@.insert(asset@, rate),
        *final(tables) == (FeeTables { rates: final(tables).rates, ..*old(tables) }),
{
    tables.rates.insert(asset.to_owned(), rate);
}

/// Drop everything registered; the schedule stays.
pub fn clear_registrations(tables: &mut FeeTables)
    ensures
        final(tables).schedule == old(tables).schedule,
        final(tables).contracts@ == Map::<Seq<char>, ContractSpec>::empty(),
        final(tables).contracts_full@ == Map::<Seq<char>, ContractSpec>::empty(),
        final(tables).rates@ == Map::<Seq<char>, FeeRate>::empty(),
{
    tables.contracts.clear();
    tables.contracts_full.clear();
    tables.rates.clear();
}

/// The contract of an asset under the active schedule; none under a
/// proportional one.
pub open spec fn contract_of(t: FeeTables, asset: Seq<char>) -> Option<ContractSpec> {
    match t.schedule {
        FeeSchedule::Futures => if t.contracts@.contains_key(asset) {
            Some(t.contracts@[asset])
        } else {
            None
        },
        FeeSchedule::FuturesFullSize => if t.contracts_full@.contains_key(asset) {
            Some(t.contracts_full@[asset])
        } else {
            None
        },
        _ => None,
    }
}

/// The proportional rate of an asset: its own, else the schedule's.
pub open spec fn rate_of(t: FeeTables, asset: Seq<char>) -> FeeRate {
    if t.rates@.contains_key(asset) {
        t.rates@[asset]
    } else {
        default_rate(t.schedule)
    }
}

/// The contract of an asset under the active schedule.
pub fn contract_spec(tables: &FeeTables, asset: &str) -> (r: Option<ContractSpec>)
    ensures
        r == contract_of(*tables, asset@),
{
    match tables.schedule {
        FeeSchedule::Futures => tables.contracts.get(&asset.to_owned()),
        FeeSchedule::FuturesFullSize => tables.contracts_full.get(&asset.to_owned()),
        _ => None,
    }
}

/// The proportional rate of an asset.
pub fn fee_rate_for(tables: &FeeTables, names: &Names, asset_id: u16) -> (r: FeeRate)
    requires
        asset_id < names.assets@.len(),
    ensures
        r == rate_of(*tables, names.assets@[asset_id as int]),
{
    let name = asset_name(names, asset_id);
    match tables.rates.get(&name) {
        Some(rate) => rate,
        None => match tables.schedule {
            FeeSchedule::Spot => FeeRate { maker: 0, taker: SPOT_TAKER },
            _ => FeeRate { maker: DEFAULT_MAKER, taker: DEFAULT_TAKER },
        },
    }
}

/// What a round trip's fee in R is computed from.
#[derive(Debug, Clone, Copy, PartialEq, Eq, Structural)]
pub enum FeeBasis {
    /// Nothing is charged: there is no risk to measure a fee by.
    Free,
    /// The round turn over the risk in dollars; the entry's side and price do
    /// not matter.
    PerContract(ContractSpec),
    /// The notional over the risk, times the two legs' rates.
    Proportional { entry: Num, exit: Num },
}

/// What an asset's round trip is charged by.
pub open spec fn basis_of(
    t: FeeTables,
    asset: Seq<char>,
    has_risk: bool,
    side: EntryFeeSide,
) -> FeeBasis {
    if !has_risk {
        FeeBasis::Free
    } else {
        match contract_of(t, asset) {
            Some(c) => FeeBasis::PerContract(c),
            None => {
                let rate = rate_of(t, asset);
                FeeBasis::Proportional {
                    entry: match side {
                        EntryFeeSide::Maker => rate.maker,
                        EntryFeeSide::Taker => rate.taker,
                    },
                    exit: rate.taker,
                }
            },
        }
    }
}

/// What a round trip's fee is computed from, the entry on a side.
pub fn fee_in_r_side(
    tables: &FeeTables,
    names: &Names,
    asset_id: u16,
    has_risk: bool,
    side: EntryFeeSide,
) -> (r: FeeBasis)
    requires
        asset_id < names.assets@.len(),
    ensures
        r == basis_of(*tables, names.assets@[asset_id as int], has_risk, side),
{
    if !has_risk {
        return FeeBasis::Free;
    }
    let name = asset_name(names, asset_id);
    match contract_spec(tables, name.as_str()) {
        Some(c) => FeeBasis::PerContract(c),
        None => {
            let rate = fee_rate_for(tables, names, asset_id);
            let entry: Num = match side {
                EntryFeeSide::Maker => rate.maker,
                EntryFeeSide::Taker => rate.taker,
            };
            FeeBasis::Proportional { entry, exit: rate.taker }
        },
    }
}

/// What a round trip's fee is computed from, with a maker entry.
pub fn fee_in_r(tables: &FeeTables, names: &Names, asset_id: u16, has_risk: bool) -> (r: FeeBasis)
    requires
        asset_id < names.assets@.len(),
    ensures
        r == basis_of(
            *tables,
            names.assets@[asset_id as int],
            has_risk,
            EntryFeeSide::Maker,
        ),
{
    fee_in_r_side(tables, names, asset_id, has_risk, EntryFeeSide::Maker)
}

/// A flat fee does not distinguish a maker from a taker entry.
pub proof fn law_flat_fees_ignore_the_side(t: FeeTables, asset: Seq<char>, has_risk: bool)
    requires
        contract_of(t, asset) is Some,
    ensures
        basis_of(t, asset, has_risk, EntryFeeSide::Maker) == basis_of(
            t,
            asset,
            has_risk,
            EntryFeeSide::Taker,
        ),
{
}

/// A futures schedule charges an asset without a contract as the perpetual
/// schedule does: it is never free of charge.
pub proof fn law_unlisted_assets_still_pay(
    t: FeeTables,
    asset: Seq<char>,
    side: EntryFeeSide,
)
    requires
        t.schedule == FeeSchedule::Futures || t.schedule == FeeSchedule::FuturesFullSize,
        contract_of(t, asset) is None,
    ensures
        basis_of(t, asset, true, side) == basis_of(
            FeeTables { schedule: FeeSchedule::Perp, ..t },
            asset,
            true,
            side,
        ),
        basis_of(t, asset, true, side) is Proportional,
{
}

/// A trade without risk pays nothing. One of an asset with a contract on the
/// schedule in force pays per contract: the micro contracts on the futures
/// schedule, the full-size ones on the full-size schedule, and none on the
/// others. Any other trade pays in proportion: what a maker or a taker pays to
/// enter, and what a taker pays to leave.
pub proof fn law_each_leg_pays_its_rate(
    t: FeeTables,
    asset: Seq<char>,
    has_risk: bool,
    side: EntryFeeSide,
)
    ensures
        ({
            let b = basis_of(t, asset, has_risk, side);
            let rate = rate_of(t, asset);
            let micro = t.schedule == FeeSchedule::Futures && t.contracts@.contains_key(asset);
            let full = t.schedule == FeeSchedule::FuturesFullSize
                && t.contracts_full@.contains_key(asset);
            &&& !has_risk <==> b == FeeBasis::Free
            &&& has_risk && micro ==> b == FeeBasis::PerContract(t.contracts@[asset])
            &&& has_risk && full ==> b == FeeBasis::PerContract(t.contracts_full@[asset])
            &&& has_risk && !micro && !full ==> b is Proportional && b->exit == rate.taker
            &&& has_risk && !micro && !full && side == EntryFeeSide::Maker ==> b->entry
                == rate.maker
            &&& has_risk && !micro && !full && side == EntryFeeSide::Taker ==> b->entry
                == rate.taker
        }),
{
}

/// An asset's rate is the one registered for it; without one it is the
/// schedule's default, where only spot makers pay nothing and spot takers pay
/// more than others.
pub proof fn law_registered_rates_come_first(t: FeeTables, asset: Seq<char>)
    ensures
        t.rates@.contains_key(asset) ==> rate_of(t, asset) == t.rates@[asset],
        !t.rates@.contains_key(asset) ==> {
            let r = rate_of(t, asset);
            &&& t.schedule == FeeSchedule::Spot ==> r.maker == 0 && r.taker == 0x3f34f8b588e368f1
            &&& t.schedule != FeeSchedule::Spot ==> r.maker == 0x3efe68a0d349be90 && r.taker
                == 0x3f168b5cbff47736
        },
{
}

} // verus!
