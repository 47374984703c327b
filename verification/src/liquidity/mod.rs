//! Market-structure services: a registry of price levels, a sweep detector
//! over it, a fair-value-gap tracker, session and previous-period levels,
//! swing, gap and structure-break detection, equal highs and lows, a ranked
//! map of targets, and a day aggregator. Nothing here decides what to trade.
pub mod cfg;
pub mod day;
pub mod draw;
pub mod equal;
pub mod gaps;
pub mod laws;
pub mod level_laws;
pub mod levels;
pub mod query;
pub mod runs;
pub mod scan_laws;
pub mod scanner;
pub mod session;
pub mod setup;
pub mod signals;
pub mod source;
pub mod step;
pub mod structure_laws;
