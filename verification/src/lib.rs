//! A backtest engine's logic: order fills, the trade ledger, market-structure
//! scanning, run configuration and data merging, with each function's
//! behaviour stated in a contract and proved.
//!
//! Prices, R multiples and scores are held as order keys (see [`key`]): the
//! library compares and moves them, and the arithmetic that makes new ones is
//! done by its caller.
pub mod atr;
pub mod clock;
pub mod data;
pub mod driver;
pub mod events;
pub mod example_strategy;
pub mod fees;
pub mod hold;
pub mod key;
pub mod l2book;
pub mod leverage;
pub mod liquidity;
pub mod models;
pub mod paper;
pub mod params;
pub mod pipeline;
pub mod record;
pub mod sort;
pub mod strmap;
pub mod text;
pub mod tfmap;
