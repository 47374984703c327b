//! What stands between a command line and a run: which factory, which knobs,
//! which assets, which window, and the order candles are fed in; and how the
//! books of a run become one ledger.
pub mod args;
pub mod factory;
pub mod feed;
pub mod laws;
pub mod merge;
pub mod resolve;
pub mod window;
