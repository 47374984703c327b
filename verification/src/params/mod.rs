//! The knobs a strategy is configured by: what is declared, what a config
//! sets, and what it therefore reads.
pub mod bag;
pub mod distance;
pub mod knobs;
pub mod names;
pub mod registry;
pub mod value;
