//! Candle and tick files: which columns and row groups are read, which files
//! back an asset, how series are merged, and what may be appended.
pub mod columns;
pub mod laws;
pub mod roll;
pub mod rows;
pub mod series;
pub mod sources;
