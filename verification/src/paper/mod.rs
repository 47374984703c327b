//! The fill simulator and trade ledger: everything that happens to an order
//! after a strategy decides to place it.
pub mod book;
pub mod book_laws;
pub mod counters;
pub mod entry_laws;
pub mod exit_laws;
pub mod fill;
pub mod flow_laws;
pub mod laws;
pub mod pending;
pub mod quote;
pub mod race;
pub mod report;
pub mod report_laws;
pub mod settle;
pub mod table;
pub mod ticks;
pub mod update;
pub mod walk;
