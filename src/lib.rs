//! A prize-pool escrow for hosted games.
//!
//! `escrow` holds one game's record and the rules that move it from
//! `Active` to exactly one of `Completed` or `Cancelled`. `ledger` keeps a
//! registry of records keyed by game code together with the balances of
//! every identity, and couples each state change with its value transfer.
//! `laws` proves how the operations relate: finality, authorization, exact
//! payouts and conservation of value.
pub mod escrow;
pub mod laws;
pub mod ledger;
