//! A time-bounded trading competition: participants register, receive a fixed
//! starting balance of a stable unit, and convert balances between assets at
//! prices set by an oracle, within registration and trading windows.

pub mod decimal;
pub mod asset;
pub mod error;
pub mod asset_table;
pub mod trade_vault;
pub mod oracle;
pub mod trade_simulator;
pub mod time;
pub mod competition;
pub mod starter_vault;
