//! Trade execution engine and wallet ledger for a chat trading bot.
//!
//! Amounts and prices are fixed-point integers counted in hundredths of a
//! unit; wallet balances are arbitrary-precision naturals.

pub mod alert;
pub mod common_types;
pub mod order_book;
pub mod outside;
pub mod pair;
pub mod price;
pub mod state;
pub mod trade_engine;
pub mod trade_laws;
pub mod wallet;
