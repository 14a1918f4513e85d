//! Delta hedging with futures, one manager per product.
//!
//! Prices and deltas are in billionths, contract multipliers in thousandths
//! of a dollar per point, and profit and loss, which is the product of a
//! price, a multiplier and a quantity, in trillionths of a dollar.

pub mod fanout;
pub mod manager;
pub mod state;
