//! What is known of the market: prices of underlyings and the option book.
//!
//! Prices are in billionths.

pub mod option_state;
pub mod slot_map;
pub mod state;
pub mod view;
