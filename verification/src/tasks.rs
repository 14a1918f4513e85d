//! What the daemon does on each event and from time to time.

pub mod chain;
pub mod fills;
pub mod hedging;
pub mod periodic;
