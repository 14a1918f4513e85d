//! Verified core of the Corsair options market-making broker.
//!
//! The crate holds the broker's decisions, data structures and wire formats.
//! Sockets, files, clocks and floating-point arithmetic stay with the caller;
//! what they produce comes in as plain values.

pub mod api;
pub mod broker;
pub mod broker_calls;
pub mod broker_laws;
pub mod client;
pub mod codec;
pub mod config;
pub mod convert;
pub mod cpu_affinity;
pub mod dates;
pub mod decimal_text;
pub mod double;
pub mod hedge;
pub mod ibkr;
pub mod ipc;
pub mod jsonl;
pub mod latency;
pub mod market_data;
pub mod messages;
pub mod money;
pub mod native_error;
pub mod notify;
pub mod place_template;
pub mod portfolio;
pub mod requests;
pub mod ring;
pub mod rounding;
pub mod runtime;
pub mod subscriptions;
pub mod table;
pub mod tasks;
pub mod text;
pub mod time;
pub mod types;
pub mod vol_surface;
