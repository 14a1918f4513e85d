//! The broker reached through a Python library: reading its objects, and the
//! commands of the thread that owns it.

pub mod bridge;
pub mod conversion;
