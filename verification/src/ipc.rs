//! What passes between the broker and the trader: events and commands.

use vstd::prelude::*;
use vstd::string::*;

pub mod commands;
pub mod events;
pub mod risk_state;
pub mod tick_wire;
pub mod ticks;

verus! {

/// Where the rings are and how large they are.
#[derive(Debug)]
pub struct IpcConfig {
    /// Path that the rings' names start with.
    pub base_path: String,
    /// Bytes per ring.
    pub capacity: usize,
}

impl Default for IpcConfig {
    fn default() -> (r: IpcConfig)
        ensures
            r.base_path@ == "/app/data/corsair_ipc"@,
            r.capacity == 0x10_0000,
    {
        IpcConfig { base_path: "/app/data/corsair_ipc".to_owned(), capacity: 0x10_0000 }
    }
}

} // verus!
