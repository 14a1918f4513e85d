//! The thread that owns the Python library: its settings, its commands.

use crate::api::{BrokerError, OrderId};
use crate::text::{digits, u64_text};
use vstd::prelude::*;
use vstd::string::*;

verus! {

/// Events that a stream holds for a slow reader.
pub const STREAM_CAPACITY: usize = 4096;

/// How the gateway is reached.
#[derive(Debug)]
pub struct BridgeConfig {
    pub gateway_host: String,
    pub gateway_port: u16,
    pub client_id: i32,
    pub account: String,
    /// How long a command is waited for before events are looked for.
    pub poll_interval_ms: u64,
}

impl Default for BridgeConfig {
    fn default() -> (r: BridgeConfig)
        ensures
            r.gateway_host@ == "127.0.0.1"@,
            r.gateway_port == 4002,
            r.client_id == 0,
            r.account@ == ""@,
            r.poll_interval_ms == 1,
    {
        BridgeConfig {
            gateway_host: "127.0.0.1".to_owned(),
            gateway_port: 4002,
            client_id: 0,
            account: "".to_owned(),
            poll_interval_ms: 1,
        }
    }
}

/// Why the thread cannot be used.
#[derive(Debug)]
pub enum BridgeError {
    ThreadPanic,
    PythonInit(String),
    ChannelClosed,
}

/// An error's words.
pub open spec fn bridge_error_text(e: BridgeError) -> Seq<char> {
    match e {
        BridgeError::ThreadPanic => "bridge thread panicked"@,
        BridgeError::PythonInit(why) => "python init failed: "@ + why@,
        BridgeError::ChannelClosed => "channel closed unexpectedly"@,
    }
}

impl BridgeError {
    /// The error as text.
    pub fn message(&self) -> (r: String)
        ensures
            r@ == bridge_error_text(*self),
    {
        match self {
            BridgeError::ThreadPanic => "bridge thread panicked".to_owned(),
            BridgeError::PythonInit(why) => {
                let mut out = "python init failed: ".to_owned();
                out.append(why.as_str());
                out
            },
            BridgeError::ChannelClosed => "channel closed unexpectedly".to_owned(),
        }
    }
}

/// A command for the thread.
#[derive(Clone, Copy, Debug, PartialEq, Eq, Structural)]
pub enum Command {
    Connect,
    Disconnect,
    PlaceOrder,
    CancelOrder { id: OrderId },
    ModifyOrder { id: OrderId },
    Positions,
    AccountValues,
    OpenOrders,
    RecentFills { since_ns: u64 },
    QualifyFuture,
    QualifyOption,
    ListChain,
    SubscribeTicks,
    UnsubscribeTicks,
    Shutdown,
}

/// A command's name, with the order or time that it is about.
pub open spec fn command_text(c: Command) -> Seq<char> {
    match c {
        Command::Connect => "Connect"@,
        Command::Disconnect => "Disconnect"@,
        Command::PlaceOrder => "PlaceOrder"@,
        Command::CancelOrder { id } => "CancelOrder("@ + digits(id.0 as nat) + ")"@,
        Command::ModifyOrder { id } => "ModifyOrder("@ + digits(id.0 as nat) + ")"@,
        Command::Positions => "Positions"@,
        Command::AccountValues => "AccountValues"@,
        Command::OpenOrders => "OpenOrders"@,
        Command::RecentFills { since_ns } => "RecentFills("@ + digits(since_ns as nat) + ")"@,
        Command::QualifyFuture => "QualifyFuture"@,
        Command::QualifyOption => "QualifyOption"@,
        Command::ListChain => "ListChain"@,
        Command::SubscribeTicks => "SubscribeTicks"@,
        Command::UnsubscribeTicks => "UnsubscribeTicks"@,
        Command::Shutdown => "Shutdown"@,
    }
}

fn about(name: &str, n: u64) -> (r: String)
    ensures
        r@ == name@ + digits(n as nat) + ")"@,
{
    let mut out = name.to_owned();
    out.append(u64_text(n).as_str());
    out.append(")");
    out
}

/// The method that a command stands for.
pub open spec fn method_text(c: Command) -> Seq<char> {
    match c {
        Command::Connect => "connect"@,
        Command::Disconnect => "disconnect"@,
        Command::PlaceOrder => "place_order"@,
        Command::CancelOrder { id } => "cancel_order"@,
        Command::ModifyOrder { id } => "modify_order"@,
        Command::Positions => "positions"@,
        Command::AccountValues => "account_values"@,
        Command::OpenOrders => "open_orders"@,
        Command::RecentFills { since_ns } => "recent_fills"@,
        Command::QualifyFuture => "qualify_future"@,
        Command::QualifyOption => "qualify_option"@,
        Command::ListChain => "list_chain"@,
        Command::SubscribeTicks => "subscribe_ticks"@,
        Command::UnsubscribeTicks => "unsubscribe_ticks"@,
        Command::Shutdown => "shutdown"@,
    }
}

impl Command {
    /// The command as text.
    pub fn describe(&self) -> (r: String)
        ensures
            r@ == command_text(*self),
    {
        match self {
            Command::Connect => "Connect".to_owned(),
            Command::Disconnect => "Disconnect".to_owned(),
            Command::PlaceOrder => "PlaceOrder".to_owned(),
            Command::CancelOrder { id } => about("CancelOrder(", id.0),
            Command::ModifyOrder { id } => about("ModifyOrder(", id.0),
            Command::Positions => "Positions".to_owned(),
            Command::AccountValues => "AccountValues".to_owned(),
            Command::OpenOrders => "OpenOrders".to_owned(),
            Command::RecentFills { since_ns } => about("RecentFills(", *since_ns),
            Command::QualifyFuture => "QualifyFuture".to_owned(),
            Command::QualifyOption => "QualifyOption".to_owned(),
            Command::ListChain => "ListChain".to_owned(),
            Command::SubscribeTicks => "SubscribeTicks".to_owned(),
            Command::UnsubscribeTicks => "UnsubscribeTicks".to_owned(),
            Command::Shutdown => "Shutdown".to_owned(),
        }
    }

    fn method(&self) -> (r: &'static str)
        ensures
            r@ == method_text(*self),
    {
        match self {
            Command::Connect => "connect",
            Command::Disconnect => "disconnect",
            Command::PlaceOrder => "place_order",
            Command::CancelOrder { id: _ } => "cancel_order",
            Command::ModifyOrder { id: _ } => "modify_order",
            Command::Positions => "positions",
            Command::AccountValues => "account_values",
            Command::OpenOrders => "open_orders",
            Command::RecentFills { since_ns: _ } => "recent_fills",
            Command::QualifyFuture => "qualify_future",
            Command::QualifyOption => "qualify_option",
            Command::ListChain => "list_chain",
            Command::SubscribeTicks => "subscribe_ticks",
            Command::UnsubscribeTicks => "unsubscribe_ticks",
            Command::Shutdown => "shutdown",
        }
    }
}

/// What the thread replies to a command: a shutdown is acknowledged, every
/// call is refused by name, for the library is not wired to them.
pub fn dispatch(cmd: &Command) -> (r: Result<(), BrokerError>)
    ensures
        if *cmd == Command::Shutdown {
            r is Ok
        } else {
            r matches Err(BrokerError::Internal(why)) && why@ == method_text(*cmd) + " not yet implemented (phase 2.4)"@
        },
{
    match cmd {
        Command::Shutdown => Ok(()),
        _ => {
            let mut why = cmd.method().to_owned();
            why.append(" not yet implemented (phase 2.4)");
            Err(BrokerError::Internal(why))
        },
    }
}

/// What became of a command that was handed to the thread.
#[derive(Clone, Copy, Debug, PartialEq, Eq, Structural)]
pub enum RoundTrip {
    /// The thread does not take commands any more.
    NotSent,
    /// The thread took it and went away without a reply.
    NotReplied,
}

/// The error for a command that was not replied to.
pub fn round_trip_error(what: RoundTrip) -> (r: BrokerError)
    ensures
        r matches BrokerError::Internal(why) && why@ == (match what {
            RoundTrip::NotSent => "bridge thread is gone (channel closed)"@,
            RoundTrip::NotReplied => "bridge dropped reply oneshot before responding"@,
        }),
{
    match what {
        RoundTrip::NotSent => BrokerError::Internal("bridge thread is gone (channel closed)".to_owned()),
        RoundTrip::NotReplied => BrokerError::Internal("bridge dropped reply oneshot before responding".to_owned()),
    }
}

} // verus!
