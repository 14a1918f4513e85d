//! The broker-neutral vocabulary: contracts, orders, events.

use crate::dates::Date;
use crate::double::Double;
use vstd::prelude::*;
use vstd::string::*;

verus! {

/// A number and the decimal text that it travels as.
#[derive(Debug)]
pub struct Decimal {
    pub value: Double,
    pub text: String,
}

impl Decimal {
    /// Zero, written `0.0`.
    pub fn zero() -> (r: Decimal)
        ensures
            r.value.bits == 0,
            r.text@ == "0.0"@,
    {
        Decimal { value: Double::zero(), text: "0.0".to_owned() }
    }
}

impl Clone for Decimal {
    fn clone(&self) -> (r: Decimal)
        ensures
            r == *self,
    {
        Decimal { value: self.value, text: self.text.clone() }
    }
}

/// A copy of an optional number.
pub fn copy_decimal(d: &Option<Decimal>) -> (r: Option<Decimal>)
    ensures
        r == *d,
{
    match d {
        Some(x) => Some(x.clone()),
        None => None,
    }
}

/// The broker's identifier of an instrument.
#[derive(Clone, Copy, Debug, PartialEq, Eq, Structural, Hash)]
pub struct InstrumentId(pub u64);

/// The broker's identifier of an order.
#[derive(Clone, Copy, Debug, PartialEq, Eq, Structural, Hash)]
pub struct OrderId(pub u64);

/// Identifies a subscription.
#[derive(Clone, Copy, Debug, PartialEq, Eq, Structural, Hash)]
pub struct TickStreamHandle(pub u64);

/// Side of an order or a fill.
#[derive(Clone, Copy, Debug, PartialEq, Eq, Structural, Hash)]
pub enum Side {
    Buy,
    Sell,
}

/// Right of an option.
#[derive(Clone, Copy, Debug, PartialEq, Eq, Structural, Hash)]
pub enum Right {
    Call,
    Put,
}

/// What a contract is.
#[derive(Clone, Copy, Debug, PartialEq, Eq, Structural, Hash)]
pub enum ContractKind {
    Future,
    Option,
}

/// Where a contract trades.
#[derive(Clone, Copy, Debug, PartialEq, Eq, Structural, Hash)]
pub enum Exchange {
    Cme,
    Comex,
    Nymex,
    Cbot,
    Other(u32),
}

/// What a contract is quoted in.
#[derive(Clone, Copy, Debug, PartialEq, Eq, Structural, Hash)]
pub enum Currency {
    Usd,
    Eur,
    Gbp,
    Jpy,
}

/// How long an order stands.
#[derive(Clone, Copy, Debug, PartialEq, Eq, Structural, Hash)]
pub enum TimeInForce {
    Gtc,
    Day,
    Gtd,
    Ioc,
    Fok,
}

/// Where an order is in its life.
#[derive(Clone, Copy, Debug, PartialEq, Eq, Structural, Hash)]
pub enum OrderStatus {
    PendingSubmit,
    Submitted,
    Filled,
    Cancelled,
    Rejected,
    PendingCancel,
    Inactive,
}

impl OrderStatus {
    /// Whether the order can no longer change.
    pub open spec fn terminal(self) -> bool {
        self == OrderStatus::Filled || self == OrderStatus::Cancelled || self == OrderStatus::Rejected
    }

    /// Whether the order can no longer change.
    pub fn is_terminal(&self) -> (r: bool)
        ensures
            r == self.terminal(),
    {
        match self {
            OrderStatus::Filled | OrderStatus::Cancelled | OrderStatus::Rejected => true,
            _ => false,
        }
    }
}

/// How an order is priced.
#[derive(Debug)]
pub enum OrderType {
    Limit,
    Market,
    StopLimit { stop_price: Decimal },
}

impl Clone for OrderType {
    fn clone(&self) -> (r: OrderType)
        ensures
            r == *self,
    {
        match self {
            OrderType::Limit => OrderType::Limit,
            OrderType::Market => OrderType::Market,
            OrderType::StopLimit { stop_price } => OrderType::StopLimit { stop_price: stop_price.clone() },
        }
    }
}

/// A resolved contract.
#[derive(Debug)]
pub struct Contract {
    pub instrument_id: InstrumentId,
    pub kind: ContractKind,
    pub symbol: String,
    pub local_symbol: String,
    pub expiry: Date,
    pub strike: Option<Decimal>,
    pub right: Option<Right>,
    pub multiplier: Double,
    pub exchange: Exchange,
    pub currency: Currency,
    pub trading_class: String,
}

impl Clone for Contract {
    fn clone(&self) -> (r: Contract)
        ensures
            r == *self,
    {
        Contract {
            instrument_id: self.instrument_id,
            kind: self.kind,
            symbol: self.symbol.clone(),
            local_symbol: self.local_symbol.clone(),
            expiry: self.expiry,
            strike: copy_decimal(&self.strike),
            right: self.right,
            multiplier: self.multiplier,
            exchange: self.exchange,
            currency: self.currency,
            trading_class: self.trading_class.clone(),
        }
    }
}

/// A position in a contract.
#[derive(Debug)]
pub struct Position {
    pub contract: Contract,
    pub quantity: i32,
    pub avg_cost: Double,
    pub realized_pnl: Double,
    pub unrealized_pnl: Double,
}

impl Clone for Position {
    fn clone(&self) -> (r: Position)
        ensures
            r == *self,
    {
        Position {
            contract: self.contract.clone(),
            quantity: self.quantity,
            avg_cost: self.avg_cost,
            realized_pnl: self.realized_pnl,
            unrealized_pnl: self.unrealized_pnl,
        }
    }
}

/// An order that the broker knows of.
#[derive(Debug)]
pub struct OpenOrder {
    pub order_id: OrderId,
    pub contract: Contract,
    pub side: Side,
    pub qty: u32,
    pub order_type: OrderType,
    pub price: Option<Decimal>,
    pub tif: TimeInForce,
    /// Seconds since the Unix epoch.
    pub gtd_until_utc: Option<i64>,
    pub client_order_ref: String,
    pub status: OrderStatus,
    pub filled_qty: u32,
    pub remaining_qty: u32,
}

impl Clone for OpenOrder {
    fn clone(&self) -> (r: OpenOrder)
        ensures
            r == *self,
    {
        OpenOrder {
            order_id: self.order_id,
            contract: self.contract.clone(),
            side: self.side,
            qty: self.qty,
            order_type: self.order_type.clone(),
            price: copy_decimal(&self.price),
            tif: self.tif,
            gtd_until_utc: self.gtd_until_utc,
            client_order_ref: self.client_order_ref.clone(),
            status: self.status,
            filled_qty: self.filled_qty,
            remaining_qty: self.remaining_qty,
        }
    }
}

/// A new order.
#[derive(Debug)]
pub struct PlaceOrderReq {
    pub contract: Contract,
    pub side: Side,
    pub qty: u32,
    pub order_type: OrderType,
    pub price: Option<Decimal>,
    pub tif: TimeInForce,
    /// Seconds since the Unix epoch.
    pub gtd_until_utc: Option<i64>,
    pub client_order_ref: String,
    pub account: Option<String>,
}

/// A change of an order; what is `None` stays as it is.
#[derive(Debug)]
pub struct ModifyOrderReq {
    pub price: Option<Decimal>,
    pub qty: Option<u32>,
    /// Seconds since the Unix epoch.
    pub gtd_until_utc: Option<i64>,
}

/// A report on an order's status.
#[derive(Debug)]
pub struct OrderStatusUpdate {
    pub order_id: OrderId,
    pub status: OrderStatus,
    pub filled_qty: u32,
    pub remaining_qty: u32,
    pub avg_fill_price: Double,
    pub last_fill_price: Option<Double>,
    pub timestamp_ns: u64,
    pub reject_reason: Option<String>,
}

/// An execution.
#[derive(Debug)]
pub struct Fill {
    pub instrument_id: InstrumentId,
    pub order_id: OrderId,
    pub exec_id: String,
    pub side: Side,
    pub qty: u32,
    pub price: Double,
    pub timestamp_ns: u64,
    pub commission: Option<Double>,
}

impl Clone for Fill {
    fn clone(&self) -> (r: Fill)
        ensures
            r == *self,
    {
        Fill {
            instrument_id: self.instrument_id,
            order_id: self.order_id,
            exec_id: self.exec_id.clone(),
            side: self.side,
            qty: self.qty,
            price: self.price,
            timestamp_ns: self.timestamp_ns,
            commission: self.commission,
        }
    }
}

/// What a tick reports.
#[derive(Clone, Copy, Debug, PartialEq, Eq, Structural, Hash)]
pub enum TickKind {
    Bid,
    Ask,
    Last,
    BidSize,
    AskSize,
    Volume,
    OptionOpenInterest,
    OptionVolume,
}

/// One market-data update.
#[derive(Clone, Copy, Debug, PartialEq, Eq, Structural)]
pub struct Tick {
    pub instrument_id: InstrumentId,
    pub kind: TickKind,
    pub price: Option<Double>,
    pub size: Option<u64>,
    pub timestamp_ns: u64,
}

/// One change of a depth book.
#[derive(Clone, Copy, Debug, PartialEq, Eq, Structural)]
pub struct DepthUpdate {
    pub instrument_id: InstrumentId,
    pub position: i32,
    pub operation: i32,
    pub is_bid: bool,
    pub price: Double,
    pub size: u64,
    pub timestamp_ns: u64,
}

/// An account's balances.
#[derive(Clone, Copy, Debug, PartialEq, Eq, Structural)]
pub struct AccountSnapshot {
    pub net_liquidation: Double,
    pub maintenance_margin: Double,
    pub initial_margin: Double,
    pub buying_power: Double,
    pub realized_pnl_today: Double,
    pub timestamp_ns: u64,
}

/// State of the connection to the gateway.
#[derive(Clone, Copy, Debug, PartialEq, Eq, Structural, Hash)]
pub enum ConnectionState {
    Connecting,
    Connected,
    LostConnection,
    Closed,
}

/// Why a broker call failed.
#[derive(Debug)]
pub enum BrokerError {
    ConnectionLost(String),
    NotConnected(String),
    Protocol { code: Option<i32>, message: String },
    ContractNotFound(String),
    OrderRejected { order_id: Option<u64>, reason: String },
    RateLimited(String),
    InvalidRequest(String),
    Internal(String),
}

/// Which future to resolve.
#[derive(Debug)]
pub struct FutureQuery {
    pub symbol: String,
    pub expiry: Date,
    pub exchange: Exchange,
    pub currency: Currency,
}

/// Which option to resolve.
#[derive(Debug)]
pub struct OptionQuery {
    pub symbol: String,
    pub expiry: Date,
    /// The strike, rounded to four decimals.
    pub strike: Decimal,
    pub right: Right,
    pub multiplier: Double,
    pub exchange: Exchange,
    pub currency: Currency,
}

/// Which contracts to list.
#[derive(Debug)]
pub struct ChainQuery {
    pub symbol: String,
    pub kind: Option<ContractKind>,
    pub exchange: Exchange,
    pub currency: Currency,
    pub min_expiry: Option<Date>,
}

/// What to subscribe to.
#[derive(Debug)]
pub struct TickSubscription {
    pub instrument_id: InstrumentId,
    pub contract: Option<Contract>,
}

/// An order is done once it was filled, cancelled or refused; one that is being
/// cancelled, or is idle, may still come back.
pub proof fn law_done_orders_are_done(s: OrderStatus)
    ensures
        s is Filled || s is Cancelled || s is Rejected ==> s.terminal(),
        s is PendingSubmit || s is Submitted || s is PendingCancel || s is Inactive ==> !s.terminal(),
{
}

} // verus!
