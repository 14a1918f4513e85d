//! Messages from the gateway, decoded.

use crate::api::Decimal;
use crate::double::Double;
use vstd::prelude::*;

verus! {

/// A contract as the gateway describes it.
#[derive(Debug)]
pub struct ContractDecoded {
    pub con_id: i64,
    pub symbol: String,
    pub sec_type: String,
    pub last_trade_date: String,
    pub strike: Decimal,
    pub right: String,
    /// The multiplier's text as a number; zero where it is none.
    pub multiplier: Double,
    pub exchange: String,
    pub primary_exchange: String,
    pub currency: String,
    pub local_symbol: String,
    pub trading_class: String,
}

/// A position.
#[derive(Debug)]
pub struct PositionMsg {
    pub account: String,
    pub contract: ContractDecoded,
    pub position: Double,
    pub avg_cost: Double,
}

/// One value of an account.
#[derive(Debug)]
pub struct AccountValueMsg {
    pub key: String,
    /// The value's text.
    pub value: String,
    /// The value's text as a number; zero where it is none.
    pub amount: Double,
    pub currency: String,
    pub account: String,
}

/// An order as the gateway holds it.
#[derive(Debug)]
pub struct OpenOrderMsg {
    pub order_id: i32,
    pub contract: ContractDecoded,
    pub action: String,
    pub total_quantity: Double,
    pub order_type: String,
    pub lmt_price: Decimal,
    pub tif: String,
    pub account: String,
    pub order_ref: String,
    pub status: String,
    pub filled: Double,
    pub remaining: Double,
}

/// A report on an order.
#[derive(Debug)]
pub struct OrderStatusMsg {
    pub order_id: i32,
    pub status: String,
    pub filled: Double,
    pub remaining: Double,
    pub avg_fill_price: Double,
    pub perm_id: i32,
    pub parent_id: i32,
    pub last_fill_price: Double,
    pub client_id: i32,
    pub why_held: String,
    pub mkt_cap_price: Double,
}

/// An execution.
#[derive(Debug)]
pub struct ExecutionMsg {
    pub req_id: i32,
    pub order_id: i32,
    pub contract: ContractDecoded,
    pub exec_id: String,
    pub time: String,
    pub account: String,
    pub exchange: String,
    pub side: String,
    pub shares: Double,
    pub price: Double,
    pub perm_id: i32,
    pub client_id: i32,
    pub liquidation: i32,
    pub cum_qty: Double,
    pub avg_price: Double,
    pub order_ref: String,
}

/// What an execution cost.
#[derive(Debug)]
pub struct CommissionReportMsg {
    pub exec_id: String,
    pub commission: Double,
    pub currency: String,
    pub realized_pnl: Double,
}

/// One contract of a contract-details reply.
#[derive(Debug)]
pub struct ContractDetailsMsg {
    pub req_id: i32,
    pub contract: ContractDecoded,
}

/// A price tick.
#[derive(Debug)]
pub struct TickPriceMsg {
    pub req_id: i32,
    /// 1 bid, 2 ask, 4 last; 66, 67 and 68 the same, delayed.
    pub tick_type: i32,
    pub price: Double,
    pub attribs: i32,
}

/// A size tick.
#[derive(Debug)]
pub struct TickSizeMsg {
    pub req_id: i32,
    /// 0 bid size, 3 ask size, 8 volume, 27 to 30 option open interest and
    /// volume; 69, 70 and 71 are delayed.
    pub tick_type: i32,
    pub size: Double,
}

/// Greeks as the gateway computes them.
#[derive(Debug)]
pub struct TickOptionComputationMsg {
    pub req_id: i32,
    pub tick_type: i32,
    pub tick_attrib: i32,
    pub implied_vol: Double,
    pub delta: Double,
    pub opt_price: Double,
    pub pv_dividend: Double,
    pub gamma: Double,
    pub vega: Double,
    pub theta: Double,
    pub und_price: Double,
}

/// One change of a depth book.
#[derive(Debug)]
pub struct MarketDepthMsg {
    pub req_id: i32,
    pub position: i32,
    pub operation: i32,
    /// 0 ask, 1 bid.
    pub side: i32,
    pub price: Double,
    pub size: Double,
}

/// An error or a notice.
#[derive(Debug)]
pub struct ErrorMsg {
    pub req_id: i32,
    pub error_code: i32,
    pub error_string: String,
    pub advanced_order_reject_json: String,
}

/// Any message from the gateway.
#[derive(Debug)]
pub enum InboundMsg {
    Position(PositionMsg),
    PositionEnd,
    AccountValue(AccountValueMsg),
    AccountUpdateTime(String),
    AccountDownloadEnd(String),
    OpenOrder(OpenOrderMsg),
    OpenOrderEnd,
    OrderStatus(OrderStatusMsg),
    Execution(ExecutionMsg),
    ExecutionEnd(i32),
    CommissionReport(CommissionReportMsg),
    ContractDetails(ContractDetailsMsg),
    ContractDetailsEnd(i32),
    TickPrice(TickPriceMsg),
    TickSize(TickSizeMsg),
    TickOptionComputation(TickOptionComputationMsg),
    MarketDepth(MarketDepthMsg),
    Error(ErrorMsg),
    NextValidId(i32),
    ManagedAccounts(Vec<String>),
    /// A message without a decoder.
    Unparsed { type_id: i32, fields: Vec<String> },
}

} // verus!
