//! Between the gateway's texts and the broker-neutral vocabulary.

use crate::api::{
    BrokerError, Contract, ContractKind, Currency, Decimal, Exchange, Fill, InstrumentId, OpenOrder, OrderId,
    OrderStatus, OrderType, PlaceOrderReq, Position, Right, Side, TimeInForce,
};
use crate::dates::{
    date_text, format_utc, format_yyyymmdd, last_trade_date, last_trade_parts, law_yyyymmdd_shows_the_date,
    parse_yyyymmdd, parsed_date, utc_text, ymd_text, Date,
};
use crate::double::Double;
use crate::native_error::NativeError;
use crate::requests::{ContractRequest, PlaceOrderParams};
use crate::text::{i64_text, int_text, str_eq, u64_text};
use crate::types::{ContractDecoded, ContractDetailsMsg, ErrorMsg, ExecutionMsg, OpenOrderMsg, PositionMsg};
use vstd::prelude::*;
use vstd::string::*;

verus! {

/// The status that a text names; any unknown text is inactive.
pub open spec fn status_of(s: Seq<char>) -> OrderStatus {
    if s == "PendingSubmit"@ || s == "ApiPending"@ || s == "PreSubmitted"@ {
        OrderStatus::PendingSubmit
    } else if s == "Submitted"@ {
        OrderStatus::Submitted
    } else if s == "Filled"@ {
        OrderStatus::Filled
    } else if s == "Cancelled"@ || s == "ApiCancelled"@ {
        OrderStatus::Cancelled
    } else if s == "PendingCancel"@ {
        OrderStatus::PendingCancel
    } else if s == "Rejected"@ || s == "ApiRejected"@ {
        OrderStatus::Rejected
    } else {
        OrderStatus::Inactive
    }
}

/// Reads an order status.
pub fn parse_status(s: &str) -> (r: OrderStatus)
    ensures
        r == status_of(s@),
{
    if str_eq(s, "PendingSubmit") || str_eq(s, "ApiPending") || str_eq(s, "PreSubmitted") {
        OrderStatus::PendingSubmit
    } else if str_eq(s, "Submitted") {
        OrderStatus::Submitted
    } else if str_eq(s, "Filled") {
        OrderStatus::Filled
    } else if str_eq(s, "Cancelled") || str_eq(s, "ApiCancelled") {
        OrderStatus::Cancelled
    } else if str_eq(s, "PendingCancel") {
        OrderStatus::PendingCancel
    } else if str_eq(s, "Rejected") || str_eq(s, "ApiRejected") {
        OrderStatus::Rejected
    } else {
        OrderStatus::Inactive
    }
}

/// Whether an error code says that a contract is unknown or invalid.
pub open spec fn contract_error(code: int) -> bool {
    code == 200 || code == 321 || code == 322
}

/// Whether an error code says that a contract is unknown or invalid.
pub fn is_contract_error(code: i32) -> (r: bool)
    ensures
        r == contract_error(code as int),
{
    code == 200 || code == 321 || code == 322
}

/// Whether an error code says that an order was refused. Notices that leave
/// the order live are not among them, nor is the answer to our own cancel.
pub open spec fn order_error(code: int) -> bool {
    code == 201 || code == 203 || code == 434 || code == 436 || code == 10148 || code == 10197
}

/// Whether an error code says that an order was refused.
pub fn is_order_error(code: i32) -> (r: bool)
    ensures
        r == order_error(code as int),
{
    code == 201 || code == 203 || code == 434 || code == 436 || code == 10148 || code == 10197
}

/// Whether a broker error is the one that a gateway error stands for.
pub open spec fn reports(r: BrokerError, code: int, text: String) -> bool {
    if code == 1100 || code == 1101 || code == 1102 || code == 1300 {
        r == BrokerError::ConnectionLost(text)
    } else if code == 100 {
        r == BrokerError::RateLimited(text)
    } else if code == 110 || code == 200 || code == 321 || code == 322 {
        r == BrokerError::ContractNotFound(text)
    } else {
        r == (BrokerError::Protocol { code: Some(code as i32), message: text })
    }
}

/// The broker error that a gateway error stands for.
pub fn error_to_broker_error(e: &ErrorMsg) -> (r: BrokerError)
    ensures
        reports(r, e.error_code as int, e.error_string),
{
    let code: i32 = e.error_code;
    if code == 1100 || code == 1101 || code == 1102 || code == 1300 {
        BrokerError::ConnectionLost(e.error_string.clone())
    } else if code == 100 {
        BrokerError::RateLimited(e.error_string.clone())
    } else if code == 110 || code == 200 || code == 321 || code == 322 {
        BrokerError::ContractNotFound(e.error_string.clone())
    } else {
        BrokerError::Protocol { code: Some(code), message: e.error_string.clone() }
    }
}

/// The broker error that a client error stands for: lost and timed-out
/// connections, a missing connection, and broken protocol. The message is
/// the client error's own.
pub fn map_native_err(e: &NativeError) -> (r: BrokerError)
    ensures
        match e {
            NativeError::Lost(_) | NativeError::HandshakeTimeout | NativeError::Io(_) => r matches BrokerError::ConnectionLost(m)
                && m@ == e.describe(),
            NativeError::NotConnected => r matches BrokerError::NotConnected(m) && m@ == e.describe(),
            NativeError::ServerVersionTooLow(_, _)
            | NativeError::Protocol(_)
            | NativeError::Malformed(_) => r matches BrokerError::Protocol { code, message } && code is None && message@
                == e.describe(),
        },
{
    let message = e.message();
    match e {
        NativeError::Lost(_) | NativeError::HandshakeTimeout | NativeError::Io(_) => BrokerError::ConnectionLost(message),
        NativeError::NotConnected => BrokerError::NotConnected(message),
        NativeError::ServerVersionTooLow(_, _)
        | NativeError::Protocol(_)
        | NativeError::Malformed(_) => BrokerError::Protocol { code: None, message },
    }
}

/// The side that an order action names.
pub open spec fn side_of(s: Seq<char>) -> Option<Side> {
    if s == "BUY"@ {
        Some(Side::Buy)
    } else if s == "SELL"@ {
        Some(Side::Sell)
    } else {
        None
    }
}

/// Reads an order action.
pub fn parse_side(s: &str) -> (r: Option<Side>)
    ensures
        r == side_of(s@),
{
    if str_eq(s, "BUY") {
        Some(Side::Buy)
    } else if str_eq(s, "SELL") {
        Some(Side::Sell)
    } else {
        None
    }
}

/// Reads an order type; an unknown one is a limit order.
pub fn parse_order_type(s: &str, aux: Decimal) -> (r: OrderType)
    ensures
        s@ == "MKT"@ ==> r == OrderType::Market,
        s@ == "STP LMT"@ ==> r == (OrderType::StopLimit { stop_price: aux }),
        s@ != "MKT"@ && s@ != "STP LMT"@ ==> r == OrderType::Limit,
{
    proof {
        reveal_strlit("MKT");
        reveal_strlit("STP LMT");
        assert("MKT"@.len() != "STP LMT"@.len());
    }
    if str_eq(s, "MKT") {
        OrderType::Market
    } else if str_eq(s, "STP LMT") {
        OrderType::StopLimit { stop_price: aux }
    } else {
        OrderType::Limit
    }
}

/// The time in force that a text names; an unknown one is a day order.
pub open spec fn tif_of(s: Seq<char>) -> TimeInForce {
    if s == "GTC"@ {
        TimeInForce::Gtc
    } else if s == "DAY"@ {
        TimeInForce::Day
    } else if s == "GTD"@ {
        TimeInForce::Gtd
    } else if s == "IOC"@ {
        TimeInForce::Ioc
    } else if s == "FOK"@ {
        TimeInForce::Fok
    } else {
        TimeInForce::Day
    }
}

/// Reads a time in force.
pub fn parse_tif(s: &str) -> (r: TimeInForce)
    ensures
        r == tif_of(s@),
{
    if str_eq(s, "GTC") {
        TimeInForce::Gtc
    } else if str_eq(s, "DAY") {
        TimeInForce::Day
    } else if str_eq(s, "GTD") {
        TimeInForce::Gtd
    } else if str_eq(s, "IOC") {
        TimeInForce::Ioc
    } else if str_eq(s, "FOK") {
        TimeInForce::Fok
    } else {
        TimeInForce::Day
    }
}

/// A time in force on the wire.
pub open spec fn tif_text(t: TimeInForce) -> Seq<char> {
    match t {
        TimeInForce::Gtc => "GTC"@,
        TimeInForce::Day => "DAY"@,
        TimeInForce::Gtd => "GTD"@,
        TimeInForce::Ioc => "IOC"@,
        TimeInForce::Fok => "FOK"@,
    }
}

/// A time in force on the wire.
pub fn tif_str(t: TimeInForce) -> (r: &'static str)
    ensures
        r@ == tif_text(t),
{
    match t {
        TimeInForce::Gtc => "GTC",
        TimeInForce::Day => "DAY",
        TimeInForce::Gtd => "GTD",
        TimeInForce::Ioc => "IOC",
        TimeInForce::Fok => "FOK",
    }
}

/// The right that a text names.
pub open spec fn right_of(s: Seq<char>) -> Option<Right> {
    if s == "C"@ || s == "CALL"@ {
        Some(Right::Call)
    } else if s == "P"@ || s == "PUT"@ {
        Some(Right::Put)
    } else {
        None
    }
}

/// Reads an option right.
pub fn parse_right(s: &str) -> (r: Option<Right>)
    ensures
        r == right_of(s@),
{
    if str_eq(s, "C") || str_eq(s, "CALL") {
        Some(Right::Call)
    } else if str_eq(s, "P") || str_eq(s, "PUT") {
        Some(Right::Put)
    } else {
        None
    }
}

/// The kind of contract that a security type names.
pub open spec fn kind_of(s: Seq<char>) -> Option<ContractKind> {
    if s == "FUT"@ {
        Some(ContractKind::Future)
    } else if s == "OPT"@ || s == "FOP"@ {
        Some(ContractKind::Option)
    } else {
        None
    }
}

/// Reads a security type.
pub fn parse_kind(s: &str) -> (r: Option<ContractKind>)
    ensures
        r == kind_of(s@),
{
    if str_eq(s, "FUT") {
        Some(ContractKind::Future)
    } else if str_eq(s, "OPT") || str_eq(s, "FOP") {
        Some(ContractKind::Option)
    } else {
        None
    }
}

/// The exchange that a text names.
pub open spec fn exchange_of(s: Seq<char>) -> Exchange {
    if s == "COMEX"@ {
        Exchange::Comex
    } else if s == "NYMEX"@ {
        Exchange::Nymex
    } else if s == "CBOT"@ {
        Exchange::Cbot
    } else if s == "CME"@ {
        Exchange::Cme
    } else {
        Exchange::Other(0)
    }
}

/// Reads an exchange.
pub fn parse_exchange(s: &str) -> (r: Exchange)
    ensures
        r == exchange_of(s@),
{
    if str_eq(s, "COMEX") {
        Exchange::Comex
    } else if str_eq(s, "NYMEX") {
        Exchange::Nymex
    } else if str_eq(s, "CBOT") {
        Exchange::Cbot
    } else if str_eq(s, "CME") {
        Exchange::Cme
    } else {
        Exchange::Other(0)
    }
}

/// The currency that a text names; an unknown one is the dollar.
pub open spec fn currency_of(s: Seq<char>) -> Currency {
    if s == "EUR"@ {
        Currency::Eur
    } else if s == "GBP"@ {
        Currency::Gbp
    } else if s == "JPY"@ {
        Currency::Jpy
    } else {
        Currency::Usd
    }
}

/// Reads a currency.
pub fn parse_currency(s: &str) -> (r: Currency)
    ensures
        r == currency_of(s@),
{
    if str_eq(s, "EUR") {
        Currency::Eur
    } else if str_eq(s, "GBP") {
        Currency::Gbp
    } else if str_eq(s, "JPY") {
        Currency::Jpy
    } else {
        Currency::Usd
    }
}

/// An exchange on the wire; empty for one that has no name here.
pub open spec fn exchange_text(e: Exchange) -> Seq<char> {
    match e {
        Exchange::Comex => "COMEX"@,
        Exchange::Nymex => "NYMEX"@,
        Exchange::Cbot => "CBOT"@,
        Exchange::Cme => "CME"@,
        Exchange::Other(_) => ""@,
    }
}

/// An exchange on the wire.
pub fn exchange_to_str(e: Exchange) -> (r: &'static str)
    ensures
        r@ == exchange_text(e),
{
    match e {
        Exchange::Comex => "COMEX",
        Exchange::Nymex => "NYMEX",
        Exchange::Cbot => "CBOT",
        Exchange::Cme => "CME",
        Exchange::Other(_) => "",
    }
}

/// A currency on the wire.
pub open spec fn currency_text(c: Currency) -> Seq<char> {
    match c {
        Currency::Usd => "USD"@,
        Currency::Eur => "EUR"@,
        Currency::Gbp => "GBP"@,
        Currency::Jpy => "JPY"@,
    }
}

/// A currency on the wire.
pub fn currency_to_str(c: Currency) -> (r: &'static str)
    ensures
        r@ == currency_text(c),
{
    match c {
        Currency::Usd => "USD",
        Currency::Eur => "EUR",
        Currency::Gbp => "GBP",
        Currency::Jpy => "JPY",
    }
}

/// Reading back what was written gives the same exchange, for every exchange
/// with a name.
pub proof fn law_exchange_round_trip(e: Exchange)
    requires
        !(e is Other),
    ensures
        exchange_of(exchange_text(e)) == e,
{
    reveal_strlit("COMEX");
    reveal_strlit("NYMEX");
    reveal_strlit("CBOT");
    reveal_strlit("CME");
    assert("COMEX"@[0] == 'C' && "NYMEX"@[0] == 'N' && "CBOT"@[0] == 'C' && "CME"@[0] == 'C');
    assert("COMEX"@[1] == 'O' && "CBOT"@[1] == 'B' && "CME"@[1] == 'M');
}

/// Reading back what was written gives the same currency.
pub proof fn law_currency_round_trip(c: Currency)
    ensures
        currency_of(currency_text(c)) == c,
{
    reveal_strlit("USD");
    reveal_strlit("EUR");
    reveal_strlit("GBP");
    reveal_strlit("JPY");
    assert("USD"@[0] == 'U' && "EUR"@[0] == 'E' && "GBP"@[0] == 'G' && "JPY"@[0] == 'J');
}

/// Reading back what was written gives the same time in force.
pub proof fn law_tif_round_trip(t: TimeInForce)
    ensures
        tif_of(tif_text(t)) == t,
{
    reveal_strlit("GTC");
    reveal_strlit("DAY");
    reveal_strlit("GTD");
    reveal_strlit("IOC");
    reveal_strlit("FOK");
    assert("GTC"@[0] == 'G' && "GTD"@[0] == 'G' && "DAY"@[0] == 'D' && "IOC"@[0] == 'I' && "FOK"@[0] == 'F');
    assert("GTC"@[2] == 'C' && "GTD"@[2] == 'D');
}

/// Whether `c` is the contract that the gateway describes by `d`, with the
/// given expiry.
pub open spec fn describes(c: Contract, d: ContractDecoded, expiry: (int, int, int)) -> bool {
    &&& c.instrument_id.0 == d.con_id as u64
    &&& Some(c.kind) == kind_of(d.sec_type@)
    &&& c.symbol == d.symbol
    &&& c.local_symbol == d.local_symbol
    &&& c.expiry.parts() == expiry
    &&& c.expiry.valid()
    &&& c.strike == (if d.strike.value.above_zero() {
        Some(d.strike)
    } else {
        None
    })
    &&& c.right == right_of(d.right@)
    &&& c.multiplier == d.multiplier
    &&& c.exchange == exchange_of(d.exchange@)
    &&& c.currency == currency_of(d.currency@)
    &&& c.trading_class == d.trading_class
}

fn decoded_contract(d: &ContractDecoded, kind: ContractKind, expiry: Date) -> (c: Contract)
    requires
        kind_of(d.sec_type@) == Some(kind),
        expiry.valid(),
    ensures
        describes(c, *d, expiry.parts()),
{
    let strike = if d.strike.value.is_positive() {
        Some(d.strike.clone())
    } else {
        None
    };
    Contract {
        instrument_id: InstrumentId(d.con_id as u64),
        kind,
        symbol: d.symbol.clone(),
        local_symbol: d.local_symbol.clone(),
        expiry,
        strike,
        right: parse_right(d.right.as_str()),
        multiplier: d.multiplier,
        exchange: parse_exchange(d.exchange.as_str()),
        currency: parse_currency(d.currency.as_str()),
        trading_class: d.trading_class.clone(),
    }
}

/// The contract of a contract-details reply; `None` where its security type
/// is neither a future nor an option.
pub fn native_to_contract(cd: &ContractDetailsMsg) -> (r: Option<Contract>)
    ensures
        r is Some <==> kind_of(cd.contract.sec_type@) is Some,
        r matches Some(c) ==> describes(c, cd.contract, last_trade_parts(cd.contract.last_trade_date@)),
{
    match parse_kind(cd.contract.sec_type.as_str()) {
        Some(kind) => {
            let expiry = last_trade_date(cd.contract.last_trade_date.as_str());
            Some(decoded_contract(&cd.contract, kind, expiry))
        },
        None => None,
    }
}

/// Whether `r` is the position that a message reports.
pub open spec fn position_of(r: Position, p: PositionMsg) -> bool {
    &&& describes(r.contract, p.contract, last_trade_parts(p.contract.last_trade_date@))
    &&& r.quantity == p.position.clamped_signed(i32::MIN as int, i32::MAX as int)
    &&& r.avg_cost == p.avg_cost
    &&& r.realized_pnl.bits == 0
    &&& r.unrealized_pnl.bits == 0
}

/// The position that a message reports; `None` where its security type is
/// neither a future nor an option.
pub fn native_to_position(p: &PositionMsg) -> (r: Option<Position>)
    ensures
        r is Some <==> kind_of(p.contract.sec_type@) is Some,
        r matches Some(x) ==> position_of(x, *p),
{
    match parse_kind(p.contract.sec_type.as_str()) {
        Some(kind) => {
            let expiry = last_trade_date(p.contract.last_trade_date.as_str());
            Some(
                Position {
                    contract: decoded_contract(&p.contract, kind, expiry),
                    quantity: p.position.to_i32(),
                    avg_cost: p.avg_cost,
                    realized_pnl: Double::zero(),
                    unrealized_pnl: Double::zero(),
                },
            )
        },
        None => None,
    }
}

/// An order's expiry date: the text as a day, else the epoch.
pub open spec fn order_expiry(text: Seq<char>) -> (int, int, int) {
    match parsed_date(text, "%Y%m%d"@) {
        Some(p) => p,
        None => (1970, 1, 1),
    }
}

/// Whether `r` is the order that a message describes.
pub open spec fn open_order_of(r: OpenOrder, o: OpenOrderMsg) -> bool {
    &&& r.order_id.0 == o.order_id as u64
    &&& describes(r.contract, o.contract, order_expiry(o.contract.last_trade_date@))
    &&& Some(r.side) == side_of(o.action@)
    &&& r.qty == o.total_quantity.clamped(u32::MAX as nat)
    &&& (o.order_type@ == "MKT"@ ==> r.order_type == OrderType::Market)
    &&& (o.order_type@ == "STP LMT"@ ==> (r.order_type matches OrderType::StopLimit { stop_price }
        && stop_price.value.bits == 0 && stop_price.text@ == "0.0"@))
    &&& (o.order_type@ != "MKT"@ && o.order_type@ != "STP LMT"@ ==> r.order_type == OrderType::Limit)
    &&& r.price == (if o.lmt_price.value.finite() && o.lmt_price.value.above_zero() {
        Some(o.lmt_price)
    } else {
        None
    })
    &&& r.tif == tif_of(o.tif@)
    &&& r.gtd_until_utc is None
    &&& r.client_order_ref == o.order_ref
    &&& r.status == OrderStatus::PendingSubmit
    &&& r.filled_qty == 0
    &&& r.remaining_qty == o.remaining.clamped(u32::MAX as nat)
}

/// The order that a message describes; `None` where its security type or
/// its action is unknown.
pub fn native_to_open_order(o: &OpenOrderMsg) -> (r: Option<OpenOrder>)
    ensures
        r is Some <==> kind_of(o.contract.sec_type@) is Some && side_of(o.action@) is Some,
        r matches Some(x) ==> open_order_of(x, *o),
{
    match parse_kind(o.contract.sec_type.as_str()) {
        Some(kind) => match parse_side(o.action.as_str()) {
            Some(side) => {
                let expiry = match parse_yyyymmdd(o.contract.last_trade_date.as_str()) {
                    Some(d) => d,
                    None => Date::epoch(),
                };
                let price = if o.lmt_price.value.is_finite() && o.lmt_price.value.is_positive() {
                    Some(o.lmt_price.clone())
                } else {
                    None
                };
                Some(
                    OpenOrder {
                        order_id: OrderId(o.order_id as u64),
                        contract: decoded_contract(&o.contract, kind, expiry),
                        side,
                        qty: o.total_quantity.to_u32(),
                        order_type: parse_order_type(o.order_type.as_str(), Decimal::zero()),
                        price,
                        tif: parse_tif(o.tif.as_str()),
                        gtd_until_utc: None,
                        client_order_ref: o.order_ref.clone(),
                        status: OrderStatus::PendingSubmit,
                        filled_qty: 0,
                        remaining_qty: o.remaining.to_u32(),
                    },
                )
            },
            None => None,
        },
        None => None,
    }
}

/// The side that an execution names.
pub open spec fn execution_side(s: Seq<char>) -> Option<Side> {
    if s == "BOT"@ {
        Some(Side::Buy)
    } else if s == "SLD"@ {
        Some(Side::Sell)
    } else {
        None
    }
}

/// Whether `f` is the fill that an execution reports at time `now`.
pub open spec fn fill_of(f: Fill, e: ExecutionMsg, now: u64) -> bool {
    &&& f.instrument_id.0 == e.contract.con_id as u64
    &&& f.order_id.0 == e.order_id as u64
    &&& f.exec_id == e.exec_id
    &&& Some(f.side) == execution_side(e.side@)
    &&& f.qty == e.shares.clamped(u32::MAX as nat)
    &&& f.price == e.price
    &&& f.timestamp_ns == now
    &&& f.commission is None
}

/// The fill that an execution reports; `None` where its side is unknown.
pub fn execution_to_fill(e: &ExecutionMsg, now: u64) -> (r: Option<Fill>)
    ensures
        r is Some <==> execution_side(e.side@) is Some,
        r matches Some(f) ==> fill_of(f, *e, now),
{
    let side = if str_eq(e.side.as_str(), "BOT") {
        Side::Buy
    } else if str_eq(e.side.as_str(), "SLD") {
        Side::Sell
    } else {
        return None;
    };
    Some(
        Fill {
            instrument_id: InstrumentId(e.contract.con_id as u64),
            order_id: OrderId(e.order_id as u64),
            exec_id: e.exec_id.clone(),
            side,
            qty: e.shares.to_u32(),
            price: e.price,
            timestamp_ns: now,
            commission: None,
        },
    )
}

/// A contract's security type on the wire.
pub open spec fn sec_type_text(k: ContractKind) -> Seq<char> {
    match k {
        ContractKind::Future => "FUT"@,
        ContractKind::Option => "FOP"@,
    }
}

/// A contract's security type on the wire.
pub fn sec_type_str(k: ContractKind) -> (r: &'static str)
    ensures
        r@ == sec_type_text(k),
{
    match k {
        ContractKind::Future => "FUT",
        ContractKind::Option => "FOP",
    }
}

/// An option right on the wire; empty where there is none.
pub open spec fn right_text(r: Option<Right>) -> Seq<char> {
    match r {
        Some(Right::Call) => "C"@,
        Some(Right::Put) => "P"@,
        None => ""@,
    }
}

/// An option right on the wire.
pub fn right_str(r: Option<Right>) -> (s: &'static str)
    ensures
        s@ == right_text(r),
{
    match r {
        Some(Right::Call) => "C",
        Some(Right::Put) => "P",
        None => "",
    }
}

/// A strike on the wire: `0.0` where there is none.
pub open spec fn strike_text(s: Option<Decimal>) -> Seq<char> {
    match s {
        Some(d) => d.text@,
        None => "0.0"@,
    }
}

/// What a request for a contract holds whatever it is for.
pub open spec fn requests_contract(r: ContractRequest, c: Contract) -> bool {
    &&& r.con_id == c.instrument_id.0 as i64
    &&& r.symbol == c.symbol
    &&& r.sec_type@ == sec_type_text(c.kind)
    &&& r.last_trade_date@ == date_text(c.expiry.year as int, c.expiry.month as int, c.expiry.day as int)
    &&& r.strike@ == strike_text(c.strike)
    &&& r.right@ == right_text(c.right)
    &&& r.exchange@ == exchange_text(c.exchange)
    &&& r.primary_exchange@ == Seq::<char>::empty()
    &&& r.currency@ == currency_text(c.currency)
    &&& r.local_symbol == c.local_symbol
}

fn contract_request(c: &Contract, multiplier: String, trading_class: String) -> (r: ContractRequest)
    requires
        c.expiry.valid(),
    ensures
        requests_contract(r, *c),
        r.multiplier == multiplier,
        r.trading_class == trading_class,
{
    let strike = match &c.strike {
        Some(d) => d.text.clone(),
        None => "0.0".to_owned(),
    };
    ContractRequest {
        con_id: c.instrument_id.0 as i64,
        symbol: c.symbol.clone(),
        sec_type: sec_type_str(c.kind).to_owned(),
        last_trade_date: format_yyyymmdd(&c.expiry),
        strike,
        right: right_str(c.right).to_owned(),
        multiplier,
        exchange: exchange_to_str(c.exchange).to_owned(),
        primary_exchange: String::new(),
        currency: currency_to_str(c.currency).to_owned(),
        local_symbol: c.local_symbol.clone(),
        trading_class,
    }
}

/// The contract fields of an order: the multiplier's integer part, and the
/// symbol in place of an empty trading class.
pub fn place_order_contract_request(c: &Contract) -> (r: ContractRequest)
    requires
        c.expiry.valid(),
    ensures
        requests_contract(r, *c),
        r.multiplier@ == int_text(c.multiplier.clamped_signed(i64::MIN as int, i64::MAX as int)),
        r.trading_class == (if c.trading_class@.len() == 0 {
            c.symbol
        } else {
            c.trading_class
        }),
{
    let trading_class = if c.trading_class.as_str().is_empty() {
        c.symbol.clone()
    } else {
        c.trading_class.clone()
    };
    contract_request(c, i64_text(c.multiplier.to_i64()), trading_class)
}

/// The contract fields of a subscription: the multiplier's integer part, or
/// empty where it is not positive.
pub fn contract_to_request(c: &Contract) -> (r: ContractRequest)
    requires
        c.expiry.valid(),
    ensures
        requests_contract(r, *c),
        r.multiplier@ == (if c.multiplier.above_zero() {
            int_text(c.multiplier.clamped(u64::MAX as nat) as int)
        } else {
            Seq::<char>::empty()
        }),
        r.trading_class == c.trading_class,
{
    let multiplier = if c.multiplier.is_positive() {
        u64_text(c.multiplier.to_u64())
    } else {
        String::new()
    };
    contract_request(c, multiplier, c.trading_class.clone())
}

/// The contract fields that name a symbol and a security type only.
pub open spec fn bare_contract(r: ContractRequest, symbol: Seq<char>, sec_type: Seq<char>) -> bool {
    &&& r.con_id == 0
    &&& r.symbol@ == symbol
    &&& r.sec_type@ == sec_type
    &&& r.last_trade_date@ == Seq::<char>::empty()
    &&& r.strike@ == "0.0"@
    &&& r.right@ == Seq::<char>::empty()
    &&& r.multiplier@ == Seq::<char>::empty()
    &&& r.exchange@ == Seq::<char>::empty()
    &&& r.primary_exchange@ == Seq::<char>::empty()
    &&& r.currency@ == Seq::<char>::empty()
    &&& r.local_symbol@ == Seq::<char>::empty()
    &&& r.trading_class@ == Seq::<char>::empty()
}

/// The contract fields that name a symbol and a security type only.
pub fn empty_contract_request(symbol: &str, sec_type: &str) -> (r: ContractRequest)
    ensures
        bare_contract(r, symbol@, sec_type@),
{
    ContractRequest {
        con_id: 0,
        symbol: symbol.to_owned(),
        sec_type: sec_type.to_owned(),
        last_trade_date: String::new(),
        strike: "0.0".to_owned(),
        right: String::new(),
        multiplier: String::new(),
        exchange: String::new(),
        primary_exchange: String::new(),
        currency: String::new(),
        local_symbol: String::new(),
        trading_class: String::new(),
    }
}

/// Why an order cannot be put on the wire, if it cannot: a limit without a
/// price, or a date without one that can be written.
pub open spec fn place_refusal(req: PlaceOrderReq) -> Option<Seq<char>> {
    if req.order_type is Limit && req.price is None {
        Some("limit order requires price"@)
    } else if req.order_type is StopLimit && req.price is None {
        Some("stop-limit requires limit price"@)
    } else if req.tif == TimeInForce::Gtd && req.gtd_until_utc is None {
        Some("Gtd TIF requires gtd_until_utc"@)
    } else if req.tif == TimeInForce::Gtd && utc_text(req.gtd_until_utc->0 as int) is None {
        Some("gtd_until_utc is out of range"@)
    } else {
        None
    }
}

/// Whether `p` are the order fields of a request.
pub open spec fn place_params_of(p: PlaceOrderParams, req: PlaceOrderReq, fallback_account: Seq<char>) -> bool {
    &&& p.action@ == (match req.side {
        Side::Buy => "BUY"@,
        Side::Sell => "SELL"@,
    })
    &&& p.total_quantity@ == int_text(req.qty as int)
    &&& p.order_type@ == (match req.order_type {
        OrderType::Limit => "LMT"@,
        OrderType::Market => "MKT"@,
        OrderType::StopLimit { .. } => "STP LMT"@,
    })
    &&& p.lmt_price@ == (match req.order_type {
        OrderType::Market => "0.0"@,
        _ => req.price->0.text@,
    })
    &&& (match req.order_type {
        OrderType::StopLimit { stop_price } => p.aux_price == stop_price,
        _ => p.aux_price.value.bits == 0 && p.aux_price.text@ == "0.0"@,
    })
    &&& p.tif@ == tif_text(req.tif)
    &&& p.good_till_date@ == (if req.tif == TimeInForce::Gtd {
        utc_text(req.gtd_until_utc->0 as int)->0
    } else {
        Seq::<char>::empty()
    })
    &&& p.account@ == (match req.account {
        Some(a) => a@,
        None => fallback_account,
    })
    &&& p.order_ref == req.client_order_ref
    &&& !p.outside_rth
}

/// The order fields of a request.
pub fn build_place_params(req: &PlaceOrderReq, fallback_account: &str) -> (r: Result<PlaceOrderParams, BrokerError>)
    ensures
        match place_refusal(*req) {
            Some(reason) => r matches Err(BrokerError::InvalidRequest(m)) && m@ == reason,
            None => r matches Ok(p) && place_params_of(p, *req, fallback_account@),
        },
{
    let action = match req.side {
        Side::Buy => "BUY".to_owned(),
        Side::Sell => "SELL".to_owned(),
    };
    let (order_type, lmt_price, aux_price): (&str, String, Decimal) = match &req.order_type {
        OrderType::Limit => match &req.price {
            Some(p) => ("LMT", p.text.clone(), Decimal::zero()),
            None => {
                return Err(BrokerError::InvalidRequest("limit order requires price".to_owned()));
            },
        },
        OrderType::Market => ("MKT", "0.0".to_owned(), Decimal::zero()),
        OrderType::StopLimit { stop_price } => match &req.price {
            Some(p) => ("STP LMT", p.text.clone(), stop_price.clone()),
            None => {
                return Err(BrokerError::InvalidRequest("stop-limit requires limit price".to_owned()));
            },
        },
    };
    let good_till_date = match req.tif {
        TimeInForce::Gtd => match req.gtd_until_utc {
            Some(t) => match format_utc(t) {
                Some(s) => s,
                None => {
                    return Err(BrokerError::InvalidRequest("gtd_until_utc is out of range".to_owned()));
                },
            },
            None => {
                return Err(BrokerError::InvalidRequest("Gtd TIF requires gtd_until_utc".to_owned()));
            },
        },
        _ => String::new(),
    };
    let account = match &req.account {
        Some(a) => a.clone(),
        None => fallback_account.to_owned(),
    };
    Ok(
        PlaceOrderParams {
            action,
            total_quantity: u64_text(req.qty as u64),
            order_type: order_type.to_owned(),
            lmt_price,
            aux_price,
            tif: tif_str(req.tif).to_owned(),
            good_till_date,
            account,
            order_ref: req.client_order_ref.clone(),
            outside_rth: false,
        },
    )
}

/// A contract is read as it was sent: by its number, its words and its day,
/// with its strike where that is positive.
pub proof fn law_contract_is_read_as_sent(c: Contract, d: ContractDecoded, expiry: (int, int, int))
    requires
        describes(c, d, expiry),
    ensures
        d.con_id >= 0 ==> c.instrument_id.0 == d.con_id,
        d.sec_type@ == "FUT"@ ==> c.kind is Future,
        d.sec_type@ == "FOP"@ || d.sec_type@ == "OPT"@ ==> c.kind is Option,
        c.symbol@ == d.symbol@,
        c.local_symbol@ == d.local_symbol@,
        c.trading_class@ == d.trading_class@,
        c.expiry.year == expiry.0 && c.expiry.month == expiry.1 && c.expiry.day == expiry.2,
        d.strike.value.above_zero() ==> c.strike == Some(d.strike),
        !d.strike.value.above_zero() ==> c.strike is None,
        d.right@ == "C"@ || d.right@ == "CALL"@ ==> c.right == Some(Right::Call),
        d.right@ == "P"@ || d.right@ == "PUT"@ ==> c.right == Some(Right::Put),
        c.right == Some(Right::Call) ==> d.right@ == "C"@ || d.right@ == "CALL"@,
        c.right == Some(Right::Put) ==> d.right@ == "P"@ || d.right@ == "PUT"@,
        c.multiplier == d.multiplier,
{
    reveal_strlit("FUT");
    reveal_strlit("FOP");
    reveal_strlit("OPT");
    assert("FUT"@.len() == 3);
    assert("FOP"@.len() == 3);
    assert("OPT"@.len() == 3);
    assert("FUT"@[1] != "FOP"@[1]);
    assert("FUT"@[0] != "OPT"@[0]);
    assert("FOP"@[0] != "OPT"@[0]);
    reveal_strlit("C");
    reveal_strlit("CALL");
    reveal_strlit("P");
    reveal_strlit("PUT");
    assert("C"@.len() == 1);
    assert("CALL"@.len() == 4);
    assert("P"@.len() == 1);
    assert("PUT"@.len() == 3);
    assert("C"@[0] != "P"@[0]);
}

/// A contract is asked for by what it is: its number, symbol, kind, day,
/// strike and right.
pub proof fn law_contract_is_asked_for_as_it_is(r: ContractRequest, c: Contract)
    requires
        requests_contract(r, c),
    ensures
        c.instrument_id.0 <= i64::MAX ==> r.con_id == c.instrument_id.0,
        r.symbol@ == c.symbol@,
        r.sec_type@ == "FUT"@ <==> c.kind is Future,
        r.sec_type@ == "FOP"@ <==> c.kind is Option,
        r.right@ == "C"@ <==> c.right == Some(Right::Call),
        r.right@ == "P"@ <==> c.right == Some(Right::Put),
        c.strike matches Some(s) ==> r.strike@ == s.text@,
        c.strike is None ==> r.strike@ == "0.0"@,
        c.expiry.valid() && 0 <= c.expiry.year <= 9999 ==> r.last_trade_date@ == ymd_text(c.expiry),
        c.exchange is Comex ==> r.exchange@ == "COMEX"@,
        c.exchange is Nymex ==> r.exchange@ == "NYMEX"@,
        c.exchange is Cbot ==> r.exchange@ == "CBOT"@,
        c.exchange is Cme ==> r.exchange@ == "CME"@,
        c.currency is Usd ==> r.currency@ == "USD"@,
        c.currency is Eur ==> r.currency@ == "EUR"@,
        r.local_symbol@ == c.local_symbol@,
{
    reveal_strlit("FUT");
    reveal_strlit("FOP");
    assert("FUT"@.len() == 3);
    assert("FOP"@.len() == 3);
    assert("FUT"@[1] != "FOP"@[1]);
    reveal_strlit("C");
    reveal_strlit("P");
    reveal_strlit("");
    assert("C"@.len() == 1);
    assert("P"@.len() == 1);
    assert(""@.len() == 0);
    assert("C"@[0] != "P"@[0]);
    if c.expiry.valid() && 0 <= c.expiry.year <= 9999 {
        law_yyyymmdd_shows_the_date(c.expiry);
    }
}

/// An order is refused exactly where it lacks the price that its type needs,
/// or the end that its life needs.
pub proof fn law_orders_are_refused_for_a_reason(req: PlaceOrderReq)
    ensures
        place_refusal(req) is None <==> (req.order_type is Market || req.price is Some) && (req.tif is Gtd ==> (
        req.gtd_until_utc matches Some(t) && utc_text(t as int) is Some)),
{
}

} // verus!
