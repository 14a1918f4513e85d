//! What the gateway's words and numbers mean, and that what is sent says what
//! was asked.

use crate::api::{
    BrokerError, Contract, ContractKind, Currency, Exchange, Fill, ModifyOrderReq, OpenOrder, OrderStatus, OrderType,
    PlaceOrderReq, Position, Right, Side, TickKind, TimeInForce,
};
use crate::broker::{
    lookup, price_close, price_kind, size_kind, tradable, wrong_side, AccountKey, BrokerEvent, BrokerState,
};
use crate::broker_calls::{order_body_fields, order_contract_fields, order_frame, snapshot_requests};
use crate::codec::{frame_of, framed, payload};
use crate::convert::{
    contract_error, currency_of, currency_text, describes, exchange_of, execution_side, fill_of, kind_of,
    law_currency_round_trip, law_exchange_round_trip, law_tif_round_trip, order_error, place_params_of, reports,
    right_of, sec_type_text, side_of, status_of, tif_of, tif_text,
};
use crate::dates::{date_text, last_trade_parts, utc_text, Date};
use crate::double::Double;
use crate::place_template::trailing_fields;
use crate::requests::PlaceOrderParams;
use crate::text::{int_text, int_value, law_int_text_round_trip};
use crate::types::{
    AccountValueMsg, ContractDetailsMsg, ErrorMsg, ExecutionMsg, InboundMsg, MarketDepthMsg, OpenOrderMsg,
    OrderStatusMsg, PositionMsg, TickPriceMsg, TickSizeMsg,
};
use vstd::prelude::*;
use vstd::string::*;

verus! {

// Words

/// `BUY` is a purchase and `SELL` a sale, and no other text is either.
pub proof fn law_actions_name_sides(s: Seq<char>)
    ensures
        side_of("BUY"@) == Some(Side::Buy),
        side_of("SELL"@) == Some(Side::Sell),
        side_of(s) == Some(Side::Buy) ==> s == "BUY"@,
        side_of(s) == Some(Side::Sell) ==> s == "SELL"@,
{
    reveal_strlit("BUY");
    reveal_strlit("SELL");
    assert("BUY"@.len() == 3);
    assert("SELL"@.len() == 4);
}

/// An execution `BOT` was a purchase and one `SLD` a sale, and no other text
/// is either.
pub proof fn law_executions_name_sides(s: Seq<char>)
    ensures
        execution_side("BOT"@) == Some(Side::Buy),
        execution_side("SLD"@) == Some(Side::Sell),
        execution_side(s) is Some ==> s == "BOT"@ || s == "SLD"@,
{
    reveal_strlit("BOT");
    reveal_strlit("SLD");
    assert("BOT"@[0] != "SLD"@[0]);
}

/// What each status says of an order. A status that is not known says that it
/// is not working.
pub proof fn law_statuses_name_states(s: Seq<char>)
    ensures
        status_of("PendingSubmit"@) == OrderStatus::PendingSubmit,
        status_of("ApiPending"@) == OrderStatus::PendingSubmit,
        status_of("PreSubmitted"@) == OrderStatus::PendingSubmit,
        status_of("Submitted"@) == OrderStatus::Submitted,
        status_of("Filled"@) == OrderStatus::Filled,
        status_of("Cancelled"@) == OrderStatus::Cancelled,
        status_of("ApiCancelled"@) == OrderStatus::Cancelled,
        status_of("PendingCancel"@) == OrderStatus::PendingCancel,
        status_of("Rejected"@) == OrderStatus::Rejected,
        status_of("ApiRejected"@) == OrderStatus::Rejected,
        status_of("Inactive"@) == OrderStatus::Inactive,
        status_of(s) == OrderStatus::Filled ==> s == "Filled"@,
        status_of(s) == OrderStatus::Submitted ==> s == "Submitted"@,
        status_of(s) == OrderStatus::Rejected ==> s == "Rejected"@ || s == "ApiRejected"@,
        status_of(s) == OrderStatus::Cancelled ==> s == "Cancelled"@ || s == "ApiCancelled"@,
        status_of(s) == OrderStatus::PendingCancel ==> s == "PendingCancel"@,
        status_of(s) == OrderStatus::PendingSubmit ==> s == "PendingSubmit"@ || s == "ApiPending"@ || s == "PreSubmitted"@,
{
    reveal_strlit("PendingSubmit");
    reveal_strlit("ApiPending");
    reveal_strlit("PreSubmitted");
    reveal_strlit("Submitted");
    reveal_strlit("Filled");
    reveal_strlit("Cancelled");
    reveal_strlit("ApiCancelled");
    reveal_strlit("PendingCancel");
    reveal_strlit("Rejected");
    reveal_strlit("ApiRejected");
    reveal_strlit("Inactive");
    assert("PendingSubmit"@.len() == 13);
    assert("ApiPending"@.len() == 10);
    assert("PreSubmitted"@.len() == 12);
    assert("Submitted"@.len() == 9);
    assert("Filled"@.len() == 6);
    assert("Cancelled"@.len() == 9);
    assert("ApiCancelled"@.len() == 12);
    assert("Rejected"@.len() == 8);
    assert("ApiRejected"@.len() == 11);
    assert("Inactive"@.len() == 8);
    assert("PendingCancel"@.len() == 13);
    assert("PendingSubmit"@[7] != "PendingCancel"@[7]);
    assert("PreSubmitted"@[0] != "ApiCancelled"@[0]);
    assert("Submitted"@[0] != "Cancelled"@[0]);
    assert("Rejected"@[0] != "Inactive"@[0]);
}

/// Calls and puts, futures and options are told apart by their names.
pub proof fn law_contracts_are_named(s: Seq<char>)
    ensures
        right_of("C"@) == Some(Right::Call),
        right_of("CALL"@) == Some(Right::Call),
        right_of("P"@) == Some(Right::Put),
        right_of("PUT"@) == Some(Right::Put),
        right_of(s) is Some ==> s == "C"@ || s == "CALL"@ || s == "P"@ || s == "PUT"@,
        kind_of("FUT"@) == Some(ContractKind::Future),
        kind_of("FOP"@) == Some(ContractKind::Option),
        kind_of("OPT"@) == Some(ContractKind::Option),
        kind_of(s) is Some ==> s == "FUT"@ || s == "FOP"@ || s == "OPT"@,
        sec_type_text(ContractKind::Future) == "FUT"@,
        sec_type_text(ContractKind::Option) == "FOP"@,
{
    reveal_strlit("C");
    reveal_strlit("CALL");
    reveal_strlit("P");
    reveal_strlit("PUT");
    reveal_strlit("FUT");
    reveal_strlit("FOP");
    reveal_strlit("OPT");
    assert("C"@.len() == 1);
    assert("CALL"@.len() == 4);
    assert("PUT"@.len() == 3);
    assert("FUT"@.len() == 3);
    assert("FOP"@.len() == 3);
    assert("OPT"@.len() == 3);
    assert("P"@.len() == 1);
    assert("C"@[0] != "P"@[0]);
    assert("PUT"@[0] != "FUT"@[0]);
    assert("PUT"@[0] != "FOP"@[0]);
    assert("PUT"@[0] != "OPT"@[0]);
    assert("FUT"@[1] != "FOP"@[1]);
    assert("FUT"@[0] != "OPT"@[0]);
    assert("FOP"@[0] != "OPT"@[0]);
}

/// The lives of orders, and the currencies, by their names.
pub proof fn law_lives_and_currencies_are_named()
    ensures
        tif_of("GTC"@) == TimeInForce::Gtc,
        tif_of("DAY"@) == TimeInForce::Day,
        tif_of("GTD"@) == TimeInForce::Gtd,
        tif_of("IOC"@) == TimeInForce::Ioc,
        tif_of("FOK"@) == TimeInForce::Fok,
        tif_text(TimeInForce::Gtc) == "GTC"@,
        tif_text(TimeInForce::Day) == "DAY"@,
        tif_text(TimeInForce::Gtd) == "GTD"@,
        tif_text(TimeInForce::Ioc) == "IOC"@,
        tif_text(TimeInForce::Fok) == "FOK"@,
        exchange_of("COMEX"@) == Exchange::Comex,
        exchange_of("NYMEX"@) == Exchange::Nymex,
        exchange_of("CBOT"@) == Exchange::Cbot,
        exchange_of("CME"@) == Exchange::Cme,
        currency_of("USD"@) == Currency::Usd,
        currency_of("EUR"@) == Currency::Eur,
        currency_of("GBP"@) == Currency::Gbp,
        currency_of("JPY"@) == Currency::Jpy,
        currency_text(Currency::Usd) == "USD"@,
        currency_text(Currency::Eur) == "EUR"@,
        currency_text(Currency::Gbp) == "GBP"@,
        currency_text(Currency::Jpy) == "JPY"@,
{
    reveal_strlit("GTC");
    reveal_strlit("DAY");
    reveal_strlit("GTD");
    reveal_strlit("IOC");
    reveal_strlit("FOK");
    assert("GTC"@[0] != "DAY"@[0]);
    assert("GTC"@[2] != "GTD"@[2]);
    assert("GTC"@[0] != "IOC"@[0]);
    assert("GTC"@[0] != "FOK"@[0]);
    assert("DAY"@[0] != "GTD"@[0]);
    assert("DAY"@[0] != "IOC"@[0]);
    assert("DAY"@[0] != "FOK"@[0]);
    assert("GTD"@[0] != "IOC"@[0]);
    assert("GTD"@[0] != "FOK"@[0]);
    assert("IOC"@[0] != "FOK"@[0]);
    reveal_strlit("COMEX");
    reveal_strlit("NYMEX");
    reveal_strlit("CBOT");
    reveal_strlit("CME");
    assert("COMEX"@.len() == 5);
    assert("CBOT"@.len() == 4);
    assert("CME"@.len() == 3);
    assert("NYMEX"@.len() == 5);
    assert("COMEX"@[0] != "NYMEX"@[0]);
    reveal_strlit("USD");
    reveal_strlit("EUR");
    reveal_strlit("GBP");
    reveal_strlit("JPY");
    assert("USD"@[0] != "EUR"@[0]);
    assert("USD"@[0] != "GBP"@[0]);
    assert("USD"@[0] != "JPY"@[0]);
    assert("EUR"@[0] != "GBP"@[0]);
    assert("EUR"@[0] != "JPY"@[0]);
    assert("GBP"@[0] != "JPY"@[0]);
}

/// Which errors say that an order was refused, and which that a contract is
/// not known. A notice that leaves the order live, and the answer to a cancel,
/// are neither.
pub proof fn law_errors_are_told_apart(code: int)
    ensures
        order_error(code) <==> code == 201 || code == 203 || code == 434 || code == 436 || code == 10148 || code == 10197,
        contract_error(code) <==> code == 200 || code == 321 || code == 322,
        !order_error(202) && !order_error(399) && !order_error(461),
        !(order_error(code) && contract_error(code)),
{
}

/// What each tick type is a tick of. Delayed ticks are of what live ones are.
pub proof fn law_tick_types_name_kinds(t: int)
    ensures
        price_kind(1) == Some(TickKind::Bid),
        price_kind(2) == Some(TickKind::Ask),
        price_kind(4) == Some(TickKind::Last),
        price_kind(66) == price_kind(1),
        price_kind(67) == price_kind(2),
        price_kind(68) == price_kind(4),
        price_kind(t) is Some ==> t == 1 || t == 2 || t == 4 || t == 66 || t == 67 || t == 68,
        size_kind(0) == Some(TickKind::BidSize),
        size_kind(3) == Some(TickKind::AskSize),
        size_kind(8) == Some(TickKind::OptionVolume),
        size_kind(69) == size_kind(0),
        size_kind(70) == size_kind(3),
        size_kind(71) == size_kind(8),
        size_kind(27) == Some(TickKind::OptionOpenInterest) && size_kind(28) == size_kind(27),
        size_kind(29) == Some(TickKind::OptionVolume) && size_kind(30) == size_kind(29),
        size_kind(t) is Some ==> t == 0 || t == 3 || t == 8 || 27 <= t <= 30 || 69 <= t <= 71,
        wrong_side(t, Some(Right::Call)) <==> t == 28 || t == 30,
        wrong_side(t, Some(Right::Put)) <==> t == 27 || t == 29,
        !wrong_side(t, None),
{
}

// Orders

/// An order goes out on its own side: its action, read as the gateway's
/// actions are, is the side that was asked for.
pub proof fn law_order_goes_out_on_its_side(req: PlaceOrderReq, account: Seq<char>, p: PlaceOrderParams)
    ensures
        side_of(order_body_fields(req, account)[0]) == Some(req.side),
        order_body_fields(req, account)[0] == "BUY"@ <==> req.side == Side::Buy,
        order_body_fields(req, account)[0] == "SELL"@ <==> req.side == Side::Sell,
        place_params_of(p, req, account) ==> side_of(p.action@) == Some(req.side),
        place_params_of(p, req, account) ==> (p.action@ == "BUY"@ <==> req.side == Side::Buy),
{
    law_actions_name_sides(order_body_fields(req, account)[0]);
    reveal_strlit("BUY");
    reveal_strlit("SELL");
    assert("BUY"@.len() == 3);
    assert("SELL"@.len() == 4);
}

/// An order says what was asked: read back, its quantity, type, price, life,
/// end, account and reference are those of the request, and it is to be sent
/// on at once.
pub proof fn law_order_says_what_was_asked(req: PlaceOrderReq, account: Seq<char>)
    ensures
        ({
            let f = order_body_fields(req, account);
            &&& f.len() == 30
            &&& int_value(f[1]) == Some(req.qty as int)
            &&& (req.order_type is Limit ==> f[2] == "LMT"@ && f[3] == req.price->0.text@ && f[4] == ""@)
            &&& (req.order_type is Market ==> f[2] == "MKT"@ && f[3] == "0.0"@ && f[4] == ""@)
            &&& (req.order_type matches OrderType::StopLimit { stop_price } ==> f[2] == "STP LMT"@ && f[3]
                == req.price->0.text@ && (stop_price.value.above_zero() ==> f[4] == stop_price.text@))
            &&& tif_of(f[5]) == req.tif
            &&& (req.account is Some ==> f[7] == req.account->0@)
            &&& (req.account is None ==> f[7] == account)
            &&& f[10] == req.client_order_ref@
            &&& f[11] == "1"@
            &&& (req.tif == TimeInForce::Gtd ==> Some(f[22]) == Some(utc_text(req.gtd_until_utc->0 as int)->0))
            &&& (req.tif != TimeInForce::Gtd ==> f[22].len() == 0)
        }),
{
    law_int_text_round_trip(req.qty as int);
    law_tif_round_trip(req.tif);
}

/// An order is for its own contract: read back, what names the contract is
/// that of the request.
pub proof fn law_order_is_for_its_contract(c: Contract)
    ensures
        ({
            let f = order_contract_fields(c);
            &&& int_value(f[0]) == Some(c.instrument_id.0 as i64 as int)
            &&& f[1] == c.symbol@
            &&& kind_of(f[2]) == Some(c.kind)
            &&& f[3] == date_text(c.expiry.year as int, c.expiry.month as int, c.expiry.day as int)
            &&& (c.strike is Some ==> f[4] == c.strike->0.text@)
            &&& right_of(f[5]) == c.right
            &&& !(c.exchange is Other) ==> exchange_of(f[7]) == c.exchange
            &&& currency_of(f[9]) == c.currency
            &&& f[10] == c.local_symbol@
            &&& (c.trading_class@.len() > 0 ==> f[11] == c.trading_class@)
            &&& (c.trading_class@.len() == 0 ==> f[11] == c.symbol@)
        }),
{
    law_int_text_round_trip(c.instrument_id.0 as i64 as int);
    law_contracts_are_named(order_contract_fields(c)[5]);
    law_contracts_are_named(order_contract_fields(c)[2]);
    law_currency_round_trip(c.currency);
    if !(c.exchange is Other) {
        law_exchange_round_trip(c.exchange);
    }
    reveal_strlit("C");
    reveal_strlit("CALL");
    reveal_strlit("P");
    reveal_strlit("PUT");
    assert("C"@.len() == 1);
    assert("CALL"@.len() == 4);
    assert("PUT"@.len() == 3);
    assert("P"@.len() == 1);
    assert("C"@[0] != "P"@[0]);
    reveal_strlit("");
}

/// An order's frame is a place-order message under its own id, with the
/// contract's fields in front of the order's.
pub proof fn law_order_frame_is_a_place_order(order_id: i32, contract: Seq<u8>, req: PlaceOrderReq, account: Seq<char>)
    ensures
        order_frame(order_id, contract, req, account) == framed(
            payload(seq!["3"@, int_text(order_id as int)]) + contract + payload(order_body_fields(req, account)) + payload(
                trailing_fields(),
            ),
        ),
{
    reveal_strlit("3");
    assert(int_text(3) =~= "3"@);
}

/// A modification keeps the order: contract, side, type, life and reference
/// stay, and quantity, price and end are the new ones where they are given
/// and the old ones where they are not.
pub proof fn law_modification_keeps_the_order(
    existing: OpenOrder,
    req: ModifyOrderReq,
    sent: PlaceOrderReq,
    account: Seq<char>,
)
    requires
        BrokerState::modified_order(existing, req, sent, account),
    ensures
        sent.side == existing.side,
        sent.contract == existing.contract,
        sent.order_type == existing.order_type,
        sent.tif == existing.tif,
        sent.client_order_ref@ == existing.client_order_ref@,
        req.qty is Some ==> sent.qty == req.qty->0,
        req.qty is None ==> sent.qty == existing.qty,
        req.price is Some ==> sent.price == req.price,
        req.price is None ==> sent.price == existing.price,
        req.gtd_until_utc is Some ==> sent.gtd_until_utc == req.gtd_until_utc,
        req.gtd_until_utc is None ==> sent.gtd_until_utc == existing.gtd_until_utc,
        sent.account is Some && sent.account->0@ == account,
        side_of(order_body_fields(sent, account)[0]) == Some(existing.side),
{
    law_actions_name_sides(order_body_fields(sent, account)[0]);
}

/// After a connection, account, positions and orders are asked for; only the
/// master client asks for the orders of others.
pub proof fn law_snapshot_is_asked_for(client_id: i32, account: Seq<char>)
    ensures
        snapshot_requests(client_id, account)[0] == frame_of(seq!["6"@, "2"@, "1"@, account]),
        snapshot_requests(client_id, account)[1] == frame_of(seq!["61"@, "1"@]),
        snapshot_requests(client_id, account)[2] == frame_of(seq!["5"@, "1"@]),
        client_id == 0 ==> snapshot_requests(client_id, account).len() == 4 && snapshot_requests(client_id, account)[3]
            == frame_of(seq!["15"@, "1"@, "1"@]),
        client_id != 0 ==> snapshot_requests(client_id, account).len() == 3,
{
    reveal_strlit("6");
    reveal_strlit("61");
    reveal_strlit("5");
    reveal_strlit("15");
    assert("6"@.len() == 1);
    assert("61"@.len() == 2);
    assert("15"@.len() == 2);
    assert("5"@.len() == 1);
    reveal_with_fuel(crate::text::digits, 3);
    assert(int_text(6) =~= "6"@);
    assert(int_text(61) =~= "61"@);
    assert(int_text(5) =~= "5"@);
    assert(int_text(15) =~= "15"@);
}

// Messages

/// An execution that nobody asked for is passed on as one fill: of its
/// instrument, order, price and id, bought where it says `BOT` and sold where
/// it says `SLD`. One that says neither is passed on to nobody.
pub proof fn law_executions_are_passed_on(
    pre: BrokerState,
    e: ExecutionMsg,
    now: u64,
    recv_ns: u64,
    post: BrokerState,
    events: Seq<BrokerEvent>,
)
    requires
        BrokerState::routed(pre, InboundMsg::Execution(e), now, recv_ns, post, events),
        e.req_id <= 0 || !pre.pending_executions@.contains_key(e.req_id),
    ensures
        e.side@ == "BOT"@ || e.side@ == "SLD"@ ==> events.len() == 1 && (events[0] matches BrokerEvent::Filled(f)
            && f.instrument_id.0 == e.contract.con_id as u64 && f.order_id.0 == e.order_id as u64 && f.exec_id@
            == e.exec_id@ && f.price == e.price && f.timestamp_ns == now && f.qty == e.shares.clamped(u32::MAX as nat)),
        e.side@ == "BOT"@ ==> (events[0] matches BrokerEvent::Filled(f) && f.side == Side::Buy),
        e.side@ == "SLD"@ ==> (events[0] matches BrokerEvent::Filled(f) && f.side == Side::Sell),
        e.side@ != "BOT"@ && e.side@ != "SLD"@ ==> events.len() == 0,
        post.pending_executions@ == pre.pending_executions@,
{
    law_executions_name_sides(e.side@);
}

/// Executions that were asked for are kept for the call that asked, and given
/// to it, all of them and in order, at the end; the call then waits no more.
pub proof fn law_asked_executions_are_kept(
    pre: BrokerState,
    e: ExecutionMsg,
    now: u64,
    recv_ns: u64,
    mid: BrokerState,
    events: Seq<BrokerEvent>,
    post: BrokerState,
    answers: Seq<BrokerEvent>,
)
    requires
        BrokerState::routed(pre, InboundMsg::Execution(e), now, recv_ns, mid, events),
        BrokerState::routed(mid, InboundMsg::ExecutionEnd(e.req_id), now, recv_ns, post, answers),
        e.req_id > 0,
        pre.pending_executions@.contains_key(e.req_id),
        e.side@ == "BOT"@ || e.side@ == "SLD"@,
    ensures
        events.len() == 0,
        !post.pending_executions@.contains_key(e.req_id),
        answers.len() == 1,
        answers[0] matches BrokerEvent::Executions { req_id, result: Ok(fills) } && req_id == e.req_id && fills@.len()
            == pre.pending_executions@[e.req_id]@.len() + 1 && fills@.drop_last() == pre.pending_executions@[e.req_id]@
            && (fills@.last().side == Side::Buy <==> e.side@ == "BOT"@) && fills@.last().exec_id@ == e.exec_id@,
{
    law_executions_name_sides(e.side@);
    reveal_strlit("BOT");
    reveal_strlit("SLD");
    assert("BOT"@[0] != "SLD"@[0]);
}

/// Executions that differ in nothing but `BOT` and `SLD` give fills that
/// differ in nothing but the side, which is the opposite.
pub proof fn law_opposite_executions_fill_opposite(a: ExecutionMsg, b: ExecutionMsg, now: u64, f: Fill, g: Fill)
    requires
        a.side@ == "BOT"@,
        b.side@ == "SLD"@,
        a.contract.con_id == b.contract.con_id,
        a.order_id == b.order_id,
        a.exec_id@ == b.exec_id@,
        a.shares == b.shares,
        a.price == b.price,
        fill_of(f, a, now),
        fill_of(g, b, now),
    ensures
        f.side == Side::Buy,
        g.side == Side::Sell,
        f.qty == g.qty,
        f.price == g.price && f.price == a.price,
        f.instrument_id == g.instrument_id,
        f.order_id == g.order_id,
        f.exec_id@ == g.exec_id@,
{
    law_executions_name_sides(a.side@);
    law_executions_name_sides(b.side@);
}

/// A status is passed on once, under the order's id and by its meaning; a
/// known order takes it over with the quantity that is filled, and keeps all
/// else. Whoever waits for the order is told that the gateway took it where
/// the status says that it works, worked or is being cancelled, and not where
/// it was refused or does not work.
pub proof fn law_statuses_are_passed_on(
    pre: BrokerState,
    o: OrderStatusMsg,
    now: u64,
    recv_ns: u64,
    post: BrokerState,
    events: Seq<BrokerEvent>,
)
    requires
        BrokerState::routed(pre, InboundMsg::OrderStatus(o), now, recv_ns, post, events),
    ensures
        events.len() >= 1,
        events.last() matches BrokerEvent::Status(u) && u.order_id.0 == o.order_id as u64 && u.status == status_of(o.status@)
            && u.filled_qty == o.filled.clamped(u32::MAX as nat) && u.remaining_qty == o.remaining.clamped(u32::MAX as nat)
            && u.avg_fill_price == o.avg_fill_price && (u.last_fill_price is Some <==> o.last_fill_price.above_zero())
            && (u.last_fill_price is Some ==> u.last_fill_price->0 == o.last_fill_price),
        pre.open_orders@.contains_key(o.order_id) ==> post.open_orders@.contains_key(o.order_id)
            && post.open_orders@[o.order_id].status == status_of(o.status@) && post.open_orders@[o.order_id].filled_qty
            == o.filled.clamped(u32::MAX as nat) && post.open_orders@[o.order_id].side
            == pre.open_orders@[o.order_id].side && post.open_orders@[o.order_id].qty == pre.open_orders@[o.order_id].qty,
        !pre.open_orders@.contains_key(o.order_id) ==> post.open_orders@ == pre.open_orders@,
        forall|id: i32|
            id != o.order_id && #[trigger] pre.open_orders@.contains_key(id) ==> post.open_orders@.contains_key(id)
                && post.open_orders@[id] == pre.open_orders@[id],
        status_of(o.status@) != OrderStatus::Rejected && status_of(o.status@) != OrderStatus::Inactive
            && pre.pending_place_acks@.contains(o.order_id) ==> events.len() == 2 && (events[0] matches BrokerEvent::PlaceAck {
            order_id,
            result: Ok(_),
        } && order_id == o.order_id) && !post.pending_place_acks@.contains(o.order_id),
        status_of(o.status@) == OrderStatus::Rejected || status_of(o.status@) == OrderStatus::Inactive ==> events.len() == 1
            && post.pending_place_acks@ == pre.pending_place_acks@ && post.wire_ack_ns@ == pre.wire_ack_ns@,
{
}

/// An order that the gateway reports is known by it afterwards, as it was
/// described, and whoever waits for it is told; an amended price counts as
/// confirmed where it came back, and only there.
pub proof fn law_open_orders_are_kept(
    pre: BrokerState,
    o: OpenOrderMsg,
    now: u64,
    recv_ns: u64,
    post: BrokerState,
    events: Seq<BrokerEvent>,
)
    requires
        BrokerState::routed(pre, InboundMsg::OpenOrder(o), now, recv_ns, post, events),
    ensures
        (o.action@ == "BUY"@ || o.action@ == "SELL"@) && (o.contract.sec_type@ == "FUT"@ || o.contract.sec_type@ == "FOP"@
            || o.contract.sec_type@ == "OPT"@) ==> post.open_orders@.contains_key(o.order_id) && ({
            let k = post.open_orders@[o.order_id];
            &&& (k.side == Side::Buy <==> o.action@ == "BUY"@)
            &&& k.qty == o.total_quantity.clamped(u32::MAX as nat)
            &&& k.remaining_qty == o.remaining.clamped(u32::MAX as nat)
            &&& (k.price is Some <==> o.lmt_price.value.finite() && o.lmt_price.value.above_zero())
            &&& (k.price is Some ==> k.price->0 == o.lmt_price)
            &&& (k.contract.kind == ContractKind::Future <==> o.contract.sec_type@ == "FUT"@)
            &&& k.contract.instrument_id.0 == o.contract.con_id as u64
            &&& k.contract.right == right_of(o.contract.right@)
            &&& k.tif == tif_of(o.tif@)
            &&& k.client_order_ref@ == o.order_ref@
        }),
        pre.pending_place_acks@.contains(o.order_id) ==> events.len() == 1 && (events[0] matches BrokerEvent::PlaceAck {
            order_id,
            result: Ok(_),
        } && order_id == o.order_id),
        !pre.pending_place_acks@.contains(o.order_id) ==> events.len() == 0,
        post.wire_ack_ns@.contains_key(o.order_id),
        !pre.wire_ack_ns@.contains_key(o.order_id) ==> post.wire_ack_ns@[o.order_id] == now,
        !pre.expected_amend_prices@.contains_key(o.order_id) ==> post.strict_ack_ns@ == pre.strict_ack_ns@,
        pre.expected_amend_prices@.contains_key(o.order_id) && o.lmt_price.value
            == pre.expected_amend_prices@[o.order_id] && o.lmt_price.value.finite() ==> post.strict_ack_ns@.contains_key(
            o.order_id,
        ),
{
    law_actions_name_sides(o.action@);
    law_contracts_are_named(o.contract.sec_type@);
    reveal_strlit("BUY");
    reveal_strlit("SELL");
    reveal_strlit("FUT");
    reveal_strlit("FOP");
    reveal_strlit("OPT");
    assert("BUY"@.len() == 3);
    assert("SELL"@.len() == 4);
    assert("FUT"@.len() == 3);
    assert("FOP"@.len() == 3);
    assert("OPT"@.len() == 3);
    assert("FUT"@[1] != "FOP"@[1]);
    assert("FUT"@[0] != "OPT"@[0]);
    assert("FOP"@[0] != "OPT"@[0]);
}

/// A position that is reported is the account's position in that contract
/// afterwards, long or short as reported; none is left once zero is reported.
/// Other positions stay.
pub proof fn law_positions_are_kept(
    pre: BrokerState,
    p: PositionMsg,
    now: u64,
    recv_ns: u64,
    post: BrokerState,
    events: Seq<BrokerEvent>,
)
    requires
        BrokerState::routed(pre, InboundMsg::Position(p), now, recv_ns, post, events),
    ensures
        ({
            let key = (p.account@, p.contract.con_id);
            let zero = p.position.bits == 0 || p.position.bits == 0x8000_0000_0000_0000;
            let known = p.contract.sec_type@ == "FUT"@ || p.contract.sec_type@ == "FOP"@ || p.contract.sec_type@ == "OPT"@;
            &&& events.len() == 0
            &&& zero ==> !post.positions@.contains_key(key)
            &&& !zero && known ==> post.positions@.contains_key(key) && post.positions@[key].quantity
                == p.position.clamped_signed(i32::MIN as int, i32::MAX as int) && post.positions@[key].avg_cost == p.avg_cost
                && post.positions@[key].contract.instrument_id.0 == p.contract.con_id as u64
                && post.positions@[key].contract.symbol@ == p.contract.symbol@
                && (post.positions@[key].contract.kind == ContractKind::Future <==> p.contract.sec_type@ == "FUT"@)
            &&& !zero && !known ==> post.positions@ == pre.positions@
            &&& forall|k: (Seq<char>, i64)|
                k != key ==> (#[trigger] post.positions@.contains_key(k) <==> pre.positions@.contains_key(k)) && (
                pre.positions@.contains_key(k) ==> post.positions@[k] == pre.positions@[k])
        }),
{
    law_contracts_are_named(p.contract.sec_type@);
    reveal_strlit("FUT");
    reveal_strlit("FOP");
    reveal_strlit("OPT");
    assert("FUT"@[1] != "FOP"@[1]);
    assert("FUT"@[0] != "OPT"@[0]);
    assert("FOP"@[0] != "OPT"@[0]);
}

/// A price tick reaches the instrument that its request was made for, as the
/// bid, the ask or a trade by its type, with its price and the time its bytes
/// came; a tick of an unknown type or request reaches nobody.
pub proof fn law_price_ticks_reach_their_instrument(
    pre: BrokerState,
    t: TickPriceMsg,
    now: u64,
    recv_ns: u64,
    post: BrokerState,
    events: Seq<BrokerEvent>,
)
    requires
        BrokerState::routed(pre, InboundMsg::TickPrice(t), now, recv_ns, post, events),
    ensures
        post == pre,
        !pre.tick_routes@.contains_key(t.req_id) ==> events.len() == 0,
        pre.tick_routes@.contains_key(t.req_id) && (t.tick_type == 1 || t.tick_type == 2 || t.tick_type == 4) ==> events.len()
            == 1 && (events[0] matches BrokerEvent::Ticked(k) && k.instrument_id == pre.tick_routes@[t.req_id] && k.price
            == Some(t.price) && k.size is None && k.timestamp_ns == recv_ns && (k.kind == TickKind::Bid <==> t.tick_type
            == 1) && (k.kind == TickKind::Ask <==> t.tick_type == 2) && (k.kind == TickKind::Last <==> t.tick_type == 4)),
{
}

/// A size tick reaches the instrument that its request was made for; one that
/// is a call's reaches no put, and one that is a put's no call. Each is
/// counted.
pub proof fn law_size_ticks_reach_their_instrument(
    pre: BrokerState,
    t: TickSizeMsg,
    now: u64,
    recv_ns: u64,
    post: BrokerState,
    events: Seq<BrokerEvent>,
)
    requires
        BrokerState::routed(pre, InboundMsg::TickSize(t), now, recv_ns, post, events),
    ensures
        post.tick_type_hist@.contains_key(t.tick_type),
        !pre.tick_type_hist@.contains_key(t.tick_type) ==> post.tick_type_hist@[t.tick_type] == 1,
        pre.tick_type_hist@.contains_key(t.tick_type) && pre.tick_type_hist@[t.tick_type] < u64::MAX
            ==> post.tick_type_hist@[t.tick_type] == pre.tick_type_hist@[t.tick_type] + 1,
        !pre.tick_routes@.contains_key(t.req_id) ==> events.len() == 0,
        pre.tick_routes@.contains_key(t.req_id) && (t.tick_type == 0 || t.tick_type == 3 || t.tick_type == 8) ==> events.len()
            == 1 && (events[0] matches BrokerEvent::Ticked(k) && k.instrument_id == pre.tick_routes@[t.req_id] && k.price
            is None && k.size == Some(t.size.clamped(u64::MAX as nat) as u64) && k.timestamp_ns == recv_ns && (k.kind
            == TickKind::BidSize <==> t.tick_type == 0) && (k.kind == TickKind::AskSize <==> t.tick_type == 3) && (k.kind
            == TickKind::OptionVolume <==> t.tick_type == 8)),
        lookup(pre.tick_route_right@, t.req_id) == Some(Right::Put) && (t.tick_type == 27 || t.tick_type == 29)
            ==> events.len() == 0,
        lookup(pre.tick_route_right@, t.req_id) == Some(Right::Call) && (t.tick_type == 28 || t.tick_type == 30)
            ==> events.len() == 0,
        pre.tick_routes@.contains_key(t.req_id) && lookup(pre.tick_route_right@, t.req_id) == Some(Right::Call) && (
        t.tick_type == 27 || t.tick_type == 29) ==> events.len() == 1,
        pre.tick_routes@.contains_key(t.req_id) && lookup(pre.tick_route_right@, t.req_id) == Some(Right::Put) && (
        t.tick_type == 28 || t.tick_type == 30) ==> events.len() == 1,
{
}

/// A depth change reaches the instrument that its request was made for, on the
/// bid's side where it says 1 and on the ask's where it says 0.
pub proof fn law_depth_reaches_its_instrument(
    pre: BrokerState,
    d: MarketDepthMsg,
    now: u64,
    recv_ns: u64,
    post: BrokerState,
    events: Seq<BrokerEvent>,
)
    requires
        BrokerState::routed(pre, InboundMsg::MarketDepth(d), now, recv_ns, post, events),
    ensures
        !pre.depth_routes@.contains_key(d.req_id) ==> events.len() == 0,
        pre.depth_routes@.contains_key(d.req_id) ==> events.len() == 1 && (events[0] matches BrokerEvent::DepthChanged(u)
            && u.instrument_id == pre.depth_routes@[d.req_id] && u.position == d.position && u.operation == d.operation
            && u.price == d.price && (u.is_bid <==> d.side == 1) && u.timestamp_ns == recv_ns && u.size == d.size.clamped(
            u64::MAX as nat,
        )),
{
}

/// An error is always passed on, last. One that refuses an order fails whoever
/// waits for that order, with the reason given, and nobody else; one that says
/// that a contract is unknown fails whoever waits for that contract. Any other
/// error leaves those who wait waiting.
pub proof fn law_errors_fail_those_they_name(
    pre: BrokerState,
    e: ErrorMsg,
    now: u64,
    recv_ns: u64,
    post: BrokerState,
    events: Seq<BrokerEvent>,
)
    requires
        BrokerState::routed(pre, InboundMsg::Error(e), now, recv_ns, post, events),
    ensures
        events.len() >= 1 && events.last() is Failed,
        (e.error_code == 201 || e.error_code == 203 || e.error_code == 434 || e.error_code == 436 || e.error_code == 10148
            || e.error_code == 10197) && e.req_id > 0 && pre.pending_place_acks@.contains(e.req_id) ==> events.len() == 2 && (
        events[0] matches BrokerEvent::PlaceAck { order_id, result: Err(BrokerError::OrderRejected { order_id: id, reason }) }
            && order_id == e.req_id && id == Some(e.req_id as u64) && reason@ == e.error_string@)
            && !post.pending_place_acks@.contains(e.req_id),
        (e.error_code == 202 || e.error_code == 399 || e.error_code == 461) ==> events.len() == 1
            && post.pending_place_acks@ == pre.pending_place_acks@ && post.pending_contract_details@
            == pre.pending_contract_details@,
        (e.error_code == 200 || e.error_code == 321 || e.error_code == 322) && e.req_id > 0
            && pre.pending_contract_details@.contains_key(e.req_id) ==> events.len() == 2 && (events[0]
            matches BrokerEvent::Contracts { req_id, result: Err(BrokerError::ContractNotFound(why)) } && req_id
            == e.req_id && why@ == e.error_string@) && !post.pending_contract_details@.contains_key(e.req_id),
        forall|id: i32| id != e.req_id && #[trigger] pre.pending_place_acks@.contains(id) ==> post.pending_place_acks@.contains(id),
        e.req_id <= 0 ==> events.len() == 1 && post.pending_place_acks@ == pre.pending_place_acks@,
        e.error_code == 1100 || e.error_code == 1101 || e.error_code == 1102 || e.error_code == 1300 ==> (events.last()
            matches BrokerEvent::Failed(BrokerError::ConnectionLost(why)) && why@ == e.error_string@),
        e.error_code == 100 ==> (events.last() matches BrokerEvent::Failed(BrokerError::RateLimited(why)) && why@
            == e.error_string@),
{
    let n = events.len() as int;
    if n >= 2 {
        assert(events.drop_last()[0] == events[0]);
    }
}

/// The initial snapshot is complete once positions, orders and account have
/// each been told of in full, and not before; no other message moves it.
pub proof fn law_snapshot_is_complete_once_all_came(
    pre: BrokerState,
    msg: InboundMsg,
    now: u64,
    recv_ns: u64,
    post: BrokerState,
    events: Seq<BrokerEvent>,
)
    requires
        BrokerState::routed(pre, msg, now, recv_ns, post, events),
    ensures
        post.seeding.positions_done <==> pre.seeding.positions_done || msg is PositionEnd,
        post.seeding.open_orders_done <==> pre.seeding.open_orders_done || msg is OpenOrderEnd,
        post.seeding.account_done <==> pre.seeding.account_done || msg is AccountDownloadEnd,
        post.seeding.all() <==> post.seeding.positions_done && post.seeding.open_orders_done && post.seeding.account_done,
{
}

// Balances

/// What an account's balances are taken from: of the rows of that account, the
/// last one of each name. Rows of other accounts, such as totals over all of
/// them, count for nothing.
pub proof fn law_balances_come_from_their_rows(
    rows: Seq<(AccountKey, AccountValueMsg)>,
    account: Seq<char>,
    now: u64,
    k: AccountKey,
    v: AccountValueMsg,
)
    ensures
        ({
            let before = BrokerState::snapshot_of(rows, account, now);
            let after = BrokerState::snapshot_of(rows.push((k, v)), account, now);
            &&& after.timestamp_ns == before.timestamp_ns
            &&& k.account@ != account ==> after == before
            &&& k.account@ == account ==> {
                &&& after.net_liquidation == (if k.key@ == "NetLiquidation"@ { v.amount } else { before.net_liquidation })
                &&& after.maintenance_margin == (if k.key@ == "MaintMarginReq"@ { v.amount } else { before.maintenance_margin })
                &&& after.initial_margin == (if k.key@ == "InitMarginReq"@ { v.amount } else { before.initial_margin })
                &&& after.buying_power == (if k.key@ == "BuyingPower"@ { v.amount } else { before.buying_power })
                &&& after.realized_pnl_today == (if k.key@ == "RealizedPnL"@ { v.amount } else { before.realized_pnl_today })
            }
        }),
        BrokerState::snapshot_of(Seq::empty(), account, now).timestamp_ns == now,
        BrokerState::snapshot_of(Seq::empty(), account, now).net_liquidation.bits == 0,
        BrokerState::snapshot_of(Seq::empty(), account, now).initial_margin.bits == 0,
        BrokerState::snapshot_of(Seq::empty(), account, now).buying_power.bits == 0,
        BrokerState::snapshot_of(Seq::empty(), account, now).maintenance_margin.bits == 0,
        BrokerState::snapshot_of(Seq::empty(), account, now).realized_pnl_today.bits == 0,
{
    assert(rows.push((k, v)).drop_last() =~= rows);
    reveal_strlit("NetLiquidation");
    reveal_strlit("MaintMarginReq");
    reveal_strlit("InitMarginReq");
    reveal_strlit("BuyingPower");
    reveal_strlit("RealizedPnL");
    assert("NetLiquidation"@.len() == 14);
    assert("InitMarginReq"@.len() == 13);
    assert("BuyingPower"@.len() == 11);
    assert("RealizedPnL"@.len() == 11);
    assert("MaintMarginReq"@.len() == 14);
    assert("NetLiquidation"@[0] != "MaintMarginReq"@[0]);
    assert("BuyingPower"@[0] != "RealizedPnL"@[0]);
}

/// A price that came back is the expected one where it is the same, whichever
/// way round they are compared, and not where they are a millionth or more
/// apart.
pub proof fn law_close_prices_are_close(a: Double, b: Double)
    ensures
        a.finite() ==> price_close(a, a),
        price_close(a, b) <==> price_close(b, a),
        a.finite() && b.finite() && a.exponent() <= 1086 && b.exponent() <= 1086 ==> (price_close(a, b) <==> -1000
            < a.wide() - b.wide() < 1000),
        !a.finite() ==> !price_close(a, b),
{
}

/// Of the contracts that are listed, those are kept that do not expire before
/// the day asked for.
pub proof fn law_expired_contracts_are_left_out(contracts: Seq<Contract>, min: Date, c: Contract)
    ensures
        BrokerState::unexpired(contracts, Some(min)).contains(c) <==> contracts.contains(c) && (c.expiry.year > min.year || (
        c.expiry.year == min.year && (c.expiry.month > min.month || (c.expiry.month == min.month && c.expiry.day
            >= min.day)))),
        BrokerState::unexpired(contracts, None) == contracts,
{
    broadcast use vstd::seq_lib::group_filter_ensures;

    let keep = |x: Contract| !x.expiry.earlier(min);
    let kept = contracts.filter(keep);
    if kept.contains(c) {
        contracts.lemma_filter_contains_rev(keep, c);
        let i = kept.index_of(c);
        assert(keep(kept[i]));
    }
    if contracts.contains(c) && keep(c) {
        let i = contracts.index_of(c);
        assert(keep(contracts[i]));
    }
}

/// An order counts as taken once the gateway says that it works, waits, was
/// filled, or is cancelled; a refused or idle one does not.
pub proof fn law_taken_orders_are_answered(pre: BrokerState, o: OrderStatusMsg, now: u64, post: BrokerState, events: Seq<BrokerEvent>)
    requires
        BrokerState::status_routed(pre, o, now, post, events),
        pre.pending_place_acks@.contains(o.order_id),
    ensures
        o.status@ == "Submitted"@ || o.status@ == "PreSubmitted"@ || o.status@ == "PendingSubmit"@ || o.status@ == "Filled"@
            || o.status@ == "Cancelled"@ || o.status@ == "PendingCancel"@ ==> events.len() == 2 && events[0] == (
        BrokerEvent::PlaceAck { order_id: o.order_id, result: Ok(()) }) && !post.pending_place_acks@.contains(o.order_id),
        o.status@ == "Rejected"@ || o.status@ == "Inactive"@ ==> events.len() == 1 && post.pending_place_acks@.contains(
            o.order_id,
        ),
        events.len() > 0 && events.last() is Status,
{
    law_statuses_name_states(o.status@);
}

/// The reply to a request for contracts holds every contract that was sent
/// for it and is traded.
pub proof fn law_contracts_come_back(
    pre: BrokerState,
    req_id: i32,
    post: BrokerState,
    events: Seq<BrokerEvent>,
    i: int,
)
    requires
        BrokerState::contract_details_end_routed(pre, req_id, post, events),
        pre.pending_contract_details@.contains_key(req_id),
        0 <= i < pre.pending_contract_details@[req_id]@.len(),
        kind_of(pre.pending_contract_details@[req_id]@[i].contract.sec_type@) is Some,
    ensures
        events.len() == 1,
        events[0] matches BrokerEvent::Contracts { req_id: id, result: Ok(contracts) } && id == req_id && exists|k: int|
            #![trigger contracts@[k]]
            0 <= k < contracts@.len() && contracts@[k].instrument_id.0
                == pre.pending_contract_details@[req_id]@[i].contract.con_id as u64 && contracts@[k].symbol@
                == pre.pending_contract_details@[req_id]@[i].contract.symbol@,
        !post.pending_contract_details@.contains_key(req_id),
{
    broadcast use vstd::seq_lib::group_filter_ensures;

    let details = pre.pending_contract_details@[req_id]@;
    let kept = tradable(details);
    assert(kept.contains(details[i]));
    let k = kept.index_of(details[i]);
    if let BrokerEvent::Contracts { req_id: id, result: Ok(contracts) } = events[0] {
        assert(describes(contracts@[k], kept[k].contract, last_trade_parts(kept[k].contract.last_trade_date@)));
        assert(contracts@[k].symbol@ == details[i].contract.symbol@);
    }
}

/// Each contract that is sent for a request is kept until the request ends.
pub proof fn law_contracts_are_collected(pre: BrokerState, cd: ContractDetailsMsg, post: BrokerState)
    requires
        BrokerState::contract_details_routed(pre, cd, post),
        pre.pending_contract_details@.contains_key(cd.req_id),
    ensures
        post.pending_contract_details@.contains_key(cd.req_id),
        post.pending_contract_details@[cd.req_id]@.len() == pre.pending_contract_details@[cd.req_id]@.len() + 1,
        post.pending_contract_details@[cd.req_id]@.last() == cd,
        forall|other: i32| other != cd.req_id && #[trigger] pre.pending_contract_details@.contains_key(other)
            ==> post.pending_contract_details@.contains_key(other) && post.pending_contract_details@[other]
            == pre.pending_contract_details@[other],
{
    assert(pre.pending_contract_details@.dom().contains(cd.req_id));
    assert forall|other: i32| other != cd.req_id && #[trigger] pre.pending_contract_details@.contains_key(other) implies
        post.pending_contract_details@.contains_key(other) && post.pending_contract_details@[other]
        == pre.pending_contract_details@[other] by {
        assert(pre.pending_contract_details@.remove(cd.req_id).contains_key(other));
        assert(post.pending_contract_details@.remove(cd.req_id)[other] == pre.pending_contract_details@.remove(cd.req_id)[other]);
    }
}

/// The reply to a request for executions is all that was kept for it.
pub proof fn law_executions_come_back(pre: BrokerState, req_id: i32, post: BrokerState, events: Seq<BrokerEvent>)
    requires
        BrokerState::execution_end_routed(pre, req_id, post, events),
    ensures
        pre.pending_executions@.contains_key(req_id) ==> events.len() == 1 && events[0] == (BrokerEvent::Executions {
            req_id,
            result: Ok(pre.pending_executions@[req_id]),
        }),
        !pre.pending_executions@.contains_key(req_id) ==> events.len() == 0,
        !post.pending_executions@.contains_key(req_id),
{
}

} // verus!
