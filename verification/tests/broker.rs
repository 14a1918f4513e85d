use corsair::api::{
    BrokerError, ChainQuery, Contract, ContractKind, Currency, Decimal, Exchange, FutureQuery, InstrumentId,
    ModifyOrderReq, OptionQuery, OrderId, OrderStatus, OrderType, PlaceOrderReq, Right, Side, TickKind, TickSubscription, TimeInForce,
};
use corsair::broker::{amend_price_matches, BrokerEvent, BrokerState};
use corsair::broker_calls::{bootstrap_frames, check_quantity, Outcome};
use corsair::convert::{error_to_broker_error, is_contract_error, is_order_error, map_native_err, parse_status};
use corsair::dates::Date;
use corsair::double::Double;
use corsair::native_error::NativeError;
use corsair::types::{
    AccountValueMsg, ContractDecoded, ContractDetailsMsg, ErrorMsg, ExecutionMsg, InboundMsg, MarketDepthMsg,
    OpenOrderMsg, OrderStatusMsg, PositionMsg, TickPriceMsg, TickSizeMsg,
};

fn num(x: f64) -> Double {
    Double::from_bits(x.to_bits())
}

fn dec(x: f64) -> Decimal {
    Decimal { value: num(x), text: format!("{x:?}") }
}

fn exp() -> Date {
    Date { year: 2026, month: 5, day: 26 }
}

fn option_contract() -> Contract {
    Contract {
        instrument_id: InstrumentId(12345),
        kind: ContractKind::Option,
        symbol: "HXE".to_string(),
        local_symbol: "HXEK6 C605".to_string(),
        expiry: exp(),
        strike: Some(dec(6.05)),
        right: Some(Right::Call),
        multiplier: num(25_000.0),
        exchange: Exchange::Comex,
        currency: Currency::Usd,
        trading_class: "HXE".to_string(),
    }
}

fn order(tif: TimeInForce, gtd: Option<i64>) -> PlaceOrderReq {
    PlaceOrderReq {
        contract: option_contract(),
        side: Side::Buy,
        qty: 2,
        order_type: OrderType::Limit,
        price: Some(dec(0.0285)),
        tif,
        gtd_until_utc: gtd,
        client_order_ref: "ref".to_string(),
        account: None,
    }
}

fn decoded(sec_type: &str) -> ContractDecoded {
    ContractDecoded {
        con_id: 12345,
        symbol: "HG".to_string(),
        sec_type: sec_type.to_string(),
        last_trade_date: "20260526".to_string(),
        strike: dec(6.05),
        right: "C".to_string(),
        multiplier: num(25_000.0),
        exchange: "COMEX".to_string(),
        primary_exchange: String::new(),
        currency: "USD".to_string(),
        local_symbol: "HXEK6 C605".to_string(),
        trading_class: "HXE".to_string(),
    }
}

fn status_msg(id: i32, status: &str, filled: f64) -> InboundMsg {
    InboundMsg::OrderStatus(OrderStatusMsg {
        order_id: id,
        status: status.to_string(),
        filled: num(filled),
        remaining: num(2.0 - filled),
        avg_fill_price: num(0.0),
        perm_id: 0,
        parent_id: 0,
        last_fill_price: num(0.0),
        client_id: 0,
        why_held: String::new(),
        mkt_cap_price: num(0.0),
    })
}

fn open_order(id: i32, price: f64) -> InboundMsg {
    InboundMsg::OpenOrder(OpenOrderMsg {
        order_id: id,
        contract: decoded("FOP"),
        action: "BUY".to_string(),
        total_quantity: num(2.0),
        order_type: "LMT".to_string(),
        lmt_price: dec(price),
        tif: "DAY".to_string(),
        account: "DU1".to_string(),
        order_ref: "ref".to_string(),
        status: "Submitted".to_string(),
        filled: num(0.0),
        remaining: num(2.0),
    })
}

fn error_msg(req_id: i32, code: i32, text: &str) -> InboundMsg {
    InboundMsg::Error(ErrorMsg {
        req_id,
        error_code: code,
        error_string: text.to_string(),
        advanced_order_reject_json: String::new(),
    })
}

fn fields_of(frame: &[u8]) -> Vec<String> {
    let s = std::str::from_utf8(&frame[4..]).unwrap();
    let mut f: Vec<String> = s.split('\0').map(|x| x.to_string()).collect();
    f.pop();
    f
}

#[test]
fn an_order_is_sent_acknowledged_and_timed() {
    let mut b = BrokerState::new();
    let frame = b.begin_place(7, &order(TimeInForce::Gtd, Some(1_779_811_200)), "DU1", 1_000).unwrap();
    let f = fields_of(&frame);
    assert_eq!(&f[..3], &["3", "7", "12345"]);
    assert!(f.contains(&"20260526 16:00:00 UTC".to_string()));
    assert!(f.contains(&"0.0285".to_string()) && f.contains(&"DU1".to_string()));
    let events = b.route(status_msg(7, "Submitted", 0.0), 5_000, 4_000);
    assert!(events.iter().any(|e| matches!(e, BrokerEvent::PlaceAck { order_id: 7, result: Ok(()) })));
    let events = b.route(status_msg(7, "Submitted", 0.0), 9_000, 8_000);
    assert!(!events.iter().any(|e| matches!(e, BrokerEvent::PlaceAck { .. })));
    assert_eq!(b.finish_place(7, Outcome::Replied(Ok(()))).unwrap(), OrderId(7));
    let (sent, acked) = b.drain_wire_timing(7).unwrap();
    assert_eq!(sent, 1_000);
    assert!(acked > sent && acked < 8_000);
    assert!(b.drain_wire_timing(7).is_none());
}

#[test]
fn orders_that_cannot_be_sent() {
    let mut b = BrokerState::new();
    assert!(matches!(b.begin_place(0, &order(TimeInForce::Day, None), "DU1", 1), Err(BrokerError::Internal(_))));
    assert!(matches!(
        b.begin_place(1, &order(TimeInForce::Gtd, None), "DU1", 1),
        Err(BrokerError::InvalidRequest(_))
    ));
    let mut none = order(TimeInForce::Day, None);
    none.qty = 0;
    assert!(matches!(check_quantity(&none), Err(BrokerError::InvalidRequest(_))));
    assert!(matches!(
        b.begin_modify(OrderId(9), &ModifyOrderReq { price: None, qty: None, gtd_until_utc: None }, "DU1", 1),
        Err(BrokerError::Internal(_))
    ));
    b.begin_place(2, &order(TimeInForce::Day, None), "DU1", 1).unwrap();
    assert!(matches!(b.finish_place(2, Outcome::TimedOut), Err(BrokerError::Protocol { .. })));
    assert!(b.pending_place_acks.is_empty());
}

#[test]
fn a_rejection_answers_the_waiter() {
    let mut b = BrokerState::new();
    b.begin_place(3, &order(TimeInForce::Day, None), "DU1", 1).unwrap();
    let events = b.route(error_msg(3, 201, "no funds"), 2, 2);
    let rejected = events.iter().any(|e| {
        matches!(e, BrokerEvent::PlaceAck { order_id: 3, result: Err(BrokerError::OrderRejected { .. }) })
    });
    assert!(rejected);
}

#[test]
fn an_amended_price_is_confirmed_by_the_exchange() {
    let mut b = BrokerState::new();
    b.route(open_order(4, 0.03), 1, 1);
    assert_eq!(b.open_orders().len(), 1);
    let change = ModifyOrderReq { price: Some(dec(0.031)), qty: None, gtd_until_utc: None };
    let frame = b.begin_modify(OrderId(4), &change, "DU1", 100).unwrap();
    assert!(fields_of(&frame).contains(&"0.031".to_string()));
    b.route(open_order(4, 0.03), 200, 150);
    assert!(b.strict_ack_ns.is_empty());
    b.route(open_order(4, 0.031), 300, 250);
    assert_eq!(b.drain_strict_amend_ack_ns(4), Some(300));
    assert!(b.drain_strict_amend_ack_ns(4).is_none());
    assert!(amend_price_matches(&num(0.0310004), &num(0.031)));
    assert!(!amend_price_matches(&num(0.0315), &num(0.031)));
    assert!(amend_price_matches(&num(-0.0310004), &num(-0.031)));
    assert!(!amend_price_matches(&num(-0.031), &num(0.031)));
    assert!(amend_price_matches(&num(1e10), &num(1e10)) && !amend_price_matches(&num(1e10), &num(1e10 + 0.5)));
    assert!(amend_price_matches(&num(f64::MAX), &num(f64::MAX)) && !amend_price_matches(&num(1e300), &num(f64::MAX)));
    assert!(!amend_price_matches(&num(f64::INFINITY), &num(f64::INFINITY)));
    assert!(!amend_price_matches(&num(f64::NAN), &num(f64::NAN)));
}

#[test]
fn the_initial_snapshot_is_followed() {
    let mut b = BrokerState::new();
    assert!(!b.seeding.complete());
    b.route(
        InboundMsg::Position(PositionMsg {
            account: "DU1".to_string(),
            contract: decoded("FOP"),
            position: num(-3.0),
            avg_cost: num(712.5),
        }),
        1,
        1,
    );
    b.route(InboundMsg::PositionEnd, 1, 1);
    b.route(InboundMsg::OpenOrderEnd, 1, 1);
    b.route(InboundMsg::AccountDownloadEnd("DU1".to_string()), 1, 1);
    assert!(b.seeding.complete());
    assert_eq!(b.positions().len(), 1);
    assert_eq!(b.positions()[0].quantity, -3);
    b.reset_seeding_flags();
    assert!(!b.seeding.complete());
    assert_eq!(bootstrap_frames(0, "DU1").len(), 4);
    assert_eq!(bootstrap_frames(1, "DU1").len(), 3);
}

#[test]
fn account_values_are_summed_up() {
    let mut b = BrokerState::new();
    for (key, value, account) in
        [("NetLiquidation", 1000.0, "DU1"), ("MaintMarginReq", 200.0, "DU1"), ("NetLiquidation", 5.0, "DFP")]
    {
        b.route(
            InboundMsg::AccountValue(AccountValueMsg {
                key: key.to_string(),
                value: format!("{value}"),
                amount: num(value),
                currency: "USD".to_string(),
                account: account.to_string(),
            }),
            1,
            1,
        );
    }
    let a = b.account_values("DU1", 77);
    assert_eq!(a.net_liquidation, num(1000.0));
    assert_eq!(a.maintenance_margin, num(200.0));
    assert_eq!(a.timestamp_ns, 77);
}

#[test]
fn contracts_are_resolved() {
    let mut b = BrokerState::new();
    let q = OptionQuery {
        symbol: "HXE".to_string(),
        expiry: exp(),
        strike: dec(5.8500000000000005),
        right: Right::Call,
        multiplier: num(25_000.0),
        exchange: Exchange::Comex,
        currency: Currency::Usd,
    };
    let (req_id, frame) = b.begin_qualify_option(&q);
    let f = fields_of(&frame);
    assert_eq!(f[0], "9");
    assert_eq!(f[7], "5.85");
    assert!(f.contains(&"20260526".to_string()));
    let events = b.route(
        InboundMsg::ContractDetails(ContractDetailsMsg { req_id, contract: decoded("FOP") }),
        1,
        1,
    );
    assert!(events.is_empty());
    let mut events = b.route(InboundMsg::ContractDetailsEnd(req_id), 1, 1);
    match events.remove(0) {
        BrokerEvent::Contracts { req_id: id, result: Ok(found) } => {
            assert_eq!(id, req_id);
            let c = b.finish_qualify_option(req_id, &q, "5.85", Outcome::Replied(Ok(found))).unwrap();
            assert_eq!(c.instrument_id, InstrumentId(12345));
        }
        other => panic!("unexpected: {other:?}"),
    }
    let (req_id, _) = b.begin_qualify_option(&q);
    match b.finish_qualify_option(req_id, &q, "5.85", Outcome::Replied(Ok(vec![]))) {
        Err(BrokerError::ContractNotFound(m)) => assert_eq!(m, "no match for HXE 2026-05-26 5.85 Call"),
        other => panic!("unexpected: {other:?}"),
    }
    let future = FutureQuery {
        symbol: "HG".to_string(),
        expiry: exp(),
        exchange: Exchange::Comex,
        currency: Currency::Usd,
    };
    let (req_id, frame) = b.begin_qualify_future(&future);
    assert_eq!(&fields_of(&frame)[4..8], &["HG", "FUT", "20260526", "0.0"]);
    match b.finish_qualify_future(req_id, &future, Outcome::Replied(Ok(vec![]))) {
        Err(BrokerError::ContractNotFound(m)) => assert_eq!(m, "no match for HG 2026-05-26"),
        other => panic!("unexpected: {other:?}"),
    }
    let found = b.finish_qualify_future(req_id, &future, Outcome::Replied(Ok(vec![option_contract()])));
    assert_eq!(found.unwrap().instrument_id, InstrumentId(12345));
    assert!(matches!(
        b.finish_qualify_future(req_id, &future, Outcome::TimedOut),
        Err(BrokerError::Internal(m)) if m == "qualify_future timeout"
    ));
    let chain = ChainQuery {
        symbol: "HG".to_string(),
        kind: Some(ContractKind::Future),
        exchange: Exchange::Comex,
        currency: Currency::Usd,
        min_expiry: None,
    };
    let (req_id, _) = b.begin_list_chain(&chain);
    assert!(b.finish_list_chain(req_id, &chain, Outcome::TimedOut).is_err());
    let later = ChainQuery { min_expiry: Some(Date { year: 2026, month: 5, day: 27 }), ..chain };
    let (req_id, _) = b.begin_list_chain(&later);
    let june = Contract { expiry: Date { year: 2026, month: 6, day: 25 }, ..option_contract() };
    let kept = b.finish_list_chain(req_id, &later, Outcome::Replied(Ok(vec![option_contract(), june]))).unwrap();
    assert_eq!(kept.len(), 1);
    assert_eq!(kept[0].expiry.month, 6);
}

#[test]
fn ticks_and_depth_reach_their_instrument() {
    let mut b = BrokerState::new();
    let sub = TickSubscription { instrument_id: InstrumentId(12345), contract: Some(option_contract()) };
    let (handle, req_id, frame) = b.begin_subscribe_ticks(&sub);
    assert_eq!(fields_of(&frame)[0], "1");
    let mut events = b.route(
        InboundMsg::TickPrice(TickPriceMsg { req_id, tick_type: 2, price: num(0.036), attribs: 0 }),
        9,
        8,
    );
    match events.remove(0) {
        BrokerEvent::Ticked(t) => {
            assert_eq!((t.instrument_id, t.kind), (InstrumentId(12345), TickKind::Ask));
            assert_eq!((t.price, t.timestamp_ns), (Some(num(0.036)), 8));
        }
        other => panic!("unexpected: {other:?}"),
    }
    b.route(InboundMsg::TickSize(TickSizeMsg { req_id, tick_type: 0, size: num(5.0) }), 9, 8);
    assert_eq!(b.take_tick_type_hist(), vec![(0, 1)]);
    assert!(b.take_tick_type_hist().is_empty());
    let frame = b.unsubscribe_ticks(handle).unwrap();
    assert_eq!(fields_of(&frame)[0], "2");
    assert!(b.unsubscribe_ticks(handle).is_none());
    assert!(b
        .route(InboundMsg::TickPrice(TickPriceMsg { req_id, tick_type: 2, price: num(0.036), attribs: 0 }), 9, 8)
        .is_empty());
    let (depth, req_id, request) = b.begin_subscribe_market_depth(&sub);
    assert_eq!(request.con_id, 12345);
    let events = b.route(
        InboundMsg::MarketDepth(MarketDepthMsg {
            req_id,
            position: 0,
            operation: 0,
            side: 1,
            price: num(0.03),
            size: num(4.0),
        }),
        9,
        8,
    );
    assert!(matches!(&events[0], BrokerEvent::DepthChanged(d) if d.is_bid && d.size == 4));
    assert_eq!(b.unsubscribe_market_depth(depth), Some(req_id));
    let (depth, req_id, _) = b.begin_subscribe_market_depth(&sub);
    b.abandon_subscribe_market_depth(depth, req_id);
    assert_eq!(b.unsubscribe_market_depth(depth), None);
}

#[test]
fn executions_are_collected() {
    let mut b = BrokerState::new();
    let (req_id, frame) = b.begin_recent_fills(0, "DU1");
    assert_eq!(fields_of(&frame)[0], "7");
    let exec = |req_id: i32| {
        InboundMsg::Execution(ExecutionMsg {
            req_id,
            order_id: 5,
            contract: decoded("FOP"),
            exec_id: "e1".to_string(),
            time: String::new(),
            account: "DU1".to_string(),
            exchange: "COMEX".to_string(),
            side: "BOT".to_string(),
            shares: num(2.0),
            price: num(0.03),
            perm_id: 0,
            client_id: 0,
            liquidation: 0,
            cum_qty: num(2.0),
            avg_price: num(0.03),
            order_ref: String::new(),
        })
    };
    b.route(exec(req_id), 3, 3);
    let mut events = b.route(InboundMsg::ExecutionEnd(req_id), 3, 3);
    match events.remove(0) {
        BrokerEvent::Executions { result: Ok(fills), .. } => {
            let got = b.finish_recent_fills(req_id, Outcome::Replied(Ok(fills))).unwrap();
            assert_eq!(got.len(), 1);
            assert_eq!((got[0].side, got[0].qty), (Side::Buy, 2));
        }
        other => panic!("unexpected: {other:?}"),
    }
    let events = b.route(exec(-1), 4, 4);
    assert!(events.iter().any(|e| matches!(e, BrokerEvent::Filled(f) if f.exec_id == "e1")));
}

#[test]
fn a_lost_connection_answers_every_waiter() {
    let mut b = BrokerState::new();
    b.begin_place(3, &order(TimeInForce::Day, None), "DU1", 1).unwrap();
    b.begin_recent_fills(0, "DU1");
    let events = b.drain_waiters();
    assert_eq!(events.len(), 2);
    assert!(b.pending_place_acks.is_empty() && b.pending_executions.is_empty());
}

#[test]
fn gateway_errors_are_sorted() {
    assert!(is_contract_error(200));
    assert!(is_order_error(201));
    assert!(!is_order_error(202) && !is_order_error(399));
    assert_eq!(parse_status("PreSubmitted"), OrderStatus::PendingSubmit);
    assert_eq!(parse_status("whatever"), OrderStatus::Inactive);
    let e = error_to_broker_error(&ErrorMsg {
        req_id: 8,
        error_code: 200,
        error_string: "unknown".to_string(),
        advanced_order_reject_json: String::new(),
    });
    assert!(matches!(e, BrokerError::ContractNotFound(_)));
    assert!(matches!(map_native_err(&NativeError::NotConnected), BrokerError::NotConnected(_)));
}
