use corsair::api::{BrokerError, ContractKind, Currency, Decimal, Exchange, OrderId, OrderStatus, OrderType, Right, Side, TimeInForce};
use corsair::dates::Date;
use corsair::double::Double;
use corsair::ibkr::bridge::{dispatch, round_trip_error, BridgeConfig, BridgeError, Command, RoundTrip};
use corsair::ibkr::conversion::{
    account_snapshot_from_rows, contract_from_py, fill_from_py, format_currency, format_exchange, format_gtd,
    format_yyyymmdd, order_class_for, parse_currency, parse_exchange, parse_order_status, parse_tif, parse_yyyymmdd,
    position_from_py, side_str, tif_str, AccountRow, RawContract, RawFill,
};

fn num(x: f64) -> Double {
    Double::from_bits(x.to_bits())
}

fn raw(sec_type: &str) -> RawContract {
    RawContract {
        symbol: "HG".to_string(),
        local_symbol: "HXEM6 P565".to_string(),
        sec_type: sec_type.to_string(),
        con_id: 77,
        exchange: "comex".to_string(),
        currency: "eur".to_string(),
        multiplier: None,
        last_trade_date: "20260526 17:00".to_string(),
        strike: Decimal { value: num(5.65), text: "5.65".to_string() },
        right: "put".to_string(),
    }
}

#[test]
fn yyyymmdd_round_trip() {
    let d = Date { year: 2026, month: 6, day: 26 };
    let s = format_yyyymmdd(&d);
    assert_eq!(s, "20260626");
    assert_eq!(parse_yyyymmdd(&s), Some(d));
}

#[test]
fn parse_exchange_known() {
    assert_eq!(parse_exchange("COMEX"), Exchange::Comex);
    assert_eq!(parse_exchange("CME"), Exchange::Cme);
    assert_eq!(parse_exchange("Globex"), Exchange::Cme);
}

#[test]
fn parse_order_status_terminal_states() {
    assert_eq!(parse_order_status("Filled"), OrderStatus::Filled);
    assert_eq!(parse_order_status("Cancelled"), OrderStatus::Cancelled);
    assert!(parse_order_status("UnknownGarbage").is_terminal());
}

#[test]
fn tif_str_matches_ibkr_format() {
    assert_eq!(tif_str(TimeInForce::Gtd), "GTD");
    assert_eq!(tif_str(TimeInForce::Ioc), "IOC");
}

#[test]
fn format_gtd_matches_python_pattern() {
    let seconds = chrono::NaiveDate::from_ymd_opt(2026, 6, 26)
        .unwrap()
        .and_hms_opt(14, 30, 0)
        .unwrap()
        .and_utc()
        .timestamp();
    assert_eq!(format_gtd(seconds), Some("20260626 14:30:00 UTC".to_string()));
    assert_eq!(format_gtd(i64::MAX), None);
    assert_eq!(format_gtd(-1), Some("19691231 23:59:59 UTC".to_string()));
    assert_eq!(format_gtd(253_402_300_800), Some("+100000101 00:00:00 UTC".to_string()));
    assert_eq!(format_gtd(-62_167_219_201), Some("-00011231 23:59:59 UTC".to_string()));
}

#[test]
fn bridge_round_trips_command() {
    let result = dispatch(&Command::Positions);
    assert!(result.is_err(), "expected error during pre-Phase-2.4 stubs");
    match result {
        Err(BrokerError::Internal(msg)) => {
            let acceptable = msg.contains("not yet implemented")
                || msg.contains("bridge thread is gone")
                || msg.contains("dropped reply oneshot");
            assert!(acceptable, "unexpected Internal message: {msg}");
        }
        other => panic!("expected Internal error, got {:?}", other),
    }
    assert!(dispatch(&Command::Shutdown).is_ok());
}

#[test]
fn order_status_terminal_helper() {
    assert!(OrderStatus::Filled.is_terminal());
    assert!(OrderStatus::Cancelled.is_terminal());
    assert!(OrderStatus::Rejected.is_terminal());
    assert!(!OrderStatus::Submitted.is_terminal());
    assert!(!OrderStatus::PendingSubmit.is_terminal());
}

#[test]
fn dates_that_cannot_be_read() {
    assert_eq!(parse_yyyymmdd("2026062"), None);
    assert_eq!(parse_yyyymmdd("20260231"), None);
    assert_eq!(parse_yyyymmdd("2026-1-1"), None);
    assert_eq!(parse_yyyymmdd("abcdefgh"), None);
    assert_eq!(parse_yyyymmdd("20240229 later"), Some(Date { year: 2024, month: 2, day: 29 }));
    assert_eq!(parse_yyyymmdd("+026+6+6"), Some(Date { year: 26, month: 6, day: 6 }));
}

#[test]
fn contracts_are_read() {
    let c = contract_from_py(&raw("FOP")).unwrap();
    assert_eq!(c.kind, ContractKind::Option);
    assert_eq!(c.instrument_id.0, 77);
    assert_eq!(c.expiry, Date { year: 2026, month: 5, day: 26 });
    assert_eq!(c.right, Some(Right::Put));
    assert_eq!(c.strike.unwrap().text, "5.65");
    assert_eq!(c.multiplier, num(1.0));
    assert_eq!(c.exchange, Exchange::Comex);
    assert_eq!(c.currency, Currency::Eur);
    let c = contract_from_py(&raw("FUT")).unwrap();
    assert!(c.strike.is_none() && c.right.is_none());
    match contract_from_py(&raw("STK")) {
        Err(BrokerError::Protocol { code, message }) => {
            assert_eq!(code, None);
            assert_eq!(message, "unsupported secType: STK");
        }
        other => panic!("unexpected: {other:?}"),
    }
    let mut spot = raw("FUT");
    spot.last_trade_date = String::new();
    assert_eq!(contract_from_py(&spot).unwrap().expiry, Date { year: 2099, month: 12, day: 31 });
}

#[test]
fn positions_and_fills_are_read() {
    let p = position_from_py(&raw("FUT"), num(-3.9), num(151_250.0)).unwrap();
    assert_eq!(p.quantity, -3);
    assert_eq!(p.avg_cost, num(151_250.0));
    let f = RawFill {
        contract: raw("FUT"),
        exec_id: "e1".to_string(),
        order_id: 12,
        shares: num(2.0),
        price: num(6.05),
        side: "bot".to_string(),
        commission: Some(num(f64::MAX)),
    };
    let g = fill_from_py(&f, 99).unwrap();
    assert_eq!((g.qty, g.side, g.timestamp_ns), (2, Side::Buy, 99));
    assert_eq!(g.order_id, OrderId(12));
    assert!(g.commission.is_none());
    let g = fill_from_py(&RawFill { commission: Some(num(1.25)), side: "SLD".to_string(), ..f }, 1).unwrap();
    assert_eq!(g.side, Side::Sell);
    assert_eq!(g.commission, Some(num(1.25)));
}

#[test]
fn account_rows_in_other_currencies_do_not_count() {
    let row = |tag: &str, value: f64, currency: &str| AccountRow {
        tag: tag.to_string(),
        value: num(value),
        currency: currency.to_string(),
    };
    let rows = vec![
        row("NetLiquidation", 1.0, "USD"),
        row("NetLiquidation", 2.0, "EUR"),
        row("MaintMarginReq", 3.0, "BASE"),
        row("InitMarginReq", 4.0, ""),
        row("BuyingPower", 5.0, "USD"),
        row("BuyingPower", 6.0, "USD"),
        row("RealizedPnL", -7.0, "USD"),
        row("Other", 8.0, "USD"),
    ];
    let a = account_snapshot_from_rows(&rows, 42);
    assert_eq!(a.net_liquidation, num(1.0));
    assert_eq!(a.maintenance_margin, num(3.0));
    assert_eq!(a.initial_margin, num(4.0));
    assert_eq!(a.buying_power, num(6.0));
    assert_eq!(a.realized_pnl_today, num(-7.0));
    assert_eq!(a.timestamp_ns, 42);
}

#[test]
fn names_are_written_and_read() {
    assert_eq!(format_exchange(Exchange::Other(3)), "SMART");
    assert_eq!(format_exchange(Exchange::Cbot), "CBOT");
    assert_eq!(parse_exchange("ecbot"), Exchange::Cbot);
    assert_eq!(parse_exchange("nowhere"), Exchange::Other(0));
    assert_eq!(format_currency(parse_currency("jpy")), "JPY");
    assert_eq!(parse_currency(""), Currency::Usd);
    assert_eq!(order_class_for(&OrderType::Market), "MarketOrder");
    assert_eq!(order_class_for(&OrderType::StopLimit { stop_price: Decimal::zero() }), "StopLimitOrder");
    assert_eq!(side_str(Side::Sell), "SELL");
    assert_eq!(parse_tif(""), TimeInForce::Day);
    assert_eq!(parse_tif("FOK"), TimeInForce::Fok);
    assert_eq!(parse_order_status("PreSubmitted"), OrderStatus::Submitted);
}

#[test]
fn bridge_settings_commands_and_errors() {
    let c = BridgeConfig::default();
    assert_eq!((c.gateway_port, c.client_id, c.poll_interval_ms), (4002, 0, 1));
    assert_eq!(Command::CancelOrder { id: OrderId(7) }.describe(), "CancelOrder(7)");
    assert_eq!(Command::RecentFills { since_ns: 5 }.describe(), "RecentFills(5)");
    assert_eq!(Command::ListChain.describe(), "ListChain");
    assert_eq!(BridgeError::PythonInit("x".to_string()).message(), "python init failed: x");
    assert_eq!(BridgeError::ThreadPanic.message(), "bridge thread panicked");
    assert_eq!(BridgeError::ChannelClosed.message(), "channel closed unexpectedly");
    match dispatch(&Command::ModifyOrder { id: OrderId(1) }) {
        Err(BrokerError::Internal(why)) => assert_eq!(why, "modify_order not yet implemented (phase 2.4)"),
        other => panic!("unexpected: {other:?}"),
    }
    match round_trip_error(RoundTrip::NotReplied) {
        BrokerError::Internal(why) => assert_eq!(why, "bridge dropped reply oneshot before responding"),
        other => panic!("unexpected: {other:?}"),
    }
    match round_trip_error(RoundTrip::NotSent) {
        BrokerError::Internal(why) => assert_eq!(why, "bridge thread is gone (channel closed)"),
        other => panic!("unexpected: {other:?}"),
    }
}
