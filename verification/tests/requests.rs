use corsair::api::Decimal;
use corsair::place_template::{place_order_fast, trailing_bytes, ContractTemplate};
use corsair::requests::{
    cancel_mkt_data, cancel_order, cancel_positions, encode_handshake, place_order, req_account_updates,
    req_all_open_orders, req_auto_open_orders, req_ids, req_managed_accounts, req_open_orders, req_positions,
    start_api, ContractRequest, NativeClientConfig, PlaceOrderParams,
};

fn sample_contract() -> ContractRequest {
    ContractRequest {
        con_id: 12345,
        symbol: "HG".to_string(),
        sec_type: "FOP".to_string(),
        last_trade_date: "20260526".to_string(),
        strike: "6.05".to_string(),
        right: "C".to_string(),
        multiplier: "25000".to_string(),
        exchange: "COMEX".to_string(),
        primary_exchange: String::new(),
        currency: "USD".to_string(),
        local_symbol: "HXEK6 P5950".to_string(),
        trading_class: "HXE".to_string(),
    }
}

fn sample_params() -> PlaceOrderParams {
    PlaceOrderParams {
        action: "SELL".to_string(),
        total_quantity: "1".to_string(),
        order_type: "LMT".to_string(),
        lmt_price: "0.0285".to_string(),
        aux_price: Decimal::zero(),
        tif: "GTD".to_string(),
        good_till_date: "20260526 16:00:00 UTC".to_string(),
        account: "DUP553657".to_string(),
        order_ref: "k123".to_string(),
        outside_rth: false,
    }
}

fn fields_of(frame: &[u8]) -> Vec<String> {
    let s = std::str::from_utf8(&frame[4..]).unwrap();
    let mut fields: Vec<String> = s.split('\0').map(|f| f.to_string()).collect();
    fields.pop();
    fields
}

#[test]
fn fast_template_matches_legacy_byte_for_byte() {
    let c = sample_contract();
    let p = sample_params();
    let order_id = 42;
    let template = ContractTemplate::from_contract(&c);
    let fast = place_order_fast(order_id, &template, &p);
    let slow = place_order(order_id, &c, &p);
    assert_eq!(fast, slow, "fast template encoder diverged from legacy");
}

#[test]
fn template_idempotent() {
    let c = sample_contract();
    let t1 = ContractTemplate::from_contract(&c);
    let t2 = ContractTemplate::from_contract(&c);
    assert_eq!(t1.as_bytes(), t2.as_bytes());
}

#[test]
fn trailing_bytes_singleton() {
    let a = trailing_bytes();
    let b = trailing_bytes();
    assert!(std::ptr::eq(a, b), "trailing should be cached singleton");
}

#[test]
fn req_account_updates_field_order() {
    let bytes = req_account_updates(true, "DUP553657");
    let payload = &bytes[4..];
    let s = std::str::from_utf8(payload).unwrap();
    let fields: Vec<&str> = s.split('\0').filter(|f| !f.is_empty()).collect();
    assert_eq!(fields, vec!["6", "2", "1", "DUP553657"]);
}

#[test]
fn req_positions_one_byte_payload() {
    let bytes = req_positions();
    assert_eq!(&bytes[..4], &[0, 0, 0, 5]);
    assert_eq!(&bytes[4..], b"61\x001\x00");
}

#[test]
fn cancel_order_includes_manual_time_field() {
    let bytes = cancel_order(42);
    let payload = &bytes[4..];
    let s = std::str::from_utf8(payload).unwrap();
    let fields: Vec<&str> = s.split('\0').collect();
    assert_eq!(fields.len(), 5);
    assert_eq!(fields[0], "4");
    assert_eq!(fields[1], "1");
    assert_eq!(fields[2], "42");
    assert_eq!(fields[3], "");
}

#[test]
fn place_order_starts_with_type_id_and_orderid() {
    let mut c = ContractRequest::default();
    c.con_id = 712565973;
    c.symbol = "HG".to_string();
    c.sec_type = "FUT".to_string();
    c.last_trade_date = "20260626".to_string();
    c.multiplier = "25000".to_string();
    c.exchange = "COMEX".to_string();
    c.currency = "USD".to_string();
    c.local_symbol = "HGM6".to_string();
    c.trading_class = "HG".to_string();
    let p = PlaceOrderParams {
        action: "BUY".to_string(),
        total_quantity: "1".to_string(),
        order_type: "LMT".to_string(),
        lmt_price: "6.05".to_string(),
        aux_price: Decimal::zero(),
        tif: "GTD".to_string(),
        good_till_date: "20260626 14:30:00 UTC".to_string(),
        account: "DUP553657".to_string(),
        order_ref: "test".to_string(),
        outside_rth: false,
    };
    let bytes = place_order(123, &c, &p);
    let payload = &bytes[4..];
    let s = std::str::from_utf8(payload).unwrap();
    let fields: Vec<&str> = s.split('\0').collect();
    assert_eq!(fields[0], "3");
    assert_eq!(fields[1], "123");
    assert_eq!(fields[2], "712565973");
    assert!(fields.iter().any(|&f| f == "BUY"));
    assert!(fields.iter().any(|&f| f == "LMT"));
    assert!(fields.iter().any(|&f| f == "GTD"));
}

#[test]
fn config_default_sane() {
    let c = NativeClientConfig::default();
    assert_eq!(c.port, 4002);
    assert_eq!(c.client_id, 0);
    assert_eq!(c.connect_timeout_ms, 10_000);
    assert_eq!(c.handshake_timeout_ms, 5_000);
    assert_eq!(c.host, "127.0.0.1");
}

#[test]
fn small_requests_have_their_fields() {
    assert_eq!(fields_of(&cancel_positions()), vec!["64", "1"]);
    assert_eq!(fields_of(&req_open_orders()), vec!["5", "1"]);
    assert_eq!(fields_of(&req_all_open_orders()), vec!["16", "1"]);
    assert_eq!(fields_of(&req_auto_open_orders(true)), vec!["15", "1", "1"]);
    assert_eq!(fields_of(&req_managed_accounts()), vec!["17", "1"]);
    assert_eq!(fields_of(&req_ids(1)), vec!["8", "1", "1"]);
    assert_eq!(fields_of(&cancel_mkt_data(9)), vec!["2", "2", "9"]);
    assert_eq!(fields_of(&start_api(3)), vec!["71", "2", "3", ""]);
}

#[test]
fn handshake_names_the_versions() {
    let bytes = encode_handshake(176, 176);
    assert_eq!(&bytes[..4], b"API\0");
    assert_eq!(&bytes[4..8], &[0, 0, 0, 9]);
    assert_eq!(&bytes[8..], b"v176..176");
}
