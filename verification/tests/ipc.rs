use corsair::api::{
    AccountSnapshot, Contract, ContractKind, Currency, Decimal, Exchange, InstrumentId, OrderId, OrderStatus, OrderType,
    Right, Side, Tick, TickKind, TimeInForce,
};
use corsair::api::ConnectionState;
use corsair::dates::Date;
use corsair::double::Double;
use corsair::hedge::fanout::HedgeFanout;
use corsair::hedge::manager::{HedgeConfig, HedgeManager, HedgeMode};
use corsair::ipc::commands::{
    command_kind, micros_between, no_contract_row, plan_cancel, plan_modify, plan_place, report_modify, report_place,
    strict_ack_step, CallTimes, CancelOrderCmd, CommandKind, ModifyOrderCmd, PlaceOrderCmd, PlacePlan, StrictAckStep,
    TimingOutcome,
};
use corsair::ipc::events::{connection_name, instrument_label, side_name, status_name};
use corsair::ipc::risk_state::{risk_state, MarginShare};
use corsair::ipc::tick_wire::{encode_tick_into, encoded_tick, write_str, TickEvent};
use corsair::ipc::ticks::{TickCache, TickOut};
use corsair::ipc::IpcConfig;
use corsair::market_data::state::MarketDataState;
use corsair::runtime::RuntimeMode;
use corsair::subscriptions::setup::ContractBook;
use corsair::subscriptions::window::OptionLeg;
use serde_json::Value;

fn num(x: f64) -> Double {
    Double::from_bits(x.to_bits())
}

fn nanos(x: f64) -> i64 {
    (x * 1e9).round() as i64
}

fn decode(buf: &[u8]) -> Value {
    rmp_serde::from_slice(buf).expect("decode")
}

fn float_at(v: &Value, key: &str) -> Option<f64> {
    v.get(key).and_then(|x| x.as_f64())
}

fn whole_at(v: &Value, key: &str) -> Option<i64> {
    v.get(key).and_then(|x| x.as_i64())
}

#[test]
fn tick_round_trip_full() {
    let ev = TickEvent {
        ty: "tick".to_string(),
        strike: num(6.025),
        expiry: "20260526".to_string(),
        right: "C".to_string(),
        bid: Some(num(0.0345)),
        ask: Some(num(0.036)),
        bid_size: Some(5),
        ask_size: Some(7),
        ts_ns: 1_777_993_654_064_490_620,
        broker_recv_ns: 1_777_993_654_064_490_620,
        depth_bid_0: Some(num(0.0345)),
        depth_bid_1: Some(num(0.034)),
        depth_ask_0: Some(num(0.036)),
        depth_ask_1: Some(num(0.0365)),
    };
    let mut buf = Vec::new();
    encode_tick_into(&ev, &mut buf);
    let d = decode(&buf);
    assert_eq!(d["type"], "tick");
    assert_eq!(float_at(&d, "strike"), Some(6.025));
    assert_eq!(d["expiry"], "20260526");
    assert_eq!(d["right"], "C");
    assert_eq!(float_at(&d, "bid"), Some(0.0345));
    assert_eq!(float_at(&d, "ask"), Some(0.036));
    assert_eq!(whole_at(&d, "bid_size"), Some(5));
    assert_eq!(whole_at(&d, "ask_size"), Some(7));
    assert_eq!(d["ts_ns"].as_u64(), Some(1_777_993_654_064_490_620));
    assert_eq!(d["broker_recv_ns"].as_u64(), Some(1_777_993_654_064_490_620));
    assert_eq!(float_at(&d, "depth_bid_0"), Some(0.0345));
    assert_eq!(float_at(&d, "depth_bid_1"), Some(0.034));
    assert_eq!(float_at(&d, "depth_ask_0"), Some(0.036));
    assert_eq!(float_at(&d, "depth_ask_1"), Some(0.0365));
    assert_eq!(d.as_object().unwrap().len(), 14);
}

#[test]
fn tick_round_trip_no_depth() {
    let ev = TickEvent {
        ty: "tick".to_string(),
        strike: num(6.0),
        expiry: "20260526".to_string(),
        right: "P".to_string(),
        bid: None,
        ask: Some(num(0.1)),
        bid_size: None,
        ask_size: Some(10),
        ts_ns: 0,
        broker_recv_ns: 0,
        depth_bid_0: None,
        depth_bid_1: None,
        depth_ask_0: None,
        depth_ask_1: None,
    };
    let mut buf = Vec::new();
    encode_tick_into(&ev, &mut buf);
    let d = decode(&buf);
    assert_eq!(float_at(&d, "bid"), None);
    assert!(d["bid"].is_null());
    assert_eq!(float_at(&d, "ask"), Some(0.1));
    assert_eq!(whole_at(&d, "bid_size"), None);
    assert_eq!(whole_at(&d, "ask_size"), Some(10));
    assert!(d.get("depth_bid_0").is_none());
    assert!(d.get("depth_bid_1").is_none());
    assert!(d.get("depth_ask_0").is_none());
    assert!(d.get("depth_ask_1").is_none());
    assert_eq!(encoded_tick(&ev), buf);
}

fn bare_tick(strike: f64, expiry: &str, right: &str, ts: u64) -> TickEvent {
    TickEvent {
        ty: "tick".to_string(),
        strike: num(strike),
        expiry: expiry.to_string(),
        right: right.to_string(),
        bid: None,
        ask: None,
        bid_size: None,
        ask_size: None,
        ts_ns: ts,
        broker_recv_ns: ts,
        depth_bid_0: None,
        depth_bid_1: None,
        depth_ask_0: None,
        depth_ask_1: None,
    }
}

#[test]
fn tick_buf_reuse_clears() {
    let mut buf = Vec::new();
    let mut first = bare_tick(1.0, "AAAA", "C", 1);
    first.bid = Some(num(0.5));
    first.ask = Some(num(0.6));
    first.bid_size = Some(1);
    first.ask_size = Some(1);
    encode_tick_into(&first, &mut buf);
    buf.clear();
    encode_tick_into(&bare_tick(2.0, "BBBB", "P", 999), &mut buf);
    let d = decode(&buf);
    assert_eq!(float_at(&d, "strike"), Some(2.0));
    assert_eq!(d["expiry"], "BBBB");
    assert_eq!(float_at(&d, "bid"), None);
}

#[test]
fn negative_sizes_and_long_texts_are_encoded() {
    let long = "x".repeat(300);
    let mut ev = bare_tick(1.0, &long, &"y".repeat(40), 1);
    ev.bid_size = Some(-5);
    ev.ask_size = Some(i32::MIN);
    let d = decode(&encoded_tick(&ev));
    assert_eq!(whole_at(&d, "bid_size"), Some(-5));
    assert_eq!(whole_at(&d, "ask_size"), Some(i32::MIN as i64));
    assert_eq!(d["expiry"].as_str().unwrap(), long);
    let mut buf = Vec::new();
    write_str(&mut buf, &"z".repeat(70_000));
    assert_eq!(&buf[..5], &[0xdb, 0, 1, 0x11, 0x70]);
}

fn exp() -> Date {
    Date { year: 2026, month: 5, day: 26 }
}

fn market() -> MarketDataState {
    let mut md = MarketDataState::new();
    md.register_underlying("HG", InstrumentId(50));
    md.register_option("HG", nanos(6.05), exp(), Right::Call, InstrumentId(100));
    md
}

fn tick(id: u64, kind: TickKind, price: Option<f64>, size: Option<u64>, ts: u64) -> Tick {
    Tick { instrument_id: InstrumentId(id), kind, price: price.map(num), size, timestamp_ns: ts }
}

fn quote(out: Option<TickOut>) -> TickEvent {
    match out {
        Some(TickOut::Quote(ev)) => ev,
        other => panic!("unexpected: {other:?}"),
    }
}

#[test]
fn ticks_are_consolidated_per_option() {
    let md = market();
    let mut cache = TickCache::new();
    let ev = quote(cache.publish(&md, &tick(100, TickKind::Bid, Some(0.03), None, 7), true));
    assert_eq!((ev.ty.as_str(), ev.expiry.as_str(), ev.right.as_str()), ("tick", "20260526", "C"));
    assert_eq!(ev.strike, num(6.05));
    assert_eq!((ev.bid, ev.ask), (Some(num(0.03)), None));
    assert_eq!((ev.ts_ns, ev.broker_recv_ns, ev.depth_bid_0), (7, 7, None));
    let ev = quote(cache.publish(&md, &tick(100, TickKind::AskSize, None, Some(9), 8), true));
    assert_eq!((ev.bid, ev.ask_size), (Some(num(0.03)), Some(9)));
    assert!(cache.publish(&md, &tick(100, TickKind::Last, Some(0.03), None, 9), true).is_none());
    assert!(cache.publish(&md, &tick(999, TickKind::Bid, Some(0.03), None, 9), true).is_none());
    let d = decode(&encoded_tick(&ev));
    assert_eq!(float_at(&d, "bid"), Some(0.03));
    assert_eq!(float_at(&d, "strike"), Some(6.05));
}

#[test]
fn underlying_ticks_carry_only_a_price() {
    let md = market();
    let mut cache = TickCache::new();
    match cache.publish(&md, &tick(50, TickKind::Last, Some(6.01), None, 3), true) {
        Some(TickOut::Underlying { price, ts_ns }) => assert_eq!((price, ts_ns), (num(6.01), 3)),
        other => panic!("unexpected: {other:?}"),
    }
    assert!(cache.publish(&md, &tick(50, TickKind::Bid, Some(-1.0), None, 3), true).is_none());
    assert!(cache.publish(&md, &tick(50, TickKind::BidSize, None, Some(4), 3), true).is_none());
}

#[test]
fn first_quote_is_seeded_from_the_book() {
    let mut md = market();
    md.update_ask(InstrumentId(100), nanos(0.05), 6, 1);
    md.apply_depth(InstrumentId(100), true, 0, 0, nanos(0.02), 1, 2);
    let mut cache = TickCache::new();
    let ev = quote(cache.publish(&md, &tick(100, TickKind::Bid, Some(0.03), None, 7), true));
    assert_eq!((ev.ask, ev.ask_size), (Some(num(0.05)), Some(6)));
    assert_eq!((ev.depth_bid_0, ev.depth_ask_0), (Some(num(0.02)), None));
    let mut cold = TickCache::new();
    let ev = quote(cold.publish(&md, &tick(100, TickKind::Bid, Some(0.03), None, 7), false));
    assert_eq!((ev.ask, ev.ask_size), (None, None));
}

fn option_contract(id: u64) -> Contract {
    Contract {
        instrument_id: InstrumentId(id),
        kind: ContractKind::Option,
        symbol: "HXE".to_string(),
        local_symbol: "HXEK6 C605".to_string(),
        expiry: exp(),
        strike: Some(Decimal { value: num(6.05), text: "6.05".to_string() }),
        right: Some(Right::Call),
        multiplier: num(25_000.0),
        exchange: Exchange::Comex,
        currency: Currency::Usd,
        trading_class: "HXE".to_string(),
    }
}

fn place(right: &str, side: &str, tif: &str) -> PlaceOrderCmd {
    PlaceOrderCmd {
        strike: num(6.05),
        expiry: "20260526".to_string(),
        right: right.to_string(),
        side: side.to_string(),
        qty: 2,
        price: Decimal { value: num(0.0285), text: "0.0285".to_string() },
        client_order_ref: None,
        order_type: "limit".to_string(),
        tif: tif.to_string(),
        gtd_seconds: None,
        ts_ns: Some(500),
        triggering_tick_broker_recv_ns: None,
    }
}

fn known_contracts() -> ContractBook {
    let mut md = MarketDataState::new();
    let mut book = ContractBook::new();
    let leg = OptionLeg { expiry: exp(), strike: nanos(6.05), right: Right::Call };
    let s = book.accept(&mut md, "HG", &leg, &option_contract(100));
    assert_eq!(s.instrument_id, InstrumentId(100));
    assert_eq!(md.option_count(), 1);
    book
}

#[test]
fn place_commands_become_orders() {
    let book = known_contracts();
    match plan_place(&place("call", "BUY", "GTD"), RuntimeMode::Live, &book.by_key, "DU1", 1_000) {
        PlacePlan::Place(req) => {
            assert_eq!(req.contract.instrument_id, InstrumentId(100));
            assert_eq!((req.side, req.qty, req.tif), (Side::Buy, 2, TimeInForce::Gtd));
            assert!(matches!(req.order_type, OrderType::Limit));
            assert_eq!(req.gtd_until_utc, Some(1_030));
            assert_eq!(req.account, Some("DU1".to_string()));
            assert_eq!(req.client_order_ref, "");
            assert_eq!(req.price.unwrap().text, "0.0285");
        }
        other => panic!("unexpected: {other:?}"),
    }
    let mut cmd = place("C", "SELL", "IOC");
    cmd.qty = -1;
    cmd.order_type = "market".to_string();
    cmd.gtd_seconds = Some(5);
    match plan_place(&cmd, RuntimeMode::Live, &book.by_key, "", 1_000) {
        PlacePlan::Place(req) => {
            assert_eq!((req.side, req.qty, req.tif), (Side::Sell, 0, TimeInForce::Ioc));
            assert!(matches!(req.order_type, OrderType::Market));
            assert_eq!(req.gtd_until_utc, None);
        }
        other => panic!("unexpected: {other:?}"),
    }
}

#[test]
fn place_commands_can_come_to_nothing() {
    let book = known_contracts();
    assert!(matches!(
        plan_place(&place("C", "BUY", "GTD"), RuntimeMode::Shadow, &book.by_key, "", 0),
        PlacePlan::Shadow
    ));
    assert!(matches!(
        plan_place(&place("P", "BUY", "GTD"), RuntimeMode::Live, &book.by_key, "", 0),
        PlacePlan::NoContract
    ));
    let mut cmd = place("C", "BUY", "GTD");
    cmd.strike = num(6.05004);
    assert!(matches!(plan_place(&cmd, RuntimeMode::Live, &book.by_key, "", 0), PlacePlan::Place(_)));
    cmd.strike = num(6.0501);
    assert!(matches!(plan_place(&cmd, RuntimeMode::Live, &book.by_key, "", 0), PlacePlan::NoContract));
    let row = no_contract_row(&cmd, 11, 12);
    assert_eq!((row.schema, row.outcome.label(), row.ts_ns), ("wire_timing/v1", "no_contract", 12));
    assert!(row.sent.is_none());
}

fn times(precise: Option<(u64, u64)>) -> CallTimes {
    CallTimes { recv_ns: 1_000_000, send_marker_ns: 1_050_000, ack_marker_ns: 31_050_000, precise }
}

#[test]
fn accepted_orders_are_timed_and_answered() {
    let mut cmd = place("C", "BUY", "GTD");
    cmd.triggering_tick_broker_recv_ns = Some(950_000);
    let r = report_place(&cmd, Some(OrderId(77)), times(Some((1_060_000, 30_000_000))));
    assert_eq!((r.ttt_us, r.rtt_us), (Some(100), Some(30_000)));
    assert_eq!(r.row.outcome, TimingOutcome::Ack);
    assert_eq!(r.row.ts_ns, 30_000_000);
    assert_eq!(r.row.sent.unwrap().broker_order_send_ns, 1_060_000);
    let ack = r.ack.unwrap();
    assert_eq!((ack.order_id, ack.expiry.as_str(), ack.side.as_str()), (77, "20260526", "BUY"));
    let r = report_place(&cmd, None, times(None));
    assert!(r.ack.is_none() && r.ttt_us.is_none() && r.rtt_us.is_none());
    assert_eq!((r.row.outcome.label(), r.row.ts_ns), ("rejected", 31_050_000));
    assert!(!r.row.sent.unwrap().send_ns_precise);
    assert_eq!(micros_between(10, 5), 0);
}

#[test]
fn changes_and_cancels() {
    let cmd = ModifyOrderCmd {
        order_id: 5,
        price: None,
        qty: Some(3),
        gtd_seconds: Some(20),
        ts_ns: None,
        triggering_tick_broker_recv_ns: None,
    };
    assert!(plan_modify(&cmd, RuntimeMode::Shadow, 0).is_none());
    let req = plan_modify(&cmd, RuntimeMode::Live, 100).unwrap();
    assert_eq!((req.qty, req.gtd_until_utc), (Some(3), Some(120)));
    let r = report_modify(&cmd, true, Some(41_050_000), times(None));
    assert_eq!((r.ttt_us, r.rtt_us, r.await_strict_ack), (Some(50), Some(40_000), false));
    assert_eq!(r.row.order_id, Some(5));
    let r = report_modify(&cmd, true, None, times(None));
    assert!(r.await_strict_ack && r.rtt_us.is_none());
    let r = report_modify(&cmd, false, None, times(None));
    assert!(!r.await_strict_ack && r.ttt_us.is_none());
    assert_eq!(strict_ack_step(Some(3_000), 1_000, 0), StrictAckStep::Sample(2));
    assert_eq!(strict_ack_step(None, 1_000, 980), StrictAckStep::Wait);
    assert_eq!(strict_ack_step(None, 1_000, 1_000), StrictAckStep::GiveUp);
    assert_eq!(plan_cancel(&CancelOrderCmd { order_id: 9 }, RuntimeMode::Live), Some(OrderId(9)));
    assert_eq!(plan_cancel(&CancelOrderCmd { order_id: 9 }, RuntimeMode::Shadow), None);
}

#[test]
fn commands_are_told_apart() {
    assert_eq!(command_kind("place_order"), CommandKind::Place);
    assert_eq!(command_kind("cancel_order"), CommandKind::Cancel);
    assert_eq!(command_kind("modify_order"), CommandKind::Modify);
    assert_eq!(command_kind("telemetry"), CommandKind::Telemetry);
    assert_eq!(command_kind("welcome"), CommandKind::Welcome);
    assert_eq!(command_kind("hello"), CommandKind::Unknown);
}

#[test]
fn labels_and_names() {
    let md = market();
    assert_eq!(instrument_label(&md, InstrumentId(100)), "HXE260526 C605");
    assert_eq!(instrument_label(&md, InstrumentId(50)), "HG hedge");
    assert_eq!(instrument_label(&md, InstrumentId(7)), "iid=7");
    assert_eq!(status_name(OrderStatus::PendingCancel), "PendingCancel");
    assert_eq!(connection_name(ConnectionState::LostConnection), "LostConnection");
    assert_eq!(side_name(Side::Sell), "SELL");
    let c = IpcConfig::default();
    assert_eq!((c.base_path.as_str(), c.capacity), ("/app/data/corsair_ipc", 1 << 20));
}

fn hedges(now: u64) -> HedgeFanout {
    let cfg = |p: &str| HedgeConfig {
        product: p.to_string(),
        multiplier: 25_000_000_000_000,
        mode: HedgeMode::Execute,
        tolerance_deltas: 500_000_000,
        rebalance_on_fill: true,
        rebalance_cadence_ns: 0,
        include_in_daily_pnl: true,
        flatten_on_halt_enabled: true,
        ioc_tick_offset: 2,
        hedge_tick_size: 500_000,
        lockout_days: 30,
    };
    let mut fresh = HedgeManager::new(cfg("HG"));
    fresh.state.replace(-4, nanos(6.0), now);
    let mut stale = HedgeManager::new(cfg("ETH"));
    stale.state.replace(9, nanos(3000.0), 1);
    HedgeFanout::new(vec![fresh, stale])
}

#[test]
fn risk_state_fails_closed() {
    let now: u64 = 1_000_000_000_000;
    let account = AccountSnapshot {
        net_liquidation: num(0.0),
        maintenance_margin: num(90_000.0),
        initial_margin: num(0.0),
        buying_power: num(0.0),
        realized_pnl_today: num(0.0),
        timestamp_ns: now - 30_000_000_000,
    };
    let r = risk_state(nanos(1.5), &vec![3, -2], &hedges(now), &account, num(200_000.0), now);
    assert_eq!(r.hedge_delta, -4);
    assert_eq!(r.effective_delta, nanos(-2.5) as i128);
    assert_eq!(r.total_contracts, 5);
    assert_eq!(r.margin, MarginShare::Ratio { margin_usd: num(90_000.0), capital: num(200_000.0) });
    let r = risk_state(0, &vec![], &hedges(now), &account, num(200_000.0), now + 1);
    assert_eq!(r.margin, MarginShare::Blocked);
    let never = AccountSnapshot { timestamp_ns: 0, ..account };
    assert_eq!(risk_state(0, &vec![], &hedges(now), &never, num(1.0), 5).margin, MarginShare::Blocked);
    assert_eq!(risk_state(0, &vec![], &hedges(now), &account, num(0.0), now).margin, MarginShare::Unmeasured);
}
