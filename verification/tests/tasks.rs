use corsair::api::{
    Contract, ContractKind, Currency, Decimal, Exchange, Fill, InstrumentId, OpenOrder, OrderId, OrderStatus, OrderType,
    Position, Right, Side, Tick, TickKind, TimeInForce,
};
use corsair::dates::Date;
use corsair::double::Double;
use corsair::hedge::fanout::HedgeFanout;
use corsair::hedge::manager::{HedgeConfig, HedgeFill, HedgeManager, HedgeMode};
use corsair::latency::LatencySamples;
use corsair::market_data::state::MarketDataState;
use corsair::portfolio::{futures_held, options_held, price_per_unit, OptionPosition, Portfolio};
use corsair::runtime::RuntimeMode;
use corsair::tasks::chain::{build_chain_payload, strike_text, ChainKey};
use corsair::tasks::fills::{
    after_option_fill, apply_hedge_fill, as_hedge_fill, effective_delta, hedge_after_fill, option_fill, route_fill,
    stop_reasons,
    FillAction, FillRoute, HedgeOrder,
};
use corsair::tasks::hedging::{
    place_hedge_order, rebalance_all, rebalance_product, reconcile_due, reconcile_hedges, seed_hedges, worst_per_product, HedgeSkip,
    ProductGreeks, RebalanceInput,
};
use corsair::tasks::periodic::{
    apply_tick, calibrates, cancel_all_resting, hist_summary, latency_snapshot, margin_legs, DailyRollover, SeenOrders,
};

fn num(x: f64) -> Double {
    Double::from_bits(x.to_bits())
}

fn nanos(x: f64) -> i64 {
    (x * 1e9).round() as i64
}

fn exp() -> Date {
    Date { year: 2026, month: 5, day: 26 }
}

fn contract(id: u64, kind: ContractKind, strike: Option<f64>, right: Option<Right>) -> Contract {
    Contract {
        instrument_id: InstrumentId(id),
        kind,
        symbol: "HG".to_string(),
        local_symbol: "HG".to_string(),
        expiry: exp(),
        strike: strike.map(|s| Decimal { value: num(s), text: format!("{s:?}") }),
        right,
        multiplier: num(25_000.0),
        exchange: Exchange::Comex,
        currency: Currency::Usd,
        trading_class: "HG".to_string(),
    }
}

fn broker_position(kind: ContractKind, strike: Option<f64>, qty: i32, cost: f64) -> Position {
    let right = if strike.is_some() { Some(Right::Call) } else { None };
    Position {
        contract: contract(1, kind, strike, right),
        quantity: qty,
        avg_cost: num(cost),
        realized_pnl: num(0.0),
        unrealized_pnl: num(0.0),
    }
}

fn open_order(id: u64, side: Side, price: f64, status: OrderStatus, remaining: u32) -> OpenOrder {
    OpenOrder {
        order_id: OrderId(id),
        contract: contract(100, ContractKind::Option, Some(6.05), Some(Right::Call)),
        side,
        qty: 1,
        order_type: OrderType::Limit,
        price: Some(Decimal { value: num(price), text: format!("{price:?}") }),
        tif: TimeInForce::Day,
        gtd_until_utc: None,
        client_order_ref: String::new(),
        status,
        filled_qty: 0,
        remaining_qty: remaining,
    }
}

fn market() -> MarketDataState {
    let mut md = MarketDataState::new();
    md.register_underlying("HG", InstrumentId(50));
    md.register_option("HG", nanos(6.05), exp(), Right::Call, InstrumentId(100));
    md.register_option("HG", nanos(6.05), exp(), Right::Put, InstrumentId(101));
    md.register_option("HG", nanos(5.5), Date { year: 2026, month: 4, day: 27 }, Right::Put, InstrumentId(102));
    md
}

fn products() -> Vec<String> {
    vec!["HG".to_string()]
}

fn manager(product: &str, mode: HedgeMode) -> HedgeManager {
    HedgeManager::new(HedgeConfig {
        product: product.to_string(),
        multiplier: 25_000_000_000_000,
        mode,
        tolerance_deltas: nanos(0.5) as i128,
        rebalance_on_fill: true,
        rebalance_cadence_ns: 0,
        include_in_daily_pnl: true,
        flatten_on_halt_enabled: true,
        ioc_tick_offset: 2,
        hedge_tick_size: nanos(0.0005),
        lockout_days: 30,
    })
}

fn held(strike: f64, qty: i32) -> OptionPosition {
    OptionPosition {
        product: "HG".to_string(),
        strike: nanos(strike),
        expiry: exp(),
        right: Right::Call,
        quantity: qty,
        avg_fill_price: nanos(0.03),
        multiplier: num(25_000.0),
    }
}

#[test]
fn the_chain_shows_market_orders_and_positions() {
    let mut md = market();
    md.update_last(InstrumentId(50), nanos(6.03), 1);
    md.update_bid(InstrumentId(100), nanos(0.030), 4, 1);
    md.update_ask(InstrumentId(100), nanos(0.034), 5, 1);
    md.apply_depth(InstrumentId(100), true, 0, 0, nanos(0.030), 1, 1);
    md.apply_depth(InstrumentId(100), true, 1, 0, nanos(0.028), 3, 1);
    let orders = vec![
        open_order(1, Side::Buy, 0.030, OrderStatus::Submitted, 1),
        open_order(2, Side::Sell, 0.036, OrderStatus::PendingSubmit, 1),
        open_order(3, Side::Sell, 0.040, OrderStatus::Cancelled, 0),
    ];
    let theos = vec![Some(nanos(0.031)), None, None];
    let c = build_chain_payload(&md, &products(), &vec![held(6.05, 7)], &orders, &theos);
    assert_eq!(c.atm_strike, nanos(6.05));
    assert_eq!(c.expiries, vec![Date { year: 2026, month: 4, day: 27 }, exp()]);
    assert_eq!(c.front_month_expiry, Some(Date { year: 2026, month: 4, day: 27 }));
    let block = c.blocks.get(&ChainKey { expiry: exp(), strike_key: 60_500 }).unwrap();
    let call = block.call.unwrap();
    assert_eq!((call.our_bid, call.bid_live), (Some(nanos(0.030)), true));
    assert_eq!((call.our_ask, call.ask_live), (Some(nanos(0.036)), false));
    assert_eq!((call.market_bid, call.raw_bid), (nanos(0.028), nanos(0.030)));
    assert_eq!(call.market_ask, nanos(0.034));
    assert_eq!((call.pos, call.theo), (7, Some(nanos(0.031))));
    let put = block.put.unwrap();
    assert_eq!((put.our_bid, put.our_ask, put.pos), (None, None, 0));
    let empty = build_chain_payload(&MarketDataState::new(), &products(), &vec![], &vec![], &vec![]);
    assert_eq!((empty.atm_strike, empty.front_month_expiry), (0, None));
}

#[test]
fn strikes_have_four_decimals() {
    assert_eq!(strike_text(60_500), "6.0500");
    assert_eq!(strike_text(7), "0.0007");
    assert_eq!(strike_text(-12_345), "-1.2345");
    assert_eq!(strike_text(30_000_000), "3000.0000");
}

#[test]
fn hedge_fills_go_to_one_manager() {
    let mut a = manager("HG", HedgeMode::Execute);
    a.set_hedge_contract(contract(987, ContractKind::Future, None, None));
    let b = manager("ETH", HedgeMode::Execute);
    let mut f = HedgeFanout::new(vec![b, a]);
    let fill = HedgeFill {
        instrument_id: InstrumentId(987),
        exec_id: "e".to_string(),
        side: Side::Sell,
        qty: 2,
        price: nanos(6.0),
    };
    assert!(apply_hedge_fill(&mut f, &fill, 5));
    assert_eq!((f.hedge_qty_for_product("HG"), f.hedge_qty_for_product("ETH")), (-2, 0));
    assert!(!apply_hedge_fill(&mut f, &fill, 6));
    assert_eq!(effective_delta(nanos(1.5), &f), nanos(-0.5) as i128);
}

fn fill(id: u64, side: Side) -> Fill {
    Fill {
        instrument_id: InstrumentId(id),
        order_id: OrderId(1),
        exec_id: "x".to_string(),
        side,
        qty: 3,
        price: num(0.03),
        timestamp_ns: 1,
        commission: None,
    }
}

#[test]
fn option_fills_are_recognized() {
    let md = market();
    let f = option_fill(&md, &products(), &fill(101, Side::Sell)).unwrap();
    assert_eq!((f.product.as_str(), f.strike, f.right, f.quantity), ("HG", nanos(6.05), Right::Put, -3));
    assert!(option_fill(&md, &products(), &fill(50, Side::Buy)).is_none());
    assert!(option_fill(&md, &vec!["ETH".to_string()], &fill(101, Side::Buy)).is_none());
}

#[test]
fn an_option_fill_hedges_at_once() {
    let mut f = HedgeFanout::new(vec![manager("HG", HedgeMode::Execute)]);
    let o = hedge_after_fill(&mut f, "HG", nanos(2.7), nanos(6.0), RuntimeMode::Live, 1).unwrap();
    assert_eq!((o.is_buy, o.qty, o.reason.as_str()), (false, 3, "fill"));
    assert!(hedge_after_fill(&mut f, "HG", nanos(2.7), nanos(6.0), RuntimeMode::Shadow, 1).is_none());
    assert!(hedge_after_fill(&mut f, "HG", nanos(0.2), nanos(6.0), RuntimeMode::Live, 1).is_none());
    assert!(hedge_after_fill(&mut f, "ETH", nanos(2.7), nanos(6.0), RuntimeMode::Live, 1).is_none());
}

#[test]
fn executions_are_routed_and_set_off_actions() {
    let md = market();
    let mut m = manager("HG", HedgeMode::Execute);
    m.set_hedge_contract(contract(987, ContractKind::Future, None, None));
    let mut f = HedgeFanout::new(vec![m]);
    assert!(matches!(route_fill(&mut f, &md, &products(), &fill(987, Side::Buy), 1), FillRoute::Hedge));
    assert_eq!(f.hedge_qty_for_product("HG"), 3);
    match route_fill(&mut f, &md, &products(), &fill(100, Side::Buy), 1) {
        FillRoute::Option(o) => assert_eq!((o.product.as_str(), o.quantity), ("HG", 3)),
        other => panic!("unexpected: {other:?}"),
    }
    assert!(matches!(route_fill(&mut f, &md, &products(), &fill(7, Side::Buy), 1), FillRoute::Unknown));
    let mut strange = fill(987, Side::Buy);
    strange.price = num(f64::NAN);
    assert_eq!((as_hedge_fill(&strange).qty, as_hedge_fill(&strange).price), (3, 0));
    assert!(matches!(route_fill(&mut f, &md, &products(), &strange, 1), FillRoute::Unknown));
    assert_eq!(stop_reasons(true, false), vec!["daily_halt_per_fill"]);
    assert_eq!(stop_reasons(true, true), vec!["daily_halt_per_fill", "delta_kill_per_fill"]);
    assert!(stop_reasons(false, false).is_empty());
    let actions = after_option_fill(&mut f, "HG", true, true, nanos(2.0), nanos(6.0), RuntimeMode::Live, 2);
    assert_eq!(actions.len(), 3);
    assert!(matches!(actions[0], FillAction::Stop("daily_halt_per_fill")));
    assert!(matches!(actions[1], FillAction::Stop("delta_kill_per_fill")));
    assert!(matches!(&actions[2], FillAction::Hedge(o) if !o.is_buy && o.qty == 5));
    let actions = after_option_fill(&mut f, "HG", false, false, nanos(2.0), nanos(6.0), RuntimeMode::Shadow, 2);
    assert!(actions.is_empty());
}

#[test]
fn hedge_orders_need_a_contract_and_a_price() {
    let mut m = manager("HG", HedgeMode::Execute);
    let order = HedgeOrder { is_buy: true, qty: 4, reason: "periodic".to_string() };
    let bare = HedgeFanout::new(vec![manager("HG", HedgeMode::Execute)]);
    assert_eq!(place_hedge_order(&bare, "ETH", &order, Some(1), None).unwrap_err(), HedgeSkip::NoManager);
    assert_eq!(place_hedge_order(&bare, "HG", &order, Some(1), None).unwrap_err(), HedgeSkip::NoContract);
    m.set_hedge_contract(contract(987, ContractKind::Future, None, None));
    let f = HedgeFanout::new(vec![m]);
    assert_eq!(place_hedge_order(&f, "HG", &order, None, None).unwrap_err(), HedgeSkip::NoPrice);
    let req = place_hedge_order(&f, "HG", &order, Some(nanos(6.0)), Some("DU1")).unwrap();
    assert!(matches!(req.order_type, OrderType::Market));
    assert_eq!((req.side, req.qty, req.tif), (Side::Buy, 4, TimeInForce::Ioc));
    assert_eq!(req.client_order_ref, "corsair_hedge_periodic");
    assert_eq!(req.account, Some("DU1".to_string()));
    assert!(req.price.is_none());
}

#[test]
fn hedges_follow_the_broker() {
    assert!(reconcile_due(4) && reconcile_due(8) && !reconcile_due(5));
    let mut f = HedgeFanout::new(vec![manager("HG", HedgeMode::Execute), manager("ETH", HedgeMode::Execute)]);
    let positions = vec![
        broker_position(ContractKind::Option, Some(6.05), 9, 750.0),
        broker_position(ContractKind::Future, None, -2, 151_250.0),
    ];
    reconcile_hedges(&mut f, &positions, 77);
    assert_eq!(f.hedge_qty_for_product("HG"), -2);
    assert_eq!(f.managers()[0].state().avg_entry_f, nanos(6.05));
    assert_eq!(f.managers()[1].state().last_update_ns, 77);
    let seeds = futures_held(&positions, &products());
    assert_eq!(seeds.len(), 1);
    assert_eq!((seeds[0].quantity, seeds[0].avg_entry_f), (-2, nanos(6.05)));
    assert_eq!(seed_hedges(&mut f, &seeds, 78), 0);
    let mut g = HedgeFanout::new(vec![manager("HG", HedgeMode::Execute)]);
    assert_eq!(seed_hedges(&mut g, &seeds, 78), 1);
    let input = RebalanceInput { product: "HG".to_string(), net_delta: nanos(3.0), forward: nanos(6.0) };
    assert!(rebalance_product(&mut g, &input, 100).is_some());
    let input = RebalanceInput { product: "XX".to_string(), net_delta: nanos(3.0), forward: nanos(6.0) };
    assert!(rebalance_product(&mut g, &input, 100).is_none());
    let inputs = vec![
        RebalanceInput { product: "XX".to_string(), net_delta: nanos(3.0), forward: nanos(6.0) },
        RebalanceInput { product: "HG".to_string(), net_delta: nanos(3.0), forward: nanos(6.0) },
    ];
    let actions = rebalance_all(&mut g, &inputs, 200);
    assert_eq!(actions.len(), 1);
    assert_eq!(actions[0].0, "HG");
}

#[test]
fn the_worst_product_counts() {
    let greek = |p: &str, d: f64, t: f64, v: f64| ProductGreeks {
        product: p.to_string(),
        net_delta: nanos(d),
        net_theta: nanos(t),
        net_vega: nanos(v),
    };
    let mut hg = manager("HG", HedgeMode::Execute);
    hg.state.replace(-4, nanos(6.0), 1);
    let f = HedgeFanout::new(vec![hg]);
    let greeks = vec![greek("HG", 5.0, -10.0, -30.0), greek("ETH", -2.0, -20.0, 25.0)];
    assert_eq!(
        worst_per_product(&greeks, &f, true),
        (nanos(-2.0) as i128, nanos(-20.0), nanos(-30.0))
    );
    assert_eq!(worst_per_product(&greeks, &f, false).0, nanos(5.0) as i128);
    assert_eq!(worst_per_product(&vec![], &f, true), (0, 0, 0));
}

#[test]
fn reconciling_takes_the_brokers_positions_over() {
    let mut p = Portfolio::new();
    p.replace_positions(vec![held(6.05, 2), held(6.10, -1)]);
    assert_eq!(p.reconcile(vec![held(6.10, -1), held(6.05, 2)]), 0);
    assert_eq!(p.positions[0].strike, nanos(6.05));
    assert_eq!(p.reconcile(vec![held(6.05, 3), held(6.15, 1)]), 3);
    assert_eq!(p.positions.len(), 2);
    assert_eq!(p.reconcile(vec![held(6.05, 3), held(6.15, 1)]), 0);
    let list = vec![
        broker_position(ContractKind::Option, Some(6.05), 3, 750.0),
        broker_position(ContractKind::Future, None, 1, 150_000.0),
        broker_position(ContractKind::Option, None, 4, 750.0),
    ];
    assert_eq!(p.reconcile_options_with_broker_positions(&list, &products()), 1);
    assert_eq!(p.positions.len(), 1);
    assert_eq!(p.positions[0].avg_fill_price, nanos(0.03));
    assert!(options_held(&list, &vec!["ETH".to_string()]).is_empty());
    assert_eq!(price_per_unit(num(750.0), num(25_000.0)), nanos(0.03));
    assert_eq!(price_per_unit(num(f64::NAN), num(25_000.0)), 0);
}

#[test]
fn ticks_update_the_market() {
    let mut md = market();
    let tick = |id: u64, kind: TickKind, price: Option<f64>, size: Option<u64>| Tick {
        instrument_id: InstrumentId(id),
        kind,
        price: price.map(num),
        size,
        timestamp_ns: 9,
    };
    apply_tick(&mut md, &tick(100, TickKind::Bid, Some(0.03), Some(2)));
    apply_tick(&mut md, &tick(100, TickKind::Ask, Some(-1.0), None));
    apply_tick(&mut md, &tick(100, TickKind::AskSize, None, Some(6)));
    apply_tick(&mut md, &tick(100, TickKind::OptionVolume, None, Some(8)));
    apply_tick(&mut md, &tick(100, TickKind::OptionOpenInterest, None, Some(9)));
    apply_tick(&mut md, &tick(100, TickKind::Volume, None, Some(10)));
    apply_tick(&mut md, &tick(50, TickKind::Last, Some(6.01), None));
    let t = md.option_by_iid(InstrumentId(100)).unwrap();
    assert_eq!((t.bid, t.bid_size, t.ask, t.ask_size), (nanos(0.03), 2, 0, 6));
    assert_eq!((t.volume, t.open_interest), (8, 9));
    assert_eq!(md.underlying_price("HG"), Some(nanos(6.01)));
    apply_tick(&mut md, &tick(100, TickKind::Bid, Some(f64::NAN), Some(7)));
    let t = md.option_by_iid(InstrumentId(100)).unwrap();
    assert_eq!((t.bid, t.bid_size), (nanos(0.03), 7));
    apply_tick(&mut md, &tick(100, TickKind::Bid, Some(f64::INFINITY), Some(8)));
    let t = md.option_by_iid(InstrumentId(100)).unwrap();
    assert_eq!((t.bid, t.bid_size), (i64::MAX, 8));
}

#[test]
fn stops_cancel_what_rests() {
    let orders = vec![
        open_order(1, Side::Buy, 0.03, OrderStatus::Submitted, 1),
        open_order(2, Side::Buy, 0.03, OrderStatus::Filled, 0),
        open_order(3, Side::Buy, 0.03, OrderStatus::Inactive, 2),
    ];
    assert_eq!(cancel_all_resting(&orders), vec![OrderId(1), OrderId(3)]);
    let mut seen = SeenOrders::new();
    assert!(!seen.apply_status(OrderId(1), OrderStatus::Submitted));
    assert!(seen.apply_status(OrderId(1), OrderStatus::Filled));
    assert!(!seen.apply_status(OrderId(1), OrderStatus::Submitted));
}

#[test]
fn the_session_ends_once_a_day() {
    let mut r = DailyRollover::new();
    let at = |m: u32, d: u32, h: u32, min: u32| {
        chrono::NaiveDate::from_ymd_opt(2026, m, d).unwrap().and_hms_opt(h, min, 0).unwrap().and_utc().timestamp()
    };
    assert!(!r.due_at(at(7, 1, 21, 59)));
    assert!(r.due_at(at(7, 1, 22, 0)));
    assert!(!r.due_at(at(7, 1, 22, 1)));
    assert!(!r.due_at(at(7, 2, 10, 0)));
    assert!(r.due_at(at(7, 2, 23, 30)));
    let mut winter = DailyRollover::new();
    assert!(!winter.due_at(at(1, 15, 22, 30)));
    assert!(winter.due_at(at(1, 15, 23, 0)));
}

#[test]
fn margins_are_computed_per_product() {
    let now = chrono::NaiveDate::from_ymd_opt(2026, 5, 26).unwrap().and_hms_opt(15, 0, 0).unwrap().and_utc().timestamp();
    let legs = margin_legs(&vec![held(6.05, 2), held(6.10, -1)], "HG", now as u64 * 1_000_000_000);
    assert_eq!(legs.len(), 2);
    assert_eq!((legs[0].seconds, legs[0].quantity), (3_600, 2));
    assert!(margin_legs(&vec![held(6.05, 2)], "HG", (now as u64 + 3_600) * 1_000_000_000).is_empty());
    assert!(margin_legs(&vec![held(6.05, 2)], "ETH", 0).is_empty());
    assert!(calibrates(num(1.0), num(2.0)));
    assert!(!calibrates(num(0.0), num(2.0)) && !calibrates(num(1.0), num(f64::NAN)));
}

#[test]
fn latencies_and_histograms_are_shown() {
    let mut s = LatencySamples::new();
    assert!(latency_snapshot(&s).is_none());
    for us in [30, 10, 20] {
        s.push_ttt(us);
    }
    s.push_modify_rtt(7);
    let l = latency_snapshot(&s).unwrap();
    assert_eq!(l.ttt_us, (3, Some(20), Some(30)));
    assert_eq!(l.place_rtt_us, (0, None, None));
    assert_eq!(l.amend_us, (1, Some(7), Some(7)));
    assert_eq!(hist_summary(&vec![(0, 3), (27, 1)]), "0:3 27:1");
    assert_eq!(hist_summary(&vec![]), "");
}
