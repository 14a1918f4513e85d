use corsair::api::{Contract, ContractKind, Currency, Decimal, Exchange, InstrumentId, Right, TickStreamHandle};
use corsair::config::ProductConfig;
use corsair::dates::Date;
use corsair::double::Double;
use corsair::market_data::state::MarketDataState;
use corsair::subscriptions::depth::{collect_candidates, Candidate, DepthRotator};
use corsair::subscriptions::setup::{
    begin_hedge, begin_underlying, front_contract, front_query, option_query, option_symbol_for, pick_option_expiry,
    price_wait, ContractBook, HedgeFeed, PriceWait,
};
use corsair::subscriptions::window::{
    generate_strikes, plan_subscriptions, recenter, round_to_increment, strike_window, subscribed_legs, OptionLeg,
};

fn num(x: f64) -> Double {
    Double::from_bits(x.to_bits())
}

fn nanos(x: f64) -> i64 {
    (x * 1e9).round() as i64
}

fn product(low: i32, high: i32) -> ProductConfig {
    ProductConfig {
        name: "HG".to_string(),
        multiplier: num(25_000.0),
        default_iv: num(0.3),
        quote_range_low: low,
        quote_range_high: high,
        strike_range_low: None,
        strike_range_high: None,
        strike_increment: num(0.05),
        enabled: true,
    }
}

fn day(month: u32, day: u32) -> Date {
    Date { year: 2026, month, day }
}

fn future(id: u64, expiry: Date) -> Contract {
    Contract {
        instrument_id: InstrumentId(id),
        kind: ContractKind::Future,
        symbol: "HG".to_string(),
        local_symbol: "HGK6".to_string(),
        expiry,
        strike: None,
        right: None,
        multiplier: num(25_000.0),
        exchange: Exchange::Comex,
        currency: Currency::Usd,
        trading_class: "HG".to_string(),
    }
}

fn leg(expiry: Date, strike: f64, right: Right) -> OptionLeg {
    OptionLeg { expiry, strike: nanos(strike), right }
}

#[test]
fn values_go_to_the_nearest_increment() {
    assert_eq!(round_to_increment(nanos(6.02), nanos(0.05)), nanos(6.0));
    assert_eq!(round_to_increment(nanos(6.03), nanos(0.05)), nanos(6.05));
    assert_eq!(round_to_increment(nanos(6.025), nanos(0.05)), nanos(6.05));
    assert_eq!(round_to_increment(nanos(-6.025), nanos(0.05)), nanos(-6.05));
    assert_eq!(round_to_increment(nanos(6.02), 0), nanos(6.02));
}

#[test]
fn strikes_surround_the_money() {
    let s = generate_strikes(nanos(6.0), &product(-2, 2));
    assert_eq!(s, vec![nanos(5.90), nanos(5.95), nanos(6.0), nanos(6.05), nanos(6.10)]);
    assert!(generate_strikes(nanos(6.0), &product(3, 2)).is_empty());
    let (atm, s) = strike_window(nanos(6.03), &product(0, 1)).unwrap();
    assert_eq!((atm, s), (nanos(6.05), vec![nanos(6.05), nanos(6.10)]));
    let mut flat = product(0, 1);
    flat.strike_increment = num(0.0);
    assert!(strike_window(nanos(6.0), &flat).is_none());
}

#[test]
fn strikes_reach_as_far_as_prices_do() {
    let mut wide = product(-1, 1);
    wide.strike_increment = num(1e9);
    let (atm, s) = strike_window(nanos(4.1e9), &wide).unwrap();
    assert_eq!((atm, s), (nanos(4e9), vec![nanos(3e9), nanos(4e9), nanos(5e9)]));
    assert!(strike_window(i64::MAX, &wide).is_none());
    let mut fine = product(0, 1);
    fine.strike_increment = num(1e-9);
    let (atm, s) = strike_window(7, &fine).unwrap();
    assert_eq!((atm, s), (7, vec![7, 8, 9]));
}

#[test]
fn plans_join_the_grid_and_positions() {
    let held = vec![leg(day(5, 26), 6.0, Right::Call), leg(day(6, 25), 5.5, Right::Put), leg(day(6, 25), 5.5, Right::Put)];
    let plan = plan_subscriptions(day(5, 26), &vec![nanos(6.0), nanos(6.05)], &held);
    assert_eq!(
        plan,
        vec![
            leg(day(5, 26), 6.0, Right::Call),
            leg(day(5, 26), 6.0, Right::Put),
            leg(day(5, 26), 6.05, Right::Call),
            leg(day(5, 26), 6.05, Right::Put),
            leg(day(6, 25), 5.5, Right::Put),
        ]
    );
}

#[test]
fn recentering_adds_what_is_missing() {
    let have = vec![leg(day(6, 25), 6.0, Right::Call), leg(day(5, 26), 6.0, Right::Put)];
    let r = recenter(Some(nanos(6.04)), &product(-1, 0), None, &have).unwrap();
    assert_eq!((r.expiry, r.atm), (day(5, 26), nanos(6.05)));
    assert_eq!(
        r.missing,
        vec![
            leg(day(5, 26), 6.0, Right::Call),
            leg(day(5, 26), 6.05, Right::Call),
            leg(day(5, 26), 6.05, Right::Put),
        ]
    );
    let mut all = have.clone();
    all.extend(r.missing);
    assert!(recenter(Some(nanos(6.04)), &product(-1, 0), Some(day(5, 26)), &all).unwrap().missing.is_empty());
    assert!(recenter(None, &product(-1, 0), None, &have).is_none());
    assert!(recenter(Some(0), &product(-1, 0), None, &have).is_none());
    assert!(recenter(Some(nanos(6.0)), &product(-1, 0), None, &vec![]).is_none());
}

#[test]
fn the_front_future_expires_first() {
    let chain = vec![future(1, day(7, 29)), future(2, day(5, 27)), future(3, day(5, 27))];
    assert_eq!(front_contract("HG", &chain).unwrap().instrument_id, InstrumentId(2));
    assert_eq!(front_contract("HG", &vec![]).unwrap_err(), "no futures in chain for HG");
    let q = front_query("HG", day(5, 1));
    assert_eq!(q.min_expiry, Some(day(5, 1)));
    assert_eq!(q.kind, Some(ContractKind::Future));
}

#[test]
fn options_end_the_day_before() {
    assert_eq!(pick_option_expiry(&future(1, day(5, 27))), day(5, 26));
    assert_eq!(pick_option_expiry(&future(1, day(3, 1))), day(2, 28));
    assert_eq!(
        pick_option_expiry(&future(1, Date { year: 2024, month: 3, day: 1 })),
        Date { year: 2024, month: 2, day: 29 }
    );
    assert_eq!(pick_option_expiry(&future(1, day(1, 1))), Date { year: 2025, month: 12, day: 31 });
}

#[test]
fn products_are_brought_up() {
    let mut md = MarketDataState::new();
    let und = future(50, day(5, 27));
    let s = begin_underlying(&mut md, "HG", &und);
    assert_eq!(s.instrument_id, InstrumentId(50));
    assert_eq!(md.product_for_underlying(InstrumentId(50)), Some("HG".to_string()));
    assert!(matches!(begin_hedge(&mut md, "HG", None, &und), HedgeFeed::Unresolved));
    assert!(matches!(begin_hedge(&mut md, "HG", Some(&und), &und), HedgeFeed::Shared));
    match begin_hedge(&mut md, "HG", Some(&future(60, day(6, 26))), &und) {
        HedgeFeed::Own(s) => assert_eq!(s.instrument_id, InstrumentId(60)),
        other => panic!("unexpected: {other:?}"),
    }
    assert_eq!(md.product_for_hedge_underlying(InstrumentId(60)), Some("HG".to_string()));
    assert_eq!(price_wait(None, 0), PriceWait::Wait);
    assert_eq!(price_wait(Some(0), 0), PriceWait::Wait);
    assert_eq!(price_wait(Some(5), 9_999), PriceWait::Price(5));
    assert_eq!(price_wait(Some(5), 10_000), PriceWait::GiveUp);
}

#[test]
fn options_are_asked_for_by_their_symbol() {
    let p = product(0, 0);
    assert_eq!(option_symbol_for(&p), "HXE");
    let mut other = product(0, 0);
    other.name = "ETH".to_string();
    assert_eq!(option_symbol_for(&other), "ETH");
    let q = option_query(&p, &leg(day(5, 26), 6.0, Right::Put), Decimal { value: num(6.0), text: "6.0".to_string() });
    assert_eq!((q.symbol.as_str(), q.right, q.exchange), ("HXE", Right::Put, Exchange::Comex));
    assert_eq!(q.multiplier, num(25_000.0));
}

#[test]
fn accepted_contracts_are_found() {
    let mut md = MarketDataState::new();
    let mut book = ContractBook::new();
    book.accept(&mut md, "HG", &leg(day(5, 26), 6.0, Right::Put), &future(7, day(5, 26)));
    assert!(book.qualified.contains_key(&7));
    assert_eq!(subscribed_legs(&md, "HG"), vec![leg(day(5, 26), 6.0, Right::Put)]);
    assert!(subscribed_legs(&md, "ETH").is_empty());
}

fn candidates(n: u64) -> Vec<Candidate> {
    (0..n).map(|i| Candidate { distance: (n - i) * 10, instrument: i }).collect()
}

#[test]
fn candidates_need_a_quote_and_a_contract() {
    let mut md = MarketDataState::new();
    let mut book = ContractBook::new();
    md.register_underlying("HG", InstrumentId(50));
    for (id, strike) in [(1u64, 6.0), (2, 6.1), (3, 6.2)] {
        book.accept(&mut md, "HG", &leg(day(5, 26), strike, Right::Call), &future(id, day(5, 26)));
    }
    md.register_option("HG", nanos(6.3), day(5, 26), Right::Call, InstrumentId(4));
    md.update_bid(InstrumentId(1), nanos(0.1), 1, 1);
    md.update_ask(InstrumentId(3), nanos(0.1), 1, 1);
    md.update_ask(InstrumentId(4), nanos(0.1), 1, 1);
    let products = vec!["HG".to_string(), "ETH".to_string()];
    assert!(collect_candidates(&md, &products, &book.qualified).is_empty());
    md.update_last(InstrumentId(50), nanos(6.15), 1);
    assert_eq!(
        collect_candidates(&md, &products, &book.qualified),
        vec![
            Candidate { distance: nanos(0.15) as u64, instrument: 1 },
            Candidate { distance: nanos(0.05) as u64, instrument: 3 },
        ]
    );
}

#[test]
fn the_rotator_keeps_the_nearest_and_turns_the_rest() {
    let mut r = DepthRotator::new();
    let c = candidates(8);
    let mut seen = Vec::new();
    for round in 0..2 {
        let turn = r.turn(&c);
        if round == 0 {
            assert_eq!(turn.subscribe.iter().map(|i| i.0).collect::<Vec<_>>(), vec![7, 6, 5, 4, 3]);
            assert!(turn.cancel.is_empty());
        } else {
            assert_eq!(turn.subscribe.iter().map(|i| i.0).collect::<Vec<_>>(), vec![2, 1, 0]);
            assert_eq!(turn.cancel, vec![TickStreamHandle(105), TickStreamHandle(104), TickStreamHandle(103)]);
        }
        for id in turn.subscribe {
            seen.push(id.0);
            assert!(!r.is_active(id.0));
            r.subscribed(id, TickStreamHandle(100 + id.0));
        }
        assert_eq!(r.active.len(), 5);
        assert!(r.is_active(7) && r.is_active(6));
    }
    seen.sort();
    assert_eq!(seen, vec![0, 1, 2, 3, 4, 5, 6, 7]);
    let turn = r.turn(&vec![]);
    assert_eq!(turn.cancel.len(), 5);
    assert!(turn.subscribe.is_empty() && r.active.is_empty());
}

#[test]
fn equally_near_candidates_keep_their_order() {
    let mut r = DepthRotator::new();
    let c = vec![
        Candidate { distance: 5, instrument: 1 },
        Candidate { distance: 5, instrument: 2 },
        Candidate { distance: 1, instrument: 3 },
    ];
    let turn = r.turn(&c);
    assert_eq!(turn.subscribe.iter().map(|i| i.0).collect::<Vec<_>>(), vec![3, 1, 2]);
}
