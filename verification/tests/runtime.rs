use corsair::api::{Contract, ContractKind, Currency, Exchange, InstrumentId};
use corsair::config::{
    constraints_section, product_iv, BrokerDaemonConfig, BrokerSection, GatewaySection, HedgingOptions, HedgingSection,
    IbkrSection, ProductConfig, QuotingOptions, QuotingSection, RiskSection, RuntimeSection, SnapshotSection,
};
use corsair::dates::Date;
use corsair::double::Double;
use corsair::hedge::manager::HedgeMode;
use corsair::runtime::{
    boot_after, build_broker, build_hedge_fanout, choose_hedge, enabled_products, hedge_query, primary_product,
    risk_limits, BootMove, BootStep, RuntimeError, RuntimeMode,
};

fn num(x: f64) -> Double {
    Double::from_bits(x.to_bits())
}

fn product(name: &str, enabled: bool) -> ProductConfig {
    ProductConfig {
        name: name.to_string(),
        multiplier: num(25_000.0),
        default_iv: product_iv(None),
        quote_range_low: -5,
        quote_range_high: 5,
        strike_range_low: None,
        strike_range_high: None,
        strike_increment: num(0.05),
        enabled,
    }
}

fn sample_config() -> BrokerDaemonConfig {
    BrokerDaemonConfig {
        broker: BrokerSection {
            kind: "ibkr".to_string(),
            ibkr: Some(IbkrSection {
                gateway: GatewaySection { host: "127.0.0.1".to_string(), port: 4002 },
                client_id: 0,
                account: "TEST".to_string(),
            }),
        },
        risk: RiskSection {
            daily_pnl_halt_pct: Some(num(0.05)),
            max_daily_loss: None,
            margin_kill_pct: num(0.70),
            delta_kill: num(5.0),
            vega_kill: num(0.0),
            theta_kill: num(-500.0),
        },
        constraints: constraints_section(num(200_000.0), num(0.50), num(3.0), num(-200.0), None, None),
        products: vec![product("HG", true)],
        quoting: QuotingSection::new(
            num(0.0005),
            2,
            QuotingOptions {
                max_strike_offset_usd: None,
                gtd_lifetime_s: None,
                gtd_refresh_lead_s: None,
                dead_band_ticks: None,
                min_send_interval_ms: None,
                skip_if_spread_over_edge_mul: None,
            },
        ),
        hedging: HedgingSection::new(HedgingOptions {
            enabled: Some(true),
            mode: Some("observe".to_string()),
            tolerance_deltas: Some(num(0.5)),
            rebalance_on_fill: None,
            rebalance_cadence_sec: Some(num(30.0)),
            include_in_daily_pnl: None,
            flatten_on_halt: None,
            hedge_lockout_days: Some(30),
        }),
        snapshot: SnapshotSection::default(),
        runtime: RuntimeSection::default(),
    }
}

fn future(id: u64, year: i32, month: u32, day: u32) -> Contract {
    Contract {
        instrument_id: InstrumentId(id),
        kind: ContractKind::Future,
        symbol: "HG".to_string(),
        local_symbol: "HG".to_string(),
        expiry: Date { year, month, day },
        strike: None,
        right: None,
        multiplier: num(25_000.0),
        exchange: Exchange::Comex,
        currency: Currency::Usd,
        trading_class: "HG".to_string(),
    }
}

#[test]
fn config_loads() {
    let cfg = sample_config();
    assert!(cfg.validate().is_ok());
    assert_eq!(cfg.products[0].name, "HG");
}

#[test]
fn live_mode_default_when_unset() {
    assert_eq!(RuntimeMode::from_env(None), RuntimeMode::Live);
}

#[test]
fn shadow_mode_when_one() {
    assert_eq!(RuntimeMode::from_env(Some("1")), RuntimeMode::Shadow);
    assert_eq!(RuntimeMode::from_env(Some("true")), RuntimeMode::Shadow);
    assert_eq!(RuntimeMode::from_env(Some("TRUE")), RuntimeMode::Shadow);
    assert_eq!(RuntimeMode::from_env(Some("0")), RuntimeMode::Live);
    assert_eq!(RuntimeMode::from_env(Some("")), RuntimeMode::Live);
}

#[test]
fn build_hedge_fanout_observes_disabled() {
    let mut cfg = sample_config();
    cfg.hedging.enabled = false;
    let fanout = build_hedge_fanout(&cfg);
    assert!(fanout.managers().is_empty());
}

#[test]
fn build_hedge_fanout_observe_mode() {
    let cfg = sample_config();
    let fanout = build_hedge_fanout(&cfg);
    assert_eq!(fanout.managers().len(), 1);
    let m = &fanout.managers()[0];
    assert_eq!(m.config().mode, HedgeMode::Observe);
    assert_eq!(m.config().multiplier, 25_000_000_000_000);
    assert_eq!(m.config().tolerance_deltas, 500_000_000);
    assert_eq!(m.config().rebalance_cadence_ns, 30_000_000_000);
}

#[test]
fn odd_hedge_settings_are_taken_as_they_are() {
    let mut cfg = sample_config();
    for (tolerance, cadence, want) in [
        (f64::INFINITY, f64::INFINITY, (i128::MAX, u128::MAX)),
        (-0.5, -30.0, (-1, 0)),
        (f64::NAN, f64::NAN, (-1, 0)),
        (1e10, 1e10, (10_000_000_000_000_000_000, 10_000_000_000_000_000_000)),
        (0.0, 0.25, (0, 250_000_000)),
    ] {
        cfg.hedging.tolerance_deltas = num(tolerance);
        cfg.hedging.rebalance_cadence_sec = num(cadence);
        let f = build_hedge_fanout(&cfg);
        let c = f.managers()[0].config();
        assert_eq!((c.tolerance_deltas, c.rebalance_cadence_ns), want);
    }
    for (multiplier, want) in [(2e6, 2_000_000_000_000_000), (0.0005, 500_000), (1e12, i64::MAX)] {
        cfg.products[0].multiplier = num(multiplier);
        assert_eq!(build_hedge_fanout(&cfg).managers()[0].config().multiplier, want);
    }
}

#[test]
fn only_enabled_products_count() {
    let mut cfg = sample_config();
    cfg.products = vec![product("A", false), product("B", true), product("C", true)];
    assert_eq!(enabled_products(&cfg), vec!["B".to_string(), "C".to_string()]);
    assert_eq!(primary_product(&cfg).unwrap(), 1);
    let f = build_hedge_fanout(&cfg);
    assert_eq!(f.managers().len(), 2);
    cfg.products = vec![product("A", false)];
    match primary_product(&cfg) {
        Err(RuntimeError::Internal(why)) => assert_eq!(why, "no enabled product"),
        other => panic!("unexpected: {other:?}"),
    }
}

#[test]
fn broker_is_chosen_by_kind() {
    let mut cfg = sample_config();
    let b = build_broker(&cfg).unwrap();
    assert_eq!(b.client.host, "127.0.0.1");
    assert_eq!(b.client.port, 4002);
    assert_eq!(b.client.handshake_timeout_ms, 10_000);
    assert_eq!(b.account, "TEST");
    cfg.broker.kind = "ilink".to_string();
    match build_broker(&cfg) {
        Err(RuntimeError::Internal(why)) => assert_eq!(why, "ilink adapter not implemented (Phase 7)"),
        other => panic!("unexpected: {other:?}"),
    }
    cfg.broker.kind = "other".to_string();
    match build_broker(&cfg) {
        Err(RuntimeError::Internal(why)) => assert_eq!(why, "unknown broker.kind: other"),
        other => panic!("unexpected: {other:?}"),
    }
    cfg.broker.kind = "ibkr_native".to_string();
    cfg.broker.ibkr = None;
    match build_broker(&cfg) {
        Err(RuntimeError::Internal(why)) => assert_eq!(why, "missing broker.ibkr"),
        other => panic!("unexpected: {other:?}"),
    }
}

#[test]
fn lockout_counts_days() {
    let today = Date { year: 2026, month: 5, day: 20 };
    let q = hedge_query("HG", today, 30).unwrap();
    assert_eq!(q.min_expiry, Some(Date { year: 2026, month: 6, day: 19 }));
    assert_eq!(q.symbol, "HG");
    let q = hedge_query("HG", Date { year: 2024, month: 3, day: 1 }, -1).unwrap();
    assert_eq!(q.min_expiry, Some(Date { year: 2024, month: 2, day: 29 }));
    assert!(hedge_query("HG", Date { year: 262142, month: 12, day: 31 }, 1).is_none());
}

#[test]
fn hedge_is_the_first_past_the_lockout() {
    let chain = vec![future(1, 2026, 7, 29), future(2, 2026, 5, 27), future(3, 2026, 6, 26), future(4, 2026, 6, 26)];
    let c = choose_hedge(&chain, Date { year: 2026, month: 6, day: 19 }).unwrap();
    assert_eq!(c.instrument_id, InstrumentId(3));
    let c = choose_hedge(&chain, Date { year: 2026, month: 6, day: 27 }).unwrap();
    assert_eq!(c.instrument_id, InstrumentId(1));
    assert!(choose_hedge(&chain, Date { year: 2027, month: 1, day: 1 }).is_none());
}

#[test]
fn limits_come_from_the_settings() {
    let r = risk_limits(&sample_config());
    assert_eq!(r.daily_halt_threshold, Some(-10_000_000_000_000 * 1_000_000_000));
    assert_eq!(r.delta_kill, num(5.0));
    assert!(r.effective_delta_gating);
}

#[test]
fn boot_goes_through_every_step() {
    let mut step = BootStep::Connect;
    let mut n = 0;
    while step != BootStep::Done {
        match boot_after(step, true) {
            BootMove::Next(s) => step = s,
            BootMove::Abort => panic!("aborted at {step:?}"),
        }
        n += 1;
    }
    assert_eq!(n, 5);
    assert_eq!(boot_after(BootStep::Connect, false), BootMove::Abort);
    assert_eq!(boot_after(BootStep::SeedPositions, false), BootMove::Abort);
    assert_eq!(boot_after(BootStep::AwaitSnapshot, false), BootMove::Next(BootStep::ResolveHedges));
    assert_eq!(boot_after(BootStep::SeedAccount, false), BootMove::Next(BootStep::Done));
}
