use corsair::config::{
    constraints_section, product_iv, BrokerDaemonConfig, BrokerSection, ConfigError, GatewaySection, HedgingOptions,
    HedgingSection, IbkrSection, ProductConfig, QuotingOptions, QuotingSection, RiskSection, RuntimeSection,
    SnapshotSection,
};
use corsair::double::Double;
use serde_yaml::Value;

fn sample_yaml() -> String {
    [
        "broker:",
        "  kind: ibkr",
        "  ibkr:",
        "    gateway:",
        "      host: 127.0.0.1",
        "      port: 4002",
        "    client_id: 0",
        "    account: DUP000000",
        "",
        "risk:",
        "  daily_pnl_halt_pct: 0.05",
        "  margin_kill_pct: 0.70",
        "  delta_kill: 5.0",
        "  vega_kill: 0",
        "  theta_kill: -500",
        "",
        "constraints:",
        "  capital: 500000",
        "  margin_ceiling_pct: 0.50",
        "  delta_ceiling: 3.0",
        "  theta_floor: -500",
        "  effective_delta_gating: true",
        "",
        "products:",
        "  - name: HG",
        "    multiplier: 25000",
        "    default_iv: 0.30",
        "    quote_range_low: -5",
        "    quote_range_high: 5",
        "    strike_increment: 0.05",
        "    enabled: true",
        "",
        "quoting:",
        "  tick_size: 0.0005",
        "  min_edge_ticks: 2",
        "",
        "hedging:",
        "  enabled: true",
        "  mode: execute",
        "  tolerance_deltas: 0.5",
        "  rebalance_cadence_sec: 30",
        "  hedge_lockout_days: 30",
        "",
    ]
    .join("\n")
}

fn opt_number(v: &Value, key: &str) -> Option<Double> {
    v.get(key).and_then(|x| x.as_f64()).map(|x| Double::from_bits(x.to_bits()))
}

fn number(v: &Value, key: &str) -> Double {
    opt_number(v, key).unwrap()
}

fn number_or_zero(v: &Value, key: &str) -> Double {
    opt_number(v, key).unwrap_or(Double::zero())
}

fn opt_int(v: &Value, key: &str) -> Option<i32> {
    v.get(key).and_then(|x| x.as_i64()).map(|x| x as i32)
}

fn opt_text(v: &Value, key: &str) -> Option<String> {
    v.get(key).and_then(|x| x.as_str()).map(|x| x.to_string())
}

fn opt_flag(v: &Value, key: &str) -> Option<bool> {
    v.get(key).and_then(|x| x.as_bool())
}

fn load(yaml: &str) -> Result<BrokerDaemonConfig, ConfigError> {
    let root: Value = serde_yaml::from_str(yaml).unwrap();
    let b = &root["broker"];
    let ibkr = b.get("ibkr").map(|i| IbkrSection {
        gateway: GatewaySection {
            host: opt_text(&i["gateway"], "host").unwrap(),
            port: opt_int(&i["gateway"], "port").unwrap() as u16,
        },
        client_id: opt_int(i, "client_id").unwrap_or(0),
        account: opt_text(i, "account").unwrap(),
    });
    let r = &root["risk"];
    let c = &root["constraints"];
    let q = &root["quoting"];
    let h = &root["hedging"];
    let mut products = Vec::new();
    for p in root["products"].as_sequence().unwrap() {
        products.push(ProductConfig {
            name: opt_text(p, "name").unwrap(),
            multiplier: number(p, "multiplier"),
            default_iv: product_iv(opt_number(p, "default_iv")),
            quote_range_low: opt_int(p, "quote_range_low").unwrap(),
            quote_range_high: opt_int(p, "quote_range_high").unwrap(),
            strike_range_low: opt_int(p, "strike_range_low"),
            strike_range_high: opt_int(p, "strike_range_high"),
            strike_increment: number(p, "strike_increment"),
            enabled: opt_flag(p, "enabled").unwrap(),
        });
    }
    let cfg = BrokerDaemonConfig {
        broker: BrokerSection { kind: opt_text(b, "kind").unwrap(), ibkr },
        risk: RiskSection {
            daily_pnl_halt_pct: opt_number(r, "daily_pnl_halt_pct"),
            max_daily_loss: opt_number(r, "max_daily_loss"),
            margin_kill_pct: number(r, "margin_kill_pct"),
            delta_kill: number(r, "delta_kill"),
            vega_kill: number_or_zero(r, "vega_kill"),
            theta_kill: number_or_zero(r, "theta_kill"),
        },
        constraints: constraints_section(
            number(c, "capital"),
            number(c, "margin_ceiling_pct"),
            number(c, "delta_ceiling"),
            number(c, "theta_floor"),
            opt_flag(c, "effective_delta_gating"),
            opt_flag(c, "margin_escape_enabled"),
        ),
        products,
        quoting: QuotingSection::new(
            number(q, "tick_size"),
            opt_int(q, "min_edge_ticks").unwrap(),
            QuotingOptions {
                max_strike_offset_usd: opt_number(q, "max_strike_offset_usd"),
                gtd_lifetime_s: opt_number(q, "gtd_lifetime_s"),
                gtd_refresh_lead_s: opt_number(q, "gtd_refresh_lead_s"),
                dead_band_ticks: opt_int(q, "dead_band_ticks"),
                min_send_interval_ms: q.get("min_send_interval_ms").and_then(|x| x.as_u64()),
                skip_if_spread_over_edge_mul: opt_number(q, "skip_if_spread_over_edge_mul"),
            },
        ),
        hedging: HedgingSection::new(HedgingOptions {
            enabled: opt_flag(h, "enabled"),
            mode: opt_text(h, "mode"),
            tolerance_deltas: opt_number(h, "tolerance_deltas"),
            rebalance_on_fill: opt_flag(h, "rebalance_on_fill"),
            rebalance_cadence_sec: opt_number(h, "rebalance_cadence_sec"),
            include_in_daily_pnl: opt_flag(h, "include_in_daily_pnl"),
            flatten_on_halt: opt_flag(h, "flatten_on_halt"),
            hedge_lockout_days: opt_int(h, "hedge_lockout_days"),
        }),
        snapshot: match root.get("snapshot") {
            Some(s) => SnapshotSection::new(opt_text(s, "path"), s.get("cadence_ms").and_then(|x| x.as_u64())),
            None => SnapshotSection::default(),
        },
        runtime: match root.get("runtime") {
            Some(s) => RuntimeSection::new(opt_text(s, "log_level")),
            None => RuntimeSection::default(),
        },
    };
    cfg.validate()?;
    Ok(cfg)
}

fn double(x: f64) -> u64 {
    x.to_bits()
}

#[test]
fn loads_sample_config() {
    let cfg = load(&sample_yaml()).unwrap();
    assert_eq!(cfg.broker.kind, "ibkr");
    assert_eq!(cfg.products.len(), 1);
    assert_eq!(cfg.products[0].name, "HG");
    assert_eq!(cfg.constraints.capital.bits, double(500_000.0));
}

#[test]
fn resolves_daily_halt() {
    let cfg = load(&sample_yaml()).unwrap();
    assert_eq!(cfg.resolve_daily_halt_threshold(), Some(-25_000 * 1_000_000_000 * 1_000_000_000));
}

#[test]
fn defaults_apply_for_optional_fields() {
    let cfg = load(&sample_yaml()).unwrap();
    assert_eq!(cfg.snapshot.cadence_ms, 250);
    assert_eq!(cfg.snapshot.path, "/app/data/snapshot.json");
    assert_eq!(cfg.quoting.gtd_lifetime_s.bits, double(30.0));
    assert_eq!(cfg.quoting.dead_band_ticks, 1);
    assert_eq!(cfg.quoting.skip_if_spread_over_edge_mul.bits, double(4.0));
}

#[test]
fn rejects_invalid_capital() {
    let bad = sample_yaml().replace("capital: 500000", "capital: 0");
    assert!(load(&bad).is_err());
}

#[test]
fn rejects_unknown_broker_kind() {
    let bad = sample_yaml().replace("kind: ibkr", "kind: unknown");
    let err = load(&bad).err().unwrap();
    assert_eq!(err.message(), "config validation: broker.kind must be 'ibkr' or 'ilink', got unknown");
}

#[test]
fn rejects_empty_products() {
    let bad = sample_yaml().replace(
        "products:\n  - name: HG\n    multiplier: 25000\n    default_iv: 0.30\n    quote_range_low: -5\n    quote_range_high: 5\n    strike_increment: 0.05\n    enabled: true\n",
        "products: []\n",
    );
    let err = load(&bad).err().unwrap();
    assert_eq!(err.message(), "config validation: at least one product required");
}

#[test]
fn rejects_all_products_disabled() {
    let bad = sample_yaml().replace("enabled: true", "enabled: false");
    let err = load(&bad).err().expect("expected validation error");
    let msg = err.message();
    assert!(msg.contains("enabled"), "got: {msg}");
}

#[test]
fn rejects_missing_section_and_bad_multiplier() {
    let mut cfg = load(&sample_yaml()).unwrap();
    cfg.broker.ibkr = None;
    assert_eq!(
        cfg.validate().err().unwrap().message(),
        "config validation: broker.kind=ibkr requires broker.ibkr section"
    );
    cfg.broker.kind = "ilink".to_string();
    assert!(cfg.validate().is_ok());
    cfg.products[0].multiplier = Double::from_bits(double(-1.0));
    assert_eq!(
        cfg.validate().err().unwrap().message(),
        "config validation: product HG: multiplier must be > 0"
    );
}

#[test]
fn halt_threshold_prefers_the_part_of_capital() {
    let mut cfg = load(&sample_yaml()).unwrap();
    cfg.risk.max_daily_loss = Some(Double::from_bits(double(-1234.5)));
    assert_eq!(cfg.resolve_daily_halt_threshold(), Some(-25_000_000_000_000 * 1_000_000_000));
    cfg.constraints.capital = Double::from_bits(double(4e12));
    assert_eq!(cfg.resolve_daily_halt_threshold(), Some(-200_000_000_000 * 1_000_000_000 * 1_000_000_000));
    cfg.constraints.capital = Double::from_bits(double(f64::NAN));
    assert_eq!(cfg.resolve_daily_halt_threshold(), Some(i128::MIN));
    cfg.risk.daily_pnl_halt_pct = None;
    assert_eq!(cfg.resolve_daily_halt_threshold(), Some(-1_234_500_000_000 * 1_000_000_000));
    cfg.risk.max_daily_loss = None;
    assert_eq!(cfg.resolve_daily_halt_threshold(), None);
}

#[test]
fn defaults_of_every_section() {
    let h = HedgingSection::new(HedgingOptions {
        enabled: None,
        mode: None,
        tolerance_deltas: None,
        rebalance_on_fill: None,
        rebalance_cadence_sec: None,
        include_in_daily_pnl: None,
        flatten_on_halt: None,
        hedge_lockout_days: None,
    });
    assert!(!h.enabled);
    assert_eq!(h.mode, "observe");
    assert_eq!(h.tolerance_deltas.bits, double(0.5));
    assert_eq!(h.rebalance_cadence_sec.bits, double(30.0));
    assert!(h.rebalance_on_fill && h.include_in_daily_pnl && h.flatten_on_halt);
    assert_eq!(h.hedge_lockout_days, 30);
    let cfg = load(&sample_yaml()).unwrap();
    assert_eq!(cfg.quoting.max_strike_offset_usd.bits, double(0.30));
    assert_eq!(cfg.quoting.gtd_refresh_lead_s.bits, double(3.5));
    assert_eq!(cfg.quoting.min_send_interval_ms, 250);
    assert_eq!(product_iv(None).bits, double(0.30));
    assert_eq!(cfg.runtime.log_level, "");
    assert_eq!(RuntimeSection::new(None).log_level, "info");
    assert!(!cfg.constraints.margin_escape_enabled);
}

#[test]
fn other_errors_have_their_words() {
    assert_eq!(ConfigError::Io("gone".to_string()).message(), "io error reading config: gone");
    assert_eq!(ConfigError::Yaml("line 3".to_string()).message(), "yaml parse error: line 3");
}

#[test]
fn strike_range_falls_back_to_quotes() {
    let mut cfg = load(&sample_yaml()).unwrap();
    assert_eq!(cfg.products[0].strike_range(), (-5, 5));
    cfg.products[0].strike_range_low = Some(-7);
    assert_eq!(cfg.products[0].strike_range(), (-7, 5));
}
