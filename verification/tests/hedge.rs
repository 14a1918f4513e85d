use corsair::api::{Contract, ContractKind, Currency, Exchange, InstrumentId, Side};
use corsair::dates::Date;
use corsair::double::Double;
use corsair::hedge::fanout::{HedgeFanout, ProductValue};
use corsair::hedge::manager::{HedgeAction, HedgeConfig, HedgeFill, HedgeManager, HedgeMode};
use corsair::hedge::state::HedgeState;

const MULT: i64 = 25_000_000_000_000;
const NOW: u64 = 1_000;

fn nanos(x: f64) -> i64 {
    (x * 1e9).round() as i64
}

fn usd(x: i128) -> f64 {
    x as f64 / 1e18
}

fn config(product: &str, mode: HedgeMode) -> HedgeConfig {
    HedgeConfig {
        product: product.to_string(),
        multiplier: MULT,
        mode,
        tolerance_deltas: nanos(0.5) as i128,
        rebalance_on_fill: true,
        rebalance_cadence_ns: 30_000_000_000,
        include_in_daily_pnl: true,
        flatten_on_halt_enabled: true,
        ioc_tick_offset: 2,
        hedge_tick_size: nanos(0.0005),
        lockout_days: 30,
    }
}

fn hedge_contract() -> Contract {
    Contract {
        instrument_id: InstrumentId(987654),
        kind: ContractKind::Future,
        symbol: "HG".to_string(),
        local_symbol: "HGM6".to_string(),
        expiry: Date { year: 2026, month: 6, day: 26 },
        strike: None,
        right: None,
        multiplier: Double::from_bits(25_000.0f64.to_bits()),
        exchange: Exchange::Comex,
        currency: Currency::Usd,
        trading_class: "HG".to_string(),
    }
}

fn fill(id: &str, instrument: u64, qty: u32) -> HedgeFill {
    HedgeFill {
        instrument_id: InstrumentId(instrument),
        exec_id: id.to_string(),
        side: Side::Buy,
        qty,
        price: nanos(6.05),
    }
}

#[test]
fn for_product_returns_correct_manager() {
    let m1 = HedgeManager::new(config("HG", HedgeMode::Execute));
    let m2 = HedgeManager::new(config("ETH", HedgeMode::Execute));
    let f = HedgeFanout::new(vec![m1, m2]);
    assert!(f.for_product("HG").is_some());
    assert!(f.for_product("ETH").is_some());
    assert!(f.for_product("UNKNOWN").is_none());
}

#[test]
fn hedge_qty_per_product() {
    let mut m1 = HedgeManager::new(config("HG", HedgeMode::Execute));
    m1.state.replace(4, nanos(6.0), NOW);
    let mut m2 = HedgeManager::new(config("ETH", HedgeMode::Execute));
    m2.state.replace(-1, nanos(3000.0), NOW);
    let f = HedgeFanout::new(vec![m1, m2]);
    assert_eq!(f.hedge_qty_for_product("HG"), 4);
    assert_eq!(f.hedge_qty_for_product("ETH"), -1);
    assert_eq!(f.hedge_qty_for_product("UNKNOWN"), 0);
}

#[test]
fn mtm_total_sums_across() {
    let mut m1 = HedgeManager::new(config("HG", HedgeMode::Execute));
    m1.state.replace(3, nanos(6.00), NOW);
    let mut m2 = HedgeManager::new(config("ETH", HedgeMode::Execute));
    m2.state.replace(-1, nanos(3000.0), NOW);
    let f = HedgeFanout::new(vec![m1, m2]);
    let forwards = vec![
        ProductValue { product: "HG".to_string(), value: nanos(6.05) },
        ProductValue { product: "ETH".to_string(), value: nanos(2950.0) },
    ];
    let total = usd(f.mtm_usd_total(&forwards));
    assert!((total - (3750.0 + 1_250_000.0)).abs() < 1e-6);
}

#[test]
fn within_tolerance_idle() {
    let mut h = HedgeManager::new(config("HG", HedgeMode::Execute));
    let action = h.rebalance_on_fill(nanos(0.3), nanos(6.0), NOW);
    assert!(matches!(action, HedgeAction::Idle));
}

#[test]
fn outside_tolerance_places_order_in_execute() {
    let mut h = HedgeManager::new(config("HG", HedgeMode::Execute));
    match h.rebalance_on_fill(nanos(2.7), nanos(6.0), NOW) {
        HedgeAction::Place { is_buy, qty, target_qty, .. } => {
            assert!(!is_buy, "should sell to reduce positive delta");
            assert_eq!(qty, 3);
            assert_eq!(target_qty, -3);
        }
        other => panic!("expected Place, got {other:?}"),
    }
}

#[test]
fn observe_mode_logs_and_updates_optimistically() {
    let mut h = HedgeManager::new(config("HG", HedgeMode::Observe));
    match h.rebalance_on_fill(nanos(2.7), nanos(6.0), NOW) {
        HedgeAction::LogOnly { is_buy, qty, .. } => {
            assert!(!is_buy);
            assert_eq!(qty, 3);
        }
        other => panic!("expected LogOnly, got {other:?}"),
    }
    assert_eq!(h.hedge_qty(), -3);
}

#[test]
fn force_flat_targets_zero() {
    let mut h = HedgeManager::new(config("HG", HedgeMode::Execute));
    h.state.replace(4, nanos(6.00), NOW);
    match h.force_flat(nanos(0.0), nanos(6.05), NOW) {
        HedgeAction::Place { is_buy, qty, target_qty, .. } => {
            assert!(!is_buy);
            assert_eq!(qty, 4);
            assert_eq!(target_qty, 0);
        }
        other => panic!("expected Place, got {other:?}"),
    }
}

#[test]
fn flatten_on_halt_when_long() {
    let mut h = HedgeManager::new(config("HG", HedgeMode::Execute));
    h.state.replace(3, nanos(6.00), NOW);
    match h.flatten_on_halt(nanos(6.05), NOW) {
        HedgeAction::Place { is_buy, qty, .. } => {
            assert!(!is_buy);
            assert_eq!(qty, 3);
        }
        other => panic!("expected Place, got {other:?}"),
    }
}

#[test]
fn flatten_on_halt_idle_when_flat() {
    let mut h = HedgeManager::new(config("HG", HedgeMode::Execute));
    let action = h.flatten_on_halt(nanos(6.05), NOW);
    assert!(matches!(action, HedgeAction::Idle));
}

#[test]
fn flatten_on_halt_disabled_when_off() {
    let mut cf = config("HG", HedgeMode::Execute);
    cf.flatten_on_halt_enabled = false;
    let mut h = HedgeManager::new(cf);
    h.state.replace(3, nanos(6.00), NOW);
    let action = h.flatten_on_halt(nanos(6.05), NOW);
    assert!(matches!(action, HedgeAction::Idle));
}

#[test]
fn apply_broker_fill_updates_state() {
    let mut h = HedgeManager::new(config("HG", HedgeMode::Execute));
    h.set_hedge_contract(hedge_contract());
    let updated = h.apply_broker_fill(&fill("exec-1", 987654, 3), NOW);
    assert!(updated);
    assert_eq!(h.hedge_qty(), 3);
}

#[test]
fn apply_broker_fill_dedup() {
    let mut h = HedgeManager::new(config("HG", HedgeMode::Execute));
    h.set_hedge_contract(hedge_contract());
    let f = fill("exec-dup", 987654, 1);
    assert!(h.apply_broker_fill(&f, NOW));
    assert!(!h.apply_broker_fill(&f, NOW), "second apply should dedup");
}

#[test]
fn apply_broker_fill_filters_wrong_instrument() {
    let mut h = HedgeManager::new(config("HG", HedgeMode::Execute));
    h.set_hedge_contract(hedge_contract());
    assert!(!h.apply_broker_fill(&fill("exec-other", 999, 1), NOW));
    assert_eq!(h.hedge_qty(), 0);
}

#[test]
fn observe_mode_ignores_broker_fills() {
    let mut h = HedgeManager::new(config("HG", HedgeMode::Observe));
    h.set_hedge_contract(hedge_contract());
    assert!(!h.apply_broker_fill(&fill("exec-obs", 987654, 1), NOW));
}

#[test]
fn reconcile_no_op_when_matching() {
    let mut h = HedgeManager::new(config("HG", HedgeMode::Execute));
    h.state.replace(3, nanos(6.00), NOW);
    assert!(!h.reconcile_with_position(3, nanos(6.00), NOW));
}

#[test]
fn reconcile_replaces_on_divergence() {
    let mut h = HedgeManager::new(config("HG", HedgeMode::Execute));
    h.state.replace(3, nanos(6.00), NOW);
    assert!(h.reconcile_with_position(-2, nanos(6.10), NOW));
    assert_eq!(h.hedge_qty(), -2);
}

#[test]
fn mtm_via_manager_uses_multiplier() {
    let mut h = HedgeManager::new(config("HG", HedgeMode::Execute));
    h.state.replace(3, nanos(6.00), NOW);
    assert!((usd(h.mtm_usd(nanos(6.05))) - 3750.0).abs() < 1e-6);
}

#[test]
fn open_long_from_flat() {
    let mut s = HedgeState::new();
    s.apply_fill(true, 3, nanos(6.05), MULT, NOW);
    assert_eq!(s.hedge_qty, 3);
    assert_eq!(s.avg_entry_f, nanos(6.05));
    assert_eq!(s.realized_pnl_usd, 0);
}

#[test]
fn open_short_from_flat() {
    let mut s = HedgeState::new();
    s.apply_fill(false, 2, nanos(6.05), MULT, NOW);
    assert_eq!(s.hedge_qty, -2);
}

#[test]
fn same_direction_averages() {
    let mut s = HedgeState::new();
    s.apply_fill(true, 2, nanos(6.00), MULT, NOW);
    s.apply_fill(true, 2, nanos(6.10), MULT, NOW);
    assert_eq!(s.hedge_qty, 4);
    assert_eq!(s.avg_entry_f, nanos(6.05));
}

#[test]
fn full_close_realizes_full_pnl() {
    let mut s = HedgeState::new();
    s.apply_fill(true, 3, nanos(6.00), MULT, NOW);
    s.apply_fill(false, 3, nanos(6.10), MULT, NOW);
    assert_eq!(s.hedge_qty, 0);
    assert_eq!(s.avg_entry_f, 0);
    assert!((usd(s.realized_pnl_usd) - 7500.0).abs() < 1e-6);
}

#[test]
fn partial_close_realizes_proportional() {
    let mut s = HedgeState::new();
    s.apply_fill(true, 4, nanos(6.00), MULT, NOW);
    s.apply_fill(false, 1, nanos(6.05), MULT, NOW);
    assert_eq!(s.hedge_qty, 3);
    assert_eq!(s.avg_entry_f, nanos(6.00));
    assert!((usd(s.realized_pnl_usd) - 1250.0).abs() < 1e-6);
}

#[test]
fn over_close_flips() {
    let mut s = HedgeState::new();
    s.apply_fill(true, 2, nanos(6.00), MULT, NOW);
    s.apply_fill(false, 5, nanos(6.10), MULT, NOW);
    assert_eq!(s.hedge_qty, -3);
    assert_eq!(s.avg_entry_f, nanos(6.10));
    assert!((usd(s.realized_pnl_usd) - 5000.0).abs() < 1e-6);
}

#[test]
fn short_close_realizes_correctly() {
    let mut s = HedgeState::new();
    s.apply_fill(false, 4, nanos(6.10), MULT, NOW);
    s.apply_fill(true, 4, nanos(6.00), MULT, NOW);
    assert_eq!(s.hedge_qty, 0);
    assert!((usd(s.realized_pnl_usd) - 10000.0).abs() < 1e-6);
}

#[test]
fn mtm_zero_when_flat() {
    let s = HedgeState::new();
    assert_eq!(s.mtm_usd(nanos(6.05), MULT), 0);
}

#[test]
fn mtm_long_position_profits_on_rise() {
    let mut s = HedgeState::new();
    s.apply_fill(true, 3, nanos(6.00), MULT, NOW);
    assert!((usd(s.mtm_usd(nanos(6.05), MULT)) - 3750.0).abs() < 1e-6);
}

#[test]
fn mtm_short_position_profits_on_drop() {
    let mut s = HedgeState::new();
    s.apply_fill(false, 2, nanos(6.00), MULT, NOW);
    assert!((usd(s.mtm_usd(nanos(5.95), MULT)) - 2500.0).abs() < 1e-6);
}

#[test]
fn replace_overrides_state() {
    let mut s = HedgeState::new();
    s.apply_fill(true, 5, nanos(6.00), MULT, NOW);
    s.replace(-2, nanos(6.10), NOW);
    assert_eq!(s.hedge_qty, -2);
    assert_eq!(s.avg_entry_f, nanos(6.10));
}

#[test]
fn freshness_ends_after_its_age() {
    let mut s = HedgeState::new();
    assert!(!s.is_fresh(5, 1_000_000));
    s.touch_freshness(100);
    assert!(s.is_fresh(100 + 300, 300));
    assert!(!s.is_fresh(100 + 301, 300));
}

#[test]
fn cadence_and_priority_drain() {
    let mut h = HedgeManager::new(config("HG", HedgeMode::Execute));
    let start: u64 = 60_000_000_000;
    assert!(matches!(h.rebalance_periodic(nanos(2.0), nanos(6.0), start), HedgeAction::Place { .. }));
    assert!(matches!(h.rebalance_periodic(nanos(2.0), nanos(6.0), start + 1), HedgeAction::Idle));
    h.request_priority_drain(start + 1_000);
    match h.rebalance_periodic(nanos(2.0), nanos(6.0), start + 2) {
        HedgeAction::Place { reason, .. } => assert_eq!(reason, "priority_drain_periodic"),
        other => panic!("expected Place, got {other:?}"),
    }
    match h.rebalance_periodic(nanos(2.0), nanos(6.0), start + 2_000) {
        HedgeAction::Place { reason, .. } => assert_eq!(reason, "priority_drain_clear"),
        other => panic!("expected Place, got {other:?}"),
    }
    assert!(matches!(h.rebalance_periodic(nanos(2.0), nanos(6.0), start + 2_001), HedgeAction::Idle));
}

#[test]
fn force_flat_all_acts_per_product() {
    let mut m1 = HedgeManager::new(config("HG", HedgeMode::Execute));
    m1.state.replace(2, nanos(6.0), NOW);
    let m2 = HedgeManager::new(config("ETH", HedgeMode::Execute));
    let mut f = HedgeFanout::new(vec![m1, m2]);
    let none: Vec<ProductValue> = Vec::new();
    let actions = f.force_flat_all(&none, &none, NOW);
    assert_eq!(actions.len(), 2);
    assert_eq!(actions[0].0, "HG");
    assert!(matches!(actions[0].1, HedgeAction::Place { is_buy: false, qty: 2, .. }));
    assert!(matches!(actions[1].1, HedgeAction::Idle));
}

#[test]
fn flatten_on_halt_all_closes_every_hedge() {
    let mut m1 = HedgeManager::new(config("HG", HedgeMode::Execute));
    m1.state.replace(2, nanos(6.0), NOW);
    let mut m2 = HedgeManager::new(config("ETH", HedgeMode::Execute));
    m2.state.replace(-3, nanos(6.0), NOW);
    let mut f = HedgeFanout::new(vec![m1, m2]);
    let none: Vec<ProductValue> = Vec::new();
    let actions = f.flatten_on_halt_all(&none, NOW);
    assert_eq!((actions[0].0.as_str(), actions[1].0.as_str()), ("HG", "ETH"));
    assert!(matches!(actions[0].1, HedgeAction::Place { is_buy: false, qty: 2, .. }));
    assert!(matches!(actions[1].1, HedgeAction::Place { is_buy: true, qty: 3, .. }));
}

#[test]
fn fills_out_of_range_are_told() {
    let mut s = HedgeState::new();
    assert!(s.takes_fill(true, 5));
    s.replace(i32::MAX - 3, nanos(6.0), NOW);
    assert!(s.takes_fill(true, 3));
    assert!(!s.takes_fill(true, 4));
    assert!(s.takes_fill(false, 4));
    assert!(!s.takes_fill(false, u32::MAX));
    let mut m = HedgeManager::new(config("HG", HedgeMode::Execute));
    assert!(m.takes_delta(nanos(2.7)));
    m.state.replace(i32::MIN, nanos(6.0), NOW);
    assert!(m.takes_delta(nanos(2.7)));
    assert!(!m.takes_delta(nanos(-2.7)));
}

#[test]
fn a_halt_on_paper_closes_the_hedge_at_the_forward() {
    let mut h = HedgeManager::new(config("HG", HedgeMode::Observe));
    h.reconcile_with_position(3, nanos(6.00), NOW);
    assert!(h.takes_flatten());
    match h.flatten_on_halt(nanos(6.05), NOW) {
        HedgeAction::LogOnly { is_buy, qty, reason, forward } => {
            assert_eq!((is_buy, qty, reason.as_str(), forward), (false, 3, "halt_flatten", nanos(6.05)));
        }
        other => panic!("expected LogOnly, got {other:?}"),
    }
    assert_eq!(h.hedge_qty(), 0);
    assert!((usd(h.state().realized_pnl_usd) - 3750.0).abs() < 1e-6);
    assert!(matches!(h.flatten_on_halt(nanos(6.05), NOW), HedgeAction::Idle));

    let mut m = HedgeManager::new(config("HG", HedgeMode::Observe));
    m.state.replace(-2, nanos(6.0), NOW);
    let mut f = HedgeFanout::new(vec![m]);
    let forwards = vec![ProductValue { product: "HG".to_string(), value: nanos(6.1) }];
    let actions = f.flatten_on_halt_all(&forwards, NOW);
    assert!(matches!(actions[0].1, HedgeAction::LogOnly { is_buy: true, qty: 2, .. }));
    assert_eq!(f.hedge_qty_for_product("HG"), 0);
    assert!((usd(f.managers()[0].state().realized_pnl_usd) + 5000.0).abs() < 1e-6);
}

#[test]
fn a_recorded_fill_is_at_the_forward() {
    let mut h = HedgeManager::new(config("HG", HedgeMode::Observe));
    h.rebalance_on_fill(nanos(2.7), nanos(4.25), NOW);
    assert_eq!((h.hedge_qty(), h.state().avg_entry_f), (-3, nanos(4.25)));
}

#[test]
fn a_fill_moves_profit_only_by_its_edge() {
    let m = MULT;
    let mark = nanos(6.4);
    for (held, is_buy, qty) in [(0, true, 3), (2, true, 2), (5, false, 2), (5, false, 5), (5, false, 8), (-4, true, 9)] {
        let mut s = HedgeState::new();
        s.replace(held, nanos(6.0), NOW);
        let before = s.realized_pnl_usd + s.mtm_usd(mark, m);
        let price = nanos(6.1);
        s.apply_fill(is_buy, qty, price, m, NOW);
        let e = if is_buy { qty as i128 } else { -(qty as i128) };
        let edge = e * (mark as i128 - price as i128) * m as i128;
        assert_eq!(s.realized_pnl_usd + s.mtm_usd(mark, m), before + edge);
    }
}

#[test]
fn amounts_beyond_128_bits_are_cut() {
    let mut s = HedgeState::new();
    s.replace(i32::MAX, 0, NOW);
    assert_eq!(s.mtm_usd(i64::MAX, i64::MAX), i128::MAX);
    s.apply_fill(false, i32::MAX as u32, i64::MAX, i64::MAX, NOW);
    assert_eq!((s.hedge_qty, s.realized_pnl_usd), (0, i128::MAX));
    s.apply_fill(true, 1, 0, 1, NOW);
    s.apply_fill(false, 1, 10, 1, NOW);
    assert_eq!(s.realized_pnl_usd, i128::MAX);
    s.apply_fill(true, 1, 10, 1, NOW);
    s.apply_fill(false, 1, 3, 1, NOW);
    assert_eq!(s.realized_pnl_usd, i128::MAX - 7);
}
