//! The daemon's state and how it is brought up.

use crate::api::{BrokerError, ChainQuery, Contract, ContractKind, Currency, Exchange};
use crate::config::{
    halt_threshold, law_halt_is_at_a_loss, BrokerDaemonConfig, ConfigError, IbkrSection, ProductConfig,
};
use crate::dates::{day_number, days_later, first_date, last_date, law_days_follow_dates, Date};
use crate::double::{even_magnitude, law_wide_amounts_keep_the_sign, Double};
use crate::hedge::fanout::HedgeFanout;
use crate::hedge::manager::{HedgeConfig, HedgeManager, HedgeMode};
use crate::hedge::state::HedgeState;
use crate::requests::{NativeBrokerConfig, NativeClientConfig};
use crate::text::str_eq;
use vstd::prelude::*;
use vstd::string::*;

verus! {

/// Whether orders are placed.
#[derive(Clone, Copy, Debug, PartialEq, Eq, Structural)]
pub enum RuntimeMode {
    /// Everything but orders.
    Shadow,
    Live,
}

/// The mode that a setting asks for.
pub open spec fn mode_of(setting: Option<Seq<char>>) -> RuntimeMode {
    if setting == Some("1"@) || setting == Some("true"@) || setting == Some("TRUE"@) {
        RuntimeMode::Shadow
    } else {
        RuntimeMode::Live
    }
}

impl RuntimeMode {
    /// The mode from the value of `CORSAIR_BROKER_SHADOW`: `1` or `true` opts
    /// into shadow mode, any other value, or none, is live.
    pub fn from_env(setting: Option<&str>) -> (r: RuntimeMode)
        ensures
            r == mode_of(match setting {
                Some(s) => Some(s@),
                None => None,
            }),
    {
        match setting {
            Some(s) => if str_eq(s, "1") || str_eq(s, "true") || str_eq(s, "TRUE") {
                RuntimeMode::Shadow
            } else {
                RuntimeMode::Live
            },
            None => RuntimeMode::Live,
        }
    }
}

/// Why the daemon could not start.
#[derive(Debug)]
pub enum RuntimeError {
    Broker(BrokerError),
    Config(ConfigError),
    Internal(String),
}

fn internal(why: &str) -> (r: RuntimeError)
    ensures
        r matches RuntimeError::Internal(s) && s@ == why@,
{
    RuntimeError::Internal(why.to_owned())
}

// The broker

/// How the gateway is reached.
pub open spec fn reaches(c: NativeBrokerConfig, s: IbkrSection) -> bool {
    &&& c.client.host@ == s.gateway.host@
    &&& c.client.port == s.gateway.port
    &&& c.client.client_id == s.client_id
    &&& c.client.account is None
    &&& c.client.connect_timeout_ms == 10_000
    &&& c.client.handshake_timeout_ms == 10_000
    &&& c.account@ == s.account@
}

/// The settings of the broker that the daemon's settings ask for.
pub fn build_broker(cfg: &BrokerDaemonConfig) -> (r: Result<NativeBrokerConfig, RuntimeError>)
    ensures
        ({
            let kind = cfg.broker.kind@;
            if kind == "ibkr"@ || kind == "ibkr_native"@ {
                match cfg.broker.ibkr {
                    Some(s) => r is Ok && reaches(r->Ok_0, s),
                    None => r matches Err(RuntimeError::Internal(why)) && why@ == "missing broker.ibkr"@,
                }
            } else if kind == "ilink"@ {
                r matches Err(RuntimeError::Internal(why)) && why@ == "ilink adapter not implemented (Phase 7)"@
            } else {
                r matches Err(RuntimeError::Internal(why)) && why@ == "unknown broker.kind: "@ + kind
            }
        }),
{
    let kind = cfg.broker.kind.as_str();
    proof {
        reveal_strlit("ibkr");
        reveal_strlit("ibkr_native");
        reveal_strlit("ilink");
    }
    if str_eq(kind, "ibkr") || str_eq(kind, "ibkr_native") {
        match &cfg.broker.ibkr {
            Some(s) => Ok(
                NativeBrokerConfig {
                    client: NativeClientConfig {
                        host: s.gateway.host.clone(),
                        port: s.gateway.port,
                        client_id: s.client_id,
                        account: None,
                        connect_timeout_ms: 10_000,
                        handshake_timeout_ms: 10_000,
                    },
                    account: s.account.clone(),
                },
            ),
            None => Err(internal("missing broker.ibkr")),
        }
    } else if str_eq(kind, "ilink") {
        Err(internal("ilink adapter not implemented (Phase 7)"))
    } else {
        let mut why = "unknown broker.kind: ".to_owned();
        why.append(kind);
        Err(RuntimeError::Internal(why))
    }
}

// Products

/// The names of the enabled products, in order.
pub open spec fn enabled_names(products: Seq<ProductConfig>) -> Seq<Seq<char>>
    decreases products.len(),
{
    if products.len() == 0 {
        Seq::<Seq<char>>::empty()
    } else if products.last().enabled {
        enabled_names(products.drop_last()).push(products.last().name@)
    } else {
        enabled_names(products.drop_last())
    }
}

/// The texts of a list.
pub open spec fn texts_of(s: Seq<String>) -> Seq<Seq<char>> {
    s.map_values(|x: String| x@)
}

/// The names of the enabled products.
pub fn enabled_products(cfg: &BrokerDaemonConfig) -> (r: Vec<String>)
    ensures
        texts_of(r@) == enabled_names(cfg.products@),
{
    let mut out: Vec<String> = Vec::new();
    let mut i: usize = 0;
    assert(texts_of(out@) =~= enabled_names(cfg.products@.take(0)));
    while i < cfg.products.len()
        invariant
            i <= cfg.products@.len(),
            texts_of(out@) == enabled_names(cfg.products@.take(i as int)),
        decreases cfg.products@.len() - i,
    {
        let ghost before = out@;
        assert(cfg.products@.take(i + 1).last() == cfg.products@[i as int]);
        assert(cfg.products@.take(i + 1).drop_last() =~= cfg.products@.take(i as int));
        if cfg.products[i].enabled {
            out.push(cfg.products[i].name.clone());
            assert(texts_of(out@) =~= texts_of(before).push(cfg.products@[i as int].name@));
        }
        i = i + 1;
    }
    assert(cfg.products@.take(i as int) =~= cfg.products@);
    out
}

/// The product that limits are checked for: the first that is enabled.
pub fn primary_product(cfg: &BrokerDaemonConfig) -> (r: Result<usize, RuntimeError>)
    ensures
        match r {
            Ok(i) => i < cfg.products@.len() && cfg.products@[i as int].enabled && forall|j: int|
                0 <= j < i ==> !(#[trigger] cfg.products@[j]).enabled,
            Err(e) => {
                &&& e matches RuntimeError::Internal(why) && why@ == "no enabled product"@
                &&& forall|j: int| 0 <= j < cfg.products@.len() ==> !(#[trigger] cfg.products@[j]).enabled
            },
        },
{
    let mut i: usize = 0;
    while i < cfg.products.len()
        invariant
            i <= cfg.products@.len(),
            forall|j: int| 0 <= j < i ==> !(#[trigger] cfg.products@[j]).enabled,
        decreases cfg.products@.len() - i,
    {
        if cfg.products[i].enabled {
            return Ok(i);
        }
        i = i + 1;
    }
    Err(internal("no enabled product"))
}

// Hedging

/// How many ticks past the market a hedge is priced.
pub const HEDGE_TICK_OFFSET: i32 = 2;

/// A hedge future's tick, in billionths.
pub const HEDGE_TICK_SIZE: i64 = 500_000;

/// The delta that is left alone, in billionths. A setting that is negative or
/// no number leaves none alone; one beyond all deltas leaves each alone.
pub open spec fn tolerance_of(deltas: Double) -> i128 {
    if deltas.nan() || deltas.below_zero() {
        -1i128
    } else if !deltas.finite() || deltas.exponent() > 1086 {
        i128::MAX
    } else {
        even_magnitude(deltas, 1_000_000_000) as i128
    }
}

/// The time between periodic rebalances, in nanoseconds. A setting that is
/// negative or no number does not hold any back; one beyond all times holds
/// back each.
pub open spec fn cadence_of(seconds: Double) -> u128 {
    if seconds.nan() || seconds.below_zero() {
        0
    } else if !seconds.finite() || seconds.exponent() > 1086 {
        u128::MAX
    } else {
        even_magnitude(seconds, 1_000_000_000) as u128
    }
}

fn read_tolerance(deltas: Double) -> (r: i128)
    ensures
        r == tolerance_of(deltas),
{
    if deltas.is_nan() || deltas.is_negative() {
        return -1;
    }
    match deltas.to_even_magnitude(1_000_000_000) {
        Some(n) => n as i128,
        None => i128::MAX,
    }
}

fn read_cadence(seconds: Double) -> (r: u128)
    ensures
        r == cadence_of(seconds),
{
    if seconds.is_nan() || seconds.is_negative() {
        return 0;
    }
    match seconds.to_even_magnitude(1_000_000_000) {
        Some(n) => n,
        None => u128::MAX,
    }
}

/// The hedge mode that a setting names: anything but `execute` observes.
pub open spec fn hedge_mode_of(mode: Seq<char>) -> HedgeMode {
    if mode == "execute"@ {
        HedgeMode::Execute
    } else {
        HedgeMode::Observe
    }
}

/// Whether a manager is set up for a product under these settings, and has
/// done nothing yet.
pub open spec fn hedges_product(m: HedgeManager, p: ProductConfig, cfg: BrokerDaemonConfig) -> bool {
    &&& m.wf()
    &&& m.cfg.product@ == p.name@
    &&& m.cfg.multiplier == p.multiplier.billionths()
    &&& m.cfg.mode == hedge_mode_of(cfg.hedging.mode@)
    &&& m.cfg.tolerance_deltas == tolerance_of(cfg.hedging.tolerance_deltas)
    &&& m.cfg.rebalance_on_fill == cfg.hedging.rebalance_on_fill
    &&& m.cfg.rebalance_cadence_ns == cadence_of(cfg.hedging.rebalance_cadence_sec)
    &&& m.cfg.include_in_daily_pnl == cfg.hedging.include_in_daily_pnl
    &&& m.cfg.flatten_on_halt_enabled == cfg.hedging.flatten_on_halt
    &&& m.cfg.ioc_tick_offset == HEDGE_TICK_OFFSET
    &&& m.cfg.hedge_tick_size == HEDGE_TICK_SIZE
    &&& m.cfg.lockout_days == cfg.hedging.hedge_lockout_days
    &&& m.state == (HedgeState { hedge_qty: 0, avg_entry_f: 0, realized_pnl_usd: 0, last_update_ns: 0 })
    &&& m.hedge_contract is None
    &&& m.last_periodic_ns == 0
    &&& m.priority_drain_until_ns == 0
    &&& m.processed_exec_ids@ == Seq::<String>::empty()
}

/// Whether there is one manager per enabled product, in order.
pub open spec fn hedges_all(managers: Seq<HedgeManager>, products: Seq<ProductConfig>, cfg: BrokerDaemonConfig) -> bool
    decreases products.len(),
{
    if products.len() == 0 {
        managers.len() == 0
    } else if products.last().enabled {
        managers.len() > 0 && hedges_product(managers.last(), products.last(), cfg) && hedges_all(
            managers.drop_last(),
            products.drop_last(),
            cfg,
        )
    } else {
        hedges_all(managers, products.drop_last(), cfg)
    }
}

fn manager_for(p: &ProductConfig, cfg: &BrokerDaemonConfig) -> (m: HedgeManager)
    ensures
        hedges_product(m, *p, *cfg),
{
    let mode = if str_eq(cfg.hedging.mode.as_str(), "execute") {
        HedgeMode::Execute
    } else {
        HedgeMode::Observe
    };
    HedgeManager::new(
        HedgeConfig {
            product: p.name.clone(),
            multiplier: p.multiplier.to_billionths(),
            mode,
            tolerance_deltas: read_tolerance(cfg.hedging.tolerance_deltas),
            rebalance_on_fill: cfg.hedging.rebalance_on_fill,
            rebalance_cadence_ns: read_cadence(cfg.hedging.rebalance_cadence_sec),
            include_in_daily_pnl: cfg.hedging.include_in_daily_pnl,
            flatten_on_halt_enabled: cfg.hedging.flatten_on_halt,
            ioc_tick_offset: HEDGE_TICK_OFFSET,
            hedge_tick_size: HEDGE_TICK_SIZE,
            lockout_days: cfg.hedging.hedge_lockout_days,
        },
    )
}

/// The hedges: one manager per enabled product where hedging is on, else
/// none.
pub fn build_hedge_fanout(cfg: &BrokerDaemonConfig) -> (f: HedgeFanout)
    ensures
        f.wf(),
        if cfg.hedging.enabled {
            hedges_all(f.managers@, cfg.products@, *cfg)
        } else {
            f.managers@.len() == 0
        },
{
    let mut managers: Vec<HedgeManager> = Vec::new();
    if !cfg.hedging.enabled {
        return HedgeFanout::new(managers);
    }
    let mut i: usize = 0;
    while i < cfg.products.len()
        invariant
            i <= cfg.products@.len(),
            cfg.hedging.enabled,
            hedges_all(managers@, cfg.products@.take(i as int), *cfg),
            forall|k: int| 0 <= k < managers@.len() ==> (#[trigger] managers@[k]).wf(),
        decreases cfg.products@.len() - i,
    {
        let ghost before = managers@;
        assert(cfg.products@.take(i + 1).last() == cfg.products@[i as int]);
        assert(cfg.products@.take(i + 1).drop_last() =~= cfg.products@.take(i as int));
        if cfg.products[i].enabled {
            managers.push(manager_for(&cfg.products[i], cfg));
            assert(managers@.drop_last() =~= before);
        }
        i = i + 1;
    }
    assert(cfg.products@.take(i as int) =~= cfg.products@);
    HedgeFanout::new(managers)
}

/// Asks for the futures that a product may be hedged with: those that expire
/// no sooner than the lockout allows. Nothing where that day is out of range.
pub fn hedge_query(symbol: &str, today: Date, lockout_days: i32) -> (r: Option<ChainQuery>)
    requires
        today.valid(),
    ensures
        match r {
            Some(q) => {
                &&& q.symbol@ == symbol@
                &&& q.kind == Some(ContractKind::Future)
                &&& q.exchange == Exchange::Comex
                &&& q.currency == Currency::Usd
                &&& q.min_expiry is Some
                &&& q.min_expiry->0.valid()
                &&& day_number(q.min_expiry->0) == day_number(today) + lockout_days
            },
            None => day_number(today) + lockout_days > day_number(last_date()) || day_number(today) + lockout_days
                < day_number(first_date()),
        },
{
    match days_later(&today, lockout_days) {
        Some(min_expiry) => Some(
            ChainQuery {
                symbol: symbol.to_owned(),
                kind: Some(ContractKind::Future),
                exchange: Exchange::Comex,
                currency: Currency::Usd,
                min_expiry: Some(min_expiry),
            },
        ),
        None => None,
    }
}

/// Whether the `i`-th contract is the one to hedge with: the first to expire
/// of those that expire on a day or later, and the first in the list of those
/// that expire together.
pub open spec fn is_hedge_choice(chain: Seq<Contract>, min_expiry: Date, i: int) -> bool {
    &&& 0 <= i < chain.len()
    &&& !chain[i].expiry.earlier(min_expiry)
    &&& forall|j: int|
        0 <= j < chain.len() && !(#[trigger] chain[j]).expiry.earlier(min_expiry) ==> !chain[j].expiry.earlier(
            chain[i].expiry,
        )
    &&& forall|j: int|
        0 <= j < i && !(#[trigger] chain[j]).expiry.earlier(min_expiry) ==> chain[i].expiry.earlier(chain[j].expiry)
}

/// The contract to hedge with; none where all expire too soon.
pub fn choose_hedge(chain: &Vec<Contract>, min_expiry: Date) -> (r: Option<Contract>)
    ensures
        match r {
            Some(c) => exists|i: int| #[trigger] is_hedge_choice(chain@, min_expiry, i) && c == chain@[i],
            None => forall|j: int| 0 <= j < chain@.len() ==> (#[trigger] chain@[j]).expiry.earlier(min_expiry),
        },
{
    let mut best: Option<usize> = None;
    let mut i: usize = 0;
    while i < chain.len()
        invariant
            i <= chain@.len(),
            match best {
                Some(b) => b < i && is_hedge_choice(chain@.take(i as int), min_expiry, b as int),
                None => forall|j: int| 0 <= j < i ==> (#[trigger] chain@[j]).expiry.earlier(min_expiry),
            },
        decreases chain@.len() - i,
    {
        let ghost old_best = best;
        let late_enough = !chain[i].expiry.is_before(&min_expiry);
        let sooner = match best {
            Some(b) => chain[i].expiry.is_before(&chain[b].expiry),
            None => true,
        };
        if late_enough && sooner {
            best = Some(i);
        }
        proof {
            let now = chain@.take(i + 1);
            let was = chain@.take(i as int);
            assert forall|j: int| 0 <= j < i implies #[trigger] now[j] == was[j] by {}
            if late_enough && sooner {
                assert(is_hedge_choice(now, min_expiry, i as int)) by {
                    assert forall|j: int|
                        0 <= j < now.len() && !(#[trigger] now[j]).expiry.earlier(
                            min_expiry,
                        ) implies !now[j].expiry.earlier(now[i as int].expiry) by {
                        if j < i {
                            assert(now[j] == was[j]);
                            assert(now[j] == chain@[j]);
                        }
                    }
                    assert forall|j: int|
                        0 <= j < i && !(#[trigger] now[j]).expiry.earlier(
                            min_expiry,
                        ) implies now[i as int].expiry.earlier(now[j].expiry) by {
                        assert(now[j] == was[j]);
                        assert(now[j] == chain@[j]);
                    }
                }
            } else if old_best is Some {
                let b = old_best->0 as int;
                assert(is_hedge_choice(now, min_expiry, b)) by {
                    assert(now[b] == was[b]);
                    assert forall|j: int|
                        0 <= j < now.len() && !(#[trigger] now[j]).expiry.earlier(
                            min_expiry,
                        ) implies !now[j].expiry.earlier(now[b].expiry) by {
                        if j < i {
                            assert(now[j] == was[j]);
                        }
                    }
                    assert forall|j: int|
                        0 <= j < b && !(#[trigger] now[j]).expiry.earlier(
                            min_expiry,
                        ) implies now[b].expiry.earlier(now[j].expiry) by {
                        assert(now[j] == was[j]);
                    }
                }
            }
        }
        i = i + 1;
    }
    assert(chain@.take(i as int) =~= chain@);
    match best {
        Some(b) => {
            assert(is_hedge_choice(chain@, min_expiry, b as int));
            Some(chain[b].clone())
        },
        None => None,
    }
}

// Limits

/// The limits at which trading stops.
#[derive(Debug)]
pub struct RiskLimits {
    pub capital: Double,
    pub margin_kill_pct: Double,
    /// In billionths of a billionth of a dollar.
    pub daily_halt_threshold: Option<i128>,
    pub delta_kill: Double,
    pub vega_kill: Double,
    pub theta_kill: Double,
    pub margin_ceiling_pct: Double,
    pub effective_delta_gating: bool,
}

/// The limits at which trading stops, from the settings.
pub open spec fn limits_of(cfg: BrokerDaemonConfig) -> RiskLimits {
    RiskLimits {
        capital: cfg.constraints.capital,
        margin_kill_pct: cfg.risk.margin_kill_pct,
        daily_halt_threshold: halt_threshold(
            cfg.risk.daily_pnl_halt_pct,
            cfg.risk.max_daily_loss,
            cfg.constraints.capital,
        ),
        delta_kill: cfg.risk.delta_kill,
        vega_kill: cfg.risk.vega_kill,
        theta_kill: cfg.risk.theta_kill,
        margin_ceiling_pct: cfg.constraints.margin_ceiling_pct,
        effective_delta_gating: cfg.constraints.effective_delta_gating,
    }
}

/// The limits at which trading stops, from the settings.
pub fn risk_limits(cfg: &BrokerDaemonConfig) -> (r: RiskLimits)
    ensures
        r == limits_of(*cfg),
{
    RiskLimits {
        capital: cfg.constraints.capital,
        margin_kill_pct: cfg.risk.margin_kill_pct,
        daily_halt_threshold: cfg.resolve_daily_halt_threshold(),
        delta_kill: cfg.risk.delta_kill,
        vega_kill: cfg.risk.vega_kill,
        theta_kill: cfg.risk.theta_kill,
        margin_ceiling_pct: cfg.constraints.margin_ceiling_pct,
        effective_delta_gating: cfg.constraints.effective_delta_gating,
    }
}

// Starting

/// A step of starting up.
#[derive(Clone, Copy, Debug, PartialEq, Eq, Structural)]
pub enum BootStep {
    Connect,
    /// Wait until the broker has sent positions, orders and account: seeding
    /// from less could hide positions.
    AwaitSnapshot,
    ResolveHedges,
    SeedPositions,
    SeedAccount,
    Done,
}

/// What follows a step.
#[derive(Clone, Copy, Debug, PartialEq, Eq, Structural)]
pub enum BootMove {
    Next(BootStep),
    /// Starting up fails.
    Abort,
}

/// What follows a step, given whether it went well: without a connection or
/// the broker's positions nothing starts; the rest can be made up later.
pub open spec fn boot_move(step: BootStep, ok: bool) -> BootMove {
    match step {
        BootStep::Connect => if ok {
            BootMove::Next(BootStep::AwaitSnapshot)
        } else {
            BootMove::Abort
        },
        BootStep::AwaitSnapshot => BootMove::Next(BootStep::ResolveHedges),
        BootStep::ResolveHedges => BootMove::Next(BootStep::SeedPositions),
        BootStep::SeedPositions => if ok {
            BootMove::Next(BootStep::SeedAccount)
        } else {
            BootMove::Abort
        },
        BootStep::SeedAccount => BootMove::Next(BootStep::Done),
        BootStep::Done => BootMove::Next(BootStep::Done),
    }
}

/// What follows a step.
pub fn boot_after(step: BootStep, ok: bool) -> (r: BootMove)
    ensures
        r == boot_move(step, ok),
{
    match step {
        BootStep::Connect => if ok {
            BootMove::Next(BootStep::AwaitSnapshot)
        } else {
            BootMove::Abort
        },
        BootStep::AwaitSnapshot => BootMove::Next(BootStep::ResolveHedges),
        BootStep::ResolveHedges => BootMove::Next(BootStep::SeedPositions),
        BootStep::SeedPositions => if ok {
            BootMove::Next(BootStep::SeedAccount)
        } else {
            BootMove::Abort
        },
        BootStep::SeedAccount => BootMove::Next(BootStep::Done),
        BootStep::Done => BootMove::Next(BootStep::Done),
    }
}

/// Where starting up stands after steps that went as listed.
pub open spec fn boot_run(results: Seq<bool>) -> BootMove
    decreases results.len(),
{
    if results.len() == 0 {
        BootMove::Next(BootStep::Connect)
    } else {
        match boot_run(results.drop_last()) {
            BootMove::Next(step) => boot_move(step, results.last()),
            BootMove::Abort => BootMove::Abort,
        }
    }
}

/// The daemon is never up without having connected and taken the broker's
/// positions in.
pub proof fn law_up_only_when_seeded(results: Seq<bool>)
    requires
        boot_run(results) == BootMove::Next(BootStep::Done),
    ensures
        results.len() >= 5,
        results[0],
        results[3],
    decreases results.len(),
{
    let d = results.drop_last();
    if results.len() == 0 {
    } else if results.len() <= 5 {
        reveal_with_fuel(boot_run, 6);
        let c = d.drop_last();
        let b = c.drop_last();
        let a = b.drop_last();
        assert(results.len() >= 5);
        assert(a.len() == 1 && a.drop_last().len() == 0);
        assert(a.last() == results[0]);
        assert(d.last() == results[3]);
    } else {
        lemma_boot_prefix(results, 5);
        let t = results.take(5);
        reveal_with_fuel(boot_run, 6);
        let d4 = t.drop_last();
        let c = d4.drop_last();
        let b = c.drop_last();
        let a = b.drop_last();
        assert(a.len() == 1 && a.drop_last().len() == 0);
        assert(a.last() == results[0]);
        assert(d4.last() == results[3]);
    }
}

/// What ends well began well: a prefix was not aborted.
proof fn lemma_boot_prefix(results: Seq<bool>, n: int)
    requires
        0 <= n <= results.len(),
        !(boot_run(results) is Abort),
    ensures
        !(boot_run(results.take(n)) is Abort),
    decreases results.len() - n,
{
    if n < results.len() {
        lemma_boot_prefix(results, n + 1);
        assert(results.take(n + 1).drop_last() =~= results.take(n));
    } else {
        assert(results.take(n) =~= results);
    }
}

/// Orders are held back where the setting says `1`, `true` or `TRUE`, and only
/// there.
pub proof fn law_shadow_is_asked_for(setting: Option<Seq<char>>)
    ensures
        mode_of(Some("1"@)) is Shadow,
        mode_of(Some("true"@)) is Shadow,
        mode_of(Some("TRUE"@)) is Shadow,
        mode_of(None) is Live,
        mode_of(setting) is Shadow ==> setting == Some("1"@) || setting == Some("true"@) || setting == Some("TRUE"@),
{
}

/// Every product that is enabled is traded, and no other.
pub proof fn law_enabled_products_are_traded(products: Seq<ProductConfig>, name: Seq<char>)
    ensures
        enabled_names(products).contains(name) <==> exists|i: int| #![trigger products[i]]
            0 <= i < products.len() && products[i].enabled && products[i].name@ == name,
    decreases products.len(),
{
    if products.len() > 0 {
        let rest = products.drop_last();
        let n = products.len() - 1;
        let before = enabled_names(rest);
        let after = enabled_names(products);
        law_enabled_products_are_traded(rest, name);
        assert(products[n] == products.last());
        assert(forall|i: int| 0 <= i < n ==> #[trigger] rest[i] == products[i]);
        if after.contains(name) {
            let k = after.index_of(name);
            if k < before.len() {
                assert(before[k] == name);
                let i = choose|i: int| #![trigger rest[i]] 0 <= i < rest.len() && rest[i].enabled && rest[i].name@ == name;
                assert(products[i] == rest[i]);
            } else {
                assert(products[n].name@ == name);
            }
        }
        if exists|i: int| #![trigger products[i]] 0 <= i < products.len() && products[i].enabled && products[i].name@ == name {
            let i = choose|i: int| #![trigger products[i]]
                0 <= i < products.len() && products[i].enabled && products[i].name@ == name;
            if i < n {
                assert(rest[i].name@ == name);
                let k = before.index_of(name);
                assert(after[k] == name);
            } else {
                assert(after[before.len() as int] == name);
            }
        }
    }
}

/// Every product that is enabled has its hedge, and no other product has one.
pub proof fn law_enabled_products_are_hedged(
    managers: Seq<HedgeManager>,
    products: Seq<ProductConfig>,
    cfg: BrokerDaemonConfig,
    i: int,
)
    requires
        hedges_all(managers, products, cfg),
        0 <= i < products.len(),
        products[i].enabled,
    ensures
        exists|k: int| #![trigger managers[k]] 0 <= k < managers.len() && hedges_product(managers[k], products[i], cfg),
    decreases products.len(),
{
    let rest = products.drop_last();
    let n = products.len() - 1;
    assert(products.last() == products[n]);
    if i == n {
        assert(managers[managers.len() - 1] == managers.last());
    } else {
        assert(rest[i] == products[i]);
        let before = if products.last().enabled {
            managers.drop_last()
        } else {
            managers
        };
        law_enabled_products_are_hedged(before, rest, cfg, i);
        let k = choose|k: int| #![trigger before[k]] 0 <= k < before.len() && hedges_product(before[k], rest[i], cfg);
        assert(managers[k] == before[k]);
    }
}

/// Every hedge is that of a product that is enabled.
pub proof fn law_hedges_are_for_enabled_products(
    managers: Seq<HedgeManager>,
    products: Seq<ProductConfig>,
    cfg: BrokerDaemonConfig,
    k: int,
)
    requires
        hedges_all(managers, products, cfg),
        0 <= k < managers.len(),
    ensures
        exists|i: int| #![trigger products[i]]
            0 <= i < products.len() && products[i].enabled && hedges_product(managers[k], products[i], cfg),
    decreases products.len(),
{
    let rest = products.drop_last();
    let n = products.len() - 1;
    if products.len() > 0 {
        assert(products.last() == products[n]);
        if products.last().enabled && k == managers.len() - 1 {
            assert(managers[k] == managers.last());
        } else {
            let before = if products.last().enabled {
                managers.drop_last()
            } else {
                managers
            };
            law_hedges_are_for_enabled_products(before, rest, cfg, k);
            assert(before[k] == managers[k]);
            let i = choose|i: int| #![trigger rest[i]]
                0 <= i < rest.len() && rest[i].enabled && hedges_product(before[k], rest[i], cfg);
            assert(products[i] == rest[i]);
        }
    }
}

/// A hedge follows the settings: it trades where the mode is `execute` and
/// only there, by its product's multiplier, and starts without a position.
pub proof fn law_hedge_follows_the_settings(m: HedgeManager, p: ProductConfig, cfg: BrokerDaemonConfig)
    requires
        hedges_product(m, p, cfg),
    ensures
        m.cfg.mode is Execute <==> cfg.hedging.mode@ == "execute"@,
        m.cfg.product@ == p.name@,
        p.multiplier.nanos() is Some && !p.multiplier.nan() ==> Some(m.cfg.multiplier) == p.multiplier.nanos(),
        m.cfg.rebalance_on_fill <==> cfg.hedging.rebalance_on_fill,
        m.cfg.include_in_daily_pnl <==> cfg.hedging.include_in_daily_pnl,
        m.cfg.flatten_on_halt_enabled <==> cfg.hedging.flatten_on_halt,
        m.cfg.lockout_days == cfg.hedging.hedge_lockout_days,
        m.state.hedge_qty == 0,
        m.hedge_contract is None,
        !cfg.hedging.tolerance_deltas.signed()
            && !cfg.hedging.tolerance_deltas.nan() && cfg.hedging.tolerance_deltas.exponent() <= 1086
            ==> m.cfg.tolerance_deltas == cfg.hedging.tolerance_deltas.wide(),
        !cfg.hedging.rebalance_cadence_sec.signed()
            && !cfg.hedging.rebalance_cadence_sec.nan() && cfg.hedging.rebalance_cadence_sec.exponent() <= 1086
            ==> m.cfg.rebalance_cadence_ns == cfg.hedging.rebalance_cadence_sec.wide(),
        cfg.hedging.tolerance_deltas.below_zero() ==> m.cfg.tolerance_deltas < 0,
        cfg.hedging.rebalance_cadence_sec.below_zero() ==> m.cfg.rebalance_cadence_ns == 0,
{
    law_wide_amounts_keep_the_sign(cfg.hedging.tolerance_deltas);
    law_wide_amounts_keep_the_sign(cfg.hedging.rebalance_cadence_sec);
}

/// The hedge contract is one of the chain's that does not expire before the
/// limit, and of those none expires before it.
pub proof fn law_hedge_choice_is_the_nearest_allowed(chain: Seq<Contract>, min_expiry: Date, i: int, j: int)
    requires
        is_hedge_choice(chain, min_expiry, i),
        0 <= j < chain.len(),
        min_expiry.valid(),
        chain[i].expiry.valid(),
        chain[j].expiry.valid(),
    ensures
        day_number(min_expiry) <= day_number(chain[i].expiry),
        day_number(min_expiry) <= day_number(chain[j].expiry) ==> day_number(chain[i].expiry) <= day_number(
            chain[j].expiry,
        ),
{
    if chain[i].expiry != min_expiry {
        law_days_follow_dates(min_expiry, chain[i].expiry);
    }
    if chain[j].expiry.earlier(min_expiry) {
        law_days_follow_dates(chain[j].expiry, min_expiry);
    } else if chain[i].expiry != chain[j].expiry {
        law_days_follow_dates(chain[i].expiry, chain[j].expiry);
    }
}

/// Starting up runs through its steps in order; it fails where the gateway
/// cannot be reached or positions cannot be had, and for nothing else.
pub proof fn law_start_runs_in_order(ok: bool)
    ensures
        boot_move(BootStep::Connect, true) == BootMove::Next(BootStep::AwaitSnapshot),
        boot_move(BootStep::Connect, false) is Abort,
        boot_move(BootStep::AwaitSnapshot, ok) == BootMove::Next(BootStep::ResolveHedges),
        boot_move(BootStep::ResolveHedges, ok) == BootMove::Next(BootStep::SeedPositions),
        boot_move(BootStep::SeedPositions, true) == BootMove::Next(BootStep::SeedAccount),
        boot_move(BootStep::SeedPositions, false) is Abort,
        boot_move(BootStep::SeedAccount, ok) == BootMove::Next(BootStep::Done),
{
}

/// The gateway is reached where the settings say, for their account.
pub proof fn law_gateway_is_the_one_set(c: NativeBrokerConfig, s: IbkrSection)
    requires
        reaches(c, s),
    ensures
        c.client.host@ == s.gateway.host@,
        c.client.port == s.gateway.port,
        c.client.client_id == s.client_id,
        c.account@ == s.account@,
        c.client.connect_timeout_ms == 10_000 && c.client.handshake_timeout_ms == 10_000,
{
}

/// Trading stops at the limits that are set, each at its own; the day's loss
/// is measured against the capital that is set.
pub proof fn law_limits_are_those_set(cfg: BrokerDaemonConfig)
    ensures
        limits_of(cfg).delta_kill == cfg.risk.delta_kill,
        limits_of(cfg).theta_kill == cfg.risk.theta_kill,
        limits_of(cfg).vega_kill == cfg.risk.vega_kill,
        limits_of(cfg).margin_kill_pct == cfg.risk.margin_kill_pct,
        limits_of(cfg).margin_ceiling_pct == cfg.constraints.margin_ceiling_pct,
        limits_of(cfg).capital == cfg.constraints.capital,
        limits_of(cfg).effective_delta_gating <==> cfg.constraints.effective_delta_gating,
        cfg.risk.daily_pnl_halt_pct matches Some(p) ==> (!p.nan() && !p.signed() && !cfg.constraints.capital.nan()
            && p.wide() > 0 && cfg.constraints.capital.wide() > 0 ==> (limits_of(cfg).daily_halt_threshold matches Some(t)
            && t < 0)),
        cfg.risk.daily_pnl_halt_pct is None && cfg.risk.max_daily_loss is None ==> limits_of(cfg).daily_halt_threshold is None,
{
    law_halt_is_at_a_loss(cfg.risk.daily_pnl_halt_pct, cfg.risk.max_daily_loss, cfg.constraints.capital);
}

} // verus!
