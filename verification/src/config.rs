//! The daemon's settings: sections, defaults and what is refused.

use crate::double::Double;
use crate::money::{cut, cut_product, fits};
use crate::text::str_eq;
use vstd::prelude::*;
use vstd::string::*;

verus! {

/// All settings.
#[derive(Debug)]
pub struct BrokerDaemonConfig {
    pub broker: BrokerSection,
    pub risk: RiskSection,
    pub constraints: ConstraintsSection,
    pub products: Vec<ProductConfig>,
    pub quoting: QuotingSection,
    pub hedging: HedgingSection,
    pub snapshot: SnapshotSection,
    pub runtime: RuntimeSection,
}

/// Which broker to use.
#[derive(Debug)]
pub struct BrokerSection {
    /// `ibkr` or `ilink`.
    pub kind: String,
    pub ibkr: Option<IbkrSection>,
}

/// How to reach the gateway.
#[derive(Debug)]
pub struct IbkrSection {
    pub gateway: GatewaySection,
    pub client_id: i32,
    pub account: String,
}

/// The gateway's address.
#[derive(Debug)]
pub struct GatewaySection {
    pub host: String,
    pub port: u16,
}

/// When trading stops.
#[derive(Debug)]
pub struct RiskSection {
    /// Loss of the day as a part of capital: 0.05 halts at -5%.
    pub daily_pnl_halt_pct: Option<Double>,
    /// Loss of the day in dollars, negative; counts where no part of capital
    /// is given.
    pub max_daily_loss: Option<Double>,
    pub margin_kill_pct: Double,
    pub delta_kill: Double,
    /// 0 for no limit.
    pub vega_kill: Double,
    /// Negative; 0 for no limit.
    pub theta_kill: Double,
}

/// What a position may grow to.
#[derive(Debug)]
pub struct ConstraintsSection {
    pub capital: Double,
    pub margin_ceiling_pct: Double,
    pub delta_ceiling: Double,
    pub theta_floor: Double,
    pub effective_delta_gating: bool,
    pub margin_escape_enabled: bool,
}

/// A product and the strikes that are watched.
#[derive(Debug)]
pub struct ProductConfig {
    pub name: String,
    pub multiplier: Double,
    /// Volatility where the market gives none.
    pub default_iv: Double,
    pub quote_range_low: i32,
    pub quote_range_high: i32,
    /// Strikes to watch, in increments from the money; the quote range where
    /// there is none.
    pub strike_range_low: Option<i32>,
    pub strike_range_high: Option<i32>,
    pub strike_increment: Double,
    pub enabled: bool,
}

/// How orders are quoted.
#[derive(Debug)]
pub struct QuotingSection {
    pub tick_size: Double,
    pub min_edge_ticks: i32,
    pub max_strike_offset_usd: Double,
    pub gtd_lifetime_s: Double,
    pub gtd_refresh_lead_s: Double,
    pub dead_band_ticks: i32,
    pub min_send_interval_ms: u64,
    /// Both sides are left out where half the spread is over this many times
    /// the edge; 0 for no limit.
    pub skip_if_spread_over_edge_mul: Double,
}

/// How deltas are hedged.
#[derive(Debug)]
pub struct HedgingSection {
    pub enabled: bool,
    /// `observe` or `execute`.
    pub mode: String,
    pub tolerance_deltas: Double,
    pub rebalance_on_fill: bool,
    pub rebalance_cadence_sec: Double,
    pub include_in_daily_pnl: bool,
    pub flatten_on_halt: bool,
    /// Contracts this close to expiry are not used.
    pub hedge_lockout_days: i32,
}

/// Where the state is published.
#[derive(Debug)]
pub struct SnapshotSection {
    pub path: String,
    pub cadence_ms: u64,
}

/// What fits no other section.
#[derive(Debug)]
pub struct RuntimeSection {
    pub log_level: String,
}

/// Why settings were refused.
#[derive(Debug)]
pub enum ConfigError {
    Io(String),
    Yaml(String),
    Validation(String),
}

/// What is written in front of an error.
pub open spec fn error_prefix(e: ConfigError) -> Seq<char> {
    match e {
        ConfigError::Io(_) => "io error reading config: "@,
        ConfigError::Yaml(_) => "yaml parse error: "@,
        ConfigError::Validation(_) => "config validation: "@,
    }
}

/// An error's own words.
pub open spec fn error_detail(e: ConfigError) -> Seq<char> {
    match e {
        ConfigError::Io(s) => s@,
        ConfigError::Yaml(s) => s@,
        ConfigError::Validation(s) => s@,
    }
}

fn joined(a: &str, b: &str) -> (r: String)
    ensures
        r@ == a@ + b@,
{
    let mut out = a.to_owned();
    out.append(b);
    out
}

impl ConfigError {
    /// The error as text.
    pub fn message(&self) -> (r: String)
        ensures
            r@ == error_prefix(*self) + error_detail(*self),
    {
        match self {
            ConfigError::Io(s) => joined("io error reading config: ", s.as_str()),
            ConfigError::Yaml(s) => joined("yaml parse error: ", s.as_str()),
            ConfigError::Validation(s) => joined("config validation: ", s.as_str()),
        }
    }
}

// Defaults

/// 0.30
pub const DEFAULT_IV_BITS: u64 = 0x3fd3_3333_3333_3333;

/// 0.30
pub const DEFAULT_MAX_STRIKE_OFFSET_BITS: u64 = 0x3fd3_3333_3333_3333;

/// 30.0
pub const DEFAULT_GTD_BITS: u64 = 0x403e_0000_0000_0000;

/// 3.5
pub const DEFAULT_GTD_LEAD_BITS: u64 = 0x400c_0000_0000_0000;

/// 4.0
pub const DEFAULT_SPREAD_OVER_EDGE_BITS: u64 = 0x4010_0000_0000_0000;

/// 0.5
pub const DEFAULT_TOLERANCE_BITS: u64 = 0x3fe0_0000_0000_0000;

/// 30.0
pub const DEFAULT_HEDGE_CADENCE_BITS: u64 = 0x403e_0000_0000_0000;

pub const DEFAULT_DEAD_BAND_TICKS: i32 = 1;

pub const DEFAULT_MIN_SEND_MS: u64 = 250;

pub const DEFAULT_LOCKOUT_DAYS: i32 = 30;

pub const DEFAULT_SNAPSHOT_CADENCE_MS: u64 = 250;

/// A setting, or its default.
pub open spec fn setting<T>(given: Option<T>, default: T) -> T {
    match given {
        Some(v) => v,
        None => default,
    }
}

/// A number, or the number with these bits.
pub open spec fn number_or(given: Option<Double>, bits: u64) -> Double {
    setting(given, Double { bits })
}

fn number(given: Option<Double>, bits: u64) -> (r: Double)
    ensures
        r == number_or(given, bits),
{
    match given {
        Some(v) => v,
        None => Double { bits },
    }
}

fn flag(given: Option<bool>, default: bool) -> (r: bool)
    ensures
        r == setting(given, default),
{
    match given {
        Some(v) => v,
        None => default,
    }
}

/// A text, or its default.
pub open spec fn text_or(given: Option<String>, default: Seq<char>) -> Seq<char> {
    match given {
        Some(s) => s@,
        None => default,
    }
}

fn text_setting(given: Option<String>, default: &str) -> (r: String)
    ensures
        r@ == text_or(given, default@),
{
    match given {
        Some(s) => s,
        None => default.to_owned(),
    }
}

/// The settings of a section that may be left out, as they were given.
#[derive(Debug)]
pub struct QuotingOptions {
    pub max_strike_offset_usd: Option<Double>,
    pub gtd_lifetime_s: Option<Double>,
    pub gtd_refresh_lead_s: Option<Double>,
    pub dead_band_ticks: Option<i32>,
    pub min_send_interval_ms: Option<u64>,
    pub skip_if_spread_over_edge_mul: Option<Double>,
}

impl QuotingSection {
    /// The section with defaults for what was left out.
    pub fn new(tick_size: Double, min_edge_ticks: i32, given: QuotingOptions) -> (r: QuotingSection)
        ensures
            r == (QuotingSection {
                tick_size,
                min_edge_ticks,
                max_strike_offset_usd: number_or(given.max_strike_offset_usd, DEFAULT_MAX_STRIKE_OFFSET_BITS),
                gtd_lifetime_s: number_or(given.gtd_lifetime_s, DEFAULT_GTD_BITS),
                gtd_refresh_lead_s: number_or(given.gtd_refresh_lead_s, DEFAULT_GTD_LEAD_BITS),
                dead_band_ticks: setting(given.dead_band_ticks, DEFAULT_DEAD_BAND_TICKS),
                min_send_interval_ms: setting(given.min_send_interval_ms, DEFAULT_MIN_SEND_MS),
                skip_if_spread_over_edge_mul: number_or(
                    given.skip_if_spread_over_edge_mul,
                    DEFAULT_SPREAD_OVER_EDGE_BITS,
                ),
            }),
    {
        QuotingSection {
            tick_size,
            min_edge_ticks,
            max_strike_offset_usd: number(given.max_strike_offset_usd, DEFAULT_MAX_STRIKE_OFFSET_BITS),
            gtd_lifetime_s: number(given.gtd_lifetime_s, DEFAULT_GTD_BITS),
            gtd_refresh_lead_s: number(given.gtd_refresh_lead_s, DEFAULT_GTD_LEAD_BITS),
            dead_band_ticks: match given.dead_band_ticks {
                Some(n) => n,
                None => DEFAULT_DEAD_BAND_TICKS,
            },
            min_send_interval_ms: match given.min_send_interval_ms {
                Some(n) => n,
                None => DEFAULT_MIN_SEND_MS,
            },
            skip_if_spread_over_edge_mul: number(given.skip_if_spread_over_edge_mul, DEFAULT_SPREAD_OVER_EDGE_BITS),
        }
    }
}

/// The settings of a section that may be left out, as they were given.
#[derive(Debug)]
pub struct HedgingOptions {
    pub enabled: Option<bool>,
    pub mode: Option<String>,
    pub tolerance_deltas: Option<Double>,
    pub rebalance_on_fill: Option<bool>,
    pub rebalance_cadence_sec: Option<Double>,
    pub include_in_daily_pnl: Option<bool>,
    pub flatten_on_halt: Option<bool>,
    pub hedge_lockout_days: Option<i32>,
}

impl HedgingSection {
    /// The section with defaults for what was left out: off, observing,
    /// everything else on.
    pub fn new(given: HedgingOptions) -> (r: HedgingSection)
        ensures
            r.enabled == setting(given.enabled, false),
            r.mode@ == text_or(given.mode, "observe"@),
            r.tolerance_deltas == number_or(given.tolerance_deltas, DEFAULT_TOLERANCE_BITS),
            r.rebalance_on_fill == setting(given.rebalance_on_fill, true),
            r.rebalance_cadence_sec == number_or(given.rebalance_cadence_sec, DEFAULT_HEDGE_CADENCE_BITS),
            r.include_in_daily_pnl == setting(given.include_in_daily_pnl, true),
            r.flatten_on_halt == setting(given.flatten_on_halt, true),
            r.hedge_lockout_days == setting(given.hedge_lockout_days, DEFAULT_LOCKOUT_DAYS),
    {
        HedgingSection {
            enabled: flag(given.enabled, false),
            mode: text_setting(given.mode, "observe"),
            tolerance_deltas: number(given.tolerance_deltas, DEFAULT_TOLERANCE_BITS),
            rebalance_on_fill: flag(given.rebalance_on_fill, true),
            rebalance_cadence_sec: number(given.rebalance_cadence_sec, DEFAULT_HEDGE_CADENCE_BITS),
            include_in_daily_pnl: flag(given.include_in_daily_pnl, true),
            flatten_on_halt: flag(given.flatten_on_halt, true),
            hedge_lockout_days: match given.hedge_lockout_days {
                Some(n) => n,
                None => DEFAULT_LOCKOUT_DAYS,
            },
        }
    }
}

impl SnapshotSection {
    /// The section with defaults for what was left out.
    pub fn new(path: Option<String>, cadence_ms: Option<u64>) -> (r: SnapshotSection)
        ensures
            r.path@ == text_or(path, "/app/data/snapshot.json"@),
            r.cadence_ms == setting(cadence_ms, DEFAULT_SNAPSHOT_CADENCE_MS),
    {
        SnapshotSection {
            path: text_setting(path, "/app/data/snapshot.json"),
            cadence_ms: match cadence_ms {
                Some(n) => n,
                None => DEFAULT_SNAPSHOT_CADENCE_MS,
            },
        }
    }
}

impl Default for SnapshotSection {
    fn default() -> (r: SnapshotSection)
        ensures
            r.path@ == "/app/data/snapshot.json"@,
            r.cadence_ms == DEFAULT_SNAPSHOT_CADENCE_MS,
    {
        SnapshotSection::new(None, None)
    }
}

impl RuntimeSection {
    /// The section as it was written, with `info` where it names no level.
    pub fn new(log_level: Option<String>) -> (r: RuntimeSection)
        ensures
            r.log_level@ == text_or(log_level, "info"@),
    {
        RuntimeSection { log_level: text_setting(log_level, "info") }
    }
}

impl Default for RuntimeSection {
    /// A section that was left out altogether names no level.
    fn default() -> (r: RuntimeSection)
        ensures
            r.log_level@ == ""@,
    {
        RuntimeSection { log_level: "".to_owned() }
    }
}

/// The constraints with defaults for what was left out.
pub fn constraints_section(
    capital: Double,
    margin_ceiling_pct: Double,
    delta_ceiling: Double,
    theta_floor: Double,
    effective_delta_gating: Option<bool>,
    margin_escape_enabled: Option<bool>,
) -> (r: ConstraintsSection)
    ensures
        r == (ConstraintsSection {
            capital,
            margin_ceiling_pct,
            delta_ceiling,
            theta_floor,
            effective_delta_gating: setting(effective_delta_gating, true),
            margin_escape_enabled: setting(margin_escape_enabled, false),
        }),
{
    ConstraintsSection {
        capital,
        margin_ceiling_pct,
        delta_ceiling,
        theta_floor,
        effective_delta_gating: flag(effective_delta_gating, true),
        margin_escape_enabled: flag(margin_escape_enabled, false),
    }
}

/// A product's default volatility where none was given.
pub fn product_iv(given: Option<Double>) -> (r: Double)
    ensures
        r == number_or(given, DEFAULT_IV_BITS),
{
    number(given, DEFAULT_IV_BITS)
}

impl ProductConfig {
    /// Lowest and highest strike to watch, in increments from the money.
    pub open spec fn range_of(self) -> (i32, i32) {
        (
            setting(self.strike_range_low, self.quote_range_low),
            setting(self.strike_range_high, self.quote_range_high),
        )
    }

    /// Lowest and highest strike to watch, in increments from the money.
    pub fn strike_range(&self) -> (r: (i32, i32))
        ensures
            r == self.range_of(),
    {
        let low: i32 = match self.strike_range_low {
            Some(n) => n,
            None => self.quote_range_low,
        };
        let high: i32 = match self.strike_range_high {
            Some(n) => n,
            None => self.quote_range_high,
        };
        (low, high)
    }
}

// Validation

/// Whether a product is refused for its multiplier. A multiplier that is no
/// number is not refused.
pub open spec fn bad_multiplier(p: ProductConfig) -> bool {
    p.multiplier.at_most(Double { bits: 0 })
}

/// The first product that is refused for its multiplier.
pub open spec fn first_bad(products: Seq<ProductConfig>) -> Option<ProductConfig>
    decreases products.len(),
{
    if products.len() == 0 {
        None
    } else if bad_multiplier(products.first()) {
        Some(products.first())
    } else {
        first_bad(products.drop_first())
    }
}

/// Whether some product is enabled.
pub open spec fn any_enabled(products: Seq<ProductConfig>) -> bool {
    exists|i: int| 0 <= i < products.len() && (#[trigger] products[i]).enabled
}

/// Why settings are refused: the first of the rules that they break.
pub open spec fn refusal(c: BrokerDaemonConfig) -> Option<Seq<char>> {
    if c.constraints.capital.at_most(Double { bits: 0 }) {
        Some("constraints.capital must be > 0"@)
    } else if c.products@.len() == 0 {
        Some("at least one product required"@)
    } else if !any_enabled(c.products@) {
        Some("at least one product must be enabled"@)
    } else if c.broker.kind@ != "ibkr"@ && c.broker.kind@ != "ilink"@ {
        Some("broker.kind must be 'ibkr' or 'ilink', got "@ + c.broker.kind@)
    } else if c.broker.kind@ == "ibkr"@ && c.broker.ibkr is None {
        Some("broker.kind=ibkr requires broker.ibkr section"@)
    } else {
        match first_bad(c.products@) {
            Some(p) => Some("product "@ + p.name@ + ": multiplier must be > 0"@),
            None => None,
        }
    }
}

/// The loss of the day at which trading halts, in billionths of a billionth
/// of a dollar: the given part of capital, else the given loss. For one that
/// is no number it is the least amount that there is, for no loss reaches it.
pub open spec fn halt_threshold(pct: Option<Double>, loss: Option<Double>, capital: Double) -> Option<i128> {
    match pct {
        Some(p) => if p.nan() || capital.nan() {
            Some(i128::MIN)
        } else {
            Some(cut(-p.wide() * capital.wide()))
        },
        None => match loss {
            Some(l) => if l.nan() {
                Some(i128::MIN)
            } else {
                Some(cut(l.wide() * 1_000_000_000))
            },
            None => None,
        },
    }
}

impl BrokerDaemonConfig {
    /// Whether the settings can be used; if not, the first reason why not.
    pub fn validate(&self) -> (r: Result<(), ConfigError>)
        ensures
            match r {
                Ok(_) => refusal(*self) is None,
                Err(ConfigError::Validation(why)) => refusal(*self) == Some(why@),
                Err(_) => false,
            },
    {
        if self.constraints.capital.le(&Double::zero()) {
            return Err(ConfigError::Validation("constraints.capital must be > 0".to_owned()));
        }
        if self.products.len() == 0 {
            return Err(ConfigError::Validation("at least one product required".to_owned()));
        }
        let mut enabled = false;
        let mut i: usize = 0;
        while i < self.products.len()
            invariant
                i <= self.products@.len(),
                enabled == exists|j: int| 0 <= j < i && (#[trigger] self.products@[j]).enabled,
            decreases self.products@.len() - i,
        {
            if self.products[i].enabled {
                enabled = true;
            }
            i = i + 1;
        }
        if !enabled {
            return Err(ConfigError::Validation("at least one product must be enabled".to_owned()));
        }
        let kind = self.broker.kind.as_str();
        if !str_eq(kind, "ibkr") && !str_eq(kind, "ilink") {
            return Err(ConfigError::Validation(joined("broker.kind must be 'ibkr' or 'ilink', got ", kind)));
        }
        if str_eq(kind, "ibkr") && self.broker.ibkr.is_none() {
            return Err(ConfigError::Validation("broker.kind=ibkr requires broker.ibkr section".to_owned()));
        }
        let mut i: usize = 0;
        assert(self.products@.skip(0) =~= self.products@);
        while i < self.products.len()
            invariant
                i <= self.products@.len(),
                refusal(*self) == (match first_bad(self.products@) {
                    Some(p) => Some("product "@ + p.name@ + ": multiplier must be > 0"@),
                    None => None,
                }),
                first_bad(self.products@) == first_bad(self.products@.skip(i as int)),
            decreases self.products@.len() - i,
        {
            let ghost rest = self.products@.skip(i as int);
            assert(rest.first() == self.products@[i as int]);
            assert(rest.drop_first() =~= self.products@.skip(i + 1));
            if self.products[i].multiplier.le(&Double::zero()) {
                let front = joined("product ", self.products[i].name.as_str());
                return Err(ConfigError::Validation(joined(front.as_str(), ": multiplier must be > 0")));
            }
            i = i + 1;
        }
        Ok(())
    }

    /// The loss of the day at which trading halts, in billionths of a
    /// billionth of a dollar: the part of capital where one is given, else the
    /// absolute loss.
    pub fn resolve_daily_halt_threshold(&self) -> (r: Option<i128>)
        ensures
            r == halt_threshold(self.risk.daily_pnl_halt_pct, self.risk.max_daily_loss, self.constraints.capital),
    {
        match self.risk.daily_pnl_halt_pct {
            Some(p) => {
                if p.is_nan() || self.constraints.capital.is_nan() {
                    return Some(i128::MIN);
                }
                Some(cut_product(-p.to_wide(), self.constraints.capital.to_wide()))
            },
            None => match self.risk.max_daily_loss {
                Some(l) => {
                    if l.is_nan() {
                        return Some(i128::MIN);
                    }
                    Some(cut_product(l.to_wide(), 1_000_000_000))
                },
                None => None,
            },
        }
    }
}

/// Settings that pass have capital, an enabled product and only positive
/// multipliers.
pub proof fn law_valid_settings_are_usable(c: BrokerDaemonConfig)
    requires
        refusal(c) is None,
    ensures
        !c.constraints.capital.at_most(Double { bits: 0 }),
        any_enabled(c.products@),
        c.broker.kind@ == "ibkr"@ ==> c.broker.ibkr is Some,
        forall|i: int| 0 <= i < c.products@.len() ==> !bad_multiplier(#[trigger] c.products@[i]),
{
    lemma_none_bad(c.products@);
}

proof fn lemma_none_bad(products: Seq<ProductConfig>)
    requires
        first_bad(products) is None,
    ensures
        forall|i: int| 0 <= i < products.len() ==> !bad_multiplier(#[trigger] products[i]),
    decreases products.len(),
{
    if products.len() > 0 {
        lemma_none_bad(products.drop_first());
        assert forall|i: int| 0 <= i < products.len() implies !bad_multiplier(#[trigger] products[i]) by {
            if i > 0 {
                assert(products[i] == products.drop_first()[i - 1]);
            }
        }
    }
}

/// Settings are taken exactly where there is capital, a product that is
/// enabled, a gateway that is known with what it needs, and a multiplier for
/// every product that is not zero or less.
pub proof fn law_settings_are_refused_for_a_reason(c: BrokerDaemonConfig)
    ensures
        refusal(c) is None <==> {
            &&& c.constraints.capital.nan() || c.constraints.capital.above_zero()
            &&& exists|i: int| 0 <= i < c.products@.len() && (#[trigger] c.products@[i]).enabled
            &&& c.broker.kind@ == "ibkr"@ && c.broker.ibkr is Some || c.broker.kind@ == "ilink"@
            &&& forall|i: int|
                0 <= i < c.products@.len() ==> (#[trigger] c.products@[i]).multiplier.nan()
                    || c.products@[i].multiplier.above_zero()
        },
{
    reveal_strlit("ibkr");
    reveal_strlit("ilink");
    assert("ibkr"@.len() == 4);
    assert("ilink"@.len() == 5);
    lemma_first_bad(c.products@);
    assert((Double { bits: 0 }).rank() == 0 && !(Double { bits: 0 }).nan());
}

proof fn lemma_first_bad(products: Seq<ProductConfig>)
    ensures
        first_bad(products) is None <==> forall|i: int|
            0 <= i < products.len() ==> (#[trigger] products[i]).multiplier.nan() || products[i].multiplier.above_zero(),
    decreases products.len(),
{
    assert((Double { bits: 0 }).rank() == 0 && !(Double { bits: 0 }).nan());
    if products.len() > 0 {
        let rest = products.drop_first();
        lemma_first_bad(rest);
        assert(forall|i: int| 0 <= i < rest.len() ==> #[trigger] rest[i] == products[i + 1]);
        assert(products.first() == products[0]);
        if first_bad(products) is None {
            assert forall|i: int| 0 <= i < products.len() implies (#[trigger] products[i]).multiplier.nan()
                || products[i].multiplier.above_zero() by {
                if i > 0 {
                    assert(rest[i - 1].multiplier.nan() || rest[i - 1].multiplier.above_zero());
                }
            }
        } else if bad_multiplier(products.first()) {
            assert(!(products[0].multiplier.nan() || products[0].multiplier.above_zero()));
        } else {
            let i = choose|i: int|
                0 <= i < rest.len() && !((#[trigger] rest[i]).multiplier.nan() || rest[i].multiplier.above_zero());
            assert(products[i + 1] == rest[i]);
        }
    }
}

/// Trading halts at a loss. A part of capital comes first: the threshold is
/// that part, lost. Else it is the loss that is given, as it is given.
/// Without either nothing halts.
pub proof fn law_halt_is_at_a_loss(pct: Option<Double>, loss: Option<Double>, capital: Double)
    ensures
        pct is None && loss is None ==> halt_threshold(pct, loss, capital) is None,
        pct is Some || loss is Some ==> halt_threshold(pct, loss, capital) is Some,
        pct matches Some(p) ==> (!p.nan() && !capital.nan() && fits(p.wide() * capital.wide()) && fits(
            -(p.wide() * capital.wide()),
        ) ==> halt_threshold(pct, loss, capital)->0 + p.wide() * capital.wide() == 0),
        pct matches Some(p) ==> (!p.nan() && !capital.nan() && p.wide() > 0 && capital.wide() > 0 ==> halt_threshold(
            pct,
            loss,
            capital,
        )->0 < 0),
        pct is None && loss is Some && !loss->0.nan() && fits(loss->0.wide() * 1_000_000_000) ==> halt_threshold(
            pct,
            loss,
            capital,
        )->0 == loss->0.wide() * 1_000_000_000,
{
    if pct is Some {
        let a = pct->0.wide();
        let b = capital.wide();
        assert((-a) * b == -(a * b)) by (nonlinear_arith);
        assert(a > 0 && b > 0 ==> a * b > 0) by (nonlinear_arith);
    }
}

/// Strikes are watched over the range that is set for them, each end on its
/// own, else over the quote range.
pub proof fn law_strike_range_falls_back(p: ProductConfig)
    ensures
        p.strike_range_low matches Some(l) ==> p.range_of().0 == l,
        p.strike_range_high matches Some(h) ==> p.range_of().1 == h,
        p.strike_range_low is None ==> p.range_of().0 == p.quote_range_low,
        p.strike_range_high is None ==> p.range_of().1 == p.quote_range_high,
{
}

/// A setting that is given stands; one that is not has its default.
pub proof fn law_given_settings_stand(number: Option<Double>, bits: u64, text: Option<String>, default: Seq<char>, flag: Option<bool>, usual: bool)
    ensures
        number matches Some(n) ==> number_or(number, bits) == n,
        number is None ==> number_or(number, bits).bits == bits,
        text matches Some(t) ==> text_or(text, default) == t@,
        text is None ==> text_or(text, default) == default,
        flag matches Some(f) ==> setting(flag, usual) == f,
        flag is None ==> setting(flag, usual) == usual,
{
}

} // verus!
