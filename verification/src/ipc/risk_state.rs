//! The risk figures that the trader gates its orders on.

use crate::api::AccountSnapshot;
use crate::double::Double;
use crate::hedge::fanout::HedgeFanout;
use crate::hedge::manager::HedgeManager;
use crate::tasks::fills::with_hedges;
use vstd::prelude::*;

verus! {

/// A hedge position that was confirmed longer ago does not count.
pub const HEDGE_STATE_MAX_AGE_NS: u64 = 300_000_000_000;

/// Account figures that are older do not count.
pub const MARGIN_CACHE_MAX_AGE_NS: u64 = 30_000_000_000;

/// The part of capital that margin takes.
#[derive(Clone, Copy, Debug, PartialEq, Eq, Structural)]
pub enum MarginShare {
    /// All of it: the figures are too old to rely on, so nothing may be
    /// placed.
    Blocked,
    /// Margin over capital.
    Ratio { margin_usd: Double, capital: Double },
    /// No capital to measure against.
    Unmeasured,
}

/// What the trader is told of the position.
#[derive(Clone, Copy, Debug)]
pub struct RiskState {
    pub margin: MarginShare,
    pub hedge_delta: i64,
    /// Options and hedges together, in billionths.
    pub effective_delta: i128,
    pub total_contracts: i64,
}

/// The hedge position in futures, without products whose position was not
/// confirmed recently.
pub open spec fn fresh_hedges(managers: Seq<HedgeManager>, now_ns: u64) -> int
    decreases managers.len(),
{
    if managers.len() == 0 {
        0
    } else {
        fresh_hedges(managers.drop_last(), now_ns) + (if managers.last().state.fresh(now_ns, HEDGE_STATE_MAX_AGE_NS) {
            managers.last().state.hedge_qty as int
        } else {
            0
        })
    }
}

/// Contracts held, long or short.
pub open spec fn held(quantities: Seq<i32>) -> int
    decreases quantities.len(),
{
    if quantities.len() == 0 {
        0
    } else {
        held(quantities.drop_last()) + (if quantities.last() >= 0 {
            quantities.last() as int
        } else {
            -(quantities.last() as int)
        })
    }
}

/// Whether account figures can be relied on.
pub open spec fn account_fresh(a: AccountSnapshot, now_ns: u64) -> bool {
    a.timestamp_ns > 0 && now_ns - a.timestamp_ns <= MARGIN_CACHE_MAX_AGE_NS
}

/// The part of capital that margin takes.
pub open spec fn margin_share(a: AccountSnapshot, capital: Double, now_ns: u64) -> MarginShare {
    if !account_fresh(a, now_ns) {
        MarginShare::Blocked
    } else if capital.above_zero() {
        MarginShare::Ratio { margin_usd: a.maintenance_margin, capital }
    } else {
        MarginShare::Unmeasured
    }
}

/// Sums the hedges that were confirmed recently.
fn sum_hedges(managers: &[HedgeManager], now_ns: u64) -> (r: i64)
    requires
        managers@.len() <= 0xffff_ffff,
    ensures
        r == fresh_hedges(managers@, now_ns),
        -0x8000_0000_0000_0000 < r,
{
    let mut sum: i64 = 0;
    let mut i: usize = 0;
    while i < managers.len()
        invariant
            i <= managers@.len() <= 0xffff_ffff,
            sum == fresh_hedges(managers@.take(i as int), now_ns),
            -(i as int) * 0x8000_0000 <= sum <= i * 0x8000_0000,
        decreases managers@.len() - i,
    {
        assert(managers@.take(i + 1).drop_last() =~= managers@.take(i as int));
        assert(managers@.take(i + 1).last() == managers@[i as int]);
        if managers[i].state().is_fresh(now_ns, HEDGE_STATE_MAX_AGE_NS) {
            sum = sum + managers[i].hedge_qty() as i64;
        }
        i = i + 1;
    }
    assert(managers@.take(i as int) =~= managers@);
    sum
}

fn sum_contracts(quantities: &Vec<i32>) -> (r: i64)
    requires
        quantities@.len() <= 0xffff_ffff,
    ensures
        r == held(quantities@),
{
    let mut sum: i64 = 0;
    let mut i: usize = 0;
    while i < quantities.len()
        invariant
            i <= quantities@.len() <= 0xffff_ffff,
            sum == held(quantities@.take(i as int)),
            0 <= sum <= i * 0x8000_0000,
        decreases quantities@.len() - i,
    {
        assert(quantities@.take(i + 1).drop_last() =~= quantities@.take(i as int));
        assert(quantities@.take(i + 1).last() == quantities@[i as int]);
        let q: i64 = quantities[i] as i64;
        if q >= 0 {
            sum = sum + q;
        } else {
            sum = sum - q;
        }
        i = i + 1;
    }
    assert(quantities@.take(i as int) =~= quantities@);
    sum
}

/// What the trader is told of the position, from the options' delta in
/// billionths, the option positions, the hedges and the account.
pub fn risk_state(
    options_delta: i64,
    quantities: &Vec<i32>,
    hedges: &HedgeFanout,
    account: &AccountSnapshot,
    capital: Double,
    now_ns: u64,
) -> (r: RiskState)
    requires
        quantities@.len() <= 0xffff_ffff,
        hedges.managers@.len() <= 0xffff_ffff,
    ensures
        r.hedge_delta == fresh_hedges(hedges.managers@, now_ns),
        r.effective_delta == with_hedges(options_delta as int, r.hedge_delta as int),
        r.total_contracts == held(quantities@),
        r.margin == margin_share(*account, capital, now_ns),
{
    let hedge_delta: i64 = sum_hedges(hedges.managers(), now_ns);
    let fresh = account.timestamp_ns > 0 && (now_ns <= account.timestamp_ns || now_ns - account.timestamp_ns
        <= MARGIN_CACHE_MAX_AGE_NS);
    let margin = if !fresh {
        MarginShare::Blocked
    } else if capital.is_positive() {
        MarginShare::Ratio { margin_usd: account.maintenance_margin, capital }
    } else {
        MarginShare::Unmeasured
    };
    RiskState {
        margin,
        hedge_delta,
        effective_delta: options_delta as i128 + hedge_delta as i128 * 1_000_000_000,
        total_contracts: sum_contracts(quantities),
    }
}

/// Account figures that were never read, or are too old, block the trader
/// whatever they say.
pub proof fn law_stale_account_blocks(a: AccountSnapshot, capital: Double, now_ns: u64)
    requires
        a.timestamp_ns == 0 || now_ns > a.timestamp_ns + MARGIN_CACHE_MAX_AGE_NS,
    ensures
        margin_share(a, capital, now_ns) is Blocked,
{
}

/// A hedge position that was not confirmed recently counts for nothing.
pub proof fn law_stale_hedge_counts_nothing(m: HedgeManager, now_ns: u64)
    requires
        !m.state.fresh(now_ns, HEDGE_STATE_MAX_AGE_NS),
    ensures
        fresh_hedges(seq![m], now_ns) == 0,
{
    assert(seq![m].drop_last() =~= Seq::<HedgeManager>::empty());
    reveal_with_fuel(fresh_hedges, 2);
}

/// A hedge counts, with its sign, for five minutes from its last
/// confirmation, and one that never was confirmed does not; the hedges add
/// up.
pub proof fn law_fresh_hedges_add_up(managers: Seq<HedgeManager>, m: HedgeManager, now_ns: u64)
    ensures
        fresh_hedges(Seq::empty(), now_ns) == 0,
        m.state.last_update_ns > 0 && now_ns <= m.state.last_update_ns + 300_000_000_000 ==> fresh_hedges(
            managers.push(m),
            now_ns,
        ) == fresh_hedges(managers, now_ns) + m.state.hedge_qty,
        m.state.last_update_ns == 0 || now_ns > m.state.last_update_ns + 300_000_000_000 ==> fresh_hedges(
            managers.push(m),
            now_ns,
        ) == fresh_hedges(managers, now_ns),
{
    assert(managers.push(m).drop_last() =~= managers);
}

/// Contracts held count one each, long or short: a position and its mirror
/// image count alike, and none is worth less than nothing.
pub proof fn law_long_and_short_count_alike(quantities: Seq<i32>, q: i32)
    ensures
        held(Seq::empty()) == 0,
        q >= 0 ==> held(quantities.push(q)) - held(quantities) == q,
        q <= 0 ==> held(quantities) - held(quantities.push(q)) == q,
{
    assert(quantities.push(q).drop_last() =~= quantities);
}

/// Account figures that were read no more than half a minute ago are relied
/// on: the trader is told the margin over the capital, where there is any.
pub proof fn law_fresh_account_is_told(a: AccountSnapshot, capital: Double, now_ns: u64)
    requires
        a.timestamp_ns > 0,
        now_ns <= a.timestamp_ns + 30_000_000_000,
    ensures
        capital.above_zero() ==> margin_share(a, capital, now_ns) == (MarginShare::Ratio {
            margin_usd: a.maintenance_margin,
            capital,
        }),
        !capital.above_zero() ==> margin_share(a, capital, now_ns) is Unmeasured,
{
}

/// Account figures that are older than half a minute are not.
pub proof fn law_old_account_is_not_told(a: AccountSnapshot, capital: Double, now_ns: u64)
    requires
        now_ns > a.timestamp_ns + 30_000_000_000,
    ensures
        margin_share(a, capital, now_ns) is Blocked,
{
}

} // verus!
