//! One product's hedge: when to trade, and what a fill does.

use crate::api::{Contract, InstrumentId, Side};
use crate::hedge::state::{filled, HedgeState};
use crate::money::cut;
use crate::text::str_eq;
use std::collections::VecDeque;
use vstd::prelude::*;
use vstd::string::*;

verus! {

/// Whether hedges are traded or only recorded.
#[derive(Debug, Clone, Copy, PartialEq, Eq, Structural)]
pub enum HedgeMode {
    /// Record the trade and assume it filled.
    Observe,
    /// Trade; the broker's fills move the position.
    Execute,
}

/// How a product is hedged.
#[derive(Debug)]
pub struct HedgeConfig {
    pub product: String,
    /// Dollars per point, in billionths.
    pub multiplier: i64,
    pub mode: HedgeMode,
    /// Largest absolute delta that is left alone, in billionths; where it is
    /// negative, none is.
    pub tolerance_deltas: i128,
    pub rebalance_on_fill: bool,
    /// Least time between periodic rebalances, in nanoseconds.
    pub rebalance_cadence_ns: u128,
    pub include_in_daily_pnl: bool,
    pub flatten_on_halt_enabled: bool,
    /// How many ticks past the market a hedge order is priced.
    pub ioc_tick_offset: i32,
    /// In billionths.
    pub hedge_tick_size: i64,
    /// Contracts this close to expiry are not used; 0 for no limit.
    pub lockout_days: i32,
}

/// What a manager wants done.
#[derive(Debug)]
pub enum HedgeAction {
    /// Nothing.
    Idle,
    /// Trade.
    Place {
        is_buy: bool,
        qty: u32,
        reason: String,
        /// The delta that is corrected, in billionths.
        effective_delta_pre: i128,
        /// The position once the trade fills.
        target_qty: i32,
    },
    /// Record a trade that is not made.
    LogOnly { is_buy: bool, qty: u32, reason: String, forward: i64 },
}

/// How many executions are remembered.
pub const PROCESSED_EXEC_IDS_MAX: usize = 10_000;

/// One whole delta, in billionths.
pub const ONE_DELTA: i64 = 1_000_000_000;

/// A fill as the broker reports it, its price in billionths.
#[derive(Debug)]
pub struct HedgeFill {
    pub instrument_id: InstrumentId,
    pub exec_id: String,
    pub side: Side,
    pub qty: u32,
    pub price: i64,
}

/// A delta rounded to whole contracts, halves away from zero.
pub open spec fn whole_contracts(delta: int) -> int {
    if delta >= 0 {
        (2 * delta + ONE_DELTA) / (2 * ONE_DELTA as int)
    } else {
        -((2 * (-delta) + ONE_DELTA) / (2 * ONE_DELTA as int))
    }
}

/// An integer cut to what 32 bits hold.
pub open spec fn saturated(x: int) -> int {
    if x < i32::MIN {
        i32::MIN as int
    } else if x > i32::MAX {
        i32::MAX as int
    } else {
        x
    }
}

/// The hedge position that offsets a delta.
pub open spec fn target_for(net_delta: i64) -> int {
    saturated(-whole_contracts(net_delta as int))
}

/// The time since an earlier time, 0 where it is not earlier.
pub open spec fn elapsed(earlier: u64, now: u64) -> int {
    if now >= earlier {
        now - earlier
    } else {
        0
    }
}

fn target_qty_for(net_delta: i64) -> (r: i32)
    ensures
        r == target_for(net_delta),
{
    let d: i128 = net_delta as i128;
    let m: i128 = if d >= 0 {
        d
    } else {
        -d
    };
    let n: i128 = (2 * m + 1_000_000_000) / 2_000_000_000;
    let t: i128 = if d >= 0 {
        -n
    } else {
        n
    };
    if t < -0x8000_0000 {
        i32::MIN
    } else if t > 0x7fff_ffff {
        i32::MAX
    } else {
        t as i32
    }
}

/// One product's hedge.
#[derive(Debug)]
pub struct HedgeManager {
    pub cfg: HedgeConfig,
    pub state: HedgeState,
    /// The future that is traded.
    pub hedge_contract: Option<Contract>,
    /// When the last periodic rebalance ran.
    pub last_periodic_ns: u64,
    /// Until when the cadence is bypassed; 0 for not at all.
    pub priority_drain_until_ns: u64,
    /// Executions already applied, oldest first.
    pub processed_exec_ids: VecDeque<String>,
}

/// Whether an execution is among those applied.
pub open spec fn seen(ids: Seq<String>, id: Seq<char>) -> bool {
    exists|i: int| 0 <= i < ids.len() && (#[trigger] ids[i])@ == id
}

impl HedgeManager {
    /// No execution is remembered twice, nor more than the limit.
    pub open spec fn wf(self) -> bool {
        &&& self.processed_exec_ids@.len() <= PROCESSED_EXEC_IDS_MAX
        &&& forall|i: int, j: int|
            0 <= i < j < self.processed_exec_ids@.len() ==> (#[trigger] self.processed_exec_ids@[i])@ != (
            #[trigger] self.processed_exec_ids@[j])@
    }

    /// A manager without a position.
    pub fn new(cfg: HedgeConfig) -> (r: HedgeManager)
        ensures
            r.wf(),
            r.cfg == cfg,
            r.state == (HedgeState { hedge_qty: 0, avg_entry_f: 0, realized_pnl_usd: 0, last_update_ns: 0 }),
            r.hedge_contract is None,
            r.last_periodic_ns == 0,
            r.priority_drain_until_ns == 0,
            r.processed_exec_ids@ == Seq::<String>::empty(),
    {
        HedgeManager {
            cfg,
            state: HedgeState::new(),
            hedge_contract: None,
            last_periodic_ns: 0,
            priority_drain_until_ns: 0,
            processed_exec_ids: VecDeque::new(),
        }
    }

    /// How the product is hedged.
    pub fn config(&self) -> (r: &HedgeConfig)
        ensures
            *r == self.cfg,
    {
        &self.cfg
    }

    /// The hedge position.
    pub fn state(&self) -> (r: &HedgeState)
        ensures
            *r == self.state,
    {
        &self.state
    }

    /// The hedge quantity.
    pub fn hedge_qty(&self) -> (r: i32)
        ensures
            r == self.state.hedge_qty,
    {
        self.state.hedge_qty
    }

    /// The open hedge's profit at a price.
    pub fn mtm_usd(&self, current_f: i64) -> (r: i128)
        ensures
            r == self.state.mtm(current_f as int, self.cfg.multiplier as int),
    {
        self.state.mtm_usd(current_f, self.cfg.multiplier)
    }

    /// Sets the future that is traded.
    pub fn set_hedge_contract(&mut self, c: Contract)
        ensures
            *final(self) == (HedgeManager { hedge_contract: Some(c), ..*old(self) }),
    {
        self.hedge_contract = Some(c);
    }

    /// The future that is traded.
    pub fn hedge_contract(&self) -> (r: Option<&Contract>)
        ensures
            match r {
                Some(c) => self.hedge_contract == Some(*c),
                None => self.hedge_contract is None,
            },
    {
        match &self.hedge_contract {
            Some(c) => Some(c),
            None => None,
        }
    }

    /// The delta with the hedge, in billionths.
    pub open spec fn effective(self, net_delta: i64) -> int {
        net_delta + self.state.hedge_qty * ONE_DELTA
    }

    /// Whether the trade that offsets a delta keeps everything within its
    /// type.
    pub open spec fn can_rebalance(self, net_delta: i64) -> bool {
        let change = target_for(net_delta) - self.state.hedge_qty;
        i32::MIN < change <= i32::MAX
    }

    /// Whether the position can be brought to what offsets a delta.
    pub fn takes_delta(&self, net_delta: i64) -> (r: bool)
        ensures
            r == self.can_rebalance(net_delta),
    {
        let target: i32 = target_qty_for(net_delta);
        let change: i64 = target as i64 - self.state.hedge_qty as i64;
        change > i32::MIN as i64 && change <= i32::MAX as i64
    }

    /// Brings the position to what offsets the delta: trades the difference
    /// or, where trades are only recorded, records it and applies it at the
    /// forward. No difference, no trade.
    pub open spec fn rebalanced(
        pre: HedgeManager,
        net_delta: i64,
        reason: Seq<char>,
        forward: i64,
        now_ns: u64,
        post: HedgeManager,
        r: HedgeAction,
    ) -> bool {
        let change = target_for(net_delta) - pre.state.hedge_qty;
        if change == 0 {
            post == pre && r is Idle
        } else {
            match pre.cfg.mode {
                HedgeMode::Observe => {
                    &&& post == (HedgeManager {
                        state: filled(pre.state, change, forward as int, pre.cfg.multiplier as int, now_ns),
                        ..pre
                    })
                    &&& r matches HedgeAction::LogOnly { is_buy, qty, reason: why, forward: f } && is_buy == (change > 0)
                        && qty == (if change > 0 { change } else { -change }) && why@ == reason && f == forward
                },
                HedgeMode::Execute => {
                    &&& post == pre
                    &&& r matches HedgeAction::Place { is_buy, qty, reason: why, effective_delta_pre, target_qty } && is_buy == (
                    change > 0) && qty == (if change > 0 { change } else { -change }) && why@ == reason && effective_delta_pre
                        == pre.effective(net_delta) && target_qty == target_for(net_delta)
                },
            }
        }
    }

    fn rebalance(&mut self, net_delta: i64, reason: &str, forward: i64, now_ns: u64) -> (r: HedgeAction)
        requires
            old(self).wf(),
            old(self).can_rebalance(net_delta),
        ensures
            final(self).wf(),
            HedgeManager::rebalanced(*old(self), net_delta, reason@, forward, now_ns, *final(self), r),
    {
        let held: i32 = self.state.hedge_qty;
        let effective: i128 = net_delta as i128 + (held as i128) * 1_000_000_000;
        let target_qty: i32 = target_qty_for(net_delta);
        let change: i32 = target_qty - held;
        if change == 0 {
            return HedgeAction::Idle;
        }
        let is_buy = change > 0;
        let qty: u32 = if change > 0 {
            change as u32
        } else {
            (-change) as u32
        };
        match self.cfg.mode {
            HedgeMode::Observe => {
                self.state.apply_fill(is_buy, qty, forward, self.cfg.multiplier, now_ns);
                HedgeAction::LogOnly { is_buy, qty, reason: reason.to_owned(), forward }
            },
            HedgeMode::Execute => HedgeAction::Place {
                is_buy,
                qty,
                reason: reason.to_owned(),
                effective_delta_pre: effective,
                target_qty,
            },
        }
    }

    /// Whether a delta, with the hedge, is small enough to be left alone.
    pub open spec fn tolerated(self, net_delta: i64) -> bool {
        -self.cfg.tolerance_deltas <= self.effective(net_delta) <= self.cfg.tolerance_deltas
    }

    /// Like [`HedgeManager::rebalanced`], but a delta within tolerance is
    /// left alone.
    pub open spec fn gated(
        pre: HedgeManager,
        net_delta: i64,
        reason: Seq<char>,
        forward: i64,
        now_ns: u64,
        post: HedgeManager,
        r: HedgeAction,
    ) -> bool {
        if pre.tolerated(net_delta) {
            post == pre && r is Idle
        } else {
            HedgeManager::rebalanced(pre, net_delta, reason, forward, now_ns, post, r)
        }
    }

    fn maybe_rebalance(&mut self, net_delta: i64, reason: &str, forward: i64, now_ns: u64) -> (r: HedgeAction)
        requires
            old(self).wf(),
            old(self).can_rebalance(net_delta),
        ensures
            final(self).wf(),
            HedgeManager::gated(*old(self), net_delta, reason@, forward, now_ns, *final(self), r),
    {
        let effective: i128 = net_delta as i128 + (self.state.hedge_qty as i128) * 1_000_000_000;
        let size: i128 = if effective >= 0 {
            effective
        } else {
            -effective
        };
        if size <= self.cfg.tolerance_deltas {
            return HedgeAction::Idle;
        }
        self.rebalance(net_delta, reason, forward, now_ns)
    }

    /// After an option fill.
    pub fn rebalance_on_fill(&mut self, net_delta: i64, forward: i64, now_ns: u64) -> (r: HedgeAction)
        requires
            old(self).wf(),
            old(self).can_rebalance(net_delta),
        ensures
            final(self).wf(),
            if old(self).cfg.rebalance_on_fill {
                HedgeManager::gated(*old(self), net_delta, "fill"@, forward, now_ns, *final(self), r)
            } else {
                *final(self) == *old(self) && r is Idle
            },
    {
        if !self.cfg.rebalance_on_fill {
            return HedgeAction::Idle;
        }
        self.maybe_rebalance(net_delta, "fill", forward, now_ns)
    }

    /// What a periodic rebalance does: while a priority drain lasts, and once
    /// when it ends, whatever the cadence; else only when the cadence is up.
    pub open spec fn periodic(
        pre: HedgeManager,
        net_delta: i64,
        forward: i64,
        now_ns: u64,
        post: HedgeManager,
        r: HedgeAction,
    ) -> bool {
        let ran = HedgeManager { last_periodic_ns: now_ns, ..pre };
        let drain = pre.priority_drain_until_ns;
        if drain > 0 && now_ns < drain {
            HedgeManager::gated(ran, net_delta, "priority_drain_periodic"@, forward, now_ns, post, r)
        } else if drain > 0 {
            HedgeManager::gated(
                HedgeManager { priority_drain_until_ns: 0, ..ran },
                net_delta,
                "priority_drain_clear"@,
                forward,
                now_ns,
                post,
                r,
            )
        } else if elapsed(pre.last_periodic_ns, now_ns) < pre.cfg.rebalance_cadence_ns {
            post == pre && r is Idle
        } else {
            HedgeManager::gated(ran, net_delta, "periodic"@, forward, now_ns, post, r)
        }
    }

    /// From time to time: at most once per cadence, except while a priority
    /// drain lasts and once when it ends.
    pub fn rebalance_periodic(&mut self, net_delta: i64, forward: i64, now_ns: u64) -> (r: HedgeAction)
        requires
            old(self).wf(),
            old(self).can_rebalance(net_delta),
        ensures
            final(self).wf(),
            HedgeManager::periodic(*old(self), net_delta, forward, now_ns, *final(self), r),
    {
        let drain: u64 = self.priority_drain_until_ns;
        if drain > 0 && now_ns < drain {
            self.last_periodic_ns = now_ns;
            return self.maybe_rebalance(net_delta, "priority_drain_periodic", forward, now_ns);
        }
        if drain > 0 {
            self.priority_drain_until_ns = 0;
            self.last_periodic_ns = now_ns;
            return self.maybe_rebalance(net_delta, "priority_drain_clear", forward, now_ns);
        }
        let elapsed: u64 = if now_ns >= self.last_periodic_ns {
            now_ns - self.last_periodic_ns
        } else {
            0
        };
        if (elapsed as u128) < self.cfg.rebalance_cadence_ns {
            return HedgeAction::Idle;
        }
        self.last_periodic_ns = now_ns;
        self.maybe_rebalance(net_delta, "periodic", forward, now_ns)
    }

    /// On a delta kill: offsets the delta whatever the tolerance.
    pub fn force_flat(&mut self, net_delta: i64, forward: i64, now_ns: u64) -> (r: HedgeAction)
        requires
            old(self).wf(),
            old(self).can_rebalance(net_delta),
        ensures
            final(self).wf(),
            HedgeManager::rebalanced(
                *old(self),
                net_delta,
                "delta_kill_force_flat"@,
                forward,
                now_ns,
                *final(self),
                r,
            ),
    {
        self.rebalance(net_delta, "delta_kill_force_flat", forward, now_ns)
    }

    /// Bypasses the cadence until a time. An earlier time does not shorten
    /// a drain.
    pub fn request_priority_drain(&mut self, until_ns: u64)
        ensures
            *final(self) == (HedgeManager {
                priority_drain_until_ns: if until_ns > old(self).priority_drain_until_ns {
                    until_ns
                } else {
                    old(self).priority_drain_until_ns
                },
                ..*old(self)
            }),
    {
        if until_ns > self.priority_drain_until_ns {
            self.priority_drain_until_ns = until_ns;
        }
    }

    /// What closing the hedge on a halt takes.
    pub open spec fn halt_action(self, forward: i64, r: HedgeAction) -> bool {
        let qty = self.state.hedge_qty as int;
        if !self.cfg.flatten_on_halt_enabled || qty == 0 {
            r is Idle
        } else {
            match self.cfg.mode {
                HedgeMode::Observe => r matches HedgeAction::LogOnly { is_buy, qty: q, reason, forward: f } && is_buy == (qty < 0)
                    && q == (if qty > 0 { qty } else { -qty }) && reason@ == "halt_flatten"@ && f == forward,
                HedgeMode::Execute => r matches HedgeAction::Place { is_buy, qty: q, reason, effective_delta_pre, target_qty }
                    && is_buy == (qty < 0) && q == (if qty > 0 { qty } else { -qty }) && reason@ == "halt_flatten"@
                    && effective_delta_pre == qty * ONE_DELTA && target_qty == 0,
            }
        }
    }

    /// Whether closing the hedge on a halt is only recorded.
    pub open spec fn halts_on_paper(self) -> bool {
        self.cfg.flatten_on_halt_enabled && self.state.hedge_qty != 0 && self.cfg.mode == HedgeMode::Observe
    }

    /// Whether closing the hedge on a halt keeps everything within its type.
    pub open spec fn can_flatten(self) -> bool {
        self.halts_on_paper() ==> self.state.can_fill(-(self.state.hedge_qty as int))
    }

    /// Whether the hedge can be closed on a halt.
    pub fn takes_flatten(&self) -> (r: bool)
        ensures
            r == self.can_flatten(),
    {
        let on_paper = match self.cfg.mode {
            HedgeMode::Observe => self.cfg.flatten_on_halt_enabled && self.state.hedge_qty != 0,
            HedgeMode::Execute => false,
        };
        !on_paper || self.state.hedge_qty > i32::MIN
    }

    /// Closes the hedge: trades it away or, where trades are only recorded,
    /// records that and applies it at the forward.
    pub open spec fn flattened(pre: HedgeManager, forward: i64, now_ns: u64, post: HedgeManager, r: HedgeAction) -> bool {
        &&& pre.halt_action(forward, r)
        &&& post == (if pre.halts_on_paper() {
            HedgeManager {
                state: filled(
                    pre.state,
                    -(pre.state.hedge_qty as int),
                    forward as int,
                    pre.cfg.multiplier as int,
                    now_ns,
                ),
                ..pre
            }
        } else {
            pre
        })
    }

    /// On a halt: closes the hedge.
    pub fn flatten_on_halt(&mut self, forward: i64, now_ns: u64) -> (r: HedgeAction)
        requires
            old(self).wf(),
            old(self).can_flatten(),
        ensures
            final(self).wf(),
            HedgeManager::flattened(*old(self), forward, now_ns, *final(self), r),
            r is LogOnly <==> old(self).halts_on_paper(),
    {
        let held: i32 = self.state.hedge_qty;
        if !self.cfg.flatten_on_halt_enabled || held == 0 {
            return HedgeAction::Idle;
        }
        let qty: u32 = if held > 0 {
            held as u32
        } else {
            (-(held as i64)) as u32
        };
        let is_buy = held < 0;
        match self.cfg.mode {
            HedgeMode::Observe => {
                self.state.apply_fill(is_buy, qty, forward, self.cfg.multiplier, now_ns);
                HedgeAction::LogOnly { is_buy, qty, reason: "halt_flatten".to_owned(), forward }
            },
            HedgeMode::Execute => HedgeAction::Place {
                is_buy,
                qty,
                reason: "halt_flatten".to_owned(),
                effective_delta_pre: (held as i128) * 1_000_000_000,
                target_qty: 0,
            },
        }
    }

    /// Whether a fill is this hedge's and new: trades are made here, the
    /// fill is of the traded future, and its execution has an id that was
    /// not applied before.
    pub open spec fn accepts_fill(self, f: HedgeFill) -> bool {
        &&& self.cfg.mode == HedgeMode::Execute
        &&& (self.hedge_contract matches Some(c) && c.instrument_id == f.instrument_id)
        &&& f.exec_id@.len() > 0
        &&& !seen(self.processed_exec_ids@, f.exec_id@)
    }

    /// The executions remembered after one more: the oldest is forgotten
    /// where the limit is reached.
    pub open spec fn remembered(ids: Seq<String>, id: Seq<char>, after: Seq<String>) -> bool {
        let kept = if ids.len() >= PROCESSED_EXEC_IDS_MAX {
            ids.skip(1)
        } else {
            ids
        };
        after.len() == kept.len() + 1 && after.drop_last() == kept && after.last()@ == id
    }

    fn has_processed(&self, id: &str) -> (r: bool)
        ensures
            r == seen(self.processed_exec_ids@, id@),
    {
        let mut i: usize = 0;
        let n: usize = self.processed_exec_ids.len();
        while i < n
            invariant
                i <= n,
                n == self.processed_exec_ids@.len(),
                forall|j: int| 0 <= j < i ==> (#[trigger] self.processed_exec_ids@[j])@ != id@,
            decreases n - i,
        {
            if str_eq(self.processed_exec_ids[i].as_str(), id) {
                return true;
            }
            i = i + 1;
        }
        false
    }

    /// What a fill that the broker reports does: one that is accepted moves
    /// the position and is remembered, any other changes nothing.
    pub open spec fn reported(pre: HedgeManager, f: HedgeFill, now_ns: u64, post: HedgeManager, applied: bool) -> bool {
        &&& applied == pre.accepts_fill(f)
        &&& if applied {
            &&& post == (HedgeManager {
                state: filled(
                    pre.state,
                    HedgeState::effect(f.side == Side::Buy, f.qty),
                    f.price as int,
                    pre.cfg.multiplier as int,
                    now_ns,
                ),
                processed_exec_ids: post.processed_exec_ids,
                ..pre
            })
            &&& HedgeManager::remembered(pre.processed_exec_ids@, f.exec_id@, post.processed_exec_ids@)
        } else {
            post == pre
        }
    }

    /// Applies a fill that the broker reports, once. Returns whether it was
    /// applied.
    pub fn apply_broker_fill(&mut self, f: &HedgeFill, now_ns: u64) -> (applied: bool)
        requires
            old(self).wf(),
            old(self).accepts_fill(*f) ==> old(self).state.can_fill(HedgeState::effect(f.side == Side::Buy, f.qty)),
        ensures
            final(self).wf(),
            HedgeManager::reported(*old(self), *f, now_ns, *final(self), applied),
    {
        match self.cfg.mode {
            HedgeMode::Execute => {},
            HedgeMode::Observe => {
                return false;
            },
        }
        match &self.hedge_contract {
            Some(c) => {
                if c.instrument_id.0 != f.instrument_id.0 {
                    return false;
                }
            },
            None => {
                return false;
            },
        }
        if f.exec_id.as_str().is_empty() || self.has_processed(f.exec_id.as_str()) {
            return false;
        }
        let ghost before = self.processed_exec_ids@;
        if self.processed_exec_ids.len() >= PROCESSED_EXEC_IDS_MAX {
            self.processed_exec_ids.pop_front();
        }
        let ghost kept = self.processed_exec_ids@;
        proof {
            if before.len() >= PROCESSED_EXEC_IDS_MAX {
                assert(kept =~= before.skip(1));
            }
        }
        self.processed_exec_ids.push_back(f.exec_id.clone());
        assert(self.processed_exec_ids@.drop_last() =~= kept);
        assert forall|i: int, j: int| 0 <= i < j < self.processed_exec_ids@.len() implies (
        #[trigger] self.processed_exec_ids@[i])@ != (#[trigger] self.processed_exec_ids@[j])@ by {
            let s = if before.len() >= PROCESSED_EXEC_IDS_MAX { 1int } else { 0int };
            assert(self.processed_exec_ids@[i] == before[i + s]);
            if j < kept.len() {
                assert(self.processed_exec_ids@[j] == before[j + s]);
            }
        }
        let is_buy = match f.side {
            Side::Buy => true,
            Side::Sell => false,
        };
        self.state.apply_fill(is_buy, f.qty, f.price, self.cfg.multiplier, now_ns);
        true
    }

    /// A manager once the broker has confirmed or corrected its position.
    pub open spec fn confirmed(self, broker_qty: i32, broker_avg_cost: i64, now_ns: u64) -> HedgeManager {
        HedgeManager {
            state: if broker_qty != self.state.hedge_qty {
                HedgeState {
                    hedge_qty: broker_qty,
                    avg_entry_f: broker_avg_cost,
                    last_update_ns: now_ns,
                    realized_pnl_usd: self.state.realized_pnl_usd,
                }
            } else {
                HedgeState { last_update_ns: now_ns, ..self.state }
            },
            ..self
        }
    }

    /// Takes over the broker's position where it differs, and notes that the
    /// position was confirmed either way. Returns whether it differed.
    pub fn reconcile_with_position(&mut self, broker_qty: i32, broker_avg_cost: i64, now_ns: u64) -> (diverged: bool)
        ensures
            diverged == (broker_qty != old(self).state.hedge_qty),
            *final(self) == old(self).confirmed(broker_qty, broker_avg_cost, now_ns),
    {
        self.state.touch_freshness(now_ns);
        if broker_qty == self.state.hedge_qty {
            return false;
        }
        self.state.replace(broker_qty, broker_avg_cost, now_ns);
        true
    }

    /// Notes that the position was confirmed.
    pub fn touch_freshness(&mut self, now_ns: u64)
        ensures
            *final(self) == (HedgeManager {
                state: HedgeState { last_update_ns: now_ns, ..old(self).state },
                ..*old(self)
            }),
    {
        self.state.touch_freshness(now_ns);
    }
}

/// An execution is applied at most once: where it is accepted the position
/// grows by it, and the same execution given again is refused; where it is
/// refused nothing changes.
pub proof fn law_execution_applies_once(pre: HedgeManager, f: HedgeFill, now_ns: u64, post: HedgeManager, applied: bool)
    requires
        applied ==> pre.state.can_fill(HedgeState::effect(f.side == Side::Buy, f.qty)),
        HedgeManager::reported(pre, f, now_ns, post, applied),
    ensures
        applied ==> post.state.hedge_qty == pre.state.hedge_qty + HedgeState::effect(f.side == Side::Buy, f.qty),
        applied ==> !post.accepts_fill(f),
        !applied ==> post == pre,
{
    if applied {
        let ids = post.processed_exec_ids@;
        assert(ids[ids.len() - 1]@ == f.exec_id@);
    }
}

/// An execution stays known while no more than the limit have followed: of
/// the ids that are remembered, only the oldest is ever forgotten.
pub proof fn law_executions_are_forgotten_in_order(ids: Seq<String>, id: Seq<char>, after: Seq<String>)
    requires
        HedgeManager::remembered(ids, id, after),
    ensures
        forall|i: int| 0 < i < ids.len() ==> seen(after, (#[trigger] ids[i])@),
        ids.len() < PROCESSED_EXEC_IDS_MAX ==> forall|i: int| 0 <= i < ids.len() ==> seen(after, (#[trigger] ids[i])@),
        seen(after, id),
{
    let skipped: int = if ids.len() >= PROCESSED_EXEC_IDS_MAX {
        1
    } else {
        0
    };
    assert forall|i: int| skipped <= i < ids.len() implies seen(after, (#[trigger] ids[i])@) by {
        assert(after.drop_last()[i - skipped] == ids[i]);
        assert(after[i - skipped]@ == ids[i]@);
    }
    assert(after[after.len() - 1]@ == id);
}

/// Where trades are only recorded, a halt leaves no hedge, and realizes what
/// the hedge was worth at the forward.
pub proof fn law_halt_on_paper_closes(pre: HedgeManager, forward: i64, now_ns: u64, post: HedgeManager, r: HedgeAction)
    requires
        pre.wf(),
        pre.can_flatten(),
        pre.halts_on_paper(),
        forward > 0,
        HedgeManager::flattened(pre, forward, now_ns, post, r),
    ensures
        post.state.hedge_qty == 0,
        post.state.realized_pnl_usd == cut(
            pre.state.realized_pnl_usd + pre.state.mtm(forward as int, pre.cfg.multiplier as int),
        ),
{
}

/// A filled hedge order leaves less than a contract of delta: once the
/// position is the target, delta and hedge together are at most half a
/// contract, for every delta whose target fits.
pub proof fn law_target_offsets_delta(net_delta: i64)
    requires
        i32::MIN <= -whole_contracts(net_delta as int) <= i32::MAX,
    ensures
        -ONE_DELTA <= 2 * (net_delta + target_for(net_delta) * ONE_DELTA) <= ONE_DELTA,
{
    let d = net_delta as int;
    let m = if d >= 0 { d } else { -d };
    let w = (2 * m + 1_000_000_000) / 2_000_000_000;
    assert(2 * w * 1_000_000_000 <= 2 * m + 1_000_000_000 < 2 * w * 1_000_000_000 + 2_000_000_000);
    if d >= 0 {
        assert(target_for(net_delta) == -w);
        assert(target_for(net_delta) * ONE_DELTA == -(w * 1_000_000_000));
    } else {
        assert(target_for(net_delta) == w);
        assert(target_for(net_delta) * ONE_DELTA == w * 1_000_000_000);
    }
}

/// Deltas whose offset in whole contracts is sure to fit in 32 bits.
pub open spec fn modest(net_delta: i64) -> bool {
    -2_147_483_647_000_000_000 <= net_delta <= 2_147_483_647_000_000_000
}

proof fn lemma_target(net_delta: i64)
    requires
        modest(net_delta),
    ensures
        -1_000_000_000 <= 2 * (net_delta + target_for(net_delta) * 1_000_000_000) <= 1_000_000_000,
        -2_147_483_647 <= target_for(net_delta) <= 2_147_483_647,
        target_for((-net_delta) as i64) == -target_for(net_delta),
{
    law_target_offsets_delta(net_delta);
}

/// What a rebalance leaves alone is small: where one on a fill, or a periodic
/// one that is due, does nothing, option delta and hedge together are at most
/// the larger of the tolerance and half a contract, whatever their sign.
pub proof fn law_only_small_deltas_are_left_alone(
    pre: HedgeManager,
    net_delta: i64,
    reason: Seq<char>,
    forward: i64,
    now_ns: u64,
    post: HedgeManager,
    r: HedgeAction,
)
    requires
        modest(net_delta),
        HedgeManager::gated(pre, net_delta, reason, forward, now_ns, post, r),
        r is Idle,
    ensures
        ({
            let total = net_delta + pre.state.hedge_qty * 1_000_000_000;
            ||| -pre.cfg.tolerance_deltas <= total <= pre.cfg.tolerance_deltas
            ||| -500_000_000 <= total <= 500_000_000
        }),
        post == pre,
{
    lemma_target(net_delta);
}

/// A delta within the tolerance is left alone: with the hedge it is as far
/// above zero or as far below as the tolerance allows, and nothing is done.
pub proof fn law_tolerated_deltas_are_left_alone(
    pre: HedgeManager,
    net_delta: i64,
    reason: Seq<char>,
    forward: i64,
    now_ns: u64,
    post: HedgeManager,
    r: HedgeAction,
)
    requires
        HedgeManager::gated(pre, net_delta, reason, forward, now_ns, post, r),
        net_delta + pre.state.hedge_qty * 1_000_000_000 <= pre.cfg.tolerance_deltas,
        -(net_delta + pre.state.hedge_qty * 1_000_000_000) <= pre.cfg.tolerance_deltas,
    ensures
        r is Idle,
        post == pre,
{
}

/// The quantity that an action moves the hedge by; a sale counts negative.
pub open spec fn moves_by(r: HedgeAction) -> int {
    match r {
        HedgeAction::Idle => 0,
        HedgeAction::Place { is_buy, qty, reason, effective_delta_pre, target_qty } => if is_buy {
            qty as int
        } else {
            -(qty as int)
        },
        HedgeAction::LogOnly { is_buy, qty, reason, forward } => if is_buy {
            qty as int
        } else {
            -(qty as int)
        },
    }
}

/// A trade goes against the delta, and far enough: it is no empty one, and the
/// hedge with it and the option delta are together at most half a contract. It
/// is made where hedges are traded, and recorded, and applied at the forward,
/// where they are not; a trade that is made changes nothing before it fills.
pub proof fn law_a_trade_offsets_the_delta(
    pre: HedgeManager,
    net_delta: i64,
    reason: Seq<char>,
    forward: i64,
    now_ns: u64,
    post: HedgeManager,
    r: HedgeAction,
)
    requires
        modest(net_delta),
        pre.can_rebalance(net_delta),
        HedgeManager::rebalanced(pre, net_delta, reason, forward, now_ns, post, r),
    ensures
        -500_000_000 <= net_delta + (pre.state.hedge_qty + moves_by(r)) * 1_000_000_000 <= 500_000_000,
        r is Idle <==> moves_by(r) == 0,
        r is Place ==> pre.cfg.mode == HedgeMode::Execute && post == pre,
        r is LogOnly ==> pre.cfg.mode == HedgeMode::Observe && post.state.hedge_qty == pre.state.hedge_qty + moves_by(r)
            && post.state.last_update_ns == now_ns,
        r is Idle ==> post == pre,
        r matches HedgeAction::Place { is_buy, qty, reason: why, effective_delta_pre, target_qty } ==> target_qty
            == pre.state.hedge_qty + moves_by(r) && effective_delta_pre == net_delta + pre.state.hedge_qty
            * 1_000_000_000 && why@ == reason,
        r matches HedgeAction::LogOnly { is_buy, qty, reason: why, forward: f } ==> f == forward && why@ == reason,
{
    lemma_target(net_delta);
}

/// Mirrored inputs give mirrored trades: with delta and hedge negated, nothing
/// stays nothing, and a purchase becomes a sale of as many.
pub proof fn law_mirrored_deltas_trade_mirrored(
    a: HedgeManager,
    b: HedgeManager,
    net_delta: i64,
    reason: Seq<char>,
    forward: i64,
    now_ns: u64,
    after_a: HedgeManager,
    after_b: HedgeManager,
    ra: HedgeAction,
    rb: HedgeAction,
)
    requires
        modest(net_delta),
        a.cfg.tolerance_deltas == b.cfg.tolerance_deltas,
        a.cfg.mode == b.cfg.mode,
        b.state.hedge_qty == -a.state.hedge_qty,
        a.can_rebalance(net_delta),
        b.can_rebalance((-net_delta) as i64),
        HedgeManager::gated(a, net_delta, reason, forward, now_ns, after_a, ra),
        HedgeManager::gated(b, (-net_delta) as i64, reason, forward, now_ns, after_b, rb),
    ensures
        moves_by(rb) == -moves_by(ra),
        ra is Idle <==> rb is Idle,
        ra is Place <==> rb is Place,
{
    lemma_target(net_delta);
}

/// A periodic rebalance that is due leaves only small deltas alone: it is due
/// while a priority drain is set, and when the cadence is up; and it is noted
/// when it ran. One that is not due does nothing.
pub proof fn law_due_rebalances_run(
    pre: HedgeManager,
    net_delta: i64,
    forward: i64,
    now_ns: u64,
    post: HedgeManager,
    r: HedgeAction,
)
    requires
        modest(net_delta),
        pre.can_rebalance(net_delta),
        HedgeManager::periodic(pre, net_delta, forward, now_ns, post, r),
    ensures
        ({
            let due = pre.priority_drain_until_ns > 0 || now_ns - pre.last_periodic_ns >= pre.cfg.rebalance_cadence_ns
                || pre.cfg.rebalance_cadence_ns == 0;
            let total = net_delta + pre.state.hedge_qty * 1_000_000_000;
            let left = total + moves_by(r) * 1_000_000_000;
            &&& !due ==> r is Idle && post == pre
            &&& due ==> post.last_periodic_ns == now_ns
            &&& due ==> (-pre.cfg.tolerance_deltas <= left <= pre.cfg.tolerance_deltas || -500_000_000 <= left
                <= 500_000_000)
            &&& due && -pre.cfg.tolerance_deltas <= total <= pre.cfg.tolerance_deltas ==> r is Idle
        }),
        post.priority_drain_until_ns == (if now_ns >= pre.priority_drain_until_ns {
            0
        } else {
            pre.priority_drain_until_ns
        }),
        post.cfg == pre.cfg,
        post.hedge_contract == pre.hedge_contract,
{
    lemma_target(net_delta);
}

/// On a halt the whole hedge goes: what is traded or recorded is all that is
/// held, the other way, wherever flattening is on.
pub proof fn law_halt_closes_all_that_is_held(pre: HedgeManager, forward: i64, r: HedgeAction)
    requires
        pre.halt_action(forward, r),
    ensures
        pre.cfg.flatten_on_halt_enabled ==> pre.state.hedge_qty + moves_by(r) == 0,
        !pre.cfg.flatten_on_halt_enabled ==> r is Idle,
        pre.state.hedge_qty == 0 ==> r is Idle,
        r is Place ==> pre.cfg.mode == HedgeMode::Execute,
        r is LogOnly ==> pre.cfg.mode == HedgeMode::Observe,
{
}

/// A fill is this hedge's only where trades are made, it is of the traded
/// future and its execution is named and new.
pub proof fn law_foreign_fills_are_refused(m: HedgeManager, f: HedgeFill)
    ensures
        m.cfg.mode == HedgeMode::Observe ==> !m.accepts_fill(f),
        m.hedge_contract is None ==> !m.accepts_fill(f),
        m.hedge_contract matches Some(c) && c.instrument_id.0 != f.instrument_id.0 ==> !m.accepts_fill(f),
        f.exec_id@.len() == 0 ==> !m.accepts_fill(f),
        (exists|i: int|
            0 <= i < m.processed_exec_ids@.len() && (#[trigger] m.processed_exec_ids@[i])@ == f.exec_id@)
            ==> !m.accepts_fill(f),
        m.cfg.mode == HedgeMode::Execute && (m.hedge_contract matches Some(c) && c.instrument_id.0 == f.instrument_id.0)
            && f.exec_id@.len() > 0 && (forall|i: int|
            0 <= i < m.processed_exec_ids@.len() ==> (#[trigger] m.processed_exec_ids@[i])@ != f.exec_id@)
            ==> m.accepts_fill(f),
{
}

/// After a reconciliation the broker's quantity is held, at the broker's price
/// where it differed and at the old one where it did not; what was realized
/// stays, and the position counts as confirmed.
pub proof fn law_the_brokers_position_is_taken_over(m: HedgeManager, qty: i32, price: i64, now_ns: u64)
    ensures
        m.confirmed(qty, price, now_ns).state.hedge_qty == qty,
        m.confirmed(qty, price, now_ns).state.avg_entry_f == (if qty == m.state.hedge_qty {
            m.state.avg_entry_f
        } else {
            price
        }),
        m.confirmed(qty, price, now_ns).state.realized_pnl_usd == m.state.realized_pnl_usd,
        m.confirmed(qty, price, now_ns).state.last_update_ns == now_ns,
        m.confirmed(qty, price, now_ns).cfg == m.cfg,
        m.confirmed(qty, price, now_ns).processed_exec_ids == m.processed_exec_ids,
{
}

} // verus!
