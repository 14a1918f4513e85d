//! An execution: a hedge's, or an option's, and what it sets off.

use crate::api::{Fill, InstrumentId, Right, Side};
use crate::dates::Date;
use crate::double::Double;
use crate::hedge::fanout::{first_of, unknown, HedgeFanout};
use crate::hedge::manager::{HedgeAction, HedgeFill, HedgeManager};
use crate::hedge::state::{filled, HedgeState};
use crate::market_data::state::MarketDataState;
use crate::runtime::RuntimeMode;
use crate::text::str_eq;
use vstd::prelude::*;
use vstd::string::*;

verus! {

/// Whether the `k`-th manager is its product's first and takes an execution.
pub open spec fn takes_fill(managers: Seq<HedgeManager>, f: HedgeFill, k: int) -> bool {
    0 <= k < managers.len() && first_of(managers, managers[k].cfg.product@, k) && managers[k].accepts_fill(f)
}

/// Whether no manager takes an execution.
pub open spec fn nobody_takes(managers: Seq<HedgeManager>, f: HedgeFill) -> bool {
    forall|k: int| !(#[trigger] takes_fill(managers, f, k))
}

/// Whether the first manager that takes an execution has applied it, and the
/// others are as they were.
pub open spec fn hedge_applied(pre: Seq<HedgeManager>, f: HedgeFill, now_ns: u64, post: Seq<HedgeManager>) -> bool {
    exists|k: int| #[trigger]
        takes_fill(pre, f, k) && (forall|j: int| 0 <= j < k ==> !(#[trigger] takes_fill(pre, f, j))) && post
            == pre.update(k, post[k]) && post[k] == (HedgeManager {
            state: filled(
                pre[k].state,
                HedgeState::effect(f.side == Side::Buy, f.qty),
                f.price as int,
                pre[k].cfg.multiplier as int,
                now_ns,
            ),
            processed_exec_ids: post[k].processed_exec_ids,
            ..pre[k]
        }) && HedgeManager::remembered(pre[k].processed_exec_ids@, f.exec_id@, post[k].processed_exec_ids@)
}

/// Offers an execution to the hedges: the first manager that takes it applies
/// it, the others stay as they are.
pub fn apply_hedge_fill(hedges: &mut HedgeFanout, f: &HedgeFill, now_ns: u64) -> (taken: bool)
    requires
        old(hedges).wf(),
        forall|k: int| #[trigger]
            takes_fill(old(hedges).managers@, *f, k) ==> old(hedges).managers@[k].state.can_fill(
                HedgeState::effect(f.side == Side::Buy, f.qty),
            ),
    ensures
        final(hedges).wf(),
        taken == !nobody_takes(old(hedges).managers@, *f),
        !taken ==> final(hedges).managers@ == old(hedges).managers@,
        taken ==> hedge_applied(old(hedges).managers@, *f, now_ns, final(hedges).managers@),
{
    let ghost before = hedges.managers@;
    let mut i: usize = 0;
    while i < hedges.managers.len()
        invariant
            i <= before.len(),
            before == old(hedges).managers@,
            hedges.managers@ == before,
            hedges.wf(),
            forall|k: int| #[trigger]
                takes_fill(before, *f, k) ==> before[k].state.can_fill(HedgeState::effect(f.side == Side::Buy, f.qty)),
            forall|j: int| 0 <= j < i ==> !(#[trigger] takes_fill(before, *f, j)),
        decreases before.len() - i,
    {
        let first = match hedges.position(hedges.managers[i].cfg.product.as_str()) {
            Some(k) => k == i,
            None => false,
        };
        proof {
            let name = before[i as int].cfg.product@;
            if first_of(before, name, i as int) {
                if !first {
                    assert(before[i as int].cfg.product@ == name);
                }
            }
        }
        if first {
            let ghost m = before[i as int];
            assert(m.wf());
            assert(m.accepts_fill(*f) ==> takes_fill(before, *f, i as int));
            let applied = hedges.managers[i].apply_broker_fill(f, now_ns);
            if applied {
                assert(hedges.managers@ =~= before.update(i as int, hedges.managers@[i as int]));
                assert(takes_fill(before, *f, i as int));
                return true;
            }
            assert(hedges.managers@ =~= before);
        }
        i = i + 1;
    }
    assert(nobody_takes(before, *f)) by {
        assert forall|k: int| !(#[trigger] takes_fill(before, *f, k)) by {
            if takes_fill(before, *f, k) {
                assert(0 <= k < i);
            }
        }
    }
    false
}

/// Whether an entry of the book is a product's option with this instrument.
pub open spec fn is_traded(md: MarketDataState, slot: int, product: Seq<char>, iid: InstrumentId) -> bool {
    &&& 0 <= slot < md.entries@.len()
    &&& md.entries@[slot].product@ == product
    &&& md.entries@[slot].tick.instrument_id == Some(iid)
}

/// Where the option of an execution is: the first of the products that has
/// it, and its first entry.
pub fn find_option(md: &MarketDataState, products: &Vec<String>, iid: InstrumentId) -> (r: Option<(usize, usize)>)
    ensures
        match r {
            Some((p, s)) => {
                &&& p < products@.len()
                &&& is_traded(*md, s as int, products@[p as int]@, iid)
                &&& forall|q: int, t: int|
                    0 <= q < p ==> !(#[trigger] is_traded(*md, t, (#[trigger] products@[q])@, iid))
                &&& forall|t: int| 0 <= t < s ==> !(#[trigger] is_traded(*md, t, products@[p as int]@, iid))
            },
            None => forall|q: int, t: int|
                0 <= q < products@.len() ==> !(#[trigger] is_traded(*md, t, (#[trigger] products@[q])@, iid)),
        },
{
    let mut p: usize = 0;
    while p < products.len()
        invariant
            p <= products@.len(),
            forall|q: int, t: int| 0 <= q < p ==> !(#[trigger] is_traded(*md, t, (#[trigger] products@[q])@, iid)),
        decreases products@.len() - p,
    {
        let mut s: usize = 0;
        while s < md.entries.len()
            invariant
                p < products@.len(),
                s <= md.entries@.len(),
                forall|q: int, t: int| 0 <= q < p ==> !(#[trigger] is_traded(*md, t, (#[trigger] products@[q])@, iid)),
                forall|t: int| 0 <= t < s ==> !(#[trigger] is_traded(*md, t, products@[p as int]@, iid)),
            decreases md.entries@.len() - s,
        {
            let e = &md.entries[s];
            let same = match e.tick.instrument_id {
                Some(i) => i.0 == iid.0,
                None => false,
            };
            if same && str_eq(e.product.as_str(), products[p].as_str()) {
                return Some((p, s));
            }
            s = s + 1;
        }
        p = p + 1;
    }
    None
}

/// An execution of an option, as the portfolio takes it.
#[derive(Debug)]
pub struct OptionFill {
    pub product: String,
    pub strike: i64,
    pub expiry: Date,
    pub right: Right,
    /// Bought where positive, sold where negative.
    pub quantity: i32,
    pub price: Double,
}

/// An execution's quantity with its sign.
pub open spec fn signed_qty(side: Side, qty: u32) -> int {
    match side {
        Side::Buy => qty as int,
        Side::Sell => -(qty as int),
    }
}

/// Whether no product has an option with this instrument.
pub open spec fn untraded(md: MarketDataState, products: Seq<String>, iid: InstrumentId) -> bool {
    forall|q: int, t: int| 0 <= q < products.len() ==> !(#[trigger] is_traded(md, t, (#[trigger] products[q])@, iid))
}

/// Whether `f` is an execution as the portfolio takes it: of the option that
/// the first product with this instrument lists first.
pub open spec fn option_filled(md: MarketDataState, products: Seq<String>, fill: Fill, f: OptionFill) -> bool {
    exists|p: int, s: int|
        0 <= p < products.len() && #[trigger] is_traded(md, s, (#[trigger] products[p])@, fill.instrument_id) && (forall|
            q: int,
            t: int,
        |
            0 <= q < p ==> !(#[trigger] is_traded(md, t, (#[trigger] products[q])@, fill.instrument_id))) && (forall|t: int|
            0 <= t < s ==> !(#[trigger] is_traded(md, t, products[p]@, fill.instrument_id))) && f.product@ == products[p]@
            && f.strike == md.entries@[s].tick.strike && f.expiry == md.entries@[s].tick.expiry && f.right
            == md.entries@[s].tick.right && f.quantity == signed_qty(fill.side, fill.qty) && f.price == fill.price
}

/// An execution as the portfolio takes it; none where the instrument is not
/// an option of the products.
pub fn option_fill(md: &MarketDataState, products: &Vec<String>, fill: &Fill) -> (r: Option<OptionFill>)
    requires
        fill.qty <= i32::MAX,
    ensures
        match r {
            Some(f) => option_filled(*md, products@, *fill, f),
            None => untraded(*md, products@, fill.instrument_id),
        },
{
    match find_option(md, products, fill.instrument_id) {
        Some((p, s)) => {
            let t = &md.entries[s].tick;
            assert(is_traded(*md, s as int, products@[p as int]@, fill.instrument_id));
            Some(
                OptionFill {
                    product: products[p].clone(),
                    strike: t.strike,
                    expiry: t.expiry,
                    right: t.right,
                    quantity: match fill.side {
                        Side::Buy => fill.qty as i32,
                        Side::Sell => -(fill.qty as i32),
                    },
                    price: fill.price,
                },
            )
        },
        None => None,
    }
}

/// All hedges in futures, fresh or not.
pub open spec fn all_hedges(managers: Seq<HedgeManager>) -> int
    decreases managers.len(),
{
    if managers.len() == 0 {
        0
    } else {
        all_hedges(managers.drop_last()) + managers.last().state.hedge_qty
    }
}

/// Options' delta in billionths and hedges in futures, together.
pub open spec fn with_hedges(options_delta: int, futures: int) -> int {
    options_delta + futures * 1_000_000_000
}

/// Options and hedges together, in billionths: what the delta limit is held
/// against after each execution.
pub fn effective_delta(options_delta: i64, hedges: &HedgeFanout) -> (r: i128)
    requires
        hedges.managers@.len() <= 0xffff_ffff,
    ensures
        r == with_hedges(options_delta as int, all_hedges(hedges.managers@)),
{
    let managers = hedges.managers();
    let mut sum: i64 = 0;
    let mut i: usize = 0;
    while i < managers.len()
        invariant
            i <= managers@.len() <= 0xffff_ffff,
            sum == all_hedges(managers@.take(i as int)),
            -(i as int) * 0x8000_0000 <= sum <= i * 0x8000_0000,
        decreases managers@.len() - i,
    {
        assert(managers@.take(i + 1).drop_last() =~= managers@.take(i as int));
        assert(managers@.take(i + 1).last() == managers@[i as int]);
        sum = sum + managers[i].hedge_qty() as i64;
        i = i + 1;
    }
    assert(managers@.take(i as int) =~= managers@);
    options_delta as i128 + sum as i128 * 1_000_000_000
}

/// A hedge to trade.
#[derive(Debug)]
pub struct HedgeOrder {
    pub is_buy: bool,
    pub qty: u32,
    pub reason: String,
}

/// The trade that an action asks for; in shadow mode none.
pub open spec fn ordered(action: HedgeAction, mode: RuntimeMode, r: Option<HedgeOrder>) -> bool {
    match (action, mode) {
        (HedgeAction::Place { is_buy, qty, reason, effective_delta_pre, target_qty }, RuntimeMode::Live) => {
            r matches Some(o) && o.is_buy == is_buy && o.qty == qty && o.reason@ == reason@
        },
        _ => r is None,
    }
}

/// The trade that an action asks for.
pub fn order_of(action: &HedgeAction, mode: RuntimeMode) -> (r: Option<HedgeOrder>)
    ensures
        ordered(*action, mode, r),
{
    match mode {
        RuntimeMode::Shadow => None,
        RuntimeMode::Live => match action {
            HedgeAction::Place { is_buy, qty, reason, effective_delta_pre: _, target_qty: _ } => Some(
                HedgeOrder { is_buy: *is_buy, qty: *qty, reason: reason.clone() },
            ),
            _ => None,
        },
    }
}

/// After an option's execution: the product's hedge is brought in line at
/// once, without waiting for the periodic turn. A trade that is only recorded
/// fills at `forward`. Returns the trade to make.
pub fn hedge_after_fill(
    hedges: &mut HedgeFanout,
    product: &str,
    net_delta: i64,
    forward: i64,
    mode: RuntimeMode,
    now_ns: u64,
) -> (r: Option<HedgeOrder>)
    requires
        old(hedges).wf(),
        forall|k: int| #[trigger]
            first_of(old(hedges).managers@, product@, k) ==> old(hedges).managers@[k].can_rebalance(net_delta),
    ensures
        final(hedges).wf(),
        unknown(old(hedges).managers@, product@) ==> r is None && final(hedges).managers@ == old(hedges).managers@,
        !unknown(old(hedges).managers@, product@) ==> exists|k: int, action: HedgeAction| #[trigger]
            first_of(old(hedges).managers@, product@, k) && final(hedges).managers@ == old(hedges).managers@.update(
                k,
                final(hedges).managers@[k],
            ) && #[trigger] ordered(action, mode, r) && if old(hedges).managers@[k].cfg.rebalance_on_fill {
                HedgeManager::gated(
                    old(hedges).managers@[k],
                    net_delta,
                    "fill"@,
                    forward,
                    now_ns,
                    final(hedges).managers@[k],
                    action,
                )
            } else {
                final(hedges).managers@[k] == old(hedges).managers@[k] && action is Idle
            },
{
    let ghost before = hedges.managers@;
    match hedges.position(product) {
        Some(i) => {
            assert(before[i as int].wf());
            let action = hedges.managers[i].rebalance_on_fill(net_delta, forward, now_ns);
            assert(hedges.managers@ =~= before.update(i as int, hedges.managers@[i as int]));
            let r = order_of(&action, mode);
            assert(first_of(before, product@, i as int) && ordered(action, mode, r));
            r
        },
        None => None,
    }
}

// The whole way of an execution

/// Whether `h` is an execution as a hedge takes it, its price in billionths.
pub open spec fn hedge_fill_of(fill: Fill, h: HedgeFill) -> bool {
    &&& h.instrument_id == fill.instrument_id
    &&& h.exec_id@ == fill.exec_id@
    &&& h.side == fill.side
    &&& h.qty == fill.qty
    &&& h.price == fill.price.billionths()
}

/// An execution as a hedge takes it.
pub fn as_hedge_fill(fill: &Fill) -> (r: HedgeFill)
    ensures
        hedge_fill_of(*fill, r),
{
    HedgeFill {
        instrument_id: fill.instrument_id,
        exec_id: fill.exec_id.clone(),
        side: fill.side,
        qty: fill.qty,
        price: fill.price.to_billionths(),
    }
}

/// Where an execution belongs.
#[derive(Debug)]
pub enum FillRoute {
    /// A hedge has applied it.
    Hedge,
    /// An option's; the portfolio takes it.
    Option(OptionFill),
    /// Neither; it is ignored.
    Unknown,
}

/// Takes an execution: a hedge's is applied, an option's is recognized. Hedges
/// come first, for their future may also be registered.
pub fn route_fill(
    hedges: &mut HedgeFanout,
    md: &MarketDataState,
    products: &Vec<String>,
    fill: &Fill,
    now_ns: u64,
) -> (r: FillRoute)
    requires
        old(hedges).wf(),
        fill.qty <= i32::MAX,
        forall|f: HedgeFill, k: int|
            #[trigger] hedge_fill_of(*fill, f) && #[trigger] takes_fill(old(hedges).managers@, f, k)
                ==> old(hedges).managers@[k].state.can_fill(HedgeState::effect(fill.side == Side::Buy, fill.qty)),
    ensures
        final(hedges).wf(),
        exists|f: HedgeFill| #[trigger]
            hedge_fill_of(*fill, f) && if !nobody_takes(old(hedges).managers@, f) {
                r is Hedge && hedge_applied(old(hedges).managers@, f, now_ns, final(hedges).managers@)
            } else {
                final(hedges).managers@ == old(hedges).managers@ && match r {
                    FillRoute::Hedge => false,
                    FillRoute::Option(o) => option_filled(*md, products@, *fill, o),
                    FillRoute::Unknown => untraded(*md, products@, fill.instrument_id),
                }
            },
{
    let f = as_hedge_fill(fill);
    assert(hedge_fill_of(*fill, f));
    if apply_hedge_fill(hedges, &f, now_ns) {
        return FillRoute::Hedge;
    }
    match option_fill(md, products, fill) {
        Some(o) => FillRoute::Option(o),
        None => FillRoute::Unknown,
    }
}

/// What an option's execution sets off.
#[derive(Debug)]
pub enum FillAction {
    /// Trading stops: all resting orders are cancelled, for this reason.
    Stop(&'static str),
    /// A hedge is traded.
    Hedge(HedgeOrder),
}

/// The stops that an execution sets off, in order.
pub open spec fn stops(halted: bool, killed: bool) -> Seq<Seq<char>> {
    (if halted {
        seq!["daily_halt_per_fill"@]
    } else {
        Seq::<Seq<char>>::empty()
    }) + (if killed {
        seq!["delta_kill_per_fill"@]
    } else {
        Seq::<Seq<char>>::empty()
    })
}

/// The stops that an execution sets off, in order.
pub fn stop_reasons(halted: bool, killed: bool) -> (r: Vec<&'static str>)
    ensures
        r@.map_values(|s: &'static str| s@) == stops(halted, killed),
{
    let mut out: Vec<&'static str> = Vec::new();
    if halted {
        out.push("daily_halt_per_fill");
    }
    if killed {
        out.push("delta_kill_per_fill");
    }
    assert(out@.map_values(|s: &'static str| s@) =~= stops(halted, killed));
    out
}

/// Whether the first actions are these stops.
pub open spec fn starts_with_stops(actions: Seq<FillAction>, reasons: Seq<Seq<char>>) -> bool {
    &&& reasons.len() <= actions.len()
    &&& forall|i: int|
        0 <= i < reasons.len() ==> (#[trigger] actions[i] matches FillAction::Stop(why) && why@ == reasons[i])
}

/// What an option's execution sets off: a stop where the day's loss or the
/// delta is beyond its limit, and in any case the hedge's rebalance.
pub fn after_option_fill(
    hedges: &mut HedgeFanout,
    product: &str,
    halted: bool,
    killed: bool,
    net_delta: i64,
    forward: i64,
    mode: RuntimeMode,
    now_ns: u64,
) -> (r: Vec<FillAction>)
    requires
        old(hedges).wf(),
        forall|k: int| #[trigger]
            first_of(old(hedges).managers@, product@, k) ==> old(hedges).managers@[k].can_rebalance(net_delta),
    ensures
        final(hedges).wf(),
        starts_with_stops(r@, stops(halted, killed)),
        r@.len() <= stops(halted, killed).len() + 1,
        r@.len() == stops(halted, killed).len() + 1 ==> r@.last() is Hedge && mode == RuntimeMode::Live && !unknown(
            old(hedges).managers@,
            product@,
        ),
        unknown(old(hedges).managers@, product@) ==> final(hedges).managers@ == old(hedges).managers@,
        !unknown(old(hedges).managers@, product@) ==> exists|k: int, action: HedgeAction, order: Option<HedgeOrder>|
            #[trigger] first_of(old(hedges).managers@, product@, k) && final(hedges).managers@
                == old(hedges).managers@.update(k, final(hedges).managers@[k]) && #[trigger] ordered(action, mode, order)
                && (match order {
                Some(o) => r@.len() == stops(halted, killed).len() + 1 && r@.last() == FillAction::Hedge(o),
                None => r@.len() == stops(halted, killed).len(),
            }) && if old(hedges).managers@[k].cfg.rebalance_on_fill {
                HedgeManager::gated(
                    old(hedges).managers@[k],
                    net_delta,
                    "fill"@,
                    forward,
                    now_ns,
                    final(hedges).managers@[k],
                    action,
                )
            } else {
                final(hedges).managers@[k] == old(hedges).managers@[k] && action is Idle
            },
{
    let mut out: Vec<FillAction> = Vec::new();
    if halted {
        out.push(FillAction::Stop("daily_halt_per_fill"));
    }
    if killed {
        out.push(FillAction::Stop("delta_kill_per_fill"));
    }
    let ghost before = out@;
    assert(starts_with_stops(before, stops(halted, killed)));
    let order = hedge_after_fill(hedges, product, net_delta, forward, mode, now_ns);
    let ghost found = order;
    match order {
        Some(o) => {
            out.push(FillAction::Hedge(o));
            assert forall|i: int| 0 <= i < before.len() implies out@[i] == before[i] by {}
        },
        None => {},
    }
    proof {
        let reasons = stops(halted, killed);
        assert forall|i: int| 0 <= i < reasons.len() implies (#[trigger] out@[i] matches FillAction::Stop(why) && why@
            == reasons[i]) by {
            assert(out@[i] == before[i]);
            assert(before[i] matches FillAction::Stop(why) && why@ == reasons[i]);
        }
        if !unknown(old(hedges).managers@, product@) {
            let (k, action) = choose|k: int, action: HedgeAction| #[trigger]
                first_of(old(hedges).managers@, product@, k) && hedges.managers@ == old(hedges).managers@.update(
                    k,
                    hedges.managers@[k],
                ) && #[trigger] ordered(action, mode, found) && if old(hedges).managers@[k].cfg.rebalance_on_fill {
                    HedgeManager::gated(
                        old(hedges).managers@[k],
                        net_delta,
                        "fill"@,
                        forward,
                        now_ns,
                        hedges.managers@[k],
                        action,
                    )
                } else {
                    hedges.managers@[k] == old(hedges).managers@[k] && action is Idle
                };
            assert(first_of(old(hedges).managers@, product@, k) && ordered(action, mode, found));
        }
    }
    out
}

/// In shadow mode no hedge is traded.
pub proof fn law_shadow_hedges_nothing(action: HedgeAction, r: Option<HedgeOrder>)
    requires
        ordered(action, RuntimeMode::Shadow, r),
    ensures
        r is None,
{
}

/// What the portfolio takes of an option's execution: what was bought comes
/// in, what was sold goes out, one for one and at the price paid, and the
/// option is one that the market lists under the instrument.
pub proof fn law_bought_options_come_in(md: MarketDataState, products: Seq<String>, fill: Fill, f: OptionFill)
    requires
        option_filled(md, products, fill, f),
    ensures
        fill.side is Buy ==> f.quantity == fill.qty,
        fill.side is Sell ==> f.quantity + fill.qty == 0,
        f.price == fill.price,
        exists|s: int| #![trigger md.entries@[s]]
            0 <= s < md.entries@.len() && md.entries@[s].tick.instrument_id == Some(fill.instrument_id)
                && md.entries@[s].product@ == f.product@ && md.entries@[s].tick.strike == f.strike
                && md.entries@[s].tick.expiry == f.expiry && md.entries@[s].tick.right == f.right,
        exists|p: int| 0 <= p < products.len() && (#[trigger] products[p])@ == f.product@,
{
    let (p, s) = choose|p: int, s: int|
        0 <= p < products.len() && #[trigger] is_traded(md, s, (#[trigger] products[p])@, fill.instrument_id) && (forall|
            q: int,
            t: int,
        |
            0 <= q < p ==> !(#[trigger] is_traded(md, t, (#[trigger] products[q])@, fill.instrument_id))) && (forall|t: int|
            0 <= t < s ==> !(#[trigger] is_traded(md, t, products[p]@, fill.instrument_id))) && f.product@ == products[p]@
            && f.strike == md.entries@[s].tick.strike && f.expiry == md.entries@[s].tick.expiry && f.right
            == md.entries@[s].tick.right && f.quantity == signed_qty(fill.side, fill.qty) && f.price == fill.price;
    assert(md.entries@[s].tick.instrument_id == Some(fill.instrument_id));
    assert(products[p]@ == f.product@);
}

/// An execution in an instrument that the market lists for one of the
/// products is the portfolio's, and in another it is not.
pub proof fn law_listed_options_are_recognized(md: MarketDataState, products: Seq<String>, iid: InstrumentId)
    ensures
        untraded(md, products, iid) <==> forall|p: int, s: int|
            0 <= p < products.len() && 0 <= s < md.entries@.len() && (#[trigger] md.entries@[s]).product@ == (
            #[trigger] products[p])@ ==> md.entries@[s].tick.instrument_id != Some(iid),
{
    if untraded(md, products, iid) {
        assert forall|p: int, s: int|
            0 <= p < products.len() && 0 <= s < md.entries@.len() && (#[trigger] md.entries@[s]).product@ == (
            #[trigger] products[p])@ implies md.entries@[s].tick.instrument_id != Some(iid) by {
            assert(!is_traded(md, s, products[p]@, iid));
        }
    }
    if !untraded(md, products, iid) {
        let (q, t) = choose|q: int, t: int|
            0 <= q < products.len() && #[trigger] is_traded(md, t, (#[trigger] products[q])@, iid);
        assert(md.entries@[t].product@ == products[q]@);
    }
}

proof fn lemma_all_hedges_update(managers: Seq<HedgeManager>, k: int, m: HedgeManager)
    requires
        0 <= k < managers.len(),
    ensures
        all_hedges(managers.update(k, m)) == all_hedges(managers) - managers[k].state.hedge_qty + m.state.hedge_qty,
    decreases managers.len(),
{
    let changed = managers.update(k, m);
    if k == managers.len() - 1 {
        assert(changed.drop_last() =~= managers.drop_last());
    } else {
        assert(changed.drop_last() =~= managers.drop_last().update(k, m));
        lemma_all_hedges_update(managers.drop_last(), k, m);
    }
}

/// An execution that a hedge took moves all hedges together by what was
/// bought or sold, and no other.
pub proof fn law_hedge_fill_moves_the_hedges(pre: Seq<HedgeManager>, f: HedgeFill, now_ns: u64, post: Seq<HedgeManager>)
    requires
        hedge_applied(pre, f, now_ns, post),
        forall|k: int| #[trigger]
            takes_fill(pre, f, k) ==> pre[k].state.can_fill(HedgeState::effect(f.side == Side::Buy, f.qty)),
    ensures
        f.side is Buy ==> all_hedges(post) == all_hedges(pre) + f.qty,
        f.side is Sell ==> all_hedges(post) == all_hedges(pre) - f.qty,
        exists|k: int| #![trigger pre[k]]
            0 <= k < pre.len() && (pre[k].hedge_contract matches Some(c) && c.instrument_id == f.instrument_id) && post
                == pre.update(k, post[k]),
{
    let k = choose|k: int| #[trigger]
        takes_fill(pre, f, k) && (forall|j: int| 0 <= j < k ==> !(#[trigger] takes_fill(pre, f, j))) && post
            == pre.update(k, post[k]) && post[k] == (HedgeManager {
            state: filled(
                pre[k].state,
                HedgeState::effect(f.side == Side::Buy, f.qty),
                f.price as int,
                pre[k].cfg.multiplier as int,
                now_ns,
            ),
            processed_exec_ids: post[k].processed_exec_ids,
            ..pre[k]
        }) && HedgeManager::remembered(pre[k].processed_exec_ids@, f.exec_id@, post[k].processed_exec_ids@);
    assert(takes_fill(pre, f, k));
    lemma_all_hedges_update(pre, k, post[k]);
    assert(pre[k].hedge_contract matches Some(c) && c.instrument_id == f.instrument_id);
}

/// All hedges together are their sum: each counts once, with its sign.
pub proof fn law_all_hedges_are_a_sum(a: Seq<HedgeManager>, m: HedgeManager, b: Seq<HedgeManager>)
    ensures
        all_hedges(Seq::empty()) == 0,
        all_hedges(a.push(m) + b) == all_hedges(a) + m.state.hedge_qty + all_hedges(b),
    decreases b.len(),
{
    if b.len() == 0 {
        assert((a.push(m) + b).drop_last() =~= a);
        assert((a.push(m) + b).last() == m);
    } else {
        law_all_hedges_are_a_sum(a, m, b.drop_last());
        assert((a.push(m) + b).drop_last() =~= a.push(m) + b.drop_last());
        assert((a.push(m) + b).last() == b.last());
    }
}

/// A hedge sees an execution as the broker reported it.
pub proof fn law_hedge_sees_the_fill(fill: Fill, h: HedgeFill)
    requires
        hedge_fill_of(fill, h),
    ensures
        h.side is Buy <==> fill.side is Buy,
        h.side is Sell <==> fill.side is Sell,
        h.qty == fill.qty,
        h.instrument_id == fill.instrument_id,
        h.exec_id@ == fill.exec_id@,
        fill.price.nanos() is Some && !fill.price.nan() ==> Some(h.price) == fill.price.nanos(),
{
}

/// Outside shadow mode every trade that a manager asks for is made, as large
/// and on the side that it asks for, and none is made that it does not.
pub proof fn law_wanted_hedges_are_traded(action: HedgeAction, r: Option<HedgeOrder>)
    requires
        ordered(action, RuntimeMode::Live, r),
    ensures
        r is Some <==> action is Place,
        r matches Some(o) ==> (action matches HedgeAction::Place {
            is_buy,
            qty,
            reason,
            effective_delta_pre,
            target_qty,
        } && (is_buy <==> o.is_buy) && qty == o.qty && reason@ == o.reason@),
{
}

/// A stop comes for each limit that is broken, and for none that is not.
pub proof fn law_broken_limits_stop(halted: bool, killed: bool)
    ensures
        stops(halted, killed).contains("daily_halt_per_fill"@) <==> halted,
        stops(halted, killed).contains("delta_kill_per_fill"@) <==> killed,
        !halted && !killed ==> stops(halted, killed).len() == 0,
        halted && killed ==> stops(halted, killed) == seq!["daily_halt_per_fill"@, "delta_kill_per_fill"@],
{
    reveal_strlit("daily_halt_per_fill");
    reveal_strlit("delta_kill_per_fill");
    assert("daily_halt_per_fill"@[1] != "delta_kill_per_fill"@[1]);
    let s = stops(halted, killed);
    if halted {
        assert(s[0] == "daily_halt_per_fill"@);
    }
    if killed {
        assert(s.last() == "delta_kill_per_fill"@);
        assert(s[s.len() - 1] == "delta_kill_per_fill"@);
    }
    if halted && killed {
        assert(s =~= seq!["daily_halt_per_fill"@, "delta_kill_per_fill"@]);
    }
}

/// An execution that a product's first manager takes is not passed on.
pub proof fn law_hedge_fills_are_taken(managers: Seq<HedgeManager>, f: HedgeFill, k: int)
    requires
        0 <= k < managers.len(),
        forall|j: int| 0 <= j < k ==> (#[trigger] managers[j]).cfg.product@ != managers[k].cfg.product@,
        managers[k].accepts_fill(f),
    ensures
        !nobody_takes(managers, f),
{
    assert(takes_fill(managers, f, k));
}

/// A future counts for one whole delta and offsets as much of the options':
/// options and a hedge of the opposite size are flat together.
pub proof fn law_hedges_offset_options(options_delta: int, futures: int)
    ensures
        with_hedges(-futures * 1_000_000_000, futures) == 0,
        with_hedges(options_delta, 0) == options_delta,
        with_hedges(options_delta, futures + 1) == with_hedges(options_delta, futures) + 1_000_000_000,
{
}

} // verus!
