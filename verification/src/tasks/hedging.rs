//! The periodic hedge: confirming positions, rebalancing, and the order.

use crate::api::{Contract, ContractKind, OrderType, PlaceOrderReq, Position, Side, TimeInForce};
use crate::hedge::fanout::{first_of, unknown, HedgeFanout};
use crate::hedge::manager::{HedgeAction, HedgeManager};
use crate::hedge::state::HedgeState;
use crate::portfolio::{entry_price, entry_price_of, HedgeSeed};
use crate::tasks::fills::HedgeOrder;
use vstd::prelude::*;
use vstd::string::*;

verus! {

/// Every so many turns positions are reconciled with the broker's.
pub const RECONCILE_EVERY: u64 = 4;

/// Whether positions are reconciled in a turn.
pub fn reconcile_due(turn: u64) -> (r: bool)
    ensures
        r == (turn as int % 4 == 0),
{
    turn % RECONCILE_EVERY == 0
}

/// A manager whose position was confirmed.
pub open spec fn touched(m: HedgeManager, now_ns: u64) -> HedgeManager {
    HedgeManager { state: HedgeState { last_update_ns: now_ns, ..m.state }, ..m }
}

/// The managers once the broker has confirmed or corrected a position in
/// futures.
pub open spec fn with_future(managers: Seq<HedgeManager>, product: Seq<char>, qty: i32, avg: i64, now_ns: u64) -> Seq<
    HedgeManager,
> {
    if unknown(managers, product) {
        managers
    } else {
        let k = choose|k: int| #[trigger] first_of(managers, product, k);
        managers.update(k, managers[k].confirmed(qty, avg, now_ns))
    }
}

/// The managers once the broker's futures have been taken in, in order.
pub open spec fn with_futures(managers: Seq<HedgeManager>, positions: Seq<Position>, now_ns: u64) -> Seq<HedgeManager>
    decreases positions.len(),
{
    if positions.len() == 0 {
        managers
    } else {
        let before = with_futures(managers, positions.drop_last(), now_ns);
        let p = positions.last();
        if p.contract.kind == ContractKind::Future {
            with_future(before, p.contract.symbol@, p.quantity, entry_price(p), now_ns)
        } else {
            before
        }
    }
}

proof fn lemma_first_is_one(managers: Seq<HedgeManager>, product: Seq<char>, i: int)
    requires
        first_of(managers, product, i),
    ensures
        !unknown(managers, product),
        (choose|k: int| #[trigger] first_of(managers, product, k)) == i,
{
    let k = choose|k: int| #[trigger] first_of(managers, product, k);
    assert(first_of(managers, product, k));
    if k < i {
        assert(managers[k].cfg.product@ != product);
    } else if i < k {
        assert(managers[i].cfg.product@ != product);
    }
    assert(managers[i].cfg.product@ == product);
}

fn confirm(hedges: &mut HedgeFanout, product: &str, qty: i32, avg: i64, now_ns: u64) -> (changed: bool)
    ensures
        final(hedges).managers@ == with_future(old(hedges).managers@, product@, qty, avg, now_ns),
        changed == exists|k: int| #[trigger]
            first_of(old(hedges).managers@, product@, k) && old(hedges).managers@[k].state.hedge_qty != qty,
{
    let ghost before = hedges.managers@;
    match hedges.position(product) {
        Some(i) => {
            proof {
                lemma_first_is_one(before, product@, i as int);
            }
            let changed = hedges.managers[i].reconcile_with_position(qty, avg, now_ns);
            assert(hedges.managers@ =~= with_future(before, product@, qty, avg, now_ns));
            proof {
                assert forall|k: int| #[trigger] first_of(before, product@, k) implies k == i by {
                    if k < i {
                        assert(before[k].cfg.product@ != product@);
                    } else if i < k {
                        assert(before[i as int].cfg.product@ != product@);
                    }
                }
                if changed {
                    assert(first_of(before, product@, i as int));
                }
            }
            changed
        },
        None => {
            proof {
                assert forall|k: int| !(#[trigger] first_of(before, product@, k)) by {
                    if first_of(before, product@, k) {
                        assert(before[k].cfg.product@ == product@);
                    }
                }
            }
            false
        },
    }
}

/// Takes the broker's positions in: every hedge counts as confirmed, since a
/// flat one is not listed; then each future corrects its product's.
pub fn reconcile_hedges(hedges: &mut HedgeFanout, positions: &Vec<Position>, now_ns: u64)
    ensures
        final(hedges).managers@ == with_futures(
            old(hedges).managers@.map_values(|m: HedgeManager| touched(m, now_ns)),
            positions@,
            now_ns,
        ),
{
    let ghost before = hedges.managers@;
    let mut i: usize = 0;
    while i < hedges.managers.len()
        invariant
            i <= before.len(),
            hedges.managers@.len() == before.len(),
            forall|k: int| 0 <= k < i ==> #[trigger] hedges.managers@[k] == touched(before[k], now_ns),
            forall|k: int| i <= k < before.len() ==> #[trigger] hedges.managers@[k] == before[k],
        decreases before.len() - i,
    {
        hedges.managers[i].touch_freshness(now_ns);
        i = i + 1;
    }
    let ghost start = before.map_values(|m: HedgeManager| touched(m, now_ns));
    assert(hedges.managers@ =~= start);
    let mut i: usize = 0;
    while i < positions.len()
        invariant
            i <= positions@.len(),
            hedges.managers@ == with_futures(start, positions@.take(i as int), now_ns),
        decreases positions@.len() - i,
    {
        let p = &positions[i];
        assert(positions@.take(i + 1).last() == *p);
        assert(positions@.take(i + 1).drop_last() =~= positions@.take(i as int));
        match p.contract.kind {
            ContractKind::Future => {
                let avg: i64 = entry_price_of(p);
                confirm(hedges, p.contract.symbol.as_str(), p.quantity, avg, now_ns);
            },
            ContractKind::Option => {},
        }
        i = i + 1;
    }
    assert(positions@.take(i as int) =~= positions@);
}

/// The managers once the broker's futures at start have been taken in.
pub open spec fn seeded(managers: Seq<HedgeManager>, seeds: Seq<HedgeSeed>, now_ns: u64) -> Seq<HedgeManager>
    decreases seeds.len(),
{
    if seeds.len() == 0 {
        managers
    } else {
        let s = seeds.last();
        with_future(seeded(managers, seeds.drop_last(), now_ns), s.product@, s.quantity, s.avg_entry_f, now_ns)
    }
}

/// How many seeds changed a position.
pub open spec fn seed_changes(managers: Seq<HedgeManager>, seeds: Seq<HedgeSeed>, now_ns: u64) -> int
    decreases seeds.len(),
{
    if seeds.len() == 0 {
        0
    } else {
        let before = seeded(managers, seeds.drop_last(), now_ns);
        let s = seeds.last();
        seed_changes(managers, seeds.drop_last(), now_ns) + (if exists|k: int| #[trigger]
            first_of(before, s.product@, k) && before[k].state.hedge_qty != s.quantity {
            1int
        } else {
            0
        })
    }
}

/// Takes the broker's futures in at start. Returns how many hedges changed.
pub fn seed_hedges(hedges: &mut HedgeFanout, seeds: &Vec<HedgeSeed>, now_ns: u64) -> (changed: usize)
    ensures
        final(hedges).managers@ == seeded(old(hedges).managers@, seeds@, now_ns),
        changed == seed_changes(old(hedges).managers@, seeds@, now_ns),
{
    let ghost before = hedges.managers@;
    let mut changed: usize = 0;
    let mut i: usize = 0;
    while i < seeds.len()
        invariant
            changed <= i <= seeds@.len(),
            hedges.managers@ == seeded(before, seeds@.take(i as int), now_ns),
            changed == seed_changes(before, seeds@.take(i as int), now_ns),
        decreases seeds@.len() - i,
    {
        let s = &seeds[i];
        assert(seeds@.take(i + 1).last() == *s);
        assert(seeds@.take(i + 1).drop_last() =~= seeds@.take(i as int));
        if confirm(hedges, s.product.as_str(), s.quantity, s.avg_entry_f, now_ns) {
            changed = changed + 1;
        }
        i = i + 1;
    }
    assert(seeds@.take(i as int) =~= seeds@);
    changed
}

/// What a product's periodic rebalance goes by, in billionths.
#[derive(Debug)]
pub struct RebalanceInput {
    pub product: String,
    pub net_delta: i64,
    /// Price of the underlying; 0 where there is none.
    pub forward: i64,
}

/// One product's turn.
pub open spec fn rebalanced_one(
    pre: Seq<HedgeManager>,
    input: RebalanceInput,
    now_ns: u64,
    post: Seq<HedgeManager>,
    action: Option<HedgeAction>,
) -> bool {
    if unknown(pre, input.product@) {
        post == pre && action is None
    } else {
        let k = choose|k: int| #[trigger] first_of(pre, input.product@, k);
        &&& post == pre.update(k, post[k])
        &&& action is Some
        &&& HedgeManager::periodic(pre[k], input.net_delta, input.forward, now_ns, post[k], action->0)
    }
}

/// Gives a product its turn. Returns what its manager wants done; none where
/// the product is not hedged.
pub fn rebalance_product(hedges: &mut HedgeFanout, input: &RebalanceInput, now_ns: u64) -> (r: Option<HedgeAction>)
    requires
        old(hedges).wf(),
        forall|k: int| #[trigger]
            first_of(old(hedges).managers@, input.product@, k) ==> old(hedges).managers@[k].can_rebalance(input.net_delta),
    ensures
        final(hedges).wf(),
        rebalanced_one(old(hedges).managers@, *input, now_ns, final(hedges).managers@, r),
{
    let ghost before = hedges.managers@;
    match hedges.position(input.product.as_str()) {
        Some(i) => {
            proof {
                lemma_first_is_one(before, input.product@, i as int);
            }
            assert(before[i as int].wf());
            let action = hedges.managers[i].rebalance_periodic(input.net_delta, input.forward, now_ns);
            assert(hedges.managers@ =~= before.update(i as int, hedges.managers@[i as int]));
            Some(action)
        },
        None => None,
    }
}

/// Every product's turn, in order: what each manager wants done, where there
/// is one.
pub open spec fn rebalanced_all(
    pre: Seq<HedgeManager>,
    inputs: Seq<RebalanceInput>,
    now_ns: u64,
    post: Seq<HedgeManager>,
    out: Seq<(String, HedgeAction)>,
) -> bool
    decreases inputs.len(),
{
    if inputs.len() == 0 {
        post == pre && out.len() == 0
    } else {
        exists|mid: Seq<HedgeManager>, action: Option<HedgeAction>| #[trigger]
            rebalanced_one(mid, inputs.last(), now_ns, post, action) && (match action {
                Some(a) => out.len() > 0 && out.last().0@ == inputs.last().product@ && out.last().1 == a && rebalanced_all(
                    pre,
                    inputs.drop_last(),
                    now_ns,
                    mid,
                    out.drop_last(),
                ),
                None => rebalanced_all(pre, inputs.drop_last(), now_ns, mid, out),
            })
    }
}

/// Whether no product has two turns.
pub open spec fn one_turn_each(inputs: Seq<RebalanceInput>) -> bool {
    forall|i: int, j: int|
        0 <= i < j < inputs.len() ==> (#[trigger] inputs[i]).product@ != (#[trigger] inputs[j]).product@
}

/// Gives every product its turn. Returns what the managers want done.
pub fn rebalance_all(hedges: &mut HedgeFanout, inputs: &Vec<RebalanceInput>, now_ns: u64) -> (r: Vec<
    (String, HedgeAction),
>)
    requires
        old(hedges).wf(),
        one_turn_each(inputs@),
        forall|i: int, k: int|
            0 <= i < inputs@.len() && #[trigger] first_of(
                old(hedges).managers@,
                (#[trigger] inputs@[i]).product@,
                k,
            ) ==> old(hedges).managers@[k].can_rebalance(inputs@[i].net_delta),
    ensures
        final(hedges).wf(),
        rebalanced_all(old(hedges).managers@, inputs@, now_ns, final(hedges).managers@, r@),
{
    let ghost before = hedges.managers@;
    let mut out: Vec<(String, HedgeAction)> = Vec::new();
    let mut i: usize = 0;
    assert(inputs@.take(0) =~= Seq::<RebalanceInput>::empty());
    while i < inputs.len()
        invariant
            i <= inputs@.len(),
            before == old(hedges).managers@,
            hedges.wf(),
            one_turn_each(inputs@),
            forall|j: int, k: int|
                0 <= j < inputs@.len() && #[trigger] first_of(before, (#[trigger] inputs@[j]).product@, k)
                    ==> before[k].can_rebalance(inputs@[j].net_delta),
            hedges.managers@.len() == before.len(),
            forall|k: int| 0 <= k < before.len() ==> (#[trigger] hedges.managers@[k]).cfg == before[k].cfg,
            forall|k: int|
                0 <= k < before.len() && (forall|a: int|
                    0 <= a < i ==> (#[trigger] inputs@[a]).product@ != before[k].cfg.product@)
                    ==> #[trigger] hedges.managers@[k] == before[k],
            rebalanced_all(before, inputs@.take(i as int), now_ns, hedges.managers@, out@),
        decreases inputs@.len() - i,
    {
        let input = &inputs[i];
        let ghost mid = hedges.managers@;
        let ghost said = out@;
        proof {
            assert forall|k: int| #[trigger] first_of(mid, input.product@, k) implies mid[k].can_rebalance(
                input.net_delta,
            ) by {
                assert(before[k].cfg.product@ == input.product@);
                assert(first_of(before, input.product@, k)) by {
                    assert forall|j: int| 0 <= j < k implies (#[trigger] before[j]).cfg.product@ != input.product@ by {
                        assert(mid[j].cfg.product@ != input.product@);
                    }
                }
                assert forall|a: int| 0 <= a < i implies (#[trigger] inputs@[a]).product@ != before[k].cfg.product@ by {
                    assert(inputs@[a].product@ != inputs@[i as int].product@);
                }
                assert(mid[k] == before[k]);
            }
        }
        let action = rebalance_product(hedges, input, now_ns);
        let ghost done = action;
        match action {
            Some(a) => {
                out.push((input.product.clone(), a));
                assert(out@.drop_last() =~= said);
            },
            None => {},
        }
        proof {
            let now = inputs@.take(i + 1);
            assert(now.last() == *input);
            assert(now.drop_last() =~= inputs@.take(i as int));
            assert(rebalanced_one(mid, now.last(), now_ns, hedges.managers@, done));
            if !unknown(mid, input.product@) {
                lemma_first_exists(mid, input.product@);
                let k0 = choose|k: int| #[trigger] first_of(mid, input.product@, k);
                assert(hedges.managers@[k0].cfg == mid[k0].cfg);
                assert forall|k: int|
                    0 <= k < before.len() && (forall|a: int|
                        0 <= a < i + 1 ==> (#[trigger] inputs@[a]).product@ != before[k].cfg.product@) implies
                    #[trigger] hedges.managers@[k] == before[k] by {
                    assert(inputs@[i as int].product@ != before[k].cfg.product@);
                    assert(k != k0);
                    assert(mid[k] == before[k]);
                }
            }
        }
        i = i + 1;
    }
    assert(inputs@.take(i as int) =~= inputs@);
    out
}

/// Why a hedge order is not made.
#[derive(Clone, Copy, Debug, PartialEq, Eq, Structural)]
pub enum HedgeSkip {
    /// The product has no manager.
    NoManager,
    /// No contract to trade was resolved yet.
    NoContract,
    /// The underlying has no price.
    NoPrice,
}

/// Whether `req` is the order that a hedge asks for: at the market, now or
/// not at all, so that a fast move cannot leave the position unhedged.
pub open spec fn is_hedge_order(req: PlaceOrderReq, contract: Contract, order: HedgeOrder, account: Option<Seq<char>>) -> bool {
    &&& req.contract == contract
    &&& req.side == (if order.is_buy {
        Side::Buy
    } else {
        Side::Sell
    })
    &&& req.qty == order.qty
    &&& req.order_type == OrderType::Market
    &&& req.price is None
    &&& req.tif == TimeInForce::Ioc
    &&& req.gtd_until_utc is None
    &&& req.client_order_ref@ == "corsair_hedge_"@ + order.reason@
    &&& match account {
        Some(a) => req.account is Some && req.account->0@ == a,
        None => req.account is None,
    }
}

/// The order for a hedge, or why there is none.
pub fn place_hedge_order(
    hedges: &HedgeFanout,
    product: &str,
    order: &HedgeOrder,
    underlying: Option<i64>,
    account: Option<&str>,
) -> (r: Result<PlaceOrderReq, HedgeSkip>)
    ensures
        match r {
            Ok(req) => {
                &&& exists|k: int| #[trigger]
                    first_of(hedges.managers@, product@, k) && hedges.managers@[k].hedge_contract is Some
                        && is_hedge_order(
                        req,
                        hedges.managers@[k].hedge_contract->0,
                        *order,
                        match account {
                            Some(a) => Some(a@),
                            None => None,
                        },
                    )
                &&& underlying is Some && underlying->0 > 0
            },
            Err(HedgeSkip::NoManager) => unknown(hedges.managers@, product@),
            Err(HedgeSkip::NoContract) => exists|k: int| #[trigger]
                first_of(hedges.managers@, product@, k) && hedges.managers@[k].hedge_contract is None,
            Err(HedgeSkip::NoPrice) => {
                &&& exists|k: int| #[trigger]
                    first_of(hedges.managers@, product@, k) && hedges.managers@[k].hedge_contract is Some
                &&& underlying is None || underlying->0 <= 0
            },
        },
{
    let i: usize = match hedges.position(product) {
        Some(i) => i,
        None => {
            return Err(HedgeSkip::NoManager);
        },
    };
    assert(first_of(hedges.managers@, product@, i as int));
    let contract = match &hedges.managers[i].hedge_contract {
        Some(c) => c.clone(),
        None => {
            return Err(HedgeSkip::NoContract);
        },
    };
    let price: i64 = match underlying {
        Some(p) => p,
        None => 0,
    };
    if price <= 0 {
        return Err(HedgeSkip::NoPrice);
    }
    let mut client_order_ref = "corsair_hedge_".to_owned();
    client_order_ref.append(order.reason.as_str());
    Ok(
        PlaceOrderReq {
            contract,
            side: if order.is_buy {
                Side::Buy
            } else {
                Side::Sell
            },
            qty: order.qty,
            order_type: OrderType::Market,
            price: None,
            tif: TimeInForce::Ioc,
            gtd_until_utc: None,
            client_order_ref,
            account: match account {
                Some(a) => Some(a.to_owned()),
                None => None,
            },
        },
    )
}

// Risk

/// A product's option greeks, in billionths.
#[derive(Debug)]
pub struct ProductGreeks {
    pub product: String,
    pub net_delta: i64,
    pub net_theta: i64,
    pub net_vega: i64,
}

/// The product's hedge, where hedges count.
pub open spec fn gated_hedge(managers: Seq<HedgeManager>, product: Seq<char>, gating: bool) -> int {
    if gating && !unknown(managers, product) {
        managers[choose|k: int| #[trigger] first_of(managers, product, k)].state.hedge_qty as int
    } else {
        0
    }
}

/// Absolute value.
pub open spec fn size_of(x: int) -> int {
    if x >= 0 {
        x
    } else {
        -x
    }
}

/// The worst of the products: the largest delta either way, with the hedge
/// where hedges count; the most negative theta; the largest vega either way.
pub open spec fn worst(greeks: Seq<ProductGreeks>, managers: Seq<HedgeManager>, gating: bool) -> (int, int, int)
    decreases greeks.len(),
{
    if greeks.len() == 0 {
        (0, 0, 0)
    } else {
        let w = worst(greeks.drop_last(), managers, gating);
        let g = greeks.last();
        let d = g.net_delta + gated_hedge(managers, g.product@, gating) * 1_000_000_000;
        (
            if size_of(d) > size_of(w.0) {
                d
            } else {
                w.0
            },
            if g.net_theta < w.1 {
                g.net_theta as int
            } else {
                w.1
            },
            if size_of(g.net_vega as int) > size_of(w.2) {
                g.net_vega as int
            } else {
                w.2
            },
        )
    }
}

fn hedge_of(hedges: &HedgeFanout, product: &str, gating: bool) -> (r: i32)
    ensures
        r == gated_hedge(hedges.managers@, product@, gating),
{
    if !gating {
        return 0;
    }
    match hedges.position(product) {
        Some(i) => {
            proof {
                lemma_first_is_one(hedges.managers@, product@, i as int);
            }
            hedges.managers[i].hedge_qty()
        },
        None => 0,
    }
}

fn farther(a: i128, b: i128) -> (r: bool)
    requires
        i128::MIN < a,
        i128::MIN < b,
    ensures
        r == (size_of(a as int) > size_of(b as int)),
{
    let x: i128 = if a >= 0 {
        a
    } else {
        -a
    };
    let y: i128 = if b >= 0 {
        b
    } else {
        -b
    };
    x > y
}

/// The worst delta, theta and vega of the products.
pub fn worst_per_product(greeks: &Vec<ProductGreeks>, hedges: &HedgeFanout, gating: bool) -> (r: (i128, i64, i64))
    ensures
        (r.0 as int, r.1 as int, r.2 as int) == worst(greeks@, hedges.managers@, gating),
{
    let mut delta: i128 = 0;
    let mut theta: i64 = 0;
    let mut vega: i64 = 0;
    let mut i: usize = 0;
    while i < greeks.len()
        invariant
            i <= greeks@.len(),
            i128::MIN < delta,
            (delta as int, theta as int, vega as int) == worst(greeks@.take(i as int), hedges.managers@, gating),
        decreases greeks@.len() - i,
    {
        let g = &greeks[i];
        assert(greeks@.take(i + 1).last() == *g);
        assert(greeks@.take(i + 1).drop_last() =~= greeks@.take(i as int));
        let d: i128 = g.net_delta as i128 + hedge_of(hedges, g.product.as_str(), gating) as i128 * 1_000_000_000;
        if farther(d, delta) {
            delta = d;
        }
        if g.net_theta < theta {
            theta = g.net_theta;
        }
        if farther(g.net_vega as i128, vega as i128) {
            vega = g.net_vega;
        }
        i = i + 1;
    }
    assert(greeks@.take(i as int) =~= greeks@);
    (delta, theta, vega)
}

/// No product is worse than the worst.
pub proof fn law_worst_bounds_all(greeks: Seq<ProductGreeks>, managers: Seq<HedgeManager>, gating: bool, i: int)
    requires
        0 <= i < greeks.len(),
    ensures
        size_of(greeks[i].net_delta + gated_hedge(managers, greeks[i].product@, gating) * 1_000_000_000) <= size_of(
            worst(greeks, managers, gating).0,
        ),
        worst(greeks, managers, gating).1 <= greeks[i].net_theta,
        size_of(greeks[i].net_vega as int) <= size_of(worst(greeks, managers, gating).2),
    decreases greeks.len(),
{
    if i < greeks.len() - 1 {
        law_worst_bounds_all(greeks.drop_last(), managers, gating, i);
        assert(greeks.drop_last()[i] == greeks[i]);
    }
}

/// Once the broker's futures have been taken in, each hedged product holds
/// what the broker's last position in its future says.
pub proof fn law_reconciled_hedge_is_the_brokers(managers: Seq<HedgeManager>, positions: Seq<Position>, now_ns: u64, k: int)
    requires
        positions.len() > 0,
        positions.last().contract.kind == ContractKind::Future,
        first_of(managers, positions.last().contract.symbol@, k),
    ensures
        with_futures(managers, positions, now_ns)[k].state.hedge_qty == positions.last().quantity,
        with_futures(managers, positions, now_ns)[k].state.last_update_ns == now_ns,
{
    let before = with_futures(managers, positions.drop_last(), now_ns);
    lemma_futures_keep_products(managers, positions.drop_last(), now_ns);
    let product = positions.last().contract.symbol@;
    assert(before[k].cfg.product@ == product);
    assert(first_of(before, product, k)) by {
        assert forall|j: int| 0 <= j < k implies (#[trigger] before[j]).cfg.product@ != product by {
            assert(managers[j].cfg.product@ != product);
        }
    }
    lemma_first_is_one(before, product, k);
}

proof fn lemma_first_exists(managers: Seq<HedgeManager>, product: Seq<char>)
    requires
        !unknown(managers, product),
    ensures
        exists|k: int| #[trigger] first_of(managers, product, k),
    decreases managers.len(),
{
    let i = choose|i: int| 0 <= i < managers.len() && (#[trigger] managers[i]).cfg.product@ == product;
    let rest = managers.take(i);
    if unknown(rest, product) {
        assert(first_of(managers, product, i)) by {
            assert forall|j: int| 0 <= j < i implies (#[trigger] managers[j]).cfg.product@ != product by {
                assert(rest[j].cfg.product@ != product);
            }
        }
    } else {
        lemma_first_exists(rest, product);
        let k = choose|k: int| #[trigger] first_of(rest, product, k);
        assert(first_of(managers, product, k)) by {
            assert(rest[k] == managers[k]);
            assert forall|j: int| 0 <= j < k implies (#[trigger] managers[j]).cfg.product@ != product by {
                assert(rest[j].cfg.product@ != product);
            }
        }
    }
}

proof fn lemma_futures_keep_products(managers: Seq<HedgeManager>, positions: Seq<Position>, now_ns: u64)
    ensures
        with_futures(managers, positions, now_ns).len() == managers.len(),
        forall|j: int|
            0 <= j < managers.len() ==> (#[trigger] with_futures(managers, positions, now_ns)[j]).cfg == managers[j].cfg,
    decreases positions.len(),
{
    if positions.len() > 0 {
        lemma_futures_keep_products(managers, positions.drop_last(), now_ns);
        let before = with_futures(managers, positions.drop_last(), now_ns);
        let p = positions.last();
        if p.contract.kind == ContractKind::Future && !unknown(before, p.contract.symbol@) {
            lemma_first_exists(before, p.contract.symbol@);
        }
    }
}

/// A hedge goes out on the side that is asked for, in the contract that is
/// hedged with, at the market and now or not at all.
pub proof fn law_hedge_order_trades_what_is_asked(
    req: PlaceOrderReq,
    contract: Contract,
    order: HedgeOrder,
    account: Option<Seq<char>>,
)
    requires
        is_hedge_order(req, contract, order, account),
    ensures
        req.side is Buy <==> order.is_buy,
        req.side is Sell <==> !order.is_buy,
        req.qty == order.qty,
        req.contract == contract,
        req.order_type is Market,
        req.tif is Ioc,
        req.price is None,
        req.gtd_until_utc is None,
        req.account is Some <==> account is Some,
        account matches Some(a) ==> req.account->0@ == a,
        req.client_order_ref@.len() == 14 + order.reason@.len(),
        req.client_order_ref@.skip(14) == order.reason@,
{
    reveal_strlit("corsair_hedge_");
    assert(req.client_order_ref@.skip(14) =~= order.reason@);
}

/// Whether a position says something of a product's hedge.
pub open spec fn tells_of(p: Position, product: Seq<char>) -> bool {
    p.contract.kind is Future && p.contract.symbol@ == product
}

/// Each hedge holds what the broker's last position in its future says, with
/// its sign, wherever that stands among the positions.
pub proof fn law_reconciled_hedges_are_the_brokers(
    managers: Seq<HedgeManager>,
    positions: Seq<Position>,
    now_ns: u64,
    k: int,
    i: int,
)
    requires
        0 <= i < positions.len(),
        first_of(managers, positions[i].contract.symbol@, k),
        tells_of(positions[i], positions[i].contract.symbol@),
        forall|j: int| i < j < positions.len() ==> !tells_of(#[trigger] positions[j], positions[i].contract.symbol@),
    ensures
        with_futures(managers, positions, now_ns)[k].state.hedge_qty == positions[i].quantity,
        with_futures(managers, positions, now_ns)[k].state.last_update_ns == now_ns,
    decreases positions.len(),
{
    let product = positions[i].contract.symbol@;
    if i == positions.len() - 1 {
        law_reconciled_hedge_is_the_brokers(managers, positions, now_ns, k);
    } else {
        let rest = positions.drop_last();
        law_reconciled_hedges_are_the_brokers(managers, rest, now_ns, k, i);
        lemma_other_futures_leave(managers, positions, now_ns, k);
    }
}

proof fn lemma_other_futures_leave(managers: Seq<HedgeManager>, positions: Seq<Position>, now_ns: u64, k: int)
    requires
        positions.len() > 0,
        0 <= k < managers.len(),
        !tells_of(positions.last(), managers[k].cfg.product@),
    ensures
        with_futures(managers, positions, now_ns)[k] == with_futures(managers, positions.drop_last(), now_ns)[k],
{
    let before = with_futures(managers, positions.drop_last(), now_ns);
    lemma_futures_keep_products(managers, positions.drop_last(), now_ns);
    let p = positions.last();
    if p.contract.kind == ContractKind::Future && !unknown(before, p.contract.symbol@) {
        lemma_first_exists(before, p.contract.symbol@);
        let i = choose|i: int| #[trigger] first_of(before, p.contract.symbol@, i);
        assert(before[i].cfg.product@ == p.contract.symbol@);
        assert(before[k].cfg == managers[k].cfg);
    }
}

/// A hedge that no future of the broker's tells of keeps its position: option
/// positions and other products' futures do not touch it.
pub proof fn law_untold_hedges_stay(managers: Seq<HedgeManager>, positions: Seq<Position>, now_ns: u64, k: int)
    requires
        0 <= k < managers.len(),
        forall|j: int| 0 <= j < positions.len() ==> !tells_of(#[trigger] positions[j], managers[k].cfg.product@),
    ensures
        with_futures(managers, positions, now_ns)[k] == managers[k],
    decreases positions.len(),
{
    if positions.len() > 0 {
        let rest = positions.drop_last();
        assert(forall|j: int| 0 <= j < rest.len() ==> #[trigger] rest[j] == positions[j]);
        law_untold_hedges_stay(managers, rest, now_ns, k);
        lemma_other_futures_leave(managers, positions, now_ns, k);
    }
}

/// A reconciliation confirms every hedge, also those it does not list, and
/// changes nothing else of those.
pub proof fn law_reconciliation_confirms_all(managers: Seq<HedgeManager>, positions: Seq<Position>, now_ns: u64, k: int)
    requires
        0 <= k < managers.len(),
    ensures
        ({
            let after = with_futures(
                managers.map_values(|m: HedgeManager| touched(m, now_ns)),
                positions,
                now_ns,
            );
            &&& after.len() == managers.len()
            &&& after[k].state.last_update_ns == now_ns
            &&& after[k].state.realized_pnl_usd == managers[k].state.realized_pnl_usd
            &&& (forall|j: int| 0 <= j < positions.len() ==> !tells_of(#[trigger] positions[j], managers[k].cfg.product@))
                ==> after[k].state.hedge_qty == managers[k].state.hedge_qty && after[k].state.avg_entry_f
                == managers[k].state.avg_entry_f
        }),
{
    let start = managers.map_values(|m: HedgeManager| touched(m, now_ns));
    lemma_futures_keep_products(start, positions, now_ns);
    lemma_futures_keep_confirmed(start, positions, now_ns, k);
    if forall|j: int| 0 <= j < positions.len() ==> !tells_of(#[trigger] positions[j], managers[k].cfg.product@) {
        law_untold_hedges_stay(start, positions, now_ns, k);
    }
}

proof fn lemma_futures_keep_confirmed(managers: Seq<HedgeManager>, positions: Seq<Position>, now_ns: u64, k: int)
    requires
        0 <= k < managers.len(),
        managers[k].state.last_update_ns == now_ns,
    ensures
        with_futures(managers, positions, now_ns)[k].state.last_update_ns == now_ns,
        with_futures(managers, positions, now_ns)[k].state.realized_pnl_usd == managers[k].state.realized_pnl_usd,
    decreases positions.len(),
{
    if positions.len() > 0 {
        lemma_futures_keep_confirmed(managers, positions.drop_last(), now_ns, k);
        lemma_futures_keep_products(managers, positions.drop_last(), now_ns);
        let before = with_futures(managers, positions.drop_last(), now_ns);
        let p = positions.last();
        if p.contract.kind == ContractKind::Future && !unknown(before, p.contract.symbol@) {
            lemma_first_exists(before, p.contract.symbol@);
        }
    }
}

/// At start a hedge takes over the broker's position, with its sign, and the
/// others stay; it counts as changed where it held another.
pub proof fn law_seed_is_taken_over(managers: Seq<HedgeManager>, s: HedgeSeed, now_ns: u64, k: int)
    requires
        first_of(managers, s.product@, k),
    ensures
        seeded(managers, seq![s], now_ns)[k].state.hedge_qty == s.quantity,
        seeded(managers, seq![s], now_ns)[k].state.last_update_ns == now_ns,
        forall|j: int|
            0 <= j < managers.len() && j != k ==> #[trigger] seeded(managers, seq![s], now_ns)[j] == managers[j],
        managers[k].state.hedge_qty == s.quantity ==> seed_changes(managers, seq![s], now_ns) == 0,
        managers[k].state.hedge_qty != s.quantity ==> seed_changes(managers, seq![s], now_ns) == 1,
{
    let one = seq![s];
    assert(one.drop_last() =~= Seq::<HedgeSeed>::empty());
    assert(seeded(managers, one.drop_last(), now_ns) == managers);
    assert(seed_changes(managers, one.drop_last(), now_ns) == 0);
    lemma_first_is_one(managers, s.product@, k);
    assert forall|i: int| #[trigger] first_of(managers, s.product@, i) implies i == k by {
        lemma_first_is_one(managers, s.product@, i);
    }
}

/// Seeds are taken one after another: two batches do what one does, and what
/// each changed adds up.
pub proof fn law_seeds_add_up(managers: Seq<HedgeManager>, first: Seq<HedgeSeed>, then_: Seq<HedgeSeed>, now_ns: u64)
    ensures
        seeded(managers, first + then_, now_ns) == seeded(seeded(managers, first, now_ns), then_, now_ns),
        seed_changes(managers, first + then_, now_ns) == seed_changes(managers, first, now_ns) + seed_changes(
            seeded(managers, first, now_ns),
            then_,
            now_ns,
        ),
        seed_changes(managers, Seq::empty(), now_ns) == 0,
    decreases then_.len(),
{
    if then_.len() == 0 {
        assert(first + then_ =~= first);
    } else {
        law_seeds_add_up(managers, first, then_.drop_last(), now_ns);
        assert((first + then_).drop_last() =~= first + then_.drop_last());
        assert((first + then_).last() == then_.last());
    }
}

/// Where hedges count, no product's options and hedge together are farther
/// from flat than the worst, on either side; where they do not, no product's
/// options alone are.
pub proof fn law_no_product_is_worse(greeks: Seq<ProductGreeks>, managers: Seq<HedgeManager>, i: int, k: int)
    requires
        0 <= i < greeks.len(),
        first_of(managers, greeks[i].product@, k),
    ensures
        ({
            let d = greeks[i].net_delta + managers[k].state.hedge_qty * 1_000_000_000;
            let w = worst(greeks, managers, true).0;
            -w <= d <= w || w <= d <= -w
        }),
        ({
            let d = greeks[i].net_delta;
            let w = worst(greeks, managers, false).0;
            -w <= d <= w || w <= d <= -w
        }),
        ({
            let v = greeks[i].net_vega;
            let w = worst(greeks, managers, true).2;
            -w <= v <= w || w <= v <= -w
        }),
        worst(greeks, managers, true).1 <= greeks[i].net_theta,
{
    law_worst_bounds_all(greeks, managers, true, i);
    law_worst_bounds_all(greeks, managers, false, i);
    lemma_first_is_one(managers, greeks[i].product@, k);
}

/// The worst is some product's own, or none is off flat on that side.
pub proof fn law_the_worst_is_some_products(greeks: Seq<ProductGreeks>, managers: Seq<HedgeManager>, gating: bool)
    ensures
        worst(greeks, managers, gating).0 == 0 || exists|i: int| #![trigger greeks[i]]
            0 <= i < greeks.len() && worst(greeks, managers, gating).0 == greeks[i].net_delta + gated_hedge(
                managers,
                greeks[i].product@,
                gating,
            ) * 1_000_000_000,
        worst(greeks, managers, gating).1 <= 0,
        worst(greeks, managers, gating).1 == 0 || exists|i: int| #![trigger greeks[i]]
            0 <= i < greeks.len() && worst(greeks, managers, gating).1 == greeks[i].net_theta,
        worst(greeks, managers, gating).2 == 0 || exists|i: int| #![trigger greeks[i]]
            0 <= i < greeks.len() && worst(greeks, managers, gating).2 == greeks[i].net_vega,
    decreases greeks.len(),
{
    if greeks.len() > 0 {
        let rest = greeks.drop_last();
        law_the_worst_is_some_products(rest, managers, gating);
        let n = greeks.len() - 1;
        assert(greeks[n] == greeks.last());
        assert(forall|i: int| 0 <= i < n ==> #[trigger] rest[i] == greeks[i]);
        let w = worst(rest, managers, gating);
        if w.0 != 0 {
            let i = choose|i: int| #![trigger rest[i]]
                0 <= i < rest.len() && w.0 == rest[i].net_delta + gated_hedge(managers, rest[i].product@, gating)
                    * 1_000_000_000;
            assert(rest[i] == greeks[i]);
        }
        if w.1 != 0 {
            let i = choose|i: int| #![trigger rest[i]] 0 <= i < rest.len() && w.1 == rest[i].net_theta;
            assert(rest[i] == greeks[i]);
        }
        if w.2 != 0 {
            let i = choose|i: int| #![trigger rest[i]] 0 <= i < rest.len() && w.2 == rest[i].net_vega;
            assert(rest[i] == greeks[i]);
        }
    }
}

/// A product's hedge counts as it is, or not at all.
pub proof fn law_hedges_count_where_they_gate(managers: Seq<HedgeManager>, product: Seq<char>)
    ensures
        gated_hedge(managers, product, false) == 0,
        unknown(managers, product) ==> gated_hedge(managers, product, true) == 0,
        forall|k: int| #[trigger]
            first_of(managers, product, k) ==> gated_hedge(managers, product, true) == managers[k].state.hedge_qty,
{
    assert forall|k: int| #[trigger] first_of(managers, product, k) implies gated_hedge(managers, product, true)
        == managers[k].state.hedge_qty by {
        lemma_first_is_one(managers, product, k);
    }
}

/// Every hedged product gets its turn, and what its manager wants is handed
/// on under its name; an unhedged one is passed over.
pub proof fn law_every_hedged_product_is_served(
    pre: Seq<HedgeManager>,
    inputs: Seq<RebalanceInput>,
    now_ns: u64,
    post: Seq<HedgeManager>,
    out: Seq<(String, HedgeAction)>,
    i: int,
)
    requires
        rebalanced_all(pre, inputs, now_ns, post, out),
        0 <= i < inputs.len(),
    ensures
        !unknown(pre, inputs[i].product@) <==> exists|j: int|
            0 <= j < out.len() && (#[trigger] out[j]).0@ == inputs[i].product@,
{
    lemma_served(pre, inputs, now_ns, post, out, inputs[i].product@);
    assert(inputs[i].product@ == inputs[i].product@);
}

proof fn lemma_served(
    pre: Seq<HedgeManager>,
    inputs: Seq<RebalanceInput>,
    now_ns: u64,
    post: Seq<HedgeManager>,
    out: Seq<(String, HedgeAction)>,
    product: Seq<char>,
)
    requires
        rebalanced_all(pre, inputs, now_ns, post, out),
    ensures
        post.len() == pre.len(),
        forall|k: int| 0 <= k < pre.len() ==> (#[trigger] post[k]).cfg == pre[k].cfg,
        (exists|j: int| 0 <= j < out.len() && (#[trigger] out[j]).0@ == product) <==> !unknown(pre, product) && exists|i: int|
            0 <= i < inputs.len() && (#[trigger] inputs[i]).product@ == product,
    decreases inputs.len(),
{
    if inputs.len() > 0 {
        let rest = inputs.drop_last();
        let input = inputs.last();
        let (mid, action) = choose|mid: Seq<HedgeManager>, action: Option<HedgeAction>| #[trigger]
            rebalanced_one(mid, inputs.last(), now_ns, post, action) && (match action {
                Some(a) => out.len() > 0 && out.last().0@ == inputs.last().product@ && out.last().1 == a && rebalanced_all(
                    pre,
                    inputs.drop_last(),
                    now_ns,
                    mid,
                    out.drop_last(),
                ),
                None => rebalanced_all(pre, inputs.drop_last(), now_ns, mid, out),
            });
        assert(forall|i: int| 0 <= i < rest.len() ==> #[trigger] rest[i] == inputs[i]);
        assert(inputs[inputs.len() - 1] == input);
        if unknown(mid, input.product@) {
            lemma_served(pre, rest, now_ns, mid, out, product);
            if input.product@ == product {
                assert forall|k: int| 0 <= k < pre.len() implies (#[trigger] pre[k]).cfg.product@ != product by {
                    assert(mid[k].cfg.product@ != product);
                }
            }
        } else {
            let before = out.drop_last();
            lemma_served(pre, rest, now_ns, mid, before, product);
            lemma_first_exists(mid, input.product@);
            let k = choose|k: int| #[trigger] first_of(mid, input.product@, k);
            assert(pre[k].cfg.product@ == input.product@);
            assert(forall|j: int| 0 <= j < before.len() ==> #[trigger] before[j] == out[j]);
            assert(out[out.len() - 1].0@ == input.product@);
            if exists|j: int| 0 <= j < out.len() && (#[trigger] out[j]).0@ == product {
                let j = choose|j: int| 0 <= j < out.len() && (#[trigger] out[j]).0@ == product;
                if j < before.len() {
                    assert(before[j].0@ == product);
                }
            }
        }
        if exists|i: int| 0 <= i < inputs.len() && (#[trigger] inputs[i]).product@ == product {
            let i = choose|i: int| 0 <= i < inputs.len() && (#[trigger] inputs[i]).product@ == product;
            if i < rest.len() {
                assert(rest[i].product@ == product);
            }
        }
    }
}

} // verus!
