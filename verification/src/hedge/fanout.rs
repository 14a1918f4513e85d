//! Every product's hedge.

use crate::hedge::manager::{HedgeAction, HedgeManager};
use crate::money::{cut, cut_sum, fits};
use crate::text::str_eq;
use vstd::prelude::*;
use vstd::string::*;

verus! {

/// A product's price or delta, in billionths.
#[derive(Debug)]
pub struct ProductValue {
    pub product: String,
    pub value: i64,
}

/// The value given for a product, 0 where none is.
pub open spec fn value_of(values: Seq<ProductValue>, product: Seq<char>) -> i64
    decreases values.len(),
{
    if values.len() == 0 {
        0
    } else if values[0].product@ == product {
        values[0].value
    } else {
        value_of(values.skip(1), product)
    }
}

/// The value given for a product, 0 where none is.
pub fn value_for(values: &Vec<ProductValue>, product: &str) -> (r: i64)
    ensures
        r == value_of(values@, product@),
{
    let mut i: usize = 0;
    assert(values@.skip(0) =~= values@);
    while i < values.len()
        invariant
            i <= values.len(),
            value_of(values@, product@) == value_of(values@.skip(i as int), product@),
        decreases values.len() - i,
    {
        if str_eq(values[i].product.as_str(), product) {
            return values[i].value;
        }
        assert(values@.skip(i as int).skip(1) =~= values@.skip(i + 1));
        i = i + 1;
    }
    0
}

/// Every product's hedge.
#[derive(Debug)]
pub struct HedgeFanout {
    pub managers: Vec<HedgeManager>,
}

/// Whether the manager at `i` is the first one of a product.
pub open spec fn first_of(managers: Seq<HedgeManager>, product: Seq<char>, i: int) -> bool {
    &&& 0 <= i < managers.len()
    &&& managers[i].cfg.product@ == product
    &&& forall|j: int| 0 <= j < i ==> (#[trigger] managers[j]).cfg.product@ != product
}

/// Whether no manager is of a product.
pub open spec fn unknown(managers: Seq<HedgeManager>, product: Seq<char>) -> bool {
    forall|j: int| 0 <= j < managers.len() ==> (#[trigger] managers[j]).cfg.product@ != product
}

/// The hedges' profits at the products' prices, added up.
pub open spec fn total_mtm(managers: Seq<HedgeManager>, forwards: Seq<ProductValue>) -> i128
    decreases managers.len(),
{
    if managers.len() == 0 {
        0
    } else {
        let m = managers.last();
        cut(
            total_mtm(managers.drop_last(), forwards) + m.state.mtm(
                value_of(forwards, m.cfg.product@) as int,
                m.cfg.multiplier as int,
            ),
        )
    }
}

impl HedgeFanout {
    /// Each manager is well formed.
    pub open spec fn wf(self) -> bool {
        forall|i: int| 0 <= i < self.managers@.len() ==> (#[trigger] self.managers@[i]).wf()
    }

    /// A fanout over these managers.
    pub fn new(managers: Vec<HedgeManager>) -> (r: HedgeFanout)
        ensures
            r.managers == managers,
    {
        HedgeFanout { managers }
    }

    /// The managers.
    pub fn managers(&self) -> (r: &[HedgeManager])
        ensures
            r@ == self.managers@,
    {
        self.managers.as_slice()
    }

    /// Where a product's manager is.
    pub fn position(&self, product: &str) -> (r: Option<usize>)
        ensures
            match r {
                Some(i) => first_of(self.managers@, product@, i as int),
                None => unknown(self.managers@, product@),
            },
    {
        let mut i: usize = 0;
        while i < self.managers.len()
            invariant
                i <= self.managers.len(),
                forall|j: int| 0 <= j < i ==> (#[trigger] self.managers@[j]).cfg.product@ != product@,
            decreases self.managers.len() - i,
        {
            if str_eq(self.managers[i].cfg.product.as_str(), product) {
                return Some(i);
            }
            i = i + 1;
        }
        None
    }

    /// A product's manager.
    pub fn for_product(&self, product: &str) -> (r: Option<&HedgeManager>)
        ensures
            match r {
                Some(m) => exists|i: int| #[trigger] first_of(self.managers@, product@, i) && *m == self.managers@[i],
                None => unknown(self.managers@, product@),
            },
    {
        match self.position(product) {
            Some(i) => {
                assert(first_of(self.managers@, product@, i as int));
                Some(&self.managers[i])
            },
            None => None,
        }
    }

    /// A product's manager, to change it.
    pub fn for_product_mut(&mut self, product: &str) -> (r: Option<&mut HedgeManager>)
        ensures
            match r {
                Some(m) => exists|i: int| #[trigger]
                    first_of(old(self).managers@, product@, i) && *m == old(self).managers@[i]
                        && final(self).managers@ == old(self).managers@.update(i, *final(m)),
                None => unknown(old(self).managers@, product@) && *final(self) == *old(self),
            },
    {
        match self.position(product) {
            Some(i) => {
                assert(first_of(self.managers@, product@, i as int));
                Some(&mut self.managers[i])
            },
            None => None,
        }
    }

    /// A product's hedge quantity, 0 where it is not hedged.
    pub fn hedge_qty_for_product(&self, product: &str) -> (r: i32)
        ensures
            forall|i: int| #[trigger] first_of(self.managers@, product@, i) ==> r == self.managers@[i].state.hedge_qty,
            unknown(self.managers@, product@) ==> r == 0,
    {
        match self.position(product) {
            Some(i) => {
                proof {
                    assert forall|k: int| #[trigger] first_of(self.managers@, product@, k) implies k == i by {
                        if k < i {
                            assert(self.managers@[k].cfg.product@ != product@);
                        } else if i < k {
                            assert(self.managers@[i as int].cfg.product@ != product@);
                        }
                    }
                }
                self.managers[i].hedge_qty()
            },
            None => {
                proof {
                    assert forall|k: int| #[trigger] first_of(self.managers@, product@, k) implies false by {
                        assert(self.managers@[k].cfg.product@ != product@);
                    }
                }
                0
            },
        }
    }

    /// The hedges' profits at the products' prices, added up. A product
    /// without a price counts nothing.
    pub fn mtm_usd_total(&self, forwards: &Vec<ProductValue>) -> (r: i128)
        ensures
            r == total_mtm(self.managers@, forwards@),
    {
        let mut total: i128 = 0;
        let mut i: usize = 0;
        assert(self.managers@.take(0) =~= Seq::<HedgeManager>::empty());
        while i < self.managers.len()
            invariant
                i <= self.managers.len(),
                total == total_mtm(self.managers@.take(i as int), forwards@),
            decreases self.managers.len() - i,
        {
            let m = &self.managers[i];
            let f: i64 = value_for(forwards, m.cfg.product.as_str());
            let v: i128 = m.mtm_usd(f);
            proof {
                assert(self.managers@.take(i + 1).drop_last() =~= self.managers@.take(i as int));
                assert(self.managers@.take(i + 1).last() == self.managers@[i as int]);
            }
            total = cut_sum(total, v);
            i = i + 1;
        }
        assert(self.managers@.take(i as int) =~= self.managers@);
        total
    }

    /// On a delta kill: one action per manager, in order, each offsetting
    /// its product's delta.
    pub fn force_flat_all(
        &mut self,
        deltas: &Vec<ProductValue>,
        forwards: &Vec<ProductValue>,
        now_ns: u64,
    ) -> (r: Vec<(String, HedgeAction)>)
        requires
            old(self).wf(),
            forall|i: int|
                0 <= i < old(self).managers@.len() ==> (#[trigger] old(self).managers@[i]).can_rebalance(
                    value_of(deltas@, old(self).managers@[i].cfg.product@),
                ),
        ensures
            final(self).wf(),
            final(self).managers@.len() == old(self).managers@.len(),
            r@.len() == old(self).managers@.len(),
            forall|i: int|
                0 <= i < r@.len() ==> (#[trigger] r@[i]).0@ == old(self).managers@[i].cfg.product@ && HedgeManager::rebalanced(
                    old(self).managers@[i],
                    value_of(deltas@, old(self).managers@[i].cfg.product@),
                    "delta_kill_force_flat"@,
                    value_of(forwards@, old(self).managers@[i].cfg.product@),
                    now_ns,
                    final(self).managers@[i],
                    r@[i].1,
                ),
    {
        let mut out: Vec<(String, HedgeAction)> = Vec::new();
        let ghost before = self.managers@;
        let mut i: usize = 0;
        let n: usize = self.managers.len();
        while i < n
            invariant
                i <= n,
                n == before.len(),
                self.managers@.len() == n,
                self.wf(),
                out@.len() == i,
                forall|k: int|
                    0 <= k < n ==> (#[trigger] before[k]).can_rebalance(value_of(deltas@, before[k].cfg.product@)),
                forall|k: int| i <= k < n ==> #[trigger] self.managers@[k] == before[k],
                forall|k: int|
                    0 <= k < i ==> (#[trigger] out@[k]).0@ == before[k].cfg.product@ && HedgeManager::rebalanced(
                        before[k],
                        value_of(deltas@, before[k].cfg.product@),
                        "delta_kill_force_flat"@,
                        value_of(forwards@, before[k].cfg.product@),
                        now_ns,
                        self.managers@[k],
                        out@[k].1,
                    ),
            decreases n - i,
        {
            let ghost mid = self.managers@;
            let product = self.managers[i].cfg.product.clone();
            let delta: i64 = value_for(deltas, product.as_str());
            let forward: i64 = value_for(forwards, product.as_str());
            assert(self.managers@[i as int] == before[i as int]);
            let m: &mut HedgeManager = &mut self.managers[i];
            let action = m.force_flat(delta, forward, now_ns);
            proof {
                assert(self.managers@ =~= mid.update(i as int, self.managers@[i as int]));
                assert forall|k: int| 0 <= k < self.managers@.len() implies (#[trigger] self.managers@[k]).wf() by {
                    if k != i {
                        assert(self.managers@[k] == mid[k]);
                        assert(mid[k].wf());
                    }
                }
            }
            out.push((product, action));
            i = i + 1;
        }
        out
    }

    /// On a halt: one action per manager, in order, each closing its hedge.
    pub fn flatten_on_halt_all(&mut self, forwards: &Vec<ProductValue>, now_ns: u64) -> (r: Vec<(String, HedgeAction)>)
        requires
            old(self).wf(),
            forall|i: int| 0 <= i < old(self).managers@.len() ==> (#[trigger] old(self).managers@[i]).can_flatten(),
        ensures
            final(self).wf(),
            final(self).managers@.len() == old(self).managers@.len(),
            r@.len() == old(self).managers@.len(),
            forall|i: int|
                0 <= i < r@.len() ==> (#[trigger] r@[i]).0@ == old(self).managers@[i].cfg.product@ && HedgeManager::flattened(
                    old(self).managers@[i],
                    value_of(forwards@, old(self).managers@[i].cfg.product@),
                    now_ns,
                    final(self).managers@[i],
                    r@[i].1,
                ),
    {
        let mut out: Vec<(String, HedgeAction)> = Vec::new();
        let ghost before = self.managers@;
        let mut i: usize = 0;
        let n: usize = self.managers.len();
        while i < n
            invariant
                i <= n,
                n == before.len(),
                self.managers@.len() == n,
                self.wf(),
                out@.len() == i,
                forall|k: int| 0 <= k < n ==> (#[trigger] before[k]).can_flatten(),
                forall|k: int| i <= k < n ==> #[trigger] self.managers@[k] == before[k],
                forall|k: int|
                    0 <= k < i ==> (#[trigger] out@[k]).0@ == before[k].cfg.product@ && HedgeManager::flattened(
                        before[k],
                        value_of(forwards@, before[k].cfg.product@),
                        now_ns,
                        self.managers@[k],
                        out@[k].1,
                    ),
            decreases n - i,
        {
            let ghost mid = self.managers@;
            let product = self.managers[i].cfg.product.clone();
            let forward: i64 = value_for(forwards, product.as_str());
            assert(self.managers@[i as int] == before[i as int]);
            let m: &mut HedgeManager = &mut self.managers[i];
            let action = m.flatten_on_halt(forward, now_ns);
            proof {
                assert(self.managers@ =~= mid.update(i as int, self.managers@[i as int]));
                assert forall|k: int| 0 <= k < self.managers@.len() implies (#[trigger] self.managers@[k]).wf() by {
                    if k != i {
                        assert(self.managers@[k] == mid[k]);
                        assert(mid[k].wf());
                    }
                }
            }
            out.push((product, action));
            i = i + 1;
        }
        out
    }
}

/// A product's value is the first that is listed for it; a product that is
/// not listed has none.
pub proof fn law_values_go_by_product(values: Seq<ProductValue>, product: Seq<char>)
    ensures
        (forall|i: int| 0 <= i < values.len() ==> (#[trigger] values[i]).product@ != product) ==> value_of(values, product)
            == 0,
        forall|i: int|
            0 <= i < values.len() && (#[trigger] values[i]).product@ == product && (forall|j: int|
                0 <= j < i ==> (#[trigger] values[j]).product@ != product) ==> value_of(values, product) == values[i].value,
    decreases values.len(),
{
    if values.len() > 0 {
        let rest = values.skip(1);
        assert(forall|i: int| 0 <= i < rest.len() ==> #[trigger] rest[i] == values[i + 1]);
        law_values_go_by_product(rest, product);
        assert forall|i: int|
            0 <= i < values.len() && (#[trigger] values[i]).product@ == product && (forall|j: int|
                0 <= j < i ==> (#[trigger] values[j]).product@ != product) implies value_of(values, product)
            == values[i].value by {
            if i > 0 {
                assert(values[0].product@ != product);
                assert(rest[i - 1].product@ == product);
                assert forall|j: int| 0 <= j < i - 1 implies (#[trigger] rest[j]).product@ != product by {
                    assert(values[j + 1].product@ != product);
                }
            }
        }
    }
}

/// The hedges' open profit is the sum of each one's, at its own product's
/// price and by its own multiplier.
pub proof fn law_open_profits_add_up(managers: Seq<HedgeManager>, forwards: Seq<ProductValue>, m: HedgeManager)
    ensures
        total_mtm(Seq::empty(), forwards) == 0,
        fits(
            total_mtm(managers, forwards) + m.state.mtm(
                value_of(forwards, m.cfg.product@) as int,
                m.cfg.multiplier as int,
            ),
        ) ==> total_mtm(managers.push(m), forwards) == total_mtm(managers, forwards) + m.state.mtm(
            value_of(forwards, m.cfg.product@) as int,
            m.cfg.multiplier as int,
        ),
{
    assert(managers.push(m).drop_last() =~= managers);
}

} // verus!
