//! Option positions, and bringing them in line with the broker's.

use crate::api::{Contract, ContractKind, Position, Right};
use crate::dates::Date;
use crate::double::Double;
use crate::market_data::state::{quantized, strike_key};
use crate::rounding::{law_rounding_is_nearest, round_to, rounded};
use crate::text::str_eq;
use vstd::prelude::*;
use vstd::string::*;

verus! {

/// A position in an option.
#[derive(Debug)]
pub struct OptionPosition {
    pub product: String,
    /// In billionths.
    pub strike: i64,
    pub expiry: Date,
    pub right: Right,
    pub quantity: i32,
    /// Price paid per unit, in billionths.
    pub avg_fill_price: i64,
    pub multiplier: Double,
}

/// What tells options apart: product, strike in ten-thousandths, expiry,
/// right.
pub type LegId = (Seq<char>, int, Date, Right);

/// Which option a position is in.
pub open spec fn leg_of(p: OptionPosition) -> LegId {
    (p.product@, quantized(p.strike as int), p.expiry, p.right)
}

fn same_leg(a: &OptionPosition, b: &OptionPosition) -> (r: bool)
    ensures
        r == (leg_of(*a) == leg_of(*b)),
{
    strike_key(a.strike) == strike_key(b.strike) && a.right == b.right && a.expiry == b.expiry
        && str_eq(a.product.as_str(), b.product.as_str())
}

/// What is held of an option: the last position in it.
pub open spec fn held_in(positions: Seq<OptionPosition>, leg: LegId) -> Option<i32>
    decreases positions.len(),
{
    if positions.len() == 0 {
        None
    } else if leg_of(positions.last()) == leg {
        Some(positions.last().quantity)
    } else {
        held_in(positions.drop_last(), leg)
    }
}

/// The options that there are positions in.
pub open spec fn legs(positions: Seq<OptionPosition>) -> Set<LegId>
    decreases positions.len(),
{
    if positions.len() == 0 {
        Set::<LegId>::empty()
    } else {
        legs(positions.drop_last()).insert(leg_of(positions.last()))
    }
}

proof fn lemma_legs(positions: Seq<OptionPosition>)
    ensures
        legs(positions).finite(),
        legs(positions).len() <= positions.len(),
        forall|l: LegId| #[trigger] legs(positions).contains(l) <==> held_in(positions, l) is Some,
        forall|l: LegId| #[trigger]
            legs(positions).contains(l) <==> exists|i: int| 0 <= i < positions.len() && leg_of(#[trigger] positions[i]) == l,
    decreases positions.len(),
{
    if positions.len() > 0 {
        let d = positions.drop_last();
        lemma_legs(d);
        assert forall|l: LegId| #[trigger] legs(positions).contains(l) <==> exists|i: int|
            0 <= i < positions.len() && leg_of(#[trigger] positions[i]) == l by {
            if legs(d).contains(l) {
                let i = choose|i: int| 0 <= i < d.len() && leg_of(#[trigger] d[i]) == l;
                assert(leg_of(positions[i]) == l);
            }
            if leg_of(positions.last()) == l {
                assert(leg_of(positions[positions.len() - 1]) == l);
            }
            if exists|i: int| 0 <= i < positions.len() && leg_of(#[trigger] positions[i]) == l {
                let i = choose|i: int| 0 <= i < positions.len() && leg_of(#[trigger] positions[i]) == l;
                if i < d.len() {
                    assert(leg_of(d[i]) == l);
                }
            }
        }
    }
}

fn find_held(positions: &Vec<OptionPosition>, like: &OptionPosition) -> (r: Option<i32>)
    ensures
        r == held_in(positions@, leg_of(*like)),
{
    let mut i: usize = positions.len();
    assert(positions@.take(i as int) =~= positions@);
    while i > 0
        invariant
            i <= positions@.len(),
            held_in(positions@, leg_of(*like)) == held_in(positions@.take(i as int), leg_of(*like)),
        decreases i,
    {
        assert(positions@.take(i as int).last() == positions@[i - 1]);
        assert(positions@.take(i as int).drop_last() =~= positions@.take(i - 1));
        if same_leg(&positions[i - 1], like) {
            return Some(positions[i - 1].quantity);
        }
        i = i - 1;
    }
    None
}

/// Whether the option of a position came before in the list.
pub open spec fn repeated(positions: Seq<OptionPosition>, i: int) -> bool {
    legs(positions.take(i)).contains(leg_of(positions[i]))
}

fn is_repeated(positions: &Vec<OptionPosition>, i: usize) -> (r: bool)
    requires
        i < positions@.len(),
    ensures
        r == repeated(positions@, i as int),
{
    proof {
        lemma_legs(positions@.take(i as int));
    }
    let mut j: usize = 0;
    while j < i
        invariant
            j <= i < positions@.len(),
            forall|k: int| 0 <= k < j ==> leg_of(#[trigger] positions@[k]) != leg_of(positions@[i as int]),
        decreases i - j,
    {
        if same_leg(&positions[j], &positions[i]) {
            proof {
                lemma_legs(positions@.take(i as int));
                assert(leg_of(positions@.take(i as int)[j as int]) == leg_of(positions@[i as int]));
            }
            return true;
        }
        j = j + 1;
    }
    proof {
        if repeated(positions@, i as int) {
            let k = choose|k: int|
                0 <= k < positions@.take(i as int).len() && leg_of(#[trigger] positions@.take(i as int)[k]) == leg_of(
                    positions@[i as int],
                );
            assert(leg_of(positions@[k]) != leg_of(positions@[i as int]));
        }
    }
    false
}

/// How many options there are positions in.
fn count_legs(positions: &Vec<OptionPosition>) -> (r: usize)
    ensures
        r == legs(positions@).len(),
{
    let mut n: usize = 0;
    let mut i: usize = 0;
    while i < positions.len()
        invariant
            n <= i <= positions@.len(),
            n == legs(positions@.take(i as int)).len(),
        decreases positions@.len() - i,
    {
        proof {
            lemma_legs(positions@.take(i as int));
            assert(positions@.take(i + 1).last() == positions@[i as int]);
            assert(positions@.take(i + 1).drop_last() =~= positions@.take(i as int));
            if repeated(positions@, i as int) {
                assert(legs(positions@.take(i + 1)) =~= legs(positions@.take(i as int)));
            }
        }
        if !is_repeated(positions, i) {
            n = n + 1;
        }
        i = i + 1;
    }
    assert(positions@.take(i as int) =~= positions@);
    n
}

/// A quantity, 0 where nothing is held.
pub open spec fn or_zero(q: Option<i32>) -> i32 {
    match q {
        Some(q) => q,
        None => 0,
    }
}

/// How many of the options among the first `n` positions of `after` are held
/// in another quantity than in `before`.
pub open spec fn changed_count(before: Seq<OptionPosition>, after: Seq<OptionPosition>, n: int) -> int
    decreases n,
{
    if n <= 0 {
        0
    } else {
        let leg = leg_of(after[n - 1]);
        changed_count(before, after, n - 1) + (if !repeated(after, n - 1) && held_in(after, leg) != Some(
            or_zero(held_in(before, leg)),
        ) {
            1int
        } else {
            0
        })
    }
}

/// How many of the options among the first `n` positions of `before` are not
/// in `after`.
pub open spec fn closed_count(before: Seq<OptionPosition>, after: Seq<OptionPosition>, n: int) -> int
    decreases n,
{
    if n <= 0 {
        0
    } else {
        closed_count(before, after, n - 1) + (if !repeated(before, n - 1) && held_in(after, leg_of(before[n - 1])) is None {
            1int
        } else {
            0
        })
    }
}

/// Whether two lists hold the same of every option.
pub open spec fn agree(before: Seq<OptionPosition>, after: Seq<OptionPosition>) -> bool {
    forall|l: LegId| #[trigger] held_in(before, l) == held_in(after, l)
}

/// The option positions.
#[derive(Debug)]
pub struct Portfolio {
    pub positions: Vec<OptionPosition>,
}

impl Portfolio {
    /// No position.
    pub fn new() -> (r: Portfolio)
        ensures
            r.positions@ == Seq::<OptionPosition>::empty(),
    {
        Portfolio { positions: Vec::new() }
    }

    /// Puts other positions in place of these.
    pub fn replace_positions(&mut self, positions: Vec<OptionPosition>)
        ensures
            final(self).positions == positions,
    {
        self.positions = positions;
    }

    /// Whether every option is held as in another list.
    fn matches_all(&self, after: &Vec<OptionPosition>) -> (r: bool)
        ensures
            r == agree(self.positions@, after@),
    {
        let ghost before = self.positions@;
        proof {
            lemma_legs(before);
            lemma_legs(after@);
        }
        if count_legs(&self.positions) != count_legs(after) {
            proof {
                if agree(before, after@) {
                    assert(legs(before) =~= legs(after@)) by {
                        assert forall|l: LegId| legs(before).contains(l) <==> legs(after@).contains(l) by {
                            assert(held_in(before, l) == held_in(after@, l));
                        }
                    }
                }
            }
            return false;
        }
        let mut i: usize = 0;
        while i < self.positions.len()
            invariant
                i <= before.len(),
                before == self.positions@,
                forall|k: int|
                    0 <= k < i ==> held_in(before, leg_of(#[trigger] before[k])) == held_in(after@, leg_of(before[k])),
            decreases before.len() - i,
        {
            let mine = find_held(&self.positions, &self.positions[i]);
            let theirs = find_held(after, &self.positions[i]);
            let same = match (mine, theirs) {
                (Some(a), Some(b)) => a == b,
                (None, None) => true,
                _ => false,
            };
            if !same {
                assert(held_in(before, leg_of(before[i as int])) != held_in(after@, leg_of(before[i as int])));
                return false;
            }
            i = i + 1;
        }
        proof {
            assert forall|l: LegId| legs(before).contains(l) implies legs(after@).contains(l) by {
                let k = choose|k: int| 0 <= k < before.len() && leg_of(#[trigger] before[k]) == l;
                assert(held_in(before, leg_of(before[k])) == held_in(after@, leg_of(before[k])));
            }
            vstd::set_lib::lemma_subset_equality(legs(before), legs(after@));
            assert forall|l: LegId| #[trigger] held_in(before, l) == held_in(after@, l) by {
                assert(legs(before).contains(l) == legs(after@).contains(l));
                if legs(before).contains(l) {
                    let k = choose|k: int| 0 <= k < before.len() && leg_of(#[trigger] before[k]) == l;
                    assert(held_in(before, leg_of(before[k])) == held_in(after@, leg_of(before[k])));
                }
            }
        }
        true
    }

    /// Brings the positions in line with the broker's: where the two agree on
    /// every option nothing happens, else the broker's take their place.
    /// Returns how many options were corrected. This recovers from
    /// executions that were missed.
    pub fn reconcile(&mut self, broker: Vec<OptionPosition>) -> (changes: usize)
        requires
            old(self).positions@.len() + broker@.len() <= usize::MAX,
        ensures
            agree(final(self).positions@, broker@),
            if agree(old(self).positions@, broker@) {
                final(self).positions == old(self).positions && changes == 0
            } else {
                &&& final(self).positions == broker
                &&& changes == changed_count(old(self).positions@, broker@, broker@.len() as int) + closed_count(
                    old(self).positions@,
                    broker@,
                    old(self).positions@.len() as int,
                )
            },
    {
        if self.matches_all(&broker) {
            return 0;
        }
        let ghost before = self.positions@;
        let mut changes: usize = 0;
        let mut i: usize = 0;
        while i < broker.len()
            invariant
                changes <= i <= broker@.len(),
                before == self.positions@,
                changes == changed_count(before, broker@, i as int),
            decreases broker@.len() - i,
        {
            let now = find_held(&broker, &broker[i]);
            let was: i32 = match find_held(&self.positions, &broker[i]) {
                Some(q) => q,
                None => 0,
            };
            proof {
                lemma_legs(broker@);
                assert(leg_of(broker@[i as int]) == leg_of(broker@[i as int]));
                assert(legs(broker@).contains(leg_of(broker@[i as int])));
            }
            let differs = match now {
                Some(q) => q != was,
                None => true,
            };
            if !is_repeated(&broker, i) && differs {
                changes = changes + 1;
            }
            i = i + 1;
        }
        let ghost corrected = changes;
        let mut i: usize = 0;
        while i < self.positions.len()
            invariant
                i <= before.len(),
                before == self.positions@,
                before.len() + broker@.len() <= usize::MAX,
                corrected <= broker@.len(),
                changes <= corrected + i,
                changes == corrected + closed_count(before, broker@, i as int),
            decreases before.len() - i,
        {
            let gone = find_held(&broker, &self.positions[i]).is_none();
            if !is_repeated(&self.positions, i) && gone {
                changes = changes + 1;
            }
            i = i + 1;
        }
        self.positions = broker;
        changes
    }
}

/// Whatever executions were missed, after reconciling the positions are the
/// broker's, and reconciling again changes nothing.
pub proof fn law_reconcile_settles(before: Seq<OptionPosition>, after: Seq<OptionPosition>, broker: Seq<OptionPosition>)
    requires
        agree(after, broker),
    ensures
        forall|l: LegId| #[trigger] held_in(after, l) == held_in(broker, l),
        agree(before, broker) ==> agree(before, after),
{
    assert forall|l: LegId| agree(before, broker) implies #[trigger] held_in(before, l) == held_in(after, l) by {
        assert(held_in(after, l) == held_in(broker, l));
    }
}

// The broker's positions

/// A price cut to what fits.
pub open spec fn cut_price(x: int) -> i64 {
    if x > i64::MAX {
        i64::MAX
    } else if x < i64::MIN {
        i64::MIN
    } else {
        x as i64
    }
}

/// A cost per contract as a price per unit, in billionths; a cost that is no
/// number counts as none. The multiplier is positive; one below half a
/// billionth leaves the largest price of the cost's sign.
pub open spec fn unit_price(cost: Double, multiplier: Double) -> i64 {
    let c = cost.wide();
    let m = multiplier.wide();
    if m > 0 {
        cut_price(rounded(c * 1_000_000_000, m))
    } else if c > 0 {
        i64::MAX
    } else if c < 0 {
        i64::MIN
    } else {
        0
    }
}

/// A cost per contract as a price per unit.
pub fn price_per_unit(cost: Double, multiplier: Double) -> (r: i64)
    ensures
        r == unit_price(cost, multiplier),
{
    let c: i128 = cost.to_wide();
    let m: i128 = multiplier.to_wide();
    if m <= 0 {
        return if c > 0 {
            i64::MAX
        } else if c < 0 {
            i64::MIN
        } else {
            0
        };
    }
    let q: i128 = round_to(c * 1_000_000_000, m);
    if q > 0x7fff_ffff_ffff_ffff {
        i64::MAX
    } else if q < -0x8000_0000_0000_0000 {
        i64::MIN
    } else {
        q as i64
    }
}

/// Whether a list holds a text.
pub open spec fn listed(products: Seq<String>, name: Seq<char>) -> bool {
    exists|i: int| 0 <= i < products.len() && (#[trigger] products[i])@ == name
}

fn is_listed(products: &Vec<String>, name: &str) -> (r: bool)
    ensures
        r == listed(products@, name@),
{
    let mut i: usize = 0;
    while i < products.len()
        invariant
            i <= products@.len(),
            forall|j: int| 0 <= j < i ==> (#[trigger] products@[j])@ != name@,
        decreases products@.len() - i,
    {
        if str_eq(products[i].as_str(), name) {
            return true;
        }
        i = i + 1;
    }
    false
}

/// A contract's strike in billionths.
pub open spec fn strike_of(c: Contract) -> Option<i64> {
    match c.strike {
        Some(s) => Some(s.value.billionths()),
        None => None,
    }
}

/// Whether a broker's position is in an option of one of the products, with
/// all that it takes to follow it.
pub open spec fn is_option_position(p: Position, products: Seq<String>) -> bool {
    &&& listed(products, p.contract.symbol@)
    &&& p.contract.kind == ContractKind::Option
    &&& p.contract.right is Some
    &&& strike_of(p.contract) is Some
    &&& p.contract.multiplier.above_zero()
}

/// Whether `o` is a broker's option position.
pub open spec fn follows(o: OptionPosition, p: Position) -> bool {
    &&& o.product@ == p.contract.symbol@
    &&& Some(o.strike) == strike_of(p.contract)
    &&& o.expiry == p.contract.expiry
    &&& Some(o.right) == p.contract.right
    &&& o.quantity == p.quantity
    &&& o.avg_fill_price == unit_price(p.avg_cost, p.contract.multiplier)
    &&& o.multiplier == p.contract.multiplier
}

/// Whether these are the option positions among the broker's, in order.
pub open spec fn option_positions(out: Seq<OptionPosition>, positions: Seq<Position>, products: Seq<String>) -> bool
    decreases positions.len(),
{
    if positions.len() == 0 {
        out.len() == 0
    } else if is_option_position(positions.last(), products) {
        out.len() > 0 && follows(out.last(), positions.last()) && option_positions(
            out.drop_last(),
            positions.drop_last(),
            products,
        )
    } else {
        option_positions(out, positions.drop_last(), products)
    }
}

/// The option positions among the broker's.
pub fn options_held(positions: &Vec<Position>, products: &Vec<String>) -> (r: Vec<OptionPosition>)
    ensures
        option_positions(r@, positions@, products@),
{
    let mut out: Vec<OptionPosition> = Vec::new();
    let mut i: usize = 0;
    while i < positions.len()
        invariant
            i <= positions@.len(),
            option_positions(out@, positions@.take(i as int), products@),
        decreases positions@.len() - i,
    {
        let ghost before = out@;
        assert(positions@.take(i + 1).last() == positions@[i as int]);
        assert(positions@.take(i + 1).drop_last() =~= positions@.take(i as int));
        let p = &positions[i];
        let is_option = match p.contract.kind {
            ContractKind::Option => true,
            ContractKind::Future => false,
        };
        let strike: Option<i64> = match &p.contract.strike {
            Some(s) => Some(s.value.to_billionths()),
            None => None,
        };
        if is_option && is_listed(products, p.contract.symbol.as_str()) && p.contract.multiplier.is_positive() {
            match (p.contract.right, strike) {
                (Some(right), Some(strike)) => {
                    out.push(
                        OptionPosition {
                            product: p.contract.symbol.clone(),
                            strike,
                            expiry: p.contract.expiry,
                            right,
                            quantity: p.quantity,
                            avg_fill_price: price_per_unit(p.avg_cost, p.contract.multiplier),
                            multiplier: p.contract.multiplier,
                        },
                    );
                    assert(out@.drop_last() =~= before);
                },
                _ => {},
            }
        }
        i = i + 1;
    }
    assert(positions@.take(i as int) =~= positions@);
    out
}

/// A future held at the broker.
#[derive(Debug)]
pub struct HedgeSeed {
    pub product: String,
    pub quantity: i32,
    /// Entry price in billionths.
    pub avg_entry_f: i64,
}

/// 25000.0
pub const DEFAULT_MULTIPLIER_BITS: u64 = 0x40d8_6a00_0000_0000;

/// A contract's multiplier, copper's where it has none.
pub open spec fn future_multiplier(c: Contract) -> Double {
    if c.multiplier.above_zero() {
        c.multiplier
    } else {
        Double { bits: DEFAULT_MULTIPLIER_BITS }
    }
}

/// The entry price of a future.
pub open spec fn entry_price(p: Position) -> i64 {
    unit_price(p.avg_cost, future_multiplier(p.contract))
}

/// The entry price of a future, in billionths.
pub fn entry_price_of(p: &Position) -> (r: i64)
    ensures
        r == entry_price(*p),
{
    if p.contract.multiplier.is_positive() {
        price_per_unit(p.avg_cost, p.contract.multiplier)
    } else {
        price_per_unit(p.avg_cost, Double { bits: DEFAULT_MULTIPLIER_BITS })
    }
}

/// Whether a broker's position is an open one in a product's future.
pub open spec fn is_future_position(p: Position, products: Seq<String>) -> bool {
    listed(products, p.contract.symbol@) && p.contract.kind == ContractKind::Future && p.quantity != 0
}

/// Whether these are the open futures among the broker's positions, in order.
pub open spec fn hedge_seeds(out: Seq<HedgeSeed>, positions: Seq<Position>, products: Seq<String>) -> bool
    decreases positions.len(),
{
    if positions.len() == 0 {
        out.len() == 0
    } else if is_future_position(positions.last(), products) {
        &&& out.len() > 0
        &&& out.last().product@ == positions.last().contract.symbol@
        &&& out.last().quantity == positions.last().quantity
        &&& out.last().avg_entry_f == entry_price(positions.last())
        &&& hedge_seeds(out.drop_last(), positions.drop_last(), products)
    } else {
        hedge_seeds(out, positions.drop_last(), products)
    }
}

/// The open futures among the broker's positions.
pub fn futures_held(positions: &Vec<Position>, products: &Vec<String>) -> (r: Vec<HedgeSeed>)
    ensures
        hedge_seeds(r@, positions@, products@),
{
    let mut out: Vec<HedgeSeed> = Vec::new();
    let mut i: usize = 0;
    while i < positions.len()
        invariant
            i <= positions@.len(),
            hedge_seeds(out@, positions@.take(i as int), products@),
        decreases positions@.len() - i,
    {
        let ghost before = out@;
        assert(positions@.take(i + 1).last() == positions@[i as int]);
        assert(positions@.take(i + 1).drop_last() =~= positions@.take(i as int));
        let p = &positions[i];
        let is_future = match p.contract.kind {
            ContractKind::Option => false,
            ContractKind::Future => true,
        };
        if is_future && p.quantity != 0 && is_listed(products, p.contract.symbol.as_str()) {
            out.push(
                HedgeSeed { product: p.contract.symbol.clone(), quantity: p.quantity, avg_entry_f: entry_price_of(p) },
            );
            assert(out@.drop_last() =~= before);
        }
        i = i + 1;
    }
    assert(positions@.take(i as int) =~= positions@);
    out
}

impl Portfolio {
    /// Brings the positions in line with the broker's list: its option
    /// positions in the products are what counts. Returns how many options
    /// were corrected.
    pub fn reconcile_options_with_broker_positions(&mut self, positions: &Vec<Position>, products: &Vec<String>) -> (changes:
        usize)
        requires
            old(self).positions@.len() + positions@.len() <= usize::MAX,
        ensures
            exists|held: Seq<OptionPosition>| #[trigger]
                option_positions(held, positions@, products@) && agree(final(self).positions@, held) && if agree(
                    old(self).positions@,
                    held,
                ) {
                    final(self).positions == old(self).positions && changes == 0
                } else {
                    &&& final(self).positions@ == held
                    &&& changes == changed_count(old(self).positions@, held, held.len() as int) + closed_count(
                        old(self).positions@,
                        held,
                        old(self).positions@.len() as int,
                    )
                },
    {
        let held = options_held(positions, products);
        proof {
            lemma_option_positions_len(held@, positions@, products@);
        }
        self.reconcile(held)
    }
}

proof fn lemma_option_positions_len(out: Seq<OptionPosition>, positions: Seq<Position>, products: Seq<String>)
    requires
        option_positions(out, positions, products),
    ensures
        out.len() <= positions.len(),
    decreases positions.len(),
{
    if positions.len() > 0 {
        if is_option_position(positions.last(), products) {
            lemma_option_positions_len(out.drop_last(), positions.drop_last(), products);
        } else {
            lemma_option_positions_len(out, positions.drop_last(), products);
        }
    }
}

/// Whether a broker's position counts: it is in an option of one of the
/// products, and its right, strike and multiplier are known. How much is held,
/// and on which side, does not matter.
pub open spec fn counts(p: Position, products: Seq<String>) -> bool {
    &&& exists|i: int| 0 <= i < products.len() && (#[trigger] products[i])@ == p.contract.symbol@
    &&& p.contract.kind == ContractKind::Option
    &&& p.contract.right is Some
    &&& p.contract.strike is Some
    &&& p.contract.multiplier.above_zero()
}

/// Whether a broker's position and one of ours are in the same option: product,
/// expiry and right are the same, and the strikes round to the same
/// ten-thousandth.
pub open spec fn same_option(p: Position, o: OptionPosition) -> bool {
    &&& p.contract.symbol@ == o.product@
    &&& p.contract.expiry == o.expiry
    &&& p.contract.right == Some(o.right)
    &&& p.contract.strike is Some
    &&& quantized(p.contract.strike->0.value.billionths() as int) == quantized(o.strike as int)
}

/// Whether two of our positions are in the same option.
pub open spec fn one_option(a: OptionPosition, b: OptionPosition) -> bool {
    a.product@ == b.product@ && a.expiry == b.expiry && a.right == b.right && quantized(a.strike as int) == quantized(
        b.strike as int,
    )
}

proof fn lemma_held_in(positions: Seq<OptionPosition>, like: OptionPosition)
    ensures
        match held_in(positions, leg_of(like)) {
            Some(q) => exists|i: int|
                0 <= i < positions.len() && one_option(#[trigger] positions[i], like) && positions[i].quantity == q
                    && forall|j: int| i < j < positions.len() ==> !one_option(#[trigger] positions[j], like),
            None => forall|j: int| 0 <= j < positions.len() ==> !one_option(#[trigger] positions[j], like),
        },
    decreases positions.len(),
{
    if positions.len() > 0 {
        let d = positions.drop_last();
        let n = positions.len() - 1;
        lemma_held_in(d, like);
        assert(positions[n] == positions.last());
        assert(one_option(positions[n], like) <==> leg_of(positions[n]) == leg_of(like));
        if leg_of(positions.last()) != leg_of(like) {
            match held_in(d, leg_of(like)) {
                Some(q) => {
                    let i = choose|i: int|
                        0 <= i < d.len() && one_option(#[trigger] d[i], like) && d[i].quantity == q && forall|j: int|
                            i < j < d.len() ==> !one_option(#[trigger] d[j], like);
                    assert(one_option(positions[i], like) && positions[i].quantity == q);
                    assert forall|j: int| i < j < positions.len() implies !one_option(#[trigger] positions[j], like) by {
                        if j < n {
                            assert(d[j] == positions[j]);
                        }
                    }
                },
                None => {
                    assert forall|j: int| 0 <= j < positions.len() implies !one_option(#[trigger] positions[j], like) by {
                        if j < n {
                            assert(d[j] == positions[j]);
                        }
                    }
                },
            }
        }
    }
}

/// Whether a later broker's position that counts is in the option of `o`.
spec fn followed(positions: Seq<Position>, products: Seq<String>, k: int, o: OptionPosition) -> bool {
    exists|m: int| k < m < positions.len() && counts(#[trigger] positions[m], products) && same_option(positions[m], o)
}

/// Whether `held[i]` is the broker's `k`-th position, and those behind it are
/// later ones.
spec fn taken_at(held: Seq<OptionPosition>, positions: Seq<Position>, products: Seq<String>, k: int, i: int) -> bool {
    &&& 0 <= i < held.len()
    &&& same_option(positions[k], held[i])
    &&& held[i].quantity == positions[k].quantity
    &&& forall|j: int| i < j < held.len() ==> followed(positions, products, k, #[trigger] held[j])
}

proof fn lemma_taken_over(held: Seq<OptionPosition>, positions: Seq<Position>, products: Seq<String>, k: int) -> (i: int)
    requires
        option_positions(held, positions, products),
        0 <= k < positions.len(),
        counts(positions[k], products),
    ensures
        taken_at(held, positions, products, k, i),
    decreases positions.len(),
{
    let d = positions.drop_last();
    let n = positions.len() - 1;
    assert(positions[n] == positions.last());
    assert forall|o: OptionPosition| followed(d, products, k, o) implies followed(positions, products, k, o) by {
        let m = choose|m: int| k < m < d.len() && counts(#[trigger] d[m], products) && same_option(d[m], o);
        assert(positions[m] == d[m]);
    }
    if is_option_position(positions.last(), products) {
        let h = held.drop_last();
        let l = held.len() - 1;
        if k < n {
            assert(d[k] == positions[k]);
            let i = lemma_taken_over(h, d, products, k);
            assert(held[i] == h[i]);
            assert forall|j: int| i < j < held.len() implies followed(positions, products, k, #[trigger] held[j]) by {
                if j < l {
                    assert(h[j] == held[j]);
                    assert(followed(d, products, k, h[j]));
                } else {
                    assert(counts(positions[n], products) && same_option(positions[n], held[j]));
                }
            }
            i
        } else {
            assert(held[l] == held.last());
            l
        }
    } else {
        assert(k < n);
        assert(d[k] == positions[k]);
        let i = lemma_taken_over(held, d, products, k);
        assert forall|j: int| i < j < held.len() implies followed(positions, products, k, #[trigger] held[j]) by {
            assert(followed(d, products, k, held[j]));
        }
        i
    }
}

/// After reconciling, the portfolio holds of an option what the broker's last
/// position in it says, long or short: for each broker's position that counts,
/// and that no later one in the same option follows, our last position in that
/// option has its quantity.
pub proof fn law_the_brokers_quantities_are_held(
    positions: Seq<Position>,
    products: Seq<String>,
    held: Seq<OptionPosition>,
    after: Seq<OptionPosition>,
    k: int,
)
    requires
        option_positions(held, positions, products),
        agree(after, held),
        0 <= k < positions.len(),
        counts(positions[k], products),
        forall|m: int, o: OptionPosition|
            k < m < positions.len() && counts(#[trigger] positions[m], products) && same_option(positions[k], o)
                ==> !(#[trigger] same_option(positions[m], o)),
    ensures
        exists|i: int|
            0 <= i < after.len() && same_option(positions[k], #[trigger] after[i]) && after[i].quantity
                == positions[k].quantity && forall|j: int|
                i < j < after.len() ==> !same_option(positions[k], #[trigger] after[j]),
{
    let i = lemma_taken_over(held, positions, products, k);
    let o = held[i];
    lemma_held_in(held, o);
    lemma_held_in(after, o);
    assert(held_in(after, leg_of(o)) == held_in(held, leg_of(o)));
    assert(one_option(held[i], o));
    let q = held_in(held, leg_of(o))->0;
    let b = choose|b: int|
        0 <= b < held.len() && one_option(#[trigger] held[b], o) && held[b].quantity == q && forall|j: int|
            b < j < held.len() ==> !one_option(#[trigger] held[j], o);
    assert(b >= i);
    if b > i {
        assert(followed(positions, products, k, held[b]));
        let m = choose|m: int|
            k < m < positions.len() && counts(#[trigger] positions[m], products) && same_option(positions[m], held[b]);
        assert(same_option(positions[k], held[b]));
    }
    let a = choose|a: int|
        0 <= a < after.len() && one_option(#[trigger] after[a], o) && after[a].quantity == q && forall|j: int|
            a < j < after.len() ==> !one_option(#[trigger] after[j], o);
    assert(same_option(positions[k], after[a]));
    assert forall|j: int| a < j < after.len() implies !same_option(positions[k], #[trigger] after[j]) by {
        assert(!one_option(after[j], o));
    }
}

proof fn lemma_comes_from(held: Seq<OptionPosition>, positions: Seq<Position>, products: Seq<String>, i: int)
    requires
        option_positions(held, positions, products),
        0 <= i < held.len(),
    ensures
        exists|k: int|
            0 <= k < positions.len() && counts(#[trigger] positions[k], products) && same_option(positions[k], held[i])
                && positions[k].quantity == held[i].quantity,
    decreases positions.len(),
{
    if positions.len() > 0 {
        let d = positions.drop_last();
        let n = positions.len() - 1;
        if is_option_position(positions.last(), products) {
            let h = held.drop_last();
            if i < h.len() {
                lemma_comes_from(h, d, products, i);
                let k = choose|k: int|
                    0 <= k < d.len() && counts(#[trigger] d[k], products) && same_option(d[k], h[i]) && d[k].quantity
                        == h[i].quantity;
                assert(positions[k] == d[k]);
            } else {
                assert(counts(positions[n], products) && same_option(positions[n], held[i]));
            }
        } else {
            lemma_comes_from(held, d, products, i);
            let k = choose|k: int|
                0 <= k < d.len() && counts(#[trigger] d[k], products) && same_option(d[k], held[i]) && d[k].quantity
                    == held[i].quantity;
            assert(positions[k] == d[k]);
        }
    }
}

/// After reconciling, nothing is held that the broker does not list: an option
/// in which the portfolio has a position is one in which a broker's position
/// counts, and our last position in it has the quantity of one of these.
pub proof fn law_nothing_else_is_held(
    positions: Seq<Position>,
    products: Seq<String>,
    held: Seq<OptionPosition>,
    after: Seq<OptionPosition>,
    i: int,
)
    requires
        option_positions(held, positions, products),
        agree(after, held),
        0 <= i < after.len(),
        forall|j: int| i < j < after.len() ==> !one_option(#[trigger] after[j], after[i]),
    ensures
        exists|k: int|
            0 <= k < positions.len() && counts(#[trigger] positions[k], products) && same_option(positions[k], after[i])
                && positions[k].quantity == after[i].quantity,
{
    let o = after[i];
    lemma_held_in(after, o);
    lemma_held_in(held, o);
    assert(held_in(after, leg_of(o)) == held_in(held, leg_of(o)));
    assert(one_option(after[i], o));
    let q = held_in(after, leg_of(o))->0;
    let a = choose|a: int|
        0 <= a < after.len() && one_option(#[trigger] after[a], o) && after[a].quantity == q && forall|j: int|
            a < j < after.len() ==> !one_option(#[trigger] after[j], o);
    assert(a == i);
    let b = choose|b: int|
        0 <= b < held.len() && one_option(#[trigger] held[b], o) && held[b].quantity == q && forall|j: int|
            b < j < held.len() ==> !one_option(#[trigger] held[j], o);
    lemma_comes_from(held, positions, products, b);
    let k = choose|k: int|
        0 <= k < positions.len() && counts(#[trigger] positions[k], products) && same_option(positions[k], held[b])
            && positions[k].quantity == held[b].quantity;
    assert(same_option(positions[k], after[i]));
}

/// The price per unit is the cost divided by the multiplier, to the nearest
/// billionth, with the cost's sign.
pub proof fn law_unit_price_is_cost_over_multiplier(cost: Double, multiplier: Double)
    requires
        multiplier.wide() > 0,
        -0x7fff_ffff_ffff_ffff < unit_price(cost, multiplier) < 0x7fff_ffff_ffff_ffff,
    ensures
        -multiplier.wide() <= 2 * (unit_price(cost, multiplier) * multiplier.wide() - cost.wide() * 1_000_000_000)
            <= multiplier.wide(),
        cost.wide() >= 0 ==> unit_price(cost, multiplier) >= 0,
        cost.wide() <= 0 ==> unit_price(cost, multiplier) <= 0,
{
    let a = cost.wide() * 1_000_000_000;
    let m = multiplier.wide();
    law_rounding_is_nearest(a, m);
    let q = rounded(a, m);
    assert(a >= 0 ==> q >= 0) by (nonlinear_arith)
        requires
            m > 0,
            -m <= 2 * (q * m - a),
    ;
    assert(a <= 0 ==> q <= 0) by (nonlinear_arith)
        requires
            m > 0,
            2 * (q * m - a) <= m,
    ;
}

/// Whether a broker's position is in a future of a product that is traded.
pub open spec fn seeds_hedge(p: Position, products: Seq<String>) -> bool {
    &&& exists|i: int| 0 <= i < products.len() && (#[trigger] products[i])@ == p.contract.symbol@
    &&& p.contract.kind is Future
    &&& p.quantity != 0
}

/// Whether a hedge starts as a position: with its quantity, long or short, and
/// at its cost per unit; without a multiplier of its own it has the usual one.
pub open spec fn starts_as(s: HedgeSeed, p: Position) -> bool {
    &&& s.product@ == p.contract.symbol@
    &&& s.quantity == p.quantity
    &&& p.contract.multiplier.above_zero() ==> s.avg_entry_f == unit_price(p.avg_cost, p.contract.multiplier)
    &&& !p.contract.multiplier.above_zero() ==> s.avg_entry_f == unit_price(
        p.avg_cost,
        Double { bits: 0x40d8_6a00_0000_0000 },
    )
}

/// Every position in a future, long or short, starts its product's hedge.
pub proof fn law_futures_start_hedges(seeds: Seq<HedgeSeed>, positions: Seq<Position>, products: Seq<String>, k: int)
    requires
        hedge_seeds(seeds, positions, products),
        0 <= k < positions.len(),
        seeds_hedge(positions[k], products),
    ensures
        exists|i: int| 0 <= i < seeds.len() && starts_as(#[trigger] seeds[i], positions[k]),
    decreases positions.len(),
{
    let rest = positions.drop_last();
    let n = positions.len() - 1;
    assert(positions.last() == positions[n]);
    if k == n {
        assert(listed(products, positions[k].contract.symbol@));
        assert(starts_as(seeds[seeds.len() - 1], positions[k]));
    } else {
        assert(rest[k] == positions[k]);
        let before = if is_future_position(positions.last(), products) {
            seeds.drop_last()
        } else {
            seeds
        };
        law_futures_start_hedges(before, rest, products, k);
        let i = choose|i: int| 0 <= i < before.len() && starts_as(#[trigger] before[i], rest[k]);
        assert(seeds[i] == before[i]);
    }
}

/// Nothing else does.
pub proof fn law_hedges_start_from_futures(seeds: Seq<HedgeSeed>, positions: Seq<Position>, products: Seq<String>, i: int)
    requires
        hedge_seeds(seeds, positions, products),
        0 <= i < seeds.len(),
    ensures
        exists|k: int|
            0 <= k < positions.len() && seeds_hedge(#[trigger] positions[k], products) && starts_as(seeds[i], positions[k]),
    decreases positions.len(),
{
    if positions.len() > 0 {
        let rest = positions.drop_last();
        let n = positions.len() - 1;
        assert(positions.last() == positions[n]);
        if is_future_position(positions.last(), products) && i == seeds.len() - 1 {
            assert(seeds_hedge(positions[n], products));
        } else {
            let before = if is_future_position(positions.last(), products) {
                seeds.drop_last()
            } else {
                seeds
            };
            law_hedges_start_from_futures(before, rest, products, i);
            assert(before[i] == seeds[i]);
            let k = choose|k: int|
                0 <= k < rest.len() && seeds_hedge(#[trigger] rest[k], products) && starts_as(before[i], rest[k]);
            assert(positions[k] == rest[k]);
        }
    }
}

/// What is held of an option costs what the broker says it cost, per unit.
pub proof fn law_options_keep_their_cost(held: Seq<OptionPosition>, positions: Seq<Position>, products: Seq<String>, i: int)
    requires
        option_positions(held, positions, products),
        0 <= i < held.len(),
    ensures
        exists|k: int|
            0 <= k < positions.len() && counts(#[trigger] positions[k], products) && same_option(positions[k], held[i])
                && held[i].strike == positions[k].contract.strike->0.value.billionths() && held[i].avg_fill_price
                == unit_price(positions[k].avg_cost, positions[k].contract.multiplier) && held[i].multiplier
                == positions[k].contract.multiplier,
    decreases positions.len(),
{
    if positions.len() > 0 {
        let rest = positions.drop_last();
        let n = positions.len() - 1;
        assert(positions.last() == positions[n]);
        if is_option_position(positions.last(), products) && i == held.len() - 1 {
            assert(counts(positions[n], products));
        } else {
            let before = if is_option_position(positions.last(), products) {
                held.drop_last()
            } else {
                held
            };
            law_options_keep_their_cost(before, rest, products, i);
            assert(before[i] == held[i]);
            let k = choose|k: int|
                0 <= k < rest.len() && counts(#[trigger] rest[k], products) && same_option(rest[k], before[i])
                    && before[i].strike == rest[k].contract.strike->0.value.billionths() && before[i].avg_fill_price
                    == unit_price(rest[k].avg_cost, rest[k].contract.multiplier) && before[i].multiplier
                    == rest[k].contract.multiplier;
            assert(positions[k] == rest[k]);
        }
    }
}

/// Whether no two positions are in the same option.
pub open spec fn one_each(positions: Seq<OptionPosition>) -> bool {
    forall|i: int, j: int|
        0 <= i < j < positions.len() ==> !one_option(#[trigger] positions[i], #[trigger] positions[j])
}

proof fn lemma_one_is_held(positions: Seq<OptionPosition>, i: int, like: OptionPosition)
    requires
        one_each(positions),
        0 <= i < positions.len(),
        one_option(positions[i], like),
    ensures
        held_in(positions, leg_of(like)) == Some(positions[i].quantity),
{
    lemma_held_in(positions, like);
    match held_in(positions, leg_of(like)) {
        Some(q) => {
            let j = choose|j: int|
                0 <= j < positions.len() && one_option(#[trigger] positions[j], like) && positions[j].quantity == q
                    && forall|m: int| j < m < positions.len() ==> !one_option(#[trigger] positions[m], like);
            if i < j {
                assert(one_option(positions[i], positions[j]));
            } else if j < i {
                assert(one_option(positions[j], positions[i]));
            }
        },
        None => {},
    }
}

proof fn lemma_not_repeated(positions: Seq<OptionPosition>, i: int)
    requires
        one_each(positions),
        0 <= i < positions.len(),
    ensures
        !repeated(positions, i),
{
    lemma_legs(positions.take(i));
    if repeated(positions, i) {
        let front = positions.take(i);
        let j = choose|j: int| 0 <= j < front.len() && leg_of(#[trigger] front[j]) == leg_of(positions[i]);
        assert(front[j] == positions[j]);
        assert(one_option(positions[j], positions[i]));
    }
}

/// A position counts as changed where another quantity of its option was held
/// before, or none and it is not empty.
pub proof fn law_changed_quantities_count(before: Seq<OptionPosition>, after: Seq<OptionPosition>, n: int)
    requires
        one_each(before),
        one_each(after),
        0 < n <= after.len(),
    ensures
        changed_count(before, after, 0) == 0,
        forall|i: int|
            0 <= i < before.len() && one_option(#[trigger] before[i], after[n - 1]) ==> changed_count(before, after, n)
                - changed_count(before, after, n - 1) == (if before[i].quantity != after[n - 1].quantity {
                1int
            } else {
                0
            }),
        (forall|i: int| 0 <= i < before.len() ==> !one_option(#[trigger] before[i], after[n - 1])) ==> changed_count(
            before,
            after,
            n,
        ) - changed_count(before, after, n - 1) == (if after[n - 1].quantity != 0 {
            1int
        } else {
            0
        }),
{
    let a = after[n - 1];
    lemma_not_repeated(after, n - 1);
    assert(one_option(after[n - 1], a));
    lemma_one_is_held(after, n - 1, a);
    assert forall|i: int| 0 <= i < before.len() && one_option(#[trigger] before[i], a) implies changed_count(before, after, n)
        - changed_count(before, after, n - 1) == (if before[i].quantity != a.quantity {
        1int
    } else {
        0
    }) by {
        lemma_one_is_held(before, i, a);
    }
    if forall|i: int| 0 <= i < before.len() ==> !one_option(#[trigger] before[i], a) {
        lemma_held_in(before, a);
    }
}

/// A position counts as closed where its option is not held any more.
pub proof fn law_closed_positions_count(before: Seq<OptionPosition>, after: Seq<OptionPosition>, n: int)
    requires
        one_each(before),
        0 < n <= before.len(),
    ensures
        closed_count(before, after, 0) == 0,
        (forall|i: int| 0 <= i < after.len() ==> !one_option(#[trigger] after[i], before[n - 1])) ==> closed_count(
            before,
            after,
            n,
        ) == closed_count(before, after, n - 1) + 1,
        forall|i: int|
            0 <= i < after.len() && one_option(#[trigger] after[i], before[n - 1]) ==> closed_count(before, after, n)
                == closed_count(before, after, n - 1),
{
    lemma_not_repeated(before, n - 1);
    lemma_held_in(after, before[n - 1]);
}

} // verus!
