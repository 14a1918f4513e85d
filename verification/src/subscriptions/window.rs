//! Which options to subscribe to: the strikes around the money and the legs
//! of positions.

use crate::api::Right;
use crate::config::ProductConfig;
use crate::dates::Date;
use crate::market_data::state::MarketDataState;
use crate::rounding::{
    law_rounding_keeps_multiples, lemma_rounded_grows, lemma_rounded_up, round_to, rounded, rounded_up,
};
use vstd::prelude::*;

verus! {

/// A value brought to the nearest multiple of an increment; an increment that
/// is not positive leaves it as it is.
pub open spec fn to_increment(value: int, increment: int) -> int {
    if increment <= 0 {
        value
    } else {
        rounded(value, increment) * increment
    }
}

proof fn lemma_to_increment_close(value: int, increment: int)
    requires
        increment > 0,
    ensures
        2 * (to_increment(value, increment) - value) <= increment,
        -increment <= 2 * (to_increment(value, increment) - value),
{
    let m = if value >= 0 {
        value
    } else {
        -value
    };
    let q = rounded_up(m, increment);
    lemma_rounded_up(m, increment);
    if value < 0 {
        assert((-q) * increment == -(q * increment)) by (nonlinear_arith);
    }
}

proof fn lemma_to_increment_grows(a: int, b: int, increment: int)
    requires
        a <= b,
        increment > 0,
    ensures
        to_increment(a, increment) <= to_increment(b, increment),
{
    lemma_rounded_grows(a, b, increment);
    let (x, y) = (rounded(a, increment), rounded(b, increment));
    assert(x * increment <= y * increment) by (nonlinear_arith)
        requires
            x <= y,
            increment > 0,
    ;
}

/// Whether a price fits.
pub open spec fn is_price(x: int) -> bool {
    i64::MIN <= x <= i64::MAX
}

fn round_wide(value: i128, increment: i64) -> (r: i128)
    requires
        -0x1_0000_0000_0000_0000_0000_0000 <= value <= 0x1_0000_0000_0000_0000_0000_0000,
        increment > 0,
    ensures
        r == to_increment(value as int, increment as int),
{
    let q: i128 = round_to(value, increment as i128);
    proof {
        lemma_to_increment_close(value as int, increment as int);
    }
    q * increment as i128
}

/// Brings a value to the nearest multiple of an increment.
pub fn round_to_increment(value: i64, increment: i64) -> (r: i64)
    requires
        is_price(to_increment(value as int, increment as int)),
    ensures
        r == to_increment(value as int, increment as int),
{
    if increment <= 0 {
        return value;
    }
    round_wide(value as i128, increment) as i64
}

/// The strikes from `low` to `high` increments around the money, each brought
/// to a multiple of the increment.
pub open spec fn strikes_around(atm: int, low: int, high: int, increment: int) -> Seq<i64>
    decreases high - low + 1,
{
    if high < low {
        Seq::<i64>::empty()
    } else {
        strikes_around(atm, low, high - 1, increment).push(to_increment(atm + high * increment, increment) as i64)
    }
}

/// The last step of a range that ends at `high`: a step that passes the end
/// by no more than a billionth still counts.
pub open spec fn last_step(high: int, increment: int) -> int {
    if increment == 1 {
        high + 1
    } else {
        high
    }
}

/// Whether the strikes around the money can be laid out: the increment is
/// positive, and the lowest and the highest strike fit.
pub open spec fn can_lay_out(atm: int, product: ProductConfig) -> bool {
    match product.strike_increment.nanos() {
        Some(inc) => {
            let low = product.range_of().0 as int;
            let high = last_step(product.range_of().1 as int, inc as int);
            &&& inc > 0
            &&& low <= high ==> is_price(to_increment(atm + low * inc, inc as int)) && is_price(
                to_increment(atm + high * inc, inc as int),
            )
        },
        None => false,
    }
}

/// The strikes of a product around the money.
pub open spec fn product_strikes(atm: int, product: ProductConfig) -> Seq<i64> {
    let inc = product.strike_increment.nanos()->0 as int;
    strikes_around(atm, product.range_of().0 as int, last_step(product.range_of().1 as int, inc), inc)
}

fn last_step_of(high: i32, increment: i64) -> (r: i64)
    ensures
        r == last_step(high as int, increment as int),
{
    if increment == 1 {
        high as i64 + 1
    } else {
        high as i64
    }
}

fn strike_at(atm: i64, n: i64, increment: i64) -> (r: i128)
    requires
        -0x1_0000_0000 <= n <= 0x1_0000_0000,
        increment > 0,
    ensures
        r == to_increment(atm + n * increment, increment as int),
{
    assert(-0x8000_0000_0000_0000_0000_0000 <= n * increment <= 0x8000_0000_0000_0000_0000_0000) by (nonlinear_arith)
        requires
            -0x1_0000_0000 <= n <= 0x1_0000_0000,
            0 < increment <= 0x7fff_ffff_ffff_ffff,
    ;
    round_wide(atm as i128 + n as i128 * increment as i128, increment)
}

/// The strikes of a product around the money, lowest first. The range is
/// wider than what is quoted, so that a surface can be fitted to the wings.
pub fn generate_strikes(atm: i64, product: &ProductConfig) -> (r: Vec<i64>)
    requires
        can_lay_out(atm as int, *product),
    ensures
        r@ == product_strikes(atm as int, *product),
{
    let inc: i64 = match product.strike_increment.to_nanos() {
        Some(n) => n,
        None => 1,
    };
    let (low, high) = product.strike_range();
    let last: i64 = last_step_of(high, inc);
    let mut out: Vec<i64> = Vec::new();
    let mut n: i64 = low as i64;
    while n <= last
        invariant
            low <= n,
            low <= last ==> n <= last + 1,
            low > last ==> n == low,
            last <= 0x8000_0000,
            inc > 0,
            low <= last ==> is_price(to_increment(atm + low * inc, inc as int)) && is_price(
                to_increment(atm + last * inc, inc as int),
            ),
            out@ == strikes_around(atm as int, low as int, n - 1, inc as int),
        decreases last - n + 1,
    {
        proof {
            assert(low * inc <= n * inc <= last * inc) by (nonlinear_arith)
                requires
                    low <= n <= last,
                    inc > 0,
            ;
            lemma_to_increment_grows(atm + low * inc, atm + n * inc, inc as int);
            lemma_to_increment_grows(atm + n * inc, atm + last * inc, inc as int);
        }
        let k: i128 = strike_at(atm, n, inc);
        out.push(k as i64);
        n = n + 1;
    }
    proof {
        if low > last {
            assert(strikes_around(atm as int, low as int, n - 1, inc as int) =~= Seq::<i64>::empty());
            assert(strikes_around(atm as int, low as int, last as int, inc as int) =~= Seq::<i64>::empty());
        }
    }
    out
}

/// Whether the strikes around a price can be laid out: the money, which is
/// the price brought to the product's increment, fits, and so do they.
pub open spec fn has_window(price: int, product: ProductConfig) -> bool {
    match product.strike_increment.nanos() {
        Some(inc) => is_price(to_increment(price, inc as int)) && can_lay_out(to_increment(price, inc as int), product),
        None => false,
    }
}

/// A price brought to the product's increment, and the strikes around it;
/// none where they cannot be laid out.
pub fn strike_window(price: i64, product: &ProductConfig) -> (r: Option<(i64, Vec<i64>)>)
    ensures
        r is Some <==> has_window(price as int, *product),
        r matches Some((atm, strikes)) ==> {
            &&& atm == to_increment(price as int, product.strike_increment.nanos()->0 as int)
            &&& strikes@ == product_strikes(atm as int, *product)
        },
{
    let inc: i64 = match product.strike_increment.to_nanos() {
        Some(n) => n,
        None => {
            return None;
        },
    };
    if inc <= 0 {
        return None;
    }
    let money: i128 = round_wide(price as i128, inc);
    if money < i64::MIN as i128 || money > i64::MAX as i128 {
        return None;
    }
    let atm: i64 = money as i64;
    let (low, high) = product.strike_range();
    let last: i64 = last_step_of(high, inc);
    if low as i64 <= last {
        let lowest: i128 = strike_at(atm, low as i64, inc);
        let highest: i128 = strike_at(atm, last, inc);
        if lowest < i64::MIN as i128 || lowest > i64::MAX as i128 || highest < i64::MIN as i128 || highest
            > i64::MAX as i128 {
            return None;
        }
    }
    Some((atm, generate_strikes(atm, product)))
}

/// An option to subscribe to.
#[derive(Clone, Copy, Debug, PartialEq, Eq, Structural)]
pub struct OptionLeg {
    pub expiry: Date,
    pub strike: i64,
    pub right: Right,
}

/// Calls and puts at these strikes.
pub open spec fn grid(expiry: Date, strikes: Seq<i64>) -> Seq<OptionLeg>
    decreases strikes.len(),
{
    if strikes.len() == 0 {
        Seq::<OptionLeg>::empty()
    } else {
        grid(expiry, strikes.drop_last()).push(OptionLeg { expiry, strike: strikes.last(), right: Right::Call }).push(
            OptionLeg { expiry, strike: strikes.last(), right: Right::Put },
        )
    }
}

/// A list without what is in another list or came before.
pub open spec fn without(legs: Seq<OptionLeg>, known: Seq<OptionLeg>) -> Seq<OptionLeg>
    decreases legs.len(),
{
    if legs.len() == 0 {
        Seq::<OptionLeg>::empty()
    } else {
        let before = without(legs.drop_last(), known);
        if known.contains(legs.last()) || before.contains(legs.last()) {
            before
        } else {
            before.push(legs.last())
        }
    }
}

fn same_leg(a: &OptionLeg, b: &OptionLeg) -> (r: bool)
    ensures
        r == (*a == *b),
{
    a.strike == b.strike && a.right == b.right && a.expiry == b.expiry
}

fn has_leg(legs: &Vec<OptionLeg>, leg: &OptionLeg) -> (r: bool)
    ensures
        r == legs@.contains(*leg),
{
    let mut i: usize = 0;
    while i < legs.len()
        invariant
            i <= legs@.len(),
            forall|j: int| 0 <= j < i ==> legs@[j] != *leg,
        decreases legs@.len() - i,
    {
        if same_leg(&legs[i], leg) {
            assert(legs@[i as int] == *leg);
            return true;
        }
        i = i + 1;
    }
    false
}

fn lay_grid(expiry: Date, strikes: &Vec<i64>) -> (r: Vec<OptionLeg>)
    ensures
        r@ == grid(expiry, strikes@),
{
    let mut out: Vec<OptionLeg> = Vec::new();
    let mut i: usize = 0;
    while i < strikes.len()
        invariant
            i <= strikes@.len(),
            out@ == grid(expiry, strikes@.take(i as int)),
        decreases strikes@.len() - i,
    {
        assert(strikes@.take(i + 1).drop_last() =~= strikes@.take(i as int));
        assert(strikes@.take(i + 1).last() == strikes@[i as int]);
        out.push(OptionLeg { expiry, strike: strikes[i], right: Right::Call });
        out.push(OptionLeg { expiry, strike: strikes[i], right: Right::Put });
        i = i + 1;
    }
    assert(strikes@.take(i as int) =~= strikes@);
    out
}

fn drop_known(legs: &Vec<OptionLeg>, known: &Vec<OptionLeg>) -> (r: Vec<OptionLeg>)
    ensures
        r@ == without(legs@, known@),
{
    let mut out: Vec<OptionLeg> = Vec::new();
    let mut i: usize = 0;
    while i < legs.len()
        invariant
            i <= legs@.len(),
            out@ == without(legs@.take(i as int), known@),
        decreases legs@.len() - i,
    {
        assert(legs@.take(i + 1).drop_last() =~= legs@.take(i as int));
        assert(legs@.take(i + 1).last() == legs@[i as int]);
        if !has_leg(known, &legs[i]) && !has_leg(&out, &legs[i]) {
            out.push(legs[i]);
        }
        i = i + 1;
    }
    assert(legs@.take(i as int) =~= legs@);
    out
}

/// The legs to subscribe to when a product starts: calls and puts of the
/// front expiry around the money, and the legs of positions, which must be
/// marked whatever their expiry; none of them twice.
pub fn plan_subscriptions(front_expiry: Date, strikes: &Vec<i64>, positions: &Vec<OptionLeg>) -> (r: Vec<OptionLeg>)
    ensures
        r@ == without(grid(front_expiry, strikes@) + positions@, Seq::<OptionLeg>::empty()),
{
    let mut legs = lay_grid(front_expiry, strikes);
    let mut i: usize = 0;
    let ghost front = legs@;
    while i < positions.len()
        invariant
            i <= positions@.len(),
            legs@ == front + positions@.take(i as int),
        decreases positions@.len() - i,
    {
        legs.push(positions[i]);
        assert(front + positions@.take(i + 1) =~= (front + positions@.take(i as int)).push(positions@[i as int]));
        i = i + 1;
    }
    assert(positions@.take(i as int) =~= positions@);
    let none: Vec<OptionLeg> = Vec::new();
    assert(none@ =~= Seq::<OptionLeg>::empty());
    drop_known(&legs, &none)
}

/// What a list without known legs holds: each leg that is not known, once.
proof fn lemma_without(legs: Seq<OptionLeg>, known: Seq<OptionLeg>)
    ensures
        forall|l: OptionLeg| #[trigger]
            without(legs, known).contains(l) <==> legs.contains(l) && !known.contains(l),
        without(legs, known).no_duplicates(),
    decreases legs.len(),
{
    if legs.len() > 0 {
        lemma_without(legs.drop_last(), known);
        let before = without(legs.drop_last(), known);
        let last = legs.last();
        assert(legs =~= legs.drop_last().push(last));
        assert forall|l: OptionLeg| #[trigger] without(legs, known).contains(l) <==> legs.contains(l) && !known.contains(
            l,
        ) by {
            if legs.drop_last().contains(l) {
                let k = legs.drop_last().index_of(l);
                assert(legs[k] == l);
            }
            if legs.contains(l) && l != last {
                let k = legs.index_of(l);
                assert(legs.drop_last()[k] == l);
            }
            if before.contains(l) {
                let k = before.index_of(l);
                assert(before.push(last)[k] == l);
            }
            assert(before.push(last)[before.len() as int] == last);
            assert(legs[legs.len() - 1] == last);
        }
    }
}

/// A plan holds each leg around the money and each position's leg exactly
/// once, and nothing else.
pub proof fn law_plan_is_the_union(front_expiry: Date, strikes: Seq<i64>, positions: Seq<OptionLeg>)
    ensures
        ({
            let plan = without(grid(front_expiry, strikes) + positions, Seq::<OptionLeg>::empty());
            &&& plan.no_duplicates()
            &&& forall|l: OptionLeg| #[trigger]
                plan.contains(l) <==> grid(front_expiry, strikes).contains(l) || positions.contains(l)
        }),
{
    let g = grid(front_expiry, strikes);
    lemma_without(g + positions, Seq::<OptionLeg>::empty());
    assert forall|l: OptionLeg| (g + positions).contains(l) <==> g.contains(l) || positions.contains(l) by {
        if g.contains(l) {
            let k = g.index_of(l);
            assert((g + positions)[k] == l);
        }
        if positions.contains(l) {
            let k = positions.index_of(l);
            assert((g + positions)[g.len() + k] == l);
        }
    }
}

/// Re-centering adds exactly the legs around the money that are not
/// subscribed, so that doing it twice adds nothing the second time.
pub proof fn law_recenter_settles(expiry: Date, strikes: Seq<i64>, subscribed: Seq<OptionLeg>)
    ensures
        ({
            let added = without(grid(expiry, strikes), subscribed);
            without(grid(expiry, strikes), subscribed + added) =~= Seq::<OptionLeg>::empty()
        }),
{
    let g = grid(expiry, strikes);
    let added = without(g, subscribed);
    let all = subscribed + added;
    lemma_without(g, subscribed);
    lemma_without(g, all);
    let again = without(g, all);
    if again.len() > 0 {
        let l = again[0];
        assert(again.contains(l));
        assert(g.contains(l) && !all.contains(l));
        if subscribed.contains(l) {
            let k = subscribed.index_of(l);
            assert(all[k] == l);
        } else {
            assert(added.contains(l));
            let k = added.index_of(l);
            assert(all[subscribed.len() + k] == l);
        }
    }
}

// Re-centering

/// The earliest date of a list.
pub open spec fn earliest(dates: Seq<Date>) -> Option<Date>
    decreases dates.len(),
{
    if dates.len() == 0 {
        None
    } else {
        match earliest(dates.drop_last()) {
            Some(d) => Some(
                if dates.last().earlier(d) {
                    dates.last()
                } else {
                    d
                },
            ),
            None => Some(dates.last()),
        }
    }
}

/// The legs of a product's options in the book.
pub open spec fn listed_legs(md: MarketDataState, slots: Seq<usize>) -> Seq<OptionLeg> {
    Seq::new(
        slots.len(),
        |k: int|
            {
                let t = md.entries@[slots[k] as int].tick;
                OptionLeg { expiry: t.expiry, strike: t.strike, right: t.right }
            },
    )
}

/// The expiries of legs.
pub open spec fn expiries(legs: Seq<OptionLeg>) -> Seq<Date> {
    legs.map_values(|l: OptionLeg| l.expiry)
}

/// The legs that the book holds for a product.
pub fn subscribed_legs(md: &MarketDataState, product: &str) -> (r: Vec<OptionLeg>)
    ensures
        exists|slots: Seq<usize>| #[trigger] listed_legs(*md, slots) == r@ && MarketDataState::slots_of(*md, product@, slots),
{
    let slots = md.options_for_product(product);
    let mut out: Vec<OptionLeg> = Vec::new();
    let mut i: usize = 0;
    while i < slots.len()
        invariant
            i <= slots@.len(),
            MarketDataState::slots_of(*md, product@, slots@),
            out@ == listed_legs(*md, slots@.take(i as int)),
        decreases slots@.len() - i,
    {
        let t = &md.entries[slots[i]].tick;
        out.push(OptionLeg { expiry: t.expiry, strike: t.strike, right: t.right });
        i = i + 1;
        assert(out@ =~= listed_legs(*md, slots@.take(i as int)));
    }
    assert(slots@.take(i as int) =~= slots@);
    out
}

/// What re-centering adds.
#[derive(Debug)]
pub struct Recenter {
    /// The front expiry, to be kept for the session.
    pub expiry: Date,
    pub atm: i64,
    pub missing: Vec<OptionLeg>,
}

/// Where the options' own forward has moved the money to, the legs around it
/// that are not subscribed yet. Nothing where there is no positive forward or
/// no option that gives the front expiry. Nothing is ever unsubscribed.
pub fn recenter(
    forward: Option<i64>,
    product: &ProductConfig,
    cached_front: Option<Date>,
    subscribed: &Vec<OptionLeg>,
) -> (r: Option<Recenter>)
    ensures
        ({
            let front = match cached_front {
                Some(d) => Some(d),
                None => earliest(expiries(subscribed@)),
            };
            match r {
                Some(p) => {
                    &&& forward is Some
                    &&& forward->0 > 0
                    &&& front == Some(p.expiry)
                    &&& p.atm == to_increment(forward->0 as int, product.strike_increment.nanos()->0 as int)
                    &&& has_window(forward->0 as int, *product)
                    &&& p.missing@ == without(
                        grid(p.expiry, product_strikes(p.atm as int, *product)),
                        subscribed@,
                    )
                },
                None => {
                    ||| forward is None
                    ||| forward->0 <= 0
                    ||| front is None
                    ||| !has_window(forward->0 as int, *product)
                },
            }
        }),
{
    let f: i64 = match forward {
        Some(f) => f,
        None => {
            return None;
        },
    };
    if f <= 0 {
        return None;
    }
    let (atm, strikes) = match strike_window(f, product) {
        Some(w) => w,
        None => {
            return None;
        },
    };
    let front = match cached_front {
        Some(d) => Some(d),
        None => {
            let mut first: Option<Date> = None;
            let mut i: usize = 0;
            while i < subscribed.len()
                invariant
                    i <= subscribed@.len(),
                    first == earliest(expiries(subscribed@.take(i as int))),
                decreases subscribed@.len() - i,
            {
                let ghost now = expiries(subscribed@.take(i + 1));
                assert(now.drop_last() =~= expiries(subscribed@.take(i as int)));
                assert(now.last() == subscribed@[i as int].expiry);
                let e = subscribed[i].expiry;
                first = match first {
                    Some(d) => if e.is_before(&d) {
                        Some(e)
                    } else {
                        Some(d)
                    },
                    None => Some(e),
                };
                i = i + 1;
            }
            assert(subscribed@.take(i as int) =~= subscribed@);
            first
        },
    };
    match front {
        Some(expiry) => {
            let wanted = lay_grid(expiry, &strikes);
            Some(Recenter { expiry, atm, missing: drop_known(&wanted, subscribed) })
        },
        None => None,
    }
}

/// A value is brought to the nearest multiple of the increment.
pub proof fn law_increments_are_nearest(value: int, increment: int)
    requires
        increment > 0,
    ensures
        to_increment(value, increment) % increment == 0,
        -increment <= 2 * (to_increment(value, increment) - value) <= increment,
        value % increment == 0 ==> to_increment(value, increment) == value,
{
    let q = rounded(value, increment);
    lemma_to_increment_close(value, increment);
    vstd::arithmetic::div_mod::lemma_mod_multiples_basic(q, increment);
    if value % increment == 0 {
        vstd::arithmetic::div_mod::lemma_fundamental_div_mod(value, increment);
        assert(value == (value / increment) * increment) by (nonlinear_arith)
            requires
                value == increment * (value / increment) + value % increment,
                value % increment == 0,
        ;
        law_rounding_keeps_multiples(value / increment, increment);
    }
}

/// Strikes around the money are one increment apart, from the lowest step to
/// the highest, with none left out.
pub proof fn law_strikes_are_one_increment_apart(atm: int, low: int, high: int, increment: int, i: int)
    requires
        increment > 0,
        atm % increment == 0,
        low <= high + 1,
        forall|n: int| low <= n <= high ==> is_price(#[trigger] to_increment(atm + n * increment, increment)),
    ensures
        strikes_around(atm, low, high, increment).len() == high - low + 1,
        0 <= i <= high - low ==> strikes_around(atm, low, high, increment)[i] == atm + (low + i) * increment,
    decreases high - low + 1,
{
    if low <= high {
        law_strikes_are_one_increment_apart(atm, low, high - 1, increment, i);
        if i == high - low {
            assert(is_price(to_increment(atm + high * increment, increment)));
            assert((atm + high * increment) % increment == 0) by {
                vstd::arithmetic::div_mod::lemma_mod_multiples_vanish(high, atm, increment);
                assert(increment * high + atm == atm + high * increment) by (nonlinear_arith);
            }
            law_increments_are_nearest(atm + high * increment, increment);
        }
    }
}

/// A product's strikes run over the range that is set for them, or over the
/// quote range where none is.
pub proof fn law_strikes_cover_the_range(atm: int, product: ProductConfig)
    requires
        can_lay_out(atm, product),
        product.strike_increment.nanos()->0 > 1,
    ensures
        ({
            let low = if product.strike_range_low is Some { product.strike_range_low->0 } else { product.quote_range_low };
            let high = if product.strike_range_high is Some {
                product.strike_range_high->0
            } else {
                product.quote_range_high
            };
            product_strikes(atm, product) == strikes_around(
                atm,
                low as int,
                high as int,
                product.strike_increment.nanos()->0 as int,
            )
        }),
{
}

/// Each strike is watched as a call and as a put of the expiry, and no other
/// is.
pub proof fn law_calls_and_puts_are_watched(expiry: Date, strikes: Seq<i64>, leg: OptionLeg)
    ensures
        grid(expiry, strikes).contains(leg) <==> leg.expiry == expiry && strikes.contains(leg.strike),
        grid(expiry, strikes).len() == 2 * strikes.len(),
    decreases strikes.len(),
{
    let g = grid(expiry, strikes);
    if strikes.len() > 0 {
        let rest = strikes.drop_last();
        let before = grid(expiry, rest);
        law_calls_and_puts_are_watched(expiry, rest, leg);
        let n = before.len() as int;
        assert(g[n] == (OptionLeg { expiry, strike: strikes.last(), right: Right::Call }));
        assert(g[n + 1] == (OptionLeg { expiry, strike: strikes.last(), right: Right::Put }));
        assert(forall|i: int| 0 <= i < n ==> g[i] == before[i]);
        assert(forall|i: int| 0 <= i < rest.len() ==> rest[i] == strikes[i]);
        if g.contains(leg) {
            let k = g.index_of(leg);
            if k < n {
                assert(before[k] == leg);
                let j = rest.index_of(leg.strike);
                assert(strikes[j] == leg.strike);
            } else {
                assert(strikes[strikes.len() - 1] == leg.strike);
            }
        }
        if leg.expiry == expiry && strikes.contains(leg.strike) {
            let j = strikes.index_of(leg.strike);
            if j < rest.len() {
                assert(rest[j] == leg.strike);
                let k = before.index_of(leg);
                assert(g[k] == leg);
            } else {
                assert(g[n] == leg || g[n + 1] == leg) by {
                    assert(leg.right is Call || leg.right is Put);
                }
            }
        }
    }
}

/// Recentring adds each leg of the new window that is not watched yet, and
/// nothing else.
pub proof fn law_recenter_adds_what_is_missing(expiry: Date, strikes: Seq<i64>, subscribed: Seq<OptionLeg>, leg: OptionLeg)
    ensures
        without(grid(expiry, strikes), subscribed).contains(leg) <==> leg.expiry == expiry && strikes.contains(leg.strike)
            && !subscribed.contains(leg),
{
    lemma_without(grid(expiry, strikes), subscribed);
    law_calls_and_puts_are_watched(expiry, strikes, leg);
}

/// The earliest of dates is one of them, and none comes before it.
pub proof fn law_earliest_comes_first(dates: Seq<Date>)
    ensures
        earliest(dates) is None <==> dates.len() == 0,
        earliest(dates) matches Some(d) ==> dates.contains(d) && forall|i: int|
            0 <= i < dates.len() ==> !(#[trigger] dates[i]).earlier(d),
    decreases dates.len(),
{
    if dates.len() > 0 {
        let rest = dates.drop_last();
        law_earliest_comes_first(rest);
        assert(forall|i: int| 0 <= i < rest.len() ==> #[trigger] rest[i] == dates[i]);
        assert(dates[dates.len() - 1] == dates.last());
        if earliest(rest) is Some {
            let e = earliest(rest)->0;
            let k = rest.index_of(e);
            assert(dates[k] == e);
            assert forall|i: int| 0 <= i < dates.len() implies !(#[trigger] dates[i]).earlier(earliest(dates)->0) by {
                if i < rest.len() {
                    assert(!rest[i].earlier(e));
                }
            }
        }
    }
}

} // verus!
