//! The volatility surface: which quotes it is fitted to, and what is made of
//! a fit.
//!
//! Only options out of the money count: in the money, wide spreads around
//! little time value make the implied volatility unstable. Calls and puts on
//! opposite wings describe one smile, so one fit serves both sides.

use crate::api::Right;
use crate::dates::{
    date_text, day_number, format_yyyymmdd, law_seconds_left_reach_the_hour, lemma_day_number_bounds, seconds_until,
    seconds_until_of, Date,
};
use crate::double::Double;
use crate::market_data::option_state::OptionTick;
use crate::market_data::state::{law_option_listed_once, MarketDataState, OptionEntry};
use crate::table::{Table, TableKey};
use crate::text::str_eq;
use vstd::prelude::*;
use vstd::string::*;

verus! {

/// Strikes farther from the money do not tell the forward, in billionths.
pub const PARITY_WINDOW: i64 = 250_000_000;

/// A forward farther from the money is not believed, in billionths.
pub const PARITY_LIMIT: i64 = 200_000_000;

/// Fewer strikes are not fitted.
pub const MIN_STRIKES: usize = 3;

/// Hour of the last trading day, in UTC, up to which time counts.
pub const FIT_EXPIRY_HOUR: u32 = 20;

/// 0.001
pub const MIN_IV_BITS: u64 = 0x3f50_624d_d2f1_a9fc;

/// 5.0
pub const MAX_IV_BITS: u64 = 0x4014_0000_0000_0000;

// The forward

/// A strike's position on the grid, in billionths.
pub open spec fn grid_strike(e: OptionEntry) -> int {
    e.strike_key * 100_000
}

/// Whether an entry is the put to a call.
pub open spec fn is_put_of(p: OptionEntry, c: OptionEntry) -> bool {
    p.product@ == c.product@ && p.tick.right == Right::Put && p.tick.expiry == c.tick.expiry && p.strike_key
        == c.strike_key
}

/// The price of the last put to a call among the first `n` entries.
pub open spec fn put_mid(md: MarketDataState, c: OptionEntry, n: int) -> Option<i128>
    decreases n,
{
    if n <= 0 {
        None
    } else if is_put_of(md.entries@[n - 1], c) {
        md.entries@[n - 1].tick.mid_price()
    } else {
        put_mid(md, c, n - 1)
    }
}

/// What a call tells of the forward, in halves of a billionth: its strike,
/// plus what it costs more than its put. Nothing where the strike is too far from the money or a price is
/// missing.
pub open spec fn parity_sample(md: MarketDataState, i: int, product: Seq<char>, spot: i64) -> Option<int> {
    let c = md.entries@[i];
    if c.product@ == product && c.tick.right == Right::Call && -PARITY_WINDOW <= grid_strike(c) - spot
        <= PARITY_WINDOW {
        match (c.tick.mid_price(), put_mid(md, c, md.entries@.len() as int)) {
            (Some(a), Some(b)) => Some(2 * grid_strike(c) + (a - b)),
            _ => None,
        }
    } else {
        None
    }
}

/// Sum and number of what the first `n` entries tell of the forward.
pub open spec fn parity_sum(md: MarketDataState, product: Seq<char>, spot: i64, n: int) -> (int, int)
    decreases n,
{
    if n <= 0 {
        (0, 0)
    } else {
        let before = parity_sum(md, product, spot, n - 1);
        match parity_sample(md, n - 1, product, spot) {
            Some(s) => (before.0 + s, before.1 + 1),
            None => before,
        }
    }
}

/// A price as a fraction of billionths.
#[derive(Clone, Copy, Debug, PartialEq, Eq, Structural)]
pub struct Fraction {
    pub num: i128,
    pub den: i128,
}

/// The forward that the options imply, as a fraction of billionths: the mean
/// of at least two samples, unless it is too far from the money; else the
/// money itself.
pub open spec fn forward_of(md: MarketDataState, product: Seq<char>, spot: i64) -> (int, int) {
    let (sum, n) = parity_sum(md, product, spot, md.entries@.len() as int);
    if n < 2 || sum - spot * (2 * n) > PARITY_LIMIT * (2 * n) || spot * (2 * n) - sum > PARITY_LIMIT * (2 * n) {
        (spot as int, 1)
    } else {
        (sum, 2 * n)
    }
}

fn find_put_mid(md: &MarketDataState, call: usize) -> (r: Option<i128>)
    requires
        call < md.entries@.len(),
    ensures
        r == put_mid(*md, md.entries@[call as int], md.entries@.len() as int),
{
    let c = &md.entries[call];
    let mut n: usize = md.entries.len();
    while n > 0
        invariant
            n <= md.entries@.len(),
            *c == md.entries@[call as int],
            put_mid(*md, *c, md.entries@.len() as int) == put_mid(*md, *c, n as int),
        decreases n,
    {
        let p = &md.entries[n - 1];
        if p.tick.right == Right::Put && p.strike_key == c.strike_key && p.tick.expiry == c.tick.expiry && str_eq(
            p.product.as_str(),
            c.product.as_str(),
        ) {
            return p.tick.mid();
        }
        n = n - 1;
    }
    None
}

/// The forward that a product's options imply by put-call parity.
pub fn parity_forward(md: &MarketDataState, product: &str, spot: i64) -> (r: Fraction)
    requires
        md.entries@.len() <= 0xffff_ffff,
        spot > 0,
    ensures
        (r.num as int, r.den as int) == forward_of(*md, product@, spot),
        0 < r.den <= 0x1_ffff_fffe,
{
    let mut sum: i128 = 0;
    let mut count: i128 = 0;
    let mut i: usize = 0;
    while i < md.entries.len()
        invariant
            i <= md.entries@.len() <= 0xffff_ffff,
            spot > 0,
            (sum as int, count as int) == parity_sum(*md, product@, spot, i as int),
            0 <= count <= i,
            -(i as int) * 0x8_0000_0000_0000_0000 <= sum <= i * 0x8_0000_0000_0000_0000,
        decreases md.entries@.len() - i,
    {
        let c = &md.entries[i];
        let k: i128 = c.strike_key as i128 * 100_000;
        let off: i128 = k - spot as i128;
        if c.tick.right == Right::Call && -(PARITY_WINDOW as i128) <= off && off <= PARITY_WINDOW as i128 && str_eq(
            c.product.as_str(),
            product,
        ) {
            match (c.tick.mid(), find_put_mid(md, i)) {
                (Some(a), Some(b)) => {
                    proof {
                        lemma_mid_bound(*md, *c, md.entries@.len() as int);
                    }
                    sum = sum + (2 * k + (a - b));
                    count = count + 1;
                },
                _ => {},
            }
        }
        i = i + 1;
    }
    let money = Fraction { num: spot as i128, den: 1 };
    if count < 2 {
        return money;
    }
    let den: i128 = 2 * count;
    proof {
        assert(0 <= spot * den <= 0x7fff_ffff_ffff_ffff * 0x1_ffff_fffe) by (nonlinear_arith)
            requires
                0 <= spot <= 0x7fff_ffff_ffff_ffff,
                0 <= den <= 0x1_ffff_fffe,
        ;
        assert(spot * (2 * count) == spot * den);
        assert(0 <= PARITY_LIMIT * den <= 200_000_000 * 0x1_ffff_fffe);
    }
    let at: i128 = spot as i128 * den;
    let limit: i128 = PARITY_LIMIT as i128 * den;
    if sum - at > limit || at - sum > limit {
        money
    } else {
        Fraction { num: sum, den }
    }
}

proof fn lemma_mid_bound(md: MarketDataState, c: OptionEntry, n: int)
    requires
        n <= md.entries@.len(),
    ensures
        put_mid(md, c, n) matches Some(m) ==> 0 < m < 0x1_0000_0000_0000_0000,
    decreases n,
{
    if n > 0 && !is_put_of(md.entries@[n - 1], c) {
        lemma_mid_bound(md, c, n - 1);
    }
}

/// Whether an entry is a call of a product with a strike near the money: no
/// more than a quarter of a point away.
pub open spec fn near_call(md: MarketDataState, i: int, product: Seq<char>, spot: i64) -> bool {
    let e = md.entries@[i];
    &&& 0 <= i < md.entries@.len()
    &&& e.product@ == product
    &&& e.tick.right == Right::Call
    &&& -250_000_000 <= e.strike_key * 100_000 - spot <= 250_000_000
}

/// Whether a call and a put belong together: product, strike and expiry are
/// the same, and both have two quotes with a gap.
pub open spec fn paired(md: MarketDataState, i: int, j: int) -> bool {
    let c = md.entries@[i];
    let p = md.entries@[j];
    &&& 0 <= i < md.entries@.len()
    &&& 0 <= j < md.entries@.len()
    &&& c.tick.right == Right::Call
    &&& p.tick.right == Right::Put
    &&& p.product@ == c.product@
    &&& p.strike_key == c.strike_key
    &&& p.tick.expiry == c.tick.expiry
    &&& 0 < c.tick.bid < c.tick.ask
    &&& 0 < p.tick.bid < p.tick.ask
}

proof fn lemma_put_mid(md: MarketDataState, i: int, j: int, n: int)
    requires
        md.wf(),
        paired(md, i, j),
        n <= md.entries@.len(),
    ensures
        put_mid(md, md.entries@[i], n) == (if j < n {
            Some((md.entries@[j].tick.bid + md.entries@[j].tick.ask) as i128)
        } else {
            None
        }),
    decreases n,
{
    if n > 0 {
        if is_put_of(md.entries@[n - 1], md.entries@[i]) {
            law_option_listed_once(md, n - 1, j);
        } else {
            lemma_put_mid(md, i, j, n - 1);
        }
    }
}

proof fn lemma_no_put(md: MarketDataState, i: int, n: int)
    requires
        0 <= i < md.entries@.len(),
        n <= md.entries@.len(),
        md.entries@[i].tick.right == Right::Call,
        0 < md.entries@[i].tick.bid < md.entries@[i].tick.ask,
        put_mid(md, md.entries@[i], n) is Some,
    ensures
        exists|j: int| 0 <= j < n && #[trigger] paired(md, i, j),
    decreases n,
{
    if n > 0 {
        if is_put_of(md.entries@[n - 1], md.entries@[i]) {
            assert(paired(md, i, n - 1));
        } else {
            lemma_no_put(md, i, n - 1);
        }
    }
}

/// What a call near the money says is its strike, plus what it costs more than
/// the put with which it belongs together; and a call without such a put says
/// nothing.
proof fn lemma_sample(md: MarketDataState, i: int, product: Seq<char>, spot: i64)
    requires
        md.wf(),
        0 <= i < md.entries@.len(),
    ensures
        forall|j: int|
            near_call(md, i, product, spot) && #[trigger] paired(md, i, j) ==> parity_sample(md, i, product, spot) == Some(
                2 * (md.entries@[i].strike_key * 100_000) + (md.entries@[i].tick.bid + md.entries@[i].tick.ask) - (
                md.entries@[j].tick.bid + md.entries@[j].tick.ask),
            ),
        parity_sample(md, i, product, spot) is Some ==> near_call(md, i, product, spot) && exists|j: int| #[trigger]
            paired(md, i, j),
{
    let n = md.entries@.len() as int;
    assert forall|j: int| near_call(md, i, product, spot) && #[trigger] paired(md, i, j) implies parity_sample(
        md,
        i,
        product,
        spot,
    ) == Some(
        2 * (md.entries@[i].strike_key * 100_000) + (md.entries@[i].tick.bid + md.entries@[i].tick.ask) - (
        md.entries@[j].tick.bid + md.entries@[j].tick.ask),
    ) by {
        lemma_put_mid(md, i, j, n);
    }
    if parity_sample(md, i, product, spot) is Some {
        lemma_no_put(md, i, n);
    }
}

/// Whether each pair near the money says the same of the forward: the call
/// costs as much more than its put as the forward is above the strike.
pub open spec fn parity_holds(md: MarketDataState, product: Seq<char>, spot: i64, forward: int) -> bool {
    forall|i: int, j: int|
        near_call(md, i, product, spot) && #[trigger] paired(md, i, j) ==> (md.entries@[i].tick.bid
            + md.entries@[i].tick.ask) - (md.entries@[j].tick.bid + md.entries@[j].tick.ask) == 2 * (forward
            - md.entries@[i].strike_key * 100_000)
}

proof fn lemma_parity_sum(md: MarketDataState, product: Seq<char>, spot: i64, forward: int, n: int)
    requires
        md.wf(),
        0 <= n <= md.entries@.len(),
        parity_holds(md, product, spot, forward),
    ensures
        parity_sum(md, product, spot, n).0 == 2 * forward * parity_sum(md, product, spot, n).1,
        0 <= parity_sum(md, product, spot, n).1,
        forall|i: int, j: int|
            i < n && near_call(md, i, product, spot) && #[trigger] paired(md, i, j) ==> parity_sum(md, product, spot, n).1
                >= 1,
        forall|i: int, j: int, k: int, l: int|
            i < k < n && near_call(md, i, product, spot) && near_call(md, k, product, spot) && #[trigger] paired(md, i, j)
                && #[trigger] paired(md, k, l) ==> parity_sum(md, product, spot, n).1 >= 2,
    decreases n,
{
    assert(2 * forward * 0 == 0);
    if n > 0 {
        lemma_parity_sum(md, product, spot, forward, n - 1);
        lemma_sample(md, n - 1, product, spot);
        let c = parity_sum(md, product, spot, n - 1).1;
        assert(2 * forward * (c + 1) == 2 * forward * c + 2 * forward) by (nonlinear_arith);
        if parity_sample(md, n - 1, product, spot) is Some {
            let j = choose|j: int| #[trigger] paired(md, n - 1, j);
            assert(parity_sample(md, n - 1, product, spot) == Some(2 * forward));
        }
        assert forall|i: int, j: int, k: int, l: int|
            i < k < n && near_call(md, i, product, spot) && near_call(md, k, product, spot) && #[trigger] paired(md, i, j)
                && #[trigger] paired(md, k, l) implies parity_sum(md, product, spot, n).1 >= 2 by {
            if k == n - 1 {
                assert(parity_sample(md, n - 1, product, spot) is Some);
                assert(parity_sum(md, product, spot, n - 1).1 >= 1);
            }
        }
    }
}

/// Prices in parity give the forward back: where every call near the money
/// costs as much more than the put of its own strike and expiry as one forward
/// near the spot is above the strike, and there are at least two such pairs,
/// that forward is found exactly, whatever else is listed.
pub proof fn law_parity_gives_the_forward_back(
    md: MarketDataState,
    product: Seq<char>,
    spot: i64,
    forward: int,
    a: (int, int),
    b: (int, int),
)
    requires
        md.wf(),
        -200_000_000 <= forward - spot <= 200_000_000,
        parity_holds(md, product, spot, forward),
        near_call(md, a.0, product, spot) && paired(md, a.0, a.1),
        near_call(md, b.0, product, spot) && paired(md, b.0, b.1),
        a.0 < b.0,
    ensures
        forward_of(md, product, spot).1 > 0,
        forward_of(md, product, spot).0 == forward * forward_of(md, product, spot).1,
{
    let n = md.entries@.len() as int;
    lemma_parity_sum(md, product, spot, forward, n);
    let (sum, count) = parity_sum(md, product, spot, n);
    assert(count >= 2);
    assert(sum == forward * (2 * count)) by (nonlinear_arith)
        requires
            sum == 2 * forward * count,
    ;
    let d = 2 * count;
    assert(sum - spot * d == (forward - spot) * d) by (nonlinear_arith)
        requires
            sum == forward * d,
    ;
    assert(-200_000_000 * d <= (forward - spot) * d <= 200_000_000 * d) by (nonlinear_arith)
        requires
            -200_000_000 <= forward - spot <= 200_000_000,
            d > 0,
    ;
}

/// Where no more than one call near the money has its put, the forward is the
/// money itself.
pub proof fn law_without_pairs_the_forward_is_the_spot(md: MarketDataState, product: Seq<char>, spot: i64)
    requires
        md.wf(),
        forall|i: int, j: int, k: int, l: int|
            near_call(md, i, product, spot) && near_call(md, k, product, spot) && #[trigger] paired(md, i, j)
                && #[trigger] paired(md, k, l) ==> i == k,
    ensures
        forward_of(md, product, spot) == (spot as int, 1int),
{
    lemma_few_sampled(md, product, spot, md.entries@.len() as int);
}

proof fn lemma_few_sampled(md: MarketDataState, product: Seq<char>, spot: i64, n: int)
    requires
        md.wf(),
        0 <= n <= md.entries@.len(),
        forall|i: int, j: int, k: int, l: int|
            near_call(md, i, product, spot) && near_call(md, k, product, spot) && #[trigger] paired(md, i, j)
                && #[trigger] paired(md, k, l) ==> i == k,
    ensures
        0 <= parity_sum(md, product, spot, n).1 <= 1,
        parity_sum(md, product, spot, n).1 == 1 ==> exists|i: int, j: int|
            i < n && near_call(md, i, product, spot) && #[trigger] paired(md, i, j),
    decreases n,
{
    if n > 0 {
        lemma_few_sampled(md, product, spot, n - 1);
        lemma_sample(md, n - 1, product, spot);
        if parity_sum(md, product, spot, n - 1).1 == 1 {
            let (i, j) = choose|i: int, j: int|
                i < n - 1 && near_call(md, i, product, spot) && #[trigger] paired(md, i, j);
            assert(near_call(md, i, product, spot) && paired(md, i, j));
            if parity_sample(md, n - 1, product, spot) is Some {
                let l = choose|l: int| #[trigger] paired(md, n - 1, l);
                assert(i == n - 1);
            }
        } else if parity_sample(md, n - 1, product, spot) is Some {
            let l = choose|l: int| #[trigger] paired(md, n - 1, l);
            assert(near_call(md, n - 1, product, spot) && paired(md, n - 1, l));
        }
    }
}

/// A forward that is believed is within a fifth of a point of the money.
pub proof fn law_forward_is_near_the_spot(md: MarketDataState, product: Seq<char>, spot: i64)
    requires
        md.wf(),
    ensures
        forward_of(md, product, spot).1 > 0,
        -200_000_000 * forward_of(md, product, spot).1 <= forward_of(md, product, spot).0 - spot * forward_of(
            md,
            product,
            spot,
        ).1 <= 200_000_000 * forward_of(md, product, spot).1,
{
}

/// A put tells nothing of other expiries: where two books differ only in the
/// quotes of one put, calls of another expiry say the same of the forward in
/// both.
pub proof fn law_puts_tell_of_their_own_expiry(
    a: MarketDataState,
    b: MarketDataState,
    put: int,
    call: int,
    product: Seq<char>,
    spot: i64,
)
    requires
        a.wf(),
        b.wf(),
        a.entries@.len() == b.entries@.len(),
        0 <= put < a.entries@.len(),
        0 <= call < a.entries@.len(),
        put != call,
        forall|k: int| 0 <= k < a.entries@.len() && k != put ==> #[trigger] a.entries@[k] == b.entries@[k],
        a.entries@[put].tick.expiry != a.entries@[call].tick.expiry,
        b.entries@[put].tick.expiry != a.entries@[call].tick.expiry,
    ensures
        parity_sample(a, call, product, spot) == parity_sample(b, call, product, spot),
{
    lemma_other_expiry(a, b, put, call, a.entries@.len() as int);
}

proof fn lemma_other_expiry(a: MarketDataState, b: MarketDataState, put: int, call: int, n: int)
    requires
        a.entries@.len() == b.entries@.len(),
        0 <= put < a.entries@.len(),
        0 <= call < a.entries@.len(),
        put != call,
        n <= a.entries@.len(),
        forall|k: int| 0 <= k < a.entries@.len() && k != put ==> #[trigger] a.entries@[k] == b.entries@[k],
        a.entries@[put].tick.expiry != a.entries@[call].tick.expiry,
        b.entries@[put].tick.expiry != a.entries@[call].tick.expiry,
    ensures
        put_mid(a, a.entries@[call], n) == put_mid(b, b.entries@[call], n),
    decreases n,
{
    if n > 0 {
        assert(a.entries@[call] == b.entries@[call]);
        if n - 1 != put {
            assert(a.entries@[n - 1] == b.entries@[n - 1]);
        }
        lemma_other_expiry(a, b, put, call, n - 1);
    }
}

// Quotes

/// A positive price as a fraction of billionths.
#[derive(Clone, Copy, Debug, PartialEq, Eq, Structural)]
pub struct Ratio {
    pub num: u128,
    pub den: u128,
}

/// The price between two quotes, nearer to the side with less size.
pub open spec fn microprice_of(bid: int, ask: int, bid_size: int, ask_size: int) -> (int, int) {
    (bid * ask_size + ask * bid_size, bid_size + ask_size)
}

/// The size-weighted price lies between the quotes.
pub proof fn law_microprice_between_quotes(bid: int, ask: int, bid_size: int, ask_size: int)
    requires
        0 < bid < ask,
        bid_size > 0,
        ask_size > 0,
    ensures
        ({
            let (num, den) = microprice_of(bid, ask, bid_size, ask_size);
            den > 0 && bid * den < num < ask * den
        }),
{
    let total = bid_size + ask_size;
    let num = bid * ask_size + ask * bid_size;
    assert(bid * total < num < ask * total) by (nonlinear_arith)
        requires
            bid < ask,
            bid_size > 0,
            ask_size > 0,
            total == bid_size + ask_size,
            num == bid * ask_size + ask * bid_size,
    ;
}

/// The size-weighted price of two quotes.
pub fn microprice(bid: i64, ask: i64, bid_size: u64, ask_size: u64) -> (r: Ratio)
    requires
        0 < bid < ask,
        bid_size > 0,
        ask_size > 0,
    ensures
        (r.num as int, r.den as int) == microprice_of(bid as int, ask as int, bid_size as int, ask_size as int),
{
    assert(0 <= bid * ask_size <= 0x7fff_ffff_ffff_ffff * 0xffff_ffff_ffff_ffff) by (nonlinear_arith)
        requires
            0 < bid <= 0x7fff_ffff_ffff_ffff,
            0 < ask_size <= 0xffff_ffff_ffff_ffff,
    ;
    assert(0 <= ask * bid_size <= 0x7fff_ffff_ffff_ffff * 0xffff_ffff_ffff_ffff) by (nonlinear_arith)
        requires
            0 < ask <= 0x7fff_ffff_ffff_ffff,
            0 < bid_size <= 0xffff_ffff_ffff_ffff,
    ;
    Ratio {
        num: bid as u128 * ask_size as u128 + ask as u128 * bid_size as u128,
        den: bid_size as u128 + ask_size as u128,
    }
}

/// A quote to fit to.
#[derive(Clone, Copy, Debug, PartialEq, Eq, Structural)]
pub struct OtmQuote {
    pub expiry: Date,
    pub strike: i64,
    pub right: Right,
    /// Size-weighted price.
    pub price: Ratio,
    /// Seconds to expiry.
    pub seconds: u64,
}

/// Whether an option is at or out of the money.
pub open spec fn out_of_the_money(t: OptionTick, forward: (int, int)) -> bool {
    match t.right {
        Right::Call => t.strike * forward.1 >= forward.0,
        Right::Put => t.strike * forward.1 < forward.0,
    }
}

/// The quote of an option; none where it is in the money, its book is dark,
/// one-sided, crossed or empty, or it has expired.
pub open spec fn quote_of(t: OptionTick, forward: (int, int), now_ns: u64) -> Option<OtmQuote> {
    let seconds = seconds_until_of(t.expiry, FIT_EXPIRY_HOUR as int, now_ns);
    if out_of_the_money(t, forward) && 0 < t.bid < t.ask && t.bid_size > 0 && t.ask_size > 0 && seconds > 0 {
        Some(
            OtmQuote {
                expiry: t.expiry,
                strike: t.strike,
                right: t.right,
                price: ({
                    let (num, den) = microprice_of(t.bid as int, t.ask as int, t.bid_size as int, t.ask_size as int);
                    Ratio { num: num as u128, den: den as u128 }
                }),
                seconds: seconds as u64,
            },
        )
    } else {
        None
    }
}

/// The quotes of a product among the first `n` entries.
pub open spec fn quotes_of(md: MarketDataState, n: int, product: Seq<char>, forward: (int, int), now_ns: u64) -> Seq<
    OtmQuote,
>
    decreases n,
{
    if n <= 0 {
        Seq::<OtmQuote>::empty()
    } else {
        let before = quotes_of(md, n - 1, product, forward, now_ns);
        let e = md.entries@[n - 1];
        match quote_of(e.tick, forward, now_ns) {
            Some(q) => if e.product@ == product {
                before.push(q)
            } else {
                before
            },
            None => before,
        }
    }
}

fn read_quote(t: &OptionTick, forward: Fraction, now_ns: u64) -> (r: Option<OtmQuote>)
    requires
        t.expiry.valid(),
        0 < forward.den <= 0x1_ffff_fffe,
    ensures
        r == quote_of(*t, (forward.num as int, forward.den as int), now_ns),
{
    assert(-0x8000_0000_0000_0000 * 0x1_ffff_fffe <= t.strike * forward.den <= 0x8000_0000_0000_0000 * 0x1_ffff_fffe)
        by (nonlinear_arith)
        requires
            -0x8000_0000_0000_0000 <= t.strike <= 0x7fff_ffff_ffff_ffff,
            0 < forward.den <= 0x1_ffff_fffe,
    ;
    let scaled: i128 = t.strike as i128 * forward.den;
    let otm = match t.right {
        Right::Call => scaled >= forward.num,
        Right::Put => scaled < forward.num,
    };
    if !otm || t.bid <= 0 || t.ask <= 0 || t.bid >= t.ask || t.bid_size == 0 || t.ask_size == 0 {
        return None;
    }
    let price = microprice(t.bid, t.ask, t.bid_size, t.ask_size);
    let seconds: u64 = seconds_until(&t.expiry, FIT_EXPIRY_HOUR, now_ns);
    if seconds == 0 {
        return None;
    }
    Some(OtmQuote { expiry: t.expiry, strike: t.strike, right: t.right, price, seconds })
}

/// What a product's surface is fitted to.
#[derive(Debug)]
pub struct ChainSnapshot {
    pub forward: Fraction,
    pub spot: i64,
    pub quotes: Vec<OtmQuote>,
}

/// A product's forward, spot and quotes; none where its underlying has no
/// price or no option has a quote to fit to.
pub fn snapshot_chain(md: &MarketDataState, product: &str, now_ns: u64) -> (r: Option<ChainSnapshot>)
    requires
        md.wf(),
        md.entries@.len() <= 0xffff_ffff,
    ensures
        match r {
            Some(c) => {
                &&& MarketDataState::price_in(md.underlying@, product@) == Some(c.spot)
                &&& (c.forward.num as int, c.forward.den as int) == forward_of(*md, product@, c.spot)
                &&& c.quotes@ == quotes_of(
                    *md,
                    md.entries@.len() as int,
                    product@,
                    forward_of(*md, product@, c.spot),
                    now_ns,
                )
                &&& c.quotes@.len() > 0
            },
            None => match MarketDataState::price_in(md.underlying@, product@) {
                Some(spot) => quotes_of(
                    *md,
                    md.entries@.len() as int,
                    product@,
                    forward_of(*md, product@, spot),
                    now_ns,
                ).len() == 0,
                None => true,
            },
        },
{
    let spot: i64 = match md.underlying_price(product) {
        Some(p) => p,
        None => {
            return None;
        },
    };
    let forward = parity_forward(md, product, spot);
    let ghost f = (forward.num as int, forward.den as int);
    let mut quotes: Vec<OtmQuote> = Vec::new();
    let mut i: usize = 0;
    while i < md.entries.len()
        invariant
            md.wf(),
            i <= md.entries@.len(),
            f == (forward.num as int, forward.den as int),
            0 < forward.den <= 0x1_ffff_fffe,
            quotes@ == quotes_of(*md, i as int, product@, f, now_ns),
        decreases md.entries@.len() - i,
    {
        let e = &md.entries[i];
        if str_eq(e.product.as_str(), product) {
            match read_quote(&e.tick, forward, now_ns) {
                Some(q) => {
                    quotes.push(q);
                },
                None => {},
            }
        }
        i = i + 1;
    }
    if quotes.len() == 0 {
        return None;
    }
    Some(ChainSnapshot { forward, spot, quotes })
}

proof fn lemma_quotes(md: MarketDataState, n: int, product: Seq<char>, forward: (int, int), now_ns: u64, k: int)
    requires
        0 <= n <= md.entries@.len(),
        0 <= k < quotes_of(md, n, product, forward, now_ns).len(),
    ensures
        exists|i: int|
            0 <= i < n && (#[trigger] md.entries@[i]).product@ == product && quote_of(md.entries@[i].tick, forward, now_ns)
                == Some(quotes_of(md, n, product, forward, now_ns)[k]),
    decreases n,
{
    if n > 0 {
        let before = quotes_of(md, n - 1, product, forward, now_ns);
        if k < before.len() {
            lemma_quotes(md, n - 1, product, forward, now_ns, k);
        } else {
            let e = md.entries@[n - 1];
            assert(e.product@ == product);
        }
    }
}

/// Each point of a snapshot comes from an option of the product that is out
/// of the money, has not expired, and has a two-sided quote with size on both
/// sides; and the forward is close to the spot.
pub proof fn law_snapshot_holds_live_quotes(md: MarketDataState, product: Seq<char>, spot: i64, now_ns: u64, k: int)
    requires
        md.wf(),
        spot > 0,
        0 <= k < quotes_of(
            md,
            md.entries@.len() as int,
            product,
            forward_of(md, product, spot),
            now_ns,
        ).len(),
    ensures
        ({
            let forward = forward_of(md, product, spot);
            let q = quotes_of(md, md.entries@.len() as int, product, forward, now_ns)[k];
            &&& forward.1 > 0
            &&& -PARITY_LIMIT * forward.1 <= forward.0 - spot * forward.1 <= PARITY_LIMIT * forward.1
            &&& q.seconds > 0
            &&& match q.right {
                Right::Call => q.strike * forward.1 >= forward.0,
                Right::Put => q.strike * forward.1 < forward.0,
            }
            &&& exists|i: int|
                {
                    &&& 0 <= i < md.entries@.len()
                    &&& (#[trigger] md.entries@[i]).product@ == product
                    &&& md.entries@[i].tick.strike == q.strike
                    &&& md.entries@[i].tick.expiry == q.expiry
                    &&& md.entries@[i].tick.right == q.right
                    &&& 0 < md.entries@[i].tick.bid < md.entries@[i].tick.ask
                    &&& md.entries@[i].tick.bid_size > 0
                    &&& md.entries@[i].tick.ask_size > 0
                }
        }),
{
    let forward = forward_of(md, product, spot);
    let n = md.entries@.len() as int;
    lemma_quotes(md, n, product, forward, now_ns, k);
    let i = choose|i: int|
        0 <= i < n && (#[trigger] md.entries@[i]).product@ == product && quote_of(md.entries@[i].tick, forward, now_ns)
            == Some(quotes_of(md, n, product, forward, now_ns)[k]);
    lemma_day_number_bounds(md.entries@[i].tick.expiry);
}

/// Of the two options at a strike at most one is fitted to.
pub proof fn law_one_side_per_strike(c: OptionTick, p: OptionTick, forward: (int, int), now_ns: u64)
    requires
        c.right == Right::Call,
        p.right == Right::Put,
        c.strike == p.strike,
    ensures
        quote_of(c, forward, now_ns) is None || quote_of(p, forward, now_ns) is None,
{
}

// Groups

/// A point of a smile.
#[derive(Clone, Copy, Debug, PartialEq, Eq, Structural)]
pub struct SmilePoint {
    pub strike: i64,
    pub iv: Double,
    pub seconds: u64,
}

/// The points of an expiry.
#[derive(Debug)]
pub struct ExpiryGroup {
    pub expiry: Date,
    pub points: Vec<SmilePoint>,
}

/// Whether a volatility is believed.
pub open spec fn plausible(iv: Option<Double>) -> bool {
    iv matches Some(v) && Double { bits: MIN_IV_BITS }.less(v) && v.less(Double { bits: MAX_IV_BITS })
}

fn is_plausible(iv: Option<Double>) -> (r: bool)
    ensures
        r == plausible(iv),
{
    match iv {
        Some(v) => (Double { bits: MIN_IV_BITS }).lt(&v) && v.lt(&Double { bits: MAX_IV_BITS }),
        None => false,
    }
}

/// The points of an expiry, in order.
pub open spec fn points_of(quotes: Seq<OtmQuote>, ivs: Seq<Option<Double>>, expiry: Date) -> Seq<SmilePoint>
    decreases quotes.len(),
{
    if quotes.len() == 0 || ivs.len() != quotes.len() {
        Seq::<SmilePoint>::empty()
    } else {
        let before = points_of(quotes.drop_last(), ivs.drop_last(), expiry);
        let q = quotes.last();
        if q.expiry == expiry && plausible(ivs.last()) {
            before.push(SmilePoint { strike: q.strike, iv: ivs.last()->0, seconds: q.seconds })
        } else {
            before
        }
    }
}

/// Whether these are the points by expiry: each expiry that has points once,
/// with all its points.
pub open spec fn grouped(groups: Seq<ExpiryGroup>, quotes: Seq<OtmQuote>, ivs: Seq<Option<Double>>) -> bool {
    &&& forall|i: int, j: int|
        0 <= i < j < groups.len() ==> (#[trigger] groups[i]).expiry != (#[trigger] groups[j]).expiry
    &&& forall|i: int|
        0 <= i < groups.len() ==> (#[trigger] groups[i]).points@ == points_of(quotes, ivs, groups[i].expiry)
            && groups[i].points@.len() > 0
    &&& forall|d: Date| #[trigger]
        points_of(quotes, ivs, d).len() > 0 ==> exists|i: int| 0 <= i < groups.len() && (#[trigger] groups[i]).expiry == d
}

fn find_group(groups: &Vec<ExpiryGroup>, expiry: Date) -> (r: Option<usize>)
    ensures
        match r {
            Some(i) => i < groups@.len() && groups@[i as int].expiry == expiry,
            None => forall|i: int| 0 <= i < groups@.len() ==> (#[trigger] groups@[i]).expiry != expiry,
        },
{
    let mut i: usize = 0;
    while i < groups.len()
        invariant
            i <= groups@.len(),
            forall|j: int| 0 <= j < i ==> (#[trigger] groups@[j]).expiry != expiry,
        decreases groups@.len() - i,
    {
        let d = groups[i].expiry;
        if d.year == expiry.year && d.month == expiry.month && d.day == expiry.day {
            return Some(i);
        }
        i = i + 1;
    }
    None
}

/// Sorts quotes and their volatilities by expiry. Volatilities that are
/// missing or not plausible are left out.
pub fn group_by_expiry(quotes: &Vec<OtmQuote>, ivs: &Vec<Option<Double>>) -> (r: Vec<ExpiryGroup>)
    requires
        quotes@.len() == ivs@.len(),
    ensures
        grouped(r@, quotes@, ivs@),
{
    let mut groups: Vec<ExpiryGroup> = Vec::new();
    let mut i: usize = 0;
    assert(grouped(groups@, quotes@.take(0), ivs@.take(0)));
    while i < quotes.len()
        invariant
            i <= quotes@.len() == ivs@.len(),
            grouped(groups@, quotes@.take(i as int), ivs@.take(i as int)),
        decreases quotes@.len() - i,
    {
        let ghost qs = quotes@.take(i as int);
        let ghost vs = ivs@.take(i as int);
        let ghost qs1 = quotes@.take(i + 1);
        let ghost vs1 = ivs@.take(i + 1);
        let ghost before = groups@;
        proof {
            assert(qs1.drop_last() =~= qs);
            assert(vs1.drop_last() =~= vs);
            assert(qs1.last() == quotes@[i as int]);
            assert(vs1.last() == ivs@[i as int]);
            assert forall|d: Date| d != quotes@[i as int].expiry || !plausible(ivs@[i as int]) implies #[trigger] points_of(
                qs1,
                vs1,
                d,
            ) == points_of(qs, vs, d) by {}
        }
        let q = quotes[i];
        if is_plausible(ivs[i]) {
            let iv: Double = match ivs[i] {
                Some(v) => v,
                None => Double::zero(),
            };
            let point = SmilePoint { strike: q.strike, iv, seconds: q.seconds };
            assert(points_of(qs1, vs1, q.expiry) == points_of(qs, vs, q.expiry).push(point));
            match find_group(&groups, q.expiry) {
                Some(g) => {
                    groups[g].points.push(point);
                    proof {
                        assert(groups@.len() == before.len());
                        assert forall|k: int| 0 <= k < groups@.len() && k != g implies #[trigger] groups@[k] == before[k] by {}
                        assert forall|k: int| 0 <= k < groups@.len() implies (#[trigger] groups@[k]).expiry
                            == before[k].expiry by {}
                        assert forall|k: int| 0 <= k < groups@.len() implies (#[trigger] groups@[k]).points@ == points_of(
                            qs1,
                            vs1,
                            groups@[k].expiry,
                        ) && groups@[k].points@.len() > 0 by {
                            if k != g {
                                if k < g {
                                    assert(before[k].expiry != before[g as int].expiry);
                                } else {
                                    assert(before[g as int].expiry != before[k].expiry);
                                }
                                assert(points_of(qs1, vs1, before[k].expiry) == points_of(qs, vs, before[k].expiry));
                            }
                        }
                        assert forall|d: Date| #[trigger] points_of(qs1, vs1, d).len() > 0 implies exists|k: int|
                            0 <= k < groups@.len() && (#[trigger] groups@[k]).expiry == d by {
                            if d == q.expiry {
                                assert(groups@[g as int].expiry == d);
                            } else {
                                assert(points_of(qs, vs, d).len() > 0);
                                let k = choose|k: int| 0 <= k < before.len() && (#[trigger] before[k]).expiry == d;
                                assert(groups@[k].expiry == d);
                            }
                        }
                    }
                },
                None => {
                    proof {
                        if points_of(qs, vs, q.expiry).len() > 0 {
                            let k = choose|k: int| 0 <= k < before.len() && (#[trigger] before[k]).expiry == q.expiry;
                            assert(before[k].expiry != q.expiry);
                        }
                        assert(points_of(qs, vs, q.expiry) =~= Seq::<SmilePoint>::empty());
                    }
                    let mut points: Vec<SmilePoint> = Vec::new();
                    points.push(point);
                    assert(points@ =~= points_of(qs1, vs1, q.expiry));
                    groups.push(ExpiryGroup { expiry: q.expiry, points });
                    proof {
                        let g = before.len() as int;
                        assert forall|k: int| 0 <= k < g implies #[trigger] groups@[k] == before[k] by {}
                        assert forall|k: int| 0 <= k < groups@.len() implies (#[trigger] groups@[k]).points@ == points_of(
                            qs1,
                            vs1,
                            groups@[k].expiry,
                        ) && groups@[k].points@.len() > 0 by {
                            if k < g {
                                assert(before[k].expiry != q.expiry);
                                assert(points_of(qs1, vs1, before[k].expiry) == points_of(qs, vs, before[k].expiry));
                            }
                        }
                        assert forall|d: Date| #[trigger] points_of(qs1, vs1, d).len() > 0 implies exists|k: int|
                            0 <= k < groups@.len() && (#[trigger] groups@[k]).expiry == d by {
                            if d == q.expiry {
                                assert(groups@[g].expiry == d);
                            } else {
                                assert(points_of(qs, vs, d).len() > 0);
                                let k = choose|k: int| 0 <= k < before.len() && (#[trigger] before[k]).expiry == d;
                                assert(groups@[k].expiry == d);
                            }
                        }
                    }
                },
            }
        }
        i = i + 1;
    }
    assert(quotes@.take(i as int) =~= quotes@);
    assert(ivs@.take(i as int) =~= ivs@);
    groups
}

// Fits

/// What is done with a group.
#[derive(Clone, Copy, Debug, PartialEq, Eq, Structural)]
pub enum FitPlan {
    /// Not enough strikes; the failure is published.
    TooFewStrikes { n_strikes: usize },
    /// A fit over this range of strikes.
    Fit { seconds: u64, min_k: i64, max_k: i64 },
}

/// The lowest strike.
pub open spec fn lowest(points: Seq<SmilePoint>) -> i64
    decreases points.len(),
{
    if points.len() <= 1 {
        points[0].strike
    } else if points.last().strike < lowest(points.drop_last()) {
        points.last().strike
    } else {
        lowest(points.drop_last())
    }
}

/// The highest strike.
pub open spec fn highest(points: Seq<SmilePoint>) -> i64
    decreases points.len(),
{
    if points.len() <= 1 {
        points[0].strike
    } else if points.last().strike > highest(points.drop_last()) {
        points.last().strike
    } else {
        highest(points.drop_last())
    }
}

/// What is done with a group: it is fitted where it has enough strikes. The
/// range of strikes bounds where the fit may be used.
pub fn plan_fit(points: &Vec<SmilePoint>) -> (r: FitPlan)
    ensures
        r == (if points@.len() < MIN_STRIKES {
            FitPlan::TooFewStrikes { n_strikes: points@.len() as usize }
        } else {
            FitPlan::Fit { seconds: points@[0].seconds, min_k: lowest(points@), max_k: highest(points@) }
        }),
{
    if points.len() < MIN_STRIKES {
        return FitPlan::TooFewStrikes { n_strikes: points.len() };
    }
    let mut min_k: i64 = points[0].strike;
    let mut max_k: i64 = points[0].strike;
    let mut i: usize = 1;
    while i < points.len()
        invariant
            1 <= i <= points@.len(),
            min_k == lowest(points@.take(i as int)),
            max_k == highest(points@.take(i as int)),
        decreases points@.len() - i,
    {
        assert(points@.take(i + 1).last() == points@[i as int]);
        assert(points@.take(i + 1).drop_last() =~= points@.take(i as int));
        if points[i].strike < min_k {
            min_k = points[i].strike;
        }
        if points[i].strike > max_k {
            max_k = points[i].strike;
        }
        i = i + 1;
    }
    assert(points@.take(i as int) =~= points@);
    FitPlan::Fit { seconds: points[0].seconds, min_k, max_k }
}

/// Every strike that was fitted lies in the range.
pub proof fn law_range_covers_points(points: Seq<SmilePoint>, i: int)
    requires
        0 <= i < points.len(),
    ensures
        lowest(points) <= points[i].strike <= highest(points),
    decreases points.len(),
{
    if points.len() > 1 {
        if i < points.len() - 1 {
            law_range_covers_points(points.drop_last(), i);
            assert(points.drop_last()[i] == points[i]);
        } else {
            law_range_covers_points(points.drop_last(), 0);
        }
    }
}

/// A fitted surface.
#[derive(Clone, Copy, Debug, PartialEq, Eq, Structural)]
pub struct VolSurfaceCacheEntry {
    pub forward: Double,
    /// Years to expiry.
    pub tte: Double,
    pub alpha: Double,
    pub beta: Double,
    pub rho: Double,
    pub nu: Double,
}

/// Names a surface: product, expiry as `YYYYMMDD`, `C` or `P`.
#[derive(Debug)]
pub struct SurfaceKey {
    pub product: String,
    pub expiry: String,
    pub side: char,
}

impl TableKey for SurfaceKey {
    type Id = (Seq<char>, Seq<char>, char);

    open spec fn id(&self) -> (Seq<char>, Seq<char>, char) {
        (self.product@, self.expiry@, self.side)
    }

    fn same(&self, other: &SurfaceKey) -> (r: bool) {
        self.side == other.side && str_eq(self.product.as_str(), other.product.as_str()) && str_eq(
            self.expiry.as_str(),
            other.expiry.as_str(),
        )
    }
}

/// The surfaces that were fitted last.
#[derive(Debug)]
pub struct VolSurfaceCache {
    pub surfaces: Table<SurfaceKey, VolSurfaceCacheEntry>,
}

impl VolSurfaceCache {
    /// Nothing was fitted.
    pub fn new() -> (r: VolSurfaceCache)
        ensures
            r.surfaces.wf(),
            r.surfaces@ == Map::<(Seq<char>, Seq<char>, char), VolSurfaceCacheEntry>::empty(),
    {
        VolSurfaceCache { surfaces: Table::new() }
    }

    /// Keeps a fit, for both sides.
    pub fn store(&mut self, product: &str, expiry: &str, entry: VolSurfaceCacheEntry)
        requires
            old(self).surfaces.wf(),
        ensures
            final(self).surfaces.wf(),
            final(self).surfaces@ == old(self).surfaces@.insert((product@, expiry@, 'C'), entry).insert(
                (product@, expiry@, 'P'),
                entry,
            ),
    {
        self.surfaces.insert(SurfaceKey { product: product.to_owned(), expiry: expiry.to_owned(), side: 'C' }, entry);
        self.surfaces.insert(SurfaceKey { product: product.to_owned(), expiry: expiry.to_owned(), side: 'P' }, entry);
    }

    /// The surface of one side.
    pub fn get(&self, product: &str, expiry: &str, right: Right) -> (r: Option<VolSurfaceCacheEntry>)
        requires
            self.surfaces.wf(),
        ensures
            ({
                let id = (
                    product@,
                    expiry@,
                    match right {
                        Right::Call => 'C',
                        Right::Put => 'P',
                    },
                );
                match r {
                    Some(e) => self.surfaces@.dom().contains(id) && self.surfaces@[id] == e,
                    None => !self.surfaces@.dom().contains(id),
                }
            }),
    {
        let side: char = match right {
            Right::Call => 'C',
            Right::Put => 'P',
        };
        let key = SurfaceKey { product: product.to_owned(), expiry: expiry.to_owned(), side };
        match self.surfaces.get(&key) {
            Some(e) => Some(*e),
            None => None,
        }
    }

    /// The forward of a product's oldest surface: what the window of strikes
    /// is centered on.
    pub fn forward_for(&self, product: &str) -> (r: Option<Double>)
        ensures
            match r {
                Some(f) => exists|i: int|
                    0 <= i < self.surfaces.entries@.len() && (#[trigger] self.surfaces.entries@[i]).0.product@ == product@
                        && self.surfaces.entries@[i].1.forward == f && forall|j: int|
                        0 <= j < i ==> (#[trigger] self.surfaces.entries@[j]).0.product@ != product@,
                None => forall|j: int|
                    0 <= j < self.surfaces.entries@.len() ==> (#[trigger] self.surfaces.entries@[j]).0.product@ != product@,
            },
    {
        let mut i: usize = 0;
        while i < self.surfaces.entries.len()
            invariant
                i <= self.surfaces.entries@.len(),
                forall|j: int| 0 <= j < i ==> (#[trigger] self.surfaces.entries@[j]).0.product@ != product@,
            decreases self.surfaces.entries@.len() - i,
        {
            if str_eq(self.surfaces.entries[i].0.product.as_str(), product) {
                return Some(self.surfaces.entries[i].1.forward);
            }
            i = i + 1;
        }
        None
    }
}

/// Calls and puts of an expiry read the same surface.
pub proof fn law_sides_share_a_surface(
    before: Map<(Seq<char>, Seq<char>, char), VolSurfaceCacheEntry>,
    product: Seq<char>,
    expiry: Seq<char>,
    entry: VolSurfaceCacheEntry,
)
    ensures
        ({
            let after = before.insert((product, expiry, 'C'), entry).insert((product, expiry, 'P'), entry);
            after[(product, expiry, 'C')] == entry && after[(product, expiry, 'P')] == entry
        }),
{
}

/// What a fit came to.
#[derive(Clone, Copy, Debug, PartialEq, Eq, Structural)]
pub struct SabrFit {
    pub alpha: Double,
    pub beta: Double,
    pub rho: Double,
    pub nu: Double,
    pub rmse: Double,
    pub n_points: usize,
}

/// What is published of a surface.
#[derive(Debug)]
pub enum SurfaceEvent {
    Fitted {
        expiry: String,
        /// `C` or `P`.
        side: &'static str,
        spot_at_fit: i64,
        fit: SabrFit,
        calibrated_min_k: i64,
        calibrated_max_k: i64,
    },
    Failed { expiry: String, reason: &'static str, n_strikes: usize },
}

/// Whether `e` publishes a fit for one side.
pub open spec fn fitted_event(
    e: SurfaceEvent,
    day: Seq<char>,
    side: Seq<char>,
    spot: i64,
    fit: SabrFit,
    lo: i64,
    hi: i64,
) -> bool {
    e matches SurfaceEvent::Fitted { expiry, side: s, spot_at_fit, fit: f, calibrated_min_k, calibrated_max_k }
        && expiry@ == day && s@ == side && spot_at_fit == spot && f == fit && calibrated_min_k == lo && calibrated_max_k
        == hi
}

/// Whether `e` publishes that there is no fit.
pub open spec fn failed_event(e: SurfaceEvent, day: Seq<char>, reason: Seq<char>, n: int) -> bool {
    e matches SurfaceEvent::Failed { expiry, reason: why, n_strikes } && expiry@ == day && why@ == reason && n_strikes == n
}

/// What is published of a group, and, where it was fitted, kept: one event
/// per side, with the same parameters. `fit` is what the fit came to, where
/// there was one.
pub fn publish_fit(
    cache: &mut VolSurfaceCache,
    product: &str,
    group: &ExpiryGroup,
    spot: i64,
    forward: Double,
    tte: Double,
    fit: Option<SabrFit>,
) -> (r: Vec<SurfaceEvent>)
    requires
        old(cache).surfaces.wf(),
        group.expiry.valid(),
    ensures
        final(cache).surfaces.wf(),
        ({
            let day = date_text(group.expiry.year as int, group.expiry.month as int, group.expiry.day as int);
            if group.points@.len() < MIN_STRIKES {
                &&& final(cache).surfaces@ == old(cache).surfaces@
                &&& r@.len() == 1
                &&& failed_event(r@[0], day, "too_few_strikes"@, group.points@.len() as int)
            } else if fit is None {
                &&& final(cache).surfaces@ == old(cache).surfaces@
                &&& r@.len() == 1
                &&& failed_event(r@[0], day, "fit_rejected"@, group.points@.len() as int)
            } else {
                let f = fit->0;
                let entry = VolSurfaceCacheEntry {
                    forward,
                    tte,
                    alpha: f.alpha,
                    beta: f.beta,
                    rho: f.rho,
                    nu: f.nu,
                };
                let (lo, hi) = (lowest(group.points@), highest(group.points@));
                &&& final(cache).surfaces@ == old(cache).surfaces@.insert((product@, day, 'C'), entry).insert(
                    (product@, day, 'P'),
                    entry,
                )
                &&& r@.len() == 2
                &&& fitted_event(r@[0], day, "C"@, spot, f, lo, hi)
                &&& fitted_event(r@[1], day, "P"@, spot, f, lo, hi)
            }
        }),
{
    let expiry = format_yyyymmdd(&group.expiry);
    let mut out: Vec<SurfaceEvent> = Vec::new();
    match plan_fit(&group.points) {
        FitPlan::TooFewStrikes { n_strikes } => {
            out.push(SurfaceEvent::Failed { expiry, reason: "too_few_strikes", n_strikes });
        },
        FitPlan::Fit { seconds: _, min_k, max_k } => match fit {
            None => {
                out.push(SurfaceEvent::Failed { expiry, reason: "fit_rejected", n_strikes: group.points.len() });
            },
            Some(f) => {
                let entry = VolSurfaceCacheEntry {
                    forward,
                    tte,
                    alpha: f.alpha,
                    beta: f.beta,
                    rho: f.rho,
                    nu: f.nu,
                };
                cache.store(product, expiry.as_str(), entry);
                out.push(
                    SurfaceEvent::Fitted {
                        expiry: expiry.clone(),
                        side: "C",
                        spot_at_fit: spot,
                        fit: f,
                        calibrated_min_k: min_k,
                        calibrated_max_k: max_k,
                    },
                );
                out.push(
                    SurfaceEvent::Fitted {
                        expiry,
                        side: "P",
                        spot_at_fit: spot,
                        fit: f,
                        calibrated_min_k: min_k,
                        calibrated_max_k: max_k,
                    },
                );
            },
        },
    }
    out
}

/// The size-weighted price leans to the side that is quoted for less: its
/// distances from the quotes are in the proportion of the sizes.
pub proof fn law_microprice_leans_to_the_thin_side(bid: int, ask: int, bid_size: int, ask_size: int)
    ensures
        ({
            let (num, den) = microprice_of(bid, ask, bid_size, ask_size);
            &&& den == bid_size + ask_size
            &&& (num - bid * den) * ask_size == (ask * den - num) * bid_size
            &&& num - bid * den == (ask - bid) * bid_size
        }),
{
    let (num, den) = microprice_of(bid, ask, bid_size, ask_size);
    assert(num - bid * den == (ask - bid) * bid_size) by (nonlinear_arith)
        requires
            num == bid * ask_size + ask * bid_size,
            den == bid_size + ask_size,
    ;
    assert(ask * den - num == (ask - bid) * ask_size) by (nonlinear_arith)
        requires
            num == bid * ask_size + ask * bid_size,
            den == bid_size + ask_size,
    ;
    let w = ask - bid;
    assert((w * bid_size) * ask_size == (w * ask_size) * bid_size) by (nonlinear_arith);
}

/// Whether an option is fitted: it is out of the money, both sides are quoted
/// and do not cross, and it has at least a second to live until eight in the
/// evening of its last day.
pub open spec fn fittable(t: OptionTick, forward: (int, int), now_ns: u64) -> bool {
    &&& t.right is Call ==> t.strike * forward.1 >= forward.0
    &&& t.right is Put ==> t.strike * forward.1 < forward.0
    &&& 0 < t.bid < t.ask
    &&& t.bid_size > 0
    &&& t.ask_size > 0
    &&& (day_number(t.expiry) * 86400 + 20 * 3600) * 1_000_000_000 - now_ns >= 1_000_000_000
}

/// Every option of the product that can be fitted is taken, at its
/// size-weighted price, and no option that cannot be.
pub proof fn law_fittable_options_are_taken(
    md: MarketDataState,
    n: int,
    product: Seq<char>,
    forward: (int, int),
    now_ns: u64,
    i: int,
)
    requires
        0 <= i < n <= md.entries@.len(),
        md.entries@[i].product@ == product,
    ensures
        fittable(md.entries@[i].tick, forward, now_ns) <==> quote_of(md.entries@[i].tick, forward, now_ns) is Some,
        fittable(md.entries@[i].tick, forward, now_ns) ==> exists|k: int| #![trigger quotes_of(
            md,
            n,
            product,
            forward,
            now_ns,
        )[k]]
            0 <= k < quotes_of(md, n, product, forward, now_ns).len() && {
                let q = quotes_of(md, n, product, forward, now_ns)[k];
                let t = md.entries@[i].tick;
                &&& q.expiry == t.expiry
                &&& q.strike == t.strike
                &&& q.right == t.right
                &&& q.price.num == t.bid * t.ask_size + t.ask * t.bid_size
                &&& q.price.den == t.bid_size + t.ask_size
            },
    decreases n,
{
    let t = md.entries@[i].tick;
    lemma_quote_fits(t, forward, now_ns);
    if fittable(t, forward, now_ns) {
        let before = quotes_of(md, n - 1, product, forward, now_ns);
        let after = quotes_of(md, n, product, forward, now_ns);
        if i == n - 1 {
            assert(after[before.len() as int].strike == t.strike);
        } else {
            law_fittable_options_are_taken(md, n - 1, product, forward, now_ns, i);
            let k = choose|k: int| #![trigger before[k]]
                0 <= k < before.len() && {
                    let q = before[k];
                    &&& q.expiry == t.expiry
                    &&& q.strike == t.strike
                    &&& q.right == t.right
                    &&& q.price.num == t.bid * t.ask_size + t.ask * t.bid_size
                    &&& q.price.den == t.bid_size + t.ask_size
                };
            assert(after[k] == before[k]);
        }
    }
}

proof fn lemma_quote_fits(t: OptionTick, forward: (int, int), now_ns: u64)
    ensures
        fittable(t, forward, now_ns) <==> quote_of(t, forward, now_ns) is Some,
        quote_of(t, forward, now_ns) matches Some(q) ==> q.price.num == t.bid * t.ask_size + t.ask * t.bid_size
            && q.price.den == t.bid_size + t.ask_size,
{
    let (b, a, x, y) = (t.bid as int, t.ask as int, t.bid_size as int, t.ask_size as int);
    assert(0 <= b <= 0x7fff_ffff_ffff_ffff && 0 <= y <= 0xffff_ffff_ffff_ffff ==> 0 <= b * y
        <= 0x7fff_ffff_ffff_ffff_0000_0000_0000_0000) by (nonlinear_arith);
    assert(0 <= a <= 0x7fff_ffff_ffff_ffff && 0 <= x <= 0xffff_ffff_ffff_ffff ==> 0 <= a * x
        <= 0x7fff_ffff_ffff_ffff_0000_0000_0000_0000) by (nonlinear_arith);
    law_seconds_left_reach_the_hour(t.expiry, 20, now_ns);
}

/// Both ends of the range of strikes are strikes that were quoted.
pub proof fn law_range_ends_are_strikes(points: Seq<SmilePoint>)
    requires
        points.len() > 0,
    ensures
        exists|i: int| 0 <= i < points.len() && (#[trigger] points[i]).strike == lowest(points),
        exists|i: int| 0 <= i < points.len() && (#[trigger] points[i]).strike == highest(points),
    decreases points.len(),
{
    let n = points.len() - 1;
    assert(points[n] == points.last());
    if points.len() == 1 {
        assert(points[0].strike == lowest(points));
        assert(points[0].strike == highest(points));
    } else {
        let rest = points.drop_last();
        law_range_ends_are_strikes(rest);
        let i = choose|i: int| 0 <= i < rest.len() && (#[trigger] rest[i]).strike == lowest(rest);
        let j = choose|j: int| 0 <= j < rest.len() && (#[trigger] rest[j]).strike == highest(rest);
        assert(points[i] == rest[i] && points[j] == rest[j]);
        assert(points[n].strike == points.last().strike);
    }
}

/// A volatility counts between a tenth of a percent and five hundred percent,
/// both ends left out.
pub proof fn law_volatilities_are_plausible(v: Double)
    ensures
        plausible(Some(v)) <==> !v.nan() && 0x3f50_624d_d2f1_a9fc < v.rank() < 0x4014_0000_0000_0000,
        !plausible(None),
{
}

/// Every quote of the expiry whose volatility counts is a point of its smile,
/// at its own strike and with its own volatility.
pub proof fn law_plausible_quotes_are_points(quotes: Seq<OtmQuote>, ivs: Seq<Option<Double>>, i: int)
    requires
        quotes.len() == ivs.len(),
        0 <= i < quotes.len(),
        plausible(ivs[i]),
    ensures
        points_of(quotes, ivs, quotes[i].expiry).contains(
            SmilePoint { strike: quotes[i].strike, iv: ivs[i]->0, seconds: quotes[i].seconds },
        ),
    decreases quotes.len(),
{
    let (rest, some) = (quotes.drop_last(), ivs.drop_last());
    let n = quotes.len() - 1;
    let d = quotes[i].expiry;
    let before = points_of(rest, some, d);
    let after = points_of(quotes, ivs, d);
    let p = SmilePoint { strike: quotes[i].strike, iv: ivs[i]->0, seconds: quotes[i].seconds };
    assert(quotes.last() == quotes[n] && ivs.last() == ivs[n]);
    if i == n {
        assert(after[before.len() as int] == p);
    } else {
        assert(rest[i] == quotes[i] && some[i] == ivs[i]);
        law_plausible_quotes_are_points(rest, some, i);
        let k = before.index_of(p);
        assert(after[k] == p);
    }
}

/// Every point of a smile is a quote of its expiry whose volatility counts.
pub proof fn law_points_are_plausible_quotes(quotes: Seq<OtmQuote>, ivs: Seq<Option<Double>>, expiry: Date, k: int)
    requires
        quotes.len() == ivs.len(),
        0 <= k < points_of(quotes, ivs, expiry).len(),
    ensures
        exists|i: int| #![trigger quotes[i]]
            0 <= i < quotes.len() && quotes[i].expiry == expiry && plausible(ivs[i]) && points_of(quotes, ivs, expiry)[k]
                == (SmilePoint { strike: quotes[i].strike, iv: ivs[i]->0, seconds: quotes[i].seconds }),
    decreases quotes.len(),
{
    if quotes.len() > 0 {
        let (rest, some) = (quotes.drop_last(), ivs.drop_last());
        let n = quotes.len() - 1;
        let before = points_of(rest, some, expiry);
        assert(quotes.last() == quotes[n] && ivs.last() == ivs[n]);
        if k < before.len() {
            law_points_are_plausible_quotes(rest, some, expiry, k);
            let i = choose|i: int| #![trigger rest[i]]
                0 <= i < rest.len() && rest[i].expiry == expiry && plausible(some[i]) && before[k] == (SmilePoint {
                    strike: rest[i].strike,
                    iv: some[i]->0,
                    seconds: rest[i].seconds,
                });
            assert(quotes[i] == rest[i] && ivs[i] == some[i]);
        } else {
            assert(quotes[n].expiry == expiry);
        }
    }
}

/// Every quote whose volatility counts is fitted once: in the group of its
/// expiry, and in no other.
pub proof fn law_quotes_are_fitted_by_expiry(
    groups: Seq<ExpiryGroup>,
    quotes: Seq<OtmQuote>,
    ivs: Seq<Option<Double>>,
    i: int,
)
    requires
        grouped(groups, quotes, ivs),
        quotes.len() == ivs.len(),
        0 <= i < quotes.len(),
        plausible(ivs[i]),
    ensures
        exists|g: int| #![trigger groups[g]]
            0 <= g < groups.len() && groups[g].expiry == quotes[i].expiry && groups[g].points@.contains(
                SmilePoint { strike: quotes[i].strike, iv: ivs[i]->0, seconds: quotes[i].seconds },
            ) && forall|h: int| 0 <= h < groups.len() && h != g ==> (#[trigger] groups[h]).expiry != quotes[i].expiry,
{
    law_plausible_quotes_are_points(quotes, ivs, i);
    let d = quotes[i].expiry;
    assert(points_of(quotes, ivs, d).len() > 0);
    let g = choose|g: int| 0 <= g < groups.len() && (#[trigger] groups[g]).expiry == d;
    assert(groups[g].points@ == points_of(quotes, ivs, d));
    assert forall|h: int| 0 <= h < groups.len() && h != g implies (#[trigger] groups[h]).expiry != d by {
        if h < g {
            assert(groups[h].expiry != groups[g].expiry);
        } else {
            assert(groups[g].expiry != groups[h].expiry);
        }
    }
}

/// What is told of a fit is the fit: its day, its side, the price it was made
/// at, and the strikes it covers.
pub proof fn law_fits_are_told_as_made(e: SurfaceEvent, day: Seq<char>, side: Seq<char>, spot: i64, fit: SabrFit, lo: i64, hi: i64)
    requires
        fitted_event(e, day, side, spot, fit, lo, hi),
    ensures
        e matches SurfaceEvent::Fitted { expiry, side: s, spot_at_fit, fit: f, calibrated_min_k, calibrated_max_k }
            && expiry@ == day && s@ == side && spot_at_fit == spot && f.alpha == fit.alpha && f.beta == fit.beta && f.rho
            == fit.rho && f.nu == fit.nu && f.rmse == fit.rmse && f.n_points == fit.n_points && calibrated_min_k == lo
            && calibrated_max_k == hi,
{
}

} // verus!
