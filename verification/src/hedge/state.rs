//! One product's hedge position.

use crate::money::{cut, cut_product, cut_sum, fits};
use vstd::prelude::*;

verus! {

/// One product's hedge position. A positive quantity is long.
#[derive(Debug, Clone, Copy, PartialEq, Eq, Structural)]
pub struct HedgeState {
    pub hedge_qty: i32,
    /// Average price at which the position was entered, in billionths; 0
    /// where there is none.
    pub avg_entry_f: i64,
    /// Profit of what was closed, in billionths of a billionth of a dollar.
    pub realized_pnl_usd: i128,
    /// When a fill or a reconciliation last confirmed the position, in
    /// nanoseconds since the Unix epoch; 0 for never.
    pub last_update_ns: u64,
}

/// `a / b` rounded to the nearest integer, halves up.
pub open spec fn nearest(a: int, b: int) -> int {
    if b > 0 {
        (2 * a + b) / (2 * b)
    } else {
        (2 * (-a) - b) / (2 * (-b))
    }
}

/// The profit of closing `qty` contracts, long where it is positive, that
/// were entered at one price at another; the multiplier is in billionths of a
/// dollar per point, as prices are of a point.
pub open spec fn closing_pnl(entry: int, price: int, qty: int, multiplier: int) -> int {
    (price - entry) * qty * multiplier
}

/// The realized profit once `qty` contracts of a position are closed.
pub open spec fn banked(s: HedgeState, price: int, qty: int, multiplier: int) -> i128 {
    cut(s.realized_pnl_usd + cut(closing_pnl(s.avg_entry_f as int, price, qty, multiplier)))
}

/// A position after `effect` contracts were bought, or sold where it is
/// negative, at a price. Adding to a position averages the entry price;
/// reducing it realizes the profit of the part that was closed; crossing zero
/// closes it whole and enters the rest at the price.
pub open spec fn filled(s: HedgeState, effect: int, price: int, multiplier: int, now_ns: u64) -> HedgeState {
    let qty = s.hedge_qty as int;
    let after = qty + effect;
    if after == 0 {
        HedgeState {
            hedge_qty: 0,
            avg_entry_f: 0,
            realized_pnl_usd: banked(s, price, qty, multiplier),
            last_update_ns: now_ns,
        }
    } else if (qty >= 0 && effect >= 0) || (qty <= 0 && effect <= 0) {
        HedgeState {
            hedge_qty: after as i32,
            avg_entry_f: nearest(s.avg_entry_f * qty + price * effect, after) as i64,
            realized_pnl_usd: s.realized_pnl_usd,
            last_update_ns: now_ns,
        }
    } else if (qty > 0) == (after > 0) {
        HedgeState {
            hedge_qty: after as i32,
            avg_entry_f: s.avg_entry_f,
            realized_pnl_usd: banked(s, price, -effect, multiplier),
            last_update_ns: now_ns,
        }
    } else {
        HedgeState {
            hedge_qty: after as i32,
            avg_entry_f: price as i64,
            realized_pnl_usd: banked(s, price, qty, multiplier),
            last_update_ns: now_ns,
        }
    }
}

proof fn lemma_average_bound(a: i64, b: i64, p: int, q: int)
    requires
        0 <= p <= 0x8000_0000,
        0 <= q <= 0x8000_0000,
        p + q > 0,
    ensures
        i64::MIN <= nearest(a * p + b * q, p + q) <= i64::MAX,
        i64::MIN * (p + q) <= a * p + b * q <= i64::MAX * (p + q),
{
    let n = p + q;
    assert(i64::MIN * n <= a * p + b * q <= i64::MAX * n) by (nonlinear_arith)
        requires
            i64::MIN <= a <= i64::MAX,
            i64::MIN <= b <= i64::MAX,
            p >= 0,
            q >= 0,
            n == p + q,
    ;
    let t = a * p + b * q;
    assert(i64::MIN <= (2 * t + n) / (2 * n) <= i64::MAX) by (nonlinear_arith)
        requires
            i64::MIN * n <= t <= i64::MAX * n,
            n > 0,
    ;
}

fn nearest_i128(a: i128, b: i128) -> (r: i128)
    requires
        -0x1_0000_0000_0000_0000_0000_0000_0000 < a < 0x1_0000_0000_0000_0000_0000_0000_0000,
        0 < b < 0x1_0000_0000_0000,
    ensures
        r == nearest(a as int, b as int),
{
    let n: i128 = 2 * a + b;
    let d: i128 = 2 * b;
    if n >= 0 {
        n / d
    } else {
        // Division rounds toward zero; the quotient wanted is the floor.
        let m: i128 = -n;
        let q: i128 = m / d;
        let exact = m % d == 0;
        let r: i128 = if exact {
            -q
        } else {
            -q - 1
        };
        proof {
            vstd::arithmetic::div_mod::lemma_fundamental_div_mod(m as int, d as int);
            if exact {
                assert(n as int == d as int * (-q)) by (nonlinear_arith)
                    requires
                        m as int == d as int * q as int,
                        m == -n,
                ;
                vstd::arithmetic::div_mod::lemma_fundamental_div_mod_converse(n as int, d as int, -q as int, 0);
            } else {
                let rem = m as int % d as int;
                assert(n as int == (-q - 1) * d as int + (d as int - rem)) by (nonlinear_arith)
                    requires
                        m as int == d as int * q as int + rem,
                        m == -n,
                ;
                vstd::arithmetic::div_mod::lemma_fundamental_div_mod_converse(n as int, d as int, -q - 1, d as int - rem);
            }
        }
        r
    }
}

impl HedgeState {
    /// No position.
    pub fn new() -> (r: HedgeState)
        ensures
            r == (HedgeState { hedge_qty: 0, avg_entry_f: 0, realized_pnl_usd: 0, last_update_ns: 0 }),
    {
        HedgeState { hedge_qty: 0, avg_entry_f: 0, realized_pnl_usd: 0, last_update_ns: 0 }
    }

    /// Whether a fill keeps the quantity within its type.
    pub open spec fn can_fill(self, effect: int) -> bool {
        &&& i32::MIN <= self.hedge_qty + effect <= i32::MAX
        &&& i32::MIN < effect <= i32::MAX
    }

    /// The signed size of a fill.
    pub open spec fn effect(is_buy: bool, qty: u32) -> int {
        if is_buy {
            qty as int
        } else {
            -(qty as int)
        }
    }

    /// Whether a fill keeps the quantity in range.
    pub fn takes_fill(&self, is_buy: bool, qty: u32) -> (r: bool)
        ensures
            r == self.can_fill(HedgeState::effect(is_buy, qty)),
    {
        let effect: i64 = if is_buy {
            qty as i64
        } else {
            -(qty as i64)
        };
        let after: i64 = self.hedge_qty as i64 + effect;
        after >= i32::MIN as i64 && after <= i32::MAX as i64 && effect > i32::MIN as i64 && effect <= i32::MAX as i64
    }

    /// Applies a fill.
    pub fn apply_fill(&mut self, is_buy: bool, qty: u32, price: i64, multiplier: i64, now_ns: u64)
        requires
            old(self).can_fill(HedgeState::effect(is_buy, qty)),
        ensures
            *final(self) == filled(*old(self), HedgeState::effect(is_buy, qty), price as int, multiplier as int, now_ns),
    {
        let held: i32 = self.hedge_qty;
        let effect: i32 = if is_buy {
            qty as i32
        } else {
            -(qty as i32)
        };
        let after: i32 = held + effect;
        let entry: i64 = self.avg_entry_f;
        self.last_update_ns = now_ns;
        if after == 0 {
            self.realized_pnl_usd = cut_sum(self.realized_pnl_usd, pnl_of(entry, price, held as i64, multiplier));
            self.hedge_qty = 0;
            self.avg_entry_f = 0;
        } else if (held >= 0 && effect >= 0) || (held <= 0 && effect <= 0) {
            self.hedge_qty = after;
            self.avg_entry_f = average(entry, held, price, effect);
        } else if (held > 0) == (after > 0) {
            self.realized_pnl_usd = cut_sum(self.realized_pnl_usd, pnl_of(entry, price, -(effect as i64), multiplier));
            self.hedge_qty = after;
        } else {
            self.realized_pnl_usd = cut_sum(self.realized_pnl_usd, pnl_of(entry, price, held as i64, multiplier));
            self.hedge_qty = after;
            self.avg_entry_f = price;
        }
    }

    /// The open position's profit at a price, zero where there is none or
    /// the price is not positive.
    pub open spec fn mtm(self, current_f: int, multiplier: int) -> i128 {
        if self.hedge_qty == 0 || current_f <= 0 {
            0
        } else {
            cut(closing_pnl(self.avg_entry_f as int, current_f, self.hedge_qty as int, multiplier))
        }
    }

    /// The open position's profit at a price.
    pub fn mtm_usd(&self, current_f: i64, multiplier: i64) -> (r: i128)
        ensures
            r == self.mtm(current_f as int, multiplier as int),
    {
        if self.hedge_qty == 0 || current_f <= 0 {
            0
        } else {
            pnl_of(self.avg_entry_f, current_f, self.hedge_qty as i64, multiplier)
        }
    }

    /// Takes over the broker's position. What was realized stays.
    pub fn replace(&mut self, qty: i32, avg_f: i64, now_ns: u64)
        ensures
            *final(self) == (HedgeState {
                hedge_qty: qty,
                avg_entry_f: avg_f,
                last_update_ns: now_ns,
                realized_pnl_usd: old(self).realized_pnl_usd,
            }),
    {
        self.last_update_ns = now_ns;
        self.hedge_qty = qty;
        self.avg_entry_f = avg_f;
    }

    /// Notes that the position was confirmed.
    pub fn touch_freshness(&mut self, now_ns: u64)
        ensures
            *final(self) == (HedgeState { last_update_ns: now_ns, ..*old(self) }),
    {
        self.last_update_ns = now_ns;
    }

    /// Whether the position was confirmed no longer than `max_age` ago. One
    /// that never was is not fresh.
    pub open spec fn fresh(self, now_ns: u64, max_age_ns: u64) -> bool {
        self.last_update_ns != 0 && now_ns - self.last_update_ns <= max_age_ns
    }

    /// Whether the position was confirmed recently enough to be relied on.
    pub fn is_fresh(&self, now_ns: u64, max_age_ns: u64) -> (r: bool)
        ensures
            r == self.fresh(now_ns, max_age_ns),
    {
        self.last_update_ns != 0 && (now_ns <= self.last_update_ns || now_ns - self.last_update_ns <= max_age_ns)
    }
}

impl Default for HedgeState {
    fn default() -> (r: HedgeState)
        ensures
            r == (HedgeState { hedge_qty: 0, avg_entry_f: 0, realized_pnl_usd: 0, last_update_ns: 0 }),
    {
        HedgeState::new()
    }
}

fn pnl_of(entry: i64, price: i64, qty: i64, multiplier: i64) -> (r: i128)
    requires
        -0x8000_0000 <= qty <= 0x8000_0000,
    ensures
        r == cut(closing_pnl(entry as int, price as int, qty as int, multiplier as int)),
{
    let d: i128 = price as i128 - entry as i128;
    assert(-0x8000_0000_0000_0000_0000_0000 <= d * qty <= 0x8000_0000_0000_0000_0000_0000) by (nonlinear_arith)
        requires
            -0x1_0000_0000_0000_0000 <= d <= 0x1_0000_0000_0000_0000,
            -0x8000_0000 <= qty <= 0x8000_0000,
    ;
    cut_product(d * qty as i128, multiplier as i128)
}

fn average(entry: i64, held: i32, price: i64, effect: i32) -> (r: i64)
    requires
        (held >= 0 && effect >= 0) || (held <= 0 && effect <= 0),
        held + effect != 0,
        i32::MIN < effect,
        i32::MIN <= held + effect <= i32::MAX,
    ensures
        r == nearest(entry * held + price * effect, held + effect),
{
    let p: i128 = if held >= 0 {
        held as i128
    } else {
        -(held as i128)
    };
    let q: i128 = if effect >= 0 {
        effect as i128
    } else {
        -(effect as i128)
    };
    proof {
        lemma_average_bound(entry, price, p as int, q as int);
        assert(-0x4000_0000_0000_0000_0000_0000 <= entry * p <= 0x4000_0000_0000_0000_0000_0000) by (nonlinear_arith)
            requires
                i64::MIN <= entry <= i64::MAX,
                0 <= p <= 0x8000_0000,
        ;
        assert(-0x4000_0000_0000_0000_0000_0000 <= price * q <= 0x4000_0000_0000_0000_0000_0000) by (nonlinear_arith)
            requires
                i64::MIN <= price <= i64::MAX,
                0 <= q <= 0x8000_0000,
        ;
    }
    let total: i128 = (entry as i128) * p + (price as i128) * q;
    let r: i128 = nearest_i128(total, p + q);
    proof {
        if held < 0 || effect < 0 {
            assert(entry * held + price * effect == -total) by (nonlinear_arith)
                requires
                    held == -p,
                    effect == -q,
                    total == entry * p + price * q,
            ;
        }
    }
    r as i64
}

/// The first fill from flat sets the entry price and realizes nothing.
pub proof fn law_opening_realizes_nothing(s: HedgeState, effect: int, price: int, multiplier: int, now_ns: u64)
    requires
        s.hedge_qty == 0,
        effect != 0,
        i32::MIN <= effect <= i32::MAX,
        i64::MIN <= price <= i64::MAX,
    ensures
        filled(s, effect, price, multiplier, now_ns).hedge_qty == effect,
        filled(s, effect, price, multiplier, now_ns).avg_entry_f == price,
        filled(s, effect, price, multiplier, now_ns).realized_pnl_usd == s.realized_pnl_usd,
{
    assert(s.avg_entry_f * 0 == 0);
    lemma_nearest_exact(price, effect);
}

/// A rounded quotient is off by at most a half.
proof fn lemma_nearest_close(a: int, b: int)
    requires
        b != 0,
    ensures
        2 * (nearest(a, b) * b - a) <= (if b > 0 { b } else { -b }),
        -(if b > 0 { b } else { -b }) <= 2 * (nearest(a, b) * b - a),
{
    let (n, d) = if b > 0 {
        (a, b)
    } else {
        (-a, -b)
    };
    let q = nearest(a, b);
    assert(-d <= 2 * (q * d - n) <= d) by (nonlinear_arith)
        requires
            d > 0,
            q == (2 * n + d) / (2 * d),
    ;
    if b < 0 {
        assert(q * b == -(q * d)) by (nonlinear_arith)
            requires
                b == -d,
        ;
    }
}

/// What a fill is worth at a mark, whatever it does to the position.
pub open spec fn edge(effect: int, price: int, mark: int, multiplier: int) -> int {
    effect * (mark - price) * multiplier
}

/// How many contracts of a position a fill closes, long where positive.
pub open spec fn closed_by(qty: int, effect: int) -> int {
    let after = qty + effect;
    if after == 0 {
        qty
    } else if (qty >= 0 && effect >= 0) || (qty <= 0 && effect <= 0) {
        0
    } else if (qty > 0) == (after > 0) {
        -effect
    } else {
        qty
    }
}

/// Whether the amounts of a fill, and of the position before and after it at
/// a mark, all fit.
pub open spec fn uncut(s: HedgeState, effect: int, price: int, multiplier: int, now_ns: u64, mark: int) -> bool {
    let t = filled(s, effect, price, multiplier, now_ns);
    let gain = closing_pnl(s.avg_entry_f as int, price, closed_by(s.hedge_qty as int, effect), multiplier);
    &&& fits(gain)
    &&& fits(s.realized_pnl_usd + gain)
    &&& fits(closing_pnl(s.avg_entry_f as int, mark, s.hedge_qty as int, multiplier))
    &&& fits(closing_pnl(t.avg_entry_f as int, mark, t.hedge_qty as int, multiplier))
}

/// A fill moves the total profit at a mark, realized and open, only by its
/// own edge, whether it opens, adds, reduces, closes or flips. Only where it
/// adds to a position, and the entry price is averaged, is there a rounding:
/// of at most half a billionth per contract. This is so while no amount is
/// cut.
pub proof fn law_fill_moves_profit_by_its_edge(
    s: HedgeState,
    is_buy: bool,
    qty: u32,
    price: i64,
    multiplier: i64,
    now_ns: u64,
    mark: i64,
)
    requires
        s.can_fill(HedgeState::effect(is_buy, qty)),
        multiplier >= 0,
        mark > 0,
        uncut(s, HedgeState::effect(is_buy, qty), price as int, multiplier as int, now_ns, mark as int),
    ensures
        ({
            let e = HedgeState::effect(is_buy, qty);
            let m = multiplier as int;
            let t = filled(s, e, price as int, m, now_ns);
            let off = t.realized_pnl_usd + t.mtm(mark as int, m) - (s.realized_pnl_usd + s.mtm(mark as int, m) + edge(
                e,
                price as int,
                mark as int,
                m,
            ));
            let size = if t.hedge_qty >= 0 {
                t.hedge_qty as int
            } else {
                -(t.hedge_qty as int)
            };
            &&& t.hedge_qty == s.hedge_qty + e
            &&& -(size * m) <= 2 * off <= size * m
            &&& s.hedge_qty * e <= 0 ==> off == 0
        }),
{
    let e = HedgeState::effect(is_buy, qty);
    let m = multiplier as int;
    let q = s.hedge_qty as int;
    let after = q + e;
    let a = s.avg_entry_f as int;
    let p = price as int;
    let f = mark as int;
    let t = filled(s, e, p, m, now_ns);
    let size = if after >= 0 {
        after
    } else {
        -after
    };
    assert(size * m >= 0) by (nonlinear_arith)
        requires
            size >= 0,
            m >= 0,
    ;
    // With no position there is nothing open.
    assert(s.mtm(f, m) == (f - a) * q * m) by {
        if q == 0 {
            assert((f - a) * 0 * m == 0) by (nonlinear_arith);
        }
    }
    if after == 0 {
        assert((p - a) * q * m == (f - a) * q * m + e * (f - p) * m) by (nonlinear_arith)
            requires
                e == -q,
        ;
    } else if (q >= 0 && e >= 0) || (q <= 0 && e <= 0) {
        let x = a * q + p * e;
        let n = nearest(x, after);
        if q >= 0 && e >= 0 {
            lemma_average_bound(s.avg_entry_f, price, q, e);
        } else {
            lemma_average_bound(s.avg_entry_f, price, -q, -e);
            assert(nearest(x, after) == nearest(a * (-q) + p * (-e), -q - e)) by {
                assert(a * (-q) + p * (-e) == -x) by (nonlinear_arith)
                    requires
                        x == a * q + p * e,
                ;
            }
        }
        lemma_nearest_close(x, after);
        let r = n * after - x;
        assert(t.avg_entry_f == n);
        let (u, v, w) = ((f - n) * after, (f - a) * q, e * (f - p));
        assert(u == f * after - n * after) by (nonlinear_arith)
            requires
                u == (f - n) * after,
        ;
        assert(v == f * q - a * q) by (nonlinear_arith)
            requires
                v == (f - a) * q,
        ;
        assert(w == f * e - p * e) by (nonlinear_arith)
            requires
                w == e * (f - p),
        ;
        assert(f * after == f * q + f * e) by (nonlinear_arith)
            requires
                after == q + e,
        ;
        assert(u * m == v * m + w * m - r * m) by (nonlinear_arith)
            requires
                u == v + w - r,
        ;
        assert(-(size * m) <= 2 * (-(r * m)) <= size * m) by (nonlinear_arith)
            requires
                -size <= 2 * r <= size,
                m >= 0,
        ;
        if q * e <= 0 {
            assert(q == 0 || e == 0) by (nonlinear_arith)
                requires
                    q * e <= 0,
                    (q >= 0 && e >= 0) || (q <= 0 && e <= 0),
            ;
            let v = if q == 0 {
                p
            } else {
                a
            };
            assert(x == v * after) by (nonlinear_arith)
                requires
                    after == q + e,
                    x == a * q + p * e,
                    q == 0 && v == p || e == 0 && v == a,
            ;
            lemma_nearest_exact(v, after);
            assert(r * m == 0) by (nonlinear_arith)
                requires
                    r == 0,
            ;
        }
    } else if (q > 0) == (after > 0) {
        assert((p - a) * (-e) * m + (f - a) * after * m == (f - a) * q * m + e * (f - p) * m) by (nonlinear_arith)
            requires
                after == q + e,
        ;
    } else {
        assert((p - a) * q * m + (f - p) * after * m == (f - a) * q * m + e * (f - p) * m) by (nonlinear_arith)
            requires
                after == q + e,
        ;
    }
}

proof fn lemma_nearest_exact(v: int, b: int)
    requires
        b != 0,
    ensures
        nearest(v * b, b) == v,
{
    if b > 0 {
        assert(2 * (v * b) + b == v * (2 * b) + b) by (nonlinear_arith);
        vstd::arithmetic::div_mod::lemma_fundamental_div_mod_converse(2 * (v * b) + b, 2 * b, v, b);
    } else {
        let e = -b;
        assert(2 * (-(v * b)) - b == v * (2 * e) + e) by (nonlinear_arith)
            requires
                e == -b,
        ;
        vstd::arithmetic::div_mod::lemma_fundamental_div_mod_converse(2 * (-(v * b)) - b, 2 * e, v, e);
    }
}

/// Opening a position and closing it at another price realizes the price
/// difference times the signed quantity times the multiplier, and leaves no
/// position.
pub proof fn law_round_trip_realizes_difference(s: HedgeState, effect: int, p1: int, p2: int, multiplier: int, t1: u64, t2: u64)
    requires
        s.hedge_qty == 0,
        s.realized_pnl_usd == 0,
        effect != 0,
        i32::MIN < effect <= i32::MAX,
        i64::MIN <= p1 <= i64::MAX,
        i64::MIN <= p2 <= i64::MAX,
        fits((p2 - p1) * effect * multiplier),
    ensures
        ({
            let open = filled(s, effect, p1, multiplier, t1);
            let closed = filled(open, -effect, p2, multiplier, t2);
            &&& closed.hedge_qty == 0
            &&& closed.avg_entry_f == 0
            &&& closed.realized_pnl_usd == (p2 - p1) * effect * multiplier
        }),
{
    law_opening_realizes_nothing(s, effect, p1, multiplier, t1);
}

/// A fill moves the position by what was bought or sold and confirms it; one
/// that takes it to nothing leaves no entry price, and one that only reduces
/// it leaves the entry price as it was.
pub proof fn law_fill_moves_the_position(s: HedgeState, is_buy: bool, qty: u32, price: i64, multiplier: i64, now_ns: u64)
    requires
        s.can_fill(HedgeState::effect(is_buy, qty)),
    ensures
        ({
            let t = filled(s, HedgeState::effect(is_buy, qty), price as int, multiplier as int, now_ns);
            &&& is_buy ==> t.hedge_qty == s.hedge_qty + qty
            &&& !is_buy ==> t.hedge_qty == s.hedge_qty - qty
            &&& t.last_update_ns == now_ns
            &&& t.hedge_qty == 0 ==> t.avg_entry_f == 0
            &&& 0 < t.hedge_qty < s.hedge_qty || s.hedge_qty < t.hedge_qty < 0 ==> t.avg_entry_f == s.avg_entry_f
            &&& s.hedge_qty == 0 && qty > 0 ==> t.realized_pnl_usd == s.realized_pnl_usd
            &&& s.hedge_qty > 0 > t.hedge_qty || s.hedge_qty < 0 < t.hedge_qty ==> t.avg_entry_f == price
        }),
{
}

/// The open profit has the sign of the move: a long position gains where the
/// price is above its entry and loses where it is below, a short one the
/// other way round. A position of the opposite size has the opposite profit.
pub proof fn law_open_profit_follows_the_move(s: HedgeState, current: i64, multiplier: i64)
    requires
        current > 0,
        multiplier > 0,
    ensures
        s.hedge_qty > 0 && current > s.avg_entry_f ==> s.mtm(current as int, multiplier as int) > 0,
        s.hedge_qty > 0 && current < s.avg_entry_f ==> s.mtm(current as int, multiplier as int) < 0,
        s.hedge_qty < 0 && current > s.avg_entry_f ==> s.mtm(current as int, multiplier as int) < 0,
        s.hedge_qty < 0 && current < s.avg_entry_f ==> s.mtm(current as int, multiplier as int) > 0,
        s.hedge_qty == 0 || current == s.avg_entry_f ==> s.mtm(current as int, multiplier as int) == 0,
        fits((current - s.avg_entry_f) * s.hedge_qty * multiplier) && s.hedge_qty != 0 ==> s.mtm(
            current as int,
            multiplier as int,
        ) == (current - s.avg_entry_f) * s.hedge_qty * multiplier,
{
    let d = current - s.avg_entry_f;
    let q = s.hedge_qty as int;
    let m = multiplier as int;
    assert(d > 0 && q > 0 ==> d * q > 0) by (nonlinear_arith);
    assert(d < 0 && q > 0 ==> d * q < 0) by (nonlinear_arith);
    assert(d > 0 && q < 0 ==> d * q < 0) by (nonlinear_arith);
    assert(d < 0 && q < 0 ==> d * q > 0) by (nonlinear_arith);
    assert(d == 0 ==> d * q == 0) by (nonlinear_arith);
    let x = d * q;
    assert(m > 0 && x > 0 ==> x * m > 0) by (nonlinear_arith);
    assert(m > 0 && x < 0 ==> x * m < 0) by (nonlinear_arith);
    assert(x == 0 ==> x * m == 0) by (nonlinear_arith);
}

/// A position is relied on from its confirmation until it is older than the
/// limit; one that never was confirmed never is.
pub proof fn law_confirmations_wear_off(s: HedgeState, now_ns: u64, max_age_ns: u64)
    ensures
        s.last_update_ns > 0 && now_ns <= s.last_update_ns + max_age_ns ==> s.fresh(now_ns, max_age_ns),
        now_ns > s.last_update_ns + max_age_ns ==> !s.fresh(now_ns, max_age_ns),
        s.last_update_ns == 0 ==> !s.fresh(now_ns, max_age_ns),
{
}

} // verus!
