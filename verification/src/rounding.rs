//! Division that rounds to the nearest integer.

use vstd::prelude::*;

verus! {

/// `a / b` rounded to the nearest integer and halves up; neither is negative.
pub open spec fn rounded_up(a: int, b: int) -> int {
    if 2 * (a % b) >= b {
        a / b + 1
    } else {
        a / b
    }
}

/// `a / b` rounded to the nearest integer, halves away from zero; `b` is
/// positive.
pub open spec fn rounded(a: int, b: int) -> int {
    if a >= 0 {
        rounded_up(a, b)
    } else {
        -rounded_up(-a, b)
    }
}

/// Rounding up at halves is dividing after half the divisor was added.
pub proof fn lemma_rounded_up(a: int, b: int)
    requires
        a >= 0,
        b > 0,
    ensures
        rounded_up(a, b) == (2 * a + b) / (2 * b),
        -b <= 2 * (rounded_up(a, b) * b - a) <= b,
        0 <= rounded_up(a, b),
{
    let q = a / b;
    let r = a % b;
    assert(a == q * b + r && 0 <= r < b && q >= 0) by (nonlinear_arith)
        requires
            a >= 0,
            b > 0,
            q == a / b,
            r == a % b,
    ;
    assert((q + 1) * b == q * b + b) by (nonlinear_arith);
    let v = rounded_up(a, b);
    assert((2 * a + b) / (2 * b) == v) by (nonlinear_arith)
        requires
            b > 0,
            v * b * 2 <= 2 * a + b < v * b * 2 + 2 * b,
    ;
}

/// Largest absolute value that [`round_to`] takes.
pub const MAX_ROUND: i128 = 0x4000_0000_0000_0000_0000_0000_0000_0000;

/// `a / b` rounded to the nearest integer, halves away from zero.
pub fn round_to(a: i128, b: i128) -> (r: i128)
    requires
        -MAX_ROUND <= a <= MAX_ROUND,
        0 < b <= MAX_ROUND,
    ensures
        r == rounded(a as int, b as int),
        a >= 0 ==> 0 <= r <= a,
        a <= 0 ==> a <= r <= 0,
{
    let m: i128 = if a >= 0 {
        a
    } else {
        -a
    };
    let whole: i128 = m / b;
    let rest: i128 = m % b;
    let q: i128 = if rest >= b - rest {
        whole + 1
    } else {
        whole
    };
    assert(q == rounded_up(m as int, b as int));
    assert(0 <= q <= m) by (nonlinear_arith)
        requires
            m >= 0,
            b > 0,
            rest == m % b,
            whole == m / b,
            q == whole + (if rest >= b - rest { 1int } else { 0int }),
    ;
    if a >= 0 {
        q
    } else {
        -q
    }
}

/// A larger number is not rounded to a smaller one.
pub proof fn lemma_rounded_grows(a: int, b: int, d: int)
    requires
        a <= b,
        d > 0,
    ensures
        rounded(a, d) <= rounded(b, d),
{
    if a >= 0 {
        lemma_rounded_up(a, d);
        lemma_rounded_up(b, d);
        vstd::arithmetic::div_mod::lemma_div_is_ordered(2 * a + d, 2 * b + d, 2 * d);
    } else if b >= 0 {
        lemma_rounded_up(-a, d);
        lemma_rounded_up(b, d);
    } else {
        lemma_rounded_up(-a, d);
        lemma_rounded_up(-b, d);
        vstd::arithmetic::div_mod::lemma_div_is_ordered(2 * (-b) + d, 2 * (-a) + d, 2 * d);
    }
}

/// A multiple of the divisor is divided exactly.
pub proof fn law_rounding_keeps_multiples(n: int, b: int)
    requires
        b > 0,
    ensures
        rounded(n * b, b) == n,
{
    let m = if n >= 0 {
        n
    } else {
        -n
    };
    assert(m * b >= 0 && (m * b) % b == 0 && (m * b) / b == m) by (nonlinear_arith)
        requires
            m >= 0,
            b > 0,
    ;
    if n < 0 {
        assert(-(n * b) == m * b && n * b < 0) by (nonlinear_arith)
            requires
                n < 0,
                m == -n,
                b > 0,
        ;
    }
}

/// A quotient is rounded to the nearest integer, a half away from zero, and
/// alike on both sides of zero.
pub proof fn law_rounding_is_nearest(a: int, b: int)
    requires
        b > 0,
    ensures
        -b <= 2 * (rounded(a, b) * b - a) <= b,
        a > 0 ==> 2 * (a - rounded(a, b) * b) < b,
        a < 0 ==> 2 * (rounded(a, b) * b - a) < b,
        rounded(-a, b) == -rounded(a, b),
{
    let m = if a >= 0 {
        a
    } else {
        -a
    };
    lemma_rounded_up(m, b);
    let q = rounded_up(m, b);
    vstd::arithmetic::div_mod::lemma_fundamental_div_mod(m, b);
    assert(b * (m / b) == (m / b) * b) by (nonlinear_arith);
    assert((m / b + 1) * b == (m / b) * b + b) by (nonlinear_arith);
    assert((-q) * b == -(q * b)) by (nonlinear_arith);
    if a == 0 {
        assert(q == 0) by {
            assert(0int / b == 0 && 0int % b == 0) by (nonlinear_arith)
                requires
                    b > 0,
            ;
        }
    }
}

} // verus!
