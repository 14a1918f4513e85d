//! Amounts of 128 bits, cut where they would not fit.

use vstd::prelude::*;

verus! {

/// An amount cut to what 128 bits hold.
pub open spec fn cut(x: int) -> i128 {
    if x > i128::MAX {
        i128::MAX
    } else if x < i128::MIN {
        i128::MIN
    } else {
        x as i128
    }
}

/// Whether an amount fits in 128 bits.
pub open spec fn fits(x: int) -> bool {
    i128::MIN <= x <= i128::MAX
}

/// The sum of two amounts, cut to what 128 bits hold.
pub fn cut_sum(a: i128, b: i128) -> (r: i128)
    ensures
        r == cut(a + b),
{
    match a.checked_add(b) {
        Some(x) => x,
        None => if a >= 0 {
            i128::MAX
        } else {
            i128::MIN
        },
    }
}

/// The product of two numbers, cut to what 128 bits hold.
pub fn cut_product(a: i128, b: i128) -> (r: i128)
    ensures
        r == cut(a * b),
{
    match a.checked_mul(b) {
        Some(x) => x,
        None => {
            assert(a * b > 0 <==> (a < 0) == (b < 0)) by (nonlinear_arith)
                requires
                    a * b != 0,
            ;
            if (a < 0) == (b < 0) {
                i128::MAX
            } else {
                i128::MIN
            }
        },
    }
}

/// An amount that fits is kept as it is; one that does not is cut to the
/// largest or the smallest that does.
pub proof fn law_amounts_are_cut_to_fit(x: int)
    ensures
        i128::MIN <= x <= i128::MAX ==> cut(x) == x && fits(x),
        x > i128::MAX ==> cut(x) == i128::MAX && !fits(x),
        x < i128::MIN ==> cut(x) == i128::MIN && !fits(x),
{
}

} // verus!
