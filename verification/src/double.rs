//! IEEE-754 doubles carried by bit pattern.
//!
//! A [`Double`] is what a price, a size or a greek looks like while it only
//! travels: the 64 bits of a double. Comparing, negating, truncating and
//! scaling to integers are exact operations on those bits. Where the crate
//! computes with prices it does so in billionths; [`Double::to_nanos`] and
//! [`Double::from_nanos`] go between the two. Sums and products of doubles are
//! computed outside.

use vstd::arithmetic::power2::lemma_pow2_adds;
use vstd::arithmetic::power2::lemma_pow2_pos;
use vstd::arithmetic::power2::lemma_pow2_strictly_increases;
use vstd::arithmetic::power2::lemma_pow2_unfold;
use vstd::arithmetic::power2::lemma2_to64;
use vstd::arithmetic::power2::lemma2_to64_rest;
use vstd::arithmetic::power2::pow2;
use vstd::bits::lemma_u64_shl_is_mul;
use vstd::bits::lemma_u64_shr_is_div;
use vstd::prelude::*;

verus! {

/// The sign bit's weight.
pub const SIGN_WEIGHT: u64 = 0x8000_0000_0000_0000;

/// Magnitude of the infinities; a larger magnitude is a NaN.
pub const INFINITE_MAGNITUDE: u64 = 0x7ff0_0000_0000_0000;

/// Weight of the lowest exponent bit.
pub const EXPONENT_WEIGHT: u64 = 0x0010_0000_0000_0000;

/// A double, by its bit pattern. `==` compares patterns; the value
/// comparisons are [`Double::same`], [`Double::lt`] and [`Double::le`].
#[derive(Clone, Copy, Debug, PartialEq, Eq, Structural, Hash)]
pub struct Double {
    pub bits: u64,
}

impl Double {
    /// The pattern without its sign bit.
    pub open spec fn magnitude(self) -> int {
        if self.bits >= SIGN_WEIGHT {
            self.bits - SIGN_WEIGHT
        } else {
            self.bits as int
        }
    }

    /// Whether the sign bit is set.
    pub open spec fn signed(self) -> bool {
        self.bits >= SIGN_WEIGHT
    }

    /// Whether the pattern is not a number.
    pub open spec fn nan(self) -> bool {
        self.magnitude() > INFINITE_MAGNITUDE
    }

    /// An integer that orders the numbers as their values do: both zeros
    /// map to 0, and a larger value maps to a larger integer.
    pub open spec fn rank(self) -> int {
        if self.signed() {
            -self.magnitude()
        } else {
            self.magnitude()
        }
    }

    /// `self < other`, false where either is not a number.
    pub open spec fn less(self, other: Double) -> bool {
        !self.nan() && !other.nan() && self.rank() < other.rank()
    }

    /// `self <= other`, false where either is not a number.
    pub open spec fn at_most(self, other: Double) -> bool {
        !self.nan() && !other.nan() && self.rank() <= other.rank()
    }

    /// `self == other` as values: zeros of either sign are equal and a
    /// pattern that is not a number equals nothing.
    pub open spec fn equals(self, other: Double) -> bool {
        !self.nan() && !other.nan() && self.rank() == other.rank()
    }

    /// `self > 0`.
    pub open spec fn above_zero(self) -> bool {
        0 < self.rank() && !self.nan()
    }

    /// `self < 0`.
    pub open spec fn below_zero(self) -> bool {
        self.rank() < 0 && !self.nan()
    }

    /// The biased exponent.
    pub open spec fn exponent(self) -> int {
        self.magnitude() / (EXPONENT_WEIGHT as int)
    }

    /// The significand of a normal number, implicit bit included.
    pub open spec fn significand(self) -> int {
        EXPONENT_WEIGHT + self.magnitude() % (EXPONENT_WEIGHT as int)
    }

    /// The integer part of the absolute value of a finite number, whose
    /// absolute value is `significand * 2^(exponent - 1075)`.
    pub open spec fn whole(self) -> nat {
        if self.exponent() < 1023 {
            0
        } else if self.exponent() <= 1075 {
            (self.significand() / (pow2((1075 - self.exponent()) as nat) as int)) as nat
        } else {
            (self.significand() * pow2((self.exponent() - 1075) as nat)) as nat
        }
    }

    /// The integer nearest to zero that a saturating cast to an unsigned
    /// type with largest value `max` gives.
    pub open spec fn clamped(self, max: nat) -> nat {
        if self.nan() || self.signed() {
            0
        } else if self.magnitude() == INFINITE_MAGNITUDE || self.whole() > max {
            max
        } else {
            self.whole()
        }
    }

    /// The integer that a saturating cast to a signed type with the given
    /// bounds gives.
    pub open spec fn clamped_signed(self, min: int, max: int) -> int {
        if self.nan() {
            0
        } else if self.signed() {
            if self.magnitude() == INFINITE_MAGNITUDE || -self.whole() < min {
                min
            } else {
                -self.whole()
            }
        } else if self.magnitude() == INFINITE_MAGNITUDE || self.whole() > max {
            max
        } else {
            self.whole() as int
        }
    }

    /// The double with this bit pattern.
    pub fn from_bits(bits: u64) -> (r: Double)
        ensures
            r.bits == bits,
    {
        Double { bits }
    }

    /// Positive zero.
    pub fn zero() -> (r: Double)
        ensures
            r.bits == 0,
    {
        Double { bits: 0 }
    }

    fn magnitude_bits(&self) -> (m: u64)
        ensures
            m == self.magnitude(),
    {
        if self.bits >= SIGN_WEIGHT {
            self.bits - SIGN_WEIGHT
        } else {
            self.bits
        }
    }

    /// Whether the value is not a number.
    pub fn is_nan(&self) -> (r: bool)
        ensures
            r == self.nan(),
    {
        self.magnitude_bits() > INFINITE_MAGNITUDE
    }

    /// `self < other`.
    pub fn lt(&self, other: &Double) -> (r: bool)
        ensures
            r == self.less(*other),
    {
        if self.is_nan() || other.is_nan() {
            false
        } else if self.bits >= SIGN_WEIGHT {
            if other.bits >= SIGN_WEIGHT {
                self.bits > other.bits
            } else {
                self.bits > SIGN_WEIGHT || other.bits > 0
            }
        } else if other.bits >= SIGN_WEIGHT {
            false
        } else {
            self.bits < other.bits
        }
    }

    /// `self <= other`.
    pub fn le(&self, other: &Double) -> (r: bool)
        ensures
            r == self.at_most(*other),
    {
        if self.is_nan() || other.is_nan() {
            false
        } else {
            !other.lt(self)
        }
    }

    /// `self == other`, as values.
    pub fn same(&self, other: &Double) -> (r: bool)
        ensures
            r == self.equals(*other),
    {
        if self.is_nan() || other.is_nan() {
            false
        } else {
            self.bits == other.bits || (self.magnitude_bits() == 0 && other.magnitude_bits() == 0)
        }
    }

    /// `self > 0`.
    pub fn is_positive(&self) -> (r: bool)
        ensures
            r == self.above_zero(),
    {
        0 < self.bits && self.bits <= INFINITE_MAGNITUDE
    }

    /// `self < 0`.
    pub fn is_negative(&self) -> (r: bool)
        ensures
            r == self.below_zero(),
    {
        self.bits > SIGN_WEIGHT && self.bits - SIGN_WEIGHT <= INFINITE_MAGNITUDE
    }

    /// The absolute value: the same pattern with the sign bit cleared.
    pub fn abs(&self) -> (r: Double)
        ensures
            r.bits == self.magnitude(),
            !r.signed(),
    {
        Double { bits: self.magnitude_bits() }
    }

    /// Whether the sign bit is set.
    pub fn is_signed(&self) -> (r: bool)
        ensures
            r == self.signed(),
    {
        self.bits >= SIGN_WEIGHT
    }

    /// The negation: the same pattern with the sign bit flipped.
    pub fn negate(&self) -> (r: Double)
        ensures
            r.magnitude() == self.magnitude(),
            r.signed() == !self.signed(),
            r.rank() == -self.rank(),
    {
        if self.bits >= SIGN_WEIGHT {
            Double { bits: self.bits - SIGN_WEIGHT }
        } else {
            Double { bits: self.bits + SIGN_WEIGHT }
        }
    }

    /// The integer part of the absolute value, `u64::MAX` where it does not
    /// fit or is infinite.
    fn whole_bits(&self) -> (r: u64)
        requires
            !self.nan(),
        ensures
            r == (if self.magnitude() == INFINITE_MAGNITUDE || self.whole() > u64::MAX {
                u64::MAX as nat
            } else {
                self.whole()
            }),
    {
        let m: u64 = self.magnitude_bits();
        let e: u64 = m / EXPONENT_WEIGHT;
        let s: u64 = EXPONENT_WEIGHT + m % EXPONENT_WEIGHT;
        proof {
            lemma2_to64();
            lemma2_to64_rest();
        }
        if e < 1023 {
            0
        } else if e <= 1075 {
            let k: u64 = 1075 - e;
            proof {
                lemma_u64_shr_is_div(s, k);
                lemma_pow2_pos(k as nat);
                assert(s as int / pow2(k as nat) as int <= s as int) by (nonlinear_arith)
                    requires
                        pow2(k as nat) > 0,
                        s >= 0,
                ;
                assert(m != INFINITE_MAGNITUDE);
            }
            s >> k
        } else if e < 1087 {
            let k: u64 = e - 1075;
            proof {
                if k < 11 {
                    lemma_pow2_strictly_increases(k as nat, 11);
                }
                assert(s as int * pow2(k as nat) as int <= 0x1f_ffff_ffff_ffff * 0x800) by (nonlinear_arith)
                    requires
                        0 < s <= 0x1f_ffff_ffff_ffff,
                        0 <= pow2(k as nat) <= 0x800,
                ;
                lemma_u64_shl_is_mul(s, k);
                assert(m != INFINITE_MAGNITUDE);
            }
            s << k
        } else {
            proof {
                let k = (e - 1075) as nat;
                if k > 12 {
                    lemma_pow2_strictly_increases(12, k);
                }
                assert(s as int * pow2(k) as int >= 0x10_0000_0000_0000 * 0x1000) by (nonlinear_arith)
                    requires
                        s >= 0x10_0000_0000_0000,
                        pow2(k) >= 0x1000,
                ;
            }
            u64::MAX
        }
    }

    /// `self as u32`: truncation toward zero, saturating, 0 for a value that
    /// is not a number.
    pub fn to_u32(&self) -> (r: u32)
        ensures
            r == self.clamped(u32::MAX as nat),
    {
        if self.is_nan() || self.bits >= SIGN_WEIGHT {
            0
        } else {
            let w: u64 = self.whole_bits();
            if w > 0xffff_ffff {
                u32::MAX
            } else {
                w as u32
            }
        }
    }

    /// `self as u64`: truncation toward zero, saturating, 0 for a value that
    /// is not a number.
    pub fn to_u64(&self) -> (r: u64)
        ensures
            r == self.clamped(u64::MAX as nat),
    {
        if self.is_nan() || self.bits >= SIGN_WEIGHT {
            0
        } else {
            self.whole_bits()
        }
    }

    /// `self as i32`: truncation toward zero, saturating, 0 for a value that
    /// is not a number.
    pub fn to_i32(&self) -> (r: i32)
        ensures
            r == self.clamped_signed(i32::MIN as int, i32::MAX as int),
    {
        if self.is_nan() {
            0
        } else {
            let w: u64 = self.whole_bits();
            if self.bits >= SIGN_WEIGHT {
                if w > 0x7fff_ffff {
                    i32::MIN
                } else {
                    -(w as i32)
                }
            } else if w > 0x7fff_ffff {
                i32::MAX
            } else {
                w as i32
            }
        }
    }
}

impl Double {
    /// `self as i64`: truncation toward zero, saturating, 0 for a value that
    /// is not a number.
    pub fn to_i64(&self) -> (r: i64)
        ensures
            r == self.clamped_signed(i64::MIN as int, i64::MAX as int),
    {
        if self.is_nan() {
            0
        } else {
            let w: u64 = self.whole_bits();
            if self.bits >= SIGN_WEIGHT {
                if w > 0x7fff_ffff_ffff_ffff {
                    i64::MIN
                } else {
                    -(w as i64)
                }
            } else if w > 0x7fff_ffff_ffff_ffff {
                i64::MAX
            } else {
                w as i64
            }
        }
    }

    /// Neither infinite nor not a number.
    pub open spec fn finite(self) -> bool {
        self.magnitude() < INFINITE_MAGNITUDE
    }

    /// Neither infinite nor not a number.
    pub fn is_finite(&self) -> (r: bool)
        ensures
            r == self.finite(),
    {
        self.magnitude_bits() < INFINITE_MAGNITUDE
    }
}

/// A finite number's magnitude, `significand * 2^(exponent - 1075)`, times
/// `scale`, rounded to the nearest integer and halves up. (A number too small
/// for that form rounds to zero, as the form does.)
pub open spec fn scaled_magnitude(d: Double, scale: int) -> int {
    if d.exponent() >= 1075 {
        d.significand() * scale * pow2((d.exponent() - 1075) as nat)
    } else {
        let unit = pow2((1075 - d.exponent()) as nat) as int;
        (2 * d.significand() * scale + unit) / (2 * unit)
    }
}

/// A magnitude is not negative.
pub proof fn lemma_scaled_not_negative(d: Double, scale: int)
    requires
        scale > 0,
    ensures
        scaled_magnitude(d, scale) >= 0,
{
    let s = d.significand();
    assert(s * scale >= 0) by (nonlinear_arith)
        requires
            s >= 0,
            scale > 0,
    ;
    if d.exponent() >= 1075 {
        let p = pow2((d.exponent() - 1075) as nat) as int;
        assert(s * scale * p >= 0) by (nonlinear_arith)
            requires
                s * scale >= 0,
                p >= 0,
        ;
    } else {
        lemma_pow2_pos((1075 - d.exponent()) as nat);
        let unit = pow2((1075 - d.exponent()) as nat) as int;
        let top = 2 * s * scale + unit;
        assert(top >= 0) by (nonlinear_arith)
            requires
                s * scale >= 0,
                unit > 0,
                top == 2 * s * scale + unit,
        ;
        assert(top / (2 * unit) >= 0) by (nonlinear_arith)
            requires
                top >= 0,
                unit > 0,
        ;
    }
}

impl Double {
    /// The value times `scale`, rounded to the nearest integer and halves
    /// away from zero; `None` where the value is not finite or the result
    /// does not fit.
    pub open spec fn scaled(self, scale: int) -> Option<i64> {
        if !self.finite() || scaled_magnitude(self, scale) > i64::MAX {
            None
        } else if self.signed() {
            Some((-scaled_magnitude(self, scale)) as i64)
        } else {
            Some(scaled_magnitude(self, scale) as i64)
        }
    }

    /// The value times `scale`, rounded to the nearest integer and halves
    /// away from zero.
    pub fn to_scaled(&self, scale: u32) -> (r: Option<i64>)
        requires
            0 < scale,
        ensures
            r == self.scaled(scale as int),
    {
        let m: u64 = self.magnitude_bits();
        if m >= INFINITE_MAGNITUDE {
            return None;
        }
        let e: u64 = m / EXPONENT_WEIGHT;
        let s: u64 = EXPONENT_WEIGHT + m % EXPONENT_WEIGHT;
        assert(s as int * scale as int <= 0x1f_ffff_ffff_ffff * 0xffff_ffff) by (nonlinear_arith)
            requires
                0 < s <= 0x1f_ffff_ffff_ffff,
                0 < scale <= 0xffff_ffff,
        ;
        let n: u128 = (s as u128) * (scale as u128);
        assert(n >= s) by (nonlinear_arith)
            requires
                n == s * scale,
                scale >= 1,
        ;
        let whole: u128;
        if e >= 1075 {
            if e > 1085 {
                proof {
                    let k = (e - 1075) as nat;
                    lemma2_to64();
                    if k > 11 {
                        lemma_pow2_strictly_increases(11, k);
                    }
                    assert(n as int * pow2(k) as int >= 0x10_0000_0000_0000 * 0x800) by (nonlinear_arith)
                        requires
                            n >= 0x10_0000_0000_0000,
                            pow2(k) >= 0x800,
                    ;
                }
                return None;
            }
            let p: u128 = power_of_two(e - 1075);
            proof {
                lemma2_to64();
                if e < 1085 {
                    lemma_pow2_strictly_increases((e - 1075) as nat, 10);
                }
                assert(n as int * p as int <= 0x1f_ffff_ffff_ffff * 0xffff_ffff * 0x400) by (nonlinear_arith)
                    requires
                        n <= 0x1f_ffff_ffff_ffff * 0xffff_ffff,
                        p <= 0x400,
                ;
            }
            whole = n * p;
        } else {
            let k: u64 = 1075 - e;
            if k > 100 {
                proof {
                    lemma2_to64_rest();
                    lemma_pow2_adds(63, 37);
                    lemma2_to64();
                    lemma_pow2_strictly_increases(100, k as nat);
                    let unit = pow2(k as nat) as int;
                    assert(2 * n < unit);
                    assert((2 * n as int + unit) / (2 * unit) == 0) by (nonlinear_arith)
                        requires
                            0 <= 2 * n < unit,
                    ;
                    assert(2 * n as int == 2 * self.significand() * scale as int) by (nonlinear_arith)
                        requires
                            n as int == self.significand() * scale as int,
                    ;
                    assert(scaled_magnitude(*self, scale as int) == 0);
                }
                return Some(0);
            }
            let p: u128 = power_of_two(k);
            proof {
                lemma2_to64_rest();
                lemma_pow2_adds(63, 37);
                lemma2_to64();
                if k < 100 {
                    lemma_pow2_strictly_increases(k as nat, 100);
                }
                lemma_pow2_pos(k as nat);
            }
            whole = (2 * n + p) / (2 * p);
        }
        assert(whole == scaled_magnitude(*self, scale as int)) by {
            assert(n as int == self.significand() * scale as int);
            assert(2 * n as int == 2 * self.significand() * scale as int) by (nonlinear_arith)
                requires
                    n as int == self.significand() * scale as int,
            ;
        }
        if whole > 0x7fff_ffff_ffff_ffff {
            return None;
        }
        let v: i64 = whole as i64;
        if self.bits >= SIGN_WEIGHT {
            Some(-v)
        } else {
            Some(v)
        }
    }

    /// The value in billionths.
    pub open spec fn nanos(self) -> Option<i64> {
        self.scaled(1_000_000_000)
    }

    /// The value in billionths, rounded to the nearest.
    pub fn to_nanos(&self) -> (r: Option<i64>)
        ensures
            r == self.nanos(),
    {
        self.to_scaled(1_000_000_000)
    }
}

impl Double {
    /// The value in billionths, cut to what fits; 0 where it is no number.
    pub open spec fn billionths(self) -> i64 {
        if self.nan() {
            0
        } else {
            match self.nanos() {
                Some(n) => n,
                None => if self.signed() {
                    i64::MIN
                } else {
                    i64::MAX
                },
            }
        }
    }

    /// The value in billionths, cut to what fits.
    pub fn to_billionths(&self) -> (r: i64)
        ensures
            r == self.billionths(),
    {
        if self.is_nan() {
            return 0;
        }
        match self.to_nanos() {
            Some(n) => n,
            None => if self.is_signed() {
                i64::MIN
            } else {
                i64::MAX
            },
        }
    }
}

/// `a / b` rounded to the nearest integer, halves to the even one.
pub open spec fn even_quotient(a: int, b: int) -> int {
    let q = a / b;
    let r = a % b;
    if 2 * r > b || (2 * r == b && q % 2 == 1) {
        q + 1
    } else {
        q
    }
}

/// A finite number's magnitude times `scale`, rounded to the nearest integer
/// and halves to the even one, as decimal texts are.
pub open spec fn even_magnitude(d: Double, scale: int) -> int {
    if d.exponent() >= 1075 {
        d.significand() * scale * pow2((d.exponent() - 1075) as nat)
    } else {
        even_quotient(d.significand() * scale, pow2((1075 - d.exponent()) as nat) as int)
    }
}

impl Double {
    /// Exponent and significand of a number.
    pub fn split(&self) -> (r: (u64, u64))
        ensures
            r.0 == self.exponent(),
            r.1 == self.significand(),
    {
        let m: u64 = self.magnitude_bits();
        (m / EXPONENT_WEIGHT, EXPONENT_WEIGHT + m % EXPONENT_WEIGHT)
    }

    /// The magnitude times `scale`, rounded to the nearest integer and halves
    /// to the even one; none where the value is not finite or 2^64 or more.
    pub fn to_even_magnitude(&self, scale: u32) -> (r: Option<u128>)
        requires
            0 < scale,
        ensures
            match r {
                Some(m) => self.finite() && self.exponent() <= 1086 && m == even_magnitude(*self, scale as int) && m
                    <= 0x1_0000_0000_0000_0000 * scale,
                None => !self.finite() || self.exponent() > 1086,
            },
    {
        let m: u64 = self.magnitude_bits();
        if m >= INFINITE_MAGNITUDE {
            return None;
        }
        let e: u64 = m / EXPONENT_WEIGHT;
        let s: u64 = EXPONENT_WEIGHT + m % EXPONENT_WEIGHT;
        assert(s as int * scale as int <= 0x1f_ffff_ffff_ffff * 0xffff_ffff) by (nonlinear_arith)
            requires
                0 < s <= 0x1f_ffff_ffff_ffff,
                0 < scale <= 0xffff_ffff,
        ;
        let n: u128 = (s as u128) * (scale as u128);
        assert(n >= s) by (nonlinear_arith)
            requires
                n == s * scale,
                scale >= 1,
        ;
        assert(n as int == self.significand() * scale as int);
        let whole: u128;
        if e >= 1075 {
            if e > 1086 {
                return None;
            }
            let p: u128 = power_of_two(e - 1075);
            proof {
                lemma2_to64();
                if e < 1086 {
                    lemma_pow2_strictly_increases((e - 1075) as nat, 11);
                }
                assert(n as int * p as int <= 0x1f_ffff_ffff_ffff * 0xffff_ffff * 0x800) by (nonlinear_arith)
                    requires
                        n <= 0x1f_ffff_ffff_ffff * 0xffff_ffff,
                        p <= 0x800,
                ;
            }
            whole = n * p;
            assert(whole <= 0x1_0000_0000_0000_0000 * scale) by (nonlinear_arith)
                requires
                    whole == n * p,
                    n == s * scale,
                    0 < s <= 0x1f_ffff_ffff_ffff,
                    0 < p <= 0x800,
                    scale > 0,
            ;
        } else {
            let k: u64 = 1075 - e;
            if k > 100 {
                proof {
                    lemma2_to64_rest();
                    lemma_pow2_adds(63, 37);
                    lemma2_to64();
                    lemma_pow2_strictly_increases(100, k as nat);
                    let unit = pow2(k as nat) as int;
                    assert(2 * n < unit);
                    assert(n as int / unit == 0 && n as int % unit == n) by (nonlinear_arith)
                        requires
                            0 <= 2 * n < unit,
                    ;
                    assert(even_magnitude(*self, scale as int) == 0);
                }
                return Some(0);
            }
            let p: u128 = power_of_two(k);
            proof {
                lemma2_to64_rest();
                lemma_pow2_adds(63, 37);
                lemma2_to64();
                if k < 100 {
                    lemma_pow2_strictly_increases(k as nat, 100);
                }
                lemma_pow2_pos(k as nat);
            }
            let q: u128 = n / p;
            assert(q <= n) by (nonlinear_arith)
                requires
                    q == n / p,
                    p > 0,
                    n >= 0,
            ;
            assert(n + 1 <= 0x1_0000_0000_0000_0000 * scale) by (nonlinear_arith)
                requires
                    n == s * scale,
                    0 < s <= 0x1f_ffff_ffff_ffff,
                    scale > 0,
            ;
            let rest: u128 = n % p;
            whole = if 2 * rest > p || (2 * rest == p && q % 2 == 1) {
                q + 1
            } else {
                q
            };
        }
        assert(whole == even_magnitude(*self, scale as int));
        Some(whole)
    }
}

/// 2^64 in billionths.
pub const WIDE_LIMIT: i128 = 18_446_744_073_709_551_616_000_000_000;

impl Double {
    /// The value in billionths, halves to even; 2^64 where it is more, and 0
    /// where it is no number.
    pub open spec fn wide(self) -> int {
        let m: int = if self.nan() {
            0
        } else if !self.finite() || self.exponent() > 1086 {
            WIDE_LIMIT as int
        } else {
            even_magnitude(self, 1_000_000_000)
        };
        if self.signed() {
            -m
        } else {
            m
        }
    }

    /// The value in billionths, cut at 2^64.
    pub fn to_wide(&self) -> (r: i128)
        ensures
            r == self.wide(),
            -WIDE_LIMIT <= r <= WIDE_LIMIT,
    {
        if self.is_nan() {
            return 0;
        }
        let m: i128 = match self.to_even_magnitude(1_000_000_000) {
            Some(m) => m as i128,
            None => WIDE_LIMIT,
        };
        if self.is_signed() {
            -m
        } else {
            m
        }
    }
}

fn power_of_two(k: u64) -> (r: u128)
    requires
        k <= 100,
    ensures
        r == pow2(k as nat),
{
    let mut p: u128 = 1;
    let mut i: u64 = 0;
    proof {
        lemma2_to64();
        lemma2_to64_rest();
        lemma_pow2_adds(63, 37);
    }
    while i < k
        invariant
            i <= k <= 100,
            p == pow2(i as nat),
            pow2(100) == 0x8000_0000_0000_0000 * 0x20_0000_0000,
        decreases k - i,
    {
        proof {
            lemma_pow2_strictly_increases(i as nat, 100);
            lemma_pow2_unfold((i + 1) as nat);
        }
        p = p * 2;
        i = i + 1;
    }
    p
}

// From billionths

/// A billion.
pub const BILLION: u64 = 1_000_000_000;

/// Whether `m` billionths, shifted by `k` bits, have a whole part of 53 bits.
pub open spec fn is_shift(m: int, k: nat) -> bool {
    EXPONENT_WEIGHT * BILLION <= m * pow2(k) < 2 * EXPONENT_WEIGHT * BILLION
}

/// The bits of the double nearest to `m` billionths, where `k` is the shift:
/// exponent and significand, a significand that rounds up to a power of two
/// carrying into the exponent.
pub open spec fn nano_magnitude(m: int, k: nat) -> int {
    (1074 - k) * EXPONENT_WEIGHT + even_quotient(m * pow2(k), BILLION as int)
}

/// The double nearest to a number of billionths, halves to the even one.
pub open spec fn nano_double(n: i64) -> Double {
    let m = if n >= 0 {
        n as int
    } else {
        -(n as int)
    };
    if m == 0 {
        Double { bits: 0 }
    } else {
        let k = choose|k: nat| #[trigger] is_shift(m, k);
        if n < 0 {
            Double { bits: (SIGN_WEIGHT + nano_magnitude(m, k)) as u64 }
        } else {
            Double { bits: nano_magnitude(m, k) as u64 }
        }
    }
}

proof fn lemma_one_shift(m: int, j: nat, k: nat)
    requires
        m > 0,
        is_shift(m, j),
        is_shift(m, k),
    ensures
        j == k,
{
    if j < k {
        lemma_shift_order(m, j, k);
    } else if k < j {
        lemma_shift_order(m, k, j);
    }
}

proof fn lemma_shift_order(m: int, j: nat, k: nat)
    requires
        m > 0,
        j < k,
        is_shift(m, j),
    ensures
        m * pow2(k) >= 2 * EXPONENT_WEIGHT * BILLION,
{
    lemma_pow2_unfold((j + 1) as nat);
    if j + 1 < k {
        lemma_pow2_strictly_increases((j + 1) as nat, k);
    }
    assert(m * pow2(k) >= 2 * (m * pow2(j))) by (nonlinear_arith)
        requires
            m > 0,
            pow2(k) >= 2 * pow2(j),
    ;
}

proof fn lemma_even_quotient(a: int, b: int)
    requires
        a >= 0,
        b > 0,
    ensures
        -b <= 2 * (even_quotient(a, b) * b - a) <= b,
        a / b <= even_quotient(a, b) <= a / b + 1,
{
    let q = a / b;
    let r = a % b;
    assert(a == q * b + r && 0 <= r < b) by (nonlinear_arith)
        requires
            b > 0,
            q == a / b,
            r == a % b,
    ;
    assert((q + 1) * b == q * b + b) by (nonlinear_arith);
}

proof fn lemma_nano_range(m: int, k: nat)
    requires
        0 < m <= 0x8000_0000_0000_0000,
        is_shift(m, k),
    ensures
        19 <= k <= 82,
        EXPONENT_WEIGHT <= even_quotient(m * pow2(k), BILLION as int) <= 2 * EXPONENT_WEIGHT,
        0 < nano_magnitude(m, k) < INFINITE_MAGNITUDE,
{
    lemma2_to64();
    lemma2_to64_rest();
    lemma_pow2_adds(63, 19);
    assert(pow2(82) == 0x8000_0000_0000_0000 * 0x8_0000);
    if k < 19 {
        if k < 18 {
            lemma_pow2_strictly_increases(k, 18);
        }
        assert(m * pow2(k) <= 0x8000_0000_0000_0000 * 0x4_0000) by (nonlinear_arith)
            requires
                0 < m <= 0x8000_0000_0000_0000,
                0 <= pow2(k) <= 0x4_0000,
        ;
        assert(0x8000_0000_0000_0000 * 0x4_0000 < 0x10_0000_0000_0000 * 1_000_000_000);
    }
    if k > 82 {
        lemma_pow2_strictly_increases(82, k);
        lemma_pow2_unfold(83);
        if k > 83 {
            lemma_pow2_strictly_increases(83, k);
        }
        assert(m * pow2(k) >= pow2(83)) by (nonlinear_arith)
            requires
                m >= 1,
                pow2(k) >= pow2(83),
        ;
        assert(pow2(83) >= 2 * 0x10_0000_0000_0000 * 1_000_000_000);
    }
    let a = m * pow2(k);
    lemma_even_quotient(a, BILLION as int);
    assert(EXPONENT_WEIGHT <= a / (BILLION as int) < 2 * EXPONENT_WEIGHT) by (nonlinear_arith)
        requires
            EXPONENT_WEIGHT * BILLION <= a < 2 * EXPONENT_WEIGHT * BILLION,
            BILLION == 1_000_000_000,
    ;
}

impl Double {
    /// The double nearest to a number of billionths.
    pub fn from_nanos(n: i64) -> (r: Double)
        ensures
            r == nano_double(n),
    {
        let m: u64 = if n >= 0 {
            n as u64
        } else {
            (-(n as i128)) as u64
        };
        if m == 0 {
            return Double { bits: 0 };
        }
        let least: u128 = 4_503_599_627_370_496_000_000_000;
        assert(least == EXPONENT_WEIGHT * BILLION);
        let mut x: u128 = m as u128;
        let mut k: u64 = 0;
        proof {
            lemma2_to64();
            assert(m * pow2(0) == m);
        }
        while x < least
            invariant
                0 < m <= 0x8000_0000_0000_0000,
                least == EXPONENT_WEIGHT * BILLION,
                x == m * pow2(k as nat),
                x < 2 * least,
                k <= 100,
                x >= 1,
            decreases 2 * least - x,
        {
            proof {
                lemma_pow2_unfold((k + 1) as nat);
                assert(m * (2 * pow2(k as nat)) == 2 * (m * pow2(k as nat))) by (nonlinear_arith);
                lemma_small_shift(m as int, k as nat);
            }
            x = x * 2;
            k = k + 1;
        }
        proof {
            assert(is_shift(m as int, k as nat));
            lemma_nano_range(m as int, k as nat);
            let c = choose|c: nat| #[trigger] is_shift(m as int, c);
            lemma_one_shift(m as int, c, k as nat);
        }
        let q: u128 = x / 1_000_000_000;
        let rest: u128 = x % 1_000_000_000;
        let s: u128 = if 2 * rest > 1_000_000_000 || (2 * rest == 1_000_000_000 && q % 2 == 1) {
            q + 1
        } else {
            q
        };
        assert(s == even_quotient(m * pow2(k as nat), BILLION as int));
        let bits: u64 = (1074 - k) * EXPONENT_WEIGHT + s as u64;
        if n < 0 {
            Double { bits: SIGN_WEIGHT + bits }
        } else {
            Double { bits }
        }
    }
}

proof fn lemma_small_shift(m: int, k: nat)
    requires
        0 < m,
        m * pow2(k) < EXPONENT_WEIGHT * BILLION,
    ensures
        k < 83,
{
    if k >= 83 {
        lemma2_to64();
        lemma2_to64_rest();
        lemma_pow2_adds(63, 20);
        if k > 83 {
            lemma_pow2_strictly_increases(83, k);
        }
        assert(m * pow2(k) >= pow2(83)) by (nonlinear_arith)
            requires
                m >= 1,
                pow2(k) >= pow2(83),
        ;
    }
}

/// Billionths survive the way through a double: up to four and a half million
/// units, reading back the double nearest to a number of billionths gives the
/// number.
pub proof fn law_nanos_round_trip(n: i64)
    requires
        -0x10_0000_0000_0000 <= n <= 0x10_0000_0000_0000,
    ensures
        nano_double(n).nanos() == Some(n),
{
    let m = if n >= 0 {
        n as int
    } else {
        -(n as int)
    };
    if m == 0 {
        lemma_zero_nanos();
    } else {
        lemma_shift_exists(m);
        let k = choose|k: nat| #[trigger] is_shift(m, k);
        lemma_nano_range(m, k);
        lemma_nano_reads_back(m, k, nano_double(n));
    }
}

proof fn lemma_shift_exists(m: int)
    requires
        0 < m <= 0x8000_0000_0000_0000,
    ensures
        exists|k: nat| #[trigger] is_shift(m, k),
{
    lemma2_to64();
    assert(m * pow2(0) == m);
    lemma_shift_from(m, 0);
}

proof fn lemma_shift_from(m: int, k: nat)
    requires
        0 < m,
        m * pow2(k) < 2 * EXPONENT_WEIGHT * BILLION,
        k <= 83,
    ensures
        exists|j: nat| #[trigger] is_shift(m, j),
    decreases 84 - k,
{
    if m * pow2(k) >= EXPONENT_WEIGHT * BILLION {
        assert(is_shift(m, k));
    } else {
        lemma_small_shift(m, k);
        lemma_pow2_unfold((k + 1) as nat);
        assert(m * (2 * pow2(k)) == 2 * (m * pow2(k))) by (nonlinear_arith);
        lemma_shift_from(m, k + 1);
    }
}

proof fn lemma_zero_nanos()
    ensures
        (Double { bits: 0 }).nanos() == Some(0i64),
{
    let d = Double { bits: 0 };
    let unit = pow2(1075) as int;
    lemma2_to64();
    lemma2_to64_rest();
    lemma_pow2_adds(63, 37);
    lemma_pow2_strictly_increases(100, 1075);
    let top = 2 * d.significand() * 1_000_000_000;
    assert(0 <= top < unit);
    assert((top + unit) / (2 * unit) == 0) by (nonlinear_arith)
        requires
            0 <= top < unit,
    ;
}

proof fn lemma_nano_reads_back(m: int, k: nat, d: Double)
    requires
        0 < m <= 0x10_0000_0000_0000,
        is_shift(m, k),
        d.magnitude() == nano_magnitude(m, k),
    ensures
        d.finite(),
        scaled_magnitude(d, 1_000_000_000) == m,
{
    lemma_nano_range(m, k);
    lemma2_to64();
    let a = m * pow2(k);
    let s = even_quotient(a, BILLION as int);
    lemma_even_quotient(a, BILLION as int);
    // Small enough that the rounding of the double is worth less than half a billionth.
    if k < 30 {
        if k < 29 {
            lemma_pow2_strictly_increases(k, 29);
        }
        assert(m * pow2(k) <= 0x10_0000_0000_0000 * 0x2000_0000) by (nonlinear_arith)
            requires
                0 < m <= 0x10_0000_0000_0000,
                0 <= pow2(k) <= 0x2000_0000,
        ;
    }
    if k > 30 {
        lemma_pow2_strictly_increases(30, k);
    }
    let unit = pow2(k) as int;
    assert(unit >= 0x4000_0000);
    if s < 2 * EXPONENT_WEIGHT {
        lemma_split_bits(1075 - k, s - EXPONENT_WEIGHT, d);
        assert(d.significand() == s);
        assert((2 * s * 1_000_000_000 + unit) / (2 * unit) == m) by (nonlinear_arith)
            requires
                -1_000_000_000 <= 2 * (s * 1_000_000_000 - m * unit) <= 1_000_000_000,
                unit >= 0x4000_0000,
        ;
        assert(2 * d.significand() * 1_000_000_000 == 2 * s * 1_000_000_000);
    } else {
        let half = pow2((k - 1) as nat) as int;
        lemma_pow2_unfold(k);
        assert(unit == 2 * half);
        lemma_split_bits(1076 - k, 0, d);
        assert(d.significand() == EXPONENT_WEIGHT);
        assert((2 * EXPONENT_WEIGHT * 1_000_000_000 + half) / (2 * half) == m) by (nonlinear_arith)
            requires
                -1_000_000_000 <= 2 * (2 * EXPONENT_WEIGHT * 1_000_000_000 - m * (2 * half)) <= 1_000_000_000,
                2 * half >= 0x4000_0000,
        ;
    }
}

proof fn lemma_split_bits(e: int, f: int, d: Double)
    requires
        0 <= f < EXPONENT_WEIGHT,
        e >= 0,
        d.magnitude() == e * EXPONENT_WEIGHT + f,
    ensures
        d.exponent() == e,
        d.significand() == EXPONENT_WEIGHT + f,
{
    assert((e * EXPONENT_WEIGHT + f) / (EXPONENT_WEIGHT as int) == e && (e * EXPONENT_WEIGHT + f) % (EXPONENT_WEIGHT as int)
        == f) by (nonlinear_arith)
        requires
            0 <= f < EXPONENT_WEIGHT,
            EXPONENT_WEIGHT > 0,
    ;
}

/// Trichotomy: of two numbers exactly one is less, or they are equal.
pub proof fn law_order_is_total(a: Double, b: Double)
    requires
        !a.nan(),
        !b.nan(),
    ensures
        a.less(b) || b.less(a) || a.equals(b),
        !(a.less(b) && b.less(a)),
        a.equals(b) ==> !a.less(b) && !b.less(a),
        a.at_most(b) == !b.less(a),
{
}

/// Negation reverses the order.
pub proof fn law_negation_reverses_order(a: Double, b: Double, na: Double, nb: Double)
    requires
        na.rank() == -a.rank(),
        nb.rank() == -b.rank(),
        na.nan() == a.nan(),
        nb.nan() == b.nan(),
    ensures
        a.less(b) == nb.less(na),
{
}

/// A double's exponent and significand are the two parts of its magnitude.
pub proof fn law_parts_make_the_magnitude(d: Double)
    ensures
        d.magnitude() == d.exponent() * 0x10_0000_0000_0000 + (d.significand() - 0x10_0000_0000_0000),
        0x10_0000_0000_0000 <= d.significand() < 0x20_0000_0000_0000,
        0 <= d.exponent() < 2048,
{
}

/// The whole part is the largest integer that is not above the magnitude.
pub proof fn law_whole_part_is_below(d: Double)
    ensures
        d.exponent() < 1023 ==> d.whole() == 0,
        1023 <= d.exponent() <= 1075 ==> {
            let unit = pow2((1075 - d.exponent()) as nat);
            d.whole() * unit <= d.significand() < (d.whole() + 1) * unit
        },
        d.exponent() > 1075 ==> d.whole() == d.significand() * pow2((d.exponent() - 1075) as nat),
{
    if 1023 <= d.exponent() <= 1075 {
        let unit = pow2((1075 - d.exponent()) as nat) as int;
        lemma_pow2_pos((1075 - d.exponent()) as nat);
        let s = d.significand();
        vstd::arithmetic::div_mod::lemma_fundamental_div_mod(s, unit);
        vstd::arithmetic::div_mod::lemma_mod_bound(s, unit);
        let q = s / unit;
        assert(q >= 0) by (nonlinear_arith)
            requires
                s >= 0,
                unit > 0,
                q == s / unit,
        ;
        assert(d.whole() == q);
        assert(q * unit <= s < (q + 1) * unit) by (nonlinear_arith)
            requires
                s == unit * q + s % unit,
                0 <= s % unit < unit,
        ;
    } else if d.exponent() > 1075 {
        lemma_pow2_pos((d.exponent() - 1075) as nat);
        assert(d.significand() * pow2((d.exponent() - 1075) as nat) >= 0) by (nonlinear_arith)
            requires
                d.significand() >= 0,
                pow2((d.exponent() - 1075) as nat) > 0,
        ;
    }
}

/// A double as a count: the whole part where it is in range, the nearest end
/// of the range where it is not, zero where it is no number.
pub proof fn law_counts_are_cut_to_range(d: Double, max: nat)
    ensures
        d.nan() || d.signed() ==> d.clamped(max) == 0,
        !d.signed() && d.finite() && d.whole() <= max ==> d.clamped(max) == d.whole(),
        !d.signed() && d.finite() && d.whole() > max ==> d.clamped(max) == max,
        !d.signed() && d.bits == 0x7ff0_0000_0000_0000 ==> d.clamped(max) == max,
{
}

/// A double as a signed count: the whole part with its sign where it is in
/// range, the nearest end of the range where it is not.
pub proof fn law_signed_counts_are_cut_to_range(d: Double, min: int, max: int)
    requires
        min <= 0 <= max,
    ensures
        min <= d.clamped_signed(min, max) <= max,
        d.nan() ==> d.clamped_signed(min, max) == 0,
        !d.signed() && d.finite() && d.whole() <= max ==> d.clamped_signed(min, max) == d.whole(),
        d.signed() && d.finite() && -d.whole() >= min ==> d.clamped_signed(min, max) == -d.whole(),
        !d.signed() && !d.nan() && d.whole() > max ==> d.clamped_signed(min, max) == max,
        d.signed() && !d.nan() && -d.whole() < min ==> d.clamped_signed(min, max) == min,
{
}

/// A magnitude in parts of `scale` is the nearest whole number of them.
pub proof fn law_scaled_is_nearest(d: Double, scale: int)
    requires
        scale > 0,
    ensures
        d.exponent() >= 1075 ==> scaled_magnitude(d, scale) == d.significand() * scale * pow2(
            (d.exponent() - 1075) as nat,
        ),
        d.exponent() < 1075 ==> {
            let unit = pow2((1075 - d.exponent()) as nat);
            -unit <= 2 * (scaled_magnitude(d, scale) * unit - d.significand() * scale) <= unit
        },
{
    if d.exponent() < 1075 {
        let unit = pow2((1075 - d.exponent()) as nat) as int;
        lemma_pow2_pos((1075 - d.exponent()) as nat);
        let x = d.significand() * scale;
        let m = (2 * x + unit) / (2 * unit);
        assert(2 * d.significand() * scale == 2 * x) by (nonlinear_arith)
            requires
                x == d.significand() * scale,
        ;
        vstd::arithmetic::div_mod::lemma_fundamental_div_mod(2 * x + unit, 2 * unit);
        vstd::arithmetic::div_mod::lemma_mod_bound(2 * x + unit, 2 * unit);
        assert(2 * unit * m == 2 * (m * unit)) by (nonlinear_arith);
    }
}

/// A price or an amount keeps its sign and is read to the nearest billionth;
/// one that is too large is cut to the largest, and what is no number is
/// zero.
pub proof fn law_billionths_keep_the_sign(d: Double)
    ensures
        d.nan() ==> d.billionths() == 0,
        d.finite() && scaled_magnitude(d, 1_000_000_000) <= i64::MAX ==> d.nanos() == Some(d.billionths()),
        d.finite() && scaled_magnitude(d, 1_000_000_000) <= i64::MAX && !d.signed() ==> d.billionths()
            == scaled_magnitude(d, 1_000_000_000),
        d.finite() && scaled_magnitude(d, 1_000_000_000) <= i64::MAX && d.signed() ==> d.billionths()
            == -scaled_magnitude(d, 1_000_000_000),
        !d.nan() && (!d.finite() || scaled_magnitude(d, 1_000_000_000) > i64::MAX) ==> d.nanos() is None,
        !d.nan() && d.nanos() is None && !d.signed() ==> d.billionths() == i64::MAX,
        !d.nan() && d.nanos() is None && d.signed() ==> d.billionths() == i64::MIN,
{
    lemma_scaled_not_negative(d, 1_000_000_000);
}

/// A magnitude in parts of `scale` is the nearest whole number of them, and of
/// two that are as near the even one.
pub proof fn law_halves_go_to_even(d: Double, scale: int)
    requires
        scale > 0,
    ensures
        d.exponent() >= 1075 ==> even_magnitude(d, scale) == d.significand() * scale * pow2((d.exponent() - 1075) as nat),
        d.exponent() < 1075 ==> {
            let unit = pow2((1075 - d.exponent()) as nat);
            let off = 2 * (even_magnitude(d, scale) * unit - d.significand() * scale);
            &&& -unit <= off <= unit
            &&& off == unit || off == -unit ==> even_magnitude(d, scale) % 2 == 0
        },
{
    if d.exponent() < 1075 {
        let b = pow2((1075 - d.exponent()) as nat) as int;
        lemma_pow2_pos((1075 - d.exponent()) as nat);
        let a = d.significand() * scale;
        assert(a >= 0) by (nonlinear_arith)
            requires
                a == d.significand() * scale,
                d.significand() >= 0,
                scale > 0,
        ;
        lemma_even_quotient(a, b);
        let q = a / b;
        vstd::arithmetic::div_mod::lemma_fundamental_div_mod(a, b);
        assert(b * q == q * b) by (nonlinear_arith);
        assert((q + 1) * b == q * b + b) by (nonlinear_arith);
    }
}

/// A larger amount that is neither infinite nor beyond the limit is read as a
/// number of billionths up to the limit, with its sign.
pub proof fn law_wide_amounts_keep_the_sign(d: Double)
    ensures
        d.nan() ==> d.wide() == 0,
        !d.signed() ==> d.wide() >= 0,
        d.signed() ==> d.wide() <= 0,
        d.finite() && d.exponent() <= 1086 && !d.signed() ==> d.wide() == even_magnitude(d, 1_000_000_000),
        d.finite() && d.exponent() <= 1086 && d.signed() ==> d.wide() == -even_magnitude(d, 1_000_000_000),
        d.finite() && d.exponent() <= 1086 ==> 0 <= even_magnitude(d, 1_000_000_000) <= WIDE_LIMIT,
{
    if d.finite() && d.exponent() <= 1086 {
        lemma_even_range(d, 1_000_000_000);
    }
}

/// A magnitude that is not too large stays within twenty digits.
pub proof fn lemma_even_range(d: Double, scale: int)
    requires
        scale > 0,
        d.exponent() <= 1086,
    ensures
        0 <= even_magnitude(d, scale) <= 0x1_0000_0000_0000_0000 * scale,
{
    let s = d.significand();
    let a = s * scale;
    assert(0 <= a <= 0x20_0000_0000_0000 * scale) by (nonlinear_arith)
        requires
            0 <= s <= 0x20_0000_0000_0000,
            scale > 0,
            a == s * scale,
    ;
    if d.exponent() >= 1075 {
        let k = (d.exponent() - 1075) as nat;
        lemma2_to64();
        lemma_pow2_pos(k);
        if k < 11 {
            lemma_pow2_strictly_increases(k, 11);
        }
        let p = pow2(k) as int;
        assert(0 <= a * p <= 0x20_0000_0000_0000 * scale * 2048) by (nonlinear_arith)
            requires
                0 <= a <= 0x20_0000_0000_0000 * scale,
                0 < p <= 2048,
                scale > 0,
        ;
    } else {
        let b = pow2((1075 - d.exponent()) as nat) as int;
        lemma_pow2_pos((1075 - d.exponent()) as nat);
        lemma_even_quotient(a, b);
        assert(0 <= a / b <= a) by (nonlinear_arith)
            requires
                a >= 0,
                b > 0,
        ;
    }
}

proof fn lemma_fractions_floor(a: int, b: int, c: int, d: int)
    requires
        a >= 0,
        b > 0,
        d > 0,
        a * d <= c * b,
    ensures
        a / b <= c / d,
{
    let q = a / b;
    assert(q * b <= a) by (nonlinear_arith)
        requires
            b > 0,
            q == a / b,
    ;
    assert(q * d <= c) by (nonlinear_arith)
        requires
            q * b <= a,
            a * d <= c * b,
            b > 0,
            d > 0,
    ;
    assert(q <= c / d) by (nonlinear_arith)
        requires
            q * d <= c,
            d > 0,
    ;
}

/// A larger double is not read as a smaller amount.
pub proof fn law_scaled_grows(x: Double, y: Double, scale: int)
    requires
        scale > 0,
        x.magnitude() <= y.magnitude(),
    ensures
        scaled_magnitude(x, scale) <= scaled_magnitude(y, scale),
{
    law_parts_make_the_magnitude(x);
    law_parts_make_the_magnitude(y);
    let e = x.exponent();
    let f = y.exponent();
    let s = x.significand();
    let t = y.significand();
    assert(e <= f);
    assert(e == f ==> s <= t);
    let ux = if e < 1075 {
        pow2((1075 - e) as nat) as int
    } else {
        1
    };
    let uy = if f < 1075 {
        pow2((1075 - f) as nat) as int
    } else {
        1
    };
    let px = if e < 1075 {
        1
    } else {
        pow2((e - 1075) as nat) as int
    };
    let py = if f < 1075 {
        1
    } else {
        pow2((f - 1075) as nat) as int
    };
    lemma2_to64();
    if e < 1075 {
        lemma_pow2_pos((1075 - e) as nat);
    } else {
        lemma_pow2_pos((e - 1075) as nat);
    }
    if f < 1075 {
        lemma_pow2_pos((1075 - f) as nat);
    } else {
        lemma_pow2_pos((f - 1075) as nat);
    }
    // The values compare as the magnitudes do: s * px / ux <= t * py / uy.
    assert(s * px * uy <= t * py * ux) by {
        let step = pow2((f - e) as nat) as int;
        lemma_pow2_pos((f - e) as nat);
        assert(py * ux == px * uy * step) by {
            if f < 1075 {
                lemma_pow2_adds((1075 - f) as nat, (f - e) as nat);
                assert(uy * step == ux);
                assert(py * ux == px * uy * step) by (nonlinear_arith)
                    requires
                        py == 1,
                        px == 1,
                        uy * step == ux,
                ;
            } else if e < 1075 {
                lemma_pow2_adds((1075 - e) as nat, (f - 1075) as nat);
                assert(ux * py == step);
                assert(py * ux == px * uy * step) by (nonlinear_arith)
                    requires
                        uy == 1,
                        px == 1,
                        ux * py == step,
                ;
            } else {
                lemma_pow2_adds((e - 1075) as nat, (f - e) as nat);
                assert(px * step == py);
                assert(py * ux == px * uy * step) by (nonlinear_arith)
                    requires
                        uy == 1,
                        ux == 1,
                        px * step == py,
                ;
            }
        }
        assert(s <= t * step) by {
            if e == f {
                assert(step == 1);
            } else {
                if f - e > 1 {
                    lemma_pow2_strictly_increases(1, (f - e) as nat);
                }
                assert(step >= 2);
                assert(s <= t * step) by (nonlinear_arith)
                    requires
                        s < 0x20_0000_0000_0000,
                        t >= 0x10_0000_0000_0000,
                        step >= 2,
                ;
            }
        }
        let w = px * uy;
        assert(w > 0) by (nonlinear_arith)
            requires
                px > 0,
                uy > 0,
                w == px * uy,
        ;
        assert(s * px * uy == s * w) by (nonlinear_arith)
            requires
                w == px * uy,
        ;
        assert(t * py * ux == t * step * w) by (nonlinear_arith)
            requires
                py * ux == w * step,
        ;
        assert(s * w <= t * step * w) by (nonlinear_arith)
            requires
                s <= t * step,
                w > 0,
        ;
    }
    let a = s * scale * px;
    let c = t * scale * py;
    assert(a * uy <= c * ux) by (nonlinear_arith)
        requires
            s * px * uy <= t * py * ux,
            scale > 0,
            a == s * scale * px,
            c == t * scale * py,
    ;
    assert(a >= 0 && c >= 0) by (nonlinear_arith)
        requires
            s > 0,
            t > 0,
            scale > 0,
            px > 0,
            py > 0,
            a == s * scale * px,
            c == t * scale * py,
    ;
    assert((2 * a + ux) * (2 * uy) <= (2 * c + uy) * (2 * ux)) by (nonlinear_arith)
        requires
            a * uy <= c * ux,
    ;
    lemma_fractions_floor(2 * a + ux, 2 * ux, 2 * c + uy, 2 * uy);
    lemma_scaled_as_fraction(x, scale, a, ux, px);
    lemma_scaled_as_fraction(y, scale, c, uy, py);
}

proof fn lemma_scaled_as_fraction(d: Double, scale: int, a: int, unit: int, power: int)
    requires
        a == d.significand() * scale * power,
        d.exponent() < 1075 ==> unit == pow2((1075 - d.exponent()) as nat) && power == 1,
        d.exponent() >= 1075 ==> unit == 1 && power == pow2((d.exponent() - 1075) as nat),
    ensures
        scaled_magnitude(d, scale) == (2 * a + unit) / (2 * unit),
{
    if d.exponent() < 1075 {
        assert(2 * d.significand() * scale == 2 * a) by (nonlinear_arith)
            requires
                a == d.significand() * scale * power,
                power == 1,
        ;
    } else {
        assert((2 * a + 1) / 2 == a);
    }
}

/// Of two amounts the larger is not read as the smaller number of billionths.
pub proof fn law_billionths_follow_the_order(x: Double, y: Double)
    requires
        x.at_most(y),
    ensures
        x.billionths() <= y.billionths(),
{
    lemma_scaled_not_negative(x, 1_000_000_000);
    lemma_scaled_not_negative(y, 1_000_000_000);
    if !x.signed() && !y.signed() {
        law_scaled_grows(x, y, 1_000_000_000);
    } else if x.signed() && y.signed() {
        law_scaled_grows(y, x, 1_000_000_000);
    } else if !x.signed() && y.signed() {
        assert(x.magnitude() == 0 && y.magnitude() == 0);
        lemma_zero_magnitude(x);
        lemma_zero_magnitude(y);
    }
}

proof fn lemma_zero_magnitude(d: Double)
    requires
        d.magnitude() == 0,
    ensures
        scaled_magnitude(d, 1_000_000_000) == 0,
{
    let z = Double { bits: 0 };
    lemma_zero_nanos();
    law_scaled_grows(d, z, 1_000_000_000);
    lemma_scaled_not_negative(d, 1_000_000_000);
}

} // verus!
