//! Numbers as people read them.

use crate::double::{even_magnitude, lemma_scaled_not_negative, scaled_magnitude, Double};
use crate::text::{digit_char, digit_of, digits, digits_value, law_digits_read_back, push_u64};
use vstd::arithmetic::power2::{lemma2_to64, lemma_pow2_unfold, pow2};
use vstd::prelude::*;
use vstd::string::*;

verus! {

/// A power of ten.
pub open spec fn tens(k: nat) -> int
    decreases k,
{
    if k == 0 {
        1
    } else {
        10 * tens((k - 1) as nat)
    }
}

/// The `k` lowest digits of a number.
pub open spec fn low_digits(n: int, k: nat) -> Seq<char>
    decreases k,
{
    if k == 0 {
        Seq::<char>::empty()
    } else {
        low_digits(n / 10, (k - 1) as nat).push(digit_char((n % 10) as nat))
    }
}

/// What is written for a number that is not known.
pub open spec fn unknown_text() -> Seq<char> {
    "—"@
}

/// A number with this many decimals, rounded to the nearest and halves to the
/// even digit, with a sign where it is negative or `plus` asks for one.
pub open spec fn fixed_text(d: Double, decimals: nat, plus: bool) -> Seq<char> {
    let m = even_magnitude(d, tens(decimals));
    let sign = if d.signed() {
        "-"@
    } else if plus {
        "+"@
    } else {
        ""@
    };
    if d.nan() {
        "NaN"@
    } else if !d.finite() {
        sign + "inf"@
    } else {
        sign + digits((m / tens(decimals)) as nat) + (if decimals == 0 {
            ""@
        } else {
            "."@ + low_digits(m, decimals)
        })
    }
}

fn push_low_digits(out: &mut String, n: u128, k: u32)
    ensures
        final(out)@ == old(out)@ + low_digits(n as int, k as nat),
    decreases k,
{
    if k > 0 {
        push_low_digits(out, n / 10, k - 1);
        out.push(digit_of((n % 10) as u64));
    }
    assert(out@ =~= old(out)@ + low_digits(n as int, k as nat));
}

fn push_u128(out: &mut String, n: u128)
    ensures
        final(out)@ == old(out)@ + digits(n as nat),
    decreases n,
{
    if n < 10 {
        out.push(digit_of(n as u64));
    } else {
        push_u128(out, n / 10);
        out.push(digit_of((n % 10) as u64));
    }
    assert(out@ =~= old(out)@ + digits(n as nat));
}

// Numbers of any length

/// What digits, the lowest first, add up to.
pub open spec fn sum_of(v: Seq<u8>) -> int
    decreases v.len(),
{
    if v.len() == 0 {
        0
    } else {
        v[0] + 10 * sum_of(v.skip(1))
    }
}

/// Whether these are a positive number's digits, the lowest first.
pub open spec fn is_number(v: Seq<u8>) -> bool {
    &&& v.len() > 0
    &&& v.last() > 0
    &&& forall|i: int| 0 <= i < v.len() ==> #[trigger] v[i] < 10
}

proof fn lemma_tail(v: Seq<u8>)
    requires
        is_number(v),
        v.len() > 1,
    ensures
        is_number(v.skip(1)),
{
    assert(v.skip(1).last() == v.last());
}

proof fn lemma_positive(v: Seq<u8>)
    requires
        is_number(v),
    ensures
        sum_of(v) > 0,
    decreases v.len(),
{
    if v.len() > 1 {
        lemma_tail(v);
        lemma_positive(v.skip(1));
    } else {
        assert(v.skip(1) =~= Seq::<u8>::empty());
        assert(sum_of(v.skip(1)) == 0);
    }
}

proof fn lemma_front(d: u8, rest: Seq<u8>)
    ensures
        sum_of(seq![d] + rest) == d + 10 * sum_of(rest),
{
    assert((seq![d] + rest).skip(1) =~= rest);
}

/// Appends a number's digits, the lowest first.
fn split_digits(out: &mut Vec<u8>, n: u64)
    requires
        n > 0,
    ensures
        final(out)@.len() > old(out)@.len(),
        final(out)@.take(old(out)@.len() as int) == old(out)@,
        is_number(final(out)@.skip(old(out)@.len() as int)),
        sum_of(final(out)@.skip(old(out)@.len() as int)) == n,
    decreases n,
{
    let ghost before = out@;
    let d: u8 = (n % 10) as u8;
    out.push(d);
    let ghost mid = out@;
    if n >= 10 {
        split_digits(out, n / 10);
        proof {
            let rest = out@.skip(mid.len() as int);
            assert(out@.take(mid.len() as int) == mid);
            assert(out@[before.len() as int] == mid[before.len() as int]);
            assert(out@.skip(before.len() as int) =~= seq![d] + rest);
            lemma_front(d, rest);
            assert(out@.take(before.len() as int) =~= mid.take(before.len() as int));
        }
    } else {
        proof {
            assert(out@.skip(before.len() as int) =~= seq![d] + Seq::<u8>::empty());
            lemma_front(d, Seq::<u8>::empty());
        }
    }
    assert(mid.take(before.len() as int) =~= before);
}

/// Appends the digits of twice a number, from its `i`-th digit on, plus a
/// carry.
fn double_from(v: &Vec<u8>, i: usize, carry: u8, out: &mut Vec<u8>)
    requires
        is_number(v@),
        i < v@.len(),
        carry <= 1,
    ensures
        final(out)@.len() > old(out)@.len(),
        final(out)@.take(old(out)@.len() as int) == old(out)@,
        is_number(final(out)@.skip(old(out)@.len() as int)),
        sum_of(final(out)@.skip(old(out)@.len() as int)) == 2 * sum_of(v@.skip(i as int)) + carry,
    decreases v@.len() - i,
{
    let ghost before = out@;
    let t: u8 = 2 * v[i] + carry;
    let d: u8 = t % 10;
    let c: u8 = t / 10;
    out.push(d);
    let ghost mid = out@;
    assert(v@.skip(i as int).skip(1) =~= v@.skip(i + 1));
    assert(sum_of(v@.skip(i as int)) == v@[i as int] + 10 * sum_of(v@.skip(i + 1)));
    if v.len() - i > 1 {
        double_from(v, i + 1, c, out);
        proof {
            let rest = out@.skip(mid.len() as int);
            assert(out@.take(mid.len() as int) == mid);
            assert(out@[before.len() as int] == mid[before.len() as int]);
            assert(out@.skip(before.len() as int) =~= seq![d] + rest);
            lemma_front(d, rest);
            assert(out@.take(before.len() as int) =~= mid.take(before.len() as int));
        }
    } else {
        assert(v@[i as int] == v@.last());
        assert(v@.skip(i + 1) =~= Seq::<u8>::empty());
        assert(sum_of(Seq::<u8>::empty()) == 0);
        if c > 0 {
            out.push(c);
            proof {
                assert(out@.skip(before.len() as int) =~= seq![d] + (seq![c] + Seq::<u8>::empty()));
                lemma_front(d, seq![c] + Seq::<u8>::empty());
                lemma_front(c, Seq::<u8>::empty());
                assert(out@.take(before.len() as int) =~= before);
            }
        } else {
            proof {
                assert(out@.skip(before.len() as int) =~= seq![d] + Seq::<u8>::empty());
                lemma_front(d, Seq::<u8>::empty());
                assert(out@.take(before.len() as int) =~= before);
            }
        }
    }
    assert(mid.take(before.len() as int) =~= before);
}

/// The digits of `n * 2^k`, the lowest first.
fn shifted_digits(n: u64, k: u64) -> (r: Vec<u8>)
    requires
        n > 0,
    ensures
        is_number(r@),
        sum_of(r@) == n * pow2(k as nat),
{
    let mut v: Vec<u8> = Vec::new();
    split_digits(&mut v, n);
    assert(v@.skip(0) =~= v@);
    let mut i: u64 = 0;
    proof {
        lemma2_to64();
    }
    while i < k
        invariant
            i <= k,
            is_number(v@),
            sum_of(v@) == n * pow2(i as nat),
        decreases k - i,
    {
        let mut w: Vec<u8> = Vec::new();
        double_from(&v, 0, 0, &mut w);
        proof {
            assert(v@.skip(0) =~= v@);
            assert(w@.skip(0) =~= w@);
            lemma_pow2_unfold((i + 1) as nat);
            assert(2 * (n * pow2(i as nat)) == n * (2 * pow2(i as nat))) by (nonlinear_arith);
        }
        v = w;
        i = i + 1;
    }
    v
}

/// Appends a number given by its digits, the lowest first.
fn push_number(out: &mut String, v: &Vec<u8>)
    requires
        is_number(v@),
    ensures
        final(out)@ == old(out)@ + digits(sum_of(v@) as nat),
{
    let ghost before = out@;
    let mut i: usize = v.len() - 1;
    out.push(digit_of(v[i] as u64));
    proof {
        assert(v@.skip(i as int) =~= seq![v@[i as int]] + Seq::<u8>::empty());
        lemma_front(v@[i as int], Seq::<u8>::empty());
        assert(out@ =~= before + digits(sum_of(v@.skip(i as int)) as nat));
    }
    while i > 0
        invariant
            i < v@.len(),
            is_number(v@),
            out@ == before + digits(sum_of(v@.skip(i as int)) as nat),
        decreases i,
    {
        proof {
            let rest = v@.skip(i as int);
            assert(rest.last() == v@.last());
            lemma_positive(rest);
            assert(v@.skip(i - 1).skip(1) =~= rest);
        }
        i = i - 1;
        out.push(digit_of(v[i] as u64));
        assert(out@ =~= before + digits(sum_of(v@.skip(i as int)) as nat));
    }
    assert(v@.skip(0) =~= v@);
}

proof fn lemma_low_zeros(n: int, k: nat)
    requires
        n >= 0,
    ensures
        low_digits(n * tens(k), k) == low_digits(0, k),
    decreases k,
{
    if k > 0 {
        let t = tens((k - 1) as nat);
        assert(n * (10 * t) == 10 * (n * t)) by (nonlinear_arith);
        assert((10 * (n * t)) / 10 == n * t && (10 * (n * t)) % 10 == 0);
        lemma_low_zeros(n, (k - 1) as nat);
    }
}

proof fn lemma_tens_positive(k: nat)
    ensures
        tens(k) > 0,
    decreases k,
{
    if k > 0 {
        lemma_tens_positive((k - 1) as nat);
    }
}

/// A whole number's digits stand before the point, and zeros behind it.
proof fn lemma_whole_number(d: Double, k: nat)
    requires
        d.exponent() >= 1075,
    ensures
        even_magnitude(d, tens(k)) / tens(k) == d.significand() * pow2((d.exponent() - 1075) as nat),
        low_digits(even_magnitude(d, tens(k)), k) == low_digits(0, k),
{
    let s = d.significand();
    let p = pow2((d.exponent() - 1075) as nat) as int;
    let t = tens(k);
    lemma_tens_positive(k);
    assert(s * t * p == (s * p) * t) by (nonlinear_arith);
    assert(s * p >= 0) by (nonlinear_arith)
        requires
            s >= 0,
            p >= 0,
    ;
    assert(((s * p) * t) / t == s * p) by (nonlinear_arith)
        requires
            t > 0,
    ;
    lemma_low_zeros(s * p, k);
}

/// A number with this many decimals.
pub fn fixed(d: Double, decimals: u32, plus: bool) -> (r: String)
    requires
        decimals <= 4,
    ensures
        r@ == fixed_text(d, decimals as nat, plus),
{
    let scale: u32 = if decimals == 0 {
        1
    } else if decimals == 1 {
        10
    } else if decimals == 2 {
        100
    } else if decimals == 3 {
        1000
    } else {
        10000
    };
    proof {
        reveal_with_fuel(tens, 5);
        reveal_strlit("");
    }
    if d.is_nan() {
        return "NaN".to_owned();
    }
    let mut out = if d.is_signed() {
        "-".to_owned()
    } else if plus {
        "+".to_owned()
    } else {
        "".to_owned()
    };
    let ghost sign = out@;
    if !d.is_finite() {
        out.append("inf");
        return out;
    }
    assert(scale == tens(decimals as nat));
    match d.to_even_magnitude(scale) {
        Some(m) => {
            assert(m == even_magnitude(d, tens(decimals as nat)));
            push_u128(&mut out, m / scale as u128);
            assert(out@ == sign + digits((m as int / tens(decimals as nat)) as nat));
            if decimals > 0 {
                out.append(".");
                push_low_digits(&mut out, m, decimals);
            }
        },
        None => {
            let (e, s) = d.split();
            let number = shifted_digits(s, e - 1075);
            proof {
                lemma_whole_number(d, decimals as nat);
            }
            push_number(&mut out, &number);
            assert(out@ == sign + digits((even_magnitude(d, tens(decimals as nat)) / tens(decimals as nat)) as nat));
            if decimals > 0 {
                out.append(".");
                push_low_digits(&mut out, 0, decimals);
            }
        },
    }
    assert(out@ =~= fixed_text(d, decimals as nat, plus));
    out
}

/// Bound, in ten-thousandths, below which a number is told by 15 digits.
pub const EXACT_LIMIT: u64 = 1_000_000_000_000_000;

/// The four decimals `f` without the zeros at their end; one always stays.
pub open spec fn short_decimals(f: int) -> Seq<char> {
    if f % 1000 == 0 {
        low_digits(f / 1000, 1)
    } else if f % 100 == 0 {
        low_digits(f / 100, 2)
    } else if f % 10 == 0 {
        low_digits(f / 10, 3)
    } else {
        low_digits(f, 4)
    }
}

/// The shortest text of a number rounded to four decimals, halves away from
/// zero. A number that four decimals cannot tell exactly keeps its own text.
pub open spec fn to_four_decimals(d: Double, text: Seq<char>) -> Seq<char> {
    let m = scaled_magnitude(d, 10000);
    if !d.finite() || m >= EXACT_LIMIT {
        text
    } else {
        (if d.signed() {
            "-"@
        } else {
            ""@
        }) + digits((m / 10000) as nat) + "."@ + short_decimals(m % 10000)
    }
}

/// A number's text, rounded to four decimals.
pub fn four_decimals(d: Double, text: &str) -> (r: String)
    ensures
        r@ == to_four_decimals(d, text@),
{
    let k: i64 = match d.to_scaled(10000) {
        Some(k) => k,
        None => {
            return text.to_owned();
        },
    };
    let m: u64 = if k < 0 {
        (-(k as i128)) as u64
    } else {
        k as u64
    };
    proof {
        lemma_scaled_not_negative(d, 10000);
    }
    if m >= EXACT_LIMIT {
        return text.to_owned();
    }
    proof {
        reveal_strlit("");
    }
    let mut out = if d.is_signed() {
        "-".to_owned()
    } else {
        "".to_owned()
    };
    push_u64(&mut out, m / 10000);
    out.append(".");
    let f: u64 = m % 10000;
    if f % 1000 == 0 {
        push_low_digits(&mut out, f as u128 / 1000, 1);
    } else if f % 100 == 0 {
        push_low_digits(&mut out, f as u128 / 100, 2);
    } else if f % 10 == 0 {
        push_low_digits(&mut out, f as u128 / 10, 3);
    } else {
        push_low_digits(&mut out, f as u128, 4);
    }
    assert(out@ =~= to_four_decimals(d, text@));
    out
}

/// Digits in groups of three.
pub open spec fn grouped_digits(s: Seq<char>) -> Seq<char>
    decreases s.len(),
{
    if s.len() <= 3 {
        s
    } else {
        grouped_digits(s.take(s.len() - 3)) + ","@ + s.skip(s.len() - 3)
    }
}

fn push_grouped(out: &mut String, n: u64)
    ensures
        final(out)@ == old(out)@ + grouped_digits(digits(n as nat)),
    decreases n,
{
    proof {
        lemma_last_three(n as nat);
    }
    if n < 1000 {
        push_u64(out, n);
    } else {
        push_grouped(out, n / 1000);
        out.append(",");
        push_low_digits(out, (n % 1000) as u128, 3);
        proof {
            let s = digits(n as nat);
            assert(s.len() > 3);
            assert(s.take(s.len() - 3) =~= digits((n / 1000) as nat));
            assert(s.skip(s.len() - 3) =~= low_digits((n % 1000) as int, 3));
        }
        assert(out@ =~= old(out)@ + grouped_digits(digits(n as nat)));
    }
}

proof fn lemma_last_three(n: nat)
    ensures
        n < 1000 ==> digits(n).len() <= 3,
        n >= 1000 ==> digits(n) == digits(n / 1000) + low_digits((n % 1000) as int, 3) && digits(n / 1000).len() >= 1
            && low_digits((n % 1000) as int, 3).len() == 3,
{
    reveal_with_fuel(digits, 5);
    reveal_with_fuel(low_digits, 4);
    if n >= 1000 {
        let a = n / 10;
        let b = a / 10;
        assert(b / 10 == n / 1000);
        assert(digits(n) =~= digits(a).push(digit_char(n % 10)));
        assert(digits(a) =~= digits(b).push(digit_char(a % 10)));
        assert(digits(b) =~= digits(b / 10).push(digit_char(b % 10)));
        let m = (n % 1000) as int;
        assert(m % 10 == n % 10);
        assert((m / 10) % 10 == a % 10);
        assert(((m / 10) / 10) % 10 == b % 10);
        assert(low_digits(m, 3) =~= seq![digit_char(b % 10), digit_char(a % 10), digit_char(n % 10)]);
        assert(digits(n) =~= digits(n / 1000) + low_digits(m, 3));
    }
}

/// A whole number of dollars with commas; cents are cut off.
pub open spec fn comma_text(v: Double) -> Seq<char> {
    (if v.below_zero() {
        "-"@
    } else {
        ""@
    }) + grouped_digits(digits(Double { bits: v.magnitude() as u64 }.clamped(u64::MAX as nat)))
}

/// A whole number of dollars with commas; cents are cut off.
pub fn comma_usd(v: Double) -> (r: String)
    ensures
        r@ == comma_text(v),
{
    let mut out = if v.is_negative() {
        "-".to_owned()
    } else {
        "".to_owned()
    };
    let n: u64 = v.abs().to_u64();
    push_grouped(&mut out, n);
    out
}

/// The lowest digits of a number read back as what is left of it beyond them.
pub proof fn law_low_digits_read_back(n: int, k: nat)
    requires
        n >= 0,
    ensures
        low_digits(n, k).len() == k,
        digits_value(low_digits(n, k)) == Some(n % tens(k)),
        tens(k) > 0,
    decreases k,
{
    lemma_tens_positive(k);
    if k > 0 {
        let j = (k - 1) as nat;
        lemma_tens_positive(j);
        law_low_digits_read_back(n / 10, j);
        let s = low_digits(n, k);
        assert(s.drop_last() =~= low_digits(n / 10, j));
        assert(digit_char((n % 10) as nat) as int == 48 + n % 10);
        assert(n % (10 * tens(j)) == 10 * ((n / 10) % tens(j)) + n % 10) by {
            vstd::arithmetic::div_mod::lemma_breakdown(n, 10, tens(j));
        }
    }
}

/// A number is shown with its sign, its whole part and as many decimals as are
/// asked for; read without the point these are the nearest number of the last
/// decimal's units, of two that are as near the even one.
pub proof fn law_fixed_text_shows_the_number(d: Double, decimals: nat, plus: bool)
    requires
        d.finite(),
        decimals > 0,
    ensures
        exists|whole: Seq<char>, rest: Seq<char>| #[trigger]
            (whole + "."@ + rest) == (if d.signed() || plus {
                fixed_text(d, decimals, plus).skip(1)
            } else {
                fixed_text(d, decimals, plus)
            }) && rest.len() == decimals && digits_value(whole) is Some && digits_value(rest) is Some && digits_value(whole)->0
                * tens(decimals) + digits_value(rest)->0 == even_magnitude(d, tens(decimals)),
        d.signed() ==> fixed_text(d, decimals, plus)[0] == '-',
        !d.signed() && plus ==> fixed_text(d, decimals, plus)[0] == '+',
        tens(1) == 10 && tens(2) == 100 && tens(3) == 1000 && tens(4) == 10000,
{
    reveal_with_fuel(tens, 5);
    reveal_strlit("-");
    reveal_strlit("+");
    reveal_strlit("");
    let t = tens(decimals);
    let m = even_magnitude(d, t);
    lemma_tens_positive(decimals);
    assert(m >= 0) by {
        lemma_even_not_negative(d, t);
    }
    let whole = digits((m / t) as nat);
    let rest = low_digits(m, decimals);
    law_low_digits_read_back(m, decimals);
    assert(m / t >= 0) by (nonlinear_arith)
        requires
            m >= 0,
            t > 0,
    ;
    law_digits_read_back((m / t) as nat);
    vstd::arithmetic::div_mod::lemma_fundamental_div_mod(m, t);
    assert((m / t) * t == t * (m / t)) by (nonlinear_arith);
    let text = fixed_text(d, decimals, plus);
    let shown = if d.signed() || plus {
        text.skip(1)
    } else {
        text
    };
    assert(shown =~= whole + "."@ + rest);
}

proof fn lemma_even_not_negative(d: Double, scale: int)
    requires
        scale > 0,
    ensures
        even_magnitude(d, scale) >= 0,
{
    let a = d.significand() * scale;
    assert(a >= 0) by (nonlinear_arith)
        requires
            a == d.significand() * scale,
            d.significand() >= 0,
            scale > 0,
    ;
    if d.exponent() >= 1075 {
        let p = pow2((d.exponent() - 1075) as nat) as int;
        assert(a * p >= 0) by (nonlinear_arith)
            requires
                a >= 0,
                p >= 0,
        ;
    } else {
        let b = pow2((1075 - d.exponent()) as nat) as int;
        vstd::arithmetic::power2::lemma_pow2_pos((1075 - d.exponent()) as nat);
        assert(a / b >= 0) by (nonlinear_arith)
            requires
                a >= 0,
                b > 0,
        ;
    }
}

/// A strike is written to four decimals, without zeros at the end but for one
/// behind the point: its whole part and its decimals add up to the nearest
/// number of ten-thousandths.
pub proof fn law_four_decimals_show_the_strike(d: Double, text: Seq<char>)
    requires
        d.finite(),
        scaled_magnitude(d, 10000) < 1_000_000_000_000_000,
    ensures
        exists|whole: Seq<char>, rest: Seq<char>| #[trigger]
            (whole + "."@ + rest) == (if d.signed() {
                to_four_decimals(d, text).skip(1)
            } else {
                to_four_decimals(d, text)
            }) && 1 <= rest.len() <= 4 && digits_value(whole) is Some && digits_value(rest) is Some && digits_value(whole)->0
                * 10000 + digits_value(rest)->0 * tens((4 - rest.len()) as nat) == scaled_magnitude(d, 10000) && (rest.len()
                > 1 ==> digits_value(rest)->0 % 10 != 0),
        d.signed() ==> to_four_decimals(d, text)[0] == '-',
{
    reveal_with_fuel(tens, 5);
    reveal_strlit("-");
    reveal_strlit("");
    let m = scaled_magnitude(d, 10000);
    lemma_scaled_not_negative(d, 10000);
    let f = m % 10000;
    let whole = digits((m / 10000) as nat);
    let rest = short_decimals(f);
    law_digits_read_back((m / 10000) as nat);
    law_low_digits_read_back(f / 1000, 1);
    law_low_digits_read_back(f / 100, 2);
    law_low_digits_read_back(f / 10, 3);
    law_low_digits_read_back(f, 4);
    assert(tens(0) == 1 && tens(1) == 10 && tens(2) == 100 && tens(3) == 1000 && tens(4) == 10000);
    let v = digits_value(rest)->0;
    if f % 1000 == 0 {
        assert(rest.len() == 1 && v == f / 1000 && tens((4 - rest.len()) as nat) == 1000);
        assert((f / 1000) * 1000 == f);
    } else if f % 100 == 0 {
        assert(rest.len() == 2 && v == f / 100 && tens((4 - rest.len()) as nat) == 100);
        assert((f / 100) * 100 == f);
    } else if f % 10 == 0 {
        assert(rest.len() == 3 && v == f / 10 && tens((4 - rest.len()) as nat) == 10);
        assert((f / 10) * 10 == f);
    } else {
        assert(rest.len() == 4 && v == f && tens((4 - rest.len()) as nat) == 1);
    }
    let t = tens((4 - rest.len()) as nat);
    assert(v * t == f) by {
        assert(t == 1000 ==> v * t == v * 1000);
        assert(t == 100 ==> v * t == v * 100);
        assert(t == 10 ==> v * t == v * 10);
        assert(t == 1 ==> v * t == v);
    }
    let all = to_four_decimals(d, text);
    let shown = if d.signed() {
        all.skip(1)
    } else {
        all
    };
    assert(shown =~= whole + "."@ + rest);
}

/// Commas part a number in threes from its end: every fourth place from the
/// end holds one, and no other place does.
pub proof fn law_commas_part_threes(s: Seq<char>, i: int)
    requires
        forall|k: int| 0 <= k < s.len() ==> #[trigger] s[k] != ',',
        0 <= i < grouped_digits(s).len(),
    ensures
        grouped_digits(s)[grouped_digits(s).len() - 1 - i] == ',' <==> i % 4 == 3,
    decreases s.len(),
{
    reveal_strlit(",");
    if s.len() > 3 {
        let front = s.take(s.len() - 3);
        let back = s.skip(s.len() - 3);
        let g = grouped_digits(front);
        let all = grouped_digits(s);
        assert(all =~= g + ","@ + back);
        let at = all.len() - 1 - i;
        if i < 3 {
            assert(all[at] == back[2 - i]);
            assert(back[2 - i] == s[s.len() - 1 - i]);
        } else if i > 3 {
            law_commas_part_threes(front, i - 4);
            assert(all[at] == g[g.len() - 1 - (i - 4)]);
        }
    } else {
        assert(s[s.len() - 1 - i] != ',');
    }
}

/// Without its commas a number is what it was.
pub proof fn law_commas_change_nothing_else(s: Seq<char>)
    requires
        forall|k: int| 0 <= k < s.len() ==> #[trigger] s[k] != ',',
    ensures
        grouped_digits(s).filter(|c: char| c != ',') == s,
    decreases s.len(),
{
    let keep = |c: char| c != ',';
    reveal_strlit(",");
    if s.len() > 3 {
        let front = s.take(s.len() - 3);
        let back = s.skip(s.len() - 3);
        law_commas_change_nothing_else(front);
        lemma_filter_all(back);
        Seq::filter_distributes_over_add(grouped_digits(front) + ","@, back, keep);
        Seq::filter_distributes_over_add(grouped_digits(front), ","@, keep);
        assert(","@.filter(keep) =~= Seq::<char>::empty()) by {
            reveal_with_fuel(Seq::filter, 2);
            assert(","@.drop_last() =~= Seq::<char>::empty());
            assert(","@.last() == ',');
        }
        assert(front + Seq::<char>::empty() + back =~= s);
    } else {
        lemma_filter_all(s);
    }
}

proof fn lemma_filter_all(s: Seq<char>)
    requires
        forall|k: int| 0 <= k < s.len() ==> #[trigger] s[k] != ',',
    ensures
        s.filter(|c: char| c != ',') == s,
    decreases s.len(),
{
    reveal(Seq::filter);
    if s.len() > 0 {
        lemma_filter_all(s.drop_last());
        assert(s.drop_last().push(s.last()) =~= s);
        assert(s.filter(|c: char| c != ',') =~= s);
    } else {
        assert(s.filter(|c: char| c != ',') =~= s);
    }
}

} // verus!
