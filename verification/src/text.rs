//! Text helpers: comparison, decimal numbers, upper case, splitting.

use vstd::prelude::*;
use vstd::string::*;
use vstd::utf8::*;

verus! {

/// `String::push` appends one character.
pub assume_specification[ String::push ](s: &mut String, c: char)
    ensures
        final(s)@ == old(s)@.push(c),
;

/// The characters of a string.
pub fn chars_of(s: &str) -> (r: Vec<char>)
    ensures
        r@ == s@,
{
    let mut out: Vec<char> = Vec::new();
    for c in it: s.chars()
        invariant
            out@ == it.seq().take(it.index()),
            it.seq() == s@,
    {
        out.push(c);
    }
    assert(out@ =~= s@);
    out
}

/// Whether two strings hold the same characters.
pub fn str_eq(a: &str, b: &str) -> (r: bool)
    ensures
        r == (a@ == b@),
{
    let x = a.as_bytes();
    let y = b.as_bytes();
    proof {
        encode_utf8_decode_utf8(a@);
        encode_utf8_decode_utf8(b@);
    }
    bytes_eq(x, y)
}

/// Whether two byte slices are equal.
pub fn bytes_eq(x: &[u8], y: &[u8]) -> (r: bool)
    ensures
        r == (x@ == y@),
{
    if x.len() != y.len() {
        return false;
    }
    let mut i: usize = 0;
    while i < x.len()
        invariant
            i <= x.len(),
            x.len() == y.len(),
            forall|j: int| 0 <= j < i ==> x@[j] == y@[j],
        decreases x.len() - i,
    {
        if x[i] != y[i] {
            return false;
        }
        i = i + 1;
    }
    assert(x@ =~= y@);
    true
}

/// The character of one decimal digit.
pub open spec fn digit_char(d: nat) -> char {
    (48 + d) as char
}

/// A natural number in decimal, without leading zeros.
pub open spec fn digits(n: nat) -> Seq<char>
    decreases n,
{
    if n < 10 {
        seq![digit_char(n)]
    } else {
        digits(n / 10).push(digit_char(n % 10))
    }
}

/// An integer in decimal, with a leading `-` where it is negative.
pub open spec fn int_text(i: int) -> Seq<char> {
    if i < 0 {
        seq!['-'] + digits((-i) as nat)
    } else {
        digits(i as nat)
    }
}

/// The character of a digit.
pub fn digit_of(d: u64) -> (c: char)
    requires
        d < 10,
    ensures
        c == digit_char(d as nat),
{
    if d == 0 {
        '0'
    } else if d == 1 {
        '1'
    } else if d == 2 {
        '2'
    } else if d == 3 {
        '3'
    } else if d == 4 {
        '4'
    } else if d == 5 {
        '5'
    } else if d == 6 {
        '6'
    } else if d == 7 {
        '7'
    } else if d == 8 {
        '8'
    } else {
        '9'
    }
}

/// Appends a number in decimal.
pub fn push_u64(out: &mut String, n: u64)
    ensures
        final(out)@ == old(out)@ + digits(n as nat),
    decreases n,
{
    if n < 10 {
        out.push(digit_of(n));
    } else {
        push_u64(out, n / 10);
        out.push(digit_of(n % 10));
    }
    assert(out@ =~= old(out)@ + digits(n as nat));
}

/// A number in decimal.
pub fn u64_text(n: u64) -> (r: String)
    ensures
        r@ == digits(n as nat),
{
    let mut out: String = String::new();
    push_u64(&mut out, n);
    assert(out@ =~= digits(n as nat));
    out
}

/// An integer in decimal.
pub fn i64_text(i: i64) -> (r: String)
    ensures
        r@ == int_text(i as int),
{
    let mut out: String = String::new();
    if i < 0 {
        out.push('-');
        let n: u64 = if i == i64::MIN {
            0x8000_0000_0000_0000
        } else {
            (-i) as u64
        };
        push_u64(&mut out, n);
        assert(out@ =~= seq!['-'] + digits(n as nat));
    } else {
        push_u64(&mut out, i as u64);
        assert(out@ =~= digits(i as nat));
    }
    out
}

/// White space, as Unicode defines it.
pub open spec fn white(c: char) -> bool {
    ||| '\u{9}' <= c <= '\u{d}'
    ||| c == ' '
    ||| c == '\u{85}'
    ||| c == '\u{a0}'
    ||| c == '\u{1680}'
    ||| '\u{2000}' <= c <= '\u{200a}'
    ||| c == '\u{2028}'
    ||| c == '\u{2029}'
    ||| c == '\u{202f}'
    ||| c == '\u{205f}'
    ||| c == '\u{3000}'
}

/// Whether a character is white space.
pub fn is_white(c: char) -> (r: bool)
    ensures
        r == white(c),
{
    ('\u{9}' <= c && c <= '\u{d}') || c == ' ' || c == '\u{85}' || c == '\u{a0}' || c == '\u{1680}' || ('\u{2000}' <= c && c
        <= '\u{200a}') || c == '\u{2028}' || c == '\u{2029}' || c == '\u{202f}' || c == '\u{205f}' || c == '\u{3000}'
}

/// Upper case of an ASCII letter; any other character as it is.
pub open spec fn upper_char(c: char) -> char {
    if 'a' <= c <= 'z' {
        (c as int - 32) as char
    } else {
        c
    }
}

/// ASCII upper case of a text.
pub open spec fn upper(s: Seq<char>) -> Seq<char> {
    s.map_values(|c: char| upper_char(c))
}

/// ASCII upper case of a character.
pub fn upper_of(c: char) -> (r: char)
    ensures
        r == upper_char(c),
{
    if 'a' <= c && c <= 'z' {
        let b: u8 = (c as u32) as u8 - 32;
        b as char
    } else {
        c
    }
}

/// ASCII upper case of a string.
pub fn to_upper(s: &str) -> (r: String)
    ensures
        r@ == upper(s@),
{
    let chars = chars_of(s);
    let mut out: String = String::new();
    let mut i: usize = 0;
    while i < chars.len()
        invariant
            i <= chars.len(),
            chars@ == s@,
            out@ == upper(s@.take(i as int)),
        decreases chars.len() - i,
    {
        out.push(upper_of(chars[i]));
        i = i + 1;
        assert(upper(s@.take(i as int)) =~= upper(s@.take(i - 1)).push(upper_char(s@[i - 1])));
    }
    assert(s@.take(i as int) =~= s@);
    out
}

/// ASCII lower case of a character.
pub open spec fn lower_char(c: char) -> char {
    if 'A' <= c <= 'Z' {
        (c as int + 32) as char
    } else {
        c
    }
}

/// ASCII lower case of a text.
pub open spec fn lower(s: Seq<char>) -> Seq<char> {
    s.map_values(|c: char| lower_char(c))
}

fn lower_of(c: char) -> (r: char)
    ensures
        r == lower_char(c),
{
    if 'A' <= c && c <= 'Z' {
        let b: u8 = (c as u32) as u8 + 32;
        b as char
    } else {
        c
    }
}

/// ASCII lower case of a text.
pub fn to_lower(s: &str) -> (r: String)
    ensures
        r@ == lower(s@),
{
    let chars = chars_of(s);
    let mut out: String = String::new();
    let mut i: usize = 0;
    while i < chars.len()
        invariant
            i <= chars.len(),
            chars@ == s@,
            out@ == lower(s@.take(i as int)),
        decreases chars.len() - i,
    {
        out.push(lower_of(chars[i]));
        i = i + 1;
        assert(lower(s@.take(i as int)) =~= lower(s@.take(i - 1)).push(lower_char(s@[i - 1])));
    }
    assert(s@.take(i as int) =~= s@);
    out
}

/// The pieces of a text between occurrences of a separator. There is one
/// more piece than there are separators, and no piece holds one.
pub open spec fn split_on(s: Seq<char>, sep: char) -> Seq<Seq<char>>
    decreases s.len(),
{
    if s.len() == 0 {
        seq![Seq::<char>::empty()]
    } else {
        let before = split_on(s.drop_last(), sep);
        if s.last() == sep {
            before.push(Seq::<char>::empty())
        } else {
            before.drop_last().push(before.last().push(s.last()))
        }
    }
}

/// [`split_on`] gives at least one piece.
pub proof fn lemma_split_nonempty(s: Seq<char>, sep: char)
    ensures
        split_on(s, sep).len() > 0,
    decreases s.len(),
{
    if s.len() > 0 {
        lemma_split_nonempty(s.drop_last(), sep);
    }
}

/// The characters of each string.
pub open spec fn char_views(v: Seq<String>) -> Seq<Seq<char>> {
    v.map_values(|s: String| s@)
}

/// Splits a text at a separator.
pub fn split_text(s: &str, sep: char) -> (r: Vec<String>)
    ensures
        char_views(r@) == split_on(s@, sep),
{
    let chars = chars_of(s);
    let mut done: Vec<String> = Vec::new();
    let mut open: String = String::new();
    let mut i: usize = 0;
    assert(char_views(done@).push(open@) =~= split_on(s@.take(0), sep));
    while i < chars.len()
        invariant
            i <= chars.len(),
            chars@ == s@,
            char_views(done@).push(open@) == split_on(s@.take(i as int), sep),
        decreases chars.len() - i,
    {
        let ghost head = s@.take(i as int);
        proof {
            assert(s@.take(i + 1).drop_last() =~= head);
            assert(s@.take(i + 1).last() == chars@[i as int]);
            assert(char_views(done@).push(open@).drop_last() =~= char_views(done@));
        }
        if chars[i] == sep {
            let ghost before = char_views(done@);
            let ghost piece = open@;
            done.push(open);
            open = String::new();
            proof {
                assert(char_views(done@) =~= before.push(piece));
                assert(open@ =~= Seq::<char>::empty());
            }
        } else {
            open.push(chars[i]);
        }
        i = i + 1;
    }
    let ghost before = char_views(done@);
    let ghost piece = open@;
    done.push(open);
    proof {
        assert(char_views(done@) =~= before.push(piece));
        assert(s@.take(i as int) =~= s@);
    }
    done
}

/// The number that a run of decimal digits denotes.
pub open spec fn digits_value(s: Seq<char>) -> Option<int>
    decreases s.len(),
{
    if s.len() == 0 {
        Some(0)
    } else if '0' <= s.last() <= '9' {
        match digits_value(s.drop_last()) {
            Some(v) => Some(10 * v + (s.last() as int - 48)),
            None => None,
        }
    } else {
        None
    }
}

/// The integer that a text denotes: decimal digits, at least one, behind an
/// optional sign.
pub open spec fn int_value(s: Seq<char>) -> Option<int> {
    if s.len() == 0 {
        None
    } else if s[0] == '-' || s[0] == '+' {
        if s.len() == 1 {
            None
        } else {
            match digits_value(s.skip(1)) {
                Some(v) => Some(if s[0] == '-' { -v } else { v }),
                None => None,
            }
        }
    } else {
        digits_value(s)
    }
}

/// What digits are worth is not negative.
pub proof fn lemma_digits_value_nonneg(s: Seq<char>)
    ensures
        digits_value(s) is Some ==> digits_value(s)->0 >= 0,
    decreases s.len(),
{
    if s.len() > 0 {
        lemma_digits_value_nonneg(s.drop_last());
    }
}

proof fn lemma_digits_value_grows(s: Seq<char>, n: int)
    requires
        0 <= n <= s.len(),
        digits_value(s) is Some,
    ensures
        digits_value(s.take(n)) is Some,
        0 <= digits_value(s.take(n))->0 <= digits_value(s)->0,
    decreases s.len(),
{
    if n == s.len() {
        assert(s.take(n) =~= s);
        if s.len() > 0 {
            lemma_digits_value_grows(s.drop_last(), (s.len() - 1) as int);
            assert(s.drop_last().take((s.len() - 1) as int) =~= s.drop_last());
        }
    } else {
        lemma_digits_value_grows(s.drop_last(), n);
        assert(s.drop_last().take(n) =~= s.take(n));
    }
}

proof fn lemma_digits_value_prefix(s: Seq<char>, n: int)
    requires
        0 <= n <= s.len(),
        digits_value(s.take(n)) is None,
    ensures
        digits_value(s) is None,
    decreases s.len() - n,
{
    if n < s.len() {
        assert(s.take(n + 1).drop_last() =~= s.take(n));
        lemma_digits_value_prefix(s, n + 1);
    } else {
        assert(s.take(n) =~= s);
    }
}

/// The value of the digits from `from` on, where it is at most 2^63.
fn digits_from(chars: &Vec<char>, from: usize) -> (r: Option<u64>)
    requires
        from <= chars.len(),
    ensures
        r == (match digits_value(chars@.skip(from as int)) {
            Some(v) => if v <= 0x8000_0000_0000_0000 {
                Some(v as u64)
            } else {
                None
            },
            None => None,
        }),
{
    let ghost s = chars@.skip(from as int);
    let mut v: u64 = 0;
    let mut i: usize = from;
    assert(s.take(0) =~= Seq::<char>::empty());
    while i < chars.len()
        invariant
            from <= i <= chars.len(),
            s == chars@.skip(from as int),
            v <= 0x8000_0000_0000_0000,
            digits_value(s.take(i - from)) == Some(v as int),
        decreases chars.len() - i,
    {
        let c: char = chars[i];
        let ghost k = i - from;
        proof {
            assert(s.take(k + 1).drop_last() =~= s.take(k));
            assert(s.take(k + 1).last() == c);
        }
        if !('0' <= c && c <= '9') {
            proof {
                lemma_digits_value_prefix(s, k + 1);
            }
            return None;
        }
        let d: u64 = (c as u32 - 48) as u64;
        if v > 922337203685477580 || (v == 922337203685477580 && d > 8) {
            proof {
                if digits_value(s) is Some {
                    lemma_digits_value_grows(s, k + 1);
                }
            }
            return None;
        }
        v = 10 * v + d;
        i = i + 1;
    }
    assert(s.take(i - from) =~= s);
    Some(v)
}

/// The integer that a text denotes, where it fits 64 bits.
pub fn parse_i64(s: &str) -> (r: Option<i64>)
    ensures
        r == (match int_value(s@) {
            Some(v) => if i64::MIN <= v <= i64::MAX {
                Some(v as i64)
            } else {
                None
            },
            None => None,
        }),
{
    let chars = chars_of(s);
    if chars.len() == 0 {
        return None;
    }
    let negative = chars[0] == '-';
    let signed = negative || chars[0] == '+';
    if signed && chars.len() == 1 {
        return None;
    }
    let from: usize = if signed {
        1
    } else {
        0
    };
    let ghost rest = chars@.skip(from as int);
    proof {
        assert(chars@.skip(0) =~= chars@);
        if digits_value(rest) is Some {
            lemma_digits_value_grows(rest, 0);
        }
    }
    match digits_from(&chars, from) {
        Some(v) => {
            if negative {
                if v == 0x8000_0000_0000_0000 {
                    Some(i64::MIN)
                } else {
                    Some(-(v as i64))
                }
            } else if v == 0x8000_0000_0000_0000 {
                None
            } else {
                Some(v as i64)
            }
        },
        None => None,
    }
}

proof fn lemma_digits_value_of_digits(n: nat)
    ensures
        digits_value(digits(n)) == Some(n as int),
        digits(n).len() > 0,
        '0' <= digits(n)[0] <= '9',
    decreases n,
{
    if n < 10 {
        let s = digits(n);
        assert(s.drop_last() =~= Seq::<char>::empty());
        assert(digits_value(s.drop_last()) == Some(0int));
        assert(digit_char(n) as int == 48 + n);
    } else {
        lemma_digits_value_of_digits(n / 10);
        let s = digits(n);
        assert(s.drop_last() =~= digits(n / 10));
        assert(digit_char(n % 10) as int == 48 + n % 10);
        assert(s[0] == digits(n / 10)[0]);
    }
}

/// Reading back an integer's decimal text gives the integer.
pub proof fn law_int_text_round_trip(i: int)
    ensures
        int_value(int_text(i)) == Some(i),
{
    if i < 0 {
        lemma_digits_value_of_digits((-i) as nat);
        assert(int_text(i).skip(1) =~= digits((-i) as nat));
    } else {
        lemma_digits_value_of_digits(i as nat);
    }
}

/// Reading back a number's decimal text gives the number.
pub proof fn law_digits_read_back(n: nat)
    ensures
        digits_value(digits(n)) == Some(n as int),
        digits(n).len() > 0,
        n > 0 ==> digits(n)[0] != '0',
    decreases n,
{
    lemma_digits_value_of_digits(n);
    if n < 10 {
        assert(digit_char(n) as int == 48 + n);
    } else {
        law_digits_read_back(n / 10);
    }
}

/// A number is told by its digits: the last one counts once and each before
/// it ten times what the next counts. Nothing but digits is a number.
pub proof fn law_digits_count_by_place(s: Seq<char>, c: char)
    ensures
        '0' <= c <= '9' && digits_value(s) is Some ==> digits_value(s.push(c)) == Some(
            digits_value(s)->0 * 10 + (c as int - '0' as int),
        ),
        c < '0' || c > '9' ==> digits_value(s.push(c)) is None,
        digits_value(s) is None ==> digits_value(s.push(c)) is None,
{
    assert(s.push(c).drop_last() =~= s);
}

/// Parts put together again with the separator between them.
pub open spec fn joined(parts: Seq<Seq<char>>, sep: char) -> Seq<char>
    decreases parts.len(),
{
    if parts.len() == 0 {
        Seq::<char>::empty()
    } else if parts.len() == 1 {
        parts[0]
    } else {
        joined(parts.drop_last(), sep).push(sep) + parts.last()
    }
}

/// A text that was split is the parts put together again, and no part holds
/// the separator.
pub proof fn law_split_parts_rejoin(s: Seq<char>, sep: char)
    ensures
        joined(split_on(s, sep), sep) == s,
        forall|i: int| 0 <= i < split_on(s, sep).len() ==> !(#[trigger] split_on(s, sep)[i]).contains(sep),
    decreases s.len(),
{
    let parts = split_on(s, sep);
    if s.len() == 0 {
        assert(joined(parts, sep) =~= s);
    } else {
        let before = split_on(s.drop_last(), sep);
        law_split_parts_rejoin(s.drop_last(), sep);
        lemma_split_nonempty(s.drop_last(), sep);
        if s.last() == sep {
            assert(parts.drop_last() =~= before);
            assert(joined(parts, sep) =~= s.drop_last().push(sep));
            assert(s.drop_last().push(sep) =~= s);
        } else {
            let last = before.last().push(s.last());
            assert(parts.last() == last);
            assert(parts.drop_last() =~= before.drop_last());
            assert(s =~= s.drop_last().push(s.last()));
            if before.len() == 1 {
                assert(parts[0] == last);
                assert(before[0] == before.last());
                assert(joined(before, sep) == before[0]);
                assert(joined(parts, sep) == last);
            } else {
                let front = joined(before.drop_last(), sep).push(sep);
                assert(joined(before, sep) == front + before.last());
                assert(joined(parts, sep) == front + last);
                assert(front + last =~= (front + before.last()).push(s.last()));
            }
            assert forall|i: int| 0 <= i < parts.len() implies !(#[trigger] parts[i]).contains(sep) by {
                if i < before.len() - 1 {
                    assert(parts[i] == before[i]);
                } else {
                    assert(!before[before.len() - 1].contains(sep));
                    assert(before[before.len() - 1] == before.last());
                    if last.contains(sep) {
                        let k = last.index_of(sep);
                        assert(k < before.last().len());
                        assert(before.last()[k] == sep);
                    }
                }
            }
        }
    }
}

/// Capitals and small letters differ in nothing but their case: what is put
/// in capitals holds no small letter, and read in small ones is what it was
/// in small ones; and the other way round.
pub proof fn law_case_is_all_that_changes(s: Seq<char>)
    ensures
        upper(s).len() == s.len(),
        lower(upper(s)) == lower(s),
        upper(lower(s)) == upper(s),
        forall|i: int| 0 <= i < s.len() ==> !('a' <= #[trigger] upper(s)[i] <= 'z'),
        forall|i: int| 0 <= i < s.len() ==> !('A' <= #[trigger] lower(s)[i] <= 'Z'),
        forall|i: int|
            0 <= i < s.len() && !('a' <= s[i] <= 'z') && !('A' <= s[i] <= 'Z') ==> #[trigger] upper(s)[i] == s[i]
                && lower(s)[i] == s[i],
{
    assert(lower(upper(s)) =~= lower(s));
    assert(upper(lower(s)) =~= upper(s));
}

} // verus!
