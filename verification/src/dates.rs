//! Calendar dates and the texts that carry them.

use chrono::{Datelike, Timelike};
use crate::text::{chars_of, digit_char, digit_of, digits, digits_value, is_white, push_u64, white};
use vstd::prelude::*;
use vstd::string::*;

verus! {

/// A date of the proleptic Gregorian calendar.
#[derive(Clone, Copy, Debug, PartialEq, Eq, Structural, Hash)]
pub struct Date {
    pub year: i32,
    pub month: u32,
    pub day: u32,
}

/// Whether a year has a 29th of February.
pub open spec fn leap(year: int) -> bool {
    year % 4 == 0 && (year % 100 != 0 || year % 400 == 0)
}

/// Days of a month.
pub open spec fn month_days(year: int, month: int) -> int {
    if month == 2 {
        if leap(year) {
            29
        } else {
            28
        }
    } else if month == 4 || month == 6 || month == 9 || month == 11 {
        30
    } else {
        31
    }
}

impl Date {
    /// Whether the calendar has this day, within the years that a date can
    /// hold.
    pub open spec fn valid(self) -> bool {
        &&& -262143 <= self.year <= 262142
        &&& 1 <= self.month <= 12
        &&& 1 <= self.day <= month_days(self.year as int, self.month as int)
    }

    /// Whether this date comes before another.
    pub open spec fn earlier(self, other: Date) -> bool {
        ||| self.year < other.year
        ||| self.year == other.year && self.month < other.month
        ||| self.year == other.year && self.month == other.month && self.day < other.day
    }

    /// Year, month and day.
    pub open spec fn parts(self) -> (int, int, int) {
        (self.year as int, self.month as int, self.day as int)
    }

    /// Whether this date comes before another.
    pub fn is_before(&self, other: &Date) -> (r: bool)
        ensures
            r == self.earlier(*other),
    {
        if self.year != other.year {
            self.year < other.year
        } else if self.month != other.month {
            self.month < other.month
        } else {
            self.day < other.day
        }
    }

    /// The first of January 1970.
    pub fn epoch() -> (r: Date)
        ensures
            r == epoch_date(),
            r.valid(),
    {
        Date { year: 1970, month: 1, day: 1 }
    }
}

/// The date of a year, month and day, if the calendar has it.
pub fn new_date(year: i32, month: u32, day: u32) -> (r: Option<Date>)
    ensures
        ({
            let d = Date { year, month, day };
            r == (if d.valid() {
                Some(d)
            } else {
                None
            })
        }),
{
    if year < -262143 || year > 262142 || month < 1 || month > 12 || day < 1 {
        return None;
    }
    let y: i32 = year + 400_000;
    assert(year as int % 4 == y as int % 4 && year as int % 100 == y as int % 100 && year as int % 400 == y as int % 400);
    let days: u32 = if month == 2 {
        if y % 4 == 0 && (y % 100 != 0 || y % 400 == 0) {
            29
        } else {
            28
        }
    } else if month == 4 || month == 6 || month == 9 || month == 11 {
        30
    } else {
        31
    };
    if day > days {
        None
    } else {
        Some(Date { year, month, day })
    }
}

/// The first of January 1970.
pub open spec fn epoch_date() -> Date {
    Date { year: 1970, month: 1, day: 1 }
}

/// Four digits.
pub open spec fn four_digits(n: int) -> Seq<char> {
    seq![
        digit_char(((n / 1000) % 10) as nat),
        digit_char(((n / 100) % 10) as nat),
        digit_char(((n / 10) % 10) as nat),
        digit_char((n % 10) as nat),
    ]
}

/// Two digits.
pub open spec fn two_digits(n: int) -> Seq<char> {
    seq![digit_char(((n / 10) % 10) as nat), digit_char((n % 10) as nat)]
}

/// `YYYYMMDD`.
pub open spec fn ymd_text(d: Date) -> Seq<char> {
    four_digits(d.year as int) + two_digits(d.month as int) + two_digits(d.day as int)
}

/// A year as a date shows it: four digits for the years 0 to 9999, and a
/// sign before at least four digits for any other.
pub open spec fn year_shown(year: int) -> Seq<char> {
    if 0 <= year <= 9999 {
        four_digits(year)
    } else if year > 9999 {
        "+"@ + digits(year as nat)
    } else if year >= -9999 {
        "-"@ + four_digits(-year)
    } else {
        "-"@ + digits(-year as nat)
    }
}

/// Month and day, each after a hyphen.
pub open spec fn month_and_day(d: Date) -> Seq<char> {
    "-"@ + two_digits(d.month as int) + "-"@ + two_digits(d.day as int)
}

/// A date as it is shown: `YYYY-MM-DD`.
pub open spec fn shown(d: Date) -> Seq<char> {
    year_shown(d.year as int) + month_and_day(d)
}

fn push_two_digits(out: &mut String, n: u64)
    ensures
        final(out)@ == old(out)@ + two_digits(n as int),
{
    out.push(digit_of((n / 10) % 10));
    out.push(digit_of(n % 10));
    assert(out@ =~= old(out)@ + two_digits(n as int));
}

/// Appends four digits.
pub fn push_four_digits(out: &mut String, n: u64)
    ensures
        final(out)@ == old(out)@ + four_digits(n as int),
{
    out.push(digit_of((n / 1000) % 10));
    out.push(digit_of((n / 100) % 10));
    out.push(digit_of((n / 10) % 10));
    out.push(digit_of(n % 10));
    assert(out@ =~= old(out)@ + four_digits(n as int));
}

/// Appends month and day.
pub fn push_month_and_day(out: &mut String, d: &Date)
    ensures
        final(out)@ == old(out)@ + month_and_day(*d),
{
    out.append("-");
    push_two_digits(out, d.month as u64);
    out.append("-");
    push_two_digits(out, d.day as u64);
    assert(out@ =~= old(out)@ + month_and_day(*d));
}

/// A date as it is shown.
pub fn show(d: &Date) -> (r: String)
    requires
        d.valid(),
    ensures
        r@ == shown(*d),
{
    let mut out: String = String::new();
    let y: i64 = d.year as i64;
    if 0 <= y && y <= 9999 {
        push_four_digits(&mut out, y as u64);
    } else if y > 9999 {
        out.append("+");
        push_u64(&mut out, y as u64);
    } else if y >= -9999 {
        out.append("-");
        push_four_digits(&mut out, (-y) as u64);
    } else {
        out.append("-");
        push_u64(&mut out, (-y) as u64);
    }
    assert(out@ =~= year_shown(d.year as int));
    push_month_and_day(&mut out, d);
    out
}

/// What `chrono::NaiveDate::parse_from_str` makes of a text under a pattern:
/// year, month and day.
pub uninterp spec fn parsed_date(text: Seq<char>, pattern: Seq<char>) -> Option<(int, int, int)>;

/// `chrono::NaiveDate::parse_from_str`. Its result is a function of text and
/// pattern and is a day of the calendar; under `%Y%m%d` a date of the years 0
/// to 9999 written as eight digits is read back as that date.
#[verifier::external_body]
fn parse_date(text: &str, pattern: &str) -> (r: Option<Date>)
    ensures
        parsed_date(text@, pattern@) == (match r {
            Some(d) => Some(d.parts()),
            None => None,
        }),
        r matches Some(d) ==> d.valid(),
        forall|d: Date|
            d.valid() && 0 <= d.year <= 9999 && text@ == #[trigger] ymd_text(d) && pattern@ == "%Y%m%d"@
                ==> r == Some(d),
{
    chrono::NaiveDate::parse_from_str(text, pattern).ok().map(
        |d| Date { year: d.year(), month: d.month(), day: d.day() },
    )
}

/// A date as it is written: year, month and day without anything between.
pub open spec fn date_text(year: int, month: int, day: int) -> Seq<char> {
    year_shown(year) + two_digits(month) + two_digits(day)
}

/// `chrono::NaiveDate::format` under `%Y%m%d`: the year as a date shows it,
/// with a sign outside the years 0 to 9999, then month and day as two digits
/// each.
#[verifier::external_body]
pub(crate) fn format_yyyymmdd(d: &Date) -> (r: String)
    requires
        d.valid(),
    ensures
        r@ == date_text(d.year as int, d.month as int, d.day as int),
{
    chrono::NaiveDate::from_ymd_opt(d.year, d.month, d.day).map(|n| n.format("%Y%m%d").to_string()).unwrap_or_default()
}

/// Days of a year before a month.
pub open spec fn days_before_month(year: int, month: int) -> int
    decreases month,
{
    if month <= 1 {
        0
    } else {
        days_before_month(year, month - 1) + month_days(year, month - 1)
    }
}

/// Days from the first of January 1970 to a date.
pub open spec fn day_number(d: Date) -> int {
    let y = d.year - 1;
    365 * y + y / 4 - y / 100 + y / 400 + days_before_month(d.year as int, d.month as int) + d.day - 719163
}

/// `chrono::NaiveDate::and_hms_opt`, `and_utc` and `timestamp`: the seconds
/// from the Unix epoch to a full hour, in UTC, of a day.
#[verifier::external_body]
pub(crate) fn seconds_at(d: &Date, hour: u32) -> (r: i64)
    requires
        d.valid(),
        hour < 24,
    ensures
        r == day_number(*d) * 86400 + hour * 3600,
{
    chrono::NaiveDate::from_ymd_opt(d.year, d.month, d.day).and_then(|n| n.and_hms_opt(hour, 0, 0)).map(
        |t| t.and_utc().timestamp(),
    ).unwrap_or_default()
}

/// Nanoseconds from an instant to a full hour, in UTC, of a day.
pub open spec fn ns_until(d: Date, hour: int, now_ns: u64) -> int {
    (day_number(d) * 86400 + hour * 3600) * 1_000_000_000 - now_ns
}

/// Whole seconds from an instant to a full hour, in UTC, of a day; 0 where it
/// has passed.
pub open spec fn seconds_until_of(d: Date, hour: int, now_ns: u64) -> int {
    if ns_until(d, hour, now_ns) >= 0 {
        ns_until(d, hour, now_ns) / 1_000_000_000
    } else {
        0
    }
}

/// Dates are within 97 million days of the epoch.
pub proof fn lemma_day_number_bounds(d: Date)
    requires
        d.valid(),
    ensures
        -97_000_000 <= day_number(d) <= 97_000_000,
{
    let y = d.year as int;
    reveal_with_fuel(days_before_month, 13);
    assert(0 <= days_before_month(y, d.month as int) <= 341);
}

/// Whole seconds from an instant to a full hour, in UTC, of a day; 0 where it
/// has passed.
pub fn seconds_until(d: &Date, hour: u32, now_ns: u64) -> (r: u64)
    requires
        d.valid(),
        hour < 24,
    ensures
        r == seconds_until_of(*d, hour as int, now_ns),
{
    proof {
        lemma_day_number_bounds(*d);
    }
    let at: i64 = seconds_at(d, hour);
    let left: i128 = at as i128 * 1_000_000_000 - now_ns as i128;
    if left >= 0 {
        (left / 1_000_000_000) as u64
    } else {
        0
    }
}

/// The last date that can be held.
pub open spec fn last_date() -> Date {
    Date { year: 262142, month: 12, day: 31 }
}

/// The first date that can be held.
pub open spec fn first_date() -> Date {
    Date { year: -262143i32, month: 1, day: 1 }
}

/// `chrono::NaiveDate::checked_add_signed` with a number of days: the date
/// that many days later, or none where it is out of range.
#[verifier::external_body]
pub(crate) fn days_later(d: &Date, days: i32) -> (r: Option<Date>)
    requires
        d.valid(),
    ensures
        match r {
            Some(e) => e.valid() && day_number(e) == day_number(*d) + days,
            None => day_number(*d) + days > day_number(last_date()) || day_number(*d) + days < day_number(first_date()),
        },
{
    let day = chrono::NaiveDate::from_ymd_opt(d.year, d.month, d.day)?;
    let later = day.checked_add_signed(chrono::TimeDelta::try_days(i64::from(days))?)?;
    Some(Date { year: later.year(), month: later.month(), day: later.day() })
}

/// Year, month, day and hour in Chicago at an instant, by chrono-tz's rules
/// for US/Central.
pub uninterp spec fn central_time(seconds: int) -> (int, int, int, int);

/// `chrono::DateTime::with_timezone` with `chrono_tz::US::Central`: the date
/// and hour there at an instant between 1971 and 9998. The rules for daylight
/// saving are chrono-tz's and not stated here.
#[verifier::external_body]
pub(crate) fn central_clock(seconds: i64) -> (r: (Date, u32))
    requires
        31536000 <= seconds <= 253370764800,
    ensures
        central_time(seconds as int) == (r.0.year as int, r.0.month as int, r.0.day as int, r.1 as int),
        r.0.valid(),
        r.1 < 24,
{
    let t = chrono::DateTime::from_timestamp(seconds, 0).unwrap_or_default().with_timezone(&chrono_tz::US::Central);
    let d = t.date_naive();
    (Date { year: d.year(), month: d.month(), day: d.day() }, t.hour())
}

/// The date that `YYYYMMDD` names, if any.
pub fn parse_yyyymmdd(text: &str) -> (r: Option<Date>)
    ensures
        parsed_date(text@, "%Y%m%d"@) == (match r {
            Some(d) => Some(d.parts()),
            None => None,
        }),
        r matches Some(d) ==> d.valid(),
        forall|d: Date|
            d.valid() && 0 <= d.year <= 9999 && text@ == #[trigger] ymd_text(d) ==> r == Some(d),
{
    parse_date(text, "%Y%m%d")
}

/// The date that is so many days after the first of January 1970.
pub open spec fn date_on(day: int) -> Date {
    choose|d: Date| d.valid() && #[trigger] day_number(d) == day
}

/// Hours, minutes and seconds of a day.
pub open spec fn clock_text(second: int) -> Seq<char> {
    two_digits(second / 3600) + ":"@ + two_digits((second / 60) % 60) + ":"@ + two_digits(second % 60)
}

/// An instant, `seconds` after the Unix epoch, as date and time of day in
/// UTC, joined and followed by the given texts; `None` where the date is out
/// of range.
pub open spec fn instant_text(seconds: int, join: Seq<char>, end: Seq<char>) -> Option<Seq<char>> {
    let day = seconds / 86400;
    if day_number(first_date()) <= day <= day_number(last_date()) {
        let d = date_on(day);
        Some(
            date_text(d.year as int, d.month as int, d.day as int) + join + clock_text(seconds % 86400) + end,
        )
    } else {
        None
    }
}

/// An instant as `YYYYMMDD HH:MM:SS UTC`.
pub open spec fn utc_text(seconds: int) -> Option<Seq<char>> {
    instant_text(seconds, " "@, " UTC"@)
}

/// An instant as `YYYYMMDD-HH:MM:SS`.
pub open spec fn filter_text(seconds: int) -> Option<Seq<char>> {
    instant_text(seconds, "-"@, ""@)
}

/// `chrono::DateTime::<Utc>::from_timestamp` and `format`: the date of the
/// instant as [`date_text`] has it, then hours, minutes and seconds as two
/// digits each; none where no date is that many days from the epoch. Only two
/// patterns are admitted: chrono panics on a pattern that it cannot read.
#[verifier::external_body]
pub(crate) fn format_instant(seconds: i64, pattern: &str) -> (r: Option<String>)
    requires
        pattern@ == "%Y%m%d %H:%M:%S UTC"@ || pattern@ == "%Y%m%d-%H:%M:%S"@,
    ensures
        pattern@ == "%Y%m%d %H:%M:%S UTC"@ ==> utc_text(seconds as int) == (match r {
            Some(s) => Some(s@),
            None => None,
        }),
        pattern@ == "%Y%m%d-%H:%M:%S"@ ==> filter_text(seconds as int) == (match r {
            Some(s) => Some(s@),
            None => None,
        }),
{
    chrono::DateTime::<chrono::Utc>::from_timestamp(seconds, 0).map(|t| t.format(pattern).to_string())
}

/// An instant as `YYYYMMDD HH:MM:SS UTC`.
pub fn format_utc(seconds: i64) -> (r: Option<String>)
    ensures
        utc_text(seconds as int) == (match r {
            Some(s) => Some(s@),
            None => None,
        }),
{
    format_instant(seconds, "%Y%m%d %H:%M:%S UTC")
}

/// An instant as `YYYYMMDD-HH:MM:SS`.
pub fn format_filter(seconds: i64) -> (r: Option<String>)
    ensures
        filter_text(seconds as int) == (match r {
            Some(s) => Some(s@),
            None => None,
        }),
{
    format_instant(seconds, "%Y%m%d-%H:%M:%S")
}

/// Days from the first of January 1970 to the first of January of a year.
pub open spec fn year_start(year: int) -> int {
    let y = year - 1;
    365 * y + y / 4 - y / 100 + y / 400 + 1 - 719163
}

proof fn lemma_quotient_step(n: int, k: int)
    requires
        k > 0,
    ensures
        n / k - (n - 1) / k == (if n % k == 0 { 1int } else { 0 }),
{
    let q = n / k;
    let r = n % k;
    vstd::arithmetic::div_mod::lemma_fundamental_div_mod(n, k);
    vstd::arithmetic::div_mod::lemma_mod_bound(n, k);
    if r == 0 {
        assert(n - 1 == (q - 1) * k + (k - 1)) by (nonlinear_arith)
            requires
                n == k * q,
        ;
        vstd::arithmetic::div_mod::lemma_fundamental_div_mod_converse(n - 1, k, q - 1, k - 1);
    } else {
        assert(n - 1 == q * k + (r - 1)) by (nonlinear_arith)
            requires
                n == k * q + r,
        ;
        vstd::arithmetic::div_mod::lemma_fundamental_div_mod_converse(n - 1, k, q, r - 1);
    }
}

proof fn lemma_century(year: int)
    ensures
        year % 400 == 0 ==> year % 100 == 0,
        year % 100 == 0 ==> year % 4 == 0,
{
}

proof fn lemma_year_starts(from: int, to: int)
    requires
        from < to,
    ensures
        year_start(from) + 365 + (if leap(from) { 1int } else { 0 }) <= year_start(to),
    decreases to - from,
{
    lemma_quotient_step(from, 4);
    lemma_quotient_step(from, 100);
    lemma_quotient_step(from, 400);
    lemma_century(from);
    assert(year_start(from + 1) == year_start(from) + 365 + (if leap(from) { 1int } else { 0 }));
    if from + 1 < to {
        lemma_year_starts(from + 1, to);
    }
}

proof fn lemma_months(year: int, from: int, to: int)
    requires
        1 <= from < to <= 13,
    ensures
        days_before_month(year, from) + month_days(year, from) <= days_before_month(year, to),
    decreases to - from,
{
    if from + 1 < to {
        lemma_months(year, from + 1, to);
    }
    assert(days_before_month(year, from + 1) == days_before_month(year, from) + month_days(year, from));
}

/// A later date is more days away.
pub proof fn law_days_follow_dates(d: Date, e: Date)
    requires
        d.valid(),
        e.valid(),
        d.earlier(e),
    ensures
        day_number(d) < day_number(e),
{
    let (y, z) = (d.year as int, e.year as int);
    let (m, n) = (d.month as int, e.month as int);
    reveal_with_fuel(days_before_month, 14);
    assert(days_before_month(y, 13) == 365 + (if leap(y) { 1int } else { 0 }));
    lemma_months(y, m, 13);
    if y < z {
        lemma_year_starts(y, z);
        assert(days_before_month(z, n) >= 0);
    } else if m < n {
        lemma_months(y, m, n);
    }
}

/// No two dates are the same number of days from the epoch, so a number of
/// days names a date.
pub proof fn law_day_names_one_date(d: Date)
    requires
        d.valid(),
    ensures
        date_on(day_number(d)) == d,
        day_number(first_date()) <= day_number(d) <= day_number(last_date()),
{
    let e = date_on(day_number(d));
    assert(e.valid() && day_number(e) == day_number(d));
    if d.earlier(e) {
        law_days_follow_dates(d, e);
    } else if e.earlier(d) {
        law_days_follow_dates(e, d);
    }
    if first_date() != d {
        assert(first_date().earlier(d));
        law_days_follow_dates(first_date(), d);
    }
    if last_date() != d {
        assert(d.earlier(last_date()));
        law_days_follow_dates(d, last_date());
    }
}

/// The first run of characters that holds no white space; empty where there
/// is none.
pub open spec fn first_word(s: Seq<char>) -> Seq<char>
    decreases s.len(),
{
    if s.len() == 0 {
        s
    } else if white(s[0]) {
        first_word(s.drop_first())
    } else {
        leading_word(s)
    }
}

/// The longest prefix without white space.
pub open spec fn leading_word(s: Seq<char>) -> Seq<char>
    decreases s.len(),
{
    if s.len() == 0 || white(s[0]) {
        Seq::<char>::empty()
    } else {
        seq![s[0]] + leading_word(s.drop_first())
    }
}

/// The first word of a text.
pub fn word_of(text: &str) -> (r: String)
    ensures
        r@ == first_word(text@),
{
    let chars = chars_of(text);
    let ghost s = chars@;
    let mut i: usize = 0;
    assert(s.skip(0) =~= s);
    while i < chars.len() && is_white(chars[i])
        invariant
            i <= chars.len(),
            chars@ == s,
            first_word(s) == first_word(s.skip(i as int)),
        decreases chars.len() - i,
    {
        assert(s.skip(i as int).drop_first() =~= s.skip(i + 1));
        i = i + 1;
    }
    let mut out: String = String::new();
    let ghost start = i;
    assert(s.skip(i as int).len() > 0 ==> s.skip(i as int)[0] == s[i as int]);
    assert(s.skip(i as int).len() == 0 ==> leading_word(s.skip(i as int)) =~= s.skip(i as int));
    while i < chars.len() && !is_white(chars[i])
        invariant
            start <= i <= chars.len(),
            chars@ == s,
            out@ + leading_word(s.skip(i as int)) == leading_word(s.skip(start as int)),
        decreases chars.len() - i,
    {
        out.push(chars[i]);
        proof {
            let rest = s.skip(i as int);
            assert(rest.drop_first() =~= s.skip(i + 1));
            assert(leading_word(rest) == seq![rest[0]] + leading_word(rest.drop_first()));
            assert(out@ + leading_word(s.skip(i + 1)) =~= leading_word(s.skip(start as int)));
        }
        i = i + 1;
    }
    assert(leading_word(s.skip(i as int)) =~= Seq::<char>::empty());
    assert(out@ =~= leading_word(s.skip(start as int)));
    out
}

/// The first date given, or the epoch where neither is.
pub fn date_or_epoch(by_day: Option<Date>, by_month: Option<Date>) -> (r: Date)
    requires
        by_day matches Some(d) ==> d.valid(),
        by_month matches Some(d) ==> d.valid(),
    ensures
        r == (match by_day {
            Some(d) => d,
            None => match by_month {
                Some(d) => d,
                None => epoch_date(),
            },
        }),
        r.valid(),
{
    match by_day {
        Some(d) => d,
        None => match by_month {
            Some(d) => d,
            None => Date::epoch(),
        },
    }
}

/// Year, month and day of a contract's last trade date: the first word of
/// the text as a day, else as a month, else the epoch.
pub open spec fn last_trade_parts(text: Seq<char>) -> (int, int, int) {
    let word = first_word(text);
    match parsed_date(word, "%Y%m%d"@) {
        Some(p) => p,
        None => match parsed_date(word, "%Y%m"@) {
            Some(p) => p,
            None => (1970, 1, 1),
        },
    }
}

/// A contract's last trade date. The gateway may send a time and a zone
/// behind the day; only the first word counts.
pub fn last_trade_date(text: &str) -> (r: Date)
    ensures
        r.valid(),
        r.parts() == last_trade_parts(text@),
{
    let word = word_of(text);
    let by_day = parse_date(word.as_str(), "%Y%m%d");
    let by_month = parse_date(word.as_str(), "%Y%m");
    date_or_epoch(by_day, by_month)
}

proof fn lemma_digit_char_injective(x: int, y: int)
    requires
        0 <= x < 10,
        0 <= y < 10,
        digit_char(x as nat) == digit_char(y as nat),
    ensures
        x == y,
{
    assert((48 + x) as char as int == 48 + x);
    assert((48 + y) as char as int == 48 + y);
}

/// Two dates of the years 0 to 9999 with the same eight digits are the same
/// date, so what [`parse_yyyymmdd`] reads back is the date that was written.
pub proof fn law_yyyymmdd_names_one_date(d: Date, e: Date)
    requires
        d.valid(),
        e.valid(),
        0 <= d.year <= 9999,
        0 <= e.year <= 9999,
        ymd_text(d) == ymd_text(e),
    ensures
        d == e,
{
    let a = ymd_text(d);
    let b = ymd_text(e);
    assert(a.take(4) =~= four_digits(d.year as int));
    assert(b.take(4) =~= four_digits(e.year as int));
    assert(a.subrange(4, 6) =~= two_digits(d.month as int));
    assert(b.subrange(4, 6) =~= two_digits(e.month as int));
    assert(a.skip(6) =~= two_digits(d.day as int));
    assert(b.skip(6) =~= two_digits(e.day as int));
    lemma_four_digits_injective(d.year as int, e.year as int);
    lemma_two_digits_injective(d.month as int, e.month as int);
    lemma_two_digits_injective(d.day as int, e.day as int);
}

/// A number of up to four digits is what its digits add up to.
pub proof fn lemma_four_digits_sum(n: int)
    requires
        0 <= n <= 9999,
    ensures
        n == 1000 * ((n / 1000) % 10) + 100 * ((n / 100) % 10) + 10 * ((n / 10) % 10) + n % 10,
        0 <= (n / 1000) % 10 < 10,
        0 <= (n / 100) % 10 < 10,
        0 <= (n / 10) % 10 < 10,
        0 <= n % 10 < 10,
{
    let a = n / 10;
    let b = a / 10;
    let c = b / 10;
    assert(n / 100 == b);
    assert(n / 1000 == c);
    assert(c % 10 == c);
    assert(n == 10 * a + n % 10 && a == 10 * b + a % 10 && b == 10 * c + b % 10);
}

proof fn lemma_four_digits_injective(x: int, y: int)
    requires
        0 <= x <= 9999,
        0 <= y <= 9999,
        four_digits(x) == four_digits(y),
    ensures
        x == y,
{
    let a = four_digits(x);
    let b = four_digits(y);
    assert(a[0] == b[0] && a[1] == b[1] && a[2] == b[2] && a[3] == b[3]);
    lemma_four_digits_sum(x);
    lemma_four_digits_sum(y);
    lemma_digit_char_injective((x / 1000) % 10, (y / 1000) % 10);
    lemma_digit_char_injective((x / 100) % 10, (y / 100) % 10);
    lemma_digit_char_injective((x / 10) % 10, (y / 10) % 10);
    lemma_digit_char_injective(x % 10, y % 10);
}

proof fn lemma_two_digits_injective(x: int, y: int)
    requires
        0 <= x <= 99,
        0 <= y <= 99,
        two_digits(x) == two_digits(y),
    ensures
        x == y,
{
    let a = two_digits(x);
    let b = two_digits(y);
    assert(a[0] == b[0] && a[1] == b[1]);
    lemma_digit_char_injective((x / 10) % 10, (y / 10) % 10);
    lemma_digit_char_injective(x % 10, y % 10);
}

/// Two digits read back as the number they show.
pub proof fn law_two_digits_read_back(n: int)
    requires
        0 <= n <= 99,
    ensures
        digits_value(two_digits(n)) == Some(n),
{
    let s = two_digits(n);
    assert(s.drop_last() =~= seq![digit_char(((n / 10) % 10) as nat)]);
    assert(s.drop_last().drop_last() =~= Seq::<char>::empty());
    reveal_with_fuel(digits_value, 3);
    assert(digit_char(((n / 10) % 10) as nat) as int == 48 + n / 10);
    assert(digit_char((n % 10) as nat) as int == 48 + n % 10);
}

/// Four digits read back as the number they show.
pub proof fn law_four_digits_read_back(n: int)
    requires
        0 <= n <= 9999,
    ensures
        digits_value(four_digits(n)) == Some(n),
{
    let s = four_digits(n);
    lemma_four_digits_sum(n);
    let a = s.drop_last();
    let b = a.drop_last();
    let c = b.drop_last();
    assert(c.drop_last() =~= Seq::<char>::empty());
    reveal_with_fuel(digits_value, 5);
    assert(digit_char(((n / 1000) % 10) as nat) as int == 48 + (n / 1000) % 10);
    assert(digit_char(((n / 100) % 10) as nat) as int == 48 + (n / 100) % 10);
    assert(digit_char(((n / 10) % 10) as nat) as int == 48 + (n / 10) % 10);
    assert(digit_char((n % 10) as nat) as int == 48 + n % 10);
}

/// A date's eight digits are the year, then the month, then the day.
pub proof fn law_yyyymmdd_shows_the_date(d: Date)
    requires
        d.valid(),
        0 <= d.year <= 9999,
    ensures
        ymd_text(d).len() == 8,
        digits_value(ymd_text(d).take(4)) == Some(d.year as int),
        digits_value(ymd_text(d).subrange(4, 6)) == Some(d.month as int),
        digits_value(ymd_text(d).skip(6)) == Some(d.day as int),
        date_text(d.year as int, d.month as int, d.day as int) == ymd_text(d),
{
    assert(ymd_text(d).take(4) =~= four_digits(d.year as int));
    assert(ymd_text(d).subrange(4, 6) =~= two_digits(d.month as int));
    assert(ymd_text(d).skip(6) =~= two_digits(d.day as int));
    law_four_digits_read_back(d.year as int);
    law_two_digits_read_back(d.month as int);
    law_two_digits_read_back(d.day as int);
}

/// Days are counted from the first of January 1970, one by one: through a
/// month, from its last day to the next month's first, and from the year's
/// last day to the next year's first.
pub proof fn law_days_are_counted_one_by_one(d: Date, e: Date)
    requires
        d.valid(),
        e.valid(),
        ({
            ||| e.year == d.year && e.month == d.month && e.day == d.day + 1
            ||| e.year == d.year && e.month == d.month + 1 && e.day == 1 && d.day == month_days(
                d.year as int,
                d.month as int,
            )
            ||| e.year == d.year + 1 && e.month == 1 && e.day == 1 && d.month == 12 && d.day == 31
        }),
    ensures
        day_number(e) == day_number(d) + 1,
        day_number(Date { year: 1970, month: 1, day: 1 }) == 0,
{
    reveal_with_fuel(days_before_month, 13);
    if e.year == d.year + 1 {
        lemma_quotient_step(d.year as int, 4);
        lemma_quotient_step(d.year as int, 100);
        lemma_quotient_step(d.year as int, 400);
        lemma_century(d.year as int);
    }
}

/// The lengths of the months: thirty-one days, but thirty in April, June,
/// September and November, and twenty-eight in February, or twenty-nine in a
/// year that four divides, unless a hundred does and four hundred does not.
pub proof fn law_months_have_their_lengths(year: int, month: int)
    ensures
        month_days(year, 4) == 30 && month_days(year, 6) == 30 && month_days(year, 9) == 30 && month_days(year, 11) == 30,
        month_days(year, 1) == 31 && month_days(year, 3) == 31 && month_days(year, 5) == 31 && month_days(year, 7) == 31,
        month_days(year, 8) == 31 && month_days(year, 10) == 31 && month_days(year, 12) == 31,
        month_days(4 * year, 2) == 29 || year % 25 == 0,
        month_days(400 * year, 2) == 29,
        year % 4 != 0 ==> month_days(100 * year, 2) == 28,
        year % 4 != 0 ==> month_days(year, 2) == 28,
{
}

/// The seconds left are the whole ones from now to the hour of the day, and
/// none once that has passed.
pub proof fn law_seconds_left_reach_the_hour(d: Date, hour: int, now_ns: u64)
    ensures
        ({
            let end = (day_number(d) * 86400 + hour * 3600) * 1_000_000_000;
            let s = seconds_until_of(d, hour, now_ns);
            &&& now_ns <= end ==> now_ns + s * 1_000_000_000 <= end < now_ns + (s + 1) * 1_000_000_000
            &&& now_ns > end ==> s == 0
        }),
{
}

/// The time of day reads back as the seconds that have passed of it.
pub proof fn law_clock_shows_the_second(second: int)
    requires
        0 <= second < 86400,
    ensures
        ({
            let s = clock_text(second);
            &&& s.len() == 8
            &&& s[2] == ':' && s[5] == ':'
            &&& digits_value(s.take(2)) is Some && digits_value(s.subrange(3, 5)) is Some && digits_value(s.skip(6)) is Some
            &&& digits_value(s.take(2))->0 * 3600 + digits_value(s.subrange(3, 5))->0 * 60 + digits_value(s.skip(6))->0
                == second
            &&& digits_value(s.subrange(3, 5))->0 < 60 && digits_value(s.skip(6))->0 < 60
        }),
{
    reveal_strlit(":");
    let s = clock_text(second);
    assert(s.take(2) =~= two_digits(second / 3600));
    assert(s.subrange(3, 5) =~= two_digits((second / 60) % 60));
    assert(s.skip(6) =~= two_digits(second % 60));
    law_two_digits_read_back(second / 3600);
    law_two_digits_read_back((second / 60) % 60);
    law_two_digits_read_back(second % 60);
}

/// An instant is written as its day and its time of day, in UTC.
pub proof fn law_instants_are_written_out(d: Date, second: int)
    requires
        d.valid(),
        0 <= second < 86400,
    ensures
        utc_text(day_number(d) * 86400 + second) == Some(
            date_text(d.year as int, d.month as int, d.day as int) + " "@ + clock_text(second) + " UTC"@,
        ),
        filter_text(day_number(d) * 86400 + second) == Some(
            date_text(d.year as int, d.month as int, d.day as int) + "-"@ + clock_text(second) + ""@,
        ),
{
    law_day_names_one_date(d);
    let seconds = day_number(d) * 86400 + second;
    assert(seconds / 86400 == day_number(d) && seconds % 86400 == second);
}

/// The first word of a text is found behind any white space, and ends at the
/// next.
pub proof fn law_first_word_is_found(space: Seq<char>, word: Seq<char>, rest: Seq<char>)
    requires
        forall|i: int| 0 <= i < space.len() ==> white(#[trigger] space[i]),
        forall|i: int| 0 <= i < word.len() ==> !white(#[trigger] word[i]),
        word.len() > 0,
        rest.len() == 0 || white(rest[0]),
    ensures
        first_word(space + word + rest) == word,
    decreases space.len(),
{
    let s = space + word + rest;
    if space.len() == 0 {
        assert(s =~= word + rest);
        lemma_leading_word(word, rest);
        assert(s[0] == word[0]);
    } else {
        assert(s[0] == space[0]);
        assert(s.drop_first() =~= space.drop_first() + word + rest);
        law_first_word_is_found(space.drop_first(), word, rest);
    }
}

proof fn lemma_leading_word(word: Seq<char>, rest: Seq<char>)
    requires
        forall|i: int| 0 <= i < word.len() ==> !white(#[trigger] word[i]),
        rest.len() == 0 || white(rest[0]),
    ensures
        leading_word(word + rest) == word,
    decreases word.len(),
{
    if word.len() == 0 {
        assert(word + rest =~= rest);
        assert(leading_word(rest) =~= word);
    } else {
        assert((word + rest)[0] == word[0]);
        assert((word + rest).drop_first() =~= word.drop_first() + rest);
        lemma_leading_word(word.drop_first(), rest);
        assert(leading_word(word + rest) =~= word);
    }
}

} // verus!
