//! Reading the Python library's objects.

use crate::api::{
    AccountSnapshot, BrokerError, Contract, ContractKind, Currency, Decimal, Exchange, Fill, InstrumentId, OrderId,
    OrderStatus, OrderType, Position, Right, Side, TimeInForce,
};
use crate::dates::{
    date_text, four_digits, format_utc, lemma_four_digits_sum, new_date, two_digits, utc_text, ymd_text, Date,
};
use crate::double::Double;
use crate::text::{
    chars_of, digit_char, digits_value, law_case_is_all_that_changes, lower, str_eq, to_upper, upper, upper_char,
    upper_of,
};
use vstd::prelude::*;
use vstd::string::*;

verus! {

// Dates

/// The number that a short text holds: digits, with an optional sign; a minus
/// only where `signed`.
pub open spec fn short_number(s: Seq<char>, signed: bool) -> Option<int> {
    if s.len() == 0 {
        None
    } else if s[0] == '+' || (signed && s[0] == '-') {
        if s.len() == 1 {
            None
        } else {
            match digits_value(s.skip(1)) {
                Some(v) => Some(
                    if s[0] == '-' {
                        -v
                    } else {
                        v
                    },
                ),
                None => None,
            }
        }
    } else {
        digits_value(s)
    }
}

/// The date that the first eight characters name.
pub open spec fn date_of(s: Seq<char>) -> Option<Date> {
    if s.len() < 8 {
        None
    } else {
        match (
            short_number(s.take(4), true),
            short_number(s.subrange(4, 6), false),
            short_number(s.subrange(6, 8), false),
        ) {
            (Some(y), Some(m), Some(d)) => {
                let date = Date { year: y as i32, month: m as u32, day: d as u32 };
                if date.valid() {
                    Some(date)
                } else {
                    None
                }
            },
            _ => None,
        }
    }
}

fn digits_between(s: &Vec<char>, from: usize, to: usize) -> (r: Option<i32>)
    requires
        from <= to <= s@.len(),
        to - from <= 4,
    ensures
        match r {
            Some(v) => digits_value(s@.subrange(from as int, to as int)) == Some(v as int) && 0 <= v <= 9999,
            None => digits_value(s@.subrange(from as int, to as int)) is None,
        },
        to - from <= 3 ==> (r matches Some(v) ==> v <= 999),
        to - from <= 2 ==> (r matches Some(v) ==> v <= 99),
        to - from <= 1 ==> (r matches Some(v) ==> v <= 9),
        to - from <= 0 ==> (r matches Some(v) ==> v == 0),
    decreases to - from,
{
    let ghost t = s@.subrange(from as int, to as int);
    if from == to {
        return Some(0);
    }
    assert(t.drop_last() =~= s@.subrange(from as int, to - 1));
    assert(t.last() == s@[to - 1]);
    let c: char = s[to - 1];
    if !('0' <= c && c <= '9') {
        return None;
    }
    let digit: i32 = (c as u32 - 48) as i32;
    match digits_between(s, from, to - 1) {
        Some(v) => Some(10 * v + digit),
        None => None,
    }
}

fn number_between(s: &Vec<char>, from: usize, to: usize, signed: bool) -> (r: Option<i32>)
    requires
        from < to <= s@.len(),
        to - from <= 4,
    ensures
        match r {
            Some(v) => short_number(s@.subrange(from as int, to as int), signed) == Some(v as int) && -9999 <= v <= 9999,
            None => short_number(s@.subrange(from as int, to as int), signed) is None,
        },
        !signed ==> (r matches Some(v) ==> v >= 0),
{
    let ghost t = s@.subrange(from as int, to as int);
    let c: char = s[from];
    assert(t[0] == c);
    assert(t.skip(1) =~= s@.subrange(from + 1, to as int));
    if c == '+' || (signed && c == '-') {
        if from + 1 == to {
            return None;
        }
        match digits_between(s, from + 1, to) {
            Some(v) => if c == '-' {
                Some(-v)
            } else {
                Some(v)
            },
            None => None,
        }
    } else {
        digits_between(s, from, to)
    }
}

/// Reads `YYYYMMDD`; what follows is ignored.
pub fn parse_yyyymmdd(s: &str) -> (r: Option<Date>)
    ensures
        r == date_of(s@),
{
    let chars = chars_of(s);
    if chars.len() < 8 {
        return None;
    }
    assert(s@.take(4) =~= s@.subrange(0, 4));
    let y: i32 = match number_between(&chars, 0, 4, true) {
        Some(v) => v,
        None => {
            return None;
        },
    };
    let m: i32 = match number_between(&chars, 4, 6, false) {
        Some(v) => v,
        None => {
            return None;
        },
    };
    let d: i32 = match number_between(&chars, 6, 8, false) {
        Some(v) => v,
        None => {
            return None;
        },
    };
    new_date(y, m as u32, d as u32)
}

/// Writes a date as `YYYYMMDD`.
pub fn format_yyyymmdd(d: &Date) -> (r: String)
    requires
        d.valid(),
    ensures
        r@ == date_text(d.year as int, d.month as int, d.day as int),
{
    crate::dates::format_yyyymmdd(d)
}

proof fn lemma_digit(n: int)
    requires
        0 <= n < 10,
    ensures
        '0' <= digit_char(n as nat) <= '9',
        digit_char(n as nat) as int - 48 == n,
{
    assert((48 + n) as char as int == 48 + n);
}

proof fn lemma_two_digits_value(n: int)
    requires
        0 <= n <= 99,
    ensures
        short_number(two_digits(n), false) == Some(n),
{
    lemma_digit((n / 10) % 10);
    lemma_digit(n % 10);
    let s = two_digits(n);
    reveal_with_fuel(digits_value, 3);
    assert(s.drop_last() =~= seq![s[0]]);
    assert(s.drop_last().drop_last() =~= Seq::<char>::empty());
    assert(digits_value(s.drop_last()) == Some((n / 10) % 10));
    assert(s[0] != '+');
    assert(10 * ((n / 10) % 10) + n % 10 == n);
}

proof fn lemma_four_digits_value(n: int)
    requires
        0 <= n <= 9999,
    ensures
        short_number(four_digits(n), true) == Some(n),
{
    let (d3, d2, d1, d0) = ((n / 1000) % 10, (n / 100) % 10, (n / 10) % 10, n % 10);
    lemma_four_digits_sum(n);
    lemma_digit(d3);
    lemma_digit(d2);
    lemma_digit(d1);
    lemma_digit(d0);
    let s = four_digits(n);
    lemma_four_chars(s, d3, d2, d1, d0);
}

proof fn lemma_four_chars(s: Seq<char>, d3: int, d2: int, d1: int, d0: int)
    requires
        s.len() == 4,
        forall|i: int| 0 <= i < 4 ==> '0' <= #[trigger] s[i] <= '9',
        s[0] as int - 48 == d3,
        s[1] as int - 48 == d2,
        s[2] as int - 48 == d1,
        s[3] as int - 48 == d0,
    ensures
        short_number(s, true) == Some(1000 * d3 + 100 * d2 + 10 * d1 + d0),
{
    reveal_with_fuel(digits_value, 5);
    let a = s.drop_last();
    let b = a.drop_last();
    let c = b.drop_last();
    assert(c =~= seq![s[0]]);
    assert(c.drop_last() =~= Seq::<char>::empty());
    assert(b.last() == s[1] && a.last() == s[2] && s.last() == s[3]);
    assert(digits_value(c) == Some(d3));
    assert(digits_value(b) == Some(10 * d3 + d2));
    assert(digits_value(a) == Some(10 * (10 * d3 + d2) + d1));
}

/// Reading back a date that was written gives the date, for the years 0 to
/// 9999.
pub proof fn law_yyyymmdd_reads_back(d: Date)
    requires
        d.valid(),
        0 <= d.year <= 9999,
    ensures
        date_of(date_text(d.year as int, d.month as int, d.day as int)) == Some(d),
{
    let s = ymd_text(d);
    assert(s.take(4) =~= four_digits(d.year as int));
    assert(s.subrange(4, 6) =~= two_digits(d.month as int));
    assert(s.subrange(6, 8) =~= two_digits(d.day as int));
    lemma_four_digits_value(d.year as int);
    lemma_two_digits_value(d.month as int);
    lemma_two_digits_value(d.day as int);
}

/// Writes an instant, in seconds since the Unix epoch, as
/// `YYYYMMDD HH:MM:SS UTC`; none where it is out of range.
pub fn format_gtd(seconds: i64) -> (r: Option<String>)
    ensures
        match r {
            Some(s) => utc_text(seconds as int) == Some(s@),
            None => utc_text(seconds as int) is None,
        },
{
    format_utc(seconds)
}

// Names

/// The exchange that a text names, in either case.
pub open spec fn exchange_named(s: Seq<char>) -> Exchange {
    let u = upper(s);
    if u == "CME"@ || u == "GLOBEX"@ {
        Exchange::Cme
    } else if u == "COMEX"@ {
        Exchange::Comex
    } else if u == "NYMEX"@ {
        Exchange::Nymex
    } else if u == "CBOT"@ || u == "ECBOT"@ {
        Exchange::Cbot
    } else {
        Exchange::Other(0)
    }
}

/// Reads an exchange.
pub fn parse_exchange(s: &str) -> (r: Exchange)
    ensures
        r == exchange_named(s@),
{
    let u = to_upper(s);
    let u = u.as_str();
    if str_eq(u, "CME") || str_eq(u, "GLOBEX") {
        Exchange::Cme
    } else if str_eq(u, "COMEX") {
        Exchange::Comex
    } else if str_eq(u, "NYMEX") {
        Exchange::Nymex
    } else if str_eq(u, "CBOT") || str_eq(u, "ECBOT") {
        Exchange::Cbot
    } else {
        Exchange::Other(0)
    }
}

/// An exchange's name; the broker's own router where it has none.
pub open spec fn exchange_name(e: Exchange) -> Seq<char> {
    match e {
        Exchange::Cme => "CME"@,
        Exchange::Comex => "COMEX"@,
        Exchange::Nymex => "NYMEX"@,
        Exchange::Cbot => "CBOT"@,
        Exchange::Other(_) => "SMART"@,
    }
}

/// Writes an exchange.
pub fn format_exchange(e: Exchange) -> (r: &'static str)
    ensures
        r@ == exchange_name(e),
{
    match e {
        Exchange::Cme => "CME",
        Exchange::Comex => "COMEX",
        Exchange::Nymex => "NYMEX",
        Exchange::Cbot => "CBOT",
        Exchange::Other(_) => "SMART",
    }
}

/// The currency that a text names, in either case; dollars unless it names
/// another.
pub open spec fn currency_named(s: Seq<char>) -> Currency {
    let u = upper(s);
    if u == "EUR"@ {
        Currency::Eur
    } else if u == "GBP"@ {
        Currency::Gbp
    } else if u == "JPY"@ {
        Currency::Jpy
    } else {
        Currency::Usd
    }
}

/// Reads a currency.
pub fn parse_currency(s: &str) -> (r: Currency)
    ensures
        r == currency_named(s@),
{
    let u = to_upper(s);
    let u = u.as_str();
    if str_eq(u, "EUR") {
        Currency::Eur
    } else if str_eq(u, "GBP") {
        Currency::Gbp
    } else if str_eq(u, "JPY") {
        Currency::Jpy
    } else {
        Currency::Usd
    }
}

/// Writes a currency.
pub fn format_currency(c: Currency) -> (r: &'static str)
    ensures
        r@ == crate::convert::currency_text(c),
{
    crate::convert::currency_to_str(c)
}

/// The status that a text names; anything unknown counts as rejected.
pub open spec fn status_named(s: Seq<char>) -> OrderStatus {
    if s == "PendingSubmit"@ || s == "ApiPending"@ {
        OrderStatus::PendingSubmit
    } else if s == "Submitted"@ || s == "PreSubmitted"@ {
        OrderStatus::Submitted
    } else if s == "Filled"@ {
        OrderStatus::Filled
    } else if s == "Cancelled"@ || s == "ApiCancelled"@ {
        OrderStatus::Cancelled
    } else if s == "PendingCancel"@ {
        OrderStatus::PendingCancel
    } else if s == "Inactive"@ {
        OrderStatus::Inactive
    } else {
        OrderStatus::Rejected
    }
}

/// Reads an order's status.
pub fn parse_order_status(s: &str) -> (r: OrderStatus)
    ensures
        r == status_named(s@),
{
    if str_eq(s, "PendingSubmit") || str_eq(s, "ApiPending") {
        OrderStatus::PendingSubmit
    } else if str_eq(s, "Submitted") || str_eq(s, "PreSubmitted") {
        OrderStatus::Submitted
    } else if str_eq(s, "Filled") {
        OrderStatus::Filled
    } else if str_eq(s, "Cancelled") || str_eq(s, "ApiCancelled") {
        OrderStatus::Cancelled
    } else if str_eq(s, "PendingCancel") {
        OrderStatus::PendingCancel
    } else if str_eq(s, "Inactive") {
        OrderStatus::Inactive
    } else {
        OrderStatus::Rejected
    }
}

/// The library's class for an order type.
pub open spec fn order_class(t: OrderType) -> Seq<char> {
    match t {
        OrderType::Limit => "LimitOrder"@,
        OrderType::Market => "MarketOrder"@,
        OrderType::StopLimit { stop_price } => "StopLimitOrder"@,
    }
}

/// The library's class for an order type.
pub fn order_class_for(t: &OrderType) -> (r: &'static str)
    ensures
        r@ == order_class(*t),
{
    match t {
        OrderType::Limit => "LimitOrder",
        OrderType::Market => "MarketOrder",
        OrderType::StopLimit { stop_price: _ } => "StopLimitOrder",
    }
}

/// Writes an order's life.
pub fn tif_str(tif: TimeInForce) -> (r: &'static str)
    ensures
        r@ == crate::convert::tif_text(tif),
{
    crate::convert::tif_str(tif)
}

/// Reads an order's life; the day where it is empty or unknown.
pub fn parse_tif(s: &str) -> (r: TimeInForce)
    ensures
        r == crate::convert::tif_of(s@),
{
    crate::convert::parse_tif(s)
}

/// Writes a side.
pub fn side_str(s: Side) -> (r: &'static str)
    ensures
        r@ == crate::ipc::events::side_text(s),
{
    crate::ipc::events::side_name(s)
}

// Objects

/// A contract as the library gives it: what is missing is empty, 0 or none.
#[derive(Debug)]
pub struct RawContract {
    pub symbol: String,
    pub local_symbol: String,
    pub sec_type: String,
    pub con_id: i64,
    pub exchange: String,
    pub currency: String,
    /// None where the text is no number.
    pub multiplier: Option<Double>,
    pub last_trade_date: String,
    pub strike: Decimal,
    pub right: String,
}

/// 1.0
pub const ONE_BITS: u64 = 0x3ff0_0000_0000_0000;

/// The kind that a security type names.
pub open spec fn kind_named(s: Seq<char>) -> Option<ContractKind> {
    if s == "FUT"@ {
        Some(ContractKind::Future)
    } else if s == "OPT"@ || s == "FOP"@ {
        Some(ContractKind::Option)
    } else {
        None
    }
}

/// The right that a text's first letter names.
pub open spec fn right_named(s: Seq<char>) -> Option<Right> {
    if s.len() == 0 {
        None
    } else if upper_char(s[0]) == 'C' {
        Some(Right::Call)
    } else if upper_char(s[0]) == 'P' {
        Some(Right::Put)
    } else {
        None
    }
}

fn read_right(s: &str) -> (r: Option<Right>)
    ensures
        r == right_named(s@),
{
    let chars = chars_of(s);
    if chars.len() == 0 {
        return None;
    }
    let c: char = upper_of(chars[0]);
    if c == 'C' {
        Some(Right::Call)
    } else if c == 'P' {
        Some(Right::Put)
    } else {
        None
    }
}

/// The expiry of a contract: far away where it cannot be read.
pub open spec fn expiry_of(s: Seq<char>) -> Date {
    match date_of(s) {
        Some(d) => d,
        None => Date { year: 2099, month: 12, day: 31 },
    }
}

/// Whether `c` is a contract as the library gives it.
pub open spec fn reads_contract(raw: RawContract, kind: ContractKind, c: Contract) -> bool {
    &&& c.instrument_id.0 == raw.con_id as u64
    &&& c.kind == kind
    &&& c.symbol@ == raw.symbol@
    &&& c.local_symbol@ == raw.local_symbol@
    &&& c.expiry == expiry_of(raw.last_trade_date@)
    &&& c.multiplier == (match raw.multiplier {
        Some(m) => m,
        None => Double { bits: ONE_BITS },
    })
    &&& c.exchange == exchange_named(raw.exchange@)
    &&& c.currency == currency_named(raw.currency@)
    &&& match kind {
        ContractKind::Option => c.strike == Some(raw.strike) && c.right == right_named(raw.right@),
        ContractKind::Future => c.strike is None && c.right is None,
    }
}

/// Reads a contract. Only futures and options are known.
pub fn contract_from_py(raw: &RawContract) -> (r: Result<Contract, BrokerError>)
    ensures
        match r {
            Ok(c) => kind_named(raw.sec_type@) is Some && reads_contract(*raw, kind_named(raw.sec_type@)->0, c),
            Err(BrokerError::Protocol { code, message }) => kind_named(raw.sec_type@) is None && code is None && message@
                == "unsupported secType: "@ + raw.sec_type@,
            Err(_) => false,
        },
{
    let sec = raw.sec_type.as_str();
    proof {
        reveal_strlit("FUT");
        reveal_strlit("OPT");
        reveal_strlit("FOP");
    }
    let kind = if str_eq(sec, "FUT") {
        ContractKind::Future
    } else if str_eq(sec, "OPT") || str_eq(sec, "FOP") {
        ContractKind::Option
    } else {
        let mut message = "unsupported secType: ".to_owned();
        message.append(sec);
        return Err(BrokerError::Protocol { code: None, message });
    };
    let (strike, right) = match kind {
        ContractKind::Option => (Some(raw.strike.clone()), read_right(raw.right.as_str())),
        ContractKind::Future => (None, None),
    };
    Ok(
        Contract {
            instrument_id: InstrumentId(raw.con_id as u64),
            kind,
            symbol: raw.symbol.clone(),
            local_symbol: raw.local_symbol.clone(),
            expiry: match parse_yyyymmdd(raw.last_trade_date.as_str()) {
                Some(d) => d,
                None => Date { year: 2099, month: 12, day: 31 },
            },
            strike,
            right,
            multiplier: match raw.multiplier {
                Some(m) => m,
                None => Double { bits: ONE_BITS },
            },
            exchange: parse_exchange(raw.exchange.as_str()),
            currency: parse_currency(raw.currency.as_str()),
            trading_class: "".to_owned(),
        },
    )
}

/// Reads a position. The library gives no profits; they are 0.
pub fn position_from_py(raw: &RawContract, position: Double, avg_cost: Double) -> (r: Result<Position, BrokerError>)
    ensures
        match r {
            Ok(p) => {
                &&& kind_named(raw.sec_type@) is Some
                &&& reads_contract(*raw, kind_named(raw.sec_type@)->0, p.contract)
                &&& p.quantity == position.clamped_signed(i32::MIN as int, i32::MAX as int)
                &&& p.avg_cost == avg_cost
                &&& p.realized_pnl.bits == 0
                &&& p.unrealized_pnl.bits == 0
            },
            Err(BrokerError::Protocol { code, message }) => kind_named(raw.sec_type@) is None && code is None && message@
                == "unsupported secType: "@ + raw.sec_type@,
            Err(_) => false,
        },
{
    match contract_from_py(raw) {
        Ok(contract) => Ok(
            Position {
                contract,
                quantity: position.to_i32(),
                avg_cost,
                realized_pnl: Double::zero(),
                unrealized_pnl: Double::zero(),
            },
        ),
        Err(e) => Err(e),
    }
}

/// A row of account values.
#[derive(Debug)]
pub struct AccountRow {
    pub tag: String,
    /// 0 where the text is no number.
    pub value: Double,
    pub currency: String,
}

/// Whether a row counts: in dollars, in the account's own currency, or in
/// none.
pub open spec fn counts(currency: Seq<char>) -> bool {
    currency == "USD"@ || currency == "BASE"@ || currency.len() == 0
}

/// The last value of a tag among the rows that count, 0 where there is none.
pub open spec fn account_value(rows: Seq<AccountRow>, tag: Seq<char>) -> Double
    decreases rows.len(),
{
    if rows.len() == 0 {
        Double { bits: 0 }
    } else if counts(rows.last().currency@) && rows.last().tag@ == tag {
        rows.last().value
    } else {
        account_value(rows.drop_last(), tag)
    }
}

/// Reads an account's balances.
pub fn account_snapshot_from_rows(rows: &Vec<AccountRow>, now_ns: u64) -> (r: AccountSnapshot)
    ensures
        r == (AccountSnapshot {
            net_liquidation: account_value(rows@, "NetLiquidation"@),
            maintenance_margin: account_value(rows@, "MaintMarginReq"@),
            initial_margin: account_value(rows@, "InitMarginReq"@),
            buying_power: account_value(rows@, "BuyingPower"@),
            realized_pnl_today: account_value(rows@, "RealizedPnL"@),
            timestamp_ns: now_ns,
        }),
{
    proof {
        reveal_strlit("NetLiquidation");
        reveal_strlit("MaintMarginReq");
        reveal_strlit("InitMarginReq");
        reveal_strlit("BuyingPower");
        reveal_strlit("RealizedPnL");
        assert("NetLiquidation"@[0] == 'N' && "MaintMarginReq"@[0] == 'M' && "InitMarginReq"@[0] == 'I');
        assert("BuyingPower"@[0] == 'B' && "RealizedPnL"@[0] == 'R');
    }
    let mut a = AccountSnapshot {
        net_liquidation: Double::zero(),
        maintenance_margin: Double::zero(),
        initial_margin: Double::zero(),
        buying_power: Double::zero(),
        realized_pnl_today: Double::zero(),
        timestamp_ns: now_ns,
    };
    let mut i: usize = 0;
    while i < rows.len()
        invariant
            i <= rows@.len(),
            "NetLiquidation"@[0] == 'N',
            "MaintMarginReq"@[0] == 'M',
            "InitMarginReq"@[0] == 'I',
            "BuyingPower"@[0] == 'B',
            "RealizedPnL"@[0] == 'R',
            a == (AccountSnapshot {
                net_liquidation: account_value(rows@.take(i as int), "NetLiquidation"@),
                maintenance_margin: account_value(rows@.take(i as int), "MaintMarginReq"@),
                initial_margin: account_value(rows@.take(i as int), "InitMarginReq"@),
                buying_power: account_value(rows@.take(i as int), "BuyingPower"@),
                realized_pnl_today: account_value(rows@.take(i as int), "RealizedPnL"@),
                timestamp_ns: now_ns,
            }),
        decreases rows@.len() - i,
    {
        let row = &rows[i];
        assert(rows@.take(i + 1).last() == *row);
        assert(rows@.take(i + 1).drop_last() =~= rows@.take(i as int));
        let c = row.currency.as_str();
        if c.is_empty() || str_eq(c, "USD") || str_eq(c, "BASE") {
            let tag = row.tag.as_str();
            if str_eq(tag, "NetLiquidation") {
                a.net_liquidation = row.value;
            } else if str_eq(tag, "MaintMarginReq") {
                a.maintenance_margin = row.value;
            } else if str_eq(tag, "InitMarginReq") {
                a.initial_margin = row.value;
            } else if str_eq(tag, "BuyingPower") {
                a.buying_power = row.value;
            } else if str_eq(tag, "RealizedPnL") {
                a.realized_pnl_today = row.value;
            }
        }
        i = i + 1;
    }
    assert(rows@.take(i as int) =~= rows@);
    a
}

/// An execution as the library gives it.
#[derive(Debug)]
pub struct RawFill {
    pub contract: RawContract,
    pub exec_id: String,
    pub order_id: i64,
    pub shares: Double,
    pub price: Double,
    pub side: String,
    pub commission: Option<Double>,
}

/// The largest finite number, which stands for no commission.
pub const UNSET_COMMISSION_BITS: u64 = 0x7fef_ffff_ffff_ffff;

/// The side of an execution: bought where it says so in either case.
pub open spec fn fill_side(s: Seq<char>) -> Side {
    let u = upper(s);
    if u == "BOT"@ || u == "BUY"@ || u == "B"@ {
        Side::Buy
    } else {
        Side::Sell
    }
}

/// A commission that is known.
pub open spec fn known_commission(c: Option<Double>) -> Option<Double> {
    match c {
        Some(v) => if v.finite() && v.bits != UNSET_COMMISSION_BITS {
            Some(v)
        } else {
            None
        },
        None => None,
    }
}

/// Reads an execution.
pub fn fill_from_py(raw: &RawFill, now_ns: u64) -> (r: Result<Fill, BrokerError>)
    ensures
        match r {
            Ok(f) => {
                &&& kind_named(raw.contract.sec_type@) is Some
                &&& f.exec_id@ == raw.exec_id@
                &&& f.order_id.0 == raw.order_id as u64
                &&& f.instrument_id.0 == raw.contract.con_id as u64
                &&& f.side == fill_side(raw.side@)
                &&& f.qty == raw.shares.clamped(u32::MAX as nat)
                &&& f.price == raw.price
                &&& f.timestamp_ns == now_ns
                &&& f.commission == known_commission(raw.commission)
            },
            Err(BrokerError::Protocol { code, message }) => kind_named(raw.contract.sec_type@) is None && code is None
                && message@ == "unsupported secType: "@ + raw.contract.sec_type@,
            Err(_) => false,
        },
{
    match contract_from_py(&raw.contract) {
        Ok(contract) => {
            let u = to_upper(raw.side.as_str());
            let u = u.as_str();
            let side = if str_eq(u, "BOT") || str_eq(u, "BUY") || str_eq(u, "B") {
                Side::Buy
            } else {
                Side::Sell
            };
            let commission = match raw.commission {
                Some(v) => if v.is_finite() && v.bits != UNSET_COMMISSION_BITS {
                    Some(v)
                } else {
                    None
                },
                None => None,
            };
            Ok(
                Fill {
                    instrument_id: contract.instrument_id,
                    order_id: OrderId(raw.order_id as u64),
                    exec_id: raw.exec_id.clone(),
                    side,
                    qty: raw.shares.to_u32(),
                    price: raw.price,
                    timestamp_ns: now_ns,
                    commission,
                },
            )
        },
        Err(e) => Err(e),
    }
}

/// What each status says of an order. A status that is not known says that it
/// was refused.
pub proof fn law_statuses_are_read(s: Seq<char>)
    ensures
        status_named(s) is PendingSubmit <==> s == "PendingSubmit"@ || s == "ApiPending"@,
        status_named(s) is Submitted <==> s == "Submitted"@ || s == "PreSubmitted"@,
        status_named(s) is Filled <==> s == "Filled"@,
        status_named(s) is Cancelled <==> s == "Cancelled"@ || s == "ApiCancelled"@,
        status_named(s) is PendingCancel <==> s == "PendingCancel"@,
        status_named(s) is Inactive <==> s == "Inactive"@,
{
    reveal_strlit("PendingSubmit");
    reveal_strlit("ApiPending");
    reveal_strlit("Submitted");
    reveal_strlit("PreSubmitted");
    reveal_strlit("Filled");
    reveal_strlit("Cancelled");
    reveal_strlit("ApiCancelled");
    reveal_strlit("PendingCancel");
    reveal_strlit("Inactive");
    assert("PendingSubmit"@.len() == 13);
    assert("ApiPending"@.len() == 10);
    assert("Submitted"@.len() == 9);
    assert("PreSubmitted"@.len() == 12);
    assert("Filled"@.len() == 6);
    assert("Cancelled"@.len() == 9);
    assert("ApiCancelled"@.len() == 12);
    assert("PendingCancel"@.len() == 13);
    assert("Inactive"@.len() == 8);
    assert("PendingSubmit"@[7] != "PendingCancel"@[7]);
    assert("Submitted"@[0] != "Cancelled"@[0]);
    assert("PreSubmitted"@[0] != "ApiCancelled"@[0]);
}

/// What each kind of contract is called; other kinds are not traded.
pub proof fn law_kinds_are_read(s: Seq<char>)
    ensures
        kind_named(s) == Some(ContractKind::Future) <==> s == "FUT"@,
        kind_named(s) == Some(ContractKind::Option) <==> s == "OPT"@ || s == "FOP"@,
{
    reveal_strlit("FUT");
    reveal_strlit("OPT");
    reveal_strlit("FOP");
    assert("FUT"@.len() == 3);
    assert("OPT"@.len() == 3);
    assert("FOP"@.len() == 3);
    assert("FUT"@[0] != "OPT"@[0]);
    assert("FUT"@[1] != "FOP"@[1]);
    assert("OPT"@[0] != "FOP"@[0]);
}

/// A right goes by its first letter, small or capital; any other letter is
/// none.
pub proof fn law_rights_are_read(s: Seq<char>)
    ensures
        right_named(s) == Some(Right::Call) <==> s.len() > 0 && (s[0] == 'C' || s[0] == 'c'),
        right_named(s) == Some(Right::Put) <==> s.len() > 0 && (s[0] == 'P' || s[0] == 'p'),
{
}

/// What was bought is told from what was sold by these words, in capitals or
/// not.
pub proof fn law_fill_sides_are_read(s: Seq<char>)
    ensures
        s == "BOT"@ || s == "BUY"@ || s == "B"@ ==> fill_side(s) is Buy,
        s == "SLD"@ || s == "SELL"@ || s == "S"@ ==> fill_side(s) is Sell,
        fill_side(s) is Buy ==> upper(s) == "BOT"@ || upper(s) == "BUY"@ || upper(s) == "B"@,
        fill_side(lower(s)) == fill_side(s),
        fill_side(upper(s)) == fill_side(s),
{
    reveal_strlit("BOT");
    reveal_strlit("BUY");
    reveal_strlit("B");
    reveal_strlit("SLD");
    reveal_strlit("SELL");
    reveal_strlit("S");
    assert("BOT"@.len() == 3);
    assert("BUY"@.len() == 3);
    assert("B"@.len() == 1);
    assert("SLD"@.len() == 3);
    assert("SELL"@.len() == 4);
    assert("S"@.len() == 1);
    assert("BOT"@[1] != "BUY"@[1]);
    assert("BOT"@[0] != "SLD"@[0]);
    assert("BUY"@[0] != "SLD"@[0]);
    assert("B"@[0] != "S"@[0]);
    assert(upper("BOT"@) =~= "BOT"@);
    assert(upper("BUY"@) =~= "BUY"@);
    assert(upper("B"@) =~= "B"@);
    assert(upper("SLD"@) =~= "SLD"@);
    assert(upper("SELL"@) =~= "SELL"@);
    assert(upper("S"@) =~= "S"@);
    law_case_is_all_that_changes(s);
    assert(upper(upper(s)) =~= upper(s));
}

/// Exchanges and currencies go by these names, in capitals or not; what is
/// not known is some other exchange, and dollars.
pub proof fn law_places_and_currencies_are_read(s: Seq<char>)
    ensures
        s == "CME"@ || s == "GLOBEX"@ ==> exchange_named(s) is Cme,
        s == "COMEX"@ ==> exchange_named(s) is Comex,
        s == "NYMEX"@ ==> exchange_named(s) is Nymex,
        s == "CBOT"@ || s == "ECBOT"@ ==> exchange_named(s) is Cbot,
        exchange_named(lower(s)) == exchange_named(s),
        s == "EUR"@ ==> currency_named(s) is Eur,
        s == "GBP"@ ==> currency_named(s) is Gbp,
        s == "JPY"@ ==> currency_named(s) is Jpy,
        s == "USD"@ ==> currency_named(s) is Usd,
        currency_named(lower(s)) == currency_named(s),
        forall|e: Exchange| !(e is Other) ==> exchange_named(#[trigger] exchange_name(e)) == e,
{
    reveal_strlit("CME");
    reveal_strlit("GLOBEX");
    reveal_strlit("COMEX");
    reveal_strlit("NYMEX");
    reveal_strlit("CBOT");
    reveal_strlit("ECBOT");
    assert("CME"@.len() == 3);
    assert("GLOBEX"@.len() == 6);
    assert("COMEX"@.len() == 5);
    assert("NYMEX"@.len() == 5);
    assert("CBOT"@.len() == 4);
    assert("ECBOT"@.len() == 5);
    assert("COMEX"@[0] != "NYMEX"@[0]);
    assert("COMEX"@[0] != "ECBOT"@[0]);
    assert("NYMEX"@[0] != "ECBOT"@[0]);
    reveal_strlit("EUR");
    reveal_strlit("GBP");
    reveal_strlit("JPY");
    reveal_strlit("USD");
    assert("EUR"@.len() == 3);
    assert("GBP"@.len() == 3);
    assert("JPY"@.len() == 3);
    assert("USD"@.len() == 3);
    assert("EUR"@[0] != "GBP"@[0]);
    assert("EUR"@[0] != "JPY"@[0]);
    assert("EUR"@[0] != "USD"@[0]);
    assert("GBP"@[0] != "JPY"@[0]);
    assert("GBP"@[0] != "USD"@[0]);
    assert("JPY"@[0] != "USD"@[0]);
    assert(upper("CME"@) =~= "CME"@);
    assert(upper("GLOBEX"@) =~= "GLOBEX"@);
    assert(upper("COMEX"@) =~= "COMEX"@);
    assert(upper("NYMEX"@) =~= "NYMEX"@);
    assert(upper("CBOT"@) =~= "CBOT"@);
    assert(upper("ECBOT"@) =~= "ECBOT"@);
    assert(upper("EUR"@) =~= "EUR"@);
    assert(upper("GBP"@) =~= "GBP"@);
    assert(upper("JPY"@) =~= "JPY"@);
    assert(upper("USD"@) =~= "USD"@);
    law_case_is_all_that_changes(s);
}

/// An account's figure is that of the last row with its name whose currency
/// counts; zero where there is none.
pub proof fn law_last_row_counts(rows: Seq<AccountRow>, tag: Seq<char>)
    ensures
        (forall|i: int| 0 <= i < rows.len() ==> !tells(#[trigger] rows[i], tag)) ==> account_value(rows, tag).bits == 0,
        forall|i: int|
            0 <= i < rows.len() && tells(#[trigger] rows[i], tag) && (forall|j: int|
                i < j < rows.len() ==> !tells(#[trigger] rows[j], tag)) ==> account_value(rows, tag) == rows[i].value,
    decreases rows.len(),
{
    reveal_strlit("USD");
    reveal_strlit("BASE");
    assert("USD"@.len() == 3);
    assert("BASE"@.len() == 4);
    if rows.len() > 0 {
        let rest = rows.drop_last();
        let n = rows.len() - 1;
        assert(rows.last() == rows[n]);
        assert(forall|i: int| 0 <= i < n ==> #[trigger] rest[i] == rows[i]);
        law_last_row_counts(rest, tag);
        assert(tells(rows[n], tag) == (counts(rows[n].currency@) && rows[n].tag@ == tag)) by {
            if rows[n].currency@.len() == 0 {
                assert(rows[n].currency@ =~= Seq::<char>::empty());
            }
        }
        assert forall|i: int|
            0 <= i < rows.len() && tells(#[trigger] rows[i], tag) && (forall|j: int|
                i < j < rows.len() ==> !tells(#[trigger] rows[j], tag)) implies account_value(rows, tag) == rows[i].value by {
            if i < n {
                assert(!tells(rows[n], tag));
                assert(tells(rest[i], tag));
                assert forall|j: int| i < j < rest.len() implies !tells(#[trigger] rest[j], tag) by {
                    assert(!tells(rows[j], tag));
                }
            }
        }
        if forall|i: int| 0 <= i < rows.len() ==> !tells(#[trigger] rows[i], tag) {
            assert(!tells(rows[n], tag));
            assert forall|i: int| 0 <= i < rest.len() implies !tells(#[trigger] rest[i], tag) by {
                assert(!tells(rows[i], tag));
            }
        }
    }
}

/// Whether a row tells a figure: in dollars, in the account's own currency, or
/// without one.
pub open spec fn tells(row: AccountRow, tag: Seq<char>) -> bool {
    row.tag@ == tag && (row.currency@ == "USD"@ || row.currency@ == "BASE"@ || row.currency@ == Seq::<char>::empty())
}

/// A commission that the gateway has not told yet, or that is no amount, is
/// none; any other is kept.
pub proof fn law_told_commissions_are_kept(c: Double)
    ensures
        c.finite() && c.bits != 0x7fef_ffff_ffff_ffff ==> known_commission(Some(c)) == Some(c),
        c.bits == 0x7fef_ffff_ffff_ffff ==> known_commission(Some(c)) is None,
        c.nan() ==> known_commission(Some(c)) is None,
        known_commission(None) is None,
{
}

/// A contract is read as it was sent: an option with its strike and right, a
/// future without; without a multiplier it is one for one.
pub proof fn law_contract_is_read(raw: RawContract, kind: ContractKind, c: Contract)
    requires
        reads_contract(raw, kind, c),
    ensures
        raw.con_id >= 0 ==> c.instrument_id.0 == raw.con_id,
        c.symbol@ == raw.symbol@,
        c.kind == kind,
        kind is Option ==> c.strike == Some(raw.strike),
        kind is Option && raw.right@.len() > 0 && raw.right@[0] == 'C' ==> c.right == Some(Right::Call),
        kind is Option && raw.right@.len() > 0 && raw.right@[0] == 'P' ==> c.right == Some(Right::Put),
        kind is Future ==> c.strike is None && c.right is None,
        raw.multiplier matches Some(m) ==> c.multiplier == m,
        raw.multiplier is None ==> c.multiplier.bits == 0x3ff0_0000_0000_0000,
        forall|d: Date|
            d.valid() && 0 <= d.year <= 9999 && raw.last_trade_date@ == #[trigger] date_text(
                d.year as int,
                d.month as int,
                d.day as int,
            ) ==> c.expiry == d,
{
    assert forall|d: Date|
        d.valid() && 0 <= d.year <= 9999 && raw.last_trade_date@ == #[trigger] date_text(
            d.year as int,
            d.month as int,
            d.day as int,
        ) implies c.expiry == d by {
        law_yyyymmdd_reads_back(d);
    }
}

/// Orders go by these names.
pub proof fn law_order_classes_are_named(t: OrderType)
    ensures
        t is Limit <==> order_class(t) == "LimitOrder"@,
        t is Market <==> order_class(t) == "MarketOrder"@,
        t is StopLimit <==> order_class(t) == "StopLimitOrder"@,
{
    reveal_strlit("LimitOrder");
    reveal_strlit("MarketOrder");
    reveal_strlit("StopLimitOrder");
    assert("LimitOrder"@.len() == 10);
    assert("MarketOrder"@.len() == 11);
    assert("StopLimitOrder"@.len() == 14);
}

} // verus!
