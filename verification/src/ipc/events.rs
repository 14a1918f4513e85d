//! What the trader is told: fills, statuses, the connection, the settings.

use crate::api::{ConnectionState, InstrumentId, OrderStatus, Right, Side};
use crate::config::BrokerDaemonConfig;
use crate::dates::{law_two_digits_read_back, two_digits, Date};
use crate::double::Double;
use crate::market_data::state::MarketDataState;
use crate::rounding::{law_rounding_is_nearest, round_to, rounded};
use crate::text::{digit_of, digits, digits_value, i64_text, int_text, int_value, law_int_text_round_trip, u64_text};
use vstd::prelude::*;
use vstd::string::*;

verus! {

/// A side's name.
pub open spec fn side_text(s: Side) -> Seq<char> {
    match s {
        Side::Buy => "BUY"@,
        Side::Sell => "SELL"@,
    }
}

/// A side's name.
pub fn side_name(s: Side) -> (r: &'static str)
    ensures
        r@ == side_text(s),
{
    match s {
        Side::Buy => "BUY",
        Side::Sell => "SELL",
    }
}

/// A right's letter.
pub open spec fn right_text(r: Right) -> Seq<char> {
    match r {
        Right::Call => "C"@,
        Right::Put => "P"@,
    }
}

/// A right's letter.
pub fn right_name(right: Right) -> (r: &'static str)
    ensures
        r@ == right_text(right),
{
    match right {
        Right::Call => "C",
        Right::Put => "P",
    }
}

/// A status' name.
pub open spec fn status_text(s: OrderStatus) -> Seq<char> {
    match s {
        OrderStatus::PendingSubmit => "PendingSubmit"@,
        OrderStatus::Submitted => "Submitted"@,
        OrderStatus::Filled => "Filled"@,
        OrderStatus::Cancelled => "Cancelled"@,
        OrderStatus::Rejected => "Rejected"@,
        OrderStatus::PendingCancel => "PendingCancel"@,
        OrderStatus::Inactive => "Inactive"@,
    }
}

/// A status' name.
pub fn status_name(s: OrderStatus) -> (r: &'static str)
    ensures
        r@ == status_text(s),
{
    match s {
        OrderStatus::PendingSubmit => "PendingSubmit",
        OrderStatus::Submitted => "Submitted",
        OrderStatus::Filled => "Filled",
        OrderStatus::Cancelled => "Cancelled",
        OrderStatus::Rejected => "Rejected",
        OrderStatus::PendingCancel => "PendingCancel",
        OrderStatus::Inactive => "Inactive",
    }
}

/// A connection state's name.
pub open spec fn connection_text(s: ConnectionState) -> Seq<char> {
    match s {
        ConnectionState::Connecting => "Connecting"@,
        ConnectionState::Connected => "Connected"@,
        ConnectionState::LostConnection => "LostConnection"@,
        ConnectionState::Closed => "Closed"@,
    }
}

/// A connection state's name.
pub fn connection_name(s: ConnectionState) -> (r: &'static str)
    ensures
        r@ == connection_text(s),
{
    match s {
        ConnectionState::Connecting => "Connecting",
        ConnectionState::Connected => "Connected",
        ConnectionState::LostConnection => "LostConnection",
        ConnectionState::Closed => "Closed",
    }
}

fn push_two_digits(out: &mut String, n: u64)
    requires
        n < 100,
    ensures
        final(out)@ == old(out)@ + two_digits(n as int),
{
    out.push(digit_of(n / 10));
    out.push(digit_of(n % 10));
    assert(out@ =~= old(out)@ + two_digits(n as int));
}

/// Strike in hundredths, as far as 32 bits hold it.
pub open spec fn strike_cents(strike: int) -> int {
    let n = rounded(strike * 100, 1_000_000_000);
    if n > i32::MAX {
        i32::MAX as int
    } else if n < i32::MIN {
        i32::MIN as int
    } else {
        n
    }
}

fn cents_of(strike: i64) -> (r: i32)
    ensures
        r == strike_cents(strike as int),
{
    let x: i128 = strike as i128 * 100;
    let n: i128 = round_to(x, 1_000_000_000);
    if n > 2147483647 {
        i32::MAX
    } else if n < -2147483648 {
        i32::MIN
    } else {
        n as i32
    }
}

/// An option's name: `HXE`, the expiry as `YYMMDD`, the right and the strike
/// in hundredths.
pub open spec fn option_label(expiry: Date, right: Right, strike: int) -> Seq<char> {
    "HXE"@ + two_digits(expiry.year as int % 100) + two_digits(expiry.month as int) + two_digits(expiry.day as int) + " "@
        + right_text(right) + int_text(strike_cents(strike))
}

/// An instrument's name: an option's, a product's hedge, or its number.
pub open spec fn label_of(md: MarketDataState, iid: InstrumentId) -> Seq<char> {
    if md.by_instrument@.contains_key(iid.0) {
        let o = md.tick_of(iid);
        option_label(o.expiry, o.right, o.strike as int)
    } else if md.underlying_instruments@.contains_key(iid.0) {
        md.underlying_instruments@[iid.0]@ + " hedge"@
    } else {
        "iid="@ + digits(iid.0 as nat)
    }
}

/// The name under which an execution is announced.
pub fn instrument_label(md: &MarketDataState, iid: InstrumentId) -> (r: String)
    requires
        md.wf(),
    ensures
        r@ == label_of(*md, iid),
{
    match md.option_by_iid(iid) {
        Some(o) => {
            let mut out = "HXE".to_owned();
            let y: i32 = o.expiry.year;
            let yy: u64 = if y >= 0 {
                (y % 100) as u64
            } else {
                let back: i32 = ((-(y as i64)) % 100) as i32;
                if back == 0 {
                    0
                } else {
                    (100 - back) as u64
                }
            };
            assert(yy == y as int % 100) by (nonlinear_arith)
                requires
                    y >= 0 ==> yy == (y as int) % 100,
                    y < 0 ==> (if (-(y as int)) % 100 == 0 { yy == 0 } else { yy == 100 - (-(y as int)) % 100 }),
            ;
            push_two_digits(&mut out, yy);
            push_two_digits(&mut out, o.expiry.month as u64);
            push_two_digits(&mut out, o.expiry.day as u64);
            out.append(" ");
            out.append(right_name(o.right));
            out.append(i64_text(cents_of(o.strike) as i64).as_str());
            out
        },
        None => match md.product_for_underlying(iid) {
            Some(p) => {
                let mut out = p;
                out.append(" hedge");
                out
            },
            None => {
                let mut out = "iid=".to_owned();
                out.append(u64_text(iid.0).as_str());
                out
            },
        },
    }
}

/// The settings that the trader follows.
#[derive(Clone, Copy, Debug, PartialEq, Eq, Structural)]
pub struct HelloConfigPayload {
    pub min_edge_ticks: i32,
    pub tick_size: Double,
    pub delta_ceiling: Double,
    pub delta_kill: Double,
    pub margin_ceiling_pct: Double,
    pub gtd_lifetime_s: Double,
    pub gtd_refresh_lead_s: Double,
    pub dead_band_ticks: i32,
    pub skip_if_spread_over_edge_mul: Double,
    pub theta_kill: Double,
    pub vega_kill: Double,
}

/// The settings that the trader follows, from the daemon's.
pub open spec fn hello_of(c: BrokerDaemonConfig) -> HelloConfigPayload {
    HelloConfigPayload {
        min_edge_ticks: c.quoting.min_edge_ticks,
        tick_size: c.quoting.tick_size,
        delta_ceiling: c.constraints.delta_ceiling,
        delta_kill: c.risk.delta_kill,
        margin_ceiling_pct: c.constraints.margin_ceiling_pct,
        gtd_lifetime_s: c.quoting.gtd_lifetime_s,
        gtd_refresh_lead_s: c.quoting.gtd_refresh_lead_s,
        dead_band_ticks: c.quoting.dead_band_ticks,
        skip_if_spread_over_edge_mul: c.quoting.skip_if_spread_over_edge_mul,
        theta_kill: c.risk.theta_kill,
        vega_kill: c.risk.vega_kill,
    }
}

/// The settings that the trader follows, from the daemon's.
pub fn hello_config(c: &BrokerDaemonConfig) -> (r: HelloConfigPayload)
    ensures
        r == hello_of(*c),
{
    HelloConfigPayload {
        min_edge_ticks: c.quoting.min_edge_ticks,
        tick_size: c.quoting.tick_size,
        delta_ceiling: c.constraints.delta_ceiling,
        delta_kill: c.risk.delta_kill,
        margin_ceiling_pct: c.constraints.margin_ceiling_pct,
        gtd_lifetime_s: c.quoting.gtd_lifetime_s,
        gtd_refresh_lead_s: c.quoting.gtd_refresh_lead_s,
        dead_band_ticks: c.quoting.dead_band_ticks,
        skip_if_spread_over_edge_mul: c.quoting.skip_if_spread_over_edge_mul,
        theta_kill: c.risk.theta_kill,
        vega_kill: c.risk.vega_kill,
    }
}

/// Sides, rights, statuses and connections go by these names, each by its own.
pub proof fn law_sides_and_rights_are_named(s: Side, r: Right)
    ensures
        s is Buy <==> side_text(s) == "BUY"@,
        s is Sell <==> side_text(s) == "SELL"@,
        r is Call <==> right_text(r) == "C"@,
        r is Put <==> right_text(r) == "P"@,
{
    reveal_strlit("BUY");
    reveal_strlit("SELL");
    assert("BUY"@.len() == 3);
    assert("SELL"@.len() == 4);
    reveal_strlit("C");
    reveal_strlit("P");
    assert("C"@.len() == 1);
    assert("P"@.len() == 1);
    assert("C"@[0] != "P"@[0]);
}

/// Statuses go by these names, each by its own.
pub proof fn law_states_are_named(s: OrderStatus, c: ConnectionState)
    ensures
        s is PendingSubmit <==> status_text(s) == "PendingSubmit"@,
        s is Submitted <==> status_text(s) == "Submitted"@,
        s is Filled <==> status_text(s) == "Filled"@,
        s is Cancelled <==> status_text(s) == "Cancelled"@,
        s is Rejected <==> status_text(s) == "Rejected"@,
        s is PendingCancel <==> status_text(s) == "PendingCancel"@,
        s is Inactive <==> status_text(s) == "Inactive"@,
        c is Connecting <==> connection_text(c) == "Connecting"@,
        c is Connected <==> connection_text(c) == "Connected"@,
        c is LostConnection <==> connection_text(c) == "LostConnection"@,
        c is Closed <==> connection_text(c) == "Closed"@,
{
    reveal_strlit("PendingSubmit");
    reveal_strlit("Submitted");
    reveal_strlit("Filled");
    reveal_strlit("Cancelled");
    reveal_strlit("Rejected");
    reveal_strlit("PendingCancel");
    reveal_strlit("Inactive");
    assert("PendingSubmit"@.len() == 13);
    assert("Submitted"@.len() == 9);
    assert("Filled"@.len() == 6);
    assert("Cancelled"@.len() == 9);
    assert("Rejected"@.len() == 8);
    assert("PendingCancel"@.len() == 13);
    assert("Inactive"@.len() == 8);
    assert("PendingSubmit"@[7] != "PendingCancel"@[7]);
    assert("Submitted"@[0] != "Cancelled"@[0]);
    assert("Rejected"@[0] != "Inactive"@[0]);
    reveal_strlit("Connecting");
    reveal_strlit("Connected");
    reveal_strlit("LostConnection");
    reveal_strlit("Closed");
    assert("Connecting"@.len() == 10);
    assert("Connected"@.len() == 9);
    assert("LostConnection"@.len() == 14);
    assert("Closed"@.len() == 6);
}

/// An option's name tells the expiry, the right and the strike: the year's
/// last two digits, the month and the day, a letter, and the strike's
/// hundredths, to the nearest.
pub proof fn law_labels_tell_the_option(expiry: Date, right: Right, strike: i64)
    requires
        expiry.valid(),
    ensures
        ({
            let label = option_label(expiry, right, strike as int);
            &&& label.take(3) == "HXE"@
            &&& digits_value(label.subrange(3, 5)) == Some(expiry.year as int % 100)
            &&& digits_value(label.subrange(5, 7)) == Some(expiry.month as int)
            &&& digits_value(label.subrange(7, 9)) == Some(expiry.day as int)
            &&& label[9] == ' '
            &&& label[10] == (if right is Call { 'C' } else { 'P' })
            &&& i32::MIN < strike_cents(strike as int) < i32::MAX ==> int_value(label.skip(11)) is Some && -5_000_000
                <= int_value(label.skip(11))->0 * 10_000_000 - strike <= 5_000_000
        }),
{
    reveal_strlit("HXE");
    reveal_strlit(" ");
    reveal_strlit("C");
    reveal_strlit("P");
    let label = option_label(expiry, right, strike as int);
    let cents = strike_cents(strike as int);
    assert(label.take(3) =~= "HXE"@);
    assert(label.subrange(3, 5) =~= two_digits(expiry.year as int % 100));
    assert(label.subrange(5, 7) =~= two_digits(expiry.month as int));
    assert(label.subrange(7, 9) =~= two_digits(expiry.day as int));
    law_two_digits_read_back(expiry.year as int % 100);
    law_two_digits_read_back(expiry.month as int);
    law_two_digits_read_back(expiry.day as int);
    assert(label.skip(11) =~= int_text(cents));
    law_int_text_round_trip(cents);
    law_rounding_is_nearest(strike * 100, 1_000_000_000);
}

/// The trader is told the limits and the quoting that are set: each under its
/// own name.
pub proof fn law_trader_is_told_the_settings(c: BrokerDaemonConfig)
    ensures
        hello_of(c).delta_kill == c.risk.delta_kill,
        hello_of(c).theta_kill == c.risk.theta_kill,
        hello_of(c).vega_kill == c.risk.vega_kill,
        hello_of(c).delta_ceiling == c.constraints.delta_ceiling,
        hello_of(c).margin_ceiling_pct == c.constraints.margin_ceiling_pct,
        hello_of(c).tick_size == c.quoting.tick_size,
        hello_of(c).min_edge_ticks == c.quoting.min_edge_ticks,
        hello_of(c).dead_band_ticks == c.quoting.dead_band_ticks,
        hello_of(c).gtd_lifetime_s == c.quoting.gtd_lifetime_s,
        hello_of(c).gtd_refresh_lead_s == c.quoting.gtd_refresh_lead_s,
        hello_of(c).skip_if_spread_over_edge_mul == c.quoting.skip_if_spread_over_edge_mul,
{
}

} // verus!
