//! Announcements of executions and stops.

use crate::api::{Fill, Side};
use crate::decimal_text::{comma_text, comma_usd, fixed, fixed_text, unknown_text};
use crate::double::Double;
use crate::text::{digits, to_lower, u64_text};
use vstd::prelude::*;
use vstd::string::*;

verus! {

/// What a stop does.
#[derive(Clone, Copy, Debug, PartialEq, Eq, Structural)]
pub enum KillType {
    /// No new orders; ends with the session.
    Halt,
    /// The hedge is brought to flat.
    HedgeFlat,
    /// Everything is closed.
    Flatten,
}

/// A stop.
#[derive(Debug)]
pub struct KillEvent {
    /// Name of what set it off.
    pub source: String,
    pub kill_type: KillType,
    pub reason: String,
    pub timestamp_ns: u64,
}

/// The name of a stop's type.
pub open spec fn kill_type_text(t: KillType) -> Seq<char> {
    match t {
        KillType::Halt => "Halt"@,
        KillType::HedgeFlat => "HedgeFlat"@,
        KillType::Flatten => "Flatten"@,
    }
}

/// The name of a stop's type.
pub fn kill_type_name(t: KillType) -> (r: &'static str)
    ensures
        r@ == kill_type_text(t),
{
    match t {
        KillType::Halt => "Halt",
        KillType::HedgeFlat => "HedgeFlat",
        KillType::Flatten => "Flatten",
    }
}

/// The colour of a stop: orange where it ends by itself, else red.
pub fn kill_color(t: KillType) -> (r: u64)
    ensures
        r == (match t {
            KillType::Halt => 0xff8800u64,
            KillType::HedgeFlat => 0xcc0000u64,
            KillType::Flatten => 0xcc0000u64,
        }),
{
    match t {
        KillType::Halt => 0xff8800,
        KillType::HedgeFlat => 0xcc0000,
        KillType::Flatten => 0xcc0000,
    }
}

fn push_all(out: &mut String, a: &str, b: &str)
    ensures
        final(out)@ == old(out)@ + a@ + b@,
{
    out.append(a);
    out.append(b);
}

/// An announcement's headline for a stop.
pub fn kill_title(ev: &KillEvent) -> (r: String)
    ensures
        r@ == "KILL: "@ + ev.source@ + " / "@ + kill_type_text(ev.kill_type),
{
    let mut out = "KILL: ".to_owned();
    out.append(ev.source.as_str());
    push_all(&mut out, " / ", kill_type_name(ev.kill_type));
    out
}

/// A stop as the trader is told of it.
#[derive(Debug)]
pub struct KillNotice {
    pub timestamp_ns: u64,
    pub source: String,
    pub reason: String,
    pub kill_type: String,
}

/// A stop as the trader is told of it: names in lower case.
pub fn kill_notice(ev: &KillEvent) -> (r: KillNotice)
    ensures
        r.timestamp_ns == ev.timestamp_ns,
        r.source@ == crate::text::lower(ev.source@),
        r.reason@ == ev.reason@,
        r.kill_type@ == crate::text::lower(kill_type_text(ev.kill_type)),
{
    KillNotice {
        timestamp_ns: ev.timestamp_ns,
        source: to_lower(ev.source.as_str()),
        reason: ev.reason.clone(),
        kill_type: to_lower(kill_type_name(ev.kill_type)),
    }
}

/// The address to announce to: none where it is not set or empty.
pub fn webhook_url(setting: Option<String>) -> (r: Option<String>)
    ensures
        r == (match setting {
            Some(s) => if s@.len() > 0 {
                Some(s)
            } else {
                None
            },
            None => None,
        }),
{
    match setting {
        Some(s) => if s.as_str().is_empty() {
            None
        } else {
            Some(s)
        },
        None => None,
    }
}

/// The colour of an execution: green for sales, blue for purchases.
pub fn fill_color(side: Side) -> (r: u64)
    ensures
        r == (match side {
            Side::Sell => 0x2ecc71u64,
            Side::Buy => 0x3498dbu64,
        }),
{
    match side {
        Side::Sell => 0x2ecc71,
        Side::Buy => 0x3498db,
    }
}

/// What is known around an execution. What is not known is shown as a dash.
#[derive(Debug)]
pub struct FillNotifyContext {
    pub instrument_label: String,
    /// Strike and right; the instrument's name where there is none.
    pub leg_label: Option<String>,
    /// Month and day.
    pub expiry_mmdd: Option<String>,
    pub underlying: Option<Double>,
    pub theo: Option<Double>,
    pub bid: Option<Double>,
    pub ask: Option<Double>,
    pub delta: Option<Double>,
    /// Dollars per day and contract.
    pub theta: Option<Double>,
    /// Dollars gained against the theoretical price.
    pub edge_usd: Option<Double>,
    pub margin_used: Option<Double>,
    /// Delta of options and hedge.
    pub portfolio_delta: Option<Double>,
    pub portfolio_theta: Option<Double>,
    pub fills_today: Option<u32>,
}

impl Default for FillNotifyContext {
    fn default() -> (r: FillNotifyContext)
        ensures
            r.instrument_label@ == ""@,
            r.leg_label is None,
            r.expiry_mmdd is None,
            r.underlying is None,
            r.theo is None,
            r.bid is None,
            r.ask is None,
            r.delta is None,
            r.theta is None,
            r.edge_usd is None,
            r.margin_used is None,
            r.portfolio_delta is None,
            r.portfolio_theta is None,
            r.fills_today is None,
    {
        FillNotifyContext {
            instrument_label: "".to_owned(),
            leg_label: None,
            expiry_mmdd: None,
            underlying: None,
            theo: None,
            bid: None,
            ask: None,
            delta: None,
            theta: None,
            edge_usd: None,
            margin_used: None,
            portfolio_delta: None,
            portfolio_theta: None,
            fills_today: None,
        }
    }
}

/// What an announcement of an execution shows.
#[derive(Debug)]
pub struct FillPayload {
    pub title: String,
    pub color: u64,
    /// Names and values, in the order they are shown.
    pub fields: Vec<(&'static str, String)>,
    pub footer: String,
}

/// A number with decimals behind an optional text, or a dash.
pub open spec fn value_text(v: Option<Double>, front: Seq<char>, decimals: nat, plus: bool) -> Seq<char> {
    match v {
        Some(d) => front + fixed_text(d, decimals, plus),
        None => unknown_text(),
    }
}

fn value(v: Option<Double>, front: &str, decimals: u32, plus: bool) -> (r: String)
    requires
        decimals <= 4,
    ensures
        r@ == value_text(v, front@, decimals as nat, plus),
{
    match v {
        Some(d) => {
            let mut out = front.to_owned();
            out.append(fixed(d, decimals, plus).as_str());
            out
        },
        None => "—".to_owned(),
    }
}

/// Dollars with commas, or a dash.
pub open spec fn dollars_text(v: Option<Double>) -> Seq<char> {
    match v {
        Some(d) => "$"@ + comma_text(d),
        None => unknown_text(),
    }
}

fn dollars(v: Option<Double>) -> (r: String)
    ensures
        r@ == dollars_text(v),
{
    match v {
        Some(d) => {
            let mut out = "$".to_owned();
            out.append(comma_usd(d).as_str());
            out
        },
        None => "—".to_owned(),
    }
}

/// Both quotes, or a dash where one is missing or not positive.
pub open spec fn bbo_text(bid: Option<Double>, ask: Option<Double>) -> Seq<char> {
    match (bid, ask) {
        (Some(b), Some(a)) => if b.above_zero() && a.above_zero() {
            fixed_text(b, 4, false) + " / "@ + fixed_text(a, 4, false)
        } else {
            unknown_text()
        },
        _ => unknown_text(),
    }
}

fn bbo(bid: Option<Double>, ask: Option<Double>) -> (r: String)
    ensures
        r@ == bbo_text(bid, ask),
{
    match (bid, ask) {
        (Some(b), Some(a)) => if b.is_positive() && a.is_positive() {
            let mut out = fixed(b, 4, false);
            push_all(&mut out, " / ", fixed(a, 4, false).as_str());
            assert(out@ =~= bbo_text(bid, ask));
            out
        } else {
            "—".to_owned()
        },
        _ => "—".to_owned(),
    }
}

/// An execution's headline.
pub open spec fn fill_title(fill: Fill, ctx: FillNotifyContext) -> Seq<char> {
    (match fill.side {
        Side::Buy => "🟢 BOUGHT "@,
        Side::Sell => "🔴 SOLD "@,
    }) + digits(fill.qty as nat) + " × "@ + (match ctx.leg_label {
        Some(l) => l@,
        None => ctx.instrument_label@,
    }) + " @ "@ + fixed_text(fill.price, 4, false)
}

fn title_of(fill: &Fill, ctx: &FillNotifyContext) -> (r: String)
    ensures
        r@ == fill_title(*fill, *ctx),
{
    let mut out = match fill.side {
        Side::Buy => "🟢 BOUGHT ".to_owned(),
        Side::Sell => "🔴 SOLD ".to_owned(),
    };
    out.append(u64_text(fill.qty as u64).as_str());
    match &ctx.leg_label {
        Some(l) => {
            push_all(&mut out, " × ", l.as_str());
        },
        None => {
            push_all(&mut out, " × ", ctx.instrument_label.as_str());
        },
    }
    push_all(&mut out, " @ ", fixed(fill.price, 4, false).as_str());
    out
}

/// The names of the fields.
pub open spec fn field_names() -> Seq<Seq<char>> {
    seq![
        "Expiry"@,
        "Underlying"@,
        "Theo"@,
        "BBO"@,
        "Delta"@,
        "Theta"@,
        "Edge"@,
        "Margin"@,
        "Portfolio Δ"@,
        "Portfolio θ"@,
        "Fills Today"@,
    ]
}

/// The values of the fields.
pub open spec fn field_values(ctx: FillNotifyContext) -> Seq<Seq<char>> {
    seq![
        match ctx.expiry_mmdd {
            Some(s) => s@,
            None => unknown_text(),
        },
        value_text(ctx.underlying, ""@, 2, false),
        value_text(ctx.theo, ""@, 4, false),
        bbo_text(ctx.bid, ctx.ask),
        value_text(ctx.delta, ""@, 3, false),
        value_text(ctx.theta, "$"@, 1, false),
        value_text(ctx.edge_usd, "$"@, 0, true),
        dollars_text(ctx.margin_used),
        value_text(ctx.portfolio_delta, ""@, 2, true),
        dollars_text(ctx.portfolio_theta),
        match ctx.fills_today {
            Some(n) => digits(n as nat),
            None => unknown_text(),
        },
    ]
}

/// What an announcement of an execution shows: always the same fields, so
/// that its shape does not depend on what is known.
pub fn format_fill_payload(fill: &Fill, ctx: &FillNotifyContext) -> (r: FillPayload)
    ensures
        r.title@ == fill_title(*fill, *ctx),
        r.color == (match fill.side {
            Side::Sell => 0x2ecc71u64,
            Side::Buy => 0x3498dbu64,
        }),
        r.fields@.len() == 11,
        forall|i: int|
            0 <= i < 11 ==> (#[trigger] r.fields@[i]).0@ == field_names()[i] && r.fields@[i].1@ == field_values(*ctx)[i],
        r.footer@ == "corsair_broker · exec="@ + fill.exec_id@,
{
    let expiry = match &ctx.expiry_mmdd {
        Some(s) => s.clone(),
        None => "—".to_owned(),
    };
    let fills = match ctx.fills_today {
        Some(n) => u64_text(n as u64),
        None => "—".to_owned(),
    };
    let mut fields: Vec<(&'static str, String)> = Vec::new();
    fields.push(("Expiry", expiry));
    fields.push(("Underlying", value(ctx.underlying, "", 2, false)));
    fields.push(("Theo", value(ctx.theo, "", 4, false)));
    fields.push(("BBO", bbo(ctx.bid, ctx.ask)));
    fields.push(("Delta", value(ctx.delta, "", 3, false)));
    fields.push(("Theta", value(ctx.theta, "$", 1, false)));
    fields.push(("Edge", value(ctx.edge_usd, "$", 0, true)));
    fields.push(("Margin", dollars(ctx.margin_used)));
    fields.push(("Portfolio Δ", value(ctx.portfolio_delta, "", 2, true)));
    fields.push(("Portfolio θ", dollars(ctx.portfolio_theta)));
    fields.push(("Fills Today", fills));
    let mut footer = "corsair_broker · exec=".to_owned();
    footer.append(fill.exec_id.as_str());
    FillPayload { title: title_of(fill, ctx), color: fill_color(fill.side), fields, footer }
}

/// Whatever else is in an announcement, what was bought is announced as bought
/// and what was sold as sold.
pub proof fn law_titles_tell_the_side(fill: Fill, ctx: FillNotifyContext)
    ensures
        fill.side is Buy ==> fill_title(fill, ctx).take(9) == "🟢 BOUGHT "@,
        fill.side is Sell ==> fill_title(fill, ctx).take(7) == "🔴 SOLD "@,
        ctx.leg_label is None ==> fill_title(fill, ctx) == fill_title(
            fill,
            FillNotifyContext { leg_label: Some(ctx.instrument_label), ..ctx },
        ),
{
    reveal_strlit("🟢 BOUGHT ");
    reveal_strlit("🔴 SOLD ");
    if fill.side is Buy {
        assert(fill_title(fill, ctx).take(9) =~= "🟢 BOUGHT "@);
    } else {
        assert(fill_title(fill, ctx).take(7) =~= "🔴 SOLD "@);
    }
}

/// What stops trading goes by these names.
pub proof fn law_stops_are_named(t: KillType)
    ensures
        t is Halt <==> kill_type_text(t) == "Halt"@,
        t is HedgeFlat <==> kill_type_text(t) == "HedgeFlat"@,
        t is Flatten <==> kill_type_text(t) == "Flatten"@,
{
    reveal_strlit("Halt");
    reveal_strlit("HedgeFlat");
    reveal_strlit("Flatten");
    assert("Halt"@.len() == 4);
    assert("HedgeFlat"@.len() == 9);
    assert("Flatten"@.len() == 7);
}

/// An announcement shows each figure under its name, and a dash for one that
/// is not known.
pub proof fn law_figures_stand_under_their_names(ctx: FillNotifyContext)
    ensures
        field_names().len() == 11 && field_values(ctx).len() == 11,
        field_names()[1] == "Underlying"@ && field_names()[2] == "Theo"@ && field_names()[4] == "Delta"@,
        field_names()[7] == "Margin"@ && field_names()[10] == "Fills Today"@,
        ctx.underlying matches Some(u) ==> field_values(ctx)[1] == fixed_text(u, 2, false),
        ctx.theo matches Some(t) ==> field_values(ctx)[2] == fixed_text(t, 4, false),
        ctx.delta matches Some(d) ==> field_values(ctx)[4] == fixed_text(d, 3, false),
        ctx.fills_today matches Some(n) ==> field_values(ctx)[10] == digits(n as nat),
        ctx.underlying is None ==> field_values(ctx)[1] == "—"@,
        ctx.bid is None || ctx.ask is None ==> field_values(ctx)[3] == "—"@,
        ctx.margin_used is None ==> field_values(ctx)[7] == "—"@,
{
    reveal_strlit("");
    assert forall|s: Seq<char>| #[trigger] (""@ + s) == s by {
        assert(""@ + s =~= s);
    }
}

} // verus!
