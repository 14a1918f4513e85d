//! The trader's commands: what each asks of the broker, and what is recorded
//! and answered once the broker has replied.

use crate::api::{
    copy_decimal, Contract, Decimal, ModifyOrderReq, OrderId, OrderType, PlaceOrderReq, Side, TimeInForce,
};
use crate::double::Double;
use crate::market_data::state::{quantized, strike_key};
use crate::runtime::RuntimeMode;
use crate::table::{Table, TableKey};
use crate::text::{chars_of, str_eq, upper_char, upper_of};
use vstd::prelude::*;
use vstd::string::*;

verus! {

/// Names an option: strike in ten-thousandths, expiry as `YYYYMMDD`, `C` or
/// `P`.
#[derive(Debug)]
pub struct ContractKey {
    pub strike_key: i64,
    pub expiry: String,
    pub right: char,
}

impl TableKey for ContractKey {
    type Id = (i64, Seq<char>, char);

    open spec fn id(&self) -> (i64, Seq<char>, char) {
        (self.strike_key, self.expiry@, self.right)
    }

    fn same(&self, other: &ContractKey) -> (r: bool) {
        self.strike_key == other.strike_key && self.right == other.right && str_eq(
            self.expiry.as_str(),
            other.expiry.as_str(),
        )
    }
}

/// An order to place.
#[derive(Debug)]
pub struct PlaceOrderCmd {
    pub strike: Double,
    /// `YYYYMMDD`.
    pub expiry: String,
    pub right: String,
    pub side: String,
    pub qty: i32,
    pub price: Decimal,
    pub client_order_ref: Option<String>,
    pub order_type: String,
    pub tif: String,
    pub gtd_seconds: Option<u32>,
    /// When the trader decided.
    pub ts_ns: Option<u64>,
    /// When the tick that the trader decided on came in.
    pub triggering_tick_broker_recv_ns: Option<u64>,
}

/// An order to cancel.
#[derive(Debug)]
pub struct CancelOrderCmd {
    pub order_id: u64,
}

/// An order to change.
#[derive(Debug)]
pub struct ModifyOrderCmd {
    pub order_id: u64,
    pub price: Option<Decimal>,
    pub qty: Option<u32>,
    pub gtd_seconds: Option<u32>,
    pub ts_ns: Option<u64>,
    pub triggering_tick_broker_recv_ns: Option<u64>,
}

/// What a frame from the trader is.
#[derive(Clone, Copy, Debug, PartialEq, Eq, Structural)]
pub enum CommandKind {
    Place,
    Cancel,
    Modify,
    /// The trader's own counters; nothing is done.
    Telemetry,
    /// The trader has connected; it is answered with the settings.
    Welcome,
    Unknown,
}

/// The command that a type names.
pub open spec fn command_of(kind: Seq<char>) -> CommandKind {
    if kind == "place_order"@ {
        CommandKind::Place
    } else if kind == "cancel_order"@ {
        CommandKind::Cancel
    } else if kind == "modify_order"@ {
        CommandKind::Modify
    } else if kind == "telemetry"@ {
        CommandKind::Telemetry
    } else if kind == "welcome"@ {
        CommandKind::Welcome
    } else {
        CommandKind::Unknown
    }
}

/// Tells the commands apart.
pub fn command_kind(kind: &str) -> (r: CommandKind)
    ensures
        r == command_of(kind@),
{
    if str_eq(kind, "place_order") {
        CommandKind::Place
    } else if str_eq(kind, "cancel_order") {
        CommandKind::Cancel
    } else if str_eq(kind, "modify_order") {
        CommandKind::Modify
    } else if str_eq(kind, "telemetry") {
        CommandKind::Telemetry
    } else if str_eq(kind, "welcome") {
        CommandKind::Welcome
    } else {
        CommandKind::Unknown
    }
}

/// The right that a text names: its first letter in upper case, a call where
/// it is empty.
pub open spec fn right_letter(right: Seq<char>) -> char {
    if right.len() > 0 {
        upper_char(right[0])
    } else {
        'C'
    }
}

fn first_upper(right: &str) -> (r: char)
    ensures
        r == right_letter(right@),
{
    let chars = chars_of(right);
    if chars.len() > 0 {
        upper_of(chars[0])
    } else {
        'C'
    }
}

/// The side that a command asks for: anything but `BUY` sells.
pub open spec fn side_of(side: Seq<char>) -> Side {
    if side == "BUY"@ {
        Side::Buy
    } else {
        Side::Sell
    }
}

/// The order type that a command asks for: anything but `market` is a limit.
pub open spec fn order_type_of(order_type: Seq<char>) -> OrderType {
    if order_type == "market"@ {
        OrderType::Market
    } else {
        OrderType::Limit
    }
}

/// The life that a command asks for; good till a date unless it says
/// otherwise.
pub open spec fn tif_of(tif: Seq<char>) -> TimeInForce {
    if tif == "IOC"@ {
        TimeInForce::Ioc
    } else if tif == "DAY"@ {
        TimeInForce::Day
    } else if tif == "GTC"@ {
        TimeInForce::Gtc
    } else {
        TimeInForce::Gtd
    }
}

/// The contract that a command names, if the broker knows it.
pub open spec fn named_contract(contracts: Table<ContractKey, Contract>, cmd: PlaceOrderCmd) -> Option<Contract> {
    match cmd.strike.nanos() {
        Some(n) => {
            let id = (quantized(n as int) as i64, cmd.expiry@, right_letter(cmd.right@));
            if contracts@.contains_key(id) {
                Some(contracts@[id])
            } else {
                None
            }
        },
        None => None,
    }
}

/// A reference that may be missing, as text.
pub open spec fn ref_of(r: Option<String>) -> Seq<char> {
    match r {
        Some(s) => s@,
        None => ""@,
    }
}

fn ref_text(r: &Option<String>) -> (t: String)
    ensures
        t@ == ref_of(*r),
{
    match r {
        Some(s) => s.clone(),
        None => "".to_owned(),
    }
}

/// Whether `req` is the order that a command asks for.
pub open spec fn asks_for(cmd: PlaceOrderCmd, contract: Contract, account: Seq<char>, now: int, req: PlaceOrderReq) -> bool {
    &&& req.contract == contract
    &&& req.side == side_of(cmd.side@)
    &&& req.qty == (if cmd.qty > 0 {
        cmd.qty as int
    } else {
        0
    })
    &&& req.order_type == order_type_of(cmd.order_type@)
    &&& req.price == Some(cmd.price)
    &&& req.tif == tif_of(cmd.tif@)
    &&& if tif_of(cmd.tif@) == TimeInForce::Gtd {
        req.gtd_until_utc is Some && req.gtd_until_utc->0 == now + (match cmd.gtd_seconds {
            Some(s) => s as int,
            None => 30,
        })
    } else {
        req.gtd_until_utc is None
    }
    &&& req.client_order_ref@ == ref_of(cmd.client_order_ref)
    &&& req.account is Some
    &&& req.account->0@ == account
}

/// What a place command leads to.
#[derive(Debug)]
pub enum PlacePlan {
    /// Nothing is placed in shadow mode.
    Shadow,
    /// The broker does not know the contract; the attempt is recorded.
    NoContract,
    /// The order to hand to the broker.
    Place(PlaceOrderReq),
}

/// What a place command leads to; `now` in seconds since the Unix epoch.
pub fn plan_place(
    cmd: &PlaceOrderCmd,
    mode: RuntimeMode,
    contracts: &Table<ContractKey, Contract>,
    account: &str,
    now: i64,
) -> (r: PlacePlan)
    requires
        contracts.wf(),
        now <= 0x7fff_ffff_0000_0000,
    ensures
        match r {
            PlacePlan::Shadow => mode == RuntimeMode::Shadow,
            PlacePlan::NoContract => mode == RuntimeMode::Live && named_contract(*contracts, *cmd) is None,
            PlacePlan::Place(req) => mode == RuntimeMode::Live && named_contract(*contracts, *cmd) is Some && asks_for(
                *cmd,
                named_contract(*contracts, *cmd)->0,
                account@,
                now as int,
                req,
            ),
        },
{
    match mode {
        RuntimeMode::Shadow => {
            return PlacePlan::Shadow;
        },
        RuntimeMode::Live => {},
    }
    let strike: i64 = match cmd.strike.to_nanos() {
        Some(n) => n,
        None => {
            return PlacePlan::NoContract;
        },
    };
    let key = ContractKey {
        strike_key: strike_key(strike),
        expiry: cmd.expiry.clone(),
        right: first_upper(cmd.right.as_str()),
    };
    let contract = match contracts.get(&key) {
        Some(c) => c.clone(),
        None => {
            return PlacePlan::NoContract;
        },
    };
    let side = if str_eq(cmd.side.as_str(), "BUY") {
        Side::Buy
    } else {
        Side::Sell
    };
    let order_type = if str_eq(cmd.order_type.as_str(), "market") {
        OrderType::Market
    } else {
        OrderType::Limit
    };
    let tif = if str_eq(cmd.tif.as_str(), "IOC") {
        TimeInForce::Ioc
    } else if str_eq(cmd.tif.as_str(), "DAY") {
        TimeInForce::Day
    } else if str_eq(cmd.tif.as_str(), "GTC") {
        TimeInForce::Gtc
    } else {
        TimeInForce::Gtd
    };
    let gtd_until_utc = match tif {
        TimeInForce::Gtd => {
            let life: u32 = match cmd.gtd_seconds {
                Some(s) => s,
                None => 30,
            };
            Some(now + life as i64)
        },
        _ => None,
    };
    PlacePlan::Place(
        PlaceOrderReq {
            contract,
            side,
            qty: if cmd.qty > 0 {
                cmd.qty as u32
            } else {
                0
            },
            order_type,
            price: Some(cmd.price.clone()),
            tif,
            gtd_until_utc,
            client_order_ref: ref_text(&cmd.client_order_ref),
            account: Some(account.to_owned()),
        },
    )
}

/// Where a sample of time was taken: at the wire, or around the call.
#[derive(Clone, Copy, Debug)]
pub struct CallTimes {
    /// When the command came in.
    pub recv_ns: u64,
    /// Just before the broker was called.
    pub send_marker_ns: u64,
    /// Just after the broker answered.
    pub ack_marker_ns: u64,
    /// When the frame was sent and when the first answer to it came, where
    /// the broker knows.
    pub precise: Option<(u64, u64)>,
}

impl CallTimes {
    /// When the order went out.
    pub open spec fn sent(&self) -> u64 {
        match self.precise {
            Some((s, _)) => s,
            None => self.send_marker_ns,
        }
    }

    /// When the order was answered.
    pub open spec fn acked(&self) -> u64 {
        match self.precise {
            Some((_, a)) => a,
            None => self.ack_marker_ns,
        }
    }

    /// When the order went out: by the wire where known, else by the call.
    pub fn send_ns(&self) -> (r: u64)
        ensures
            r == self.sent(),
    {
        match self.precise {
            Some((s, _)) => s,
            None => self.send_marker_ns,
        }
    }

    /// When the order was answered: by the wire where known, else by the
    /// call.
    pub fn ack_ns(&self) -> (r: u64)
        ensures
            r == self.acked(),
    {
        match self.precise {
            Some((_, a)) => a,
            None => self.ack_marker_ns,
        }
    }
}

/// Microseconds from one moment to another, none where it came before.
pub open spec fn us_between(from: u64, to: u64) -> int {
    if to >= from {
        (to - from) / 1000
    } else {
        0
    }
}

/// Microseconds from one moment to another, none where it came before.
pub fn micros_between(from: u64, to: u64) -> (r: u64)
    ensures
        r == us_between(from, to),
{
    if to >= from {
        (to - from) / 1000
    } else {
        0
    }
}

/// How an order command went.
#[derive(Clone, Copy, Debug, PartialEq, Eq, Structural)]
pub enum TimingOutcome {
    Ack,
    Rejected,
    NoContract,
}

impl TimingOutcome {
    /// The name of an outcome in the record.
    pub open spec fn label_of(self) -> Seq<char> {
        match self {
            TimingOutcome::Ack => "ack"@,
            TimingOutcome::Rejected => "rejected"@,
            TimingOutcome::NoContract => "no_contract"@,
        }
    }

    /// The name of an outcome in the record.
    pub fn label(&self) -> (r: &'static str)
        ensures
            r@ == self.label_of(),
    {
        match self {
            TimingOutcome::Ack => "ack",
            TimingOutcome::Rejected => "rejected",
            TimingOutcome::NoContract => "no_contract",
        }
    }
}

/// A row of the wire timing record.
#[derive(Debug)]
pub struct WireTimingRow {
    pub schema: &'static str,
    pub ts_ns: u64,
    pub outcome: TimingOutcome,
    pub order_id: Option<u64>,
    pub triggering_tick_broker_recv_ns: Option<u64>,
    pub trader_decide_ts_ns: Option<u64>,
    pub broker_order_recv_ns: u64,
    /// When the order went out and was answered; none where it was not sent.
    pub sent: Option<SentTimes>,
}

/// When an order went out and was answered.
#[derive(Clone, Copy, Debug)]
pub struct SentTimes {
    pub broker_order_send_ns: u64,
    pub broker_order_ack_ns: u64,
    pub broker_order_send_marker_ns: u64,
    pub broker_order_ack_marker_ns: u64,
    pub send_ns_precise: bool,
    pub ack_ns_precise: bool,
}

/// The sent part of a row.
pub open spec fn sent_times(t: CallTimes) -> SentTimes {
    SentTimes {
        broker_order_send_ns: t.sent(),
        broker_order_ack_ns: t.acked(),
        broker_order_send_marker_ns: t.send_marker_ns,
        broker_order_ack_marker_ns: t.ack_marker_ns,
        send_ns_precise: t.precise is Some,
        ack_ns_precise: t.precise is Some,
    }
}

/// The row of an order that went out.
pub open spec fn is_sent_row(
    row: WireTimingRow,
    order_id: Option<u64>,
    acked: bool,
    trigger: Option<u64>,
    decided: Option<u64>,
    t: CallTimes,
) -> bool {
    &&& row.schema@ == "wire_timing/v2"@
    &&& row.ts_ns == t.acked()
    &&& row.outcome == (if acked {
        TimingOutcome::Ack
    } else {
        TimingOutcome::Rejected
    })
    &&& row.order_id == order_id
    &&& row.triggering_tick_broker_recv_ns == trigger
    &&& row.trader_decide_ts_ns == decided
    &&& row.broker_order_recv_ns == t.recv_ns
    &&& row.sent == Some(sent_times(t))
}

fn sent_row(order_id: Option<u64>, acked: bool, trigger: Option<u64>, decided: Option<u64>, t: CallTimes) -> (row:
    WireTimingRow)
    ensures
        is_sent_row(row, order_id, acked, trigger, decided, t),
{
    WireTimingRow {
        schema: "wire_timing/v2",
        ts_ns: t.ack_ns(),
        outcome: if acked {
            TimingOutcome::Ack
        } else {
            TimingOutcome::Rejected
        },
        order_id,
        triggering_tick_broker_recv_ns: trigger,
        trader_decide_ts_ns: decided,
        broker_order_recv_ns: t.recv_ns,
        sent: Some(
            SentTimes {
                broker_order_send_ns: t.send_ns(),
                broker_order_ack_ns: t.ack_ns(),
                broker_order_send_marker_ns: t.send_marker_ns,
                broker_order_ack_marker_ns: t.ack_marker_ns,
                send_ns_precise: t.precise.is_some(),
                ack_ns_precise: t.precise.is_some(),
            },
        ),
    }
}

/// The row of an order whose contract is not known.
pub fn no_contract_row(cmd: &PlaceOrderCmd, recv_ns: u64, now: u64) -> (row: WireTimingRow)
    ensures
        row.schema@ == "wire_timing/v1"@,
        row.ts_ns == now,
        row.outcome == TimingOutcome::NoContract,
        row.order_id is None,
        row.triggering_tick_broker_recv_ns == cmd.triggering_tick_broker_recv_ns,
        row.trader_decide_ts_ns == cmd.ts_ns,
        row.broker_order_recv_ns == recv_ns,
        row.sent is None,
{
    WireTimingRow {
        schema: "wire_timing/v1",
        ts_ns: now,
        outcome: TimingOutcome::NoContract,
        order_id: None,
        triggering_tick_broker_recv_ns: cmd.triggering_tick_broker_recv_ns,
        trader_decide_ts_ns: cmd.ts_ns,
        broker_order_recv_ns: recv_ns,
        sent: None,
    }
}

/// Tells the trader the identifier of an order that it placed.
#[derive(Debug)]
pub struct PlaceAck {
    pub order_id: u64,
    pub strike: Double,
    pub expiry: String,
    pub right: String,
    pub side: String,
    pub price: Double,
}

/// What follows once the broker has answered a new order.
#[derive(Debug)]
pub struct PlaceReport {
    pub row: WireTimingRow,
    /// Time from tick to sending, in microseconds.
    pub ttt_us: Option<u64>,
    /// Time from sending to the answer, in microseconds.
    pub rtt_us: Option<u64>,
    pub ack: Option<PlaceAck>,
}

/// The moment an order's reaction time counts from.
pub open spec fn trigger_ns(trigger: Option<u64>, recv_ns: u64) -> u64 {
    match trigger {
        Some(t) => t,
        None => recv_ns,
    }
}

/// Whether `p` answers a place command.
pub open spec fn answers(cmd: PlaceOrderCmd, p: PlaceAck, order_id: u64) -> bool {
    &&& p.order_id == order_id
    &&& p.strike == cmd.strike
    &&& p.expiry@ == cmd.expiry@
    &&& p.right@ == cmd.right@
    &&& p.side@ == cmd.side@
    &&& p.price == cmd.price.value
}

/// Whether `r` is what follows once the broker has answered a new order.
pub open spec fn place_reported(cmd: PlaceOrderCmd, placed: Option<OrderId>, times: CallTimes, r: PlaceReport) -> bool {
    &&& is_sent_row(
        r.row,
        match placed {
            Some(id) => Some(id.0),
            None => None,
        },
        placed is Some,
        cmd.triggering_tick_broker_recv_ns,
        cmd.ts_ns,
        times,
    )
    &&& match placed {
        Some(id) => {
            &&& r.ttt_us is Some
            &&& r.ttt_us->0 == us_between(
                trigger_ns(cmd.triggering_tick_broker_recv_ns, times.recv_ns),
                times.send_marker_ns,
            )
            &&& r.rtt_us is Some
            &&& r.rtt_us->0 == us_between(times.send_marker_ns, times.ack_marker_ns)
            &&& r.ack is Some
            &&& answers(cmd, r.ack->0, id.0)
        },
        None => r.ttt_us is None && r.rtt_us is None && r.ack is None,
    }
}

/// What follows once the broker has answered a new order: the record in any
/// case; the samples and the answer to the trader where it was accepted.
pub fn report_place(cmd: &PlaceOrderCmd, placed: Option<OrderId>, times: CallTimes) -> (r: PlaceReport)
    ensures
        place_reported(*cmd, placed, times, r),
{
    match placed {
        Some(id) => {
            let from: u64 = match cmd.triggering_tick_broker_recv_ns {
                Some(t) => t,
                None => times.recv_ns,
            };
            PlaceReport {
                row: sent_row(Some(id.0), true, cmd.triggering_tick_broker_recv_ns, cmd.ts_ns, times),
                ttt_us: Some(micros_between(from, times.send_marker_ns)),
                rtt_us: Some(micros_between(times.send_marker_ns, times.ack_marker_ns)),
                ack: Some(
                    PlaceAck {
                        order_id: id.0,
                        strike: cmd.strike,
                        expiry: cmd.expiry.clone(),
                        right: cmd.right.clone(),
                        side: cmd.side.clone(),
                        price: cmd.price.value,
                    },
                ),
            }
        },
        None => PlaceReport {
            row: sent_row(None, false, cmd.triggering_tick_broker_recv_ns, cmd.ts_ns, times),
            ttt_us: None,
            rtt_us: None,
            ack: None,
        },
    }
}

/// The order to cancel: none in shadow mode.
pub open spec fn to_cancel(cmd: CancelOrderCmd, mode: RuntimeMode) -> Option<OrderId> {
    if mode == RuntimeMode::Shadow {
        None
    } else {
        Some(OrderId(cmd.order_id))
    }
}

/// The order to cancel: none in shadow mode.
pub fn plan_cancel(cmd: &CancelOrderCmd, mode: RuntimeMode) -> (r: Option<OrderId>)
    ensures
        r == to_cancel(*cmd, mode),
{
    match mode {
        RuntimeMode::Shadow => None,
        RuntimeMode::Live => Some(OrderId(cmd.order_id)),
    }
}

/// Whether `r` is the change that a command asks for.
pub open spec fn asks_to_change(cmd: ModifyOrderCmd, mode: RuntimeMode, now: int, r: Option<ModifyOrderReq>) -> bool {
    match r {
        None => mode == RuntimeMode::Shadow,
        Some(req) => {
            &&& mode == RuntimeMode::Live
            &&& req.price == cmd.price
            &&& req.qty == cmd.qty
            &&& match cmd.gtd_seconds {
                Some(s) => req.gtd_until_utc is Some && req.gtd_until_utc->0 == now + s,
                None => req.gtd_until_utc is None,
            }
        },
    }
}

/// The change that a command asks for: none in shadow mode. `now` in seconds
/// since the Unix epoch.
pub fn plan_modify(cmd: &ModifyOrderCmd, mode: RuntimeMode, now: i64) -> (r: Option<ModifyOrderReq>)
    requires
        now <= 0x7fff_ffff_0000_0000,
    ensures
        asks_to_change(*cmd, mode, now as int, r),
{
    match mode {
        RuntimeMode::Shadow => None,
        RuntimeMode::Live => Some(
            ModifyOrderReq {
                price: copy_decimal(&cmd.price),
                qty: cmd.qty,
                gtd_until_utc: match cmd.gtd_seconds {
                    Some(s) => Some(now + s as i64),
                    None => None,
                },
            },
        ),
    }
}

/// What follows once the broker has answered a change.
#[derive(Debug)]
pub struct ModifyReport {
    pub row: WireTimingRow,
    pub ttt_us: Option<u64>,
    pub rtt_us: Option<u64>,
    /// Whether the exchange's own answer is still to come.
    pub await_strict_ack: bool,
}

/// Whether `r` is what follows once the broker has answered a change.
pub open spec fn modify_reported(
    cmd: ModifyOrderCmd,
    accepted: bool,
    strict_ack_ns: Option<u64>,
    times: CallTimes,
    r: ModifyReport,
) -> bool {
    &&& is_sent_row(
        r.row,
        Some(cmd.order_id),
        accepted,
        cmd.triggering_tick_broker_recv_ns,
        cmd.ts_ns,
        times,
    )
    &&& if accepted {
        &&& r.ttt_us is Some
        &&& r.ttt_us->0 == us_between(
            trigger_ns(cmd.triggering_tick_broker_recv_ns, times.recv_ns),
            times.send_marker_ns,
        )
        &&& r.await_strict_ack == (strict_ack_ns is None)
        &&& r.rtt_us is Some == (strict_ack_ns is Some)
        &&& strict_ack_ns is Some ==> r.rtt_us->0 == us_between(times.send_marker_ns, strict_ack_ns->0)
    } else {
        r.ttt_us is None && r.rtt_us is None && !r.await_strict_ack
    }
}

/// What follows once the broker has answered a change. The round trip counts
/// to the exchange's own answer, `strict_ack_ns`; where that has not come yet
/// it is waited for.
pub fn report_modify(cmd: &ModifyOrderCmd, accepted: bool, strict_ack_ns: Option<u64>, times: CallTimes) -> (r:
    ModifyReport)
    ensures
        modify_reported(*cmd, accepted, strict_ack_ns, times, r),
{
    let row = sent_row(Some(cmd.order_id), accepted, cmd.triggering_tick_broker_recv_ns, cmd.ts_ns, times);
    if accepted {
        let from: u64 = match cmd.triggering_tick_broker_recv_ns {
            Some(t) => t,
            None => times.recv_ns,
        };
        ModifyReport {
            row,
            ttt_us: Some(micros_between(from, times.send_marker_ns)),
            rtt_us: match strict_ack_ns {
                Some(a) => Some(micros_between(times.send_marker_ns, a)),
                None => None,
            },
            await_strict_ack: strict_ack_ns.is_none(),
        }
    } else {
        ModifyReport { row, ttt_us: None, rtt_us: None, await_strict_ack: false }
    }
}

/// How long the exchange's answer to a change is waited for, in milliseconds.
pub const STRICT_ACK_WAIT_MS: u64 = 1000;

/// How often it is looked for, in milliseconds.
pub const STRICT_ACK_POLL_MS: u64 = 20;

/// What a look for the exchange's answer leads to.
#[derive(Clone, Copy, Debug, PartialEq, Eq, Structural)]
pub enum StrictAckStep {
    /// The answer came; the round trip in microseconds.
    Sample(u64),
    /// Look again.
    Wait,
    /// It did not come in time; there is no sample.
    GiveUp,
}

/// What a look for the exchange's answer leads to.
pub open spec fn strict_ack_look(ack_ns: Option<u64>, send_marker_ns: u64, waited_ms: u64) -> StrictAckStep {
    match ack_ns {
        Some(a) => StrictAckStep::Sample(us_between(send_marker_ns, a) as u64),
        None => if waited_ms >= STRICT_ACK_WAIT_MS {
            StrictAckStep::GiveUp
        } else {
            StrictAckStep::Wait
        },
    }
}

/// What a look for the exchange's answer leads to, `waited_ms` after the
/// change was made.
pub fn strict_ack_step(ack_ns: Option<u64>, send_marker_ns: u64, waited_ms: u64) -> (r: StrictAckStep)
    ensures
        r == strict_ack_look(ack_ns, send_marker_ns, waited_ms),
{
    match ack_ns {
        Some(a) => StrictAckStep::Sample(micros_between(send_marker_ns, a)),
        None => if waited_ms >= STRICT_ACK_WAIT_MS {
            StrictAckStep::GiveUp
        } else {
            StrictAckStep::Wait
        },
    }
}

/// Each command goes by its name, and by no other; any other name asks for
/// nothing.
pub proof fn law_commands_go_by_name(kind: Seq<char>)
    ensures
        command_of(kind) is Place <==> kind == "place_order"@,
        command_of(kind) is Cancel <==> kind == "cancel_order"@,
        command_of(kind) is Modify <==> kind == "modify_order"@,
        command_of(kind) is Telemetry <==> kind == "telemetry"@,
        command_of(kind) is Welcome <==> kind == "welcome"@,
{
    reveal_strlit("place_order");
    reveal_strlit("cancel_order");
    reveal_strlit("modify_order");
    reveal_strlit("telemetry");
    reveal_strlit("welcome");
    assert("place_order"@.len() == 11);
    assert("cancel_order"@.len() == 12);
    assert("modify_order"@.len() == 12);
    assert("telemetry"@.len() == 9);
    assert("welcome"@.len() == 7);
    assert("cancel_order"@[0] != "modify_order"@[0]);
}

/// An order that the trader asks for is placed on the side that it names, for
/// as many contracts and at the price that it names, and for as long; without
/// a life it is good for thirty seconds.
pub proof fn law_order_is_what_the_trader_asks(
    cmd: PlaceOrderCmd,
    contract: Contract,
    account: Seq<char>,
    now: int,
    req: PlaceOrderReq,
)
    requires
        asks_for(cmd, contract, account, now, req),
    ensures
        cmd.side@ == "BUY"@ ==> req.side is Buy,
        cmd.side@ == "SELL"@ ==> req.side is Sell,
        req.side is Buy ==> cmd.side@ == "BUY"@,
        cmd.qty >= 0 ==> req.qty == cmd.qty,
        req.price == Some(cmd.price),
        req.contract == contract,
        req.order_type is Market <==> cmd.order_type@ == "market"@,
        req.order_type is Limit <==> cmd.order_type@ != "market"@,
        req.tif is Ioc <==> cmd.tif@ == "IOC"@,
        req.tif is Day <==> cmd.tif@ == "DAY"@,
        req.tif is Gtc <==> cmd.tif@ == "GTC"@,
        req.tif is Ioc || req.tif is Day || req.tif is Gtc || req.tif is Gtd,
        req.tif is Gtd <==> req.gtd_until_utc is Some,
        req.gtd_until_utc matches Some(end) ==> (cmd.gtd_seconds matches Some(s) ==> end - now == s),
        req.gtd_until_utc matches Some(end) ==> (cmd.gtd_seconds is None ==> end - now == 30),
        req.account matches Some(a) && a@ == account,
        cmd.client_order_ref matches Some(c) ==> req.client_order_ref@ == c@,
{
    reveal_strlit("BUY");
    reveal_strlit("SELL");
    assert("BUY"@.len() == 3);
    assert("SELL"@.len() == 4);
    reveal_strlit("IOC");
    reveal_strlit("DAY");
    reveal_strlit("GTC");
    assert("IOC"@.len() == 3);
    assert("DAY"@.len() == 3);
    assert("GTC"@.len() == 3);
    assert("IOC"@[0] != "DAY"@[0]);
    assert("IOC"@[0] != "GTC"@[0]);
    assert("DAY"@[0] != "GTC"@[0]);
}

/// A right goes by its first letter, small or capital.
pub proof fn law_rights_go_by_their_letter(right: Seq<char>)
    ensures
        right.len() > 0 && (right[0] == 'C' || right[0] == 'c') ==> right_letter(right) == 'C',
        right.len() > 0 && (right[0] == 'P' || right[0] == 'p') ==> right_letter(right) == 'P',
        right.len() == 0 ==> right_letter(right) == 'C',
        right_letter(right) == 'P' ==> right.len() > 0 && (right[0] == 'P' || right[0] == 'p'),
{
}

/// The contract of an order is the one that stands under the command's
/// expiry, right and strike, the strike to the ten-thousandth.
pub proof fn law_contract_is_the_one_named(contracts: Table<ContractKey, Contract>, cmd: PlaceOrderCmd, c: Contract)
    requires
        named_contract(contracts, cmd) == Some(c),
    ensures
        cmd.strike.nanos() is Some,
        exists|key: i64| #![trigger contracts@[(key, cmd.expiry@, right_letter(cmd.right@))]]
            -50_000 <= key * 100_000 - cmd.strike.nanos()->0 <= 50_000 && contracts@.contains_key(
                (key, cmd.expiry@, right_letter(cmd.right@)),
            ) && contracts@[(key, cmd.expiry@, right_letter(cmd.right@))] == c,
{
    let n = cmd.strike.nanos()->0;
    let key = quantized(n as int) as i64;
    assert(contracts@.contains_key((key, cmd.expiry@, right_letter(cmd.right@))));
}

/// A sample of time is the whole microseconds from the first moment to the
/// second.
pub proof fn law_samples_measure_the_wait(from: u64, to: u64)
    ensures
        from <= to ==> from + 1000 * us_between(from, to) <= to < from + 1000 * us_between(from, to) + 1000,
        to < from ==> us_between(from, to) == 0,
{
}

/// The record of an order says whether the broker took it, and tells the
/// times of the wire where they are known, else those around the call.
pub proof fn law_record_tells_what_happened(
    row: WireTimingRow,
    order_id: Option<u64>,
    acked: bool,
    trigger: Option<u64>,
    decided: Option<u64>,
    t: CallTimes,
)
    requires
        is_sent_row(row, order_id, acked, trigger, decided, t),
    ensures
        row.outcome is Ack <==> acked,
        row.outcome is Rejected <==> !acked,
        row.order_id == order_id,
        row.triggering_tick_broker_recv_ns == trigger,
        row.trader_decide_ts_ns == decided,
        row.broker_order_recv_ns == t.recv_ns,
        row.sent is Some,
        t.precise matches Some((s, a)) ==> row.sent->0.broker_order_send_ns == s && row.sent->0.broker_order_ack_ns == a,
        t.precise is None ==> row.sent->0.broker_order_send_ns == t.send_marker_ns && row.sent->0.broker_order_ack_ns
            == t.ack_marker_ns,
        row.sent->0.broker_order_send_marker_ns == t.send_marker_ns,
        row.sent->0.broker_order_ack_marker_ns == t.ack_marker_ns,
        row.sent->0.send_ns_precise <==> t.precise is Some,
        row.sent->0.ack_ns_precise <==> t.precise is Some,
        row.ts_ns == row.sent->0.broker_order_ack_ns,
{
}

/// An order's reaction time counts from the tick that the trader decided on,
/// where it names one.
pub proof fn law_reactions_count_from_the_tick(trigger: Option<u64>, recv_ns: u64)
    ensures
        trigger matches Some(t) ==> trigger_ns(trigger, recv_ns) == t,
        trigger is None ==> trigger_ns(trigger, recv_ns) == recv_ns,
{
}

/// The outcomes of the record go by these names.
pub proof fn law_outcomes_are_named(o: TimingOutcome)
    ensures
        o is Ack <==> o.label_of() == "ack"@,
        o is Rejected <==> o.label_of() == "rejected"@,
        o is NoContract <==> o.label_of() == "no_contract"@,
{
    reveal_strlit("ack");
    reveal_strlit("rejected");
    reveal_strlit("no_contract");
    assert("ack"@.len() == 3);
    assert("rejected"@.len() == 8);
    assert("no_contract"@.len() == 11);
}

/// In shadow mode nothing is cancelled and nothing changed; else each command
/// reaches the order that it names, and asks for no more than it says.
pub proof fn law_commands_reach_their_order(
    cancel: CancelOrderCmd,
    modify: ModifyOrderCmd,
    mode: RuntimeMode,
    now: int,
    r: Option<ModifyOrderReq>,
)
    requires
        asks_to_change(modify, mode, now, r),
    ensures
        mode is Shadow ==> to_cancel(cancel, mode) is None && r is None,
        mode is Live ==> to_cancel(cancel, mode) == Some(OrderId(cancel.order_id)) && r is Some,
        r matches Some(req) ==> req.price == modify.price && req.qty == modify.qty,
        r matches Some(req) ==> (modify.gtd_seconds matches Some(s) ==> (req.gtd_until_utc matches Some(end) && end - now
            == s)),
        r matches Some(req) ==> (modify.gtd_seconds is None ==> req.gtd_until_utc is None),
{
}

/// An order that was accepted is answered to the trader under the broker's id,
/// with the contract, side and price that the trader named; one that was not
/// is not answered. Either way it is recorded.
pub proof fn law_accepted_orders_are_answered(cmd: PlaceOrderCmd, placed: Option<OrderId>, times: CallTimes, r: PlaceReport)
    requires
        place_reported(cmd, placed, times, r),
    ensures
        placed is Some <==> r.ack is Some,
        placed is Some <==> r.row.outcome is Ack,
        placed is None <==> r.row.outcome is Rejected,
        placed matches Some(id) ==> r.ack->0.order_id == id.0 && r.row.order_id == Some(id.0),
        r.ack matches Some(a) ==> a.strike == cmd.strike && a.expiry@ == cmd.expiry@ && a.right@ == cmd.right@ && a.side@
            == cmd.side@ && a.price == cmd.price.value,
        placed is Some && times.send_marker_ns <= times.ack_marker_ns ==> r.rtt_us is Some && times.send_marker_ns + 1000
            * r.rtt_us->0 <= times.ack_marker_ns < times.send_marker_ns + 1000 * r.rtt_us->0 + 1000,
        placed is Some && (cmd.triggering_tick_broker_recv_ns matches Some(t) && t <= times.send_marker_ns)
            ==> r.ttt_us is Some && cmd.triggering_tick_broker_recv_ns->0 + 1000 * r.ttt_us->0 <= times.send_marker_ns
            < cmd.triggering_tick_broker_recv_ns->0 + 1000 * r.ttt_us->0 + 1000,
{
}

/// A change that was accepted is timed from its sending to the exchange's own
/// answer, and waited for until that comes; one that was not is neither.
pub proof fn law_accepted_changes_are_timed(
    cmd: ModifyOrderCmd,
    accepted: bool,
    strict_ack_ns: Option<u64>,
    times: CallTimes,
    r: ModifyReport,
)
    requires
        modify_reported(cmd, accepted, strict_ack_ns, times, r),
    ensures
        accepted <==> r.row.outcome is Ack,
        r.row.order_id == Some(cmd.order_id),
        r.await_strict_ack <==> accepted && strict_ack_ns is None,
        r.rtt_us is Some <==> accepted && strict_ack_ns is Some,
        r.ttt_us is Some <==> accepted,
        accepted && (strict_ack_ns matches Some(a) && times.send_marker_ns <= a) ==> times.send_marker_ns + 1000 * r.rtt_us->0
            <= strict_ack_ns->0 < times.send_marker_ns + 1000 * r.rtt_us->0 + 1000,
{
}

/// The exchange's answer is waited for no longer than a second, and is a
/// sample whenever it came.
pub proof fn law_strict_answers_are_waited_for(ack_ns: Option<u64>, send_marker_ns: u64, waited_ms: u64)
    ensures
        ack_ns matches Some(a) ==> (strict_ack_look(ack_ns, send_marker_ns, waited_ms) matches StrictAckStep::Sample(us) && (
        send_marker_ns <= a ==> send_marker_ns + 1000 * us <= a < send_marker_ns + 1000 * us + 1000)),
        ack_ns is None && waited_ms < 1000 ==> strict_ack_look(ack_ns, send_marker_ns, waited_ms) is Wait,
        ack_ns is None && waited_ms >= 1000 ==> strict_ack_look(ack_ns, send_marker_ns, waited_ms) is GiveUp,
{
}

} // verus!
