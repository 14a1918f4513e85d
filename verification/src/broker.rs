//! The broker's state, and what each message from the gateway does to it.
//!
//! [`BrokerState::route`] takes one decoded message and returns the events it
//! gives rise to: replies to callers that wait, and updates for subscribers.
//! The caller owns the channels and the clock.

use crate::api::{
    BrokerError, Contract, DepthUpdate, Fill, InstrumentId, OpenOrder, OrderId, OrderStatus, OrderStatusUpdate,
    Position, Right, Tick, TickKind,
};
use crate::convert::{
    contract_error, describes, error_to_broker_error, execution_side, execution_to_fill, fill_of, is_contract_error,
    is_order_error, kind_of, native_to_contract, native_to_open_order, native_to_position, open_order_of, order_error,
    parse_status, position_of, reports, side_of, status_of,
};
use crate::dates::last_trade_parts;
use crate::double::Double;
use crate::place_template::ContractTemplate;
use crate::table::{Table, TableKey};
use crate::text::str_eq;
use crate::types::{
    AccountValueMsg, ContractDetailsMsg, ErrorMsg, ExecutionMsg, InboundMsg, MarketDepthMsg, OpenOrderMsg,
    OrderStatusMsg, PositionMsg, TickPriceMsg, TickSizeMsg,
};
use std::collections::{HashMap, HashSet};
use vstd::prelude::*;
use vstd::string::*;

verus! {

broadcast use vstd::std_specs::hash::group_hash_axioms;

/// Identifies a position: the account and the contract.
#[derive(Debug)]
pub struct PositionKey {
    pub account: String,
    pub con_id: i64,
}

impl TableKey for PositionKey {
    type Id = (Seq<char>, i64);

    open spec fn id(&self) -> (Seq<char>, i64) {
        (self.account@, self.con_id)
    }

    fn same(&self, other: &Self) -> (r: bool) {
        self.con_id == other.con_id && str_eq(self.account.as_str(), other.account.as_str())
    }
}

/// Identifies an account value: its key, currency and account.
#[derive(Debug)]
pub struct AccountKey {
    pub key: String,
    pub currency: String,
    pub account: String,
}

impl TableKey for AccountKey {
    type Id = (Seq<char>, Seq<char>, Seq<char>);

    open spec fn id(&self) -> (Seq<char>, Seq<char>, Seq<char>) {
        (self.key@, self.currency@, self.account@)
    }

    fn same(&self, other: &Self) -> (r: bool) {
        str_eq(self.key.as_str(), other.key.as_str()) && str_eq(self.currency.as_str(), other.currency.as_str()) && str_eq(
            self.account.as_str(),
            other.account.as_str(),
        )
    }
}

/// Which parts of the initial snapshot have been received in full.
#[derive(Debug, Clone, Copy, PartialEq, Eq, Structural)]
pub struct SeedingProgress {
    pub positions_done: bool,
    pub open_orders_done: bool,
    pub account_done: bool,
}

impl SeedingProgress {
    /// Whether the whole snapshot has been received.
    pub open spec fn all(self) -> bool {
        self.positions_done && self.open_orders_done && self.account_done
    }

    /// Whether the whole snapshot has been received.
    pub fn complete(&self) -> (r: bool)
        ensures
            r == self.all(),
    {
        self.positions_done && self.open_orders_done && self.account_done
    }
}

impl Default for SeedingProgress {
    fn default() -> (r: SeedingProgress)
        ensures
            r == (SeedingProgress { positions_done: false, open_orders_done: false, account_done: false }),
    {
        SeedingProgress { positions_done: false, open_orders_done: false, account_done: false }
    }
}

/// What the broker remembers between messages.
pub struct BrokerState {
    /// Open positions.
    pub positions: Table<PositionKey, Position>,
    /// Last known state of each order.
    pub open_orders: HashMap<i32, OpenOrder>,
    /// Account values.
    pub account_values: Table<AccountKey, AccountValueMsg>,
    /// Contract requests that wait, with the replies so far.
    pub pending_contract_details: HashMap<i32, Vec<ContractDetailsMsg>>,
    /// Execution requests that wait, with the fills so far.
    pub pending_executions: HashMap<i32, Vec<Fill>>,
    /// Orders whose acknowledgement is awaited.
    pub pending_place_acks: HashSet<i32>,
    /// When each order was sent.
    pub wire_send_ns: HashMap<i32, u64>,
    /// When each order was first acknowledged.
    pub wire_ack_ns: HashMap<i32, u64>,
    /// When an amended price was first seen confirmed.
    pub strict_ack_ns: HashMap<i32, u64>,
    /// The price that each amended order is expected to come back with.
    pub expected_amend_prices: HashMap<i32, Double>,
    /// Encoded contract fields per instrument.
    pub place_templates: HashMap<u64, ContractTemplate>,
    /// Instrument of each tick subscription.
    pub tick_routes: HashMap<i32, InstrumentId>,
    /// Right of the option that a tick subscription is on.
    pub tick_route_right: HashMap<i32, Right>,
    /// Instrument of each depth subscription.
    pub depth_routes: HashMap<i32, InstrumentId>,
    /// Request id of each tick subscription.
    pub handle_to_req_id: HashMap<u64, i32>,
    /// Request id of each depth subscription.
    pub handle_to_depth_req_id: HashMap<u64, i32>,
    /// Progress of the initial snapshot.
    pub seeding: SeedingProgress,
    /// How often each size tick type was received.
    pub tick_type_hist: HashMap<i32, u64>,
    /// Next request id.
    pub next_req_id: i32,
    /// Next subscription handle.
    pub next_handle: i32,
}

/// What a message gives rise to.
#[derive(Debug)]
pub enum BrokerEvent {
    /// The reply to a caller that waits for an order's acknowledgement.
    PlaceAck { order_id: i32, result: Result<(), BrokerError> },
    /// The reply to a contract request.
    Contracts { req_id: i32, result: Result<Vec<Contract>, BrokerError> },
    /// The reply to an execution request.
    Executions { req_id: i32, result: Result<Vec<Fill>, BrokerError> },
    /// For subscribers to order status.
    Status(OrderStatusUpdate),
    /// For subscribers to fills.
    Filled(Fill),
    /// For subscribers to ticks.
    Ticked(Tick),
    /// For subscribers to depth.
    DepthChanged(DepthUpdate),
    /// For subscribers to errors.
    Failed(BrokerError),
}

/// The kind of a price tick.
pub open spec fn price_kind(tick_type: int) -> Option<TickKind> {
    if tick_type == 1 || tick_type == 66 {
        Some(TickKind::Bid)
    } else if tick_type == 2 || tick_type == 67 {
        Some(TickKind::Ask)
    } else if tick_type == 4 || tick_type == 68 {
        Some(TickKind::Last)
    } else {
        None
    }
}

/// The kind of a size tick.
pub open spec fn size_kind(tick_type: int) -> Option<TickKind> {
    if tick_type == 0 || tick_type == 69 {
        Some(TickKind::BidSize)
    } else if tick_type == 3 || tick_type == 70 {
        Some(TickKind::AskSize)
    } else if tick_type == 8 || tick_type == 29 || tick_type == 30 || tick_type == 71 {
        Some(TickKind::OptionVolume)
    } else if tick_type == 27 || tick_type == 28 {
        Some(TickKind::OptionOpenInterest)
    } else {
        None
    }
}

/// Whether a size tick belongs to the other right: the gateway sends call
/// and put figures to every option, and a zero for the side that the option
/// is not on.
pub open spec fn wrong_side(tick_type: int, right: Option<Right>) -> bool {
    match right {
        Some(Right::Call) => tick_type == 28 || tick_type == 30,
        Some(Right::Put) => tick_type == 27 || tick_type == 29,
        None => false,
    }
}

/// The kind of a price tick.
pub fn price_tick_kind(tick_type: i32) -> (r: Option<TickKind>)
    ensures
        r == price_kind(tick_type as int),
{
    match tick_type {
        1 | 66 => Some(TickKind::Bid),
        2 | 67 => Some(TickKind::Ask),
        4 | 68 => Some(TickKind::Last),
        _ => None,
    }
}

/// The kind of a size tick.
pub fn size_tick_kind(tick_type: i32) -> (r: Option<TickKind>)
    ensures
        r == size_kind(tick_type as int),
{
    match tick_type {
        0 | 69 => Some(TickKind::BidSize),
        3 | 70 => Some(TickKind::AskSize),
        8 | 29 | 30 | 71 => Some(TickKind::OptionVolume),
        27 | 28 => Some(TickKind::OptionOpenInterest),
        _ => None,
    }
}

/// A value under a key, if there is one.
pub open spec fn lookup<K, V>(m: Map<K, V>, k: K) -> Option<V> {
    if m.contains_key(k) {
        Some(m[k])
    } else {
        None
    }
}

/// A map with a key set, unless it is set already.
pub open spec fn first_wins<V>(m: Map<i32, V>, k: i32, v: V) -> Map<i32, V> {
    if m.contains_key(k) {
        m
    } else {
        m.insert(k, v)
    }
}

fn insert_first(m: &mut HashMap<i32, u64>, k: i32, v: u64)
    ensures
        final(m)@ == first_wins(old(m)@, k, v),
{
    if !m.contains_key(&k) {
        m.insert(k, v);
    }
}

/// How close, in billionths, a price must come back to count as the price
/// that an order was amended to. The finest price step traded is several
/// hundred times as large.
pub const AMEND_PRICE_EPS: i64 = 1000;

/// Whether two prices, in billionths, are within [`AMEND_PRICE_EPS`]. From
/// 2^64 on, where doubles are farther apart than that, they are so where they
/// are equal.
pub open spec fn price_close(a: Double, b: Double) -> bool {
    &&& a.finite()
    &&& b.finite()
    &&& if a.exponent() <= 1086 && b.exponent() <= 1086 {
        -AMEND_PRICE_EPS < a.wide() - b.wide() < AMEND_PRICE_EPS
    } else {
        a.equals(b)
    }
}

/// Whether an order came back with the price that it was amended to.
pub fn amend_price_matches(price: &Double, expected: &Double) -> (r: bool)
    ensures
        r == price_close(*price, *expected),
{
    if !price.is_finite() || !expected.is_finite() {
        return false;
    }
    if price.split().0 <= 1086 && expected.split().0 <= 1086 {
        let d: i128 = price.to_wide() - expected.to_wide();
        -(AMEND_PRICE_EPS as i128) < d && d < AMEND_PRICE_EPS as i128
    } else {
        price.same(expected)
    }
}

/// Whether a status says that the gateway took the order.
pub open spec fn accepting(s: OrderStatus) -> bool {
    s == OrderStatus::Submitted || s == OrderStatus::PendingSubmit || s == OrderStatus::Filled || s == OrderStatus::Cancelled
        || s == OrderStatus::PendingCancel
}

/// The details whose contract is a future or an option.
pub open spec fn tradable(details: Seq<ContractDetailsMsg>) -> Seq<ContractDetailsMsg> {
    details.filter(|d: ContractDetailsMsg| kind_of(d.contract.sec_type@) is Some)
}

/// Whether `contracts` are the tradable contracts of `details`, in order.
pub open spec fn contracts_of(contracts: Seq<Contract>, details: Seq<ContractDetailsMsg>) -> bool {
    &&& contracts.len() == tradable(details).len()
    &&& forall|i: int|
        0 <= i < contracts.len() ==> describes(
            #[trigger] contracts[i],
            tradable(details)[i].contract,
            last_trade_parts(tradable(details)[i].contract.last_trade_date@),
        )
}

/// The contracts of a contract-details reply, without those that are neither
/// futures nor options.
pub fn collect_contracts(details: &Vec<ContractDetailsMsg>) -> (r: Vec<Contract>)
    ensures
        contracts_of(r@, details@),
{
    let mut out: Vec<Contract> = Vec::new();
    let mut i: usize = 0;
    let ghost keep = |d: ContractDetailsMsg| kind_of(d.contract.sec_type@) is Some;
    proof {
        reveal(Seq::filter);
        assert(details@.take(0).filter(keep) =~= Seq::<ContractDetailsMsg>::empty());
    }
    while i < details.len()
        invariant
            i <= details.len(),
            keep == (|d: ContractDetailsMsg| kind_of(d.contract.sec_type@) is Some),
            contracts_of(out@, details@.take(i as int)),
        decreases details.len() - i,
    {
        let ghost prev = out@;
        match native_to_contract(&details[i]) {
            Some(c) => {
                out.push(c);
            },
            None => {},
        }
        proof {
            let d = details@[i as int];
            let head = details@.take(i as int);
            assert(details@.take(i + 1) =~= head.push(d));
            assert(head.push(d).drop_last() =~= head);
            assert(head.push(d).filter(keep) == (if keep(d) {
                head.filter(keep).push(d)
            } else {
                head.filter(keep)
            })) by {
                reveal(Seq::filter);
            }
            let t = tradable(details@.take(i + 1));
            assert forall|k: int| 0 <= k < out@.len() implies describes(
                #[trigger] out@[k],
                t[k].contract,
                last_trade_parts(t[k].contract.last_trade_date@),
            ) by {
                if k < prev.len() {
                    assert(out@[k] == prev[k]);
                }
            }
        }
        i = i + 1;
    }
    assert(details@.take(i as int) =~= details@);
    out
}

impl BrokerState {
    /// No key of a table occurs twice, and each order's contract expires on
    /// a day of the calendar.
    pub open spec fn wf(self) -> bool {
        &&& self.positions.wf()
        &&& self.account_values.wf()
        &&& forall|id: i32| #[trigger] self.open_orders@.contains_key(id) ==> self.open_orders@[id].contract.expiry.valid()
    }

    /// The state before anything was received.
    pub fn new() -> (r: BrokerState)
        ensures
            r.wf(),
            r.positions@ == Map::<(Seq<char>, i64), Position>::empty(),
            r.open_orders@ == Map::<i32, OpenOrder>::empty(),
            r.account_values@ == Map::<(Seq<char>, Seq<char>, Seq<char>), AccountValueMsg>::empty(),
            r.pending_contract_details@ == Map::<i32, Vec<ContractDetailsMsg>>::empty(),
            r.pending_executions@ == Map::<i32, Vec<Fill>>::empty(),
            r.pending_place_acks@ == Set::<i32>::empty(),
            r.wire_send_ns@ == Map::<i32, u64>::empty(),
            r.wire_ack_ns@ == Map::<i32, u64>::empty(),
            r.strict_ack_ns@ == Map::<i32, u64>::empty(),
            r.expected_amend_prices@ == Map::<i32, Double>::empty(),
            r.place_templates@ == Map::<u64, ContractTemplate>::empty(),
            r.tick_routes@ == Map::<i32, InstrumentId>::empty(),
            r.tick_route_right@ == Map::<i32, Right>::empty(),
            r.depth_routes@ == Map::<i32, InstrumentId>::empty(),
            r.handle_to_req_id@ == Map::<u64, i32>::empty(),
            r.handle_to_depth_req_id@ == Map::<u64, i32>::empty(),
            r.seeding == (SeedingProgress { positions_done: false, open_orders_done: false, account_done: false }),
            r.tick_type_hist@ == Map::<i32, u64>::empty(),
            r.next_req_id == 1000,
            r.next_handle == 1,
    {
        BrokerState {
            positions: Table::new(),
            open_orders: HashMap::new(),
            account_values: Table::new(),
            pending_contract_details: HashMap::new(),
            pending_executions: HashMap::new(),
            pending_place_acks: HashSet::new(),
            wire_send_ns: HashMap::new(),
            wire_ack_ns: HashMap::new(),
            strict_ack_ns: HashMap::new(),
            expected_amend_prices: HashMap::new(),
            place_templates: HashMap::new(),
            tick_routes: HashMap::new(),
            tick_route_right: HashMap::new(),
            depth_routes: HashMap::new(),
            handle_to_req_id: HashMap::new(),
            handle_to_depth_req_id: HashMap::new(),
            seeding: SeedingProgress::default(),
            tick_type_hist: HashMap::new(),
            next_req_id: 1000,
            next_handle: 1,
        }
    }

    /// A position report: a zero quantity closes the position, any other
    /// replaces what is known of it. A contract that is neither a future
    /// nor an option is not kept.
    pub open spec fn position_routed(pre: BrokerState, p: PositionMsg, post: BrokerState) -> bool {
        let key = (p.account@, p.contract.con_id);
        &&& post == (BrokerState { positions: post.positions, ..pre })
        &&& if p.position.magnitude() == 0 {
            post.positions@ == pre.positions@.remove(key)
        } else if kind_of(p.contract.sec_type@) is Some {
            &&& post.positions@.contains_key(key)
            &&& position_of(post.positions@[key], p)
            &&& post.positions@ == pre.positions@.insert(key, post.positions@[key])
        } else {
            post.positions == pre.positions
        }
    }

    fn on_position(&mut self, p: PositionMsg)
        requires
            old(self).wf(),
        ensures
            final(self).wf(),
            BrokerState::position_routed(*old(self), p, *final(self)),
    {
        let key = PositionKey { account: p.account.clone(), con_id: p.contract.con_id };
        if p.position.abs().bits == 0 {
            self.positions.remove(&key);
        } else {
            match native_to_position(&p) {
                Some(pos) => {
                    self.positions.insert(key, pos);
                },
                None => {},
            }
        }
    }

    /// An order as the gateway holds it: remembered where it can be read,
    /// and taken as the acknowledgement of the order. Where the order was
    /// amended and comes back with the expected price, the time is kept as
    /// that of the confirmed price. Of several acknowledgements the first
    /// one counts.
    pub open spec fn open_order_routed(
        pre: BrokerState,
        o: OpenOrderMsg,
        now: u64,
        post: BrokerState,
        events: Seq<BrokerEvent>,
    ) -> bool {
        let id = o.order_id;
        let known = kind_of(o.contract.sec_type@) is Some && side_of(o.action@) is Some;
        &&& post == (BrokerState {
            open_orders: post.open_orders,
            wire_ack_ns: post.wire_ack_ns,
            strict_ack_ns: post.strict_ack_ns,
            pending_place_acks: post.pending_place_acks,
            ..pre
        })
        &&& if known {
            &&& post.open_orders@.contains_key(id)
            &&& open_order_of(post.open_orders@[id], o)
            &&& post.open_orders@ == pre.open_orders@.insert(id, post.open_orders@[id])
        } else {
            post.open_orders == pre.open_orders
        }
        &&& post.wire_ack_ns@ == first_wins(pre.wire_ack_ns@, id, now)
        &&& post.strict_ack_ns@ == (if pre.expected_amend_prices@.contains_key(id) && price_close(
            o.lmt_price.value,
            pre.expected_amend_prices@[id],
        ) {
            first_wins(pre.strict_ack_ns@, id, now)
        } else {
            pre.strict_ack_ns@
        })
        &&& post.pending_place_acks@ == pre.pending_place_acks@.remove(id)
        &&& events == (if pre.pending_place_acks@.contains(id) {
            seq![BrokerEvent::PlaceAck { order_id: id, result: Ok(()) }]
        } else {
            Seq::<BrokerEvent>::empty()
        })
    }

    fn on_open_order(&mut self, o: OpenOrderMsg, now: u64) -> (events: Vec<BrokerEvent>)
        requires
            old(self).wf(),
        ensures
            final(self).wf(),
            BrokerState::open_order_routed(*old(self), o, now, *final(self), events@),
    {
        let id: i32 = o.order_id;
        match native_to_open_order(&o) {
            Some(open) => {
                self.open_orders.insert(id, open);
            },
            None => {},
        }
        insert_first(&mut self.wire_ack_ns, id, now);
        let confirmed = match self.expected_amend_prices.get(&id) {
            Some(expected) => amend_price_matches(&o.lmt_price.value, expected),
            None => false,
        };
        if confirmed {
            insert_first(&mut self.strict_ack_ns, id, now);
        }
        let waited = self.pending_place_acks.remove(&id);
        let mut events: Vec<BrokerEvent> = Vec::new();
        if waited {
            events.push(BrokerEvent::PlaceAck { order_id: id, result: Ok(()) });
        }
        assert(events@ =~= (if old(self).pending_place_acks@.contains(id) {
            seq![BrokerEvent::PlaceAck { order_id: id, result: Ok(()) }]
        } else {
            Seq::<BrokerEvent>::empty()
        }));
        events
    }

    /// The update that a status report stands for.
    pub open spec fn status_update(o: OrderStatusMsg, now: u64) -> OrderStatusUpdate {
        OrderStatusUpdate {
            order_id: OrderId(o.order_id as u64),
            status: status_of(o.status@),
            filled_qty: o.filled.clamped(u32::MAX as nat) as u32,
            remaining_qty: o.remaining.clamped(u32::MAX as nat) as u32,
            avg_fill_price: o.avg_fill_price,
            last_fill_price: if o.last_fill_price.above_zero() {
                Some(o.last_fill_price)
            } else {
                None
            },
            timestamp_ns: now,
            reject_reason: None,
        }
    }

    /// A status report: updates the order where it is known, acknowledges
    /// it where the status says that the gateway took it, and is passed on.
    pub open spec fn status_routed(
        pre: BrokerState,
        o: OrderStatusMsg,
        now: u64,
        post: BrokerState,
        events: Seq<BrokerEvent>,
    ) -> bool {
        let id = o.order_id;
        let status = status_of(o.status@);
        let passed_on = seq![BrokerEvent::Status(BrokerState::status_update(o, now))];
        &&& post == (BrokerState {
            open_orders: post.open_orders,
            wire_ack_ns: post.wire_ack_ns,
            pending_place_acks: post.pending_place_acks,
            ..pre
        })
        &&& post.open_orders@ == (if pre.open_orders@.contains_key(id) {
            pre.open_orders@.insert(
                id,
                OpenOrder {
                    status,
                    filled_qty: o.filled.clamped(u32::MAX as nat) as u32,
                    ..pre.open_orders@[id]
                },
            )
        } else {
            pre.open_orders@
        })
        &&& if accepting(status) {
            &&& post.wire_ack_ns@ == first_wins(pre.wire_ack_ns@, id, now)
            &&& post.pending_place_acks@ == pre.pending_place_acks@.remove(id)
            &&& events == (if pre.pending_place_acks@.contains(id) {
                seq![BrokerEvent::PlaceAck { order_id: id, result: Ok(()) }] + passed_on
            } else {
                passed_on
            })
        } else {
            &&& post.wire_ack_ns == pre.wire_ack_ns
            &&& post.pending_place_acks == pre.pending_place_acks
            &&& events == passed_on
        }
    }

    fn on_order_status(&mut self, o: OrderStatusMsg, now: u64) -> (events: Vec<BrokerEvent>)
        requires
            old(self).wf(),
        ensures
            final(self).wf(),
            BrokerState::status_routed(*old(self), o, now, *final(self), events@),
    {
        let id: i32 = o.order_id;
        let status = parse_status(o.status.as_str());
        let filled: u32 = o.filled.to_u32();
        let mut events: Vec<BrokerEvent> = Vec::new();
        match self.open_orders.remove(&id) {
            Some(mut open) => {
                open.status = status;
                open.filled_qty = filled;
                self.open_orders.insert(id, open);
                assert(self.open_orders@ =~= old(self).open_orders@.insert(id, open));
            },
            None => {
                assert(self.open_orders@ =~= old(self).open_orders@);
            },
        }
        let took = match status {
            OrderStatus::Submitted
            | OrderStatus::PendingSubmit
            | OrderStatus::Filled
            | OrderStatus::Cancelled
            | OrderStatus::PendingCancel => true,
            _ => false,
        };
        if took {
            insert_first(&mut self.wire_ack_ns, id, now);
            if self.pending_place_acks.remove(&id) {
                events.push(BrokerEvent::PlaceAck { order_id: id, result: Ok(()) });
            }
        }
        let last_fill_price = if o.last_fill_price.is_positive() {
            Some(o.last_fill_price)
        } else {
            None
        };
        events.push(
            BrokerEvent::Status(
                OrderStatusUpdate {
                    order_id: OrderId(id as u64),
                    status,
                    filled_qty: filled,
                    remaining_qty: o.remaining.to_u32(),
                    avg_fill_price: o.avg_fill_price,
                    last_fill_price,
                    timestamp_ns: now,
                    reject_reason: None,
                },
            ),
        );
        proof {
            let passed_on = seq![BrokerEvent::Status(BrokerState::status_update(o, now))];
            if accepting(status) && old(self).pending_place_acks@.contains(id) {
                assert(events@ =~= seq![BrokerEvent::PlaceAck { order_id: id, result: Ok(()) }] + passed_on);
            } else {
                assert(events@ =~= passed_on);
            }
        }
        events
    }

    /// An execution: added to the request that asked for it, where there is
    /// one that waits, and passed on to subscribers otherwise. One with an
    /// unknown side is dropped.
    pub open spec fn execution_routed(
        pre: BrokerState,
        e: ExecutionMsg,
        now: u64,
        post: BrokerState,
        events: Seq<BrokerEvent>,
    ) -> bool {
        let asked = e.req_id > 0 && pre.pending_executions@.contains_key(e.req_id);
        &&& post == (BrokerState { pending_executions: post.pending_executions, ..pre })
        &&& if execution_side(e.side@) is None {
            post.pending_executions == pre.pending_executions && events.len() == 0
        } else if asked {
            &&& events.len() == 0
            &&& post.pending_executions@.dom() == pre.pending_executions@.dom()
            &&& post.pending_executions@.remove(e.req_id) == pre.pending_executions@.remove(e.req_id)
            &&& ({
                let before = pre.pending_executions@[e.req_id]@;
                let after = post.pending_executions@[e.req_id]@;
                after.len() == before.len() + 1 && after.drop_last() == before && fill_of(after.last(), e, now)
            })
        } else {
            &&& post.pending_executions == pre.pending_executions
            &&& events.len() == 1
            &&& events[0] matches BrokerEvent::Filled(f) && fill_of(f, e, now)
        }
    }

    fn on_execution(&mut self, e: ExecutionMsg, now: u64) -> (events: Vec<BrokerEvent>)
        requires
            old(self).wf(),
        ensures
            final(self).wf(),
            BrokerState::execution_routed(*old(self), e, now, *final(self), events@),
    {
        let mut events: Vec<BrokerEvent> = Vec::new();
        match execution_to_fill(&e, now) {
            Some(fill) => {
                if e.req_id > 0 && self.pending_executions.contains_key(&e.req_id) {
                    match self.pending_executions.remove(&e.req_id) {
                        Some(mut fills) => {
                            let ghost before = fills@;
                            fills.push(fill);
                            self.pending_executions.insert(e.req_id, fills);
                            proof {
                                let post = self.pending_executions@;
                                let pre = old(self).pending_executions@;
                                assert(post.dom() =~= pre.dom());
                                assert(post.remove(e.req_id) =~= pre.remove(e.req_id));
                                assert(fills@.drop_last() =~= before);
                            }
                        },
                        None => {},
                    }
                } else {
                    events.push(BrokerEvent::Filled(fill));
                }
            },
            None => {},
        }
        events
    }

    /// The end of an execution request: the fills so far are its reply.
    pub open spec fn execution_end_routed(
        pre: BrokerState,
        req_id: i32,
        post: BrokerState,
        events: Seq<BrokerEvent>,
    ) -> bool {
        &&& post == (BrokerState { pending_executions: post.pending_executions, ..pre })
        &&& post.pending_executions@ == pre.pending_executions@.remove(req_id)
        &&& events == (if pre.pending_executions@.contains_key(req_id) {
            seq![BrokerEvent::Executions { req_id, result: Ok(pre.pending_executions@[req_id]) }]
        } else {
            Seq::<BrokerEvent>::empty()
        })
    }

    fn on_execution_end(&mut self, req_id: i32) -> (events: Vec<BrokerEvent>)
        requires
            old(self).wf(),
        ensures
            final(self).wf(),
            BrokerState::execution_end_routed(*old(self), req_id, *final(self), events@),
    {
        let mut events: Vec<BrokerEvent> = Vec::new();
        match self.pending_executions.remove(&req_id) {
            Some(fills) => {
                events.push(BrokerEvent::Executions { req_id, result: Ok(fills) });
            },
            None => {},
        }
        assert(events@ =~= (if old(self).pending_executions@.contains_key(req_id) {
            seq![BrokerEvent::Executions { req_id, result: Ok(old(self).pending_executions@[req_id]) }]
        } else {
            Seq::<BrokerEvent>::empty()
        }));
        events
    }

    /// One contract of a reply: added to the request that waits for it.
    pub open spec fn contract_details_routed(pre: BrokerState, cd: ContractDetailsMsg, post: BrokerState) -> bool {
        let id = cd.req_id;
        &&& post == (BrokerState { pending_contract_details: post.pending_contract_details, ..pre })
        &&& if pre.pending_contract_details@.contains_key(id) {
            &&& post.pending_contract_details@.dom() == pre.pending_contract_details@.dom()
            &&& post.pending_contract_details@.remove(id) == pre.pending_contract_details@.remove(id)
            &&& post.pending_contract_details@[id]@ == pre.pending_contract_details@[id]@.push(cd)
        } else {
            post.pending_contract_details@ == pre.pending_contract_details@
        }
    }

    fn on_contract_details(&mut self, cd: ContractDetailsMsg)
        requires
            old(self).wf(),
        ensures
            final(self).wf(),
            BrokerState::contract_details_routed(*old(self), cd, *final(self)),
    {
        let id: i32 = cd.req_id;
        match self.pending_contract_details.remove(&id) {
            Some(mut details) => {
                details.push(cd);
                self.pending_contract_details.insert(id, details);
                proof {
                    let post = self.pending_contract_details@;
                    let pre = old(self).pending_contract_details@;
                    assert(post.dom() =~= pre.dom());
                    assert(post.remove(id) =~= pre.remove(id));
                }
            },
            None => {
                assert(self.pending_contract_details@ =~= old(self).pending_contract_details@);
            },
        }
    }

    /// The end of a contract reply: its tradable contracts are the answer.
    pub open spec fn contract_details_end_routed(
        pre: BrokerState,
        req_id: i32,
        post: BrokerState,
        events: Seq<BrokerEvent>,
    ) -> bool {
        &&& post == (BrokerState { pending_contract_details: post.pending_contract_details, ..pre })
        &&& post.pending_contract_details@ == pre.pending_contract_details@.remove(req_id)
        &&& if pre.pending_contract_details@.contains_key(req_id) {
            &&& events.len() == 1
            &&& events[0] matches BrokerEvent::Contracts { req_id: id, result: Ok(contracts) } && id == req_id && contracts_of(
                contracts@,
                pre.pending_contract_details@[req_id]@,
            )
        } else {
            events.len() == 0
        }
    }

    fn on_contract_details_end(&mut self, req_id: i32) -> (events: Vec<BrokerEvent>)
        requires
            old(self).wf(),
        ensures
            final(self).wf(),
            BrokerState::contract_details_end_routed(*old(self), req_id, *final(self), events@),
    {
        let mut events: Vec<BrokerEvent> = Vec::new();
        match self.pending_contract_details.remove(&req_id) {
            Some(details) => {
                events.push(BrokerEvent::Contracts { req_id, result: Ok(collect_contracts(&details)) });
            },
            None => {},
        }
        events
    }

    /// What a price tick is passed on as.
    pub open spec fn price_tick(pre: BrokerState, t: TickPriceMsg, recv_ns: u64) -> Seq<BrokerEvent> {
        match (price_kind(t.tick_type as int), lookup(pre.tick_routes@, t.req_id)) {
            (Some(kind), Some(instrument_id)) => seq![
                BrokerEvent::Ticked(
                    Tick { instrument_id, kind, price: Some(t.price), size: None, timestamp_ns: recv_ns },
                ),
            ],
            _ => Seq::<BrokerEvent>::empty(),
        }
    }

    fn on_tick_price(&self, t: TickPriceMsg, recv_ns: u64) -> (events: Vec<BrokerEvent>)
        ensures
            events@ == BrokerState::price_tick(*self, t, recv_ns),
    {
        let mut events: Vec<BrokerEvent> = Vec::new();
        match price_tick_kind(t.tick_type) {
            Some(kind) => match self.tick_routes.get(&t.req_id) {
                Some(id) => {
                    events.push(
                        BrokerEvent::Ticked(
                            Tick { instrument_id: *id, kind, price: Some(t.price), size: None, timestamp_ns: recv_ns },
                        ),
                    );
                },
                None => {},
            },
            None => {},
        }
        assert(events@ =~= BrokerState::price_tick(*self, t, recv_ns));
        events
    }

    /// What a size tick is passed on as: nothing where it is of the other
    /// right.
    pub open spec fn size_tick(pre: BrokerState, t: TickSizeMsg, recv_ns: u64) -> Seq<BrokerEvent> {
        if wrong_side(t.tick_type as int, lookup(pre.tick_route_right@, t.req_id)) {
            Seq::<BrokerEvent>::empty()
        } else {
            match (size_kind(t.tick_type as int), lookup(pre.tick_routes@, t.req_id)) {
                (Some(kind), Some(instrument_id)) => seq![
                    BrokerEvent::Ticked(
                        Tick {
                            instrument_id,
                            kind,
                            price: None,
                            size: Some(t.size.clamped(u64::MAX as nat) as u64),
                            timestamp_ns: recv_ns,
                        },
                    ),
                ],
                _ => Seq::<BrokerEvent>::empty(),
            }
        }
    }

    /// How often a tick type was received, the count modulo 2^64.
    pub open spec fn counted(hist: Map<i32, u64>, tick_type: i32) -> Map<i32, u64> {
        let before = match lookup(hist, tick_type) {
            Some(n) => n,
            None => 0u64,
        };
        hist.insert(
            tick_type,
            if before == u64::MAX {
                0u64
            } else {
                (before + 1) as u64
            },
        )
    }

    fn on_tick_size(&mut self, t: TickSizeMsg, recv_ns: u64) -> (events: Vec<BrokerEvent>)
        requires
            old(self).wf(),
        ensures
            final(self).wf(),
            *final(self) == (BrokerState { tick_type_hist: final(self).tick_type_hist, ..*old(self) }),
            final(self).tick_type_hist@ == BrokerState::counted(old(self).tick_type_hist@, t.tick_type),
            events@ == BrokerState::size_tick(*old(self), t, recv_ns),
    {
        let count: u64 = match self.tick_type_hist.get(&t.tick_type) {
            Some(n) => *n,
            None => 0,
        };
        self.tick_type_hist.insert(t.tick_type, count.wrapping_add(1));
        let mut events: Vec<BrokerEvent> = Vec::new();
        let other_side = match self.tick_route_right.get(&t.req_id) {
            Some(Right::Call) => t.tick_type == 28 || t.tick_type == 30,
            Some(Right::Put) => t.tick_type == 27 || t.tick_type == 29,
            None => false,
        };
        if !other_side {
            match size_tick_kind(t.tick_type) {
                Some(kind) => match self.tick_routes.get(&t.req_id) {
                    Some(id) => {
                        events.push(
                            BrokerEvent::Ticked(
                                Tick {
                                    instrument_id: *id,
                                    kind,
                                    price: None,
                                    size: Some(t.size.to_u64()),
                                    timestamp_ns: recv_ns,
                                },
                            ),
                        );
                    },
                    None => {},
                },
                None => {},
            }
        }
        assert(events@ =~= BrokerState::size_tick(*old(self), t, recv_ns));
        events
    }

    /// What a depth change is passed on as.
    pub open spec fn depth_change(pre: BrokerState, d: MarketDepthMsg, recv_ns: u64) -> Seq<BrokerEvent> {
        match lookup(pre.depth_routes@, d.req_id) {
            Some(instrument_id) => seq![
                BrokerEvent::DepthChanged(
                    DepthUpdate {
                        instrument_id,
                        position: d.position,
                        operation: d.operation,
                        is_bid: d.side == 1,
                        price: d.price,
                        size: d.size.clamped(u64::MAX as nat) as u64,
                        timestamp_ns: recv_ns,
                    },
                ),
            ],
            None => Seq::<BrokerEvent>::empty(),
        }
    }

    fn on_market_depth(&self, d: MarketDepthMsg, recv_ns: u64) -> (events: Vec<BrokerEvent>)
        ensures
            events@ == BrokerState::depth_change(*self, d, recv_ns),
    {
        let mut events: Vec<BrokerEvent> = Vec::new();
        match self.depth_routes.get(&d.req_id) {
            Some(id) => {
                events.push(
                    BrokerEvent::DepthChanged(
                        DepthUpdate {
                            instrument_id: *id,
                            position: d.position,
                            operation: d.operation,
                            is_bid: d.side == 1,
                            price: d.price,
                            size: d.size.to_u64(),
                            timestamp_ns: recv_ns,
                        },
                    ),
                );
            },
            None => {},
        }
        assert(events@ =~= BrokerState::depth_change(*self, d, recv_ns));
        events
    }

    /// An error: fails the contract request or the order that it names,
    /// where that waits, and is passed on.
    pub open spec fn error_routed(pre: BrokerState, e: ErrorMsg, post: BrokerState, events: Seq<BrokerEvent>) -> bool {
        let id = e.req_id;
        let fails_contract = id > 0 && contract_error(e.error_code as int);
        let fails_order = id > 0 && order_error(e.error_code as int);
        let contract_reply = if fails_contract && pre.pending_contract_details@.contains_key(id) {
            seq![BrokerEvent::Contracts { req_id: id, result: Err(BrokerError::ContractNotFound(e.error_string)) }]
        } else {
            Seq::<BrokerEvent>::empty()
        };
        let order_reply = if fails_order && pre.pending_place_acks@.contains(id) {
            seq![
                BrokerEvent::PlaceAck {
                    order_id: id,
                    result: Err(BrokerError::OrderRejected { order_id: Some(id as u64), reason: e.error_string }),
                },
            ]
        } else {
            Seq::<BrokerEvent>::empty()
        };
        &&& post == (BrokerState {
            pending_contract_details: post.pending_contract_details,
            pending_place_acks: post.pending_place_acks,
            ..pre
        })
        &&& post.pending_contract_details@ == (if fails_contract {
            pre.pending_contract_details@.remove(id)
        } else {
            pre.pending_contract_details@
        })
        &&& post.pending_place_acks@ == (if fails_order {
            pre.pending_place_acks@.remove(id)
        } else {
            pre.pending_place_acks@
        })
        &&& events.len() == contract_reply.len() + order_reply.len() + 1
        &&& events.drop_last() == contract_reply + order_reply
        &&& events.last() matches BrokerEvent::Failed(b) && reports(b, e.error_code as int, e.error_string)
    }

    fn on_error(&mut self, e: ErrorMsg) -> (events: Vec<BrokerEvent>)
        requires
            old(self).wf(),
        ensures
            final(self).wf(),
            BrokerState::error_routed(*old(self), e, *final(self), events@),
    {
        let id: i32 = e.req_id;
        let mut events: Vec<BrokerEvent> = Vec::new();
        if id > 0 && is_contract_error(e.error_code) {
            match self.pending_contract_details.remove(&id) {
                Some(_) => {
                    events.push(
                        BrokerEvent::Contracts {
                            req_id: id,
                            result: Err(BrokerError::ContractNotFound(e.error_string.clone())),
                        },
                    );
                },
                None => {},
            }
        }
        let ghost first = events@;
        if id > 0 && is_order_error(e.error_code) {
            if self.pending_place_acks.remove(&id) {
                events.push(
                    BrokerEvent::PlaceAck {
                        order_id: id,
                        result: Err(
                            BrokerError::OrderRejected { order_id: Some(id as u64), reason: e.error_string.clone() },
                        ),
                    },
                );
            }
        }
        let ghost replies = events@;
        events.push(BrokerEvent::Failed(error_to_broker_error(&e)));
        proof {
            assert(events@.drop_last() =~= replies);
            let contract_reply = if id > 0 && contract_error(e.error_code as int)
                && old(self).pending_contract_details@.contains_key(id) {
                seq![BrokerEvent::Contracts { req_id: id, result: Err(BrokerError::ContractNotFound(e.error_string)) }]
            } else {
                Seq::<BrokerEvent>::empty()
            };
            assert(first =~= contract_reply);
            let order_reply = if id > 0 && order_error(e.error_code as int) && old(self).pending_place_acks@.contains(id) {
                seq![
                    BrokerEvent::PlaceAck {
                        order_id: id,
                        result: Err(BrokerError::OrderRejected { order_id: Some(id as u64), reason: e.error_string }),
                    },
                ]
            } else {
                Seq::<BrokerEvent>::empty()
            };
            assert(replies =~= contract_reply + order_reply);
        }
        events
    }

    /// What one message does: the state after it and the events it gives
    /// rise to. Messages that are not listed change nothing.
    pub open spec fn routed(
        pre: BrokerState,
        msg: InboundMsg,
        now: u64,
        recv_ns: u64,
        post: BrokerState,
        events: Seq<BrokerEvent>,
    ) -> bool {
        match msg {
            InboundMsg::Position(p) => BrokerState::position_routed(pre, p, post) && events.len() == 0,
            InboundMsg::PositionEnd => post == (BrokerState {
                seeding: SeedingProgress { positions_done: true, ..pre.seeding },
                ..pre
            }) && events.len() == 0,
            InboundMsg::OpenOrderEnd => post == (BrokerState {
                seeding: SeedingProgress { open_orders_done: true, ..pre.seeding },
                ..pre
            }) && events.len() == 0,
            InboundMsg::AccountDownloadEnd(_) => post == (BrokerState {
                seeding: SeedingProgress { account_done: true, ..pre.seeding },
                ..pre
            }) && events.len() == 0,
            InboundMsg::AccountValue(a) => post == (BrokerState { account_values: post.account_values, ..pre })
                && post.account_values@ == pre.account_values@.insert((a.key@, a.currency@, a.account@), a) && events.len()
                == 0,
            InboundMsg::OpenOrder(o) => BrokerState::open_order_routed(pre, o, now, post, events),
            InboundMsg::OrderStatus(o) => BrokerState::status_routed(pre, o, now, post, events),
            InboundMsg::Execution(e) => BrokerState::execution_routed(pre, e, now, post, events),
            InboundMsg::ExecutionEnd(id) => BrokerState::execution_end_routed(pre, id, post, events),
            InboundMsg::ContractDetails(cd) => BrokerState::contract_details_routed(pre, cd, post) && events.len() == 0,
            InboundMsg::ContractDetailsEnd(id) => BrokerState::contract_details_end_routed(pre, id, post, events),
            InboundMsg::TickPrice(t) => post == pre && events == BrokerState::price_tick(pre, t, recv_ns),
            InboundMsg::TickSize(t) => post == (BrokerState { tick_type_hist: post.tick_type_hist, ..pre })
                && post.tick_type_hist@ == BrokerState::counted(pre.tick_type_hist@, t.tick_type) && events
                == BrokerState::size_tick(pre, t, recv_ns),
            InboundMsg::MarketDepth(d) => post == pre && events == BrokerState::depth_change(pre, d, recv_ns),
            InboundMsg::Error(e) => BrokerState::error_routed(pre, e, post, events),
            _ => post == pre && events.len() == 0,
        }
    }

    /// Takes one message from the gateway. `now` is the time at which it is
    /// handled and `recv_ns` the time at which its bytes arrived.
    pub fn route(&mut self, msg: InboundMsg, now: u64, recv_ns: u64) -> (events: Vec<BrokerEvent>)
        requires
            old(self).wf(),
        ensures
            final(self).wf(),
            BrokerState::routed(*old(self), msg, now, recv_ns, *final(self), events@),
    {
        match msg {
            InboundMsg::Position(p) => {
                self.on_position(p);
                Vec::new()
            },
            InboundMsg::PositionEnd => {
                self.seeding.positions_done = true;
                Vec::new()
            },
            InboundMsg::OpenOrderEnd => {
                self.seeding.open_orders_done = true;
                Vec::new()
            },
            InboundMsg::AccountDownloadEnd(_) => {
                self.seeding.account_done = true;
                Vec::new()
            },
            InboundMsg::AccountValue(a) => {
                let key = AccountKey { key: a.key.clone(), currency: a.currency.clone(), account: a.account.clone() };
                self.account_values.insert(key, a);
                Vec::new()
            },
            InboundMsg::OpenOrder(o) => self.on_open_order(o, now),
            InboundMsg::OrderStatus(o) => self.on_order_status(o, now),
            InboundMsg::Execution(e) => self.on_execution(e, now),
            InboundMsg::ExecutionEnd(id) => self.on_execution_end(id),
            InboundMsg::ContractDetails(cd) => {
                self.on_contract_details(cd);
                Vec::new()
            },
            InboundMsg::ContractDetailsEnd(id) => self.on_contract_details_end(id),
            InboundMsg::TickPrice(t) => self.on_tick_price(t, recv_ns),
            InboundMsg::TickSize(t) => self.on_tick_size(t, recv_ns),
            InboundMsg::MarketDepth(d) => self.on_market_depth(d, recv_ns),
            InboundMsg::Error(e) => self.on_error(e),
            _ => Vec::new(),
        }
    }
}

} // verus!
