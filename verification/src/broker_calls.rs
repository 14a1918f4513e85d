//! The broker's calls: what each one sends to the gateway and remembers, and
//! what it returns for each outcome.
//!
//! A call that waits for a reply is in two parts. The first registers the
//! call and returns the bytes to send; the caller sends them, waits, and
//! hands the outcome to the second.

use crate::api::{
    copy_decimal, InstrumentId, AccountSnapshot, BrokerError, ChainQuery, Contract, ContractKind, Fill, FutureQuery,
    ModifyOrderReq, OpenOrder, OptionQuery, OrderId, OrderType, PlaceOrderReq, Position, Right, Side,
    TickStreamHandle, TickSubscription, TimeInForce,
};
use crate::broker::{lookup, AccountKey, BrokerEvent, BrokerState, SeedingProgress};
use crate::codec::{frame_of, framed, payload};
use crate::convert::{
    bare_contract, build_place_params, contract_to_request, currency_text, currency_to_str, empty_contract_request,
    exchange_text, exchange_to_str, law_contract_is_asked_for_as_it_is, place_order_contract_request, place_params_of,
    place_refusal, requests_contract, right_str, right_text, sec_type_text, strike_text, tif_text,
};
use crate::dates::{
    clock_text, date_text, day_number, filter_text, format_filter, format_yyyymmdd, law_days_follow_dates,
    law_instants_are_written_out, show, shown, utc_text, Date,
};
use crate::decimal_text::{four_decimals, to_four_decimals};
use crate::double::Double;
use crate::messages::{OUT_PLACE_ORDER, OUT_REQ_EXECUTIONS};
use crate::place_template::{body_fields, contract_fields, place_order_fast, trailing_fields, ContractTemplate};
use crate::requests::{
    cancel_mkt_data, contract_details_fields, market_data_fields, req_account_updates, req_auto_open_orders,
    req_contract_details, req_executions, req_mkt_data, req_open_orders, req_positions, ContractRequest,
    ExecutionFilter, PlaceOrderParams,
};
use crate::text::{int_text, int_value, law_int_text_round_trip, str_eq};
use crate::types::{AccountValueMsg, ContractDetailsMsg};
use std::collections::HashMap;
use vstd::prelude::*;
use vstd::string::*;

verus! {

broadcast use vstd::std_specs::hash::group_hash_axioms;

/// How the wait for a reply ended.
#[derive(Debug)]
pub enum Outcome<T> {
    /// The reply came.
    Replied(Result<T, BrokerError>),
    /// The waiter was dropped without a reply.
    Dropped,
    /// The time limit passed.
    TimedOut,
}

/// The fields that an order's contract is sent as.
pub open spec fn order_contract_fields(c: Contract) -> Seq<Seq<char>> {
    seq![
        int_text(c.instrument_id.0 as i64 as int),
        c.symbol@,
        sec_type_text(c.kind),
        date_text(c.expiry.year as int, c.expiry.month as int, c.expiry.day as int),
        strike_text(c.strike),
        right_text(c.right),
        int_text(c.multiplier.clamped_signed(i64::MIN as int, i64::MAX as int)),
        exchange_text(c.exchange),
        Seq::<char>::empty(),
        currency_text(c.currency),
        c.local_symbol@,
        if c.trading_class@.len() == 0 {
            c.symbol@
        } else {
            c.trading_class@
        },
        ""@,
        ""@,
    ]
}

/// The fields that an order itself is sent as.
pub open spec fn order_body_fields(req: PlaceOrderReq, fallback_account: Seq<char>) -> Seq<Seq<char>> {
    seq![
        match req.side {
            Side::Buy => "BUY"@,
            Side::Sell => "SELL"@,
        },
        int_text(req.qty as int),
        match req.order_type {
            OrderType::Limit => "LMT"@,
            OrderType::Market => "MKT"@,
            OrderType::StopLimit { .. } => "STP LMT"@,
        },
        match req.order_type {
            OrderType::Market => "0.0"@,
            _ => req.price->0.text@,
        },
        match req.order_type {
            OrderType::StopLimit { stop_price } => if stop_price.value.magnitude() == 0 {
                ""@
            } else {
                stop_price.text@
            },
            _ => ""@,
        },
        tif_text(req.tif),
        ""@,
        match req.account {
            Some(a) => a@,
            None => fallback_account,
        },
        "O"@,
        "0"@,
        req.client_order_ref@,
        "1"@,
        "0"@,
        "0"@,
        "0"@,
        "0"@,
        "0"@,
        "0"@,
        "0"@,
        ""@,
        "0.0"@,
        ""@,
        if req.tif == TimeInForce::Gtd {
            utc_text(req.gtd_until_utc->0 as int)->0
        } else {
            Seq::<char>::empty()
        },
        ""@,
        ""@,
        ""@,
        ""@,
        ""@,
        "0"@,
        ""@,
    ]
}

/// The bytes that an order is sent as, given its contract's encoded fields.
pub open spec fn order_frame(order_id: i32, contract: Seq<u8>, req: PlaceOrderReq, account: Seq<char>) -> Seq<u8> {
    framed(
        payload(seq![int_text(OUT_PLACE_ORDER as int), int_text(order_id as int)]) + contract + payload(
            order_body_fields(req, account),
        ) + payload(trailing_fields()),
    )
}

proof fn lemma_contract_fields(r: ContractRequest, c: Contract)
    requires
        requests_contract(r, c),
        r.multiplier@ == int_text(c.multiplier.clamped_signed(i64::MIN as int, i64::MAX as int)),
        r.trading_class == (if c.trading_class@.len() == 0 {
            c.symbol
        } else {
            c.trading_class
        }),
    ensures
        contract_fields(r) == order_contract_fields(c),
{
    assert(contract_fields(r) =~= order_contract_fields(c));
}

proof fn lemma_body_fields(p: PlaceOrderParams, req: PlaceOrderReq, account: Seq<char>)
    requires
        place_params_of(p, req, account),
    ensures
        body_fields(p) == order_body_fields(req, account),
{
    assert(body_fields(p) =~= order_body_fields(req, account));
}

/// The encoded contract fields that an order uses: those already held for
/// the instrument, else those of the order's contract.
pub open spec fn template_bytes(pre: BrokerState, c: Contract) -> Seq<u8> {
    match lookup(pre.place_templates@, c.instrument_id.0) {
        Some(t) => t@,
        None => payload(order_contract_fields(c)),
    }
}

/// The templates after an order on `c`: one is held for its instrument.
pub open spec fn template_kept(pre: BrokerState, c: Contract, post: BrokerState) -> bool {
    let id = c.instrument_id.0;
    &&& post.place_templates@.contains_key(id)
    &&& post.place_templates@[id]@ == template_bytes(pre, c)
    &&& post.place_templates@ == pre.place_templates@.insert(id, post.place_templates@[id])
}

/// The keys of a map, in no particular order.
fn keys_of<V>(m: &HashMap<i32, V>) -> (r: Vec<i32>)
    ensures
        r@.no_duplicates(),
        r@.to_set() == m@.dom(),
        r@.len() == m@.dom().len(),
{
    let mut out: Vec<i32> = Vec::new();
    for k in it: m.keys()
        invariant
            it.seq() == vstd::std_specs::iter::IteratorSpec::remaining(&vstd::std_specs::hash::spec_keys_iter(m)),
            out@ =~= it.seq().unref().take(it.index()),
    {
        out.push(*k);
    }
    proof {
        let s = vstd::std_specs::iter::IteratorSpec::remaining(&vstd::std_specs::hash::spec_keys_iter(m));
        assert(out@ =~= s.unref());
        assert(s.no_duplicates());
    }
    out
}

/// The error that a lost reply stands for.
fn reply_dropped(call: &str) -> (r: BrokerError)
    ensures
        r matches BrokerError::Internal(m) && m@ == call@ + " channel dropped"@,
{
    let mut m = call.to_owned();
    m.append(" channel dropped");
    BrokerError::Internal(m)
}

/// The error that a late reply to a query stands for.
fn reply_late(call: &str) -> (r: BrokerError)
    ensures
        r matches BrokerError::Internal(m) && m@ == call@ + " timeout"@,
{
    let mut m = call.to_owned();
    m.append(" timeout");
    BrokerError::Internal(m)
}

/// The error that a late acknowledgement of an order stands for. The order
/// may be live all the same.
fn ack_late(call: &str, order_id: u64) -> (r: BrokerError)
    ensures
        r matches BrokerError::Protocol { code, message } && code is None && message@ == call@
            + " ack timeout (orderId="@ + int_text(order_id as int) + ")"@,
{
    let mut m = call.to_owned();
    m.append(" ack timeout (orderId=");
    let digits = crate::text::u64_text(order_id);
    m.append(digits.as_str());
    m.append(")");
    BrokerError::Protocol { code: None, message: m }
}

/// Whether `r` is what a query returns for an outcome other than a reply.
pub open spec fn query_failed<T>(r: Result<T, BrokerError>, call: Seq<char>, timed_out: bool) -> bool {
    r matches Err(BrokerError::Internal(m)) && m@ == call + (if timed_out {
        " timeout"@
    } else {
        " channel dropped"@
    })
}

/// Checks that an order has a quantity.
pub fn check_quantity(req: &PlaceOrderReq) -> (r: Result<(), BrokerError>)
    ensures
        r is Ok <==> req.qty != 0,
        r matches Err(e) ==> e matches BrokerError::InvalidRequest(m) && m@ == "qty must be > 0"@,
{
    if req.qty == 0 {
        Err(BrokerError::InvalidRequest("qty must be > 0".to_owned()))
    } else {
        Ok(())
    }
}

/// The requests that ask for the initial snapshot. The master client also
/// asks for the orders of other clients.
pub open spec fn snapshot_requests(client_id: i32, account: Seq<char>) -> Seq<Seq<u8>> {
    let base = seq![
        frame_of(seq![int_text(6), "2"@, "1"@, account]),
        frame_of(seq![int_text(61), "1"@]),
        frame_of(seq![int_text(5), "1"@]),
    ];
    if client_id == 0 {
        base.push(frame_of(seq![int_text(15), "1"@, "1"@]))
    } else {
        base
    }
}

/// The requests that ask for the initial snapshot.
pub fn bootstrap_frames(client_id: i32, account: &str) -> (r: Vec<Vec<u8>>)
    ensures
        r@.map_values(|f: Vec<u8>| f@) == snapshot_requests(client_id, account@),
{
    let mut frames: Vec<Vec<u8>> = Vec::new();
    frames.push(req_account_updates(true, account));
    frames.push(req_positions());
    frames.push(req_open_orders());
    if client_id == 0 {
        frames.push(req_auto_open_orders(true));
    }
    assert(frames@.map_values(|f: Vec<u8>| f@) =~= snapshot_requests(client_id, account@));
    frames
}

/// The error that an unseeded order id stands for.
pub open spec fn unseeded(e: BrokerError) -> bool {
    e matches BrokerError::Internal(m) && m@ == "next_valid_id not seeded — call wait_for_bootstrap"@
}

impl BrokerState {
    /// The encoded contract fields for an order, made and kept where none
    /// are held for its instrument.
    fn ensure_template(&mut self, c: &Contract)
        requires
            c.expiry.valid(),
        ensures
            *final(self) == (BrokerState { place_templates: final(self).place_templates, ..*old(self) }),
            template_kept(*old(self), *c, *final(self)),
    {
        let id: u64 = c.instrument_id.0;
        if !self.place_templates.contains_key(&id) {
            let r = place_order_contract_request(c);
            proof {
                lemma_contract_fields(r, *c);
            }
            self.place_templates.insert(id, ContractTemplate::from_contract(&r));
        }
        assert(self.place_templates@ =~= old(self).place_templates@.insert(id, self.place_templates@[id]));
    }

    /// What [`BrokerState::begin_place`] remembers of an order.
    pub open spec fn place_begun(pre: BrokerState, order_id: i32, c: Contract, now: u64, post: BrokerState) -> bool {
        &&& post == (BrokerState {
            pending_place_acks: post.pending_place_acks,
            place_templates: post.place_templates,
            wire_send_ns: post.wire_send_ns,
            ..pre
        })
        &&& post.pending_place_acks@ == pre.pending_place_acks@.insert(order_id)
        &&& template_kept(pre, c, post)
        &&& post.wire_send_ns@ == pre.wire_send_ns@.insert(order_id, now)
    }

    /// Registers a new order and returns the bytes to send. The waiter is
    /// in place before anything is sent, so that no acknowledgement is
    /// missed. Without an order id, or with an order that cannot be
    /// written, nothing is registered.
    pub fn begin_place(&mut self, order_id: i32, req: &PlaceOrderReq, account: &str, now: u64) -> (r: Result<
        Vec<u8>,
        BrokerError,
    >)
        requires
            old(self).wf(),
            req.contract.expiry.valid(),
        ensures
            final(self).wf(),
            if order_id <= 0 {
                *final(self) == *old(self) && r is Err && unseeded(r->Err_0)
            } else {
                match place_refusal(*req) {
                    Some(reason) => *final(self) == *old(self) && (r matches Err(BrokerError::InvalidRequest(m)) && m@
                        == reason),
                    None => {
                        &&& BrokerState::place_begun(*old(self), order_id, req.contract, now, *final(self))
                        &&& r matches Ok(f) && f@ == order_frame(
                            order_id,
                            template_bytes(*old(self), req.contract),
                            *req,
                            account@,
                        )
                    },
                }
            },
    {
        if order_id <= 0 {
            return Err(BrokerError::Internal("next_valid_id not seeded — call wait_for_bootstrap".to_owned()));
        }
        let params = match build_place_params(req, account) {
            Ok(p) => p,
            Err(e) => {
                return Err(e);
            },
        };
        self.pending_place_acks.insert(order_id);
        self.ensure_template(&req.contract);
        proof {
            lemma_body_fields(params, *req, account@);
        }
        self.wire_send_ns.insert(order_id, now);
        match self.place_templates.get(&req.contract.instrument_id.0) {
            Some(t) => Ok(place_order_fast(order_id, t, &params)),
            None => {
                assert(false);
                Err(BrokerError::NotConnected(String::new()))
            },
        }
    }

    /// Forgets an order whose bytes could not be sent.
    pub fn abandon_send(&mut self, order_id: i32)
        requires
            old(self).wf(),
        ensures
            final(self).wf(),
            *final(self) == (BrokerState {
                pending_place_acks: final(self).pending_place_acks,
                wire_send_ns: final(self).wire_send_ns,
                ..*old(self)
            }),
            final(self).pending_place_acks@ == old(self).pending_place_acks@.remove(order_id),
            final(self).wire_send_ns@ == old(self).wire_send_ns@.remove(order_id),
    {
        self.pending_place_acks.remove(&order_id);
        self.wire_send_ns.remove(&order_id);
    }

    /// Whether nothing is held of an order's wait and timing any more, and
    /// all else is as it was.
    pub open spec fn wait_forgotten(pre: BrokerState, id: i32, post: BrokerState) -> bool {
        &&& post == (BrokerState {
            pending_place_acks: post.pending_place_acks,
            wire_send_ns: post.wire_send_ns,
            wire_ack_ns: post.wire_ack_ns,
            expected_amend_prices: post.expected_amend_prices,
            strict_ack_ns: post.strict_ack_ns,
            ..pre
        })
        &&& post.pending_place_acks@ == pre.pending_place_acks@.remove(id)
        &&& post.wire_send_ns@ == pre.wire_send_ns@.remove(id)
        &&& post.wire_ack_ns@ == pre.wire_ack_ns@.remove(id)
        &&& post.expected_amend_prices@ == pre.expected_amend_prices@.remove(id)
        &&& post.strict_ack_ns@ == pre.strict_ack_ns@.remove(id)
    }

    fn forget_wait(&mut self, id: i32)
        requires
            old(self).wf(),
        ensures
            final(self).wf(),
            BrokerState::wait_forgotten(*old(self), id, *final(self)),
    {
        self.pending_place_acks.remove(&id);
        self.wire_send_ns.remove(&id);
        self.wire_ack_ns.remove(&id);
        self.expected_amend_prices.remove(&id);
        self.strict_ack_ns.remove(&id);
    }

    /// Ends a new order's wait.
    pub fn finish_place(&mut self, order_id: i32, outcome: Outcome<()>) -> (r: Result<OrderId, BrokerError>)
        requires
            old(self).wf(),
            order_id > 0,
        ensures
            final(self).wf(),
            match outcome {
                Outcome::Replied(Ok(_)) => *final(self) == *old(self) && r == Ok::<OrderId, BrokerError>(
                    OrderId(order_id as u64),
                ),
                Outcome::Replied(Err(e)) => *final(self) == *old(self) && r == Err::<OrderId, BrokerError>(e),
                Outcome::Dropped => *final(self) == *old(self) && query_failed(r, "place_order ack"@, false),
                Outcome::TimedOut => BrokerState::wait_forgotten(*old(self), order_id, *final(self)) && (r matches Err(
                    BrokerError::Protocol { code, message },
                ) && code is None && message@ == "place_order"@ + " ack timeout (orderId="@ + int_text(order_id as int)
                    + ")"@),
            },
    {
        match outcome {
            Outcome::Replied(Ok(_)) => Ok(OrderId(order_id as u64)),
            Outcome::Replied(Err(e)) => Err(e),
            Outcome::Dropped => Err(reply_dropped("place_order ack")),
            Outcome::TimedOut => {
                self.forget_wait(order_id);
                Err(ack_late("place_order", order_id as u64))
            },
        }
    }

    /// The order that a modification sends: the known order with the given
    /// changes, for the configured account.
    pub open spec fn modified_order(existing: OpenOrder, req: ModifyOrderReq, sent: PlaceOrderReq, account: Seq<char>) -> bool {
        &&& sent.contract == existing.contract
        &&& sent.side == existing.side
        &&& sent.qty == (match req.qty {
            Some(q) => q,
            None => existing.qty,
        })
        &&& sent.order_type == existing.order_type
        &&& sent.price == (match req.price {
            Some(p) => Some(p),
            None => existing.price,
        })
        &&& sent.tif == existing.tif
        &&& sent.gtd_until_utc == (match req.gtd_until_utc {
            Some(t) => Some(t),
            None => existing.gtd_until_utc,
        })
        &&& sent.client_order_ref == existing.client_order_ref
        &&& (sent.account matches Some(a) && a@ == account)
    }

    fn build_modified(existing: &OpenOrder, req: &ModifyOrderReq, account: &str) -> (sent: PlaceOrderReq)
        ensures
            BrokerState::modified_order(*existing, *req, sent, account@),
    {
        PlaceOrderReq {
            contract: existing.contract.clone(),
            side: existing.side,
            qty: match req.qty {
                Some(q) => q,
                None => existing.qty,
            },
            order_type: existing.order_type.clone(),
            price: match &req.price {
                Some(p) => Some(p.clone()),
                None => copy_decimal(&existing.price),
            },
            tif: existing.tif,
            gtd_until_utc: match req.gtd_until_utc {
                Some(t) => Some(t),
                None => existing.gtd_until_utc,
            },
            client_order_ref: existing.client_order_ref.clone(),
            account: Some(account.to_owned()),
        }
    }

    /// The price that an amended order is expected to come back with: zero
    /// where it has none.
    pub open spec fn expected_price(sent: PlaceOrderReq) -> Double {
        match sent.price {
            Some(p) => p.value,
            None => Double { bits: 0 },
        }
    }

    /// What [`BrokerState::begin_modify`] remembers of a modification.
    pub open spec fn modify_begun(pre: BrokerState, id: i32, sent: PlaceOrderReq, now: u64, post: BrokerState) -> bool {
        &&& post == (BrokerState {
            pending_place_acks: post.pending_place_acks,
            place_templates: post.place_templates,
            wire_send_ns: post.wire_send_ns,
            expected_amend_prices: post.expected_amend_prices,
            ..pre
        })
        &&& post.pending_place_acks@ == pre.pending_place_acks@.insert(id)
        &&& template_kept(pre, sent.contract, post)
        &&& post.wire_send_ns@ == pre.wire_send_ns@.insert(id, now)
        &&& post.expected_amend_prices@ == pre.expected_amend_prices@.insert(id, BrokerState::expected_price(sent))
    }

    /// Registers a modification and returns the bytes to send: the order
    /// under its old id with the new values. An order that is not known
    /// cannot be modified.
    pub fn begin_modify(&mut self, id: OrderId, req: &ModifyOrderReq, account: &str, now: u64) -> (r: Result<
        Vec<u8>,
        BrokerError,
    >)
        requires
            old(self).wf(),
        ensures
            final(self).wf(),
            !old(self).open_orders@.contains_key(id.0 as i32) ==> {
                &&& *final(self) == *old(self)
                &&& r matches Err(BrokerError::Internal(m)) && m@ == "modify_order: orderId="@ + int_text(id.0 as int)
                    + " not in open cache"@
            },
            old(self).open_orders@.contains_key(id.0 as i32) ==> exists|sent: PlaceOrderReq|
                {
                    &&& #[trigger] BrokerState::modified_order(old(self).open_orders@[id.0 as i32], *req, sent, account@)
                    &&& match place_refusal(sent) {
                        Some(reason) => *final(self) == *old(self) && (r matches Err(BrokerError::InvalidRequest(m)) && m@
                            == reason),
                        None => {
                            &&& BrokerState::modify_begun(*old(self), id.0 as i32, sent, now, *final(self))
                            &&& r matches Ok(f) && f@ == order_frame(
                                id.0 as i32,
                                template_bytes(*old(self), sent.contract),
                                sent,
                                account@,
                            )
                        },
                    }
                },
    {
        let key: i32 = id.0 as i32;
        let sent = match self.open_orders.get(&key) {
            Some(existing) => BrokerState::build_modified(existing, req, account),
            None => {
                let mut m = "modify_order: orderId=".to_owned();
                let digits = crate::text::u64_text(id.0);
                m.append(digits.as_str());
                m.append(" not in open cache");
                return Err(BrokerError::Internal(m));
            },
        };
        let params = match build_place_params(&sent, account) {
            Ok(p) => p,
            Err(e) => {
                return Err(e);
            },
        };
        self.ensure_template(&sent.contract);
        proof {
            lemma_body_fields(params, sent, account@);
        }
        let expected = match &sent.price {
            Some(p) => p.value,
            None => Double::zero(),
        };
        self.pending_place_acks.insert(key);
        self.wire_send_ns.insert(key, now);
        self.expected_amend_prices.insert(key, expected);
        match self.place_templates.get(&sent.contract.instrument_id.0) {
            Some(t) => Ok(place_order_fast(key, t, &params)),
            None => {
                assert(false);
                Err(BrokerError::NotConnected(String::new()))
            },
        }
    }

    /// Ends a modification's wait.
    pub fn finish_modify(&mut self, id: OrderId, outcome: Outcome<()>) -> (r: Result<(), BrokerError>)
        requires
            old(self).wf(),
        ensures
            final(self).wf(),
            match outcome {
                Outcome::Replied(reply) => *final(self) == *old(self) && r == reply,
                Outcome::Dropped => *final(self) == *old(self) && query_failed(r, "modify_order ack"@, false),
                Outcome::TimedOut => BrokerState::wait_forgotten(*old(self), id.0 as i32, *final(self)) && (r matches Err(
                    BrokerError::Protocol { code, message },
                ) && code is None && message@ == "modify_order"@ + " ack timeout (orderId="@ + int_text(id.0 as int)
                    + ")"@),
            },
    {
        match outcome {
            Outcome::Replied(reply) => reply,
            Outcome::Dropped => Err(reply_dropped("modify_order ack")),
            Outcome::TimedOut => {
                self.forget_wait(id.0 as i32);
                Err(ack_late("modify_order", id.0))
            },
        }
    }

    /// When an order was sent and first acknowledged. The times are handed
    /// out once: where both are known both are forgotten, and where the
    /// order was sent its send time is forgotten in any case.
    pub fn drain_wire_timing(&mut self, order_id: u64) -> (r: Option<(u64, u64)>)
        requires
            old(self).wf(),
        ensures
            final(self).wf(),
            *final(self) == (BrokerState {
                wire_send_ns: final(self).wire_send_ns,
                wire_ack_ns: final(self).wire_ack_ns,
                ..*old(self)
            }),
            final(self).wire_send_ns@ == old(self).wire_send_ns@.remove(order_id as i32),
            final(self).wire_ack_ns@ == (if old(self).wire_send_ns@.contains_key(order_id as i32) {
                old(self).wire_ack_ns@.remove(order_id as i32)
            } else {
                old(self).wire_ack_ns@
            }),
            r == (match (
                lookup(old(self).wire_send_ns@, order_id as i32),
                lookup(old(self).wire_ack_ns@, order_id as i32),
            ) {
                (Some(s), Some(a)) => Some((s, a)),
                _ => None,
            }),
    {
        let key: i32 = order_id as i32;
        match self.wire_send_ns.remove(&key) {
            Some(send) => match self.wire_ack_ns.remove(&key) {
                Some(ack) => Some((send, ack)),
                None => None,
            },
            None => None,
        }
    }

    /// When an amended price was first seen confirmed. The time and the
    /// expected price are forgotten.
    pub fn drain_strict_amend_ack_ns(&mut self, order_id: u64) -> (r: Option<u64>)
        requires
            old(self).wf(),
        ensures
            final(self).wf(),
            *final(self) == (BrokerState {
                expected_amend_prices: final(self).expected_amend_prices,
                strict_ack_ns: final(self).strict_ack_ns,
                ..*old(self)
            }),
            final(self).expected_amend_prices@ == old(self).expected_amend_prices@.remove(order_id as i32),
            final(self).strict_ack_ns@ == old(self).strict_ack_ns@.remove(order_id as i32),
            r == lookup(old(self).strict_ack_ns@, order_id as i32),
    {
        let key: i32 = order_id as i32;
        self.expected_amend_prices.remove(&key);
        self.strict_ack_ns.remove(&key)
    }

    /// The next request id. Ids wrap around.
    pub fn alloc_req_id(&mut self) -> (r: i32)
        ensures
            r == old(self).next_req_id,
            *final(self) == (BrokerState { next_req_id: next_id(old(self).next_req_id), ..*old(self) }),
    {
        let id: i32 = self.next_req_id;
        self.next_req_id = if id == i32::MAX {
            i32::MIN
        } else {
            id + 1
        };
        id
    }

    /// The next subscription handle. Handles wrap around.
    pub fn alloc_handle(&mut self) -> (r: TickStreamHandle)
        ensures
            r.0 == old(self).next_handle as u64,
            *final(self) == (BrokerState { next_handle: next_id(old(self).next_handle), ..*old(self) }),
    {
        let id: i32 = self.next_handle;
        self.next_handle = if id == i32::MAX {
            i32::MIN
        } else {
            id + 1
        };
        TickStreamHandle(id as u64)
    }

    /// Forgets how far the initial snapshot has come, before it is asked
    /// for again.
    pub fn reset_seeding_flags(&mut self)
        ensures
            *final(self) == (BrokerState {
                seeding: SeedingProgress { positions_done: false, open_orders_done: false, account_done: false },
                ..*old(self)
            }),
    {
        self.seeding = SeedingProgress::default();
    }

    /// Every open position.
    pub fn positions(&self) -> (r: Vec<Position>)
        requires
            self.wf(),
        ensures
            r@ == self.positions.values(),
    {
        let mut out: Vec<Position> = Vec::new();
        let mut i: usize = 0;
        while i < self.positions.entries.len()
            invariant
                i <= self.positions.entries@.len(),
                out@ == self.positions.values().take(i as int),
            decreases self.positions.entries@.len() - i,
        {
            out.push(self.positions.entries[i].1.clone());
            i = i + 1;
            assert(self.positions.values().take(i as int) =~= self.positions.values().take(i - 1).push(
                self.positions.entries@[i - 1].1,
            ));
        }
        assert(self.positions.values().take(i as int) =~= self.positions.values());
        out
    }

    /// Every order that is known, in no particular order.
    pub fn open_orders(&self) -> (r: Vec<OpenOrder>)
        ensures
            r@.len() == self.open_orders@.dom().len(),
            forall|id: i32| #[trigger] self.open_orders@.contains_key(id) ==> r@.contains(self.open_orders@[id]),
            forall|i: int| 0 <= i < r@.len() ==> self.open_orders@.values().contains(#[trigger] r@[i]),
    {
        let ids = keys_of(&self.open_orders);
        let mut out: Vec<OpenOrder> = Vec::new();
        let mut i: usize = 0;
        while i < ids.len()
            invariant
                i <= ids.len(),
                ids@.to_set() == self.open_orders@.dom(),
                out@.len() == i,
                forall|j: int| 0 <= j < i ==> #[trigger] out@[j] == self.open_orders@[ids@[j]],
            decreases ids.len() - i,
        {
            assert(ids@.to_set().contains(ids@[i as int]));
            match self.open_orders.get(&ids[i]) {
                Some(o) => {
                    out.push(o.clone());
                },
                None => {},
            }
            i = i + 1;
        }
        proof {
            assert forall|id: i32| #[trigger] self.open_orders@.contains_key(id) implies out@.contains(
                self.open_orders@[id],
            ) by {
                assert(ids@.to_set().contains(id));
                let j = choose|j: int| 0 <= j < ids@.len() && ids@[j] == id;
                assert(out@[j] == self.open_orders@[id]);
            }
            assert forall|k: int| 0 <= k < out@.len() implies self.open_orders@.values().contains(#[trigger] out@[k]) by {
                assert(ids@.to_set().contains(ids@[k]));
                assert(self.open_orders@.contains_key(ids@[k]));
            }
        }
        out
    }

    /// The balances that an account's values add up to: of each kind the
    /// last one listed, zero where none is. Other accounts' values, such as
    /// the totals over all accounts, do not count.
    pub open spec fn snapshot_of(rows: Seq<(AccountKey, AccountValueMsg)>, account: Seq<char>, now: u64) -> AccountSnapshot
        decreases rows.len(),
    {
        if rows.len() == 0 {
            AccountSnapshot {
                net_liquidation: Double { bits: 0 },
                maintenance_margin: Double { bits: 0 },
                initial_margin: Double { bits: 0 },
                buying_power: Double { bits: 0 },
                realized_pnl_today: Double { bits: 0 },
                timestamp_ns: now,
            }
        } else {
            let before = BrokerState::snapshot_of(rows.drop_last(), account, now);
            let (k, v) = rows.last();
            if k.account@ != account {
                before
            } else if k.key@ == "NetLiquidation"@ {
                AccountSnapshot { net_liquidation: v.amount, ..before }
            } else if k.key@ == "MaintMarginReq"@ {
                AccountSnapshot { maintenance_margin: v.amount, ..before }
            } else if k.key@ == "InitMarginReq"@ {
                AccountSnapshot { initial_margin: v.amount, ..before }
            } else if k.key@ == "BuyingPower"@ {
                AccountSnapshot { buying_power: v.amount, ..before }
            } else if k.key@ == "RealizedPnL"@ {
                AccountSnapshot { realized_pnl_today: v.amount, ..before }
            } else {
                before
            }
        }
    }

    /// The configured account's balances.
    pub fn account_values(&self, account: &str, now: u64) -> (r: AccountSnapshot)
        ensures
            r == BrokerState::snapshot_of(self.account_values.entries@, account@, now),
    {
        let ghost rows = self.account_values.entries@;
        let mut snap = AccountSnapshot {
            net_liquidation: Double::zero(),
            maintenance_margin: Double::zero(),
            initial_margin: Double::zero(),
            buying_power: Double::zero(),
            realized_pnl_today: Double::zero(),
            timestamp_ns: now,
        };
        let mut i: usize = 0;
        while i < self.account_values.entries.len()
            invariant
                i <= rows.len(),
                rows == self.account_values.entries@,
                snap == BrokerState::snapshot_of(rows.take(i as int), account@, now),
            decreases rows.len() - i,
        {
            proof {
                assert(rows.take(i + 1).drop_last() =~= rows.take(i as int));
                assert(rows.take(i + 1).last() == rows[i as int]);
            }
            let row = &self.account_values.entries[i];
            let key = row.0.key.as_str();
            if str_eq(row.0.account.as_str(), account) {
                if str_eq(key, "NetLiquidation") {
                    snap.net_liquidation = row.1.amount;
                } else if str_eq(key, "MaintMarginReq") {
                    snap.maintenance_margin = row.1.amount;
                } else if str_eq(key, "InitMarginReq") {
                    snap.initial_margin = row.1.amount;
                } else if str_eq(key, "BuyingPower") {
                    snap.buying_power = row.1.amount;
                } else if str_eq(key, "RealizedPnL") {
                    snap.realized_pnl_today = row.1.amount;
                }
            }
            i = i + 1;
        }
        assert(rows.take(i as int) =~= rows);
        snap
    }

    /// The time from which executions are asked for: empty for all.
    pub open spec fn since_text(since_ns: u64) -> Seq<char> {
        if since_ns == 0 {
            Seq::<char>::empty()
        } else {
            match filter_text((since_ns / 1_000_000_000) as int) {
                Some(t) => t,
                None => Seq::<char>::empty(),
            }
        }
    }

    /// Registers a request for past executions and returns its id and the
    /// bytes to send.
    pub fn begin_recent_fills(&mut self, since_ns: u64, account: &str) -> (r: (i32, Vec<u8>))
        requires
            old(self).wf(),
        ensures
            final(self).wf(),
            r.0 == old(self).next_req_id,
            *final(self) == (BrokerState {
                pending_executions: final(self).pending_executions,
                next_req_id: next_id(old(self).next_req_id),
                ..*old(self)
            }),
            final(self).pending_executions@.contains_key(r.0),
            final(self).pending_executions@[r.0]@ == Seq::<Fill>::empty(),
            final(self).pending_executions@ == old(self).pending_executions@.insert(r.0, final(self).pending_executions@[r.0]),
            r.1@ == frame_of(
                seq![
                    int_text(OUT_REQ_EXECUTIONS as int),
                    "3"@,
                    int_text(r.0 as int),
                    int_text(0),
                    account@,
                    BrokerState::since_text(since_ns),
                    ""@,
                    ""@,
                    ""@,
                    ""@,
                ],
            ),
    {
        let id: i32 = self.alloc_req_id();
        self.pending_executions.insert(id, Vec::new());
        let time = if since_ns == 0 {
            String::new()
        } else {
            match format_filter((since_ns / 1_000_000_000) as i64) {
                Some(t) => t,
                None => String::new(),
            }
        };
        let filter = ExecutionFilter {
            client_id: 0,
            account: account.to_owned(),
            time,
            symbol: "".to_owned(),
            sec_type: "".to_owned(),
            exchange: "".to_owned(),
            side: "".to_owned(),
        };
        let frame = req_executions(id, &filter);
        assert(seq![int_text(OUT_REQ_EXECUTIONS as int), "3"@, int_text(id as int)] + filter.fields() =~= seq![
            int_text(OUT_REQ_EXECUTIONS as int),
            "3"@,
            int_text(id as int),
            int_text(0),
            account@,
            BrokerState::since_text(since_ns),
            ""@,
            ""@,
            ""@,
            ""@,
        ]);
        (id, frame)
    }

    /// Ends the wait for past executions.
    pub fn finish_recent_fills(&mut self, req_id: i32, outcome: Outcome<Vec<Fill>>) -> (r: Result<Vec<Fill>, BrokerError>)
        requires
            old(self).wf(),
        ensures
            final(self).wf(),
            *final(self) == (BrokerState { pending_executions: final(self).pending_executions, ..*old(self) }),
            final(self).pending_executions@ == (if outcome is TimedOut {
                old(self).pending_executions@.remove(req_id)
            } else {
                old(self).pending_executions@
            }),
            match outcome {
                Outcome::Replied(reply) => r == reply,
                Outcome::Dropped => query_failed(r, "recent_fills"@, false),
                Outcome::TimedOut => query_failed(r, "recent_fills"@, true),
            },
    {
        match outcome {
            Outcome::Replied(reply) => reply,
            Outcome::Dropped => Err(reply_dropped("recent_fills")),
            Outcome::TimedOut => {
                self.pending_executions.remove(&req_id);
                Err(reply_late("recent_fills"))
            },
        }
    }

    /// Whether a contract request was registered: its id is new and nothing
    /// has been received for it.
    pub open spec fn contract_request_begun(pre: BrokerState, req_id: i32, post: BrokerState) -> bool {
        &&& req_id == pre.next_req_id
        &&& post == (BrokerState {
            pending_contract_details: post.pending_contract_details,
            next_req_id: next_id(pre.next_req_id),
            ..pre
        })
        &&& post.pending_contract_details@.contains_key(req_id)
        &&& post.pending_contract_details@[req_id]@ == Seq::<ContractDetailsMsg>::empty()
        &&& post.pending_contract_details@ == pre.pending_contract_details@.insert(
            req_id,
            post.pending_contract_details@[req_id],
        )
    }

    fn begin_contract_request(&mut self, r: &ContractRequest) -> (out: (i32, Vec<u8>))
        requires
            old(self).wf(),
        ensures
            final(self).wf(),
            BrokerState::contract_request_begun(*old(self), out.0, *final(self)),
            out.1@ == frame_of(contract_details_fields(out.0, *r)),
    {
        let id: i32 = self.alloc_req_id();
        self.pending_contract_details.insert(id, Vec::new());
        let frame = req_contract_details(id, r);
        (id, frame)
    }

    /// The fields of a request for contracts of a symbol.
    pub open spec fn symbol_query_fields(
        req_id: i32,
        symbol: Seq<char>,
        sec_type: Seq<char>,
        last_trade_date: Seq<char>,
        strike: Seq<char>,
        right: Seq<char>,
        exchange: Seq<char>,
        currency: Seq<char>,
        trading_class: Seq<char>,
    ) -> Seq<Seq<char>> {
        let none = Seq::<char>::empty();
        seq![
            int_text(9),
            "8"@,
            int_text(req_id as int),
            int_text(0),
            symbol,
            sec_type,
            last_trade_date,
            strike,
            right,
            none,
            exchange,
            none,
            currency,
            none,
            trading_class,
            "0"@,
            ""@,
            ""@,
            ""@,
        ]
    }

    /// Registers the resolution of a future.
    pub fn begin_qualify_future(&mut self, q: &FutureQuery) -> (out: (i32, Vec<u8>))
        requires
            old(self).wf(),
            q.expiry.valid(),
        ensures
            final(self).wf(),
            BrokerState::contract_request_begun(*old(self), out.0, *final(self)),
            out.1@ == frame_of(
                BrokerState::symbol_query_fields(
                    out.0,
                    q.symbol@,
                    "FUT"@,
                    date_text(q.expiry.year as int, q.expiry.month as int, q.expiry.day as int),
                    "0.0"@,
                    Seq::<char>::empty(),
                    exchange_text(q.exchange),
                    currency_text(q.currency),
                    Seq::<char>::empty(),
                ),
            ),
    {
        let mut r = empty_contract_request(q.symbol.as_str(), "FUT");
        r.last_trade_date = format_yyyymmdd(&q.expiry);
        r.exchange = exchange_to_str(q.exchange).to_owned();
        r.currency = currency_to_str(q.currency).to_owned();
        let out = self.begin_contract_request(&r);
        assert(contract_details_fields(out.0, r) =~= BrokerState::symbol_query_fields(
            out.0,
            q.symbol@,
            "FUT"@,
            date_text(q.expiry.year as int, q.expiry.month as int, q.expiry.day as int),
            "0.0"@,
            Seq::<char>::empty(),
            exchange_text(q.exchange),
            currency_text(q.currency),
            Seq::<char>::empty(),
        ));
        out
    }

    /// Registers the resolution of an option. The strike is sent with no more
    /// than four decimals: the gateway matches strikes digit by digit, and a
    /// sum of increments may be off by a trace. The multiplier is left out:
    /// the trading class, which is the symbol, implies it.
    pub fn begin_qualify_option(&mut self, q: &OptionQuery) -> (out: (i32, Vec<u8>))
        requires
            old(self).wf(),
            q.expiry.valid(),
        ensures
            final(self).wf(),
            BrokerState::contract_request_begun(*old(self), out.0, *final(self)),
            out.1@ == frame_of(
                BrokerState::symbol_query_fields(
                    out.0,
                    q.symbol@,
                    "FOP"@,
                    date_text(q.expiry.year as int, q.expiry.month as int, q.expiry.day as int),
                    to_four_decimals(q.strike.value, q.strike.text@),
                    right_text(Some(q.right)),
                    exchange_text(q.exchange),
                    currency_text(q.currency),
                    q.symbol@,
                ),
            ),
    {
        let mut r = empty_contract_request(q.symbol.as_str(), "FOP");
        r.last_trade_date = format_yyyymmdd(&q.expiry);
        r.strike = four_decimals(q.strike.value, q.strike.text.as_str());
        r.right = right_str(Some(q.right)).to_owned();
        r.exchange = exchange_to_str(q.exchange).to_owned();
        r.currency = currency_to_str(q.currency).to_owned();
        r.trading_class = q.symbol.clone();
        let out = self.begin_contract_request(&r);
        assert(contract_details_fields(out.0, r) =~= BrokerState::symbol_query_fields(
            out.0,
            q.symbol@,
            "FOP"@,
            date_text(q.expiry.year as int, q.expiry.month as int, q.expiry.day as int),
            to_four_decimals(q.strike.value, q.strike.text@),
            right_text(Some(q.right)),
            exchange_text(q.exchange),
            currency_text(q.currency),
            q.symbol@,
        ));
        out
    }

    /// The security type that a chain query asks for: futures unless it says
    /// options.
    pub open spec fn chain_sec_type(kind: Option<ContractKind>) -> Seq<char> {
        match kind {
            Some(ContractKind::Option) => "FOP"@,
            _ => "FUT"@,
        }
    }

    /// Registers a request for all contracts of a symbol.
    pub fn begin_list_chain(&mut self, q: &ChainQuery) -> (out: (i32, Vec<u8>))
        requires
            old(self).wf(),
        ensures
            final(self).wf(),
            BrokerState::contract_request_begun(*old(self), out.0, *final(self)),
            out.1@ == frame_of(
                BrokerState::symbol_query_fields(
                    out.0,
                    q.symbol@,
                    BrokerState::chain_sec_type(q.kind),
                    Seq::<char>::empty(),
                    "0.0"@,
                    Seq::<char>::empty(),
                    exchange_text(q.exchange),
                    currency_text(q.currency),
                    Seq::<char>::empty(),
                ),
            ),
    {
        let sec_type = match q.kind {
            Some(ContractKind::Option) => "FOP",
            _ => "FUT",
        };
        let mut r = empty_contract_request(q.symbol.as_str(), sec_type);
        r.exchange = exchange_to_str(q.exchange).to_owned();
        r.currency = currency_to_str(q.currency).to_owned();
        let out = self.begin_contract_request(&r);
        assert(contract_details_fields(out.0, r) =~= BrokerState::symbol_query_fields(
            out.0,
            q.symbol@,
            BrokerState::chain_sec_type(q.kind),
            Seq::<char>::empty(),
            "0.0"@,
            Seq::<char>::empty(),
            exchange_text(q.exchange),
            currency_text(q.currency),
            Seq::<char>::empty(),
        ));
        out
    }

    /// Whether a contract request's wait was ended: forgotten where it timed
    /// out, and all else as it was.
    pub open spec fn contract_request_ended(pre: BrokerState, req_id: i32, timed_out: bool, post: BrokerState) -> bool {
        &&& post == (BrokerState { pending_contract_details: post.pending_contract_details, ..pre })
        &&& post.pending_contract_details@ == (if timed_out {
            pre.pending_contract_details@.remove(req_id)
        } else {
            pre.pending_contract_details@
        })
    }

    /// Ends the resolution of a future: the first contract received, or an
    /// error that says there is none.
    pub fn finish_qualify_future(
        &mut self,
        req_id: i32,
        q: &FutureQuery,
        outcome: Outcome<Vec<Contract>>,
    ) -> (r: Result<Contract, BrokerError>)
        requires
            old(self).wf(),
            q.expiry.valid(),
        ensures
            final(self).wf(),
            BrokerState::contract_request_ended(*old(self), req_id, outcome is TimedOut, *final(self)),
            match outcome {
                Outcome::Replied(Ok(contracts)) => if contracts@.len() > 0 {
                    r == Ok::<Contract, BrokerError>(contracts@[0])
                } else {
                    r matches Err(BrokerError::ContractNotFound(m)) && m@ == "no match for "@ + q.symbol@ + " "@ + shown(q.expiry)
                },
                Outcome::Replied(Err(e)) => r == Err::<Contract, BrokerError>(e),
                Outcome::Dropped => query_failed(r, "qualify_future"@, false),
                Outcome::TimedOut => query_failed(r, "qualify_future"@, true),
            },
    {
        match outcome {
            Outcome::Replied(Ok(mut contracts)) => {
                if contracts.len() > 0 {
                    Ok(contracts.swap_remove(0))
                } else {
                    let mut m = "no match for ".to_owned();
                    m.append(q.symbol.as_str());
                    m.append(" ");
                    m.append(show(&q.expiry).as_str());
                    Err(BrokerError::ContractNotFound(m))
                }
            },
            Outcome::Replied(Err(e)) => Err(e),
            Outcome::Dropped => Err(reply_dropped("qualify_future")),
            Outcome::TimedOut => {
                self.pending_contract_details.remove(&req_id);
                Err(reply_late("qualify_future"))
            },
        }
    }

    /// Ends the resolution of an option: the first contract received, with
    /// the query's multiplier where the reply has none, or an error that
    /// says there is none. `strike` is the queried strike as displayed in
    /// that error.
    pub fn finish_qualify_option(
        &mut self,
        req_id: i32,
        q: &OptionQuery,
        strike: &str,
        outcome: Outcome<Vec<Contract>>,
    ) -> (r: Result<Contract, BrokerError>)
        requires
            old(self).wf(),
            q.expiry.valid(),
        ensures
            final(self).wf(),
            BrokerState::contract_request_ended(*old(self), req_id, outcome is TimedOut, *final(self)),
            match outcome {
                Outcome::Replied(Ok(contracts)) => if contracts@.len() > 0 {
                    r == Ok::<Contract, BrokerError>(
                        if contracts@[0].multiplier.at_most(Double { bits: 0 }) {
                            Contract { multiplier: q.multiplier, ..contracts@[0] }
                        } else {
                            contracts@[0]
                        },
                    )
                } else {
                    r matches Err(BrokerError::ContractNotFound(m)) && m@ == "no match for "@ + q.symbol@ + " "@ + shown(q.expiry) + " "@
                        + strike@ + " "@ + (if q.right == Right::Call {
                        "Call"@
                    } else {
                        "Put"@
                    })
                },
                Outcome::Replied(Err(e)) => r == Err::<Contract, BrokerError>(e),
                Outcome::Dropped => query_failed(r, "qualify_option"@, false),
                Outcome::TimedOut => query_failed(r, "qualify_option"@, true),
            },
    {
        match outcome {
            Outcome::Replied(Ok(mut contracts)) => {
                if contracts.len() > 0 {
                    let mut c = contracts.swap_remove(0);
                    if c.multiplier.le(&Double::zero()) {
                        c.multiplier = q.multiplier;
                    }
                    Ok(c)
                } else {
                    let mut m = "no match for ".to_owned();
                    m.append(q.symbol.as_str());
                    m.append(" ");
                    m.append(show(&q.expiry).as_str());
                    m.append(" ");
                    m.append(strike);
                    m.append(" ");
                    m.append(
                        match q.right {
                            Right::Call => "Call",
                            Right::Put => "Put",
                        },
                    );
                    Err(BrokerError::ContractNotFound(m))
                }
            },
            Outcome::Replied(Err(e)) => Err(e),
            Outcome::Dropped => Err(reply_dropped("qualify_option")),
            Outcome::TimedOut => {
                self.pending_contract_details.remove(&req_id);
                Err(reply_late("qualify_option"))
            },
        }
    }

    /// The contracts that do not expire before a date.
    pub open spec fn unexpired(contracts: Seq<Contract>, min: Option<Date>) -> Seq<Contract> {
        match min {
            Some(d) => contracts.filter(|c: Contract| !c.expiry.earlier(d)),
            None => contracts,
        }
    }

    /// Ends the listing of a symbol's contracts: those received that do not
    /// expire before the query's date, in order.
    pub fn finish_list_chain(&mut self, req_id: i32, q: &ChainQuery, outcome: Outcome<Vec<Contract>>) -> (r: Result<
        Vec<Contract>,
        BrokerError,
    >)
        requires
            old(self).wf(),
        ensures
            final(self).wf(),
            BrokerState::contract_request_ended(*old(self), req_id, outcome is TimedOut, *final(self)),
            match outcome {
                Outcome::Replied(Ok(contracts)) => r matches Ok(v) && v@ == BrokerState::unexpired(
                    contracts@,
                    q.min_expiry,
                ),
                Outcome::Replied(Err(e)) => r == Err::<Vec<Contract>, BrokerError>(e),
                Outcome::Dropped => query_failed(r, "list_chain"@, false),
                Outcome::TimedOut => query_failed(r, "list_chain"@, true),
            },
    {
        match outcome {
            Outcome::Replied(Ok(contracts)) => match q.min_expiry {
                Some(min) => Ok(retain_from(&contracts, min)),
                None => Ok(contracts),
            },
            Outcome::Replied(Err(e)) => Err(e),
            Outcome::Dropped => Err(reply_dropped("list_chain")),
            Outcome::TimedOut => {
                self.pending_contract_details.remove(&req_id);
                Err(reply_late("list_chain"))
            },
        }
    }

    /// The contract fields that a subscription sends: those of its contract
    /// where one is given, under the subscription's own instrument.
    pub open spec fn subscribed_as(r: ContractRequest, sub: TickSubscription) -> bool {
        &&& r.con_id == sub.instrument_id.0 as i64
        &&& match sub.contract {
            Some(c) => requests_contract(ContractRequest { con_id: c.instrument_id.0 as i64, ..r }, c) && r.multiplier@ == (if
            c.multiplier.above_zero() {
                int_text(c.multiplier.clamped(u64::MAX as nat) as int)
            } else {
                Seq::<char>::empty()
            }) && r.trading_class == c.trading_class,
            None => bare_contract(ContractRequest { con_id: 0, ..r }, ""@, ""@),
        }
    }

    fn subscription_request(sub: &TickSubscription) -> (r: ContractRequest)
        requires
            sub.contract matches Some(c) ==> c.expiry.valid(),
        ensures
            BrokerState::subscribed_as(r, *sub),
    {
        let mut r = match &sub.contract {
            Some(c) => contract_to_request(c),
            None => empty_contract_request("", ""),
        };
        r.con_id = sub.instrument_id.0 as i64;
        r
    }

    /// Registers a tick subscription and returns its handle, its request id
    /// and the bytes to send. Ticks are routed before anything is sent.
    /// Besides quotes and trades, option volume and open interest are asked
    /// for.
    pub fn begin_subscribe_ticks(&mut self, sub: &TickSubscription) -> (out: (TickStreamHandle, i32, Vec<u8>))
        requires
            old(self).wf(),
            sub.contract matches Some(c) ==> c.expiry.valid(),
        ensures
            final(self).wf(),
            out.0.0 == old(self).next_handle as u64,
            out.1 == old(self).next_req_id,
            *final(self) == (BrokerState {
                tick_routes: final(self).tick_routes,
                tick_route_right: final(self).tick_route_right,
                handle_to_req_id: final(self).handle_to_req_id,
                next_req_id: next_id(old(self).next_req_id),
                next_handle: next_id(old(self).next_handle),
                ..*old(self)
            }),
            final(self).tick_routes@ == old(self).tick_routes@.insert(out.1, sub.instrument_id),
            final(self).tick_route_right@ == (match sub.contract {
                Some(c) => match c.right {
                    Some(right) => old(self).tick_route_right@.insert(out.1, right),
                    None => old(self).tick_route_right@,
                },
                None => old(self).tick_route_right@,
            }),
            final(self).handle_to_req_id@ == old(self).handle_to_req_id@.insert(out.0.0, out.1),
            exists|r: ContractRequest| #[trigger]
                BrokerState::subscribed_as(r, *sub) && out.2@ == frame_of(
                    market_data_fields(out.1, r, "100,101"@, false, false),
                ),
    {
        let id: i32 = self.alloc_req_id();
        let handle = self.alloc_handle();
        self.tick_routes.insert(id, sub.instrument_id);
        match &sub.contract {
            Some(c) => match c.right {
                Some(right) => {
                    self.tick_route_right.insert(id, right);
                },
                None => {},
            },
            None => {},
        }
        self.handle_to_req_id.insert(handle.0, id);
        let r = BrokerState::subscription_request(sub);
        let frame = req_mkt_data(id, &r, "100,101", false, false);
        (handle, id, frame)
    }

    /// Whether a tick subscription is gone, and all else as it was.
    pub open spec fn ticks_unrouted(pre: BrokerState, handle: u64, req_id: i32, post: BrokerState) -> bool {
        &&& post == (BrokerState {
            tick_routes: post.tick_routes,
            tick_route_right: post.tick_route_right,
            handle_to_req_id: post.handle_to_req_id,
            ..pre
        })
        &&& post.tick_routes@ == pre.tick_routes@.remove(req_id)
        &&& post.tick_route_right@ == pre.tick_route_right@.remove(req_id)
        &&& post.handle_to_req_id@ == pre.handle_to_req_id@.remove(handle)
    }

    /// Undoes a tick subscription whose bytes could not be sent.
    pub fn abandon_subscribe_ticks(&mut self, handle: TickStreamHandle, req_id: i32)
        requires
            old(self).wf(),
        ensures
            final(self).wf(),
            BrokerState::ticks_unrouted(*old(self), handle.0, req_id, *final(self)),
    {
        self.tick_routes.remove(&req_id);
        self.tick_route_right.remove(&req_id);
        self.handle_to_req_id.remove(&handle.0);
    }

    /// Ends a tick subscription. Returns the bytes to send, none where the
    /// handle is not known.
    pub fn unsubscribe_ticks(&mut self, h: TickStreamHandle) -> (r: Option<Vec<u8>>)
        requires
            old(self).wf(),
        ensures
            final(self).wf(),
            match lookup(old(self).handle_to_req_id@, h.0) {
                Some(id) => BrokerState::ticks_unrouted(*old(self), h.0, id, *final(self)) && (r matches Some(f) && f@
                    == frame_of(seq![int_text(2), "2"@, int_text(id as int)])),
                None => r is None && *final(self) == (BrokerState {
                    handle_to_req_id: final(self).handle_to_req_id,
                    ..*old(self)
                }) && final(self).handle_to_req_id@ == old(self).handle_to_req_id@,
            },
    {
        match self.handle_to_req_id.remove(&h.0) {
            Some(id) => {
                self.tick_routes.remove(&id);
                self.tick_route_right.remove(&id);
                Some(cancel_mkt_data(id))
            },
            None => {
                assert(self.handle_to_req_id@ =~= old(self).handle_to_req_id@);
                None
            },
        }
    }

    /// Registers a depth subscription and returns its handle, its request id
    /// and the contract fields to ask for.
    pub fn begin_subscribe_market_depth(&mut self, sub: &TickSubscription) -> (out: (TickStreamHandle, i32, ContractRequest))
        requires
            old(self).wf(),
            sub.contract matches Some(c) ==> c.expiry.valid(),
        ensures
            final(self).wf(),
            out.0.0 == old(self).next_handle as u64,
            out.1 == old(self).next_req_id,
            *final(self) == (BrokerState {
                depth_routes: final(self).depth_routes,
                handle_to_depth_req_id: final(self).handle_to_depth_req_id,
                next_req_id: next_id(old(self).next_req_id),
                next_handle: next_id(old(self).next_handle),
                ..*old(self)
            }),
            final(self).depth_routes@ == old(self).depth_routes@.insert(out.1, sub.instrument_id),
            final(self).handle_to_depth_req_id@ == old(self).handle_to_depth_req_id@.insert(out.0.0, out.1),
            BrokerState::subscribed_as(out.2, *sub),
    {
        let id: i32 = self.alloc_req_id();
        let handle = self.alloc_handle();
        self.depth_routes.insert(id, sub.instrument_id);
        self.handle_to_depth_req_id.insert(handle.0, id);
        let r = BrokerState::subscription_request(sub);
        (handle, id, r)
    }

    /// Whether a depth subscription is gone, and all else as it was.
    pub open spec fn depth_unrouted(pre: BrokerState, handle: u64, req_id: i32, post: BrokerState) -> bool {
        &&& post == (BrokerState {
            depth_routes: post.depth_routes,
            handle_to_depth_req_id: post.handle_to_depth_req_id,
            ..pre
        })
        &&& post.depth_routes@ == pre.depth_routes@.remove(req_id)
        &&& post.handle_to_depth_req_id@ == pre.handle_to_depth_req_id@.remove(handle)
    }

    /// Undoes a depth subscription whose bytes could not be sent.
    pub fn abandon_subscribe_market_depth(&mut self, handle: TickStreamHandle, req_id: i32)
        requires
            old(self).wf(),
        ensures
            final(self).wf(),
            BrokerState::depth_unrouted(*old(self), handle.0, req_id, *final(self)),
    {
        self.depth_routes.remove(&req_id);
        self.handle_to_depth_req_id.remove(&handle.0);
    }

    /// Ends a depth subscription. Returns the id of the request to cancel,
    /// none where the handle is not known.
    pub fn unsubscribe_market_depth(&mut self, h: TickStreamHandle) -> (r: Option<i32>)
        requires
            old(self).wf(),
        ensures
            final(self).wf(),
            r == lookup(old(self).handle_to_depth_req_id@, h.0),
            match r {
                Some(id) => BrokerState::depth_unrouted(*old(self), h.0, id, *final(self)),
                None => *final(self) == (BrokerState {
                    handle_to_depth_req_id: final(self).handle_to_depth_req_id,
                    ..*old(self)
                }) && final(self).handle_to_depth_req_id@ == old(self).handle_to_depth_req_id@,
            },
    {
        match self.handle_to_depth_req_id.remove(&h.0) {
            Some(id) => {
                self.depth_routes.remove(&id);
                Some(id)
            },
            None => {
                assert(self.handle_to_depth_req_id@ =~= old(self).handle_to_depth_req_id@);
                None
            },
        }
    }
}

/// The error that a disconnect answers a waiting call with.
fn disconnected(call: &str) -> (r: BrokerError)
    ensures
        r matches BrokerError::ConnectionLost(m) && m@ == "disconnect during pending "@ + call@,
{
    let mut m = "disconnect during pending ".to_owned();
    m.append(call);
    BrokerError::ConnectionLost(m)
}

/// Whether an event tells a waiting call that the connection was closed.
pub open spec fn closes<T>(r: Result<T, BrokerError>, call: Seq<char>) -> bool {
    r matches Err(BrokerError::ConnectionLost(m)) && m@ == "disconnect during pending "@ + call
}

/// Whether an event ends one of the calls that wait in `pre`.
pub open spec fn closes_waiter(pre: BrokerState, e: BrokerEvent) -> bool {
    match e {
        BrokerEvent::Contracts { req_id, result } => pre.pending_contract_details@.contains_key(req_id) && closes(
            result,
            "qualify"@,
        ),
        BrokerEvent::Executions { req_id, result } => pre.pending_executions@.contains_key(req_id) && closes(
            result,
            "executions"@,
        ),
        BrokerEvent::PlaceAck { order_id, result } => pre.pending_place_acks@.contains(order_id) && closes(
            result,
            "place_order ack"@,
        ),
        _ => false,
    }
}

impl BrokerState {
    /// Ends every call that waits, on a disconnect: each gets one reply,
    /// which says so, and nothing else is sent.
    pub fn drain_waiters(&mut self) -> (events: Vec<BrokerEvent>)
        requires
            old(self).wf(),
        ensures
            final(self).wf(),
            *final(self) == (BrokerState {
                pending_contract_details: final(self).pending_contract_details,
                pending_executions: final(self).pending_executions,
                pending_place_acks: final(self).pending_place_acks,
                ..*old(self)
            }),
            final(self).pending_contract_details@ == Map::<i32, Vec<ContractDetailsMsg>>::empty(),
            final(self).pending_executions@ == Map::<i32, Vec<Fill>>::empty(),
            final(self).pending_place_acks@ == Set::<i32>::empty(),
            events@.len() == old(self).pending_contract_details@.dom().len() + old(self).pending_executions@.dom().len()
                + old(self).pending_place_acks@.len(),
            forall|i: int| 0 <= i < events@.len() ==> closes_waiter(*old(self), #[trigger] events@[i]),
            forall|id: i32| #[trigger]
                old(self).pending_contract_details@.contains_key(id) ==> exists|i: int|
                    0 <= i < events@.len() && (#[trigger] events@[i] matches BrokerEvent::Contracts { req_id, .. } && req_id == id),
            forall|id: i32| #[trigger]
                old(self).pending_executions@.contains_key(id) ==> exists|i: int|
                    0 <= i < events@.len() && (#[trigger] events@[i] matches BrokerEvent::Executions { req_id, .. } && req_id
                        == id),
            forall|id: i32| #[trigger]
                old(self).pending_place_acks@.contains(id) ==> exists|i: int|
                    0 <= i < events@.len() && (#[trigger] events@[i] matches BrokerEvent::PlaceAck { order_id, .. } && order_id
                        == id),
    {
        let contracts = keys_of(&self.pending_contract_details);
        let executions = keys_of(&self.pending_executions);
        let orders = members_of(&self.pending_place_acks);
        let ghost pre = *self;
        let mut events: Vec<BrokerEvent> = Vec::new();
        let mut i: usize = 0;
        while i < contracts.len()
            invariant
                i <= contracts@.len(),
                contracts@.to_set() == pre.pending_contract_details@.dom(),
                events@.len() == i,
                forall|k: int| 0 <= k < events@.len() ==> closes_waiter(pre, #[trigger] events@[k]),
                forall|k: int|
                    0 <= k < i ==> (#[trigger] events@[k] matches BrokerEvent::Contracts { req_id, .. } && req_id
                        == contracts@[k]),
            decreases contracts@.len() - i,
        {
            assert(contracts@.to_set().contains(contracts@[i as int]));
            events.push(BrokerEvent::Contracts { req_id: contracts[i], result: Err(disconnected("qualify")) });
            i = i + 1;
        }
        let ghost n = contracts@.len() as int;
        let mut i: usize = 0;
        while i < executions.len()
            invariant
                i <= executions@.len(),
                n == contracts@.len(),
                executions@.to_set() == pre.pending_executions@.dom(),
                events@.len() == n + i,
                forall|k: int| 0 <= k < events@.len() ==> closes_waiter(pre, #[trigger] events@[k]),
                forall|k: int|
                    0 <= k < n ==> (#[trigger] events@[k] matches BrokerEvent::Contracts { req_id, .. } && req_id
                        == contracts@[k]),
                forall|k: int|
                    n <= k < n + i ==> (#[trigger] events@[k] matches BrokerEvent::Executions { req_id, .. } && req_id
                        == executions@[k - n]),
            decreases executions@.len() - i,
        {
            assert(executions@.to_set().contains(executions@[i as int]));
            events.push(BrokerEvent::Executions { req_id: executions[i], result: Err(disconnected("executions")) });
            i = i + 1;
        }
        let ghost m = n + executions@.len();
        let mut i: usize = 0;
        while i < orders.len()
            invariant
                i <= orders@.len(),
                n == contracts@.len(),
                m == n + executions@.len(),
                orders@.to_set() == pre.pending_place_acks@,
                events@.len() == m + i,
                forall|k: int| 0 <= k < events@.len() ==> closes_waiter(pre, #[trigger] events@[k]),
                forall|k: int|
                    0 <= k < n ==> (#[trigger] events@[k] matches BrokerEvent::Contracts { req_id, .. } && req_id
                        == contracts@[k]),
                forall|k: int|
                    n <= k < m ==> (#[trigger] events@[k] matches BrokerEvent::Executions { req_id, .. } && req_id
                        == executions@[k - n]),
                forall|k: int|
                    m <= k < m + i ==> (#[trigger] events@[k] matches BrokerEvent::PlaceAck { order_id, .. } && order_id
                        == orders@[k - m]),
            decreases orders@.len() - i,
        {
            assert(orders@.to_set().contains(orders@[i as int]));
            events.push(BrokerEvent::PlaceAck { order_id: orders[i], result: Err(disconnected("place_order ack")) });
            i = i + 1;
        }
        self.pending_contract_details.clear();
        self.pending_executions.clear();
        self.pending_place_acks.clear();
        proof {
            assert forall|id: i32| #[trigger] pre.pending_contract_details@.contains_key(id) implies exists|i: int|
                0 <= i < events@.len() && (#[trigger] events@[i] matches BrokerEvent::Contracts { req_id, .. } && req_id == id) by {
                assert(contracts@.to_set().contains(id));
                let k = choose|k: int| 0 <= k < contracts@.len() && contracts@[k] == id;
                assert(events@[k] matches BrokerEvent::Contracts { req_id, .. } && req_id == id);
            }
            assert forall|id: i32| #[trigger] pre.pending_executions@.contains_key(id) implies exists|i: int|
                0 <= i < events@.len() && (#[trigger] events@[i] matches BrokerEvent::Executions { req_id, .. } && req_id
                    == id) by {
                assert(executions@.to_set().contains(id));
                let k = choose|k: int| 0 <= k < executions@.len() && executions@[k] == id;
                assert(events@[n + k] matches BrokerEvent::Executions { req_id, .. } && req_id == id);
            }
            assert forall|id: i32| #[trigger] pre.pending_place_acks@.contains(id) implies exists|i: int|
                0 <= i < events@.len() && (#[trigger] events@[i] matches BrokerEvent::PlaceAck { order_id, .. } && order_id
                    == id) by {
                assert(orders@.to_set().contains(id));
                let k = choose|k: int| 0 <= k < orders@.len() && orders@[k] == id;
                assert(events@[m + k] matches BrokerEvent::PlaceAck { order_id, .. } && order_id == id);
            }
        }
        events
    }

    /// How often each size tick type was received since the last call, by
    /// ascending type. The counts start over.
    pub fn take_tick_type_hist(&mut self) -> (r: Vec<(i32, u64)>)
        requires
            old(self).wf(),
        ensures
            final(self).wf(),
            *final(self) == (BrokerState { tick_type_hist: final(self).tick_type_hist, ..*old(self) }),
            final(self).tick_type_hist@ == Map::<i32, u64>::empty(),
            r@.len() == old(self).tick_type_hist@.dom().len(),
            forall|i: int, j: int| 0 <= i < j < r@.len() ==> r@[i].0 < r@[j].0,
            forall|i: int|
                0 <= i < r@.len() ==> lookup(old(self).tick_type_hist@, (#[trigger] r@[i]).0) == Some(r@[i].1),
    {
        let keys = keys_of(&self.tick_type_hist);
        let ghost hist = self.tick_type_hist@;
        let mut out: Vec<(i32, u64)> = Vec::new();
        let mut i: usize = 0;
        while i < keys.len()
            invariant
                i <= keys@.len(),
                hist == self.tick_type_hist@,
                keys@.to_set() == hist.dom(),
                keys@.no_duplicates(),
                out@.len() == i,
                forall|a: int, b: int| 0 <= a < b < out@.len() ==> out@[a].0 < out@[b].0,
                forall|a: int| 0 <= a < out@.len() ==> lookup(hist, (#[trigger] out@[a]).0) == Some(out@[a].1),
                forall|a: int| 0 <= a < out@.len() ==> keys@.take(i as int).contains((#[trigger] out@[a]).0),
            decreases keys@.len() - i,
        {
            let k: i32 = keys[i];
            assert(keys@.to_set().contains(k));
            let count: u64 = match self.tick_type_hist.get(&k) {
                Some(n) => *n,
                None => 0,
            };
            let mut at: usize = 0;
            while at < out.len() && out[at].0 < k
                invariant
                    at <= out@.len(),
                    forall|a: int| 0 <= a < at ==> (#[trigger] out@[a]).0 < k,
                decreases out@.len() - at,
            {
                at = at + 1;
            }
            proof {
                assert forall|a: int| at <= a < out@.len() implies k < (#[trigger] out@[a]).0 by {
                    let b = choose|b: int| 0 <= b < i && keys@.take(i as int)[b] == out@[a].0;
                    assert(keys@[b] != keys@[i as int]);
                    if at < a {
                        assert(out@[at as int].0 < out@[a].0);
                    }
                }
            }
            let ghost before = out@;
            out.insert(at, (k, count));
            proof {
                assert forall|a: int| 0 <= a < out@.len() implies keys@.take(i + 1).contains((#[trigger] out@[a]).0) by {
                    if a == at {
                        assert(keys@.take(i + 1)[i as int] == k);
                    } else {
                        let c = if a < at { a } else { a - 1 };
                        assert(out@[a] == before[c]);
                        let b = choose|b: int| 0 <= b < i && keys@.take(i as int)[b] == before[c].0;
                        assert(keys@.take(i + 1)[b] == before[c].0);
                    }
                }
                assert forall|a: int| 0 <= a < out@.len() implies lookup(hist, (#[trigger] out@[a]).0) == Some(out@[a].1) by {
                    if a != at {
                        let c = if a < at { a } else { a - 1 };
                        assert(out@[a] == before[c]);
                    }
                }
                assert forall|a: int, b: int| 0 <= a < b < out@.len() implies out@[a].0 < out@[b].0 by {
                    let c = if a < at { a } else { a - 1 };
                    let d = if b < at { b } else { b - 1 };
                    if a != at && b != at {
                        assert(out@[a] == before[c] && out@[b] == before[d]);
                    }
                }
            }
            i = i + 1;
        }
        self.tick_type_hist.clear();
        out
    }
}

/// The members of a set, in no particular order.
fn members_of(m: &std::collections::HashSet<i32>) -> (r: Vec<i32>)
    ensures
        r@.no_duplicates(),
        r@.to_set() == m@,
        r@.len() == m@.len(),
{
    let mut out: Vec<i32> = Vec::new();
    for k in it: m.iter()
        invariant
            it.seq() == vstd::std_specs::iter::IteratorSpec::remaining(&vstd::std_specs::hash::spec_hash_keys_iter(m)),
            out@ =~= it.seq().unref().take(it.index()),
    {
        out.push(*k);
    }
    proof {
        let s = vstd::std_specs::iter::IteratorSpec::remaining(&vstd::std_specs::hash::spec_hash_keys_iter(m));
        assert(out@ =~= s.unref());
        assert(s.no_duplicates());
    }
    out
}

/// An order's waiter is answered at most once: where a message answers it, it
/// was waiting before and is not waiting after.
pub proof fn law_ack_answers_once(
    pre: BrokerState,
    msg: crate::types::InboundMsg,
    now: u64,
    recv_ns: u64,
    post: BrokerState,
    events: Seq<BrokerEvent>,
    i: int,
)
    requires
        BrokerState::routed(pre, msg, now, recv_ns, post, events),
        0 <= i < events.len(),
        events[i] is PlaceAck,
    ensures
        pre.pending_place_acks@.contains(events[i]->order_id),
        !post.pending_place_acks@.contains(events[i]->order_id),
        forall|j: int| 0 <= j < events.len() && j != i ==> !(#[trigger] events[j] is PlaceAck),
{
    match msg {
        crate::types::InboundMsg::Error(e) => {
            let n = events.len() as int;
            assert(i < n - 1);
            assert(events.drop_last()[i] == events[i]);
            assert forall|j: int| 0 <= j < n && j != i implies !(#[trigger] events[j] is PlaceAck) by {
                if j < n - 1 {
                    assert(events.drop_last()[j] == events[j]);
                }
            }
        },
        _ => {},
    }
}

/// A message from the gateway registers nothing: no call starts to wait and
/// no subscription appears because of it.
pub proof fn law_route_registers_nothing(
    pre: BrokerState,
    msg: crate::types::InboundMsg,
    now: u64,
    recv_ns: u64,
    post: BrokerState,
    events: Seq<BrokerEvent>,
)
    requires
        BrokerState::routed(pre, msg, now, recv_ns, post, events),
    ensures
        post.pending_place_acks@.subset_of(pre.pending_place_acks@),
        post.pending_executions@.dom().subset_of(pre.pending_executions@.dom()),
        post.pending_contract_details@.dom().subset_of(pre.pending_contract_details@.dom()),
        post.tick_routes == pre.tick_routes,
        post.tick_route_right == pre.tick_route_right,
        post.depth_routes == pre.depth_routes,
        post.handle_to_req_id == pre.handle_to_req_id,
        post.handle_to_depth_req_id == pre.handle_to_depth_req_id,
        post.wire_send_ns == pre.wire_send_ns,
        post.expected_amend_prices == pre.expected_amend_prices,
        post.place_templates == pre.place_templates,
{
}

/// The first acknowledgement's time stands: a later message does not move it.
pub proof fn law_first_ack_time_stands(
    pre: BrokerState,
    msg: crate::types::InboundMsg,
    now: u64,
    recv_ns: u64,
    post: BrokerState,
    events: Seq<BrokerEvent>,
    id: i32,
)
    requires
        BrokerState::routed(pre, msg, now, recv_ns, post, events),
        pre.wire_ack_ns@.contains_key(id),
    ensures
        post.wire_ack_ns@.contains_key(id),
        post.wire_ack_ns@[id] == pre.wire_ack_ns@[id],
        pre.strict_ack_ns@.contains_key(id) ==> post.strict_ack_ns@.contains_key(id) && post.strict_ack_ns@[id]
            == pre.strict_ack_ns@[id],
{
}

/// Ending a subscription undoes it: the routes are as they were before it was
/// made, provided its request id and handle were unused.
pub proof fn law_unsubscribe_undoes_subscribe(
    pre: BrokerState,
    handle: u64,
    req_id: i32,
    instrument: InstrumentId,
    mid: BrokerState,
    post: BrokerState,
)
    requires
        !pre.tick_routes@.contains_key(req_id),
        !pre.tick_route_right@.contains_key(req_id),
        !pre.handle_to_req_id@.contains_key(handle),
        mid.tick_routes@ == pre.tick_routes@.insert(req_id, instrument),
        mid.tick_route_right@ == pre.tick_route_right@ || exists|r: Right| #[trigger]
            pre.tick_route_right@.insert(req_id, r) == mid.tick_route_right@,
        mid.handle_to_req_id@ == pre.handle_to_req_id@.insert(handle, req_id),
        BrokerState::ticks_unrouted(mid, handle, req_id, post),
    ensures
        post.tick_routes@ == pre.tick_routes@,
        post.tick_route_right@ == pre.tick_route_right@,
        post.handle_to_req_id@ == pre.handle_to_req_id@,
{
    assert(post.tick_routes@ =~= pre.tick_routes@);
    assert(post.tick_route_right@ =~= pre.tick_route_right@);
    assert(post.handle_to_req_id@ =~= pre.handle_to_req_id@);
}

/// The id after this one.
pub open spec fn next_id(id: i32) -> i32 {
    if id == i32::MAX {
        i32::MIN
    } else {
        (id + 1) as i32
    }
}

/// The contracts that do not expire before a date.
fn retain_from(contracts: &Vec<Contract>, min: Date) -> (r: Vec<Contract>)
    ensures
        r@ == contracts@.filter(|c: Contract| !c.expiry.earlier(min)),
{
    let ghost keep = |c: Contract| !c.expiry.earlier(min);
    let mut out: Vec<Contract> = Vec::new();
    let mut i: usize = 0;
    proof {
        reveal(Seq::filter);
        assert(contracts@.take(0).filter(keep) =~= Seq::<Contract>::empty());
    }
    while i < contracts.len()
        invariant
            i <= contracts.len(),
            keep == (|c: Contract| !c.expiry.earlier(min)),
            out@ == contracts@.take(i as int).filter(keep),
        decreases contracts.len() - i,
    {
        if !contracts[i].expiry.is_before(&min) {
            out.push(contracts[i].clone());
        }
        proof {
            let head = contracts@.take(i as int);
            assert(contracts@.take(i + 1) =~= head.push(contracts@[i as int]));
            assert(head.push(contracts@[i as int]).drop_last() =~= head);
            reveal(Seq::filter);
        }
        i = i + 1;
    }
    assert(contracts@.take(i as int) =~= contracts@);
    out
}

/// A query by symbol says what is looked for, each thing in its place.
pub proof fn law_query_says_what_is_looked_for(
    req_id: i32,
    symbol: Seq<char>,
    sec_type: Seq<char>,
    last_trade_date: Seq<char>,
    strike: Seq<char>,
    right: Seq<char>,
    exchange: Seq<char>,
    currency: Seq<char>,
    trading_class: Seq<char>,
)
    ensures
        ({
            let f = BrokerState::symbol_query_fields(
                req_id,
                symbol,
                sec_type,
                last_trade_date,
                strike,
                right,
                exchange,
                currency,
                trading_class,
            );
            &&& f.len() == 19
            &&& int_value(f[0]) == Some(9int)
            &&& int_value(f[2]) == Some(req_id as int)
            &&& int_value(f[3]) == Some(0int)
            &&& f[4] == symbol && f[5] == sec_type && f[6] == last_trade_date && f[7] == strike && f[8] == right
            &&& f[10] == exchange && f[12] == currency && f[14] == trading_class
        }),
{
    law_int_text_round_trip(9);
    law_int_text_round_trip(0);
    law_int_text_round_trip(req_id as int);
}

/// A chain of options is asked for as such; any other is one of futures.
pub proof fn law_chains_are_of_their_kind(kind: Option<ContractKind>)
    ensures
        kind == Some(ContractKind::Option) ==> BrokerState::chain_sec_type(kind) == "FOP"@,
        kind != Some(ContractKind::Option) ==> BrokerState::chain_sec_type(kind) == "FUT"@,
{
}

/// Executions are asked for from a moment on, or all of them.
pub proof fn law_executions_are_asked_for_from_a_moment(d: Date, second: int, since_ns: u64)
    requires
        d.valid(),
        0 <= second < 86400,
        since_ns as int / 1_000_000_000 == day_number(d) * 86400 + second,
        since_ns > 0,
    ensures
        BrokerState::since_text(0) == Seq::<char>::empty(),
        BrokerState::since_text(since_ns) == date_text(d.year as int, d.month as int, d.day as int) + "-"@ + clock_text(
            second,
        ),
{
    law_instants_are_written_out(d, second);
    reveal_strlit("");
    let t = date_text(d.year as int, d.month as int, d.day as int) + "-"@ + clock_text(second);
    assert(t + ""@ =~= t);
}

/// An order that is sent waits for its answer from then on, and what else
/// waits goes on waiting.
pub proof fn law_sent_orders_wait(pre: BrokerState, order_id: i32, c: Contract, now: u64, post: BrokerState)
    requires
        BrokerState::place_begun(pre, order_id, c, now, post),
    ensures
        post.pending_place_acks@.contains(order_id),
        forall|id: i32| #[trigger] pre.pending_place_acks@.contains(id) ==> post.pending_place_acks@.contains(id),
        forall|id: i32| id != order_id && #[trigger] post.pending_place_acks@.contains(id) ==> pre.pending_place_acks@.contains(id),
        post.wire_send_ns@.contains_pair(order_id, now),
        forall|id: i32| id != order_id && #[trigger] pre.wire_send_ns@.contains_key(id) ==> post.wire_send_ns@.contains_pair(
            id,
            pre.wire_send_ns@[id],
        ),
        post.open_orders == pre.open_orders,
        post.positions == pre.positions,
        post.expected_amend_prices == pre.expected_amend_prices,
{
}

/// A change that is sent waits for its answer, and for its price to be
/// confirmed.
pub proof fn law_sent_changes_wait(pre: BrokerState, id: i32, sent: PlaceOrderReq, now: u64, post: BrokerState)
    requires
        BrokerState::modify_begun(pre, id, sent, now, post),
    ensures
        post.pending_place_acks@.contains(id),
        post.wire_send_ns@.contains_pair(id, now),
        sent.price matches Some(p) ==> post.expected_amend_prices@.contains_pair(id, p.value),
        forall|other: i32| other != id && #[trigger] pre.expected_amend_prices@.contains_key(other)
            ==> post.expected_amend_prices@.contains_pair(other, pre.expected_amend_prices@[other]),
        post.open_orders == pre.open_orders,
        post.positions == pre.positions,
{
}

/// A contract is spelt out once and the same from then on: by its own fields
/// where it was not spelt out before.
pub proof fn law_contracts_are_spelt_once(pre: BrokerState, c: Contract, post: BrokerState)
    requires
        template_kept(pre, c, post),
    ensures
        template_bytes(post, c) == template_bytes(pre, c),
        !pre.place_templates@.contains_key(c.instrument_id.0) ==> template_bytes(post, c) == payload(
            order_contract_fields(c),
        ),
        forall|other: u64| other != c.instrument_id.0 && #[trigger] pre.place_templates@.contains_key(other)
            ==> post.place_templates@.contains_key(other) && post.place_templates@[other] == pre.place_templates@[other],
{
}

/// An order that is not waited for any more leaves nothing behind, and no
/// other order is touched.
pub proof fn law_given_up_orders_leave_nothing(pre: BrokerState, id: i32, post: BrokerState)
    requires
        BrokerState::wait_forgotten(pre, id, post),
    ensures
        !post.pending_place_acks@.contains(id),
        !post.wire_send_ns@.contains_key(id) && !post.wire_ack_ns@.contains_key(id),
        !post.expected_amend_prices@.contains_key(id) && !post.strict_ack_ns@.contains_key(id),
        forall|other: i32| other != id ==> (#[trigger] post.pending_place_acks@.contains(other)
            <==> pre.pending_place_acks@.contains(other)),
        forall|other: i32| other != id && #[trigger] pre.wire_send_ns@.contains_key(other)
            ==> post.wire_send_ns@.contains_pair(other, pre.wire_send_ns@[other]),
        post.open_orders == pre.open_orders,
{
}

/// A request for contracts starts with none, under an id of its own.
pub proof fn law_requests_start_empty(pre: BrokerState, req_id: i32, post: BrokerState)
    requires
        BrokerState::contract_request_begun(pre, req_id, post),
    ensures
        req_id == pre.next_req_id,
        post.next_req_id != req_id,
        pre.next_req_id < i32::MAX ==> post.next_req_id == pre.next_req_id + 1,
        post.pending_contract_details@.contains_key(req_id),
        post.pending_contract_details@[req_id]@.len() == 0,
        forall|other: i32| other != req_id && #[trigger] pre.pending_contract_details@.contains_key(other)
            ==> post.pending_contract_details@.contains_pair(other, pre.pending_contract_details@[other]),
{
}

/// A request that was not answered in time is dropped, and no other.
pub proof fn law_late_requests_are_dropped(pre: BrokerState, req_id: i32, timed_out: bool, post: BrokerState)
    requires
        BrokerState::contract_request_ended(pre, req_id, timed_out, post),
    ensures
        timed_out ==> !post.pending_contract_details@.contains_key(req_id),
        !timed_out ==> post.pending_contract_details@ == pre.pending_contract_details@,
        forall|other: i32| other != req_id && #[trigger] pre.pending_contract_details@.contains_key(other)
            ==> post.pending_contract_details@.contains_pair(other, pre.pending_contract_details@[other]),
{
}

/// A subscription is for the instrument that it names and for its contract,
/// with the right that it has.
pub proof fn law_subscriptions_name_their_contract(r: ContractRequest, sub: TickSubscription)
    requires
        BrokerState::subscribed_as(r, sub),
    ensures
        sub.instrument_id.0 <= i64::MAX ==> r.con_id == sub.instrument_id.0,
        sub.contract matches Some(c) ==> {
            &&& r.symbol@ == c.symbol@
            &&& r.right@ == "C"@ <==> c.right == Some(Right::Call)
            &&& r.right@ == "P"@ <==> c.right == Some(Right::Put)
            &&& r.sec_type@ == "FUT"@ <==> c.kind is Future
            &&& r.trading_class@ == c.trading_class@
            &&& c.strike matches Some(s) ==> r.strike@ == s.text@
        },
        sub.contract is None ==> r.symbol@.len() == 0 && r.sec_type@.len() == 0 && r.right@.len() == 0,
{
    reveal_strlit("");
    if sub.contract is Some {
        let c = sub.contract->0;
        law_contract_is_asked_for_as_it_is(ContractRequest { con_id: c.instrument_id.0 as i64, ..r }, c);
    }
}

/// Ending a depth subscription ends its routes, and no other's.
pub proof fn law_ended_depth_is_unrouted(pre: BrokerState, handle: u64, req_id: i32, post: BrokerState)
    requires
        BrokerState::depth_unrouted(pre, handle, req_id, post),
    ensures
        !post.depth_routes@.contains_key(req_id),
        !post.handle_to_depth_req_id@.contains_key(handle),
        forall|other: i32| other != req_id && #[trigger] pre.depth_routes@.contains_key(other)
            ==> post.depth_routes@.contains_pair(other, pre.depth_routes@[other]),
        post.tick_routes == pre.tick_routes,
{
}

/// Whoever waits when the connection ends learns that it was lost, and no one
/// is told of a success.
pub proof fn law_waiters_learn_of_the_loss(pre: BrokerState, e: BrokerEvent)
    requires
        closes_waiter(pre, e),
    ensures
        match e {
            BrokerEvent::PlaceAck { order_id, result } => pre.pending_place_acks@.contains(order_id) && (result matches Err(
                BrokerError::ConnectionLost(_),
            )),
            BrokerEvent::Contracts { req_id, result } => pre.pending_contract_details@.contains_key(req_id) && (
            result matches Err(BrokerError::ConnectionLost(_))),
            BrokerEvent::Executions { req_id, result } => pre.pending_executions@.contains_key(req_id) && (
            result matches Err(BrokerError::ConnectionLost(_))),
            _ => false,
        },
{
}

/// Of a chain the contracts are kept, in order, that do not expire before the
/// day asked for.
pub proof fn law_expired_contracts_are_dropped(contracts: Seq<Contract>, min: Date, c: Contract)
    requires
        c.expiry.valid(),
        min.valid(),
    ensures
        BrokerState::unexpired(contracts, Some(min)).contains(c) <==> contracts.contains(c) && day_number(min) <= day_number(
            c.expiry,
        ),
        BrokerState::unexpired(contracts, None) == contracts,
{
    broadcast use vstd::seq_lib::group_filter_ensures;
    broadcast use Seq::lemma_filter_contains_rev;

    if c.expiry.earlier(min) {
        law_days_follow_dates(c.expiry, min);
    } else if c.expiry != min {
        law_days_follow_dates(min, c.expiry);
    }
    let kept = BrokerState::unexpired(contracts, Some(min));
    if kept.contains(c) {
        let k = kept.index_of(c);
        assert(!kept[k].expiry.earlier(min));
    }
    if contracts.contains(c) && !c.expiry.earlier(min) {
        let k = contracts.index_of(c);
        assert(kept.contains(contracts[k]));
    }
}

} // verus!
