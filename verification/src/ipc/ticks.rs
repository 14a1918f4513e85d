//! From broker ticks to trader events.
//!
//! The gateway reports a bid, an ask or a size at a time; the trader wants
//! them together. A [`TickCache`] remembers what was last sent per option.

use crate::api::{Right, Tick, TickKind};
use crate::dates::{date_text, format_yyyymmdd};
use crate::double::{nano_double, Double};
use crate::ipc::events::{right_name, right_text};
use crate::ipc::tick_wire::{
    common_fields, law_tick_reads_back, real_value, tick_bytes, tick_fields, unpack_fields, with_depth, TickEvent,
};
use crate::market_data::option_state::{DepthLevel, OptionTick};
use crate::market_data::state::MarketDataState;
use std::collections::HashMap;
use vstd::prelude::*;
use vstd::string::*;
use vstd::utf8::*;

verus! {

broadcast use vstd::std_specs::hash::group_hash_axioms;

/// What the trader was last told of an option.
#[derive(Debug)]
pub struct ConsolidatedTick {
    pub expiry: String,
    pub right: Right,
    pub strike: Double,
    pub bid: Option<Double>,
    pub ask: Option<Double>,
    pub bid_size: Option<i32>,
    pub ask_size: Option<i32>,
}

impl Clone for ConsolidatedTick {
    fn clone(&self) -> (r: ConsolidatedTick)
        ensures
            r == *self,
    {
        ConsolidatedTick {
            expiry: self.expiry.clone(),
            right: self.right,
            strike: self.strike,
            bid: self.bid,
            ask: self.ask,
            bid_size: self.bid_size,
            ask_size: self.ask_size,
        }
    }
}

/// What is sent to the trader for a tick.
#[derive(Debug)]
pub enum TickOut {
    /// The underlying's price.
    Underlying { price: Double, ts_ns: u64 },
    /// An option's quotes and the top of its depth book.
    Quote(TickEvent),
}

/// What the trader was last told, per instrument.
pub struct TickCache {
    pub entries: HashMap<u64, ConsolidatedTick>,
}

/// A tick's size cut to 32 bits.
pub open spec fn tick_size(t: Tick) -> Option<i32> {
    match t.size {
        Some(s) => Some(s as i32),
        None => None,
    }
}

fn seed_size(s: u64) -> (r: Option<i32>)
    ensures
        r == positive_size(s),
{
    if s > 0 {
        Some(s as i32)
    } else {
        None
    }
}

fn size_of(t: &Tick) -> (r: Option<i32>)
    ensures
        r == tick_size(*t),
{
    match t.size {
        Some(s) => Some(s as i32),
        None => None,
    }
}

/// A quote with one tick applied.
pub open spec fn with_tick(q: ConsolidatedTick, t: Tick) -> ConsolidatedTick {
    match t.kind {
        TickKind::Bid => ConsolidatedTick { bid: t.price, ..q },
        TickKind::Ask => ConsolidatedTick { ask: t.price, ..q },
        TickKind::BidSize => ConsolidatedTick { bid_size: tick_size(t), ..q },
        TickKind::AskSize => ConsolidatedTick { ask_size: tick_size(t), ..q },
        _ => q,
    }
}

/// Whether the trader reads ticks of this kind for options.
pub open spec fn quoted_kind(k: TickKind) -> bool {
    k == TickKind::Bid || k == TickKind::Ask || k == TickKind::BidSize || k == TickKind::AskSize
}

/// Whether ticks of this kind carry a price of an underlying.
pub open spec fn priced_kind(k: TickKind) -> bool {
    k == TickKind::Bid || k == TickKind::Ask || k == TickKind::Last
}

/// A positive price as a double, or none.
pub open spec fn positive_price(p: i64) -> Option<Double> {
    if p > 0 {
        Some(nano_double(p))
    } else {
        None
    }
}

fn seed_price(p: i64) -> (r: Option<Double>)
    ensures
        r == positive_price(p),
{
    if p > 0 {
        Some(Double::from_nanos(p))
    } else {
        None
    }
}

/// A positive size cut to 32 bits, or none.
pub open spec fn positive_size(s: u64) -> Option<i32> {
    if s > 0 {
        Some(s as i32)
    } else {
        None
    }
}

/// Whether `q` is the first quote of an option: its contract and, where
/// `seeded`, the quotes that the book already holds, so that the trader does
/// not see an empty book after a restart.
pub open spec fn first_quote(q: ConsolidatedTick, o: OptionTick, seeded: bool) -> bool {
    &&& q.expiry@ == date_text(o.expiry.year as int, o.expiry.month as int, o.expiry.day as int)
    &&& q.right == o.right
    &&& q.strike == nano_double(o.strike)
    &&& if seeded {
        &&& q.bid == positive_price(o.bid)
        &&& q.ask == positive_price(o.ask)
        &&& q.bid_size == positive_size(o.bid_size)
        &&& q.ask_size == positive_size(o.ask_size)
    } else {
        q.bid is None && q.ask is None && q.bid_size is None && q.ask_size is None
    }
}

/// The price of a level of a book, if it has that many.
pub open spec fn level_price(book: Seq<DepthLevel>, i: int) -> Option<Double> {
    if i < book.len() {
        Some(nano_double(book[i].price))
    } else {
        None
    }
}

fn price_at(book: &Vec<DepthLevel>, i: usize) -> (r: Option<Double>)
    ensures
        r == level_price(book@, i as int),
{
    if i < book.len() {
        Some(Double::from_nanos(book[i].price))
    } else {
        None
    }
}

/// Whether an event shows a quote, with the time of the tick that changed it
/// and the top of the option's depth book.
pub open spec fn shows(ev: TickEvent, q: ConsolidatedTick, t: Tick, o: OptionTick) -> bool {
    &&& ev.ty@ == "tick"@
    &&& ev.strike == q.strike
    &&& ev.expiry@ == q.expiry@
    &&& ev.right@ == right_text(q.right)
    &&& ev.bid == q.bid
    &&& ev.ask == q.ask
    &&& ev.bid_size == q.bid_size
    &&& ev.ask_size == q.ask_size
    &&& ev.ts_ns == t.timestamp_ns
    &&& ev.broker_recv_ns == t.timestamp_ns
    &&& ev.depth_bid_0 == level_price(o.depth.bids@, 0)
    &&& ev.depth_bid_1 == level_price(o.depth.bids@, 1)
    &&& ev.depth_ask_0 == level_price(o.depth.asks@, 0)
    &&& ev.depth_ask_1 == level_price(o.depth.asks@, 1)
}

impl TickCache {
    /// Nothing was sent yet.
    pub fn new() -> (r: TickCache)
        ensures
            r.entries@ == Map::<u64, ConsolidatedTick>::empty(),
    {
        TickCache { entries: HashMap::new() }
    }

    /// What a tick leads to: for an underlying its price, where the tick
    /// carries a positive one; for an option its quotes with the tick
    /// applied, which are remembered; for any other instrument or kind
    /// nothing.
    pub open spec fn published(
        pre: TickCache,
        md: MarketDataState,
        t: Tick,
        seeded: bool,
        post: TickCache,
        out: Option<TickOut>,
    ) -> bool {
        let id = t.instrument_id.0;
        if md.underlying_instruments@.contains_key(id) {
            &&& post == pre
            &&& if priced_kind(t.kind) && (t.price matches Some(p) && p.above_zero()) {
                out == Some(TickOut::Underlying { price: t.price->0, ts_ns: t.timestamp_ns })
            } else {
                out is None
            }
        } else if !quoted_kind(t.kind) || !md.by_instrument@.contains_key(id) {
            post == pre && out is None
        } else {
            let o = md.tick_of(t.instrument_id);
            &&& post.entries@.contains_key(id)
            &&& post.entries@ == pre.entries@.insert(id, post.entries@[id])
            &&& if pre.entries@.contains_key(id) {
                post.entries@[id] == with_tick(pre.entries@[id], t)
            } else {
                exists|q: ConsolidatedTick| #[trigger] first_quote(q, o, seeded) && post.entries@[id] == with_tick(q, t)
            }
            &&& out matches Some(TickOut::Quote(ev)) && shows(ev, post.entries@[id], t, o)
        }
    }

    /// Takes a tick and returns what to send to the trader.
    pub fn publish(&mut self, md: &MarketDataState, t: &Tick, seeded: bool) -> (out: Option<TickOut>)
        requires
            md.wf(),
        ensures
            TickCache::published(*old(self), *md, *t, seeded, *final(self), out),
    {
        let id: u64 = t.instrument_id.0;
        if md.underlying_instruments.contains_key(&id) {
            let priced = match t.kind {
                TickKind::Bid | TickKind::Ask | TickKind::Last => true,
                _ => false,
            };
            if !priced {
                return None;
            }
            return match t.price {
                Some(p) => if p.is_positive() {
                    Some(TickOut::Underlying { price: p, ts_ns: t.timestamp_ns })
                } else {
                    None
                },
                None => None,
            };
        }
        let quoted = match t.kind {
            TickKind::Bid | TickKind::Ask | TickKind::BidSize | TickKind::AskSize => true,
            _ => false,
        };
        if !quoted {
            return None;
        }
        let o = match md.option_by_iid(t.instrument_id) {
            Some(o) => o,
            None => {
                return None;
            },
        };
        let mut q = match self.entries.get(&id) {
            Some(q) => q.clone(),
            None => {
                let q = ConsolidatedTick {
                    expiry: format_yyyymmdd(&o.expiry),
                    right: o.right,
                    strike: Double::from_nanos(o.strike),
                    bid: if seeded {
                        seed_price(o.bid)
                    } else {
                        None
                    },
                    ask: if seeded {
                        seed_price(o.ask)
                    } else {
                        None
                    },
                    bid_size: if seeded {
                        seed_size(o.bid_size)
                    } else {
                        None
                    },
                    ask_size: if seeded {
                        seed_size(o.ask_size)
                    } else {
                        None
                    },
                };
                assert(first_quote(q, *o, seeded));
                q
            },
        };
        match t.kind {
            TickKind::Bid => {
                q.bid = t.price;
            },
            TickKind::Ask => {
                q.ask = t.price;
            },
            TickKind::BidSize => {
                q.bid_size = size_of(t);
            },
            TickKind::AskSize => {
                q.ask_size = size_of(t);
            },
            _ => {},
        }
        let event = TickEvent {
            ty: "tick".to_owned(),
            strike: q.strike,
            expiry: q.expiry.clone(),
            right: right_name(q.right).to_owned(),
            bid: q.bid,
            ask: q.ask,
            bid_size: q.bid_size,
            ask_size: q.ask_size,
            ts_ns: t.timestamp_ns,
            broker_recv_ns: t.timestamp_ns,
            depth_bid_0: price_at(&o.depth.bids, 0),
            depth_bid_1: price_at(&o.depth.bids, 1),
            depth_ask_0: price_at(&o.depth.asks, 0),
            depth_ask_1: price_at(&o.depth.asks, 1),
        };
        assert(shows(event, q, *t, *o));
        self.entries.insert(id, q);
        Some(TickOut::Quote(event))
    }
}

/// A tick of one side leaves the other side as it was last sent.
pub proof fn law_tick_keeps_other_side(q: ConsolidatedTick, t: Tick)
    ensures
        t.kind == TickKind::Bid ==> with_tick(q, t).ask == q.ask && with_tick(q, t).ask_size == q.ask_size,
        t.kind == TickKind::Ask ==> with_tick(q, t).bid == q.bid && with_tick(q, t).bid_size == q.bid_size,
        t.kind == TickKind::BidSize ==> with_tick(q, t).bid == q.bid && with_tick(q, t).ask == q.ask,
        t.kind == TickKind::AskSize ==> with_tick(q, t).bid == q.bid && with_tick(q, t).ask == q.ask,
        with_tick(q, t).expiry == q.expiry,
        with_tick(q, t).strike == q.strike,
        with_tick(q, t).right == q.right,
{
}

/// What the trader reads is what the tick said: a bid travels bit for bit,
/// from the tick to the bytes of the event.
pub proof fn law_trader_reads_the_bid(ev: TickEvent, q: ConsolidatedTick, t: Tick, o: OptionTick)
    requires
        t.kind == TickKind::Bid,
        shows(ev, with_tick(q, t), t, o),
        encode_utf8(ev.ty@).len() < 0x1_0000_0000,
        encode_utf8(ev.expiry@).len() < 0x1_0000_0000,
        encode_utf8(ev.right@).len() < 0x1_0000_0000,
    ensures
        ({
            let fields = tick_fields(ev);
            &&& unpack_fields(tick_bytes(ev).skip(1), fields.len()) == Some((fields, Seq::<u8>::empty()))
            &&& fields[4] == (encode_utf8("bid"@), real_value(t.price))
        }),
{
    law_tick_reads_back(ev);
    let f0 = common_fields(ev);
    assert(f0[4] == (encode_utf8("bid"@), real_value(ev.bid)));
    let f1 = with_depth(f0, "depth_bid_0"@, ev.depth_bid_0);
    assert(f1[4] == f0[4]);
    let f2 = with_depth(f1, "depth_bid_1"@, ev.depth_bid_1);
    assert(f2[4] == f1[4]);
    let f3 = with_depth(f2, "depth_ask_0"@, ev.depth_ask_0);
    assert(f3[4] == f2[4]);
    assert(tick_fields(ev)[4] == f3[4]);
}

/// What the trader is told after a bid or an ask of an option: that side is
/// the tick's, the other what it last was told, and with them the option's
/// right and the top of its book, bids as bids and asks as asks.
pub proof fn law_quotes_reach_the_trader(
    pre: TickCache,
    md: MarketDataState,
    t: Tick,
    seeded: bool,
    post: TickCache,
    out: Option<TickOut>,
)
    requires
        TickCache::published(pre, md, t, seeded, post, out),
        !md.underlying_instruments@.contains_key(t.instrument_id.0),
        md.by_instrument@.contains_key(t.instrument_id.0),
        pre.entries@.contains_key(t.instrument_id.0),
        t.kind is Bid || t.kind is Ask || t.kind is BidSize || t.kind is AskSize,
    ensures
        out matches Some(TickOut::Quote(ev)) && {
            let told = pre.entries@[t.instrument_id.0];
            let book = md.tick_of(t.instrument_id).depth;
            &&& ev.bid == (if t.kind is Bid { t.price } else { told.bid })
            &&& ev.ask == (if t.kind is Ask { t.price } else { told.ask })
            &&& t.kind is BidSize && (t.size matches Some(s) && s <= i32::MAX) ==> ev.bid_size is Some
                && ev.bid_size->0 == t.size->0
            &&& t.kind is AskSize && (t.size matches Some(s) && s <= i32::MAX) ==> ev.ask_size is Some
                && ev.ask_size->0 == t.size->0
            &&& !(t.kind is BidSize) ==> ev.bid_size == told.bid_size
            &&& !(t.kind is AskSize) ==> ev.ask_size == told.ask_size
            &&& ev.strike == told.strike
            &&& ev.expiry@ == told.expiry@
            &&& ev.right@ == (if told.right is Call { "C"@ } else { "P"@ })
            &&& ev.ts_ns == t.timestamp_ns
            &&& book.bids@.len() > 0 ==> ev.depth_bid_0 == Some(nano_double(book.bids@[0].price))
            &&& book.bids@.len() > 1 ==> ev.depth_bid_1 == Some(nano_double(book.bids@[1].price))
            &&& book.asks@.len() > 0 ==> ev.depth_ask_0 == Some(nano_double(book.asks@[0].price))
            &&& book.asks@.len() > 1 ==> ev.depth_ask_1 == Some(nano_double(book.asks@[1].price))
            &&& book.bids@.len() == 0 ==> ev.depth_bid_0 is None
            &&& book.asks@.len() == 0 ==> ev.depth_ask_0 is None
        },
{
}

/// What the trader is told at first of an option, after a bid: the option's
/// own strike, expiry and right and, where the book is drawn on, the ask that
/// it holds.
pub proof fn law_first_quote_draws_on_the_book(
    pre: TickCache,
    md: MarketDataState,
    t: Tick,
    post: TickCache,
    out: Option<TickOut>,
)
    requires
        TickCache::published(pre, md, t, true, post, out),
        !md.underlying_instruments@.contains_key(t.instrument_id.0),
        md.by_instrument@.contains_key(t.instrument_id.0),
        !pre.entries@.contains_key(t.instrument_id.0),
        t.kind is Bid || t.kind is Ask,
    ensures
        out matches Some(TickOut::Quote(ev)) && {
            let o = md.tick_of(t.instrument_id);
            &&& t.kind is Bid ==> ev.bid == t.price
            &&& t.kind is Ask ==> ev.ask == t.price
            &&& t.kind is Bid && o.ask > 0 ==> ev.ask == Some(nano_double(o.ask))
            &&& t.kind is Bid && o.ask <= 0 ==> ev.ask is None
            &&& t.kind is Ask && o.bid > 0 ==> ev.bid == Some(nano_double(o.bid))
            &&& t.kind is Ask && o.bid <= 0 ==> ev.bid is None
            &&& 0 < o.bid_size <= i32::MAX ==> ev.bid_size is Some && ev.bid_size->0 == o.bid_size
            &&& 0 < o.ask_size <= i32::MAX ==> ev.ask_size is Some && ev.ask_size->0 == o.ask_size
            &&& ev.strike == nano_double(o.strike)
            &&& ev.right@ == (if o.right is Call { "C"@ } else { "P"@ })
            &&& ev.expiry@ == date_text(o.expiry.year as int, o.expiry.month as int, o.expiry.day as int)
        },
{
}

/// The trader is told of an underlying's price wherever it is positive, from
/// a bid, an ask or a trade, and of an option's trades, counts and volumes
/// never.
pub proof fn law_underlying_prices_reach_the_trader(
    pre: TickCache,
    md: MarketDataState,
    t: Tick,
    seeded: bool,
    post: TickCache,
    out: Option<TickOut>,
)
    requires
        TickCache::published(pre, md, t, seeded, post, out),
    ensures
        md.underlying_instruments@.contains_key(t.instrument_id.0) && (t.kind is Bid || t.kind is Ask || t.kind is Last)
            && (t.price matches Some(p) && p.above_zero()) ==> out == Some(
            TickOut::Underlying { price: t.price->0, ts_ns: t.timestamp_ns },
        ),
        t.price matches Some(p) ==> (!p.above_zero() ==> !(out matches Some(TickOut::Underlying { price, ts_ns }))),
        !md.underlying_instruments@.contains_key(t.instrument_id.0) && (t.kind is Last || t.kind is Volume || t.kind
            is OptionOpenInterest || t.kind is OptionVolume) ==> out is None,
        !md.underlying_instruments@.contains_key(t.instrument_id.0) && !md.by_instrument@.contains_key(t.instrument_id.0)
            ==> out is None,
        forall|other: u64| other != t.instrument_id.0 && #[trigger] pre.entries@.contains_key(other)
            ==> post.entries@.contains_key(other) && post.entries@[other] == pre.entries@[other],
{
}

} // verus!
