//! Ticks, order statuses, and what is done from time to time.

use crate::api::{OpenOrder, OrderId, OrderStatus, Right, Tick, TickKind};
use crate::dates::{central_clock, central_time, day_number, seconds_until, seconds_until_of, Date};
use crate::double::Double;
use crate::latency::{summary, LatencySamples};
use crate::market_data::option_state::OptionTick;
use crate::market_data::state::MarketDataState;
use crate::portfolio::OptionPosition;
use crate::text::{digits, int_text, i64_text, push_u64, str_eq};
use std::collections::HashSet;
use vstd::prelude::*;
use vstd::string::*;

verus! {

broadcast use vstd::std_specs::hash::group_hash_axioms;

// Ticks

/// A tick's price in billionths, cut to what fits; 0, which says nothing,
/// where it is no number.
pub open spec fn tick_price(t: Tick) -> Option<i64> {
    match t.price {
        Some(p) => Some(p.billionths()),
        None => None,
    }
}

/// A positive price, or the one that was there.
pub open spec fn repriced(price: i64, before: i64) -> i64 {
    if price > 0 {
        price
    } else {
        before
    }
}

/// An option after a tick; none where the tick says nothing of it.
pub open spec fn after_tick(o: OptionTick, t: Tick) -> Option<OptionTick> {
    match (t.kind, tick_price(t), t.size) {
        (TickKind::Bid, Some(p), s) => Some(
            OptionTick {
                bid: repriced(p, o.bid),
                bid_size: match s {
                    Some(s) => s,
                    None => 0,
                },
                last_updated_ns: t.timestamp_ns,
                ..o
            },
        ),
        (TickKind::Ask, Some(p), s) => Some(
            OptionTick {
                ask: repriced(p, o.ask),
                ask_size: match s {
                    Some(s) => s,
                    None => 0,
                },
                last_updated_ns: t.timestamp_ns,
                ..o
            },
        ),
        (TickKind::Last, Some(p), _) => Some(
            OptionTick { last: repriced(p, o.last), last_updated_ns: t.timestamp_ns, ..o },
        ),
        (TickKind::BidSize, _, Some(s)) => Some(OptionTick { bid_size: s, last_updated_ns: t.timestamp_ns, ..o }),
        (TickKind::AskSize, _, Some(s)) => Some(OptionTick { ask_size: s, last_updated_ns: t.timestamp_ns, ..o }),
        (TickKind::OptionOpenInterest, _, Some(s)) => Some(
            OptionTick { open_interest: s, last_updated_ns: t.timestamp_ns, ..o },
        ),
        (TickKind::OptionVolume, _, Some(s)) => Some(OptionTick { volume: s, last_updated_ns: t.timestamp_ns, ..o }),
        _ => None,
    }
}

/// What a tick does to the market: to the option that the instrument is, else
/// to the underlying or hedge contract where it carries a price.
pub open spec fn market_after(pre: MarketDataState, t: Tick, post: MarketDataState) -> bool {
    if pre.by_instrument@.contains_key(t.instrument_id.0) {
        match after_tick(pre.tick_of(t.instrument_id), t) {
            Some(o) => MarketDataState::ticked(pre, t.instrument_id, o, post),
            None => post == pre,
        }
    } else {
        match (t.kind, tick_price(t)) {
            (TickKind::Bid, Some(p)) => MarketDataState::moved(pre, t.instrument_id, p, post),
            (TickKind::Ask, Some(p)) => MarketDataState::moved(pre, t.instrument_id, p, post),
            (TickKind::Last, Some(p)) => MarketDataState::moved(pre, t.instrument_id, p, post),
            _ => post == pre,
        }
    }
}

/// Applies a tick.
pub fn apply_tick(md: &mut MarketDataState, t: &Tick)
    requires
        old(md).wf(),
    ensures
        final(md).wf(),
        market_after(*old(md), *t, *final(md)),
{
    let iid = t.instrument_id;
    let ts: u64 = t.timestamp_ns;
    let price: Option<i64> = match t.price {
        Some(p) => Some(p.to_billionths()),
        None => None,
    };
    let size: u64 = match t.size {
        Some(s) => s,
        None => 0,
    };
    match t.kind {
        TickKind::Bid => {
            if let Some(p) = price {
                md.update_bid(iid, p, size, ts);
            }
        },
        TickKind::Ask => {
            if let Some(p) = price {
                md.update_ask(iid, p, size, ts);
            }
        },
        TickKind::Last => {
            if let Some(p) = price {
                md.update_last(iid, p, ts);
            }
        },
        TickKind::BidSize => {
            if let Some(s) = t.size {
                md.update_bid_size(iid, s, ts);
            }
        },
        TickKind::AskSize => {
            if let Some(s) = t.size {
                md.update_ask_size(iid, s, ts);
            }
        },
        TickKind::OptionOpenInterest => {
            if let Some(s) = t.size {
                md.update_open_interest(iid, s, ts);
            }
        },
        TickKind::OptionVolume => {
            if let Some(s) = t.size {
                md.update_option_volume(iid, s, ts);
            }
        },
        TickKind::Volume => {},
    }
}

// Orders

/// The orders that a status came for and that are not done.
#[derive(Debug)]
pub struct SeenOrders {
    pub ids: HashSet<u64>,
}

impl SeenOrders {
    /// No order was seen.
    pub fn new() -> (r: SeenOrders)
        ensures
            r.ids@ == Set::<u64>::empty(),
    {
        SeenOrders { ids: HashSet::new() }
    }

    /// Notes a status: the order is seen from now on, until it is done.
    /// Returns whether it was seen before.
    pub fn apply_status(&mut self, id: OrderId, status: OrderStatus) -> (known: bool)
        ensures
            known == old(self).ids@.contains(id.0),
            final(self).ids@ == (if status.terminal() {
                old(self).ids@.remove(id.0)
            } else {
                old(self).ids@.insert(id.0)
            }),
    {
        let known = self.ids.contains(&id.0);
        if status.is_terminal() {
            self.ids.remove(&id.0);
        } else {
            self.ids.insert(id.0);
        }
        known
    }
}

/// The orders that still rest, in the broker's order.
pub open spec fn resting(orders: Seq<OpenOrder>) -> Seq<OrderId>
    decreases orders.len(),
{
    if orders.len() == 0 {
        Seq::<OrderId>::empty()
    } else if orders.last().remaining_qty > 0 {
        resting(orders.drop_last()).push(orders.last().order_id)
    } else {
        resting(orders.drop_last())
    }
}

/// The orders to cancel when trading stops: all that still rest.
pub fn cancel_all_resting(orders: &Vec<OpenOrder>) -> (r: Vec<OrderId>)
    ensures
        r@ == resting(orders@),
{
    let mut out: Vec<OrderId> = Vec::new();
    let mut i: usize = 0;
    while i < orders.len()
        invariant
            i <= orders@.len(),
            out@ == resting(orders@.take(i as int)),
        decreases orders@.len() - i,
    {
        assert(orders@.take(i + 1).last() == orders@[i as int]);
        assert(orders@.take(i + 1).drop_last() =~= orders@.take(i as int));
        if orders[i].remaining_qty > 0 {
            out.push(orders[i].order_id);
        }
        i = i + 1;
    }
    assert(orders@.take(i as int) =~= orders@);
    out
}

/// A stop reaches every resting order.
pub proof fn law_stop_reaches_all_resting(orders: Seq<OpenOrder>, i: int)
    requires
        0 <= i < orders.len(),
        orders[i].remaining_qty > 0,
    ensures
        resting(orders).contains(orders[i].order_id),
    decreases orders.len(),
{
    let before = resting(orders.drop_last());
    if i == orders.len() - 1 {
        assert(resting(orders)[before.len() as int] == orders[i].order_id);
    } else {
        law_stop_reaches_all_resting(orders.drop_last(), i);
        assert(orders.drop_last()[i] == orders[i]);
        let k = before.index_of(orders[i].order_id);
        assert(resting(orders)[k] == orders[i].order_id);
    }
}

// The daily rollover

/// Hour of the day in Chicago at which a session ends.
pub const ROLLOVER_HOUR: u32 = 17;

/// When the day's halt was last cleared.
#[derive(Debug)]
pub struct DailyRollover {
    pub last_fired_day: Option<Date>,
}

/// Whether the halt is cleared: the session has ended, and it was not cleared
/// on this day yet.
pub open spec fn rolls_over(last: Option<Date>, today: Date, hour: u32) -> bool {
    hour >= ROLLOVER_HOUR && last != Some(today)
}

impl DailyRollover {
    /// Not cleared yet.
    pub fn new() -> (r: DailyRollover)
        ensures
            r.last_fired_day is None,
    {
        DailyRollover { last_fired_day: None }
    }

    /// Whether the halt is cleared, given date and hour in Chicago: at the
    /// first look past the end of the session, once a day.
    pub fn due(&mut self, today: Date, hour: u32) -> (fire: bool)
        ensures
            fire == rolls_over(old(self).last_fired_day, today, hour),
            final(self).last_fired_day == (if fire {
                Some(today)
            } else {
                old(self).last_fired_day
            }),
    {
        let fired_today = match self.last_fired_day {
            Some(d) => d.year == today.year && d.month == today.month && d.day == today.day,
            None => false,
        };
        if hour >= ROLLOVER_HOUR && !fired_today {
            self.last_fired_day = Some(today);
            true
        } else {
            false
        }
    }

    /// Whether the halt is cleared at an instant, in seconds since the Unix
    /// epoch.
    pub fn due_at(&mut self, seconds: i64) -> (fire: bool)
        requires
            31536000 <= seconds <= 253370764800,
        ensures
            ({
                let (y, m, d, h) = central_time(seconds as int);
                &&& fire == (h >= ROLLOVER_HOUR && !(old(self).last_fired_day matches Some(f) && f.parts() == (y, m, d)))
                &&& if fire {
                    final(self).last_fired_day is Some && final(self).last_fired_day->0.parts() == (y, m, d)
                } else {
                    final(self).last_fired_day == old(self).last_fired_day
                }
            }),
    {
        let (today, hour) = central_clock(seconds);
        self.due(today, hour)
    }
}

/// The halt is cleared at most once a day: once it was, no later look on the
/// same day clears it, and the first past the hour on another day does.
pub proof fn law_rollover_once_a_day(last: Option<Date>, today: Date, hour: u32, later: u32)
    requires
        rolls_over(last, today, hour),
    ensures
        !rolls_over(Some(today), today, later),
        forall|next: Date| next != today && later >= ROLLOVER_HOUR ==> #[trigger] rolls_over(Some(today), next, later),
{
}

// The account

/// Whether the margin model is scaled to the broker's figure: only where both
/// are positive.
pub fn calibrates(ibkr_actual: Double, raw: Double) -> (r: bool)
    ensures
        r == (ibkr_actual.above_zero() && raw.above_zero()),
{
    ibkr_actual.is_positive() && raw.is_positive()
}

/// Hour of the last trading day, in UTC, at which options expire.
pub const EXPIRY_HOUR: u32 = 16;

/// Whole seconds from an instant to an expiry, 0 where it has passed.
pub open spec fn seconds_left(expiry: Date, now_ns: u64) -> int {
    seconds_until_of(expiry, EXPIRY_HOUR as int, now_ns)
}

/// An option position as the margin model takes it.
#[derive(Clone, Copy, Debug, PartialEq, Eq, Structural)]
pub struct MarginLeg {
    pub strike: i64,
    pub right: Right,
    /// Seconds to expiry.
    pub seconds: u64,
    pub quantity: i32,
}

/// The legs of a product that have not expired, in order.
pub open spec fn margin_legs_of(positions: Seq<OptionPosition>, product: Seq<char>, now_ns: u64) -> Seq<MarginLeg>
    decreases positions.len(),
{
    if positions.len() == 0 {
        Seq::<MarginLeg>::empty()
    } else {
        let before = margin_legs_of(positions.drop_last(), product, now_ns);
        let p = positions.last();
        if p.product@ == product && seconds_left(p.expiry, now_ns) > 0 {
            before.push(
                MarginLeg {
                    strike: p.strike,
                    right: p.right,
                    seconds: seconds_left(p.expiry, now_ns) as u64,
                    quantity: p.quantity,
                },
            )
        } else {
            before
        }
    }
}

/// The legs of a product that the margin model takes: a margin is computed
/// per product, for each has its own multiplier and price.
pub fn margin_legs(positions: &Vec<OptionPosition>, product: &str, now_ns: u64) -> (r: Vec<MarginLeg>)
    requires
        forall|i: int| 0 <= i < positions@.len() ==> (#[trigger] positions@[i]).expiry.valid(),
    ensures
        r@ == margin_legs_of(positions@, product@, now_ns),
{
    let mut out: Vec<MarginLeg> = Vec::new();
    let mut i: usize = 0;
    while i < positions.len()
        invariant
            i <= positions@.len(),
            forall|i: int| 0 <= i < positions@.len() ==> (#[trigger] positions@[i]).expiry.valid(),
            out@ == margin_legs_of(positions@.take(i as int), product@, now_ns),
        decreases positions@.len() - i,
    {
        let p = &positions[i];
        assert(positions@.take(i + 1).last() == *p);
        assert(positions@.take(i + 1).drop_last() =~= positions@.take(i as int));
        if str_eq(p.product.as_str(), product) {
            let seconds: u64 = seconds_until(&p.expiry, EXPIRY_HOUR, now_ns);
            if seconds > 0 {
                out.push(MarginLeg { strike: p.strike, right: p.right, seconds, quantity: p.quantity });
            }
        }
        i = i + 1;
    }
    assert(positions@.take(i as int) =~= positions@);
    out
}

// Diagnostics

/// Count, median and 99th percentile.
pub type Stats = (u64, Option<u64>, Option<u64>);

/// What is shown of latencies.
#[derive(Clone, Copy, Debug)]
pub struct LatencySnapshot {
    pub ttt_us: Stats,
    pub place_rtt_us: Stats,
    pub amend_us: Stats,
}

/// What is shown of latencies; nothing where no series has a sample.
pub fn latency_snapshot(samples: &LatencySamples) -> (r: Option<LatencySnapshot>)
    requires
        samples.wf(),
    ensures
        match r {
            Some(l) => {
                &&& l.ttt_us == summary(samples.ttt())
                &&& l.place_rtt_us == summary(samples.place_rtt())
                &&& l.amend_us == summary(samples.modify_rtt())
                &&& samples.ttt().len() > 0 || samples.place_rtt().len() > 0 || samples.modify_rtt().len() > 0
            },
            None => samples.ttt().len() == 0 && samples.place_rtt().len() == 0 && samples.modify_rtt().len() == 0,
        },
{
    let ttt_us = samples.ttt_stats();
    let place_rtt_us = samples.place_rtt_stats();
    let amend_us = samples.modify_rtt_stats();
    if ttt_us.0 > 0 || place_rtt_us.0 > 0 || amend_us.0 > 0 {
        Some(LatencySnapshot { ttt_us, place_rtt_us, amend_us })
    } else {
        None
    }
}

/// Counts per tick type as text: `type:count`, separated by spaces.
pub open spec fn hist_text(hist: Seq<(i32, u64)>) -> Seq<char>
    decreases hist.len(),
{
    if hist.len() == 0 {
        ""@
    } else {
        let one = int_text(hist.last().0 as int) + ":"@ + digits(hist.last().1 as nat);
        if hist.len() == 1 {
            one
        } else {
            hist_text(hist.drop_last()) + " "@ + one
        }
    }
}

/// Counts per tick type as text.
pub fn hist_summary(hist: &Vec<(i32, u64)>) -> (r: String)
    ensures
        r@ == hist_text(hist@),
{
    let mut out = "".to_owned();
    let mut i: usize = 0;
    while i < hist.len()
        invariant
            i <= hist@.len(),
            out@ == hist_text(hist@.take(i as int)),
        decreases hist@.len() - i,
    {
        let ghost now = hist@.take(i + 1);
        assert(now.last() == hist@[i as int]);
        assert(now.drop_last() =~= hist@.take(i as int));
        let ghost before = out@;
        proof {
            reveal_strlit("");
        }
        if i > 0 {
            out.append(" ");
        }
        out.append(i64_text(hist[i].0 as i64).as_str());
        out.append(":");
        push_u64(&mut out, hist[i].1);
        assert(out@ =~= hist_text(now));
        i = i + 1;
    }
    assert(hist@.take(i as int) =~= hist@);
    out
}

/// A positive bid of an option is the bid that stands afterwards, with its
/// size; the ask, the last trade and every other option stay.
pub proof fn law_bid_ticks_move_the_bid(pre: MarketDataState, t: Tick, post: MarketDataState)
    requires
        pre.wf(),
        market_after(pre, t, post),
        pre.by_instrument@.contains_key(t.instrument_id.0),
        t.kind is Bid,
        t.price is Some,
    ensures
        ({
            let before = pre.tick_of(t.instrument_id);
            let after = post.tick_of(t.instrument_id);
            let p = t.price->0.billionths();
            &&& p > 0 ==> after.bid == p
            &&& p <= 0 ==> after.bid == before.bid
            &&& t.size matches Some(s) ==> after.bid_size == s
            &&& after.ask == before.ask && after.ask_size == before.ask_size && after.last == before.last
            &&& after.last_updated_ns == t.timestamp_ns
        }),
        forall|i: int|
            0 <= i < pre.entries@.len() && i != pre.by_instrument@[t.instrument_id.0] ==> #[trigger] post.entries@[i]
                == pre.entries@[i],
{
}

/// A positive ask of an option is the ask that stands afterwards, with its
/// size; the bid, the last trade and every other option stay.
pub proof fn law_ask_ticks_move_the_ask(pre: MarketDataState, t: Tick, post: MarketDataState)
    requires
        pre.wf(),
        market_after(pre, t, post),
        pre.by_instrument@.contains_key(t.instrument_id.0),
        t.kind is Ask,
        t.price is Some,
    ensures
        ({
            let before = pre.tick_of(t.instrument_id);
            let after = post.tick_of(t.instrument_id);
            let p = t.price->0.billionths();
            &&& p > 0 ==> after.ask == p
            &&& p <= 0 ==> after.ask == before.ask
            &&& t.size matches Some(s) ==> after.ask_size == s
            &&& after.bid == before.bid && after.bid_size == before.bid_size && after.last == before.last
            &&& after.last_updated_ns == t.timestamp_ns
        }),
        forall|i: int|
            0 <= i < pre.entries@.len() && i != pre.by_instrument@[t.instrument_id.0] ==> #[trigger] post.entries@[i]
                == pre.entries@[i],
{
}

/// A trade moves the last price only.
pub proof fn law_trades_move_the_last_price(pre: MarketDataState, t: Tick, post: MarketDataState)
    requires
        pre.wf(),
        market_after(pre, t, post),
        pre.by_instrument@.contains_key(t.instrument_id.0),
        t.kind is Last,
        t.price is Some,
    ensures
        ({
            let before = pre.tick_of(t.instrument_id);
            let after = post.tick_of(t.instrument_id);
            let p = t.price->0.billionths();
            &&& p > 0 ==> after.last == p
            &&& p <= 0 ==> after.last == before.last
            &&& after.bid == before.bid && after.ask == before.ask
            &&& after.bid_size == before.bid_size && after.ask_size == before.ask_size
        }),
{
}

/// A size of an option reaches the side or the count that it is of, and moves
/// no price.
pub proof fn law_sizes_reach_their_side(pre: MarketDataState, t: Tick, post: MarketDataState)
    requires
        pre.wf(),
        market_after(pre, t, post),
        pre.by_instrument@.contains_key(t.instrument_id.0),
        t.size is Some,
        t.kind is BidSize || t.kind is AskSize || t.kind is OptionOpenInterest || t.kind is OptionVolume,
    ensures
        ({
            let before = pre.tick_of(t.instrument_id);
            let after = post.tick_of(t.instrument_id);
            let s = t.size->0;
            &&& after.bid == before.bid && after.ask == before.ask && after.last == before.last
            &&& after.bid_size == (if t.kind is BidSize { s } else { before.bid_size })
            &&& after.ask_size == (if t.kind is AskSize { s } else { before.ask_size })
            &&& after.open_interest == (if t.kind is OptionOpenInterest { s } else { before.open_interest })
            &&& after.volume == (if t.kind is OptionVolume { s } else { before.volume })
            &&& after.last_updated_ns == t.timestamp_ns
        }),
{
}

/// A positive price of an underlying is the price that is read for its
/// product afterwards, whichever side of the market it came from, and so for
/// a hedge contract. Options do not change.
pub proof fn law_underlying_ticks_move_their_product(pre: MarketDataState, t: Tick, post: MarketDataState)
    requires
        market_after(pre, t, post),
        !pre.by_instrument@.contains_key(t.instrument_id.0),
        t.kind is Bid || t.kind is Ask || t.kind is Last,
        t.price is Some,
        t.price->0.billionths() > 0,
    ensures
        pre.underlying_instruments@.contains_key(t.instrument_id.0) ==> post.underlying@.contains_pair(
            pre.underlying_instruments@[t.instrument_id.0]@,
            t.price->0.billionths(),
        ),
        pre.hedge_underlying_instruments@.contains_key(t.instrument_id.0) ==> post.hedge_underlying@.contains_pair(
            pre.hedge_underlying_instruments@[t.instrument_id.0]@,
            t.price->0.billionths(),
        ),
        !pre.underlying_instruments@.contains_key(t.instrument_id.0) ==> post.underlying@ == pre.underlying@,
        !pre.hedge_underlying_instruments@.contains_key(t.instrument_id.0) ==> post.hedge_underlying@
            == pre.hedge_underlying@,
        post.entries == pre.entries,
{
}

/// A tick that carries nothing of its kind changes nothing.
pub proof fn law_empty_ticks_change_nothing(pre: MarketDataState, t: Tick, post: MarketDataState)
    requires
        market_after(pre, t, post),
        t.kind is Volume || ((t.kind is Bid || t.kind is Ask || t.kind is Last) && t.price is None) || (!(t.kind is Bid
            || t.kind is Ask || t.kind is Last) && t.size is None),
    ensures
        post == pre,
{
}

/// A stop cancels nothing but what rests, and nothing twice.
pub proof fn law_stop_reaches_only_resting(orders: Seq<OpenOrder>, k: int)
    requires
        0 <= k < resting(orders).len(),
    ensures
        resting(orders).len() <= orders.len(),
        exists|i: int| #![trigger orders[i]]
            0 <= i < orders.len() && orders[i].order_id == resting(orders)[k] && orders[i].remaining_qty > 0,
    decreases orders.len(),
{
    let rest = orders.drop_last();
    let n = orders.len() - 1;
    assert(orders[n] == orders.last());
    if k < resting(rest).len() {
        law_stop_reaches_only_resting(rest, k);
        let i = choose|i: int| #![trigger rest[i]]
            0 <= i < rest.len() && rest[i].order_id == resting(rest)[k] && rest[i].remaining_qty > 0;
        assert(orders[i] == rest[i]);
    } else {
        assert(orders[n].order_id == resting(orders)[k]);
        if resting(rest).len() > 0 {
            law_stop_reaches_only_resting(rest, 0);
        }
    }
}

/// The halt is cleared from five in the afternoon on and not before, also
/// where it never was.
pub proof fn law_rollover_waits_for_the_session_end(last: Option<Date>, today: Date, hour: u32)
    ensures
        rolls_over(last, today, hour) ==> hour >= 17,
        hour >= 17 && last is None ==> rolls_over(last, today, hour),
{
}

/// Every position of the product that has not expired is a leg, with its sign
/// and with the time it has left; positions of other products are none.
pub proof fn law_open_positions_are_legs(positions: Seq<OptionPosition>, product: Seq<char>, now_ns: u64, i: int)
    requires
        0 <= i < positions.len(),
        positions[i].product@ == product,
        (day_number(positions[i].expiry) * 86400 + 16 * 3600) * 1_000_000_000 >= now_ns + 1_000_000_000,
    ensures
        exists|k: int| #![trigger margin_legs_of(positions, product, now_ns)[k]]
            0 <= k < margin_legs_of(positions, product, now_ns).len() && {
                let l = margin_legs_of(positions, product, now_ns)[k];
                &&& l.strike == positions[i].strike
                &&& l.right == positions[i].right
                &&& l.quantity == positions[i].quantity
            },
    decreases positions.len(),
{
    let rest = positions.drop_last();
    let before = margin_legs_of(rest, product, now_ns);
    let after = margin_legs_of(positions, product, now_ns);
    if i == positions.len() - 1 {
        assert(positions[i] == positions.last());
        assert(seconds_left(positions[i].expiry, now_ns) > 0);
        assert(after[before.len() as int].quantity == positions[i].quantity);
    } else {
        assert(rest[i] == positions[i]);
        law_open_positions_are_legs(rest, product, now_ns, i);
        let k = choose|k: int| #![trigger before[k]]
            0 <= k < before.len() && before[k].strike == rest[i].strike && before[k].right == rest[i].right
                && before[k].quantity == rest[i].quantity;
        assert(after[k] == before[k]);
    }
}

/// Every leg is a position of the product that has not expired.
pub proof fn law_legs_are_open_positions(positions: Seq<OptionPosition>, product: Seq<char>, now_ns: u64, k: int)
    requires
        0 <= k < margin_legs_of(positions, product, now_ns).len(),
    ensures
        margin_legs_of(positions, product, now_ns).len() <= positions.len(),
        exists|i: int| #![trigger positions[i]]
            0 <= i < positions.len() && {
                let l = margin_legs_of(positions, product, now_ns)[k];
                &&& positions[i].product@ == product
                &&& l.strike == positions[i].strike
                &&& l.right == positions[i].right
                &&& l.quantity == positions[i].quantity
                &&& (day_number(positions[i].expiry) * 86400 + 16 * 3600) * 1_000_000_000 > now_ns
            },
    decreases positions.len(),
{
    let rest = positions.drop_last();
    let before = margin_legs_of(rest, product, now_ns);
    let n = positions.len() - 1;
    assert(positions[n] == positions.last());
    if k < before.len() {
        law_legs_are_open_positions(rest, product, now_ns, k);
        let i = choose|i: int| #![trigger rest[i]]
            0 <= i < rest.len() && {
                let l = before[k];
                &&& rest[i].product@ == product
                &&& l.strike == rest[i].strike
                &&& l.right == rest[i].right
                &&& l.quantity == rest[i].quantity
                &&& (day_number(rest[i].expiry) * 86400 + 16 * 3600) * 1_000_000_000 > now_ns
            };
        assert(positions[i] == rest[i]);
    } else {
        assert(positions[n].product@ == product);
        if before.len() > 0 {
            law_legs_are_open_positions(rest, product, now_ns, 0);
        }
    }
}

} // verus!
