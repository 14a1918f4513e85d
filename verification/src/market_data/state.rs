//! The option book and the prices of underlyings.

use crate::api::{InstrumentId, Right};
use crate::dates::Date;
use crate::market_data::option_state::{DepthBook, DepthLevel, OptionTick};
use crate::market_data::slot_map::{slots, OptionKey, SlotMap};
use crate::table::{Table, TableKey};
use crate::text::str_eq;
use std::collections::HashMap;
use vstd::prelude::*;
use vstd::string::*;

verus! {

broadcast use vstd::std_specs::hash::group_hash_axioms;

/// A strike in ten-thousandths, rounded to the nearest and halves away from
/// zero: strikes that differ by less than that are one strike.
pub open spec fn quantized(strike: int) -> int {
    if strike >= 0 {
        (2 * strike + 100_000) / 200_000
    } else {
        -((2 * (-strike) + 100_000) / 200_000)
    }
}

/// A strike in ten-thousandths.
pub fn strike_key(strike: i64) -> (r: i64)
    ensures
        r == quantized(strike as int),
{
    let s: i128 = strike as i128;
    let m: i128 = if s >= 0 {
        s
    } else {
        -s
    };
    let n: i64 = ((2 * m + 100_000) / 200_000) as i64;
    if s >= 0 {
        n
    } else {
        -n
    }
}

/// A product's name, as a key.
#[derive(Debug)]
pub struct ProductKey {
    pub name: String,
}

impl TableKey for ProductKey {
    type Id = Seq<char>;

    open spec fn id(&self) -> Seq<char> {
        self.name@
    }

    fn same(&self, other: &Self) -> (r: bool) {
        str_eq(self.name.as_str(), other.name.as_str())
    }
}

/// One option of the book.
#[derive(Debug)]
pub struct OptionEntry {
    pub product: String,
    /// Position of the product among the products.
    pub product_index: u64,
    /// Strike in ten-thousandths.
    pub strike_key: i64,
    pub tick: OptionTick,
}

/// What identifies an option.
#[derive(Debug)]
pub struct OptionMeta {
    pub product: String,
    pub strike: i64,
    pub expiry: Date,
    pub right: Right,
}

/// A right as a number.
pub open spec fn right_code(r: Right) -> u64 {
    match r {
        Right::Call => 0,
        Right::Put => 1,
    }
}

fn code_of(r: Right) -> (c: u64)
    ensures
        c == right_code(r),
{
    match r {
        Right::Call => 0,
        Right::Put => 1,
    }
}

/// The key of an entry.
pub open spec fn key_of(e: OptionEntry) -> OptionKey {
    (
        e.product_index,
        e.strike_key,
        e.tick.expiry.year,
        e.tick.expiry.month,
        e.tick.expiry.day,
        right_code(e.tick.right),
    )
}

/// Whether an entry is a given option.
pub open spec fn is_option(e: OptionEntry, product: Seq<char>, strike_key: int, expiry: Date, right: Right) -> bool {
    e.product@ == product && e.strike_key == strike_key && e.tick.expiry == expiry && e.tick.right == right
}

/// The market as far as it is known.
pub struct MarketDataState {
    /// Last price of each product's underlying.
    pub underlying: Table<ProductKey, i64>,
    /// Products that have options.
    pub products: Vec<String>,
    /// The option book, in the order of registration.
    pub entries: Vec<OptionEntry>,
    /// Where each option is in the book.
    pub index: SlotMap,
    /// Where an instrument's option is in the book.
    pub by_instrument: HashMap<u64, u64>,
    /// Product that an instrument is the underlying of.
    pub underlying_instruments: HashMap<u64, String>,
    /// Last price of each product's hedge contract, which need not be the
    /// underlying of its options.
    pub hedge_underlying: Table<ProductKey, i64>,
    /// Product that an instrument is the hedge contract of.
    pub hedge_underlying_instruments: HashMap<u64, String>,
}

impl MarketDataState {
    /// The index and the book agree, no option is listed twice, products are
    /// those of options, each instrument's option is in the book, expiries are
    /// dates, and prices are positive.
    pub open spec fn wf(self) -> bool {
        &&& self.underlying.wf()
        &&& self.hedge_underlying.wf()
        &&& self.entries@.len() <= u64::MAX
        &&& self.products@.len() <= self.entries@.len()
        &&& forall|i: int, j: int|
            0 <= i < j < self.products@.len() ==> (#[trigger] self.products@[i])@ != (#[trigger] self.products@[j])@
        &&& forall|i: int|
            0 <= i < self.entries@.len() ==> {
                let e = #[trigger] self.entries@[i];
                &&& e.product_index < self.products@.len()
                &&& e.product@ == self.products@[e.product_index as int]@
                &&& e.tick.depth.wf()
                &&& e.tick.expiry.valid()
                &&& slots(self.index).contains_key(key_of(e))
                &&& slots(self.index)[key_of(e)] == i
            }
        &&& forall|k: OptionKey| #[trigger]
            slots(self.index).contains_key(k) ==> slots(self.index)[k] < self.entries@.len() && key_of(
                self.entries@[slots(self.index)[k] as int],
            ) == k
        &&& forall|iid: u64| #[trigger]
            self.by_instrument@.contains_key(iid) ==> self.by_instrument@[iid] < self.entries@.len()
        &&& forall|p: Seq<char>| #[trigger] self.underlying@.dom().contains(p) ==> self.underlying@[p] > 0
        &&& forall|p: Seq<char>| #[trigger] self.hedge_underlying@.dom().contains(p) ==> self.hedge_underlying@[p] > 0
    }

    /// Nothing is known.
    pub fn new() -> (r: MarketDataState)
        ensures
            r.wf(),
            r.entries@ == Seq::<OptionEntry>::empty(),
            r.products@ == Seq::<String>::empty(),
            r.underlying@ == Map::<Seq<char>, i64>::empty(),
            r.hedge_underlying@ == Map::<Seq<char>, i64>::empty(),
            r.by_instrument@ == Map::<u64, u64>::empty(),
            r.underlying_instruments@ == Map::<u64, String>::empty(),
            r.hedge_underlying_instruments@ == Map::<u64, String>::empty(),
    {
        MarketDataState {
            underlying: Table::new(),
            products: Vec::new(),
            entries: Vec::new(),
            index: SlotMap::new(),
            by_instrument: HashMap::new(),
            underlying_instruments: HashMap::new(),
            hedge_underlying: Table::new(),
            hedge_underlying_instruments: HashMap::new(),
        }
    }

    fn product_position(&self, product: &str) -> (r: Option<u64>)
        requires
            self.wf(),
        ensures
            match r {
                Some(i) => i < self.products@.len() && self.products@[i as int]@ == product@,
                None => forall|i: int| 0 <= i < self.products@.len() ==> (#[trigger] self.products@[i])@ != product@,
            },
    {
        let mut i: usize = 0;
        while i < self.products.len()
            invariant
                i <= self.products.len(),
                forall|j: int| 0 <= j < i ==> (#[trigger] self.products@[j])@ != product@,
            decreases self.products.len() - i,
        {
            if str_eq(self.products[i].as_str(), product) {
                return Some(i as u64);
            }
            i = i + 1;
        }
        None
    }

    /// Whether an option is in the book.
    pub open spec fn lists(self, product: Seq<char>, strike: i64, expiry: Date, right: Right) -> bool {
        exists|i: int|
            0 <= i < self.entries@.len() && is_option(
                #[trigger] self.entries@[i],
                product,
                quantized(strike as int),
                expiry,
                right,
            )
    }

    fn find(&self, product: &str, strike: i64, expiry: Date, right: Right) -> (r: Option<u64>)
        requires
            self.wf(),
        ensures
            match r {
                Some(i) => i < self.entries@.len() && is_option(
                    self.entries@[i as int],
                    product@,
                    quantized(strike as int),
                    expiry,
                    right,
                ),
                None => !self.lists(product@, strike, expiry, right),
            },
    {
        match self.product_position(product) {
            Some(p) => {
                let key: OptionKey = (p, strike_key(strike), expiry.year, expiry.month, expiry.day, code_of(right));
                let r = self.index.get(&key);
                proof {
                    if r is None {
                        assert forall|i: int| 0 <= i < self.entries@.len() implies !is_option(
                            #[trigger] self.entries@[i],
                            product@,
                            quantized(strike as int),
                            expiry,
                            right,
                        ) by {
                            let e = self.entries@[i];
                            if is_option(e, product@, quantized(strike as int), expiry, right) {
                                let q = e.product_index as int;
                                if q < p {
                                    assert(self.products@[q]@ != self.products@[p as int]@);
                                } else if q > p {
                                    assert(self.products@[p as int]@ != self.products@[q]@);
                                }
                                assert(key_of(e) == key);
                            }
                        }
                    } else {
                        let e = self.entries@[r->0 as int];
                        assert(key_of(e) == key);
                        assert(e.product_index == p);
                        assert(e.tick.expiry == expiry);
                    }
                }
                r
            },
            None => {
                proof {
                    assert forall|i: int| 0 <= i < self.entries@.len() implies !is_option(
                        #[trigger] self.entries@[i],
                        product@,
                        quantized(strike as int),
                        expiry,
                        right,
                    ) by {
                        let e = self.entries@[i];
                        assert(self.products@[e.product_index as int]@ != product@);
                    }
                }
                None
            },
        }
    }

    /// Whether a product is among those of the book.
    pub open spec fn trades(self, product: Seq<char>) -> bool {
        exists|i: int| 0 <= i < self.products@.len() && (#[trigger] self.products@[i])@ == product
    }

    /// Whether an option was registered: it is in the book, new ones at the
    /// end, as is its product, and the instrument leads to it.
    pub open spec fn registered(
        pre: MarketDataState,
        product: Seq<char>,
        strike: i64,
        expiry: Date,
        right: Right,
        instrument_id: InstrumentId,
        post: MarketDataState,
    ) -> bool {
        &&& post.underlying == pre.underlying
        &&& post.underlying_instruments == pre.underlying_instruments
        &&& post.hedge_underlying == pre.hedge_underlying
        &&& post.hedge_underlying_instruments == pre.hedge_underlying_instruments
        &&& if pre.lists(product, strike, expiry, right) {
            post.entries == pre.entries
        } else {
            &&& post.entries@.len() == pre.entries@.len() + 1
            &&& post.entries@.drop_last() == pre.entries@
            &&& post.entries@.last().tick.blank(strike, expiry, right)
            &&& post.entries@.last().tick.instrument_id == Some(instrument_id)
        }
        &&& if pre.trades(product) {
            post.products == pre.products
        } else {
            &&& post.products@.len() == pre.products@.len() + 1
            &&& post.products@.drop_last() == pre.products@
            &&& post.products@.last()@ == product
        }
        &&& post.by_instrument@.contains_key(instrument_id.0)
        &&& post.by_instrument@ == pre.by_instrument@.insert(instrument_id.0, post.by_instrument@[instrument_id.0])
        &&& is_option(
            post.entries@[post.by_instrument@[instrument_id.0] as int],
            product,
            quantized(strike as int),
            expiry,
            right,
        )
    }

    /// Registers an option: from now on the instrument's ticks are this
    /// option's. An option that is in the book stays as it is.
    pub fn register_option(&mut self, product: &str, strike: i64, expiry: Date, right: Right, instrument_id: InstrumentId)
        requires
            old(self).wf(),
            expiry.valid(),
            old(self).entries@.len() < u64::MAX,
        ensures
            final(self).wf(),
            MarketDataState::registered(*old(self), product@, strike, expiry, right, instrument_id, *final(self)),
    {
        match self.find(product, strike, expiry, right) {
            Some(i) => {
                assert(is_option(self.entries@[i as int], product@, quantized(strike as int), expiry, right));
                assert(self.products@[self.entries@[i as int].product_index as int]@ == product@);
                self.by_instrument.insert(instrument_id.0, i);
            },
            None => {
                let p: u64 = match self.product_position(product) {
                    Some(p) => p,
                    None => {
                        let p: u64 = self.products.len() as u64;
                        self.products.push(product.to_owned());
                        assert(self.products@.drop_last() =~= old(self).products@);
                        p
                    },
                };
                let ghost mid = *self;
                assert(mid.products@[p as int]@ == product@);
                let mut tick = OptionTick::new(strike, expiry, right);
                tick.instrument_id = Some(instrument_id);
                let slot: u64 = self.entries.len() as u64;
                let entry = OptionEntry { product: product.to_owned(), product_index: p, strike_key: strike_key(strike), tick };
                let key: OptionKey = (p, entry.strike_key, expiry.year, expiry.month, expiry.day, code_of(right));
                let ghost added = entry;
                proof {
                    assert(key_of(added) == key);
                    if slots(mid.index).contains_key(key) {
                        let e = old(self).entries@[slots(mid.index)[key] as int];
                        assert(key_of(e) == key);
                        assert(is_option(e, product@, quantized(strike as int), expiry, right));
                    }
                }
                self.entries.push(entry);
                self.index.insert(key, slot);
                self.by_instrument.insert(instrument_id.0, slot);
                proof {
                    assert(self.entries@.drop_last() =~= old(self).entries@);
                    assert forall|i: int| 0 <= i < self.entries@.len() implies {
                        let e = #[trigger] self.entries@[i];
                        &&& e.product_index < self.products@.len()
                        &&& e.product@ == self.products@[e.product_index as int]@
                        &&& e.tick.depth.wf()
                        &&& slots(self.index).contains_key(key_of(e))
                        &&& slots(self.index)[key_of(e)] == i
                    } by {
                        if i < slot {
                            let e = old(self).entries@[i];
                            assert(self.entries@[i] == e);
                            assert(slots(old(self).index)[key_of(e)] == i);
                            if key_of(e) == key {
                                assert(e.product_index == p);
                                assert(e.tick.expiry == expiry);
                                assert(is_option(e, product@, quantized(strike as int), expiry, right));
                            }
                        }
                    }
                    assert forall|k: OptionKey| #[trigger] slots(self.index).contains_key(k) implies slots(self.index)[k]
                        < self.entries@.len() && key_of(self.entries@[slots(self.index)[k] as int]) == k by {
                        if k != key {
                            assert(slots(old(self).index).contains_key(k));
                        }
                    }
                }
            },
        }
    }

    /// Registers a product's underlying.
    pub fn register_underlying(&mut self, product: &str, instrument_id: InstrumentId)
        requires
            old(self).wf(),
        ensures
            final(self).wf(),
            *final(self) == (MarketDataState {
                underlying_instruments: final(self).underlying_instruments,
                ..*old(self)
            }),
            final(self).underlying_instruments@.contains_key(instrument_id.0),
            final(self).underlying_instruments@[instrument_id.0]@ == product@,
            final(self).underlying_instruments@ == old(self).underlying_instruments@.insert(
                instrument_id.0,
                final(self).underlying_instruments@[instrument_id.0],
            ),
    {
        self.underlying_instruments.insert(instrument_id.0, product.to_owned());
    }

    /// Registers a product's hedge contract.
    pub fn register_hedge_underlying(&mut self, product: &str, instrument_id: InstrumentId)
        requires
            old(self).wf(),
        ensures
            final(self).wf(),
            *final(self) == (MarketDataState {
                hedge_underlying_instruments: final(self).hedge_underlying_instruments,
                ..*old(self)
            }),
            final(self).hedge_underlying_instruments@.contains_key(instrument_id.0),
            final(self).hedge_underlying_instruments@[instrument_id.0]@ == product@,
            final(self).hedge_underlying_instruments@ == old(self).hedge_underlying_instruments@.insert(
                instrument_id.0,
                final(self).hedge_underlying_instruments@[instrument_id.0],
            ),
    {
        self.hedge_underlying_instruments.insert(instrument_id.0, product.to_owned());
    }

    /// The product that an instrument is the underlying of.
    pub fn product_for_underlying(&self, iid: InstrumentId) -> (r: Option<String>)
        ensures
            match r {
                Some(p) => self.underlying_instruments@.contains_key(iid.0) && self.underlying_instruments@[iid.0] == p,
                None => !self.underlying_instruments@.contains_key(iid.0),
            },
    {
        match self.underlying_instruments.get(&iid.0) {
            Some(p) => Some(p.clone()),
            None => None,
        }
    }

    /// The product that an instrument is the hedge contract of.
    pub fn product_for_hedge_underlying(&self, iid: InstrumentId) -> (r: Option<String>)
        ensures
            match r {
                Some(p) => self.hedge_underlying_instruments@.contains_key(iid.0)
                    && self.hedge_underlying_instruments@[iid.0] == p,
                None => !self.hedge_underlying_instruments@.contains_key(iid.0),
            },
    {
        match self.hedge_underlying_instruments.get(&iid.0) {
            Some(p) => Some(p.clone()),
            None => None,
        }
    }

    /// A price in a table of products.
    pub open spec fn price_in(prices: Map<Seq<char>, i64>, product: Seq<char>) -> Option<i64> {
        if prices.dom().contains(product) {
            Some(prices[product])
        } else {
            None
        }
    }

    /// The last price of a product's underlying.
    pub fn underlying_price(&self, product: &str) -> (r: Option<i64>)
        requires
            self.wf(),
        ensures
            r == MarketDataState::price_in(self.underlying@, product@),
            r matches Some(p) ==> p > 0,
    {
        let key = ProductKey { name: product.to_owned() };
        match self.underlying.get(&key) {
            Some(p) => Some(*p),
            None => None,
        }
    }

    /// The last price of a product's hedge contract.
    pub fn hedge_underlying_price(&self, product: &str) -> (r: Option<i64>)
        requires
            self.wf(),
        ensures
            r == MarketDataState::price_in(self.hedge_underlying@, product@),
            r matches Some(p) ==> p > 0,
    {
        let key = ProductKey { name: product.to_owned() };
        match self.hedge_underlying.get(&key) {
            Some(p) => Some(*p),
            None => None,
        }
    }

    /// Sets the price of a product's underlying. One that is not positive is
    /// ignored.
    pub fn set_underlying(&mut self, product: &str, price: i64)
        requires
            old(self).wf(),
        ensures
            final(self).wf(),
            *final(self) == (MarketDataState { underlying: final(self).underlying, ..*old(self) }),
            final(self).underlying@ == MarketDataState::repriced(old(self).underlying@, Some(product@), price),
    {
        if price > 0 {
            self.underlying.insert(ProductKey { name: product.to_owned() }, price);
        }
    }

    /// Prices after a product's price is set: as they were where there is
    /// no product or the price is not positive.
    pub open spec fn repriced(prices: Map<Seq<char>, i64>, product: Option<Seq<char>>, price: i64) -> Map<Seq<char>, i64> {
        match product {
            Some(p) => if price > 0 {
                prices.insert(p, price)
            } else {
                prices
            },
            None => prices,
        }
    }

    /// The name that an instrument is registered under.
    pub open spec fn name_of(names: Map<u64, String>, iid: u64) -> Option<Seq<char>> {
        if names.contains_key(iid) {
            Some(names[iid]@)
        } else {
            None
        }
    }

    /// Whether one option's tick was replaced and nothing else changed.
    pub open spec fn ticked(pre: MarketDataState, iid: InstrumentId, tick: OptionTick, post: MarketDataState) -> bool {
        let i = pre.by_instrument@[iid.0] as int;
        &&& post == (MarketDataState { entries: post.entries, ..pre })
        &&& post.entries@ == pre.entries@.update(i, OptionEntry { tick, ..pre.entries@[i] })
    }

    /// Whether a price moved an underlying or a hedge contract, as the
    /// instrument is registered, and nothing else changed.
    pub open spec fn moved(pre: MarketDataState, iid: InstrumentId, price: i64, post: MarketDataState) -> bool {
        &&& post == (MarketDataState {
            underlying: post.underlying,
            hedge_underlying: post.hedge_underlying,
            ..pre
        })
        &&& post.underlying@ == MarketDataState::repriced(
            pre.underlying@,
            MarketDataState::name_of(pre.underlying_instruments@, iid.0),
            price,
        )
        &&& post.hedge_underlying@ == MarketDataState::repriced(
            pre.hedge_underlying@,
            MarketDataState::name_of(pre.hedge_underlying_instruments@, iid.0),
            price,
        )
    }

    fn move_underlyings(&mut self, iid: InstrumentId, price: i64)
        requires
            old(self).wf(),
        ensures
            final(self).wf(),
            MarketDataState::moved(*old(self), iid, price, *final(self)),
    {
        match self.product_for_underlying(iid) {
            Some(p) => {
                if price > 0 {
                    self.underlying.insert(ProductKey { name: p }, price);
                }
            },
            None => {},
        }
        match self.product_for_hedge_underlying(iid) {
            Some(p) => {
                if price > 0 {
                    self.hedge_underlying.insert(ProductKey { name: p }, price);
                }
            },
            None => {},
        }
    }

    /// An option's position in the book.
    fn slot_of(&self, iid: InstrumentId) -> (r: Option<usize>)
        requires
            self.wf(),
        ensures
            match r {
                Some(i) => self.by_instrument@.contains_key(iid.0) && i == self.by_instrument@[iid.0] && i
                    < self.entries@.len(),
                None => !self.by_instrument@.contains_key(iid.0),
            },
    {
        match self.by_instrument.get(&iid.0) {
            Some(i) => {
                assert(*i < self.entries.len());
                Some(*i as usize)
            },
            None => None,
        }
    }

    /// The option that an instrument is.
    pub open spec fn tick_of(self, iid: InstrumentId) -> OptionTick {
        self.entries@[self.by_instrument@[iid.0] as int].tick
    }

    /// A bid: an option's quote, or the price of an underlying or a hedge
    /// contract. A price that is not positive leaves the price as it is.
    pub fn update_bid(&mut self, iid: InstrumentId, price: i64, size: u64, ts_ns: u64)
        requires
            old(self).wf(),
        ensures
            final(self).wf(),
            if old(self).by_instrument@.contains_key(iid.0) {
                MarketDataState::ticked(
                    *old(self),
                    iid,
                    OptionTick {
                        bid: if price > 0 { price } else { old(self).tick_of(iid).bid },
                        bid_size: size,
                        last_updated_ns: ts_ns,
                        ..old(self).tick_of(iid)
                    },
                    *final(self),
                )
            } else {
                MarketDataState::moved(*old(self), iid, price, *final(self))
            },
    {
        match self.slot_of(iid) {
            Some(i) => {
                if price > 0 {
                    self.entries[i].tick.bid = price;
                }
                self.entries[i].tick.bid_size = size;
                self.entries[i].tick.last_updated_ns = ts_ns;
                proof {
                    let e = old(self).entries@[i as int];
                    let tick = OptionTick {
                        bid: if price > 0 { price } else { e.tick.bid },
                        bid_size: size,
                        last_updated_ns: ts_ns,
                        ..e.tick
                    };
                    let after = OptionEntry { tick, ..e };
                    assert(self.entries@ =~= old(self).entries@.update(i as int, after));
                    lemma_ticked_wf(*old(self), iid, *self);
                }
            },
            None => {
                self.move_underlyings(iid, price);
            },
        }
    }

    /// An ask: an option's quote, or the price of an underlying or a hedge
    /// contract. A price that is not positive leaves the price as it is.
    pub fn update_ask(&mut self, iid: InstrumentId, price: i64, size: u64, ts_ns: u64)
        requires
            old(self).wf(),
        ensures
            final(self).wf(),
            if old(self).by_instrument@.contains_key(iid.0) {
                MarketDataState::ticked(
                    *old(self),
                    iid,
                    OptionTick {
                        ask: if price > 0 { price } else { old(self).tick_of(iid).ask },
                        ask_size: size,
                        last_updated_ns: ts_ns,
                        ..old(self).tick_of(iid)
                    },
                    *final(self),
                )
            } else {
                MarketDataState::moved(*old(self), iid, price, *final(self))
            },
    {
        match self.slot_of(iid) {
            Some(i) => {
                if price > 0 {
                    self.entries[i].tick.ask = price;
                }
                self.entries[i].tick.ask_size = size;
                self.entries[i].tick.last_updated_ns = ts_ns;
                proof {
                    let e = old(self).entries@[i as int];
                    let tick = OptionTick {
                        ask: if price > 0 { price } else { e.tick.ask },
                        ask_size: size,
                        last_updated_ns: ts_ns,
                        ..e.tick
                    };
                    let after = OptionEntry { tick, ..e };
                    assert(self.entries@ =~= old(self).entries@.update(i as int, after));
                    lemma_ticked_wf(*old(self), iid, *self);
                }
            },
            None => {
                self.move_underlyings(iid, price);
            },
        }
    }

    /// A trade: an option's, or the price of an underlying or a hedge
    /// contract. A price that is not positive leaves the price as it is.
    pub fn update_last(&mut self, iid: InstrumentId, price: i64, ts_ns: u64)
        requires
            old(self).wf(),
        ensures
            final(self).wf(),
            if old(self).by_instrument@.contains_key(iid.0) {
                MarketDataState::ticked(
                    *old(self),
                    iid,
                    OptionTick {
                        last: if price > 0 { price } else { old(self).tick_of(iid).last },
                        last_updated_ns: ts_ns,
                        ..old(self).tick_of(iid)
                    },
                    *final(self),
                )
            } else {
                MarketDataState::moved(*old(self), iid, price, *final(self))
            },
    {
        match self.slot_of(iid) {
            Some(i) => {
                if price > 0 {
                    self.entries[i].tick.last = price;
                }
                self.entries[i].tick.last_updated_ns = ts_ns;
                proof {
                    let e = old(self).entries@[i as int];
                    let tick = OptionTick {
                        last: if price > 0 { price } else { e.tick.last },
                        last_updated_ns: ts_ns,
                        ..e.tick
                    };
                    let after = OptionEntry { tick, ..e };
                    assert(self.entries@ =~= old(self).entries@.update(i as int, after));
                    lemma_ticked_wf(*old(self), iid, *self);
                }
            },
            None => {
                self.move_underlyings(iid, price);
            },
        }
    }

    /// The size of an option's bid. Other instruments are ignored.
    pub fn update_bid_size(&mut self, iid: InstrumentId, size: u64, ts_ns: u64)
        requires
            old(self).wf(),
        ensures
            final(self).wf(),
            if old(self).by_instrument@.contains_key(iid.0) {
                MarketDataState::ticked(
                    *old(self),
                    iid,
                    OptionTick { bid_size: size, last_updated_ns: ts_ns, ..old(self).tick_of(iid) },
                    *final(self),
                )
            } else {
                *final(self) == *old(self)
            },
    {
        match self.slot_of(iid) {
            Some(i) => {
                self.entries[i].tick.bid_size = size;
                self.entries[i].tick.last_updated_ns = ts_ns;
                proof {
                    let e = old(self).entries@[i as int];
                    let tick = OptionTick {
                        bid_size: size,
                        last_updated_ns: ts_ns,
                        ..e.tick
                    };
                    let after = OptionEntry { tick, ..e };
                    assert(self.entries@ =~= old(self).entries@.update(i as int, after));
                    lemma_ticked_wf(*old(self), iid, *self);
                }
            },
            None => {},
        }
    }

    /// The size of an option's ask. Other instruments are ignored.
    pub fn update_ask_size(&mut self, iid: InstrumentId, size: u64, ts_ns: u64)
        requires
            old(self).wf(),
        ensures
            final(self).wf(),
            if old(self).by_instrument@.contains_key(iid.0) {
                MarketDataState::ticked(
                    *old(self),
                    iid,
                    OptionTick { ask_size: size, last_updated_ns: ts_ns, ..old(self).tick_of(iid) },
                    *final(self),
                )
            } else {
                *final(self) == *old(self)
            },
    {
        match self.slot_of(iid) {
            Some(i) => {
                self.entries[i].tick.ask_size = size;
                self.entries[i].tick.last_updated_ns = ts_ns;
                proof {
                    let e = old(self).entries@[i as int];
                    let tick = OptionTick {
                        ask_size: size,
                        last_updated_ns: ts_ns,
                        ..e.tick
                    };
                    let after = OptionEntry { tick, ..e };
                    assert(self.entries@ =~= old(self).entries@.update(i as int, after));
                    lemma_ticked_wf(*old(self), iid, *self);
                }
            },
            None => {},
        }
    }

    /// An option's open interest. Other instruments are ignored.
    pub fn update_open_interest(&mut self, iid: InstrumentId, oi: u64, ts_ns: u64)
        requires
            old(self).wf(),
        ensures
            final(self).wf(),
            if old(self).by_instrument@.contains_key(iid.0) {
                MarketDataState::ticked(
                    *old(self),
                    iid,
                    OptionTick { open_interest: oi, last_updated_ns: ts_ns, ..old(self).tick_of(iid) },
                    *final(self),
                )
            } else {
                *final(self) == *old(self)
            },
    {
        match self.slot_of(iid) {
            Some(i) => {
                self.entries[i].tick.open_interest = oi;
                self.entries[i].tick.last_updated_ns = ts_ns;
                proof {
                    let e = old(self).entries@[i as int];
                    let tick = OptionTick {
                        open_interest: oi,
                        last_updated_ns: ts_ns,
                        ..e.tick
                    };
                    let after = OptionEntry { tick, ..e };
                    assert(self.entries@ =~= old(self).entries@.update(i as int, after));
                    lemma_ticked_wf(*old(self), iid, *self);
                }
            },
            None => {},
        }
    }

    /// An option's session volume. Other instruments are ignored.
    pub fn update_option_volume(&mut self, iid: InstrumentId, vol: u64, ts_ns: u64)
        requires
            old(self).wf(),
        ensures
            final(self).wf(),
            if old(self).by_instrument@.contains_key(iid.0) {
                MarketDataState::ticked(
                    *old(self),
                    iid,
                    OptionTick { volume: vol, last_updated_ns: ts_ns, ..old(self).tick_of(iid) },
                    *final(self),
                )
            } else {
                *final(self) == *old(self)
            },
    {
        match self.slot_of(iid) {
            Some(i) => {
                self.entries[i].tick.volume = vol;
                self.entries[i].tick.last_updated_ns = ts_ns;
                proof {
                    let e = old(self).entries@[i as int];
                    let tick = OptionTick {
                        volume: vol,
                        last_updated_ns: ts_ns,
                        ..e.tick
                    };
                    let after = OptionEntry { tick, ..e };
                    assert(self.entries@ =~= old(self).entries@.update(i as int, after));
                    lemma_ticked_wf(*old(self), iid, *self);
                }
            },
            None => {},
        }
    }

    /// A change of an option's depth book. Other instruments are ignored.
    pub fn apply_depth(
        &mut self,
        iid: InstrumentId,
        is_bid: bool,
        position: i32,
        op: i32,
        price: i64,
        size: u64,
        ts_ns: u64,
    )
        requires
            old(self).wf(),
        ensures
            final(self).wf(),
            if old(self).by_instrument@.contains_key(iid.0) {
                let before = old(self).tick_of(iid);
                let after = final(self).tick_of(iid);
                let level = DepthLevel { price, size };
                &&& MarketDataState::ticked(
                    *old(self),
                    iid,
                    OptionTick { depth: after.depth, last_updated_ns: ts_ns, ..before },
                    *final(self),
                )
                &&& DepthBook::applied(before.depth, is_bid, position, op, level, after.depth)
            } else {
                *final(self) == *old(self)
            },
    {
        match self.slot_of(iid) {
            Some(i) => {
                assert(self.entries@[i as int].tick.depth.wf());
                self.entries[i].tick.depth.apply(is_bid, position, op, price, size);
                self.entries[i].tick.last_updated_ns = ts_ns;
                proof {
                    let e = old(self).entries@[i as int];
                    let tick = OptionTick {
                        depth: self.entries@[i as int].tick.depth,
                        last_updated_ns: ts_ns,
                        ..e.tick
                    };
                    let after = OptionEntry { tick, ..e };
                    assert(self.entries@ =~= old(self).entries@.update(i as int, after));
                    lemma_ticked_wf(*old(self), iid, *self);
                }
            },
            None => {},
        }
    }

    /// The option that an instrument is.
    pub fn option_by_iid(&self, iid: InstrumentId) -> (r: Option<&OptionTick>)
        requires
            self.wf(),
        ensures
            match r {
                Some(t) => self.by_instrument@.contains_key(iid.0) && *t == self.tick_of(iid),
                None => !self.by_instrument@.contains_key(iid.0),
            },
    {
        match self.slot_of(iid) {
            Some(i) => Some(&self.entries[i].tick),
            None => None,
        }
    }

    /// An option of the book.
    pub fn option(&self, product: &str, strike: i64, expiry: Date, right: Right) -> (r: Option<&OptionTick>)
        requires
            self.wf(),
        ensures
            r is Some <==> self.lists(product@, strike, expiry, right),
            r matches Some(t) ==> forall|i: int|
                0 <= i < self.entries@.len() && is_option(
                    #[trigger] self.entries@[i],
                    product@,
                    quantized(strike as int),
                    expiry,
                    right,
                ) ==> *t == self.entries@[i].tick,
    {
        match self.find(product, strike, expiry, right) {
            Some(i) => {
                proof {
                    assert forall|k: int|
                        0 <= k < self.entries@.len() && is_option(
                            #[trigger] self.entries@[k],
                            product@,
                            quantized(strike as int),
                            expiry,
                            right,
                        ) implies k == i by {
                        law_option_listed_once(*self, k, i as int);
                    }
                }
                assert(i < self.entries.len());
                Some(&self.entries[i as usize].tick)
            },
            None => None,
        }
    }

    /// Whether these are the positions of a product's options in the book, in
    /// the order of registration.
    pub open spec fn slots_of(self, product: Seq<char>, slots: Seq<usize>) -> bool {
        &&& forall|a: int, b: int| 0 <= a < b < slots.len() ==> slots[a] < slots[b]
        &&& forall|k: int|
            0 <= k < slots.len() ==> (#[trigger] slots[k]) < self.entries@.len() && self.entries@[slots[k] as int].product@
                == product
        &&& forall|i: int|
            0 <= i < self.entries@.len() && (#[trigger] self.entries@[i]).product@ == product ==> exists|k: int|
                0 <= k < slots.len() && slots[k] == i
    }

    /// Where the options of a product are in the book.
    pub fn options_for_product(&self, product: &str) -> (r: Vec<usize>)
        ensures
            MarketDataState::slots_of(*self, product@, r@),
    {
        let mut out: Vec<usize> = Vec::new();
        let mut i: usize = 0;
        while i < self.entries.len()
            invariant
                i <= self.entries@.len(),
                forall|a: int, b: int| 0 <= a < b < out@.len() ==> out@[a] < out@[b],
                forall|k: int|
                    0 <= k < out@.len() ==> (#[trigger] out@[k]) < i && self.entries@[out@[k] as int].product@ == product@,
                forall|j: int|
                    0 <= j < i && (#[trigger] self.entries@[j]).product@ == product@ ==> exists|k: int|
                        0 <= k < out@.len() && out@[k] == j,
            decreases self.entries@.len() - i,
        {
            let ghost before = out@;
            if str_eq(self.entries[i].product.as_str(), product) {
                out.push(i);
            }
            proof {
                assert forall|j: int| 0 <= j < i + 1 && (#[trigger] self.entries@[j]).product@ == product@ implies exists|k: int|
                    0 <= k < out@.len() && out@[k] == j by {
                    if j < i {
                        let k = choose|k: int| 0 <= k < before.len() && before[k] == j;
                        assert(out@[k] == j);
                    } else {
                        assert(out@[out@.len() - 1] == j);
                    }
                }
            }
            i = i + 1;
        }
        out
    }

    /// How many options are in the book.
    pub fn option_count(&self) -> (r: usize)
        ensures
            r == self.entries@.len(),
    {
        self.entries.len()
    }

    /// What identifies the option that an instrument is.
    pub fn option_meta(&self, iid: InstrumentId) -> (r: Option<OptionMeta>)
        requires
            self.wf(),
        ensures
            match r {
                Some(m) => self.by_instrument@.contains_key(iid.0) && ({
                    let e = self.entries@[self.by_instrument@[iid.0] as int];
                    m.product == e.product && m.strike == e.tick.strike && m.expiry == e.tick.expiry && m.right == e.tick.right
                }),
                None => !self.by_instrument@.contains_key(iid.0),
            },
    {
        match self.slot_of(iid) {
            Some(i) => {
                let e = &self.entries[i];
                Some(
                    OptionMeta {
                        product: e.product.clone(),
                        strike: e.tick.strike,
                        expiry: e.tick.expiry,
                        right: e.tick.right,
                    },
                )
            },
            None => None,
        }
    }
}

impl Default for MarketDataState {
    fn default() -> (r: MarketDataState)
        ensures
            r.wf(),
            r.entries@ == Seq::<OptionEntry>::empty(),
            r.products@ == Seq::<String>::empty(),
            r.underlying@ == Map::<Seq<char>, i64>::empty(),
            r.hedge_underlying@ == Map::<Seq<char>, i64>::empty(),
            r.by_instrument@ == Map::<u64, u64>::empty(),
            r.underlying_instruments@ == Map::<u64, String>::empty(),
            r.hedge_underlying_instruments@ == Map::<u64, String>::empty(),
    {
        MarketDataState::new()
    }
}

proof fn lemma_ticked_wf(pre: MarketDataState, iid: InstrumentId, post: MarketDataState)
    requires
        pre.wf(),
        pre.by_instrument@.contains_key(iid.0),
        ({
            let i = pre.by_instrument@[iid.0] as int;
            &&& post == (MarketDataState { entries: post.entries, ..pre })
            &&& post.entries@.len() == pre.entries@.len()
            &&& post.entries@ =~= pre.entries@.update(i, post.entries@[i])
            &&& key_of(post.entries@[i]) == key_of(pre.entries@[i])
            &&& post.entries@[i].product == pre.entries@[i].product
            &&& post.entries@[i].tick.depth.wf()
        }),
    ensures
        post.wf(),
{
    let s = pre.by_instrument@[iid.0] as int;
    assert forall|i: int| 0 <= i < post.entries@.len() implies {
        let e = #[trigger] post.entries@[i];
        &&& e.product_index < post.products@.len()
        &&& e.product@ == post.products@[e.product_index as int]@
        &&& e.tick.depth.wf()
        &&& slots(post.index).contains_key(key_of(e))
        &&& slots(post.index)[key_of(e)] == i
    } by {
        let e = pre.entries@[i];
        assert(slots(pre.index)[key_of(e)] == i);
        if i == s {
            assert(post.entries@[i].product_index == e.product_index);
        } else {
            assert(post.entries@[i] == e);
        }
    }
    assert forall|k: OptionKey| #[trigger] slots(post.index).contains_key(k) implies slots(post.index)[k]
        < post.entries@.len() && key_of(post.entries@[slots(post.index)[k] as int]) == k by {
        assert(key_of(pre.entries@[slots(pre.index)[k] as int]) == k);
    }
}

/// No option is in the book twice.
pub proof fn law_option_listed_once(s: MarketDataState, i: int, j: int)
    requires
        s.wf(),
        0 <= i < s.entries@.len(),
        0 <= j < s.entries@.len(),
        s.entries@[i].product@ == s.entries@[j].product@,
        s.entries@[i].strike_key == s.entries@[j].strike_key,
        s.entries@[i].tick.expiry == s.entries@[j].tick.expiry,
        s.entries@[i].tick.right == s.entries@[j].tick.right,
    ensures
        i == j,
{
    let a = s.entries@[i];
    let b = s.entries@[j];
    let p = a.product_index as int;
    let q = b.product_index as int;
    if p < q {
        assert(s.products@[p]@ != s.products@[q]@);
    } else if q < p {
        assert(s.products@[q]@ != s.products@[p]@);
    }
    assert(key_of(a) == key_of(b));
    assert(slots(s.index)[key_of(a)] == i);
    assert(slots(s.index)[key_of(b)] == j);
}

/// A tick of an option leaves every underlying and hedge price as it was, and
/// every other option.
pub proof fn law_option_tick_is_local(pre: MarketDataState, iid: InstrumentId, tick: OptionTick, post: MarketDataState, i: int)
    requires
        pre.wf(),
        pre.by_instrument@.contains_key(iid.0),
        MarketDataState::ticked(pre, iid, tick, post),
        0 <= i < pre.entries@.len(),
        i != pre.by_instrument@[iid.0],
    ensures
        post.underlying == pre.underlying,
        post.hedge_underlying == pre.hedge_underlying,
        post.entries@[i] == pre.entries@[i],
        post.tick_of(iid) == tick,
{
}

/// Strikes are told apart to the ten-thousandth: a key is the nearest one,
/// the same on both sides of zero.
pub proof fn law_strike_keys_are_nearest(strike: int)
    ensures
        -50_000 <= quantized(strike) * 100_000 - strike <= 50_000,
        quantized(-strike) == -quantized(strike),
        strike % 100_000 == 0 ==> quantized(strike) * 100_000 == strike,
{
}

/// An option that was registered is listed, its instrument leads to it, and
/// no other option and no other instrument changes.
pub proof fn law_registered_option_is_listed(
    pre: MarketDataState,
    product: Seq<char>,
    strike: i64,
    expiry: Date,
    right: Right,
    iid: InstrumentId,
    post: MarketDataState,
)
    requires
        pre.wf(),
        post.wf(),
        MarketDataState::registered(pre, product, strike, expiry, right, iid, post),
    ensures
        post.lists(product, strike, expiry, right),
        post.trades(product),
        post.by_instrument@.contains_key(iid.0),
        post.tick_of(iid).expiry == expiry,
        post.tick_of(iid).right == right,
        forall|i: int| 0 <= i < pre.entries@.len() ==> #[trigger] post.entries@[i] == pre.entries@[i],
        !pre.lists(product, strike, expiry, right) ==> {
            let t = post.tick_of(iid);
            t.strike == strike && t.bid == 0 && t.ask == 0 && t.last == 0 && t.iv == 0
        },
        forall|other: u64| other != iid.0 ==> (#[trigger] post.by_instrument@.contains_key(other)
            <==> pre.by_instrument@.contains_key(other)),
        forall|other: u64| other != iid.0 && pre.by_instrument@.contains_key(other) ==> #[trigger] post.tick_of(
            InstrumentId(other),
        ) == pre.tick_of(InstrumentId(other)),
{
    let s = post.by_instrument@[iid.0] as int;
    assert(is_option(post.entries@[s], product, quantized(strike as int), expiry, right));
    assert forall|i: int| 0 <= i < pre.entries@.len() implies #[trigger] post.entries@[i] == pre.entries@[i] by {
        if !pre.lists(product, strike, expiry, right) {
            assert(post.entries@.drop_last()[i] == pre.entries@[i]);
        }
    }
    if !pre.lists(product, strike, expiry, right) {
        if s < pre.entries@.len() {
            assert(is_option(pre.entries@[s], product, quantized(strike as int), expiry, right));
            assert(false);
        }
        assert(post.entries@[s] == post.entries@.last());
    }
    if !pre.trades(product) {
        assert(post.products@[post.products@.len() - 1]@ == product);
    } else {
        let i = choose|i: int| 0 <= i < pre.products@.len() && (#[trigger] pre.products@[i])@ == product;
        assert(post.products@[i]@ == product);
    }
}

/// What is found for an option is of its product, its expiry and its right,
/// at its strike to the ten-thousandth.
pub proof fn law_found_option_is_the_one_asked_for(
    e: OptionEntry,
    product: Seq<char>,
    strike: i64,
    expiry: Date,
    right: Right,
)
    requires
        is_option(e, product, quantized(strike as int), expiry, right),
    ensures
        e.product@ == product,
        e.tick.expiry.year == expiry.year && e.tick.expiry.month == expiry.month && e.tick.expiry.day == expiry.day,
        e.tick.right is Call <==> right is Call,
        -50_000 <= e.strike_key * 100_000 - strike <= 50_000,
{
}

/// A positive price reaches the product that the instrument is the underlying
/// of, and no other product; the hedge contracts' prices go by their own
/// instruments.
pub proof fn law_prices_reach_their_product(pre: MarketDataState, iid: InstrumentId, price: i64, post: MarketDataState)
    requires
        MarketDataState::moved(pre, iid, price, post),
    ensures
        price > 0 && pre.underlying_instruments@.contains_key(iid.0) ==> MarketDataState::price_in(
            post.underlying@,
            pre.underlying_instruments@[iid.0]@,
        ) == Some(price),
        price > 0 && pre.hedge_underlying_instruments@.contains_key(iid.0) ==> MarketDataState::price_in(
            post.hedge_underlying@,
            pre.hedge_underlying_instruments@[iid.0]@,
        ) == Some(price),
        forall|p: Seq<char>|
            price <= 0 || !pre.underlying_instruments@.contains_key(iid.0) || pre.underlying_instruments@[iid.0]@ != p
                ==> #[trigger] MarketDataState::price_in(post.underlying@, p) == MarketDataState::price_in(
                pre.underlying@,
                p,
            ),
        forall|p: Seq<char>|
            price <= 0 || !pre.hedge_underlying_instruments@.contains_key(iid.0)
                || pre.hedge_underlying_instruments@[iid.0]@ != p ==> #[trigger] MarketDataState::price_in(
                post.hedge_underlying@,
                p,
            ) == MarketDataState::price_in(pre.hedge_underlying@, p),
        post.entries == pre.entries,
        post.by_instrument == pre.by_instrument,
{
}

/// A price that was set is the price that is read, where it is positive; no
/// other product's changes.
pub proof fn law_set_price_is_read(prices: Map<Seq<char>, i64>, product: Seq<char>, price: i64, other: Seq<char>)
    ensures
        price > 0 ==> MarketDataState::price_in(MarketDataState::repriced(prices, Some(product), price), product) == Some(
            price,
        ),
        price <= 0 || other != product ==> MarketDataState::price_in(
            MarketDataState::repriced(prices, Some(product), price),
            other,
        ) == MarketDataState::price_in(prices, other),
{
}

} // verus!
