//! What pricing and risk read of the market.

use crate::api::Right;
use crate::dates::Date;
use crate::market_data::option_state::OptionTick;
use crate::market_data::state::{is_option, quantized, MarketDataState};
use vstd::prelude::*;

verus! {

/// A read-only view of the market.
pub struct MarketDataView<'a> {
    pub state: &'a MarketDataState,
}

/// A figure that is known only where it is positive.
pub open spec fn if_positive(x: i64) -> Option<i64> {
    if x > 0 {
        Some(x)
    } else {
        None
    }
}

/// What an option is worth, where that is known.
pub open spec fn worth_if_any(t: OptionTick) -> Option<i128> {
    if t.worth() > 0 {
        Some(t.worth())
    } else {
        None
    }
}

impl MarketDataState {
    /// The implied volatility of an option of the book, where one is known.
    pub fn iv_for(&self, product: &str, strike: i64, expiry: Date, right: Right) -> (r: Option<i64>)
        requires
            self.wf(),
        ensures
            !self.lists(product@, strike, expiry, right) ==> r is None,
            forall|i: int|
                0 <= i < self.entries@.len() && is_option(
                    #[trigger] self.entries@[i],
                    product@,
                    quantized(strike as int),
                    expiry,
                    right,
                ) ==> r == if_positive(self.entries@[i].tick.iv),
    {
        match self.option(product, strike, expiry, right) {
            Some(t) => if t.iv > 0 {
                Some(t.iv)
            } else {
                None
            },
            None => None,
        }
    }

    /// What an option of the book is worth, in halves of a billionth, where
    /// that is known.
    pub fn current_price(&self, product: &str, strike: i64, expiry: Date, right: Right) -> (r: Option<i128>)
        requires
            self.wf(),
        ensures
            !self.lists(product@, strike, expiry, right) ==> r is None,
            forall|i: int|
                0 <= i < self.entries@.len() && is_option(
                    #[trigger] self.entries@[i],
                    product@,
                    quantized(strike as int),
                    expiry,
                    right,
                ) ==> r == worth_if_any(self.entries@[i].tick),
    {
        match self.option(product, strike, expiry, right) {
            Some(t) => {
                let p: i128 = t.current_price();
                if p > 0 {
                    Some(p)
                } else {
                    None
                }
            },
            None => None,
        }
    }
}

impl<'a> MarketDataView<'a> {
    /// A view of a market.
    pub fn new(state: &'a MarketDataState) -> (r: MarketDataView<'a>)
        ensures
            *r.state == *state,
    {
        MarketDataView { state }
    }

    /// The last price of a product's underlying.
    pub fn underlying_price(&self, product: &str) -> (r: Option<i64>)
        requires
            self.state.wf(),
        ensures
            r == MarketDataState::price_in(self.state.underlying@, product@),
    {
        self.state.underlying_price(product)
    }

    /// The implied volatility of an option of the book, where one is known.
    pub fn iv_for(&self, product: &str, strike: i64, expiry: Date, right: Right) -> (r: Option<i64>)
        requires
            self.state.wf(),
        ensures
            !self.state.lists(product@, strike, expiry, right) ==> r is None,
            forall|i: int|
                0 <= i < self.state.entries@.len() && is_option(
                    #[trigger] self.state.entries@[i],
                    product@,
                    quantized(strike as int),
                    expiry,
                    right,
                ) ==> r == if_positive(self.state.entries@[i].tick.iv),
    {
        self.state.iv_for(product, strike, expiry, right)
    }

    /// What an option of the book is worth, in halves of a billionth, where
    /// that is known.
    pub fn current_price(&self, product: &str, strike: i64, expiry: Date, right: Right) -> (r: Option<i128>)
        requires
            self.state.wf(),
        ensures
            !self.state.lists(product@, strike, expiry, right) ==> r is None,
            forall|i: int|
                0 <= i < self.state.entries@.len() && is_option(
                    #[trigger] self.state.entries@[i],
                    product@,
                    quantized(strike as int),
                    expiry,
                    right,
                ) ==> r == worth_if_any(self.state.entries@[i].tick),
    {
        self.state.current_price(product, strike, expiry, right)
    }
}

/// A volatility is told where one was solved, and a price where there is one.
pub proof fn law_what_is_known_is_told(x: i64, t: OptionTick)
    ensures
        x > 0 ==> if_positive(x) == Some(x),
        x <= 0 ==> if_positive(x) is None,
        0 < t.bid < t.ask ==> worth_if_any(t) is Some && worth_if_any(t)->0 == t.bid + t.ask,
        !(0 < t.bid < t.ask) && t.last > 0 ==> worth_if_any(t) is Some && worth_if_any(t)->0 == t.last + t.last,
        !(0 < t.bid < t.ask) && t.last <= 0 ==> worth_if_any(t) is None,
{
}

} // verus!
