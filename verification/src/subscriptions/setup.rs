//! Bringing a product up: the front future, its hedge contract, its options.

use crate::api::{
    ChainQuery, Contract, ContractKind, Currency, Decimal, Exchange, OptionQuery, Right, TickSubscription,
};
use crate::config::ProductConfig;
use crate::dates::{
    date_text, day_number, format_yyyymmdd, law_days_are_counted_one_by_one, law_days_follow_dates,
    law_yyyymmdd_shows_the_date, month_days, ymd_text, Date,
};
use crate::ipc::commands::{named_contract, right_letter, ContractKey, PlaceOrderCmd};
use crate::market_data::state::{law_strike_keys_are_nearest, quantized, strike_key, MarketDataState};
use crate::subscriptions::window::OptionLeg;
use crate::table::Table;
use crate::text::str_eq;
use std::collections::HashMap;
use vstd::prelude::*;
use vstd::string::*;

verus! {

broadcast use vstd::std_specs::hash::group_hash_axioms;

/// How long the first price of an underlying is waited for, in milliseconds.
pub const UNDERLYING_WAIT_MS: u64 = 10_000;

/// How often it is looked for, in milliseconds.
pub const UNDERLYING_POLL_MS: u64 = 100;

/// Asks for a product's futures that have not expired.
pub fn front_query(symbol: &str, today: Date) -> (r: ChainQuery)
    ensures
        r.symbol@ == symbol@,
        r.kind == Some(ContractKind::Future),
        r.exchange == Exchange::Comex,
        r.currency == Currency::Usd,
        r.min_expiry == Some(today),
{
    ChainQuery {
        symbol: symbol.to_owned(),
        kind: Some(ContractKind::Future),
        exchange: Exchange::Comex,
        currency: Currency::Usd,
        min_expiry: Some(today),
    }
}

/// The first contract that no other expires before.
pub open spec fn is_front(chain: Seq<Contract>, i: int) -> bool {
    &&& 0 <= i < chain.len()
    &&& forall|j: int| 0 <= j < chain.len() ==> !(#[trigger] chain[j]).expiry.earlier(chain[i].expiry)
    &&& forall|j: int| 0 <= j < i ==> chain[i].expiry.earlier((#[trigger] chain[j]).expiry)
}

/// The front future of a chain: the one that expires first, and of those that
/// expire together the first.
pub fn front_contract(symbol: &str, chain: &Vec<Contract>) -> (r: Result<Contract, String>)
    ensures
        match r {
            Ok(c) => exists|i: int| #[trigger] is_front(chain@, i) && c == chain@[i],
            Err(why) => chain@.len() == 0 && why@ == "no futures in chain for "@ + symbol@,
        },
{
    if chain.len() == 0 {
        let mut why = "no futures in chain for ".to_owned();
        why.append(symbol);
        return Err(why);
    }
    let mut best: usize = 0;
    let mut i: usize = 1;
    while i < chain.len()
        invariant
            best < i <= chain@.len(),
            forall|j: int| 0 <= j < i ==> !(#[trigger] chain@[j]).expiry.earlier(chain@[best as int].expiry),
            forall|j: int| 0 <= j < best ==> chain@[best as int].expiry.earlier((#[trigger] chain@[j]).expiry),
        decreases chain@.len() - i,
    {
        if chain[i].expiry.is_before(&chain[best].expiry) {
            best = i;
        }
        i = i + 1;
    }
    assert(is_front(chain@, best as int));
    Ok(chain[best].clone())
}

/// The day before a date.
pub open spec fn previous_day(d: Date) -> Date {
    if d.day > 1 {
        Date { year: d.year, month: d.month, day: (d.day - 1) as u32 }
    } else if d.month > 1 {
        Date { year: d.year, month: (d.month - 1) as u32, day: month_days(d.year as int, d.month - 1) as u32 }
    } else {
        Date { year: (d.year - 1) as i32, month: 12, day: 31 }
    }
}

/// The expiry of the options that are quoted: they trade until the day before
/// their future's last day.
pub fn pick_option_expiry(underlying: &Contract) -> (r: Date)
    requires
        underlying.expiry.valid(),
        underlying.expiry.year > -262143,
    ensures
        r == previous_day(underlying.expiry),
        r.valid(),
        r.earlier(underlying.expiry),
{
    let d = underlying.expiry;
    if d.day > 1 {
        Date { year: d.year, month: d.month, day: d.day - 1 }
    } else if d.month > 1 {
        let m: u32 = d.month - 1;
        let days: u32 = if m == 2 {
            if d.year % 4 == 0 && (d.year % 100 != 0 || d.year % 400 == 0) {
                29
            } else {
                28
            }
        } else if m == 4 || m == 6 || m == 9 || m == 11 {
            30
        } else {
            31
        };
        Date { year: d.year, month: m, day: days }
    } else {
        Date { year: d.year - 1, month: 12, day: 31 }
    }
}

fn feed(c: &Contract) -> (r: TickSubscription)
    ensures
        r.instrument_id == c.instrument_id,
        r.contract == Some(*c),
{
    TickSubscription { instrument_id: c.instrument_id, contract: Some(c.clone()) }
}

/// Registers a product's underlying and returns what to subscribe to.
pub fn begin_underlying(md: &mut MarketDataState, symbol: &str, underlying: &Contract) -> (r: TickSubscription)
    requires
        old(md).wf(),
    ensures
        final(md).wf(),
        *final(md) == (MarketDataState { underlying_instruments: final(md).underlying_instruments, ..*old(md) }),
        final(md).underlying_instruments@.contains_key(underlying.instrument_id.0),
        final(md).underlying_instruments@[underlying.instrument_id.0]@ == symbol@,
        final(md).underlying_instruments@ == old(md).underlying_instruments@.insert(
            underlying.instrument_id.0,
            final(md).underlying_instruments@[underlying.instrument_id.0],
        ),
        r.instrument_id == underlying.instrument_id,
        r.contract == Some(*underlying),
{
    md.register_underlying(symbol, underlying.instrument_id);
    feed(underlying)
}

/// Where a product's hedge is marked.
#[derive(Debug)]
pub enum HedgeFeed {
    /// No hedge contract was resolved; hedges cannot be marked.
    Unresolved,
    /// The hedge contract is the underlying, whose ticks already come.
    Shared,
    /// The hedge contract has ticks of its own. Its price can differ from the
    /// underlying's by the calendar spread.
    Own(TickSubscription),
}

/// Registers a product's hedge contract, if it is resolved, and returns
/// whether its ticks must be subscribed to.
pub fn begin_hedge(md: &mut MarketDataState, symbol: &str, hedge: Option<&Contract>, underlying: &Contract) -> (r:
    HedgeFeed)
    requires
        old(md).wf(),
    ensures
        final(md).wf(),
        match hedge {
            None => r is Unresolved && *final(md) == *old(md),
            Some(c) => {
                &&& *final(md) == (MarketDataState {
                    hedge_underlying_instruments: final(md).hedge_underlying_instruments,
                    ..*old(md)
                })
                &&& final(md).hedge_underlying_instruments@.contains_key(c.instrument_id.0)
                &&& final(md).hedge_underlying_instruments@[c.instrument_id.0]@ == symbol@
                &&& final(md).hedge_underlying_instruments@ == old(md).hedge_underlying_instruments@.insert(
                    c.instrument_id.0,
                    final(md).hedge_underlying_instruments@[c.instrument_id.0],
                )
                &&& match r {
                    HedgeFeed::Unresolved => false,
                    HedgeFeed::Shared => c.instrument_id == underlying.instrument_id,
                    HedgeFeed::Own(s) => c.instrument_id != underlying.instrument_id && s.instrument_id
                        == c.instrument_id && s.contract == Some(*c),
                }
            },
        },
{
    match hedge {
        None => HedgeFeed::Unresolved,
        Some(c) => {
            md.register_hedge_underlying(symbol, c.instrument_id);
            if c.instrument_id.0 == underlying.instrument_id.0 {
                HedgeFeed::Shared
            } else {
                HedgeFeed::Own(feed(c))
            }
        },
    }
}

/// What waiting for the first price of an underlying leads to.
#[derive(Clone, Copy, Debug, PartialEq, Eq, Structural)]
pub enum PriceWait {
    Price(i64),
    Wait,
    /// It did not come in time; options are not subscribed to.
    GiveUp,
}

/// What a look for the first price leads to.
pub open spec fn price_look(price: Option<i64>, waited_ms: u64) -> PriceWait {
    if waited_ms >= UNDERLYING_WAIT_MS {
        PriceWait::GiveUp
    } else if price is Some && price->0 > 0 {
        PriceWait::Price(price->0)
    } else {
        PriceWait::Wait
    }
}

/// What a look for the first price leads to, `waited_ms` after the underlying
/// was subscribed to.
pub fn price_wait(price: Option<i64>, waited_ms: u64) -> (r: PriceWait)
    ensures
        r == price_look(price, waited_ms),
{
    if waited_ms >= UNDERLYING_WAIT_MS {
        return PriceWait::GiveUp;
    }
    match price {
        Some(p) => if p > 0 {
            PriceWait::Price(p)
        } else {
            PriceWait::Wait
        },
        None => PriceWait::Wait,
    }
}

/// The symbol under which a product's options trade.
pub open spec fn option_symbol(product: Seq<char>) -> Seq<char> {
    if product == "HG"@ {
        "HXE"@
    } else {
        product
    }
}

/// The symbol under which a product's options trade: copper's differ from
/// their future's.
pub fn option_symbol_for(product: &ProductConfig) -> (r: String)
    ensures
        r@ == option_symbol(product.name@),
{
    if str_eq(product.name.as_str(), "HG") {
        "HXE".to_owned()
    } else {
        product.name.clone()
    }
}

/// Asks for a leg's contract.
pub fn option_query(product: &ProductConfig, leg: &OptionLeg, strike: Decimal) -> (r: OptionQuery)
    ensures
        r.symbol@ == option_symbol(product.name@),
        r.expiry == leg.expiry,
        r.strike == strike,
        r.right == leg.right,
        r.multiplier == product.multiplier,
        r.exchange == Exchange::Comex,
        r.currency == Currency::Usd,
{
    OptionQuery {
        symbol: option_symbol_for(product),
        expiry: leg.expiry,
        strike,
        right: leg.right,
        multiplier: product.multiplier,
        exchange: Exchange::Comex,
        currency: Currency::Usd,
    }
}

/// The options' contracts, by instrument and by what the trader calls them.
#[derive(Debug)]
pub struct ContractBook {
    pub qualified: HashMap<u64, Contract>,
    pub by_key: Table<ContractKey, Contract>,
}

/// What the trader calls a leg.
pub open spec fn leg_id(leg: OptionLeg) -> (i64, Seq<char>, char) {
    (
        quantized(leg.strike as int) as i64,
        date_text(leg.expiry.year as int, leg.expiry.month as int, leg.expiry.day as int),
        match leg.right {
            Right::Call => 'C',
            Right::Put => 'P',
        },
    )
}

impl ContractBook {
    /// No contract is known.
    pub fn new() -> (r: ContractBook)
        ensures
            r.by_key.wf(),
            r.qualified@ == Map::<u64, Contract>::empty(),
            r.by_key@ == Map::<(i64, Seq<char>, char), Contract>::empty(),
    {
        ContractBook { qualified: HashMap::new(), by_key: Table::new() }
    }

    /// Takes a leg's contract in: the option is in the book of the market,
    /// the contract is found by its instrument and by what the trader calls
    /// the leg. Returns what to subscribe to.
    pub fn accept(&mut self, md: &mut MarketDataState, product: &str, leg: &OptionLeg, contract: &Contract) -> (r:
        TickSubscription)
        requires
            old(self).by_key.wf(),
            old(md).wf(),
            leg.expiry.valid(),
            old(md).entries@.len() < u64::MAX,
        ensures
            final(self).by_key.wf(),
            final(md).wf(),
            MarketDataState::registered(
                *old(md),
                product@,
                leg.strike,
                leg.expiry,
                leg.right,
                contract.instrument_id,
                *final(md),
            ),
            final(self).qualified@ == old(self).qualified@.insert(contract.instrument_id.0, *contract),
            final(self).by_key@ == old(self).by_key@.insert(leg_id(*leg), *contract),
            r.instrument_id == contract.instrument_id,
            r.contract == Some(*contract),
    {
        md.register_option(product, leg.strike, leg.expiry, leg.right, contract.instrument_id);
        self.qualified.insert(contract.instrument_id.0, contract.clone());
        let right: char = match leg.right {
            Right::Call => 'C',
            Right::Put => 'P',
        };
        let key = ContractKey { strike_key: strike_key(leg.strike), expiry: format_yyyymmdd(&leg.expiry), right };
        self.by_key.insert(key, contract.clone());
        feed(contract)
    }
}

/// A command that names a leg finds the contract that was taken in for it:
/// the strike may differ by less than half a ten-thousandth, the right may be
/// in either case.
pub proof fn law_accepted_leg_is_found(
    before: ContractBook,
    after: ContractBook,
    leg: OptionLeg,
    contract: Contract,
    cmd: PlaceOrderCmd,
)
    requires
        after.by_key@ == before.by_key@.insert(leg_id(leg), contract),
        cmd.strike.nanos() is Some,
        quantized(cmd.strike.nanos()->0 as int) == quantized(leg.strike as int),
        cmd.expiry@ == leg_id(leg).1,
        right_letter(cmd.right@) == leg_id(leg).2,
    ensures
        named_contract(after.by_key, cmd) == Some(contract),
{
}

/// Options expire on the day before their future does.
pub proof fn law_options_expire_the_day_before(d: Date)
    requires
        d.valid(),
        d.year > -262143,
    ensures
        previous_day(d).valid(),
        day_number(previous_day(d)) + 1 == day_number(d),
{
    let p = previous_day(d);
    law_days_are_counted_one_by_one(p, d);
}

/// The front contract is one of the chain's, and none of them expires before
/// it.
pub proof fn law_front_expires_first(chain: Seq<Contract>, i: int, j: int)
    requires
        is_front(chain, i),
        0 <= j < chain.len(),
        chain[i].expiry.valid(),
        chain[j].expiry.valid(),
    ensures
        day_number(chain[i].expiry) <= day_number(chain[j].expiry),
{
    assert(!chain[j].expiry.earlier(chain[i].expiry));
    if chain[i].expiry != chain[j].expiry {
        law_days_follow_dates(chain[i].expiry, chain[j].expiry);
    }
}

/// Copper options go by a name of their own; every other product's go by the
/// product's.
pub proof fn law_options_go_by_their_symbol(product: Seq<char>)
    ensures
        product == "HG"@ ==> option_symbol(product) == "HXE"@,
        product != "HG"@ ==> option_symbol(product) == product,
{
}

/// An order finds a leg by its expiry as eight digits, by `C` for a call and
/// `P` for a put, and by its strike to the ten-thousandth.
pub proof fn law_legs_are_filed_by_what_they_are(leg: OptionLeg)
    ensures
        leg_id(leg).2 == 'C' <==> leg.right is Call,
        leg_id(leg).2 == 'P' <==> leg.right is Put,
        -50_000 <= leg_id(leg).0 * 100_000 - leg.strike <= 50_000,
        leg.expiry.valid() && 0 <= leg.expiry.year <= 9999 ==> leg_id(leg).1 == ymd_text(leg.expiry),
{
    law_strike_keys_are_nearest(leg.strike as int);
    if leg.expiry.valid() && 0 <= leg.expiry.year <= 9999 {
        law_yyyymmdd_shows_the_date(leg.expiry);
    }
}

/// A positive price ends the wait with that price, for ten seconds; then the
/// wait ends without one.
pub proof fn law_first_price_ends_the_wait(price: Option<i64>, waited_ms: u64)
    ensures
        price matches Some(p) ==> (p > 0 && waited_ms < 10_000 ==> price_look(price, waited_ms) == PriceWait::Price(p)),
        price matches Some(p) ==> (p <= 0 && waited_ms < 10_000 ==> price_look(price, waited_ms) is Wait),
        price is None && waited_ms < 10_000 ==> price_look(price, waited_ms) is Wait,
        waited_ms >= 10_000 ==> price_look(price, waited_ms) is GiveUp,
{
}

} // verus!
