//! The option chain as it is shown: per expiry and strike, the market, our
//! orders and our position.

use crate::api::{ContractKind, OpenOrder, OrderStatus, Right, Side};
use crate::dates::{four_digits, law_four_digits_read_back, Date};
use crate::market_data::option_state::{all_ours, best_external, law_best_of_others_is_not_ours, OptionTick};
use crate::market_data::state::{law_option_listed_once, MarketDataState};
use crate::portfolio::OptionPosition;
use crate::rounding::{law_rounding_is_nearest, rounded};
use crate::subscriptions::window::to_increment;
use crate::table::{Table, TableKey};
use crate::text::{digit_of, digits, digits_value, law_digits_read_back, push_u64, str_eq};
use vstd::prelude::*;
use vstd::string::*;

verus! {

/// Strikes that differ by less are the same, in billionths.
pub const STRIKE_EPS: i64 = 1000;

/// The grid that the money is shown on, in billionths.
pub const ATM_GRID: i64 = 50_000_000;

/// One side of a strike, prices in billionths.
#[derive(Clone, Copy, Debug, PartialEq, Eq, Structural)]
pub struct SideBlock {
    /// Best quotes of others where the depth book shows them, else the
    /// market's.
    pub market_bid: i64,
    pub market_ask: i64,
    pub bid_size: u64,
    pub ask_size: u64,
    pub last: i64,
    pub pos: i32,
    pub our_bid: Option<i64>,
    pub our_ask: Option<i64>,
    pub theo: Option<i64>,
    pub open_interest: u64,
    pub volume: u64,
    /// Whether our order is at the exchange, not only at the gateway.
    pub bid_live: bool,
    pub ask_live: bool,
    pub raw_bid: i64,
    pub raw_ask: i64,
}

/// Call and put of a strike.
#[derive(Clone, Copy, Debug, PartialEq, Eq, Structural)]
pub struct StrikeBlock {
    pub call: Option<SideBlock>,
    pub put: Option<SideBlock>,
}

/// Names a strike: expiry and strike in ten-thousandths.
#[derive(Clone, Copy, Debug, PartialEq, Eq, Structural)]
pub struct ChainKey {
    pub expiry: Date,
    pub strike_key: i64,
}

impl TableKey for ChainKey {
    type Id = (Date, i64);

    open spec fn id(&self) -> (Date, i64) {
        (self.expiry, self.strike_key)
    }

    fn same(&self, other: &ChainKey) -> (r: bool) {
        self.strike_key == other.strike_key && self.expiry.year == other.expiry.year && self.expiry.month
            == other.expiry.month && self.expiry.day == other.expiry.day
    }
}

/// The chain.
#[derive(Debug)]
pub struct ChainBuild {
    pub blocks: Table<ChainKey, StrikeBlock>,
    /// Strike at the money; 0 where there is no price.
    pub atm_strike: i64,
    /// Expiries, earliest first.
    pub expiries: Vec<Date>,
    pub front_month_expiry: Option<Date>,
}

// Our orders and positions

/// Whether two strikes are the same.
pub open spec fn same_strike(a: i64, b: i64) -> bool {
    -STRIKE_EPS < a - b < STRIKE_EPS
}

fn near(a: i64, b: i64) -> (r: bool)
    ensures
        r == same_strike(a, b),
{
    let d: i128 = a as i128 - b as i128;
    -(STRIKE_EPS as i128) < d && d < STRIKE_EPS as i128
}

/// The quantity of the first position in an option, 0 where there is none.
pub open spec fn position_in(positions: Seq<OptionPosition>, product: Seq<char>, t: OptionTick) -> i32
    decreases positions.len(),
{
    if positions.len() == 0 {
        0
    } else {
        let p = positions.first();
        if p.product@ == product && same_strike(p.strike, t.strike) && p.expiry == t.expiry && p.right == t.right {
            p.quantity
        } else {
            position_in(positions.drop_first(), product, t)
        }
    }
}

fn find_position(positions: &Vec<OptionPosition>, product: &str, t: &OptionTick) -> (r: i32)
    ensures
        r == position_in(positions@, product@, *t),
{
    let mut i: usize = 0;
    assert(positions@.skip(0) =~= positions@);
    while i < positions.len()
        invariant
            i <= positions@.len(),
            position_in(positions@, product@, *t) == position_in(positions@.skip(i as int), product@, *t),
        decreases positions@.len() - i,
    {
        let p = &positions[i];
        assert(positions@.skip(i as int).first() == *p);
        assert(positions@.skip(i as int).drop_first() =~= positions@.skip(i + 1));
        if near(p.strike, t.strike) && p.right == t.right && p.expiry == t.expiry && str_eq(
            p.product.as_str(),
            product,
        ) {
            return p.quantity;
        }
        i = i + 1;
    }
    0
}

/// An order's strike in billionths, 0 where its contract has none.
pub open spec fn order_strike(o: OpenOrder) -> i64 {
    match o.contract.strike {
        Some(s) => s.value.billionths(),
        None => 0,
    }
}

/// An order's price in billionths.
pub open spec fn order_price(o: OpenOrder) -> Option<i64> {
    match o.price {
        Some(p) => Some(p.value.billionths()),
        None => None,
    }
}

/// Whether an order rests on an option. Orders that are done do not: they may
/// linger in the broker's list beside the one that replaced them.
pub open spec fn rests_on(o: OpenOrder, t: OptionTick) -> bool {
    &&& o.status == OrderStatus::Submitted || o.status == OrderStatus::PendingSubmit
    &&& o.contract.kind == ContractKind::Option
    &&& o.contract.right == Some(t.right)
    &&& o.contract.expiry == t.expiry
    &&& same_strike(order_strike(o), t.strike)
}

fn is_resting_on(o: &OpenOrder, t: &OptionTick) -> (r: bool)
    ensures
        r == rests_on(*o, *t),
{
    let active = match o.status {
        OrderStatus::Submitted | OrderStatus::PendingSubmit => true,
        _ => false,
    };
    let option = match o.contract.kind {
        ContractKind::Option => true,
        ContractKind::Future => false,
    };
    let right = match o.contract.right {
        Some(r) => r == t.right,
        None => false,
    };
    let strike: i64 = match &o.contract.strike {
        Some(s) => s.value.to_billionths(),
        None => 0,
    };
    active && option && right && near(strike, t.strike) && o.contract.expiry == t.expiry
}

/// Our orders on an option.
#[derive(Clone, Copy, Debug, PartialEq, Eq, Structural)]
pub struct OurQuotes {
    pub bid: Option<i64>,
    pub ask: Option<i64>,
    pub bid_live: bool,
    pub ask_live: bool,
}

/// Our quotes on an option: the last resting order of each side.
pub open spec fn our_quotes(orders: Seq<OpenOrder>, t: OptionTick) -> OurQuotes
    decreases orders.len(),
{
    if orders.len() == 0 {
        OurQuotes { bid: None, ask: None, bid_live: false, ask_live: false }
    } else {
        let before = our_quotes(orders.drop_last(), t);
        let o = orders.last();
        if rests_on(o, t) && order_price(o) is Some {
            match o.side {
                Side::Buy => OurQuotes {
                    bid: order_price(o),
                    bid_live: o.status == OrderStatus::Submitted,
                    ..before
                },
                Side::Sell => OurQuotes {
                    ask: order_price(o),
                    ask_live: o.status == OrderStatus::Submitted,
                    ..before
                },
            }
        } else {
            before
        }
    }
}

fn find_quotes(orders: &Vec<OpenOrder>, t: &OptionTick) -> (r: OurQuotes)
    ensures
        r == our_quotes(orders@, *t),
{
    let mut q = OurQuotes { bid: None, ask: None, bid_live: false, ask_live: false };
    let mut i: usize = 0;
    while i < orders.len()
        invariant
            i <= orders@.len(),
            q == our_quotes(orders@.take(i as int), *t),
        decreases orders@.len() - i,
    {
        let o = &orders[i];
        assert(orders@.take(i + 1).last() == *o);
        assert(orders@.take(i + 1).drop_last() =~= orders@.take(i as int));
        if is_resting_on(o, t) {
            let price: Option<i64> = match &o.price {
                Some(p) => Some(p.value.to_billionths()),
                None => None,
            };
            let live = match o.status {
                OrderStatus::Submitted => true,
                _ => false,
            };
            if price.is_some() {
                match o.side {
                    Side::Buy => {
                        q.bid = price;
                        q.bid_live = live;
                    },
                    Side::Sell => {
                        q.ask = price;
                        q.ask_live = live;
                    },
                }
            }
        }
        i = i + 1;
    }
    assert(orders@.take(i as int) =~= orders@);
    q
}

// Blocks

/// What is shown of one option.
pub open spec fn side_block(
    t: OptionTick,
    product: Seq<char>,
    positions: Seq<OptionPosition>,
    orders: Seq<OpenOrder>,
    theo: Option<i64>,
) -> SideBlock {
    let q = our_quotes(orders, t);
    let ext_bid = best_external(t.depth.bids@, q.bid, 1);
    let ext_ask = best_external(t.depth.asks@, q.ask, 1);
    SideBlock {
        market_bid: if ext_bid > 0 {
            ext_bid
        } else {
            t.bid
        },
        market_ask: if ext_ask > 0 {
            ext_ask
        } else {
            t.ask
        },
        bid_size: t.bid_size,
        ask_size: t.ask_size,
        last: t.last,
        pos: position_in(positions, product, t),
        our_bid: q.bid,
        our_ask: q.ask,
        theo,
        open_interest: t.open_interest,
        volume: t.volume,
        bid_live: q.bid_live,
        ask_live: q.ask_live,
        raw_bid: t.bid,
        raw_ask: t.ask,
    }
}

fn build_side(
    t: &OptionTick,
    product: &str,
    positions: &Vec<OptionPosition>,
    orders: &Vec<OpenOrder>,
    theo: Option<i64>,
) -> (r: SideBlock)
    ensures
        r == side_block(*t, product@, positions@, orders@, theo),
{
    let q = find_quotes(orders, t);
    let ext_bid: i64 = t.depth.external_best_bid(q.bid, 1);
    let ext_ask: i64 = t.depth.external_best_ask(q.ask, 1);
    SideBlock {
        market_bid: if ext_bid > 0 {
            ext_bid
        } else {
            t.bid
        },
        market_ask: if ext_ask > 0 {
            ext_ask
        } else {
            t.ask
        },
        bid_size: t.bid_size,
        ask_size: t.ask_size,
        last: t.last,
        pos: find_position(positions, product, t),
        our_bid: q.bid,
        our_ask: q.ask,
        theo,
        open_interest: t.open_interest,
        volume: t.volume,
        bid_live: q.bid_live,
        ask_live: q.ask_live,
        raw_bid: t.bid,
        raw_ask: t.ask,
    }
}

/// A strike with one side set.
pub open spec fn with_side(before: Option<StrikeBlock>, right: Right, side: SideBlock) -> StrikeBlock {
    let b = match before {
        Some(b) => b,
        None => StrikeBlock { call: None, put: None },
    };
    match right {
        Right::Call => StrikeBlock { call: Some(side), ..b },
        Right::Put => StrikeBlock { put: Some(side), ..b },
    }
}

/// A block of a chain.
pub open spec fn block_at(chain: Map<(Date, i64), StrikeBlock>, id: (Date, i64)) -> Option<StrikeBlock> {
    if chain.dom().contains(id) {
        Some(chain[id])
    } else {
        None
    }
}

/// A chain with the options of a product among the first `n` of the book.
pub open spec fn with_product(
    chain: Map<(Date, i64), StrikeBlock>,
    md: MarketDataState,
    n: int,
    product: Seq<char>,
    positions: Seq<OptionPosition>,
    orders: Seq<OpenOrder>,
    theos: Seq<Option<i64>>,
) -> Map<(Date, i64), StrikeBlock>
    decreases n,
{
    if n <= 0 {
        chain
    } else {
        let before = with_product(chain, md, n - 1, product, positions, orders, theos);
        let e = md.entries@[n - 1];
        if e.product@ == product {
            let id = (e.tick.expiry, e.strike_key);
            before.insert(
                id,
                with_side(
                    block_at(before, id),
                    e.tick.right,
                    side_block(e.tick, product, positions, orders, theos[n - 1]),
                ),
            )
        } else {
            before
        }
    }
}

/// The chain of the first `n` products.
pub open spec fn chain_of(
    md: MarketDataState,
    products: Seq<String>,
    n: int,
    positions: Seq<OptionPosition>,
    orders: Seq<OpenOrder>,
    theos: Seq<Option<i64>>,
) -> Map<(Date, i64), StrikeBlock>
    decreases n,
{
    if n <= 0 {
        Map::empty()
    } else {
        with_product(
            chain_of(md, products, n - 1, positions, orders, theos),
            md,
            md.entries@.len() as int,
            products[n - 1]@,
            positions,
            orders,
            theos,
        )
    }
}

/// The price of the last of the first `n` products that has one, else 0.
pub open spec fn last_price(md: MarketDataState, products: Seq<String>, n: int) -> i64
    decreases n,
{
    if n <= 0 {
        0
    } else {
        match MarketDataState::price_in(md.underlying@, products[n - 1]@) {
            Some(p) => p,
            None => last_price(md, products, n - 1),
        }
    }
}

/// Whether a chain has a strike of an expiry.
pub open spec fn has_expiry(chain: Map<(Date, i64), StrikeBlock>, d: Date) -> bool {
    exists|k: i64| #[trigger] chain.dom().contains((d, k))
}

/// Whether a list holds the expiries of a chain, each once, earliest first.
pub open spec fn expiries_of(dates: Seq<Date>, chain: Map<(Date, i64), StrikeBlock>) -> bool {
    &&& forall|i: int, j: int| 0 <= i < j < dates.len() ==> (#[trigger] dates[i]).earlier(#[trigger] dates[j])
    &&& forall|d: Date| #[trigger] dates.contains(d) <==> has_expiry(chain, d)
}

/// Puts a date where it belongs in a list that is in order.
fn insert_date(dates: &mut Vec<Date>, d: Date)
    requires
        forall|i: int, j: int| 0 <= i < j < old(dates)@.len() ==> (#[trigger] old(dates)@[i]).earlier(#[trigger] old(dates)@[j]),
    ensures
        forall|i: int, j: int|
            0 <= i < j < final(dates)@.len() ==> (#[trigger] final(dates)@[i]).earlier(#[trigger] final(dates)@[j]),
        forall|x: Date| #[trigger] final(dates)@.contains(x) <==> old(dates)@.contains(x) || x == d,
{
    let ghost before = dates@;
    let mut at: usize = 0;
    while at < dates.len() && dates[at].is_before(&d)
        invariant
            at <= dates@.len(),
            dates@ == before,
            forall|i: int| 0 <= i < at ==> (#[trigger] before[i]).earlier(d),
        decreases dates@.len() - at,
    {
        at = at + 1;
    }
    if at < dates.len() && !d.is_before(&dates[at]) {
        assert(dates@[at as int] == d);
        return ;
    }
    dates.insert(at, d);
    proof {
        let after = dates@;
        assert(after == before.insert(at as int, d));
        assert forall|x: Date| #[trigger] after.contains(x) <==> before.contains(x) || x == d by {
            if before.contains(x) {
                let k = before.index_of(x);
                if k < at {
                    assert(after[k] == x);
                } else {
                    assert(after[k + 1] == x);
                }
            }
            assert(after[at as int] == d);
            if after.contains(x) {
                let k = after.index_of(x);
                if k < at {
                    assert(before[k] == x);
                } else if k > at {
                    assert(before[k - 1] == x);
                }
            }
        }
        assert forall|i: int, j: int| 0 <= i < j < after.len() implies (#[trigger] after[i]).earlier(#[trigger] after[j]) by {
            if j == at {
                assert(before[i].earlier(d));
            } else if i == at {
                assert(before[j - 1] == after[j]);
                if j - 1 > at {
                    assert(before[at as int].earlier(before[j - 1]));
                }
            } else {
                let a = if i < at {
                    i
                } else {
                    i - 1
                };
                let b = if j < at {
                    j
                } else {
                    j - 1
                };
                assert(before[a].earlier(before[b]));
            }
        }
    }
}

/// The chain of all products. `theos` holds a theoretical price for each
/// option of the book, where one is known.
pub fn build_chain_payload(
    md: &MarketDataState,
    products: &Vec<String>,
    positions: &Vec<OptionPosition>,
    orders: &Vec<OpenOrder>,
    theos: &Vec<Option<i64>>,
) -> (r: ChainBuild)
    requires
        md.wf(),
        theos@.len() == md.entries@.len(),
    ensures
        r.blocks.wf(),
        r.blocks@ == chain_of(*md, products@, products@.len() as int, positions@, orders@, theos@),
        expiries_of(r.expiries@, r.blocks@),
        r.front_month_expiry == (if r.expiries@.len() > 0 {
            Some(r.expiries@[0])
        } else {
            None
        }),
        ({
            let price = last_price(*md, products@, products@.len() as int);
            r.atm_strike == (if price > 0 {
                atm_on_grid(price as int)
            } else {
                0
            })
        }),
{
    let mut blocks: Table<ChainKey, StrikeBlock> = Table::new();
    let mut expiries: Vec<Date> = Vec::new();
    let mut price: i64 = 0;
    let mut p: usize = 0;
    assert(expiries_of(expiries@, blocks@));
    while p < products.len()
        invariant
            p <= products@.len(),
            md.wf(),
            theos@.len() == md.entries@.len(),
            blocks.wf(),
            blocks@ == chain_of(*md, products@, p as int, positions@, orders@, theos@),
            expiries_of(expiries@, blocks@),
            price == last_price(*md, products@, p as int),
        decreases products@.len() - p,
    {
        match md.underlying_price(products[p].as_str()) {
            Some(u) => {
                price = u;
            },
            None => {},
        }
        let ghost start = blocks@;
        let mut i: usize = 0;
        while i < md.entries.len()
            invariant
                p < products@.len(),
                i <= md.entries@.len(),
                md.wf(),
                theos@.len() == md.entries@.len(),
                blocks.wf(),
                blocks@ == with_product(start, *md, i as int, products@[p as int]@, positions@, orders@, theos@),
                expiries_of(expiries@, blocks@),
            decreases md.entries@.len() - i,
        {
            let e = &md.entries[i];
            if str_eq(e.product.as_str(), products[p].as_str()) {
                let key = ChainKey { expiry: e.tick.expiry, strike_key: e.strike_key };
                let side = build_side(&e.tick, products[p].as_str(), positions, orders, theos[i]);
                let mut block = match blocks.get(&key) {
                    Some(b) => *b,
                    None => StrikeBlock { call: None, put: None },
                };
                match e.tick.right {
                    Right::Call => {
                        block.call = Some(side);
                    },
                    Right::Put => {
                        block.put = Some(side);
                    },
                }
                let ghost before = blocks@;
                blocks.insert(key, block);
                insert_date(&mut expiries, e.tick.expiry);
                proof {
                    lemma_expiries_insert(before, blocks@, key.id(), block);
                }
            }
            i = i + 1;
        }
        p = p + 1;
    }
    let front_month_expiry = if expiries.len() > 0 {
        Some(expiries[0])
    } else {
        None
    };
    let atm_strike: i64 = if price > 0 {
        grid_strike(price)
    } else {
        0
    };
    ChainBuild { blocks, atm_strike, expiries, front_month_expiry }
}

proof fn lemma_expiries_insert(
    before: Map<(Date, i64), StrikeBlock>,
    after: Map<(Date, i64), StrikeBlock>,
    id: (Date, i64),
    b: StrikeBlock,
)
    requires
        after == before.insert(id, b),
    ensures
        forall|d: Date| #[trigger] has_expiry(after, d) <==> has_expiry(before, d) || d == id.0,
{
    assert forall|d: Date| #[trigger] has_expiry(after, d) <==> has_expiry(before, d) || d == id.0 by {
        if has_expiry(before, d) {
            let k = choose|k: i64| #[trigger] before.dom().contains((d, k));
            assert(after.dom().contains((d, k)));
        }
        if d == id.0 {
            assert(after.dom().contains((d, id.1)));
        }
        if has_expiry(after, d) {
            let k = choose|k: i64| #[trigger] after.dom().contains((d, k));
            if (d, k) != id {
                assert(before.dom().contains((d, k)));
            }
        }
    }
}

/// The strike of the grid that is nearest to a price; the largest that can be
/// held where that is beyond it.
pub open spec fn atm_on_grid(price: int) -> int {
    if to_increment(price, ATM_GRID as int) > i64::MAX {
        i64::MAX as int
    } else {
        to_increment(price, ATM_GRID as int)
    }
}

fn grid_strike(price: i64) -> (r: i64)
    requires
        price > 0,
    ensures
        r == atm_on_grid(price as int),
{
    let q: i128 = crate::rounding::round_to(price as i128, ATM_GRID as i128);
    let k: i128 = q * 50_000_000;
    if k > 0x7fff_ffff_ffff_ffff {
        i64::MAX
    } else {
        k as i64
    }
}

// Texts

/// A strike with four decimals.
pub open spec fn strike_text_of(strike_key: int) -> Seq<char> {
    let m = if strike_key >= 0 {
        strike_key
    } else {
        -strike_key
    };
    (if strike_key < 0 {
        "-"@
    } else {
        ""@
    }) + digits((m / 10000) as nat) + "."@ + four_digits(m % 10000)
}

/// A strike, given in ten-thousandths, with four decimals.
pub fn strike_text(strike_key: i64) -> (r: String)
    ensures
        r@ == strike_text_of(strike_key as int),
{
    let mut out = if strike_key < 0 {
        "-".to_owned()
    } else {
        "".to_owned()
    };
    let m: u64 = if strike_key >= 0 {
        strike_key as u64
    } else {
        (-(strike_key as i128)) as u64
    };
    push_u64(&mut out, m / 10000);
    out.append(".");
    let f: u64 = m % 10000;
    let ghost front = out@;
    out.push(digit_of((f / 1000) % 10));
    out.push(digit_of((f / 100) % 10));
    out.push(digit_of((f / 10) % 10));
    out.push(digit_of(f % 10));
    assert(out@ =~= front + four_digits(f as int));
    out
}

// Laws

/// An order that is done never shows as ours, whatever else is in the list.
pub proof fn law_done_order_is_not_shown(orders: Seq<OpenOrder>, o: OpenOrder, t: OptionTick)
    requires
        o.status != OrderStatus::Submitted,
        o.status != OrderStatus::PendingSubmit,
    ensures
        our_quotes(orders.push(o), t) == our_quotes(orders, t),
{
    assert(orders.push(o).drop_last() =~= orders);
}

/// Whether a position is in an option: of its product, its expiry and its
/// right, at its strike to a millionth.
pub open spec fn is_in(p: OptionPosition, product: Seq<char>, t: OptionTick) -> bool {
    &&& p.product@ == product
    &&& p.expiry == t.expiry
    &&& p.right == t.right
    &&& -1000 < p.strike - t.strike < 1000
}

/// What is shown as held of an option is the first position in it, with its
/// sign; nothing is where there is none.
pub proof fn law_held_is_shown(positions: Seq<OptionPosition>, product: Seq<char>, t: OptionTick)
    ensures
        (forall|i: int| 0 <= i < positions.len() ==> !is_in(#[trigger] positions[i], product, t)) ==> position_in(
            positions,
            product,
            t,
        ) == 0,
        forall|i: int|
            0 <= i < positions.len() && is_in(#[trigger] positions[i], product, t) && (forall|j: int|
                0 <= j < i ==> !is_in(#[trigger] positions[j], product, t)) ==> position_in(positions, product, t)
                == positions[i].quantity,
    decreases positions.len(),
{
    if positions.len() > 0 {
        let rest = positions.drop_first();
        assert(forall|i: int| 0 <= i < rest.len() ==> #[trigger] rest[i] == positions[i + 1]);
        law_held_is_shown(rest, product, t);
        assert forall|i: int|
            0 <= i < positions.len() && is_in(#[trigger] positions[i], product, t) && (forall|j: int|
                0 <= j < i ==> !is_in(#[trigger] positions[j], product, t)) implies position_in(positions, product, t)
            == positions[i].quantity by {
            if i > 0 {
                assert(!is_in(positions[0], product, t));
                assert(is_in(rest[i - 1], product, t));
                assert forall|j: int| 0 <= j < i - 1 implies !is_in(#[trigger] rest[j], product, t) by {
                    assert(!is_in(positions[j + 1], product, t));
                }
            }
        }
    }
}

/// Whether an order quotes an option on a side: it is at the exchange or on
/// its way there, for the option's expiry and right, at its strike to a
/// millionth, and has a price.
pub open spec fn quotes(o: OpenOrder, t: OptionTick, buys: bool) -> bool {
    &&& o.status is Submitted || o.status is PendingSubmit
    &&& o.contract.kind is Option
    &&& o.contract.right == Some(t.right)
    &&& o.contract.expiry == t.expiry
    &&& -1000 < order_strike(o) - t.strike < 1000
    &&& o.price is Some
    &&& (o.side is Buy) == buys
}

/// Our bid is the last of our buy orders that quotes the option, and counts
/// as live once it is at the exchange; there is none where none does.
pub proof fn law_our_bid_is_our_buy_order(orders: Seq<OpenOrder>, t: OptionTick)
    ensures
        (forall|i: int| 0 <= i < orders.len() ==> !quotes(#[trigger] orders[i], t, true)) ==> our_quotes(orders, t).bid
            is None && !our_quotes(orders, t).bid_live,
        forall|i: int|
            0 <= i < orders.len() && quotes(#[trigger] orders[i], t, true) && (forall|j: int|
                i < j < orders.len() ==> !quotes(#[trigger] orders[j], t, true)) ==> our_quotes(orders, t).bid == Some(
                orders[i].price->0.value.billionths(),
            ) && our_quotes(orders, t).bid_live == (orders[i].status is Submitted),
    decreases orders.len(),
{
    if orders.len() > 0 {
        let rest = orders.drop_last();
        let n = orders.len() - 1;
        assert(forall|i: int| 0 <= i < n ==> #[trigger] rest[i] == orders[i]);
        assert(orders.last() == orders[n]);
        law_our_bid_is_our_buy_order(rest, t);
        assert forall|i: int|
            0 <= i < orders.len() && quotes(#[trigger] orders[i], t, true) && (forall|j: int|
                i < j < orders.len() ==> !quotes(#[trigger] orders[j], t, true)) implies our_quotes(orders, t).bid == Some(
            orders[i].price->0.value.billionths(),
        ) && our_quotes(orders, t).bid_live == (orders[i].status is Submitted) by {
            if i < n {
                assert(!quotes(orders[n], t, true));
                assert(quotes(rest[i], t, true));
                assert forall|j: int| i < j < rest.len() implies !quotes(#[trigger] rest[j], t, true) by {
                    assert(!quotes(orders[j], t, true));
                }
            }
        }
        if forall|i: int| 0 <= i < orders.len() ==> !quotes(#[trigger] orders[i], t, true) {
            assert(!quotes(orders[n], t, true));
            assert forall|i: int| 0 <= i < rest.len() implies !quotes(#[trigger] rest[i], t, true) by {
                assert(!quotes(orders[i], t, true));
            }
        }
    }
}

/// Our ask is the last of our sell orders that quotes the option, and counts
/// as live once it is at the exchange; there is none where none does.
pub proof fn law_our_ask_is_our_sell_order(orders: Seq<OpenOrder>, t: OptionTick)
    ensures
        (forall|i: int| 0 <= i < orders.len() ==> !quotes(#[trigger] orders[i], t, false)) ==> our_quotes(orders, t).ask
            is None && !our_quotes(orders, t).ask_live,
        forall|i: int|
            0 <= i < orders.len() && quotes(#[trigger] orders[i], t, false) && (forall|j: int|
                i < j < orders.len() ==> !quotes(#[trigger] orders[j], t, false)) ==> our_quotes(orders, t).ask == Some(
                orders[i].price->0.value.billionths(),
            ) && our_quotes(orders, t).ask_live == (orders[i].status is Submitted),
    decreases orders.len(),
{
    if orders.len() > 0 {
        let rest = orders.drop_last();
        let n = orders.len() - 1;
        assert(forall|i: int| 0 <= i < n ==> #[trigger] rest[i] == orders[i]);
        assert(orders.last() == orders[n]);
        law_our_ask_is_our_sell_order(rest, t);
        assert forall|i: int|
            0 <= i < orders.len() && quotes(#[trigger] orders[i], t, false) && (forall|j: int|
                i < j < orders.len() ==> !quotes(#[trigger] orders[j], t, false)) implies our_quotes(orders, t).ask == Some(
            orders[i].price->0.value.billionths(),
        ) && our_quotes(orders, t).ask_live == (orders[i].status is Submitted) by {
            if i < n {
                assert(!quotes(orders[n], t, false));
                assert(quotes(rest[i], t, false));
                assert forall|j: int| i < j < rest.len() implies !quotes(#[trigger] rest[j], t, false) by {
                    assert(!quotes(orders[j], t, false));
                }
            }
        }
        if forall|i: int| 0 <= i < orders.len() ==> !quotes(#[trigger] orders[i], t, false) {
            assert(!quotes(orders[n], t, false));
            assert forall|i: int| 0 <= i < rest.len() implies !quotes(#[trigger] rest[i], t, false) by {
                assert(!quotes(orders[i], t, false));
            }
        }
    }
}

/// The market that is shown is that of others where the book has it, each
/// side from its own side of the book, else the quote; the quote itself, the
/// sizes and the counts are shown as they are.
pub proof fn law_market_is_shown_side_by_side(
    t: OptionTick,
    product: Seq<char>,
    positions: Seq<OptionPosition>,
    orders: Seq<OpenOrder>,
    theo: Option<i64>,
)
    ensures
        ({
            let b = side_block(t, product, positions, orders, theo);
            &&& t.depth.bids@.len() == 0 ==> b.market_bid == t.bid
            &&& t.depth.asks@.len() == 0 ==> b.market_ask == t.ask
            &&& t.depth.bids@.len() > 0 && t.depth.bids@[0].price > 0 && !all_ours(t.depth.bids@[0], b.our_bid, 1)
                ==> b.market_bid == t.depth.bids@[0].price
            &&& t.depth.asks@.len() > 0 && t.depth.asks@[0].price > 0 && !all_ours(t.depth.asks@[0], b.our_ask, 1)
                ==> b.market_ask == t.depth.asks@[0].price
            &&& t.depth.bids@.len() > 1 && t.depth.bids@[1].price > 0 && all_ours(t.depth.bids@[0], b.our_bid, 1)
                && !all_ours(t.depth.bids@[1], b.our_bid, 1) ==> b.market_bid == t.depth.bids@[1].price
            &&& t.depth.asks@.len() > 1 && t.depth.asks@[1].price > 0 && all_ours(t.depth.asks@[0], b.our_ask, 1)
                && !all_ours(t.depth.asks@[1], b.our_ask, 1) ==> b.market_ask == t.depth.asks@[1].price
            &&& b.raw_bid == t.bid && b.raw_ask == t.ask
            &&& b.bid_size == t.bid_size && b.ask_size == t.ask_size
            &&& b.last == t.last && b.open_interest == t.open_interest && b.volume == t.volume
            &&& b.theo == theo
            &&& b.our_bid == our_quotes(orders, t).bid && b.our_ask == our_quotes(orders, t).ask
            &&& b.pos == position_in(positions, product, t)
        }),
{
    let b = side_block(t, product, positions, orders, theo);
    law_best_of_others_is_not_ours(t.depth.bids@, b.our_bid, 1);
    law_best_of_others_is_not_ours(t.depth.asks@, b.our_ask, 1);
    if t.depth.bids@.len() > 0 {
        assert(all_ours(t.depth.bids@[0], b.our_bid, 1) || best_external(t.depth.bids@, b.our_bid, 1)
            == t.depth.bids@[0].price);
    }
    if t.depth.asks@.len() > 0 {
        assert(all_ours(t.depth.asks@[0], b.our_ask, 1) || best_external(t.depth.asks@, b.our_ask, 1)
            == t.depth.asks@[0].price);
    }
    if t.depth.bids@.len() > 1 && all_ours(t.depth.bids@[0], b.our_bid, 1) {
        assert(all_ours(t.depth.bids@[1], b.our_bid, 1) || best_external(t.depth.bids@, b.our_bid, 1)
            == t.depth.bids@[1].price);
    }
    if t.depth.asks@.len() > 1 && all_ours(t.depth.asks@[0], b.our_ask, 1) {
        assert(all_ours(t.depth.asks@[1], b.our_ask, 1) || best_external(t.depth.asks@, b.our_ask, 1)
            == t.depth.asks@[1].price);
    }
}

/// Every option of a product stands in its chain, under its own expiry and
/// strike: a call as the call, a put as the put.
pub proof fn law_every_option_is_in_the_chain(
    chain: Map<(Date, i64), StrikeBlock>,
    md: MarketDataState,
    n: int,
    product: Seq<char>,
    positions: Seq<OptionPosition>,
    orders: Seq<OpenOrder>,
    theos: Seq<Option<i64>>,
    i: int,
)
    requires
        md.wf(),
        0 <= i < n <= md.entries@.len(),
        md.entries@[i].product@ == product,
    ensures
        ({
            let e = md.entries@[i];
            let after = with_product(chain, md, n, product, positions, orders, theos);
            let block = after[(e.tick.expiry, e.strike_key)];
            &&& after.dom().contains((e.tick.expiry, e.strike_key))
            &&& e.tick.right is Call ==> block.call == Some(side_block(e.tick, product, positions, orders, theos[i]))
            &&& e.tick.right is Put ==> block.put == Some(side_block(e.tick, product, positions, orders, theos[i]))
        }),
    decreases n,
{
    if i < n - 1 {
        law_every_option_is_in_the_chain(chain, md, n - 1, product, positions, orders, theos, i);
        let e = md.entries@[i];
        let l = md.entries@[n - 1];
        if l.product@ == product && l.tick.expiry == e.tick.expiry && l.strike_key == e.strike_key && l.tick.right
            == e.tick.right {
            law_option_listed_once(md, i, n - 1);
        }
    }
}

/// Nothing else stands in the chain of the products.
pub proof fn law_chain_holds_options_only(
    md: MarketDataState,
    products: Seq<String>,
    n: int,
    positions: Seq<OptionPosition>,
    orders: Seq<OpenOrder>,
    theos: Seq<Option<i64>>,
    id: (Date, i64),
)
    requires
        0 <= n <= products.len(),
        chain_of(md, products, n, positions, orders, theos).dom().contains(id),
    ensures
        exists|i: int, p: int| #![trigger md.entries@[i], products[p]]
            0 <= i < md.entries@.len() && 0 <= p < n && md.entries@[i].product@ == products[p]@
                && md.entries@[i].tick.expiry == id.0 && md.entries@[i].strike_key == id.1,
    decreases n,
{
    if n > 0 {
        let before = chain_of(md, products, n - 1, positions, orders, theos);
        if before.dom().contains(id) {
            law_chain_holds_options_only(md, products, n - 1, positions, orders, theos, id);
        } else {
            lemma_added_are_the_products(
                before,
                md,
                md.entries@.len() as int,
                products[n - 1]@,
                positions,
                orders,
                theos,
                id,
            );
            let i = choose|i: int| #![trigger md.entries@[i]]
                0 <= i < md.entries@.len() && md.entries@[i].product@ == products[n - 1]@ && md.entries@[i].tick.expiry
                    == id.0 && md.entries@[i].strike_key == id.1;
            assert(md.entries@[i].product@ == products[n - 1]@);
        }
    }
}

proof fn lemma_added_are_the_products(
    chain: Map<(Date, i64), StrikeBlock>,
    md: MarketDataState,
    n: int,
    product: Seq<char>,
    positions: Seq<OptionPosition>,
    orders: Seq<OpenOrder>,
    theos: Seq<Option<i64>>,
    id: (Date, i64),
)
    requires
        0 <= n <= md.entries@.len(),
        !chain.dom().contains(id),
        with_product(chain, md, n, product, positions, orders, theos).dom().contains(id),
    ensures
        exists|i: int| #![trigger md.entries@[i]]
            0 <= i < md.entries@.len() && md.entries@[i].product@ == product && md.entries@[i].tick.expiry == id.0
                && md.entries@[i].strike_key == id.1,
    decreases n,
{
    if n > 0 {
        let e = md.entries@[n - 1];
        if e.product@ == product && id == (e.tick.expiry, e.strike_key) {
            assert(md.entries@[n - 1].product@ == product);
        } else {
            lemma_added_are_the_products(chain, md, n - 1, product, positions, orders, theos, id);
        }
    }
}

/// The chain goes by the last product that has a price; without any, by none.
pub proof fn law_chain_goes_by_the_last_price(md: MarketDataState, products: Seq<String>, n: int, i: int)
    requires
        0 <= i < n <= products.len(),
        md.underlying@.dom().contains(products[i]@),
        forall|j: int| i < j < n ==> !md.underlying@.dom().contains((#[trigger] products[j])@),
    ensures
        last_price(md, products, n) == md.underlying@[products[i]@],
    decreases n,
{
    if i < n - 1 {
        law_chain_goes_by_the_last_price(md, products, n - 1, i);
    }
}

/// The strike at the money is the nearest on the grid of a twentieth.
pub proof fn law_at_the_money_is_nearest(price: i64)
    requires
        0 < price,
        price <= i64::MAX - 25_000_000,
    ensures
        atm_on_grid(price as int) % 50_000_000 == 0,
        -25_000_000 <= atm_on_grid(price as int) - price <= 25_000_000,
{
    law_rounding_is_nearest(price as int, 50_000_000);
    let q = rounded(price as int, 50_000_000);
    assert((q * 50_000_000) % 50_000_000 == 0);
}

/// A strike's text reads back as the strike: the whole part, a point, and
/// four decimals, behind a minus where it is negative.
pub proof fn law_strike_text_reads_back(strike_key: int)
    ensures
        ({
            let s = strike_text_of(strike_key);
            let m = if strike_key >= 0 { strike_key } else { -strike_key };
            let body = if strike_key >= 0 { s } else { s.skip(1) };
            let n = body.len() - 5;
            &&& strike_key < 0 ==> s[0] == '-'
            &&& n > 0
            &&& body[n] == '.'
            &&& digits_value(body.take(n)) is Some && digits_value(body.skip(n + 1)) is Some
            &&& digits_value(body.take(n))->0 * 10000 + digits_value(body.skip(n + 1))->0 == m
        }),
{
    reveal_strlit("-");
    reveal_strlit("");
    reveal_strlit(".");
    let s = strike_text_of(strike_key);
    let m = if strike_key >= 0 {
        strike_key
    } else {
        -strike_key
    };
    let whole = digits((m / 10000) as nat);
    let body = if strike_key >= 0 {
        s
    } else {
        s.skip(1)
    };
    assert(body =~= whole + "."@ + four_digits(m % 10000));
    let n = body.len() - 5;
    assert(n == whole.len());
    assert(body.take(n) =~= whole);
    assert(body.skip(n + 1) =~= four_digits(m % 10000));
    law_digits_read_back((m / 10000) as nat);
    law_four_digits_read_back(m % 10000);
}

/// The front month is the earliest expiry that the chain has.
pub proof fn law_front_month_is_the_earliest(dates: Seq<Date>, chain: Map<(Date, i64), StrikeBlock>, id: (Date, i64))
    requires
        expiries_of(dates, chain),
        chain.dom().contains(id),
    ensures
        dates.len() > 0,
        dates.contains(id.0),
        dates[0] == id.0 || dates[0].earlier(id.0),
{
    assert(has_expiry(chain, id.0)) by {
        assert(chain.dom().contains((id.0, id.1)));
    }
    assert(dates.contains(id.0));
    let k = dates.index_of(id.0);
    if k > 0 {
        assert(dates[0].earlier(dates[k]));
    }
}

} // verus!
