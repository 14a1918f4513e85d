//! One option's quotes, trades and depth.

use crate::api::{InstrumentId, Right};
use crate::dates::Date;
use vstd::prelude::*;

verus! {

/// Levels kept on each side of a depth book.
pub const DEPTH_LEVELS: usize = 5;

/// One price level.
#[derive(Debug, Clone, Copy, PartialEq, Eq, Structural)]
pub struct DepthLevel {
    pub price: i64,
    pub size: u64,
}

/// A depth book, best level first on each side.
#[derive(Debug)]
pub struct DepthBook {
    pub bids: Vec<DepthLevel>,
    pub asks: Vec<DepthLevel>,
}

/// A side of a book after an operation: 0 inserts a level, pushing the
/// deepest out of a full side; 1 replaces a level, or adds one behind the
/// last; 2 deletes a level. What is out of range changes nothing.
pub open spec fn book_after(book: Seq<DepthLevel>, position: i32, op: i32, level: DepthLevel) -> Seq<DepthLevel> {
    let pos = position as int;
    if op == 0 {
        if pos < 0 || pos > DEPTH_LEVELS {
            book
        } else {
            let kept = if book.len() == DEPTH_LEVELS {
                book.drop_last()
            } else {
                book
            };
            kept.insert(
                if pos < kept.len() {
                    pos
                } else {
                    kept.len() as int
                },
                level,
            )
        }
    } else if op == 1 {
        if 0 <= pos < book.len() {
            book.update(pos, level)
        } else if pos == book.len() && book.len() < DEPTH_LEVELS {
            book.push(level)
        } else {
            book
        }
    } else if op == 2 && 0 <= pos < book.len() {
        book.remove(pos)
    } else {
        book
    }
}

/// The price of the first level that is not all ours; 0 where there is none.
pub open spec fn best_external(book: Seq<DepthLevel>, our_price: Option<i64>, our_size: u64) -> i64
    decreases book.len(),
{
    if book.len() == 0 {
        0
    } else if our_price == Some(book[0].price) && book[0].size <= our_size {
        best_external(book.skip(1), our_price, our_size)
    } else {
        book[0].price
    }
}

fn apply_to(book: &mut Vec<DepthLevel>, position: i32, op: i32, level: DepthLevel)
    requires
        old(book)@.len() <= DEPTH_LEVELS,
    ensures
        final(book)@ == book_after(old(book)@, position, op, level),
        final(book)@.len() <= DEPTH_LEVELS,
{
    if position < 0 || position > 5 {
        return;
    }
    let pos: usize = position as usize;
    if op == 0 {
        if book.len() == DEPTH_LEVELS {
            book.pop();
        }
        let at: usize = if pos < book.len() {
            pos
        } else {
            book.len()
        };
        book.insert(at, level);
    } else if op == 1 {
        if pos < book.len() {
            book[pos] = level;
        } else if pos == book.len() && book.len() < DEPTH_LEVELS {
            book.push(level);
        }
    } else if op == 2 {
        if pos < book.len() {
            book.remove(pos);
        }
    }
    assert(book@ =~= book_after(old(book)@, position, op, level));
}

fn external_best(book: &Vec<DepthLevel>, our_price: Option<i64>, our_size: u64) -> (r: i64)
    ensures
        r == best_external(book@, our_price, our_size),
{
    let mut i: usize = 0;
    assert(book@.skip(0) =~= book@);
    while i < book.len()
        invariant
            i <= book.len(),
            best_external(book@, our_price, our_size) == best_external(book@.skip(i as int), our_price, our_size),
        decreases book.len() - i,
    {
        let level = book[i];
        let ours = match our_price {
            Some(p) => p == level.price && level.size <= our_size,
            None => false,
        };
        if !ours {
            return level.price;
        }
        assert(book@.skip(i as int).skip(1) =~= book@.skip(i + 1));
        i = i + 1;
    }
    0
}

impl DepthBook {
    /// No more levels than are kept.
    pub open spec fn wf(self) -> bool {
        self.bids@.len() <= DEPTH_LEVELS && self.asks@.len() <= DEPTH_LEVELS
    }

    /// An empty book.
    pub fn new() -> (r: DepthBook)
        ensures
            r.wf(),
            r.bids@ == Seq::<DepthLevel>::empty(),
            r.asks@ == Seq::<DepthLevel>::empty(),
    {
        DepthBook { bids: Vec::new(), asks: Vec::new() }
    }

    /// One operation applied to one side.
    pub open spec fn applied(
        pre: DepthBook,
        is_bid: bool,
        position: i32,
        op: i32,
        level: DepthLevel,
        post: DepthBook,
    ) -> bool {
        if is_bid {
            post.bids@ == book_after(pre.bids@, position, op, level) && post.asks == pre.asks
        } else {
            post.asks@ == book_after(pre.asks@, position, op, level) && post.bids == pre.bids
        }
    }

    /// Applies one operation to one side.
    pub fn apply(&mut self, is_bid: bool, position: i32, op: i32, price: i64, size: u64)
        requires
            old(self).wf(),
        ensures
            final(self).wf(),
            DepthBook::applied(*old(self), is_bid, position, op, (DepthLevel { price, size }), *final(self)),
    {
        if is_bid {
            apply_to(&mut self.bids, position, op, DepthLevel { price, size });
        } else {
            apply_to(&mut self.asks, position, op, DepthLevel { price, size });
        }
    }

    /// The best bid that is not all ours; 0 where there is none.
    pub fn external_best_bid(&self, our_price: Option<i64>, our_size: u64) -> (r: i64)
        ensures
            r == best_external(self.bids@, our_price, our_size),
    {
        external_best(&self.bids, our_price, our_size)
    }

    /// The best ask that is not all ours; 0 where there is none.
    pub fn external_best_ask(&self, our_price: Option<i64>, our_size: u64) -> (r: i64)
        ensures
            r == best_external(self.asks@, our_price, our_size),
    {
        external_best(&self.asks, our_price, our_size)
    }
}

impl Default for DepthBook {
    fn default() -> (r: DepthBook)
        ensures
            r.wf(),
            r.bids@ == Seq::<DepthLevel>::empty(),
            r.asks@ == Seq::<DepthLevel>::empty(),
    {
        DepthBook::new()
    }
}

/// What is known of one option.
#[derive(Debug)]
pub struct OptionTick {
    pub instrument_id: Option<InstrumentId>,
    pub strike: i64,
    pub expiry: Date,
    pub right: Right,
    pub bid: i64,
    pub ask: i64,
    pub bid_size: u64,
    pub ask_size: u64,
    pub last: i64,
    /// Implied volatility; 0 where none was solved.
    pub iv: i64,
    pub open_interest: u64,
    pub volume: u64,
    pub depth: DepthBook,
    pub last_updated_ns: u64,
}

impl OptionTick {
    /// The price half-way between two quotes, in halves of a billionth; none
    /// where a side is missing or the quotes do not leave a gap.
    pub open spec fn mid_price(self) -> Option<i128> {
        if self.bid > 0 && self.ask > 0 && self.bid < self.ask {
            Some((self.bid + self.ask) as i128)
        } else {
            None
        }
    }

    /// What the option is worth now, in halves of a billionth: the mid, else
    /// the last trade, else 0.
    pub open spec fn worth(self) -> i128 {
        match self.mid_price() {
            Some(m) => m,
            None => if self.last > 0 {
                (2 * self.last) as i128
            } else {
                0
            },
        }
    }

    /// An option of which nothing is known but the contract.
    pub open spec fn blank(self, strike: i64, expiry: Date, right: Right) -> bool {
        &&& self.strike == strike
        &&& self.expiry == expiry
        &&& self.right == right
        &&& self.bid == 0
        &&& self.ask == 0
        &&& self.bid_size == 0
        &&& self.ask_size == 0
        &&& self.last == 0
        &&& self.iv == 0
        &&& self.open_interest == 0
        &&& self.volume == 0
        &&& self.depth.bids@ == Seq::<DepthLevel>::empty()
        &&& self.depth.asks@ == Seq::<DepthLevel>::empty()
        &&& self.last_updated_ns == 0
    }

    /// An option of which nothing is known but the contract.
    pub fn new(strike: i64, expiry: Date, right: Right) -> (r: OptionTick)
        ensures
            r.blank(strike, expiry, right),
            r.instrument_id is None,
            r.depth.wf(),
    {
        OptionTick {
            instrument_id: None,
            strike,
            expiry,
            right,
            bid: 0,
            ask: 0,
            bid_size: 0,
            ask_size: 0,
            last: 0,
            iv: 0,
            open_interest: 0,
            volume: 0,
            depth: DepthBook::new(),
            last_updated_ns: 0,
        }
    }

    /// The mid price.
    pub fn mid(&self) -> (r: Option<i128>)
        ensures
            r == self.mid_price(),
    {
        if self.bid > 0 && self.ask > 0 && self.bid < self.ask {
            Some(self.bid as i128 + self.ask as i128)
        } else {
            None
        }
    }

    /// What the option is worth now.
    pub fn current_price(&self) -> (r: i128)
        ensures
            r == self.worth(),
    {
        match self.mid() {
            Some(m) => m,
            None => if self.last > 0 {
                2 * self.last as i128
            } else {
                0
            },
        }
    }
}

/// No operation makes a book deeper than is kept.
pub proof fn law_book_stays_bounded(book: Seq<DepthLevel>, position: i32, op: i32, level: DepthLevel)
    requires
        book.len() <= DEPTH_LEVELS,
    ensures
        book_after(book, position, op, level).len() <= DEPTH_LEVELS,
{
}

/// Deleting the level that an insertion made undoes it, while the book is not
/// full.
pub proof fn law_delete_undoes_insert(book: Seq<DepthLevel>, position: i32, level: DepthLevel)
    requires
        0 <= position <= book.len() < DEPTH_LEVELS,
    ensures
        book_after(book_after(book, position, 0, level), position, 2, level) == book,
{
    assert(book_after(book_after(book, position, 0, level), position, 2, level) =~= book);
}

/// A mid price lies between the quotes, as far from one as from the other.
pub proof fn law_mid_between_quotes(t: OptionTick)
    requires
        t.mid_price() is Some,
    ensures
        2 * t.bid < t.mid_price()->0 < 2 * t.ask,
        t.mid_price()->0 - 2 * t.bid == 2 * t.ask - t.mid_price()->0,
{
}

/// An inserted level stands at its position; what is better stays in place,
/// what is worse moves one down, and what no longer fits falls off the end.
pub proof fn law_insert_makes_room(book: Seq<DepthLevel>, position: i32, level: DepthLevel)
    requires
        book.len() <= 5,
        0 <= position <= book.len(),
        position < 5,
    ensures
        ({
            let after = book_after(book, position, 0, level);
            &&& after.len() == (if book.len() < 5 { book.len() + 1 } else { 5 })
            &&& after[position as int] == level
            &&& forall|i: int| 0 <= i < position ==> #[trigger] after[i] == book[i]
            &&& forall|i: int| position < i < after.len() ==> #[trigger] after[i] == book[i - 1]
        }),
{
}

/// An updated level takes its position over; the others stay. The position
/// right behind the last adds one, where there is room.
pub proof fn law_update_replaces_one(book: Seq<DepthLevel>, position: i32, level: DepthLevel)
    requires
        book.len() <= 5,
    ensures
        ({
            let after = book_after(book, position, 1, level);
            &&& 0 <= position < book.len() ==> after.len() == book.len() && after[position as int] == level
            &&& position == book.len() && book.len() < 5 ==> after.len() == book.len() + 1 && after.last() == level
            &&& forall|i: int| 0 <= i < book.len() && i != position ==> #[trigger] after[i] == book[i]
            &&& position < 0 || position > book.len() ==> after == book
        }),
{
}

/// A deleted level is gone; what is better stays in place and what is worse
/// moves one up.
pub proof fn law_delete_closes_the_gap(book: Seq<DepthLevel>, position: i32, level: DepthLevel)
    ensures
        ({
            let after = book_after(book, position, 2, level);
            &&& 0 <= position < book.len() ==> {
                &&& after.len() == book.len() - 1
                &&& forall|i: int| 0 <= i < position ==> #[trigger] after[i] == book[i]
                &&& forall|i: int| position <= i < after.len() ==> #[trigger] after[i] == book[i + 1]
            }
            &&& position < 0 || position >= book.len() ==> after == book
        }),
{
}

/// An operation that is none of the three leaves the book as it is.
pub proof fn law_unknown_operations_are_ignored(book: Seq<DepthLevel>, position: i32, op: i32, level: DepthLevel)
    requires
        op < 0 || op > 2,
    ensures
        book_after(book, position, op, level) == book,
{
}

/// Whether a level holds nothing but our own order.
pub open spec fn all_ours(l: DepthLevel, our_price: Option<i64>, our_size: u64) -> bool {
    our_price matches Some(p) && p == l.price && l.size <= our_size
}

/// The best quote of others is the first level's that holds more than our
/// order; 0 where every level is all ours.
pub proof fn law_best_of_others_is_not_ours(book: Seq<DepthLevel>, our_price: Option<i64>, our_size: u64)
    ensures
        (forall|i: int| 0 <= i < book.len() ==> all_ours(#[trigger] book[i], our_price, our_size)) ==> best_external(
            book,
            our_price,
            our_size,
        ) == 0,
        forall|i: int|
            0 <= i < book.len() && !all_ours(#[trigger] book[i], our_price, our_size) && (forall|j: int|
                0 <= j < i ==> all_ours(#[trigger] book[j], our_price, our_size)) ==> best_external(
                book,
                our_price,
                our_size,
            ) == book[i].price,
    decreases book.len(),
{
    if book.len() > 0 {
        let rest = book.skip(1);
        assert(forall|i: int| 0 <= i < rest.len() ==> #[trigger] rest[i] == book[i + 1]);
        law_best_of_others_is_not_ours(rest, our_price, our_size);
        if all_ours(book[0], our_price, our_size) {
            assert forall|i: int|
                0 <= i < book.len() && !all_ours(#[trigger] book[i], our_price, our_size) && (forall|j: int|
                    0 <= j < i ==> all_ours(#[trigger] book[j], our_price, our_size)) implies best_external(
                book,
                our_price,
                our_size,
            ) == book[i].price by {
                assert(rest[i - 1] == book[i]);
                assert forall|j: int| 0 <= j < i - 1 implies all_ours(#[trigger] rest[j], our_price, our_size) by {
                    assert(rest[j] == book[j + 1]);
                }
            }
        }
    }
}

/// A middle is known exactly where both sides are quoted and do not cross;
/// without it the last trade stands in, and without that nothing does.
pub proof fn law_worth_comes_from_quotes(t: OptionTick)
    ensures
        t.mid_price() is Some <==> 0 < t.bid < t.ask,
        0 < t.bid < t.ask ==> t.worth() == t.bid + t.ask,
        !(0 < t.bid < t.ask) && t.last > 0 ==> t.worth() == t.last + t.last,
        !(0 < t.bid < t.ask) && t.last <= 0 ==> t.worth() == 0,
{
}

/// A change of the bids leaves the asks, and one of the asks the bids; a level
/// that is put first is the best of its side.
pub proof fn law_sides_of_the_book_are_apart(pre: DepthBook, is_bid: bool, op: i32, level: DepthLevel, post: DepthBook)
    requires
        DepthBook::applied(pre, is_bid, 0, op, level, post),
    ensures
        is_bid ==> post.asks@ == pre.asks@,
        !is_bid ==> post.bids@ == pre.bids@,
        op == 0 && is_bid ==> post.bids@.len() > 0 && post.bids@[0] == level,
        op == 0 && !is_bid ==> post.asks@.len() > 0 && post.asks@[0] == level,
{
}

} // verus!
