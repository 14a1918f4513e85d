//! Which depth books to subscribe to.
//!
//! Few can be subscribed at a time. The options nearest to the money keep
//! theirs; the rest take turns.

use crate::api::{Contract, InstrumentId, TickStreamHandle};
use crate::market_data::option_state::OptionTick;
use crate::market_data::state::MarketDataState;
use std::collections::HashMap;
use vstd::prelude::*;

verus! {

broadcast use vstd::std_specs::hash::group_hash_axioms;

/// Depth books that may be subscribed at a time.
pub const MAX_ACTIVE: usize = 5;

/// How many of them the options nearest to the money keep.
pub const FIXED_NEAREST: usize = 2;

/// How many the others share.
pub const ROTATE_SLOTS: usize = 3;

/// Levels per side.
pub const NUM_ROWS: i32 = 5;

/// Seconds between rotations.
pub const CADENCE_SEC: u64 = 30;

/// An option that could have a depth book, and how far its strike is from the
/// money.
#[derive(Clone, Copy, Debug, PartialEq, Eq, Structural)]
pub struct Candidate {
    pub distance: u64,
    pub instrument: u64,
}

/// The distance between two prices.
pub open spec fn gap(a: i64, b: i64) -> u64 {
    if a >= b {
        (a - b) as u64
    } else {
        (b - a) as u64
    }
}

/// The candidate that an entry of the book gives, if it has a quote and a
/// resolved contract.
pub open spec fn candidate_of(
    md: MarketDataState,
    slot: int,
    underlying: i64,
    qualified: Map<u64, Contract>,
) -> Option<Candidate> {
    let t = md.entries@[slot].tick;
    if t.bid <= 0 && t.ask <= 0 {
        None
    } else {
        match t.instrument_id {
            Some(i) => if qualified.contains_key(i.0) {
                Some(Candidate { distance: gap(t.strike, underlying), instrument: i.0 })
            } else {
                None
            },
            None => None,
        }
    }
}

/// The candidates among the first `n` entries of the book that belong to a
/// product.
pub open spec fn product_candidates(
    md: MarketDataState,
    n: int,
    product: Seq<char>,
    underlying: i64,
    qualified: Map<u64, Contract>,
) -> Seq<Candidate>
    decreases n,
{
    if n <= 0 {
        Seq::<Candidate>::empty()
    } else {
        let before = product_candidates(md, n - 1, product, underlying, qualified);
        if md.entries@[n - 1].product@ == product {
            match candidate_of(md, n - 1, underlying, qualified) {
                Some(c) => before.push(c),
                None => before,
            }
        } else {
            before
        }
    }
}

/// The candidates of the first `n` products. A product without a price has
/// none.
pub open spec fn all_candidates(
    md: MarketDataState,
    products: Seq<String>,
    n: int,
    qualified: Map<u64, Contract>,
) -> Seq<Candidate>
    decreases n,
{
    if n <= 0 {
        Seq::<Candidate>::empty()
    } else {
        let before = all_candidates(md, products, n - 1, qualified);
        match MarketDataState::price_in(md.underlying@, products[n - 1]@) {
            Some(p) => before + product_candidates(md, md.entries@.len() as int, products[n - 1]@, p, qualified),
            None => before,
        }
    }
}

/// Collects the options that could have a depth book.
pub fn collect_candidates(md: &MarketDataState, products: &Vec<String>, qualified: &HashMap<u64, Contract>) -> (r: Vec<
    Candidate,
>)
    requires
        md.wf(),
    ensures
        r@ == all_candidates(*md, products@, products@.len() as int, qualified@),
{
    let mut out: Vec<Candidate> = Vec::new();
    let mut p: usize = 0;
    while p < products.len()
        invariant
            p <= products@.len(),
            md.wf(),
            out@ == all_candidates(*md, products@, p as int, qualified@),
        decreases products@.len() - p,
    {
        match md.underlying_price(products[p].as_str()) {
            Some(und) => {
                let ghost before = out@;
                let slots = md.options_for_product(products[p].as_str());
                let ghost product = products@[p as int]@;
                let mut k: usize = 0;
                let ghost mut n: int = 0;
                while k < slots.len()
                    invariant
                        k <= slots@.len(),
                        p < products@.len(),
                        product == products@[p as int]@,
                        md.slots_of(product, slots@),
                        0 <= n <= md.entries@.len(),
                        k < slots@.len() ==> n <= slots@[k as int],
                        forall|j: int| 0 <= j < k ==> slots@[j] < n,
                        out@ == before + product_candidates(*md, n, product, und, qualified@),
                    decreases slots@.len() - k,
                {
                    let i: usize = slots[k];
                    proof {
                        lemma_skip(*md, n, i as int, product, und, qualified@, slots@, k as int);
                    }
                    let t = &md.entries[i].tick;
                    if t.bid > 0 || t.ask > 0 {
                        match t.instrument_id {
                            Some(id) => {
                                if qualified.contains_key(&id.0) {
                                    let distance: u64 = if t.strike >= und {
                                        (t.strike as i128 - und as i128) as u64
                                    } else {
                                        (und as i128 - t.strike as i128) as u64
                                    };
                                    out.push(Candidate { distance, instrument: id.0 });
                                }
                            },
                            None => {},
                        }
                    }
                    proof {
                        n = i + 1;
                        assert(out@ =~= before + product_candidates(*md, n, product, und, qualified@));
                    }
                    k = k + 1;
                }
                proof {
                    lemma_skip(*md, n, md.entries@.len() as int, product, und, qualified@, slots@, k as int);
                }
            },
            None => {},
        }
        p = p + 1;
    }
    out
}

/// Entries of other products between two of a product's add no candidate.
proof fn lemma_skip(
    md: MarketDataState,
    from: int,
    to: int,
    product: Seq<char>,
    underlying: i64,
    qualified: Map<u64, Contract>,
    slots: Seq<usize>,
    k: int,
)
    requires
        md.slots_of(product, slots),
        0 <= from <= to <= md.entries@.len(),
        0 <= k <= slots.len(),
        forall|j: int| 0 <= j < k ==> slots[j] < from,
        k < slots.len() ==> to <= slots[k],
    ensures
        product_candidates(md, to, product, underlying, qualified) == product_candidates(
            md,
            from,
            product,
            underlying,
            qualified,
        ),
    decreases to - from,
{
    if from < to {
        lemma_skip(md, from, to - 1, product, underlying, qualified, slots, k);
        if md.entries@[to - 1].product@ == product {
            let j = choose|j: int| 0 <= j < slots.len() && slots[j] == to - 1;
            if j >= k {
                if j > k {
                    assert(slots[k] < slots[j]);
                }
            }
        }
    }
}

/// A list in order of distance with one more candidate, behind those that are
/// as near.
pub open spec fn placed(sorted: Seq<Candidate>, c: Candidate) -> Seq<Candidate>
    decreases sorted.len(),
{
    if sorted.len() == 0 || sorted.last().distance <= c.distance {
        sorted.push(c)
    } else {
        placed(sorted.drop_last(), c).push(sorted.last())
    }
}

/// The candidates nearest first; those equally near in the order they came.
pub open spec fn nearest_first(s: Seq<Candidate>) -> Seq<Candidate>
    decreases s.len(),
{
    if s.len() == 0 {
        s
    } else {
        placed(nearest_first(s.drop_last()), s.last())
    }
}

proof fn lemma_placed(s: Seq<Candidate>, c: Candidate, at: int)
    requires
        0 <= at <= s.len(),
        at > 0 ==> s[at - 1].distance <= c.distance,
        forall|j: int| at <= j < s.len() ==> (#[trigger] s[j]).distance > c.distance,
    ensures
        placed(s, c) == s.insert(at, c),
    decreases s.len(),
{
    if at == s.len() {
        assert(s.insert(at, c) =~= s.push(c));
    } else {
        assert forall|j: int| at <= j < s.drop_last().len() implies (#[trigger] s.drop_last()[j]).distance > c.distance by {
            assert(s.drop_last()[j] == s[j]);
        }
        lemma_placed(s.drop_last(), c, at);
        assert(s.last() == s[s.len() - 1]);
        assert(s.insert(at, c) =~= s.drop_last().insert(at, c).push(s.last()));
    }
}

proof fn lemma_placed_keeps(s: Seq<Candidate>, c: Candidate)
    ensures
        placed(s, c).to_multiset() == s.to_multiset().insert(c),
        placed(s, c).len() == s.len() + 1,
        (forall|i: int, j: int| 0 <= i < j < s.len() ==> s[i].distance <= s[j].distance) ==> forall|i: int, j: int|
            0 <= i < j < placed(s, c).len() ==> placed(s, c)[i].distance <= placed(s, c)[j].distance,
        forall|i: int| 0 <= i < placed(s, c).len() ==> (#[trigger] placed(s, c)[i] == c) || s.contains(placed(s, c)[i]),
    decreases s.len(),
{
    broadcast use vstd::seq_lib::group_to_multiset_ensures;

    if s.len() > 0 && s.last().distance > c.distance {
        let d = s.drop_last();
        lemma_placed_keeps(d, c);
        assert(s =~= d.push(s.last()));
        let p = placed(s, c);
        assert(p =~= placed(d, c).push(s.last()));
        assert(p.to_multiset() =~= s.to_multiset().insert(c));
        assert forall|i: int| 0 <= i < p.len() implies (#[trigger] p[i] == c) || s.contains(p[i]) by {
            if i < p.len() - 1 {
                assert(p[i] == placed(d, c)[i]);
                if p[i] != c {
                    let k = d.index_of(p[i]);
                    assert(s[k] == p[i]);
                }
            } else {
                assert(s[s.len() - 1] == p[i]);
            }
        }
        if forall|i: int, j: int| 0 <= i < j < s.len() ==> s[i].distance <= s[j].distance {
            assert forall|i: int, j: int| 0 <= i < j < d.len() implies d[i].distance <= d[j].distance by {
                assert(s[i].distance <= s[j].distance);
            }
            assert forall|i: int, j: int| 0 <= i < j < p.len() implies p[i].distance <= p[j].distance by {
                if j == p.len() - 1 {
                    assert(p[i] == placed(d, c)[i]);
                    if p[i] != c {
                        let k = d.index_of(p[i]);
                        assert(s[k].distance <= s[s.len() - 1].distance);
                    }
                } else {
                    assert(placed(d, c)[i].distance <= placed(d, c)[j].distance);
                }
            }
        }
    } else {
        let p = placed(s, c);
        assert forall|i: int| 0 <= i < p.len() implies (#[trigger] p[i] == c) || s.contains(p[i]) by {
            if i < s.len() {
                assert(s[i] == p[i]);
            }
        }
        if s.len() > 0 && forall|i: int, j: int| 0 <= i < j < s.len() ==> s[i].distance <= s[j].distance {
            assert forall|i: int, j: int| 0 <= i < j < p.len() implies p[i].distance <= p[j].distance by {
                if j == s.len() && i < s.len() - 1 {
                    assert(s[i].distance <= s[s.len() - 1].distance);
                }
            }
        }
    }
}

/// Sorting keeps every candidate and puts them in order of distance.
pub proof fn law_nearest_first_sorts(s: Seq<Candidate>)
    ensures
        nearest_first(s).to_multiset() == s.to_multiset(),
        nearest_first(s).len() == s.len(),
        forall|i: int, j: int|
            0 <= i < j < nearest_first(s).len() ==> nearest_first(s)[i].distance <= nearest_first(s)[j].distance,
    decreases s.len(),
{
    broadcast use vstd::seq_lib::group_to_multiset_ensures;

    if s.len() > 0 {
        law_nearest_first_sorts(s.drop_last());
        lemma_placed_keeps(nearest_first(s.drop_last()), s.last());
        assert(s =~= s.drop_last().push(s.last()));
    }
}

/// Sorts candidates, nearest first.
fn sort_candidates(s: &Vec<Candidate>) -> (r: Vec<Candidate>)
    ensures
        r@ == nearest_first(s@),
{
    let mut out: Vec<Candidate> = Vec::new();
    let mut i: usize = 0;
    while i < s.len()
        invariant
            i <= s@.len(),
            out@ == nearest_first(s@.take(i as int)),
            out@.len() == i,
            forall|a: int, b: int| 0 <= a < b < out@.len() ==> out@[a].distance <= out@[b].distance,
        decreases s@.len() - i,
    {
        let c: Candidate = s[i];
        let mut at: usize = out.len();
        while at > 0 && out[at - 1].distance > c.distance
            invariant
                at <= out@.len(),
                forall|j: int| at <= j < out@.len() ==> (#[trigger] out@[j]).distance > c.distance,
            decreases at,
        {
            at = at - 1;
        }
        proof {
            assert(s@.take(i + 1).drop_last() =~= s@.take(i as int));
            assert(s@.take(i + 1).last() == c);
            lemma_placed(out@, c, at as int);
            lemma_placed_keeps(out@, c);
        }
        out.insert(at, c);
        i = i + 1;
    }
    assert(s@.take(i as int) =~= s@);
    out
}

/// How many of the candidates always have a book.
pub open spec fn fixed_count(n: int) -> int {
    if n < FIXED_NEAREST {
        n
    } else {
        FIXED_NEAREST as int
    }
}

/// How many of a pool get a book in a turn.
pub open spec fn turn_count(pool: int) -> int {
    if pool < ROTATE_SLOTS {
        pool
    } else {
        ROTATE_SLOTS as int
    }
}

/// Where in the pool the `i`-th book of a turn goes.
pub open spec fn turn_index(cursor: int, pool: int, i: int) -> int {
    (cursor % pool + i) % pool
}

/// The instruments that have a book in a turn: the nearest, then those whose
/// turn it is among the rest.
pub open spec fn chosen(sorted: Seq<Candidate>, cursor: int) -> Seq<u64> {
    let fixed = fixed_count(sorted.len() as int);
    let pool = sorted.len() - fixed;
    Seq::new(
        (fixed + turn_count(pool)) as nat,
        |i: int|
            if i < fixed {
                sorted[i].instrument
            } else {
                sorted[fixed + turn_index(cursor, pool, i - fixed)].instrument
            },
    )
}

/// Where the next turn starts.
pub open spec fn next_cursor(sorted: Seq<Candidate>, cursor: int) -> int {
    let pool = sorted.len() - fixed_count(sorted.len() as int);
    if pool > 0 {
        (cursor + turn_count(pool)) % pool
    } else {
        cursor
    }
}

/// The depth books that are subscribed, and whose turn is next.
#[derive(Debug)]
pub struct DepthRotator {
    pub active: Vec<(InstrumentId, TickStreamHandle)>,
    pub cursor: usize,
}

/// What a turn changes.
#[derive(Debug)]
pub struct DepthTurn {
    pub cancel: Vec<TickStreamHandle>,
    pub subscribe: Vec<InstrumentId>,
}

/// The books of a list that are wanted, or the others.
pub open spec fn kept(active: Seq<(InstrumentId, TickStreamHandle)>, want: Seq<u64>) -> Seq<(InstrumentId, TickStreamHandle)> {
    active.filter(|a: (InstrumentId, TickStreamHandle)| want.contains(a.0.0))
}

/// The handles of the books that are no longer wanted.
pub open spec fn dropped(active: Seq<(InstrumentId, TickStreamHandle)>, want: Seq<u64>) -> Seq<TickStreamHandle>
    decreases active.len(),
{
    if active.len() == 0 {
        Seq::<TickStreamHandle>::empty()
    } else if want.contains(active.last().0.0) {
        dropped(active.drop_last(), want)
    } else {
        dropped(active.drop_last(), want).push(active.last().1)
    }
}

/// Whether an instrument has a book.
pub open spec fn has_book(active: Seq<(InstrumentId, TickStreamHandle)>, id: u64) -> bool {
    exists|i: int| 0 <= i < active.len() && (#[trigger] active[i]).0.0 == id
}

/// The wanted instruments that have no book yet.
pub open spec fn fresh(want: Seq<u64>, active: Seq<(InstrumentId, TickStreamHandle)>) -> Seq<InstrumentId>
    decreases want.len(),
{
    if want.len() == 0 {
        Seq::<InstrumentId>::empty()
    } else if has_book(active, want.last()) {
        fresh(want.drop_last(), active)
    } else {
        fresh(want.drop_last(), active).push(InstrumentId(want.last()))
    }
}

fn wants(want: &Vec<u64>, id: u64) -> (r: bool)
    ensures
        r == want@.contains(id),
{
    let mut i: usize = 0;
    while i < want.len()
        invariant
            i <= want@.len(),
            forall|j: int| 0 <= j < i ==> want@[j] != id,
        decreases want@.len() - i,
    {
        if want[i] == id {
            assert(want@[i as int] == id);
            return true;
        }
        i = i + 1;
    }
    false
}

impl DepthRotator {
    /// No instrument has two books.
    pub open spec fn wf(self) -> bool {
        one_book_each(self.active@)
    }

    /// No book is subscribed.
    pub fn new() -> (r: DepthRotator)
        ensures
            r.wf(),
            r.active@ == Seq::<(InstrumentId, TickStreamHandle)>::empty(),
            r.cursor == 0,
    {
        DepthRotator { active: Vec::new(), cursor: 0 }
    }

    fn choose_books(&mut self, sorted: &Vec<Candidate>) -> (r: Vec<u64>)
        ensures
            r@ == chosen(sorted@, old(self).cursor as int),
            final(self).active == old(self).active,
            final(self).cursor == next_cursor(sorted@, old(self).cursor as int),
    {
        let n: usize = sorted.len();
        let fixed: usize = if n < FIXED_NEAREST {
            n
        } else {
            FIXED_NEAREST
        };
        let mut out: Vec<u64> = Vec::new();
        let mut i: usize = 0;
        while i < fixed
            invariant
                i <= fixed <= sorted@.len(),
                out@ == Seq::new(i as nat, |j: int| sorted@[j].instrument),
            decreases fixed - i,
        {
            out.push(sorted[i].instrument);
            i = i + 1;
            assert(out@ =~= Seq::new(i as nat, |j: int| sorted@[j].instrument));
        }
        let pool: usize = n - fixed;
        if pool > 0 {
            let take: usize = if pool < ROTATE_SLOTS {
                pool
            } else {
                ROTATE_SLOTS
            };
            let start: usize = self.cursor % pool;
            let ghost cursor = self.cursor as int;
            let mut i: usize = 0;
            while i < take
                invariant
                    i <= take <= pool,
                    pool > 0,
                    start < pool,
                    start == cursor % pool as int,
                    fixed + pool == n,
                    n == sorted@.len(),
                    fixed <= out@.len(),
                    out@.len() == fixed + i,
                    forall|j: int| 0 <= j < fixed ==> out@[j] == (#[trigger] sorted@[j]).instrument,
                    forall|j: int|
                        fixed <= j < out@.len() ==> #[trigger] out@[j] == sorted@[fixed + turn_index(
                            cursor,
                            pool as int,
                            j - fixed,
                        )].instrument,
                decreases take - i,
            {
                let at: usize = if i < pool - start {
                    start + i
                } else {
                    i - (pool - start)
                };
                assert(at == turn_index(cursor, pool as int, i as int)) by (nonlinear_arith)
                    requires
                        pool > 0,
                        start == cursor % pool as int,
                        0 <= start < pool,
                        0 <= i < pool,
                        i < pool - start ==> at == start + i,
                        i >= pool - start ==> at == i - (pool - start),
                        turn_index(cursor, pool as int, i as int) == (cursor % pool as int + i) % pool as int,
                ;
                out.push(sorted[fixed + at].instrument);
                i = i + 1;
            }
            let next: usize = if take < pool - start {
                start + take
            } else {
                take - (pool - start)
            };
            assert(next == (cursor + take) % pool as int) by (nonlinear_arith)
                requires
                    pool > 0,
                    start == cursor % pool as int,
                    0 <= start < pool,
                    0 <= take <= pool,
                    take < pool - start ==> next == start + take,
                    take >= pool - start ==> next == take - (pool - start),
            ;
            self.cursor = next;
        }
        assert(out@ =~= chosen(sorted@, old(self).cursor as int));
        out
    }

    /// Takes a turn: which books to cancel, which to subscribe. The cancelled
    /// ones are forgotten; the new ones are remembered once subscribed.
    pub fn turn(&mut self, candidates: &Vec<Candidate>) -> (r: DepthTurn)
        requires
            old(self).wf(),
        ensures
            final(self).wf(),
            ({
                let want = chosen(nearest_first(candidates@), old(self).cursor as int);
                &&& r.cancel@ == dropped(old(self).active@, want)
                &&& final(self).active@ == kept(old(self).active@, want)
                &&& r.subscribe@ == fresh(want, kept(old(self).active@, want))
                &&& final(self).cursor == next_cursor(nearest_first(candidates@), old(self).cursor as int)
            }),
    {
        let sorted = sort_candidates(candidates);
        let ghost before = self.active@;
        let want = self.choose_books(&sorted);
        let mut stay: Vec<(InstrumentId, TickStreamHandle)> = Vec::new();
        let mut cancel: Vec<TickStreamHandle> = Vec::new();
        let mut i: usize = 0;
        while i < self.active.len()
            invariant
                i <= self.active@.len(),
                self.active@ == before,
                stay@ == kept(before.take(i as int), want@),
                cancel@ == dropped(before.take(i as int), want@),
                self.cursor == next_cursor(nearest_first(candidates@), old(self).cursor as int),
            decreases self.active@.len() - i,
        {
            proof {
                reveal(Seq::filter);
                assert(before.take(i + 1).drop_last() =~= before.take(i as int));
                assert(before.take(i + 1).last() == before[i as int]);
            }
            if wants(&want, self.active[i].0.0) {
                stay.push(self.active[i]);
            } else {
                cancel.push(self.active[i].1);
            }
            i = i + 1;
        }
        assert(before.take(i as int) =~= before);
        proof {
            lemma_kept(before, want@);
        }
        self.active = stay;
        let mut subscribe: Vec<InstrumentId> = Vec::new();
        let mut i: usize = 0;
        while i < want.len()
            invariant
                i <= want@.len(),
                subscribe@ == fresh(want@.take(i as int), self.active@),
                self.active@ == kept(before, want@),
                self.wf(),
                self.cursor == next_cursor(nearest_first(candidates@), old(self).cursor as int),
            decreases want@.len() - i,
        {
            assert(want@.take(i + 1).drop_last() =~= want@.take(i as int));
            assert(want@.take(i + 1).last() == want@[i as int]);
            if !self.is_active(want[i]) {
                subscribe.push(InstrumentId(want[i]));
            }
            i = i + 1;
        }
        assert(want@.take(i as int) =~= want@);
        DepthTurn { cancel, subscribe }
    }

    /// Whether an instrument has a book.
    pub fn is_active(&self, id: u64) -> (r: bool)
        ensures
            r == has_book(self.active@, id),
    {
        let mut i: usize = 0;
        while i < self.active.len()
            invariant
                i <= self.active@.len(),
                forall|j: int| 0 <= j < i ==> (#[trigger] self.active@[j]).0.0 != id,
            decreases self.active@.len() - i,
        {
            if self.active[i].0.0 == id {
                return true;
            }
            i = i + 1;
        }
        false
    }

    /// Remembers a book that was subscribed for an instrument that had none.
    pub fn subscribed(&mut self, id: InstrumentId, handle: TickStreamHandle)
        requires
            old(self).wf(),
            !has_book(old(self).active@, id.0),
        ensures
            final(self).wf(),
            final(self).active@ == old(self).active@.push((id, handle)),
            final(self).cursor == old(self).cursor,
    {
        self.active.push((id, handle));
        proof {
            lemma_one_more(old(self).active@, id, handle);
        }
    }
}

proof fn lemma_one_more(active: Seq<(InstrumentId, TickStreamHandle)>, id: InstrumentId, handle: TickStreamHandle)
    requires
        one_book_each(active),
        !has_book(active, id.0),
    ensures
        one_book_each(active.push((id, handle))),
        forall|x: u64| #[trigger] has_book(active.push((id, handle)), x) <==> has_book(active, x) || x == id.0,
{
    let after = active.push((id, handle));
    assert forall|i: int, j: int| 0 <= i < j < after.len() implies (#[trigger] after[i]).0.0 != (
    #[trigger] after[j]).0.0 by {
        assert(after[i] == active[i]);
        if j < active.len() {
            assert(active[i].0.0 != active[j].0.0);
        }
    }
    assert forall|x: u64| #[trigger] has_book(after, x) <==> has_book(active, x) || x == id.0 by {
        if has_book(active, x) {
            let k = choose|k: int| 0 <= k < active.len() && (#[trigger] active[k]).0.0 == x;
            assert(after[k].0.0 == x);
        }
        if x == id.0 {
            assert(after[active.len() as int].0.0 == x);
        }
        if has_book(after, x) {
            let k = choose|k: int| 0 <= k < after.len() && (#[trigger] after[k]).0.0 == x;
            if k < active.len() {
                assert(active[k].0.0 == x);
            }
        }
    }
}

/// A turn never asks for more books than may be subscribed, and the nearest
/// options always have theirs.
pub proof fn law_turn_is_bounded(sorted: Seq<Candidate>, cursor: int)
    requires
        cursor >= 0,
    ensures
        chosen(sorted, cursor).len() <= MAX_ACTIVE,
        forall|i: int| 0 <= i < FIXED_NEAREST && i < sorted.len() ==> chosen(sorted, cursor)[i] == #[trigger] sorted[i].instrument,
{
}

/// Where the turns stand after `rounds` of them over the same pool.
pub open spec fn cursor_after(cursor: int, pool: int, rounds: nat) -> int
    decreases rounds,
{
    if rounds == 0 {
        cursor
    } else {
        (cursor_after(cursor, pool, (rounds - 1) as nat) + turn_count(pool)) % pool
    }
}

proof fn lemma_cursor_after(cursor: int, pool: int, rounds: nat)
    requires
        pool > 0,
        cursor >= 0,
    ensures
        cursor_after(cursor, pool, rounds) >= 0,
        cursor_after(cursor, pool, rounds) % pool == (cursor + rounds * turn_count(pool)) % pool,
    decreases rounds,
{
    if rounds > 0 {
        lemma_cursor_after(cursor, pool, (rounds - 1) as nat);
        let t = turn_count(pool);
        let a = cursor_after(cursor, pool, (rounds - 1) as nat);
        let b = cursor + (rounds - 1) * t;
        assert(rounds * t == (rounds - 1) * t + t) by (nonlinear_arith);
        vstd::arithmetic::div_mod::lemma_add_mod_noop(a, t, pool);
        vstd::arithmetic::div_mod::lemma_add_mod_noop(b, t, pool);
        vstd::arithmetic::div_mod::lemma_mod_twice(a + t, pool);
        assert(b + t == cursor + rounds * t);
        assert((a + t) % pool >= 0) by (nonlinear_arith)
            requires
                pool > 0,
        ;
    } else {
        assert(0 * turn_count(pool) == 0);
    }
}

/// The turns reach everyone: whatever the pool and wherever they start, each
/// member of the pool gets a book within as many turns as it takes to go
/// round once.
pub proof fn law_rotation_reaches_all(cursor: int, pool: int, member: int) -> (found: (nat, int))
    requires
        cursor >= 0,
        0 <= member < pool,
    ensures
        found.0 * turn_count(pool) < pool,
        0 <= found.1 < turn_count(pool),
        turn_index(cursor_after(cursor, pool, found.0), pool, found.1) == member,
{
    let t = turn_count(pool);
    let d = (member - cursor % pool + pool) % pool;
    assert(0 <= cursor % pool < pool) by (nonlinear_arith)
        requires
            pool > 0,
    ;
    assert(0 <= d < pool && (cursor % pool + d) % pool == member) by {
        if member >= cursor % pool {
            vstd::arithmetic::div_mod::lemma_mod_add_multiples_vanish(member - cursor % pool, pool);
            vstd::arithmetic::div_mod::lemma_small_mod((member - cursor % pool) as nat, pool as nat);
            assert(d == member - cursor % pool);
            vstd::arithmetic::div_mod::lemma_small_mod(member as nat, pool as nat);
        } else {
            vstd::arithmetic::div_mod::lemma_small_mod((member - cursor % pool + pool) as nat, pool as nat);
            assert(d == member - cursor % pool + pool);
            vstd::arithmetic::div_mod::lemma_mod_add_multiples_vanish(member, pool);
            vstd::arithmetic::div_mod::lemma_small_mod(member as nat, pool as nat);
        }
    }
    let k = (d / t) as nat;
    let i = d % t;
    assert(k * t + i == d && 0 <= i < t && k * t <= d && d / t >= 0) by (nonlinear_arith)
        requires
            t > 0,
            d >= 0,
            k == (d / t) as nat,
            i == d % t,
    ;
    lemma_cursor_after(cursor, pool, k);
    let c = cursor_after(cursor, pool, k);
    vstd::arithmetic::div_mod::lemma_add_mod_noop(cursor + k * t, i, pool);
    vstd::arithmetic::div_mod::lemma_add_mod_noop(c, i, pool);
    vstd::arithmetic::div_mod::lemma_add_mod_noop(cursor, d, pool);
    vstd::arithmetic::div_mod::lemma_add_mod_noop(c % pool, i, pool);
    vstd::arithmetic::div_mod::lemma_add_mod_noop(cursor % pool, d, pool);
    vstd::arithmetic::div_mod::lemma_mod_twice(c, pool);
    vstd::arithmetic::div_mod::lemma_mod_twice(cursor, pool);
    assert(cursor + k * t + i == cursor + d);
    (k, i)
}

/// Whether no instrument has two books.
pub open spec fn one_book_each(active: Seq<(InstrumentId, TickStreamHandle)>) -> bool {
    forall|i: int, j: int| 0 <= i < j < active.len() ==> (#[trigger] active[i]).0.0 != (#[trigger] active[j]).0.0
}

/// The instruments that have a book.
pub open spec fn booked(active: Seq<(InstrumentId, TickStreamHandle)>) -> Set<u64>
    decreases active.len(),
{
    if active.len() == 0 {
        Set::<u64>::empty()
    } else {
        booked(active.drop_last()).insert(active.last().0.0)
    }
}

proof fn lemma_booked(active: Seq<(InstrumentId, TickStreamHandle)>)
    requires
        one_book_each(active),
    ensures
        booked(active).finite(),
        booked(active).len() == active.len(),
        forall|id: u64| #[trigger] booked(active).contains(id) <==> has_book(active, id),
    decreases active.len(),
{
    if active.len() > 0 {
        let d = active.drop_last();
        assert forall|i: int, j: int| 0 <= i < j < d.len() implies (#[trigger] d[i]).0.0 != (#[trigger] d[j]).0.0 by {
            assert(active[i].0.0 != active[j].0.0);
        }
        lemma_booked(d);
        assert forall|id: u64| #[trigger] booked(active).contains(id) <==> has_book(active, id) by {
            if has_book(d, id) {
                let k = choose|k: int| 0 <= k < d.len() && (#[trigger] d[k]).0.0 == id;
                assert(active[k].0.0 == id);
            }
            if id == active.last().0.0 {
                assert(active[active.len() - 1].0.0 == id);
            }
            if has_book(active, id) {
                let k = choose|k: int| 0 <= k < active.len() && (#[trigger] active[k]).0.0 == id;
                if k < d.len() {
                    assert(d[k].0.0 == id);
                }
            }
        }
        if has_book(d, active.last().0.0) {
            let k = choose|k: int| 0 <= k < d.len() && (#[trigger] d[k]).0.0 == active.last().0.0;
            assert(active[k].0.0 != active[active.len() - 1].0.0);
        }
    }
}

/// The wanted instruments among a set.
pub open spec fn wanted_of(want: Seq<u64>, ids: Set<u64>) -> Set<u64>
    decreases want.len(),
{
    if want.len() == 0 {
        Set::<u64>::empty()
    } else if ids.contains(want.last()) {
        wanted_of(want.drop_last(), ids).insert(want.last())
    } else {
        wanted_of(want.drop_last(), ids)
    }
}

proof fn lemma_fresh_leaves_room(want: Seq<u64>, active: Seq<(InstrumentId, TickStreamHandle)>, ids: Set<u64>)
    requires
        forall|id: u64| #[trigger] ids.contains(id) <==> has_book(active, id),
    ensures
        wanted_of(want, ids).finite(),
        fresh(want, active).len() + wanted_of(want, ids).len() <= want.len(),
        forall|id: u64| #[trigger] wanted_of(want, ids).contains(id) <==> want.contains(id) && ids.contains(id),
    decreases want.len(),
{
    if want.len() > 0 {
        let d = want.drop_last();
        lemma_fresh_leaves_room(d, active, ids);
        assert(want =~= d.push(want.last()));
        assert forall|id: u64| #[trigger] wanted_of(want, ids).contains(id) <==> want.contains(id) && ids.contains(id) by {
            if d.contains(id) {
                let k = d.index_of(id);
                assert(want[k] == id);
            }
            if want.contains(id) && id != want.last() {
                let k = want.index_of(id);
                assert(d[k] == id);
            }
            assert(want[want.len() - 1] == want.last());
        }
    }
}

proof fn lemma_kept(active: Seq<(InstrumentId, TickStreamHandle)>, want: Seq<u64>)
    requires
        one_book_each(active),
    ensures
        one_book_each(kept(active, want)),
        forall|i: int| 0 <= i < kept(active, want).len() ==> want.contains((#[trigger] kept(active, want)[i]).0.0),
        forall|id: u64| #[trigger] has_book(kept(active, want), id) ==> has_book(active, id),
    decreases active.len(),
{
    reveal(Seq::filter);
    if active.len() > 0 {
        let d = active.drop_last();
        assert forall|i: int, j: int| 0 <= i < j < d.len() implies (#[trigger] d[i]).0.0 != (#[trigger] d[j]).0.0 by {
            assert(active[i].0.0 != active[j].0.0);
        }
        lemma_kept(d, want);
        let before = kept(d, want);
        let after = kept(active, want);
        assert forall|id: u64| #[trigger] has_book(after, id) implies has_book(active, id) by {
            let k = choose|k: int| 0 <= k < after.len() && (#[trigger] after[k]).0.0 == id;
            if k < before.len() {
                assert(before[k].0.0 == id);
                assert(has_book(before, id));
                let m = choose|m: int| 0 <= m < d.len() && (#[trigger] d[m]).0.0 == id;
                assert(active[m].0.0 == id);
            } else {
                assert(active[active.len() - 1].0.0 == id);
            }
        }
        assert forall|i: int, j: int| 0 <= i < j < after.len() implies (#[trigger] after[i]).0.0 != (
        #[trigger] after[j]).0.0 by {
            if j < before.len() {
                assert(before[i].0.0 != before[j].0.0);
            } else {
                assert(before[i] == after[i]);
                assert(has_book(before, after[i].0.0));
                let m = choose|m: int| 0 <= m < d.len() && (#[trigger] d[m]).0.0 == after[i].0.0;
                assert(active[m].0.0 != active[active.len() - 1].0.0);
            }
        }
    }
}

/// The limit holds: the books that are kept and those that a turn asks for
/// are together never more than may be subscribed at a time.
pub proof fn law_depth_limit_holds(active: Seq<(InstrumentId, TickStreamHandle)>, sorted: Seq<Candidate>, cursor: int)
    requires
        one_book_each(active),
        cursor >= 0,
    ensures
        kept(active, chosen(sorted, cursor)).len() + fresh(
            chosen(sorted, cursor),
            kept(active, chosen(sorted, cursor)),
        ).len() <= MAX_ACTIVE,
{
    let want = chosen(sorted, cursor);
    let stay = kept(active, want);
    law_turn_is_bounded(sorted, cursor);
    lemma_kept(active, want);
    lemma_booked(stay);
    let ids = booked(stay);
    lemma_fresh_leaves_room(want, stay, ids);
    assert(wanted_of(want, ids) =~= ids) by {
        assert forall|id: u64| ids.contains(id) implies want.contains(id) by {
            let k = choose|k: int| 0 <= k < stay.len() && (#[trigger] stay[k]).0.0 == id;
            assert(want.contains(stay[k].0.0));
        }
    }
}

// A whole turn

/// The books once those of a list were subscribed, in order, for the
/// instruments that have none.
pub open spec fn all_subscribed(
    active: Seq<(InstrumentId, TickStreamHandle)>,
    ids: Seq<InstrumentId>,
    handles: Seq<TickStreamHandle>,
) -> Seq<(InstrumentId, TickStreamHandle)>
    decreases ids.len(),
{
    if ids.len() == 0 {
        active
    } else {
        let before = all_subscribed(active, ids.drop_last(), handles);
        if has_book(before, ids.last().0) {
            before
        } else {
            before.push((ids.last(), handles[ids.len() - 1]))
        }
    }
}

proof fn lemma_all_subscribed(
    active: Seq<(InstrumentId, TickStreamHandle)>,
    ids: Seq<InstrumentId>,
    handles: Seq<TickStreamHandle>,
)
    requires
        one_book_each(active),
    ensures
        one_book_each(all_subscribed(active, ids, handles)),
        forall|x: u64| #[trigger]
            has_book(all_subscribed(active, ids, handles), x) <==> has_book(active, x) || ids.contains(InstrumentId(x)),
    decreases ids.len(),
{
    if ids.len() > 0 {
        let d = ids.drop_last();
        lemma_all_subscribed(active, d, handles);
        let before = all_subscribed(active, d, handles);
        let last = ids.last();
        if !has_book(before, last.0) {
            lemma_one_more(before, last, handles[ids.len() - 1]);
        }
        assert(ids =~= d.push(last));
        assert forall|x: u64| ids.contains(InstrumentId(x)) <==> d.contains(InstrumentId(x)) || x == last.0 by {
            if d.contains(InstrumentId(x)) {
                let k = d.index_of(InstrumentId(x));
                assert(ids[k] == InstrumentId(x));
            }
            if x == last.0 {
                assert(ids[ids.len() - 1] == InstrumentId(x));
            }
            if ids.contains(InstrumentId(x)) && x != last.0 {
                let k = ids.index_of(InstrumentId(x));
                assert(d[k] == InstrumentId(x));
            }
        }
    }
}

proof fn lemma_fresh(want: Seq<u64>, active: Seq<(InstrumentId, TickStreamHandle)>)
    ensures
        forall|x: u64| #[trigger]
            fresh(want, active).contains(InstrumentId(x)) <==> want.contains(x) && !has_book(active, x),
    decreases want.len(),
{
    if want.len() > 0 {
        let d = want.drop_last();
        lemma_fresh(d, active);
        let before = fresh(d, active);
        let last = want.last();
        assert(want =~= d.push(last));
        assert forall|x: u64| #[trigger]
            fresh(want, active).contains(InstrumentId(x)) <==> want.contains(x) && !has_book(active, x) by {
            assert(want.contains(x) <==> d.contains(x) || x == last) by {
                if d.contains(x) {
                    let k = d.index_of(x);
                    assert(want[k] == x);
                }
                assert(want[want.len() - 1] == last);
                if want.contains(x) && x != last {
                    let k = want.index_of(x);
                    assert(d[k] == x);
                }
            }
            if !has_book(active, last) {
                let after = before.push(InstrumentId(last));
                if before.contains(InstrumentId(x)) {
                    let k = before.index_of(InstrumentId(x));
                    assert(after[k] == InstrumentId(x));
                }
                assert(after[before.len() as int] == InstrumentId(last));
                if after.contains(InstrumentId(x)) && x != last {
                    let k = after.index_of(InstrumentId(x));
                    assert(before[k] == InstrumentId(x));
                }
            }
        }
    }
}

proof fn lemma_wanted_stays(active: Seq<(InstrumentId, TickStreamHandle)>, want: Seq<u64>)
    ensures
        forall|x: u64| want.contains(x) && has_book(active, x) ==> #[trigger] has_book(kept(active, want), x),
        forall|i: int|
            0 <= i < active.len() && !want.contains((#[trigger] active[i]).0.0) ==> dropped(active, want).contains(
                active[i].1,
            ),
    decreases active.len(),
{
    reveal(Seq::filter);
    if active.len() > 0 {
        let d = active.drop_last();
        lemma_wanted_stays(d, want);
        let last = active.last();
        let before = kept(d, want);
        let after = kept(active, want);
        assert forall|x: u64| want.contains(x) && has_book(active, x) implies #[trigger] has_book(after, x) by {
            let k = choose|k: int| 0 <= k < active.len() && (#[trigger] active[k]).0.0 == x;
            if k < d.len() {
                assert(d[k].0.0 == x);
                assert(has_book(d, x));
                assert(has_book(before, x));
                let m = choose|m: int| 0 <= m < before.len() && (#[trigger] before[m]).0.0 == x;
                assert(after[m].0.0 == x);
            } else {
                assert(after[before.len() as int].0.0 == x);
            }
        }
        let gone = dropped(d, want);
        assert forall|i: int| 0 <= i < active.len() && !want.contains((#[trigger] active[i]).0.0) implies dropped(
            active,
            want,
        ).contains(active[i].1) by {
            if i < d.len() {
                assert(d[i] == active[i]);
                let k = gone.index_of(active[i].1);
                assert(dropped(active, want)[k] == active[i].1);
            } else {
                assert(dropped(active, want)[gone.len() as int] == active[i].1);
            }
        }
    }
}

/// Whether no two candidates are the same instrument.
pub open spec fn distinct(s: Seq<Candidate>) -> bool {
    forall|i: int, j: int| 0 <= i < j < s.len() ==> (#[trigger] s[i]).instrument != (#[trigger] s[j]).instrument
}

/// Whether an instrument is among the candidates.
pub open spec fn among(s: Seq<Candidate>, id: u64) -> bool {
    exists|i: int| 0 <= i < s.len() && (#[trigger] s[i]).instrument == id
}

proof fn lemma_placed_distinct(s: Seq<Candidate>, c: Candidate)
    requires
        distinct(s),
        !among(s, c.instrument),
    ensures
        distinct(placed(s, c)),
        forall|x: u64| #[trigger] among(placed(s, c), x) <==> among(s, x) || x == c.instrument,
    decreases s.len(),
{
    let p = placed(s, c);
    let (front, last) = if s.len() == 0 || s.last().distance <= c.distance {
        (s, c)
    } else {
        let d = s.drop_last();
        assert forall|i: int, j: int| 0 <= i < j < d.len() implies (#[trigger] d[i]).instrument != (
        #[trigger] d[j]).instrument by {
            assert(s[i].instrument != s[j].instrument);
        }
        assert(!among(d, c.instrument)) by {
            if among(d, c.instrument) {
                let k = choose|k: int| 0 <= k < d.len() && (#[trigger] d[k]).instrument == c.instrument;
                assert(s[k].instrument == c.instrument);
            }
        }
        lemma_placed_distinct(d, c);
        assert(s[s.len() - 1].instrument != c.instrument);
        assert(!among(d, s.last().instrument)) by {
            if among(d, s.last().instrument) {
                let k = choose|k: int| 0 <= k < d.len() && (#[trigger] d[k]).instrument == s.last().instrument;
                assert(s[k].instrument != s[s.len() - 1].instrument);
            }
        }
        (placed(d, c), s.last())
    };
    assert(p =~= front.push(last));
    assert(!among(front, last.instrument));
    assert forall|i: int, j: int| 0 <= i < j < p.len() implies (#[trigger] p[i]).instrument != (
    #[trigger] p[j]).instrument by {
        assert(p[i] == front[i]);
        if j < front.len() {
            assert(front[i].instrument != front[j].instrument);
        }
    }
    assert forall|x: u64| #[trigger] among(p, x) <==> among(s, x) || x == c.instrument by {
        if among(front, x) {
            let k = choose|k: int| 0 <= k < front.len() && (#[trigger] front[k]).instrument == x;
            assert(p[k].instrument == x);
        }
        assert(p[front.len() as int] == last);
        if among(p, x) {
            let k = choose|k: int| 0 <= k < p.len() && (#[trigger] p[k]).instrument == x;
            if k < front.len() {
                assert(front[k].instrument == x);
            }
        }
        if s.len() > 0 && s.last().distance > c.distance {
            let d = s.drop_last();
            if among(d, x) {
                let k = choose|k: int| 0 <= k < d.len() && (#[trigger] d[k]).instrument == x;
                assert(s[k].instrument == x);
            }
            assert(s[s.len() - 1] == s.last());
            if among(s, x) {
                let k = choose|k: int| 0 <= k < s.len() && (#[trigger] s[k]).instrument == x;
                if k < d.len() {
                    assert(d[k].instrument == x);
                }
            }
        }
    }
}

proof fn lemma_sorted_distinct(s: Seq<Candidate>)
    requires
        distinct(s),
    ensures
        distinct(nearest_first(s)),
        nearest_first(s).len() == s.len(),
        forall|x: u64| #[trigger] among(nearest_first(s), x) <==> among(s, x),
    decreases s.len(),
{
    law_nearest_first_sorts(s);
    if s.len() > 0 {
        let d = s.drop_last();
        let last = s.last();
        assert forall|i: int, j: int| 0 <= i < j < d.len() implies (#[trigger] d[i]).instrument != (
        #[trigger] d[j]).instrument by {
            assert(s[i].instrument != s[j].instrument);
        }
        lemma_sorted_distinct(d);
        assert(!among(d, last.instrument)) by {
            if among(d, last.instrument) {
                let k = choose|k: int| 0 <= k < d.len() && (#[trigger] d[k]).instrument == last.instrument;
                assert(s[k].instrument != s[s.len() - 1].instrument);
            }
        }
        lemma_placed_distinct(nearest_first(d), last);
        assert forall|x: u64| #[trigger] among(nearest_first(s), x) <==> among(s, x) by {
            if among(d, x) {
                let k = choose|k: int| 0 <= k < d.len() && (#[trigger] d[k]).instrument == x;
                assert(s[k].instrument == x);
            }
            assert(s[s.len() - 1] == last);
            if among(s, x) {
                let k = choose|k: int| 0 <= k < s.len() && (#[trigger] s[k]).instrument == x;
                if k < d.len() {
                    assert(d[k].instrument == x);
                }
            }
        }
    }
}

proof fn lemma_turns_differ(cursor: int, pool: int, i: int, j: int)
    requires
        cursor >= 0,
        0 <= i < j < pool,
    ensures
        turn_index(cursor, pool, i) != turn_index(cursor, pool, j),
        0 <= turn_index(cursor, pool, i) < pool,
        0 <= turn_index(cursor, pool, j) < pool,
{
    let a = cursor % pool + i;
    let d = j - i;
    assert(0 <= a % pool < pool && 0 <= (a + d) % pool < pool) by (nonlinear_arith)
        requires
            pool > 0,
    ;
    if a % pool == (a + d) % pool {
        let q1 = a / pool;
        let q2 = (a + d) / pool;
        vstd::arithmetic::div_mod::lemma_fundamental_div_mod(a, pool);
        vstd::arithmetic::div_mod::lemma_fundamental_div_mod(a + d, pool);
        assert(d == (q2 - q1) * pool) by (nonlinear_arith)
            requires
                a == pool * q1 + a % pool,
                a + d == pool * q2 + (a + d) % pool,
                a % pool == (a + d) % pool,
        ;
        assert(false) by (nonlinear_arith)
            requires
                d == (q2 - q1) * pool,
                0 < d < pool,
        ;
    }
}

proof fn lemma_turn_range(cursor: int, pool: int, i: int)
    requires
        pool > 0,
    ensures
        0 <= turn_index(cursor, pool, i) < pool,
{
    let a = cursor % pool + i;
    assert(0 <= a % pool < pool) by (nonlinear_arith)
        requires
            pool > 0,
    ;
}

proof fn lemma_chosen(sorted: Seq<Candidate>, cursor: int)
    requires
        distinct(sorted),
        cursor >= 0,
    ensures
        chosen(sorted, cursor).no_duplicates(),
        chosen(sorted, cursor).len() == (if sorted.len() < MAX_ACTIVE {
            sorted.len() as int
        } else {
            MAX_ACTIVE as int
        }),
        forall|x: u64| #[trigger] chosen(sorted, cursor).contains(x) ==> among(sorted, x),
{
    let want = chosen(sorted, cursor);
    let fixed = fixed_count(sorted.len() as int);
    let pool = sorted.len() - fixed;
    let place = |i: int|
        if i < fixed {
            i
        } else {
            fixed + turn_index(cursor, pool, i - fixed)
        };
    assert forall|i: int| 0 <= i < want.len() implies 0 <= #[trigger] place(i) < sorted.len() && want[i]
        == sorted[place(i)].instrument by {
        if i >= fixed {
            lemma_turn_range(cursor, pool, i - fixed);
        }
    }
    assert forall|i: int, j: int| 0 <= i < j < want.len() implies want[i] != want[j] by {
        let (a, b) = (place(i), place(j));
        if i >= fixed {
            lemma_turns_differ(cursor, pool, i - fixed, j - fixed);
        } else if j >= fixed {
            lemma_turn_range(cursor, pool, j - fixed);
        }
        assert(a != b);
        assert(want[i] == sorted[a].instrument && want[j] == sorted[b].instrument);
        if a < b {
            assert(sorted[a].instrument != sorted[b].instrument);
        } else {
            assert(sorted[b].instrument != sorted[a].instrument);
        }
    }
    assert forall|x: u64| #[trigger] want.contains(x) implies among(sorted, x) by {
        let k = want.index_of(x);
        assert(sorted[place(k)].instrument == x);
    }
}

/// After a turn in which each subscription succeeds, exactly as many options
/// have a book as may, or all candidates where there are fewer: the wanted
/// ones, which are candidates, the nearest always among them, and none twice.
/// Each book that is no longer wanted is cancelled.
pub proof fn law_turn_fills_the_books(
    active: Seq<(InstrumentId, TickStreamHandle)>,
    candidates: Seq<Candidate>,
    cursor: int,
    handles: Seq<TickStreamHandle>,
)
    requires
        one_book_each(active),
        distinct(candidates),
        cursor >= 0,
    ensures
        ({
            let sorted = nearest_first(candidates);
            let want = chosen(sorted, cursor);
            let stay = kept(active, want);
            let after = all_subscribed(stay, fresh(want, stay), handles);
            &&& one_book_each(after)
            &&& after.len() == (if candidates.len() < MAX_ACTIVE {
                candidates.len() as int
            } else {
                MAX_ACTIVE as int
            })
            &&& forall|x: u64| #[trigger] has_book(after, x) <==> want.contains(x)
            &&& forall|x: u64| #[trigger] has_book(after, x) ==> among(candidates, x)
            &&& forall|i: int|
                0 <= i < FIXED_NEAREST && i < sorted.len() ==> has_book(after, (#[trigger] sorted[i]).instrument)
            &&& forall|i: int|
                0 <= i < active.len() && !has_book(after, (#[trigger] active[i]).0.0) ==> dropped(active, want).contains(
                    active[i].1,
                )
        }),
{
    let sorted = nearest_first(candidates);
    let want = chosen(sorted, cursor);
    let stay = kept(active, want);
    let ids = fresh(want, stay);
    let after = all_subscribed(stay, ids, handles);
    lemma_sorted_distinct(candidates);
    lemma_chosen(sorted, cursor);
    lemma_kept(active, want);
    lemma_wanted_stays(active, want);
    lemma_fresh(want, stay);
    lemma_all_subscribed(stay, ids, handles);
    assert forall|x: u64| #[trigger] has_book(after, x) <==> want.contains(x) by {
        if has_book(stay, x) {
            let k = choose|k: int| 0 <= k < stay.len() && (#[trigger] stay[k]).0.0 == x;
            assert(want.contains(stay[k].0.0));
        }
        assert(ids.contains(InstrumentId(x)) <==> want.contains(x) && !has_book(stay, x));
    }
    lemma_booked(after);
    want.unique_seq_to_set();
    assert(booked(after) =~= want.to_set());
    assert forall|i: int| 0 <= i < FIXED_NEAREST && i < sorted.len() implies has_book(
        after,
        (#[trigger] sorted[i]).instrument,
    ) by {
        assert(want[i] == sorted[i].instrument);
        assert(want.contains(sorted[i].instrument));
    }
}

/// Where the turns stand after `rounds` of them over the same candidates.
pub open spec fn cursor_later(sorted: Seq<Candidate>, cursor: int, rounds: nat) -> int
    decreases rounds,
{
    if rounds == 0 {
        cursor
    } else {
        next_cursor(sorted, cursor_later(sorted, cursor, (rounds - 1) as nat))
    }
}

proof fn lemma_cursor_later(sorted: Seq<Candidate>, cursor: int, rounds: nat)
    requires
        sorted.len() > FIXED_NEAREST,
    ensures
        cursor_later(sorted, cursor, rounds) == cursor_after(cursor, sorted.len() - FIXED_NEAREST, rounds),
    decreases rounds,
{
    if rounds > 0 {
        lemma_cursor_later(sorted, cursor, (rounds - 1) as nat);
    }
}

/// While the candidates stay the same, each of those that take turns gets a
/// book in one of as many turns as it takes to go round once, wherever the
/// turns start.
pub proof fn law_every_option_gets_its_turn(candidates: Seq<Candidate>, cursor: int, member: int) -> (rounds: nat)
    requires
        cursor >= 0,
        FIXED_NEAREST <= member < candidates.len(),
    ensures
        rounds * ROTATE_SLOTS < candidates.len() - FIXED_NEAREST,
        ({
            let sorted = nearest_first(candidates);
            chosen(sorted, cursor_later(sorted, cursor, rounds)).contains(sorted[member].instrument)
        }),
{
    let sorted = nearest_first(candidates);
    law_nearest_first_sorts(candidates);
    let pool = sorted.len() - FIXED_NEAREST;
    let (k, i) = law_rotation_reaches_all(cursor, pool, member - FIXED_NEAREST);
    lemma_cursor_later(sorted, cursor, k);
    let want = chosen(sorted, cursor_later(sorted, cursor, k));
    assert(want[FIXED_NEAREST + i] == sorted[member].instrument);
    if pool < ROTATE_SLOTS {
        assert(k == 0) by (nonlinear_arith)
            requires
                k * pool < pool,
                pool > 0,
        ;
    }
    k
}

/// Whether an option can have a depth book: one of its sides is quoted and
/// its contract is known.
pub open spec fn can_have_book(t: OptionTick, qualified: Map<u64, Contract>) -> bool {
    (t.bid > 0 || t.ask > 0) && (t.instrument_id matches Some(i) && qualified.contains_key(i.0))
}

/// Whether a candidate is an option's: its instrument, and how far its strike
/// is from the price, above or below.
pub open spec fn stands_for(c: Candidate, t: OptionTick, underlying: i64) -> bool {
    &&& t.instrument_id == Some(InstrumentId(c.instrument))
    &&& underlying <= t.strike ==> c.distance == t.strike - underlying
    &&& underlying >= t.strike ==> c.distance == underlying - t.strike
}

/// Every option of a product that can have a book is a candidate.
pub proof fn law_quoted_options_are_candidates(
    md: MarketDataState,
    n: int,
    product: Seq<char>,
    underlying: i64,
    qualified: Map<u64, Contract>,
    i: int,
)
    requires
        0 <= i < n <= md.entries@.len(),
        md.entries@[i].product@ == product,
        can_have_book(md.entries@[i].tick, qualified),
    ensures
        exists|k: int| #![trigger product_candidates(md, n, product, underlying, qualified)[k]]
            0 <= k < product_candidates(md, n, product, underlying, qualified).len() && stands_for(
                product_candidates(md, n, product, underlying, qualified)[k],
                md.entries@[i].tick,
                underlying,
            ),
    decreases n,
{
    let before = product_candidates(md, n - 1, product, underlying, qualified);
    let after = product_candidates(md, n, product, underlying, qualified);
    if i == n - 1 {
        assert(stands_for(after[before.len() as int], md.entries@[i].tick, underlying));
    } else {
        law_quoted_options_are_candidates(md, n - 1, product, underlying, qualified, i);
        let k = choose|k: int| #![trigger before[k]]
            0 <= k < before.len() && stands_for(before[k], md.entries@[i].tick, underlying);
        assert(after[k] == before[k]);
    }
}

/// Every candidate is an option of the product that can have a book.
pub proof fn law_candidates_are_quoted_options(
    md: MarketDataState,
    n: int,
    product: Seq<char>,
    underlying: i64,
    qualified: Map<u64, Contract>,
    k: int,
)
    requires
        0 <= n <= md.entries@.len(),
        0 <= k < product_candidates(md, n, product, underlying, qualified).len(),
    ensures
        exists|i: int| #![trigger md.entries@[i]]
            0 <= i < n && md.entries@[i].product@ == product && can_have_book(md.entries@[i].tick, qualified) && stands_for(
                product_candidates(md, n, product, underlying, qualified)[k],
                md.entries@[i].tick,
                underlying,
            ),
    decreases n,
{
    if n > 0 {
        let before = product_candidates(md, n - 1, product, underlying, qualified);
        if k < before.len() {
            law_candidates_are_quoted_options(md, n - 1, product, underlying, qualified, k);
        } else {
            assert(md.entries@[n - 1].product@ == product);
        }
    }
}

/// A product's candidates are among all, by its own price; a product without
/// a price adds none.
pub proof fn law_priced_products_have_candidates(
    md: MarketDataState,
    products: Seq<String>,
    n: int,
    qualified: Map<u64, Contract>,
    p: int,
    c: Candidate,
)
    requires
        0 <= p < n <= products.len(),
        md.underlying@.dom().contains(products[p]@),
        product_candidates(
            md,
            md.entries@.len() as int,
            products[p]@,
            md.underlying@[products[p]@],
            qualified,
        ).contains(c),
    ensures
        all_candidates(md, products, n, qualified).contains(c),
    decreases n,
{
    let before = all_candidates(md, products, n - 1, qualified);
    let after = all_candidates(md, products, n, qualified);
    if p == n - 1 {
        let own = product_candidates(
            md,
            md.entries@.len() as int,
            products[p]@,
            md.underlying@[products[p]@],
            qualified,
        );
        let k = own.index_of(c);
        assert(after[before.len() + k] == c);
    } else {
        law_priced_products_have_candidates(md, products, n - 1, qualified, p, c);
        let k = before.index_of(c);
        assert(after[k] == c);
    }
}

} // verus!
