//! Rolling latency samples and their percentiles.

use std::collections::VecDeque;
use vstd::prelude::*;
use vstd::relations::sorted_by;
use vstd::seq_lib::lemma_sorted_unique;

verus! {

/// Samples kept per series.
pub const RING_CAPACITY: usize = 1024;

/// The last [`RING_CAPACITY`] samples of a series.
pub open spec fn recent(samples: Seq<u64>) -> Seq<u64> {
    if samples.len() > RING_CAPACITY {
        samples.skip(samples.len() - RING_CAPACITY)
    } else {
        samples
    }
}

/// Ascending order of samples.
pub open spec fn ascending() -> spec_fn(u64, u64) -> bool {
    |a: u64, b: u64| a <= b
}

/// The samples in ascending order.
pub open spec fn ranked(samples: Seq<u64>) -> Seq<u64> {
    samples.sort_by(ascending())
}

/// Position of the 99th percentile among `n` ranked samples: the least
/// position that has 99 percent of them at or before it.
pub open spec fn p99_position(n: int) -> int {
    (99 * n + 99) / 100 - 1
}

/// Count, median and 99th percentile of a series.
pub open spec fn summary(samples: Seq<u64>) -> (u64, Option<u64>, Option<u64>) {
    if samples.len() == 0 {
        (0, None, None)
    } else {
        (
            samples.len() as u64,
            Some(ranked(samples)[samples.len() as int / 2]),
            Some(ranked(samples)[p99_position(samples.len() as int)]),
        )
    }
}

/// Latency samples in microseconds, three series.
pub struct LatencySamples {
    ttt_us: VecDeque<u64>,
    place_rtt_us: VecDeque<u64>,
    modify_rtt_us: VecDeque<u64>,
}

impl LatencySamples {
    /// Tick to order acknowledgement.
    pub closed spec fn ttt(&self) -> Seq<u64> {
        self.ttt_us@
    }

    /// Send to acknowledgement of a new order.
    pub closed spec fn place_rtt(&self) -> Seq<u64> {
        self.place_rtt_us@
    }

    /// Send to acknowledgement of an amended order.
    pub closed spec fn modify_rtt(&self) -> Seq<u64> {
        self.modify_rtt_us@
    }

    /// Each series is within capacity.
    pub open spec fn wf(&self) -> bool {
        &&& self.ttt().len() <= RING_CAPACITY
        &&& self.place_rtt().len() <= RING_CAPACITY
        &&& self.modify_rtt().len() <= RING_CAPACITY
    }

    /// No samples.
    pub fn new() -> (r: LatencySamples)
        ensures
            r.wf(),
            r.ttt() == Seq::<u64>::empty(),
            r.place_rtt() == Seq::<u64>::empty(),
            r.modify_rtt() == Seq::<u64>::empty(),
    {
        LatencySamples { ttt_us: VecDeque::new(), place_rtt_us: VecDeque::new(), modify_rtt_us: VecDeque::new() }
    }

    /// Records a tick-to-acknowledgement sample; the oldest of a full series
    /// leaves.
    pub fn push_ttt(&mut self, us: u64)
        requires
            old(self).wf(),
        ensures
            final(self).wf(),
            final(self).ttt() == recent(old(self).ttt().push(us)),
            final(self).place_rtt() == old(self).place_rtt(),
            final(self).modify_rtt() == old(self).modify_rtt(),
    {
        push_bounded(&mut self.ttt_us, us);
    }

    /// Records a place round trip; the oldest of a full series leaves.
    pub fn push_place_rtt(&mut self, us: u64)
        requires
            old(self).wf(),
        ensures
            final(self).wf(),
            final(self).place_rtt() == recent(old(self).place_rtt().push(us)),
            final(self).ttt() == old(self).ttt(),
            final(self).modify_rtt() == old(self).modify_rtt(),
    {
        push_bounded(&mut self.place_rtt_us, us);
    }

    /// Records a modify round trip; the oldest of a full series leaves.
    pub fn push_modify_rtt(&mut self, us: u64)
        requires
            old(self).wf(),
        ensures
            final(self).wf(),
            final(self).modify_rtt() == recent(old(self).modify_rtt().push(us)),
            final(self).ttt() == old(self).ttt(),
            final(self).place_rtt() == old(self).place_rtt(),
    {
        push_bounded(&mut self.modify_rtt_us, us);
    }

    /// Count, median and 99th percentile of the tick-to-acknowledgement
    /// series.
    pub fn ttt_stats(&self) -> (r: (u64, Option<u64>, Option<u64>))
        requires
            self.wf(),
        ensures
            r == summary(self.ttt()),
    {
        stats(&self.ttt_us)
    }

    /// Count, median and 99th percentile of the place series.
    pub fn place_rtt_stats(&self) -> (r: (u64, Option<u64>, Option<u64>))
        requires
            self.wf(),
        ensures
            r == summary(self.place_rtt()),
    {
        stats(&self.place_rtt_us)
    }

    /// Count, median and 99th percentile of the modify series.
    pub fn modify_rtt_stats(&self) -> (r: (u64, Option<u64>, Option<u64>))
        requires
            self.wf(),
        ensures
            r == summary(self.modify_rtt()),
    {
        stats(&self.modify_rtt_us)
    }
}

impl Default for LatencySamples {
    fn default() -> (r: LatencySamples)
        ensures
            r.wf(),
            r.ttt() == Seq::<u64>::empty(),
            r.place_rtt() == Seq::<u64>::empty(),
            r.modify_rtt() == Seq::<u64>::empty(),
    {
        LatencySamples::new()
    }
}

/// Appends a sample, dropping the oldest where the series is full.
pub fn push_bounded(q: &mut VecDeque<u64>, v: u64)
    requires
        old(q)@.len() <= RING_CAPACITY,
    ensures
        final(q)@.len() <= RING_CAPACITY,
        final(q)@ == recent(old(q)@.push(v)),
{
    if q.len() >= RING_CAPACITY {
        q.pop_front();
    }
    q.push_back(v);
    assert(q@ =~= recent(old(q)@.push(v)));
}

/// Inserts a sample into ascending samples.
fn insert_sorted(v: &mut Vec<u64>, x: u64)
    requires
        sorted_by(old(v)@, ascending()),
    ensures
        sorted_by(final(v)@, ascending()),
        final(v)@.to_multiset() == old(v)@.to_multiset().insert(x),
{
    let mut i: usize = 0;
    while i < v.len() && v[i] <= x
        invariant
            i <= v.len(),
            v@ == old(v)@,
            forall|j: int| 0 <= j < i ==> v@[j] <= x,
        decreases v.len() - i,
    {
        i = i + 1;
    }
    proof {
        let s = v@;
        assert forall|j: int| i <= j < s.len() implies x <= #[trigger] s[j] by {
            if i < j {
                assert(ascending()(s[i as int], s[j]));
            }
        }
        assert(sorted_by(s.insert(i as int, x), ascending())) by {
            assert forall|a: int, b: int| 0 <= a < b < s.len() + 1 implies #[trigger] ascending()(
                s.insert(i as int, x)[a],
                s.insert(i as int, x)[b],
            ) by {
                if a < i && b > i {
                    assert(ascending()(s[a], s[b - 1]));
                } else if a < b && b < i {
                    assert(ascending()(s[a], s[b]));
                } else if a > i {
                    assert(ascending()(s[a - 1], s[b - 1]));
                }
            }
        }
        s.to_multiset_ensures();
        s.insert_ensures(i as int, x);
        let t = s.insert(i as int, x);
        assert(t.remove(i as int) =~= s);
        t.to_multiset_ensures();
        assert(t.to_multiset() =~= s.to_multiset().insert(x)) by {
            assert(t[i as int] == x);
            assert(t.to_multiset().remove(x) =~= s.to_multiset());
        }
    }
    v.insert(i, x);
}

/// Count, median and 99th percentile of a series.
pub fn stats(q: &VecDeque<u64>) -> (r: (u64, Option<u64>, Option<u64>))
    requires
        q@.len() <= RING_CAPACITY,
    ensures
        r == summary(q@),
{
    let n: usize = q.len();
    if n == 0 {
        return (0, None, None);
    }
    let mut v: Vec<u64> = Vec::new();
    let mut i: usize = 0;
    proof {
        assert(q@.take(0) =~= Seq::<u64>::empty());
        Seq::<u64>::empty().to_multiset_ensures();
        assert(v@ =~= Seq::<u64>::empty());
    }
    while i < n
        invariant
            i <= n,
            n == q@.len(),
            sorted_by(v@, ascending()),
            v@.to_multiset() == q@.take(i as int).to_multiset(),
        decreases n - i,
    {
        let x: u64 = q[i];
        proof {
            q@.take(i as int).to_multiset_ensures();
            assert(q@.take(i + 1) =~= q@.take(i as int).push(x));
        }
        insert_sorted(&mut v, x);
        i = i + 1;
    }
    proof {
        assert(q@.take(i as int) =~= q@);
        q@.lemma_sort_by_ensures(ascending());
        lemma_sorted_unique(v@, ranked(q@), ascending());
        v@.to_multiset_ensures();
        q@.to_multiset_ensures();
    }
    let p50: u64 = v[n / 2];
    let p99: u64 = v[(99 * n + 99) / 100 - 1];
    (n as u64, Some(p50), Some(p99))
}

/// The median never exceeds the 99th percentile.
pub proof fn law_median_at_most_p99(samples: Seq<u64>)
    requires
        0 < samples.len() <= RING_CAPACITY,
    ensures
        summary(samples).1->0 <= summary(samples).2->0,
{
    samples.lemma_sort_by_ensures(ascending());
    let s = ranked(samples);
    s.to_multiset_ensures();
    samples.to_multiset_ensures();
    let a = samples.len() as int / 2;
    let b = p99_position(samples.len() as int);
    if a < b {
        assert(ascending()(s[a], s[b]));
    }
}

/// The samples are ranked smallest first, with none added or lost.
pub proof fn law_ranking_sorts(samples: Seq<u64>)
    ensures
        ranked(samples).to_multiset() == samples.to_multiset(),
        ranked(samples).len() == samples.len(),
        forall|i: int, j: int| 0 <= i < j < samples.len() ==> ranked(samples)[i] <= ranked(samples)[j],
{
    samples.lemma_sort_by_ensures(ascending());
    let s = ranked(samples);
    s.to_multiset_ensures();
    samples.to_multiset_ensures();
    assert forall|i: int, j: int| 0 <= i < j < samples.len() implies s[i] <= s[j] by {
        assert(ascending()(s[i], s[j]));
    }
}

/// The figures are of the ranked samples: the median has half of them before
/// it, and 99 percent are at or before the percentile, but not before the
/// sample in front of it.
pub proof fn law_figures_are_ranks(samples: Seq<u64>)
    requires
        0 < samples.len() <= 1024,
    ensures
        summary(samples).0 == samples.len(),
        exists|m: int| #![trigger ranked(samples)[m]]
            0 <= m < samples.len() && summary(samples).1 == Some(ranked(samples)[m]) && (2 * m == samples.len() || 2 * m + 1
                == samples.len()),
        exists|p: int| #![trigger ranked(samples)[p]]
            0 <= p < samples.len() && summary(samples).2 == Some(ranked(samples)[p]) && 100 * (p + 1) >= 99
                * samples.len() > 100 * p,
{
    let n = samples.len() as int;
    let m = n / 2;
    let p = p99_position(n);
    assert(0 <= m < n && (2 * m == n || 2 * m + 1 == n));
    assert(summary(samples).1 == Some(ranked(samples)[m]));
    assert(summary(samples).2 == Some(ranked(samples)[p]));
    assert(0 <= p < n);
}

/// Of the samples the latest are kept, no more than 1024 of them, in order.
pub proof fn law_latest_samples_stay(samples: Seq<u64>, us: u64)
    ensures
        recent(samples.push(us)).len() > 0,
        recent(samples.push(us)).last() == us,
        recent(samples).len() <= 1024,
        samples.len() <= 1024 ==> recent(samples) == samples,
        recent(samples) == samples.skip(samples.len() - recent(samples).len()),
{
    assert(samples.skip(0) =~= samples);
}

} // verus!
