//! A single-producer, single-consumer byte ring.
//!
//! The ring is a region of bytes and two offsets that only grow: how much was
//! ever written, and how much was ever read. The bytes between them wait to be
//! read. [`write_at`], [`write_body_at`] and [`read_at`] work on any region,
//! such as one shared between processes, and leave publishing the offsets to
//! the caller; [`Ring`] keeps a region of its own.

use crate::codec::{be32, framed, from_be32};
use vstd::prelude::*;

verus! {

/// Bytes of the header of a shared region: the two offsets.
pub const HDR_SIZE: usize = 16;

/// Usual capacity.
pub const DEFAULT_RING_CAPACITY: usize = 1_048_576;

/// Where the byte at an offset is kept.
pub open spec fn slot(x: int, capacity: int) -> int {
    x % capacity
}

/// The bytes between two offsets.
pub open spec fn waiting(data: Seq<u8>, read: int, write: int) -> Seq<u8> {
    Seq::new((write - read) as nat, |i: int| data[slot(read + i, data.len() as int)])
}

/// Whether the offsets are in order and no more than the region apart.
pub open spec fn offsets_ok(capacity: int, read: u64, write: u64) -> bool {
    capacity > 0 && read <= write <= read + capacity
}

/// Whether a frame is taken: at most half the region, and no larger than the
/// free part.
pub open spec fn fits(capacity: int, read: u64, write: u64, n: int) -> bool {
    n <= capacity / 2 && n <= capacity - (write - read)
}

proof fn lemma_slots_differ(a: int, d: int, c: int)
    requires
        0 < d < c,
    ensures
        slot(a, c) != slot(a + d, c),
{
    let q1 = a / c;
    let q2 = (a + d) / c;
    vstd::arithmetic::div_mod::lemma_fundamental_div_mod(a, c);
    vstd::arithmetic::div_mod::lemma_fundamental_div_mod(a + d, c);
    if a % c == (a + d) % c {
        assert(d == (q2 - q1) * c) by (nonlinear_arith)
            requires
                a == c * q1 + a % c,
                a + d == c * q2 + (a + d) % c,
                a % c == (a + d) % c,
        ;
        assert(false) by (nonlinear_arith)
            requires
                d == (q2 - q1) * c,
                0 < d < c,
        ;
    }
}

/// Copies bytes into the region from an offset on, around its end.
fn put_bytes(data: &mut [u8], write: u64, bytes: &[u8])
    requires
        0 < old(data)@.len(),
        bytes@.len() <= old(data)@.len(),
    ensures
        final(data)@.len() == old(data)@.len(),
        forall|k: int|
            0 <= k < bytes@.len() ==> final(data)@[#[trigger] slot(write + k, old(data)@.len() as int)] == bytes@[k],
        forall|x: int|
            write + bytes@.len() - old(data)@.len() <= x < write ==> final(data)@[#[trigger] slot(
                x,
                old(data)@.len() as int,
            )] == old(data)@[slot(x, old(data)@.len() as int)],
{
    let cap: usize = data.len();
    let ghost c = cap as int;
    let ghost before = data@;
    let n: usize = bytes.len();
    let mut at: usize = (write % (cap as u64)) as usize;
    let mut i: usize = 0;
    proof {
        assert(at as int == slot(write as int, c));
    }
    while i < n
        invariant
            i <= n <= c,
            n == bytes@.len(),
            c == cap,
            c > 0,
            data@.len() == c,
            before.len() == c,
            at < cap,
            at as int == slot(write + i, c),
            forall|k: int| 0 <= k < i ==> data@[#[trigger] slot(write + k, c)] == bytes@[k],
            forall|x: int| write + n - c <= x < write ==> data@[#[trigger] slot(x, c)] == before[slot(x, c)],
        decreases n - i,
    {
        data[at] = bytes[i];
        proof {
            assert forall|k: int| 0 <= k < i + 1 implies data@[#[trigger] slot(write + k, c)] == bytes@[k] by {
                vstd::arithmetic::div_mod::lemma_mod_bound(write + k, c);
                if k < i {
                    lemma_slots_differ(write + k, i - k, c);
                }
            }
            assert forall|x: int| write + n - c <= x < write implies data@[#[trigger] slot(x, c)] == before[slot(x, c)] by {
                vstd::arithmetic::div_mod::lemma_mod_bound(x, c);
                lemma_slots_differ(x, write + i - x, c);
            }
            vstd::arithmetic::div_mod::lemma_fundamental_div_mod(write + i, c);
            let q = (write + i) / c;
            if at + 1 == c {
                assert((write + i + 1) == (q + 1) * c) by (nonlinear_arith)
                    requires
                        write + i == c * q + (c - 1),
                ;
                vstd::arithmetic::div_mod::lemma_fundamental_div_mod_converse(write + i + 1, c, q + 1, 0);
            } else {
                assert((write + i + 1) == q * c + (at + 1)) by (nonlinear_arith)
                    requires
                        write + i == c * q + at,
                ;
                vstd::arithmetic::div_mod::lemma_fundamental_div_mod_converse(write + i + 1, c, q, at + 1);
            }
        }
        at = if at + 1 == cap {
            0
        } else {
            at + 1
        };
        i = i + 1;
    }
}

/// Writes a frame into a region. Returns the new write offset, or `None`,
/// with the region unchanged, where the frame is not taken.
pub fn write_at(data: &mut [u8], read: u64, write: u64, frame: &[u8]) -> (r: Option<u64>)
    requires
        offsets_ok(old(data)@.len() as int, read, write),
        write + frame@.len() <= u64::MAX,
    ensures
        final(data)@.len() == old(data)@.len(),
        if fits(old(data)@.len() as int, read, write, frame@.len() as int) {
            &&& r == Some((write + frame@.len()) as u64)
            &&& waiting(final(data)@, read as int, write + frame@.len()) == waiting(old(data)@, read as int, write as int)
                + frame@
        } else {
            r is None && final(data)@ == old(data)@
        },
{
    let cap: usize = data.len();
    let n: usize = frame.len();
    if n > cap / 2 {
        return None;
    }
    let free: u64 = cap as u64 - (write - read);
    if free < n as u64 {
        return None;
    }
    put_bytes(data, write, frame);
    proof {
        let c = cap as int;
        let a = waiting(data@, read as int, write + n);
        let b = waiting(old(data)@, read as int, write as int) + frame@;
        assert forall|i: int| 0 <= i < a.len() implies a[i] == b[i] by {
            let x = read + i;
            if x < write {
                assert(data@[slot(x, c)] == old(data)@[slot(x, c)]);
            } else {
                let k = x - write;
                assert(data@[slot(write + k, c)] == frame@[k]);
            }
        }
        assert(a =~= b);
    }
    Some(write + n as u64)
}

/// Writes a body behind its length into a region, without building the frame
/// first. Returns the new write offset, or `None`, with the region
/// unchanged, where the frame is not taken.
pub fn write_body_at(data: &mut [u8], read: u64, write: u64, body: &[u8]) -> (r: Option<u64>)
    requires
        offsets_ok(old(data)@.len() as int, read, write),
        write + 4 + body@.len() <= u64::MAX,
    ensures
        final(data)@.len() == old(data)@.len(),
        if fits(old(data)@.len() as int, read, write, framed(body@).len() as int) {
            &&& r == Some((write + framed(body@).len()) as u64)
            &&& waiting(final(data)@, read as int, write + framed(body@).len()) == waiting(
                old(data)@,
                read as int,
                write as int,
            ) + framed(body@)
        } else {
            r is None && final(data)@ == old(data)@
        },
{
    let cap: usize = data.len();
    let n: usize = body.len();
    if n > cap / 2 || n + 4 > cap / 2 {
        return None;
    }
    let free: u64 = cap as u64 - (write - read);
    if free < 4 + n as u64 {
        return None;
    }
    let a: u8 = ((n / 0x100_0000) % 0x100) as u8;
    let b: u8 = ((n / 0x1_0000) % 0x100) as u8;
    let c: u8 = ((n / 0x100) % 0x100) as u8;
    let d: u8 = (n % 0x100) as u8;
    let mut prefix: Vec<u8> = Vec::new();
    prefix.push(a);
    prefix.push(b);
    prefix.push(c);
    prefix.push(d);
    assert(prefix@ =~= be32(n as int));
    put_bytes(data, write, prefix.as_slice());
    let ghost mid = data@;
    put_bytes(data, write + 4, body);
    proof {
        let cc = cap as int;
        let f = framed(body@);
        let p = waiting(data@, read as int, write + 4 + n);
        let q = waiting(old(data)@, read as int, write as int) + f;
        assert forall|i: int| 0 <= i < p.len() implies p[i] == q[i] by {
            let x = read + i;
            if x < write {
                assert(data@[slot(x, cc)] == mid[slot(x, cc)]);
                assert(mid[slot(x, cc)] == old(data)@[slot(x, cc)]);
            } else if x < write + 4 {
                let k = x - write;
                assert(data@[slot(x, cc)] == mid[slot(x, cc)]);
                assert(mid[slot(write + k, cc)] == prefix@[k]);
                assert(f[k] == be32(n as int)[k]);
            } else {
                let k = x - (write + 4);
                assert(data@[slot((write + 4) + k, cc)] == body@[k]);
                assert(f[4 + k] == body@[k]);
            }
        }
        assert(p =~= q);
    }
    Some(write + 4 + n as u64)
}

/// Appends everything that waits in a region to a buffer. Returns the new
/// read offset.
pub fn read_at(data: &[u8], read: u64, write: u64, buf: &mut Vec<u8>) -> (r: u64)
    requires
        offsets_ok(data@.len() as int, read, write),
    ensures
        r == write,
        final(buf)@ == old(buf)@ + waiting(data@, read as int, write as int),
{
    let cap: usize = data.len();
    let ghost c = cap as int;
    let n: u64 = write - read;
    let mut at: usize = (read % (cap as u64)) as usize;
    let mut i: u64 = 0;
    assert(at as int == slot(read as int, c));
    assert(buf@ =~= old(buf)@ + waiting(data@, read as int, read as int));
    while i < n
        invariant
            i <= n,
            n == write - read,
            c == cap,
            c > 0,
            data@.len() == c,
            at < cap,
            at as int == slot(read + i, c),
            buf@ == old(buf)@ + waiting(data@, read as int, read + i),
        decreases n - i,
    {
        buf.push(data[at]);
        proof {
            assert(waiting(data@, read as int, read + i + 1) =~= waiting(data@, read as int, read + i).push(data@[at as int]));
            assert(buf@ =~= old(buf)@ + waiting(data@, read as int, read + i + 1));
            vstd::arithmetic::div_mod::lemma_fundamental_div_mod(read + i, c);
            let q = (read + i) / c;
            if at + 1 == c {
                assert((read + i + 1) == (q + 1) * c) by (nonlinear_arith)
                    requires
                        read + i == c * q + (c - 1),
                ;
                vstd::arithmetic::div_mod::lemma_fundamental_div_mod_converse(read + i + 1, c, q + 1, 0);
            } else {
                assert((read + i + 1) == q * c + (at + 1)) by (nonlinear_arith)
                    requires
                        read + i == c * q + at,
                ;
                vstd::arithmetic::div_mod::lemma_fundamental_div_mod_converse(read + i + 1, c, q, at + 1);
            }
        }
        at = if at + 1 == cap {
            0
        } else {
            at + 1
        };
        i = i + 1;
    }
    write
}

/// A ring with its own region.
#[derive(Debug)]
pub struct Ring {
    data: Vec<u8>,
    write_offset: u64,
    read_offset: u64,
    frames_dropped: u64,
}

impl Ring {
    /// The bytes that wait to be read.
    pub closed spec fn view(&self) -> Seq<u8> {
        waiting(self.data@, self.read_offset as int, self.write_offset as int)
    }

    /// Size of the region.
    pub closed spec fn capacity(&self) -> int {
        self.data@.len() as int
    }

    /// How much was ever written.
    pub closed spec fn written(&self) -> int {
        self.write_offset as int
    }

    /// How many frames were not taken.
    pub closed spec fn dropped(&self) -> int {
        self.frames_dropped as int
    }

    /// The offsets are in order, so what waits fits the region.
    pub closed spec fn wf(&self) -> bool {
        offsets_ok(self.data@.len() as int, self.read_offset, self.write_offset)
    }

    /// Whether a frame of this size would be taken.
    pub open spec fn takes(&self, n: int) -> bool {
        n <= self.capacity() / 2 && n <= self.capacity() - self@.len()
    }

    /// What offering a frame does: it waits behind what waited, or it is
    /// dropped and counted where it is not taken.
    pub open spec fn offered(pre: Ring, frame: Seq<u8>, post: Ring, taken: bool) -> bool {
        &&& post.capacity() == pre.capacity()
        &&& taken == pre.takes(frame.len() as int)
        &&& if taken {
            &&& post@ == pre@ + frame
            &&& post.written() == pre.written() + frame.len()
            &&& post.dropped() == pre.dropped()
        } else {
            &&& post@ == pre@
            &&& post.written() == pre.written()
            &&& post.dropped() == pre.dropped() + 1
        }
    }

    /// What a read does: nothing waits any more.
    pub open spec fn emptied(pre: Ring, post: Ring) -> bool {
        &&& post.capacity() == pre.capacity()
        &&& post.written() == pre.written()
        &&& post.dropped() == pre.dropped()
        &&& post@ == Seq::<u8>::empty()
    }

    /// Whether two rings cannot be told apart: they hold the same bytes, have
    /// the same room, and have taken and dropped as much.
    pub open spec fn alike(self, other: Ring) -> bool {
        &&& self@ == other@
        &&& self.capacity() == other.capacity()
        &&& self.written() == other.written()
        &&& self.dropped() == other.dropped()
    }

    /// An empty ring.
    pub fn create_owner(capacity: usize) -> (r: Ring)
        requires
            capacity > 0,
        ensures
            r.wf(),
            r@ == Seq::<u8>::empty(),
            r.capacity() == capacity,
            r.written() == 0,
            r.dropped() == 0,
    {
        let data: Vec<u8> = vec![0; capacity];
        let r = Ring { data, write_offset: 0, read_offset: 0, frames_dropped: 0 };
        assert(r@ =~= Seq::<u8>::empty());
        r
    }

    /// Frames that were not taken since the ring was made.
    pub fn frames_dropped(&self) -> (r: u64)
        ensures
            r == self.dropped(),
    {
        self.frames_dropped
    }

    /// Writes a frame, or drops and counts it where it is not taken.
    pub fn write_frame(&mut self, frame: &[u8]) -> (taken: bool)
        requires
            old(self).wf(),
            old(self).written() + frame@.len() <= u64::MAX,
            old(self).dropped() < u64::MAX,
        ensures
            final(self).wf(),
            Ring::offered(*old(self), frame@, *final(self), taken),
    {
        let data: &mut [u8] = self.data.as_mut_slice();
        match write_at(data, self.read_offset, self.write_offset, frame) {
            Some(w) => {
                self.write_offset = w;
                true
            },
            None => {
                self.frames_dropped = self.frames_dropped + 1;
                false
            },
        }
    }

    /// Writes a body behind its length, or drops and counts it where the
    /// frame is not taken.
    pub fn write_body(&mut self, body: &[u8]) -> (taken: bool)
        requires
            old(self).wf(),
            old(self).written() + 4 + body@.len() <= u64::MAX,
            old(self).dropped() < u64::MAX,
        ensures
            final(self).wf(),
            Ring::offered(*old(self), framed(body@), *final(self), taken),
    {
        let data: &mut [u8] = self.data.as_mut_slice();
        match write_body_at(data, self.read_offset, self.write_offset, body) {
            Some(w) => {
                self.write_offset = w;
                true
            },
            None => {
                self.frames_dropped = self.frames_dropped + 1;
                false
            },
        }
    }

    /// Appends everything that waits to a buffer. Returns how many bytes
    /// that were.
    pub fn read_available_into(&mut self, buf: &mut Vec<u8>) -> (n: usize)
        requires
            old(self).wf(),
        ensures
            final(self).wf(),
            Ring::emptied(*old(self), *final(self)),
            final(buf)@ == old(buf)@ + old(self)@,
            n == old(self)@.len(),
    {
        assert(self.write_offset - self.read_offset <= self.data.len());
        let n: usize = (self.write_offset - self.read_offset) as usize;
        self.read_offset = read_at(self.data.as_slice(), self.read_offset, self.write_offset, buf);
        assert(self@ =~= Seq::<u8>::empty());
        n
    }

    /// Everything that waits.
    pub fn read_available(&mut self) -> (r: Vec<u8>)
        requires
            old(self).wf(),
        ensures
            final(self).wf(),
            Ring::emptied(*old(self), *final(self)),
            r@ == old(self)@,
    {
        let mut out: Vec<u8> = Vec::new();
        self.read_available_into(&mut out);
        assert(out@ =~= old(self)@);
        out
    }
}

/// A body behind its length.
pub fn pack_frame(body: &Vec<u8>) -> (r: Vec<u8>)
    ensures
        r@ == framed(body@),
{
    crate::codec::frame_payload(body)
}

/// The bodies of the whole frames at the front of a buffer, and what is left.
pub open spec fn bodies(b: Seq<u8>) -> (Seq<Seq<u8>>, Seq<u8>)
    decreases b.len(),
{
    if b.len() < 4 || b.len() < 4 + from_be32(b) {
        (Seq::<Seq<u8>>::empty(), b)
    } else {
        let n = from_be32(b);
        let (rest, left) = bodies(b.skip(4 + n));
        (seq![b.subrange(4, 4 + n)] + rest, left)
    }
}

/// Takes the bodies of the whole frames off the front of a buffer.
pub fn unpack_frames(buf: &mut Vec<u8>) -> (r: Vec<Vec<u8>>)
    ensures
        r@.map_values(|f: Vec<u8>| f@) == bodies(old(buf)@).0,
        final(buf)@ == bodies(old(buf)@).1,
{
    let ghost start = buf@;
    let mut out: Vec<Vec<u8>> = Vec::new();
    let mut at: usize = 0;
    assert(start.skip(0) =~= start);
    assert(out@.map_values(|f: Vec<u8>| f@) + bodies(start).0 =~= bodies(start).0);
    loop
        invariant
            buf@ == start,
            at <= start.len(),
            bodies(start).0 == out@.map_values(|f: Vec<u8>| f@) + bodies(start.skip(at as int)).0,
            bodies(start).1 == bodies(start.skip(at as int)).1,
        ensures
            at <= start.len(),
            buf@ == start,
            bodies(start).0 == out@.map_values(|f: Vec<u8>| f@),
            bodies(start).1 == start.skip(at as int),
        decreases start.len() - at,
    {
        let ghost rest = start.skip(at as int);
        let ghost done = out@.map_values(|f: Vec<u8>| f@);
        if buf.len() - at < 4 {
            assert(done + bodies(rest).0 =~= done);
            break;
        }
        let n: u64 = (buf[at] as u64) * 0x100_0000 + (buf[at + 1] as u64) * 0x1_0000 + (buf[at + 2] as u64) * 0x100 + (buf[at
            + 3] as u64);
        assert(n as int == from_be32(rest));
        if ((buf.len() - at) as u64) < 4 + n {
            assert(done + bodies(rest).0 =~= done);
            break;
        }
        let end: usize = at + 4 + n as usize;
        let body = vstd::slice::slice_to_vec(vstd::slice::slice_subrange(buf.as_slice(), at + 4, end));
        out.push(body);
        proof {
            assert(body@ =~= rest.subrange(4, 4 + n));
            assert(rest.skip(4 + n) =~= start.skip(end as int));
            assert(out@.map_values(|f: Vec<u8>| f@) =~= done.push(body@));
            assert(done + (seq![body@] + bodies(start.skip(end as int)).0) =~= done.push(body@) + bodies(
                start.skip(end as int),
            ).0);
        }
        at = end;
    }
    let left = buf.split_off(at);
    *buf = left;
    assert(buf@ =~= start.skip(at as int));
    out
}

/// Bytes come out in the order in which they went in: `states` being what
/// waits before and after each of `frames` is taken, what waits in the end is
/// what waited first, followed by the frames in order.
pub proof fn law_ring_is_a_queue(states: Seq<Seq<u8>>, frames: Seq<Seq<u8>>)
    requires
        states.len() == frames.len() + 1,
        forall|i: int| 0 <= i < frames.len() ==> states[i + 1] == states[i] + #[trigger] frames[i],
    ensures
        states.last() == states[0] + frames.flatten(),
    decreases frames.len(),
{
    frames.lemma_flatten_and_flatten_alt_are_equivalent();
    if frames.len() == 0 {
        assert(frames.flatten() =~= Seq::<u8>::empty());
        assert(states.last() =~= states[0] + frames.flatten());
    } else {
        let f = frames.drop_last();
        let s = states.drop_last();
        assert forall|i: int| 0 <= i < f.len() implies s[i + 1] == s[i] + #[trigger] f[i] by {
            assert(f[i] == frames[i]);
        }
        law_ring_is_a_queue(s, f);
        f.lemma_flatten_and_flatten_alt_are_equivalent();
        assert(states[frames.len() as int] == states[frames.len() - 1] + frames[frames.len() - 1]);
        assert(states.last() =~= states[0] + frames.flatten());
    }
}

/// A read gives back what was written: `rings` being an empty ring and what it
/// is after each of `frames` was taken, a read gives the frames' bytes in
/// order, nothing lost, repeated or reordered. After it nothing waits, and the
/// whole region is free.
pub proof fn law_read_gives_back_the_writes(rings: Seq<Ring>, frames: Seq<Seq<u8>>, after: Ring)
    requires
        rings.len() == frames.len() + 1,
        rings[0]@ == Seq::<u8>::empty(),
        forall|i: int| 0 <= i < frames.len() ==> Ring::offered(rings[i], #[trigger] frames[i], rings[i + 1], true),
        Ring::emptied(rings.last(), after),
    ensures
        rings.last()@ == frames.flatten(),
        after@ == Seq::<u8>::empty(),
        after.capacity() == rings[0].capacity(),
        after.dropped() == rings[0].dropped(),
        forall|n: int| 0 <= n <= after.capacity() / 2 ==> #[trigger] after.takes(n),
{
    let states = rings.map_values(|r: Ring| r@);
    assert forall|i: int| 0 <= i < frames.len() implies states[i + 1] == states[i] + #[trigger] frames[i] by {
        assert(Ring::offered(rings[i], frames[i], rings[i + 1], true));
    }
    law_ring_is_a_queue(states, frames);
    assert(states.last() == rings.last()@);
    assert(Seq::<u8>::empty() + frames.flatten() =~= frames.flatten());
    lemma_ring_counts(rings, frames);
    assert forall|n: int| 0 <= n <= after.capacity() / 2 implies #[trigger] after.takes(n) by {
        assert(after@.len() == 0);
        assert(after.capacity() / 2 <= after.capacity() || after.capacity() < 0);
    }
}

proof fn lemma_ring_counts(rings: Seq<Ring>, frames: Seq<Seq<u8>>)
    requires
        rings.len() == frames.len() + 1,
        forall|i: int| 0 <= i < frames.len() ==> Ring::offered(rings[i], #[trigger] frames[i], rings[i + 1], true),
    ensures
        rings.last().capacity() == rings[0].capacity(),
        rings.last().dropped() == rings[0].dropped(),
    decreases frames.len(),
{
    if frames.len() > 0 {
        let r = rings.drop_last();
        let f = frames.drop_last();
        assert forall|i: int| 0 <= i < f.len() implies Ring::offered(r[i], #[trigger] f[i], r[i + 1], true) by {
            assert(Ring::offered(rings[i], frames[i], rings[i + 1], true));
        }
        lemma_ring_counts(r, f);
        let n = frames.len() - 1;
        assert(Ring::offered(rings[n], frames[n], rings[n + 1], true));
    }
}

/// Writing a body is writing its length, as four bytes, and the body as one
/// frame: on rings that are alike both are taken or both are dropped, and the
/// rings are alike again.
pub proof fn law_body_is_written_as_its_frame(
    a: Ring,
    b: Ring,
    body: Seq<u8>,
    frame: Seq<u8>,
    after_a: Ring,
    after_b: Ring,
    taken_a: bool,
    taken_b: bool,
)
    requires
        a.alike(b),
        body.len() < 0x1_0000_0000,
        frame == be32(body.len() as int) + body,
        Ring::offered(a, framed(body), after_a, taken_a),
        Ring::offered(b, frame, after_b, taken_b),
    ensures
        taken_a == taken_b,
        after_a.alike(after_b),
{
}

/// What was written as bodies is read as the same bodies: the frame of a body
/// in front of other frames unpacks to the body in front of theirs.
pub proof fn law_bodies_read_back(body: Seq<u8>, rest: Seq<u8>)
    requires
        body.len() < 0x1_0000_0000,
    ensures
        bodies(framed(body) + rest).0 == seq![body] + bodies(rest).0,
        bodies(framed(body) + rest).1 == bodies(rest).1,
{
    let n = body.len() as int;
    let b = framed(body) + rest;
    assert(b[0] == ((n / 0x100_0000) % 0x100) as u8);
    assert(b[1] == ((n / 0x1_0000) % 0x100) as u8);
    assert(b[2] == ((n / 0x100) % 0x100) as u8);
    assert(b[3] == (n % 0x100) as u8);
    assert(from_be32(b) == n);
    assert(b.subrange(4, 4 + n) =~= body);
    assert(b.skip(4 + n) =~= rest);
}

} // verus!
