//! The native client: decoding what arrives, the handshake, and the state
//! that the client keeps of the connection.

use crate::codec::{frame_of, from_be32, payload, texts};
use crate::messages::{IN_MANAGED_ACCTS, IN_NEXT_VALID_ID, MIN_SERVER_VERSION};
use crate::native_error::{prefixed, NativeError};
use crate::text::{
    char_views, digits, int_value, law_split_parts_rejoin, parse_i64, split_on, split_text, u64_text,
};
use bytes::Buf;
use bytes::BytesMut;
use std::collections::VecDeque;
use vstd::prelude::*;
use vstd::string::*;
use vstd::utf8::*;

verus! {

/// `bytes::BytesMut`, a growable byte buffer.
#[verifier::external_type_specification]
#[verifier::external_body]
pub struct ExBytesMut(BytesMut);

/// The bytes that a buffer holds and has not handed out.
pub uninterp spec fn buffered(b: BytesMut) -> Seq<u8>;

/// `BytesMut::with_capacity`: an empty buffer.
#[verifier::external_body]
fn empty_buffer(capacity: usize) -> (b: BytesMut)
    ensures
        buffered(b) == Seq::<u8>::empty(),
{
    BytesMut::with_capacity(capacity)
}

/// `BytesMut::extend_from_slice`: adds bytes at the end.
#[verifier::external_body]
fn append_bytes(b: &mut BytesMut, more: &[u8])
    ensures
        buffered(*final(b)) == buffered(*old(b)) + more@,
{
    b.extend_from_slice(more)
}

/// `BytesMut::deref`: the bytes held.
#[verifier::external_body]
fn buffer_bytes(b: &BytesMut) -> (r: &[u8])
    ensures
        r@ == buffered(*b),
{
    b
}

/// `Buf::advance` of a `BytesMut`: drops bytes from the front. It panics on
/// more bytes than are held.
#[verifier::external_body]
fn drop_front(b: &mut BytesMut, count: usize)
    requires
        count <= buffered(*old(b)).len(),
    ensures
        buffered(*final(b)) == buffered(*old(b)).skip(count as int),
{
    b.advance(count)
}

/// `String::from_utf8`: the text whose UTF-8 encoding the bytes are; none
/// where they are not valid UTF-8.
#[verifier::external_body]
fn utf8_text(bytes: Vec<u8>) -> (r: Option<String>)
    ensures
        r is Some <==> valid_utf8(bytes@),
        r matches Some(s) ==> encode_utf8(s@) == bytes@,
{
    String::from_utf8(bytes).ok()
}

/// The fields that a payload's zero bytes end, and what comes after the last
/// of them.
pub open spec fn cut(p: Seq<u8>) -> (Seq<Seq<u8>>, Seq<u8>)
    decreases p.len(),
{
    if p.len() == 0 {
        (Seq::<Seq<u8>>::empty(), Seq::<u8>::empty())
    } else {
        let (done, open) = cut(p.drop_last());
        if p.last() == 0 {
            (done.push(open), Seq::<u8>::empty())
        } else {
            (done, open.push(p.last()))
        }
    }
}

/// The fields of a payload. Bytes behind the last zero byte are a field too.
pub open spec fn raw_fields(p: Seq<u8>) -> Seq<Seq<u8>> {
    let (done, open) = cut(p);
    if open.len() > 0 {
        done.push(open)
    } else {
        done
    }
}

/// Whether a buffer starts with a whole message.
pub open spec fn has_frame(b: Seq<u8>) -> bool {
    b.len() >= 4 && b.len() >= 4 + from_be32(b)
}

/// The payload of the message that a buffer starts with.
pub open spec fn front_payload(b: Seq<u8>) -> Seq<u8> {
    b.subrange(4, 4 + from_be32(b))
}

/// What follows the message that a buffer starts with.
pub open spec fn after_frame(b: Seq<u8>) -> Seq<u8> {
    b.skip(4 + from_be32(b))
}

/// Whether every field is valid UTF-8.
pub open spec fn all_text(raw: Seq<Seq<u8>>) -> bool {
    forall|i: int| 0 <= i < raw.len() ==> valid_utf8(#[trigger] raw[i])
}

/// Whether these texts are the fields with these bytes.
pub open spec fn decoded_as(v: Seq<String>, raw: Seq<Seq<u8>>) -> bool {
    v.len() == raw.len() && forall|i: int| 0 <= i < v.len() ==> encode_utf8((#[trigger] v[i])@) == raw[i]
}

/// Cuts a payload into fields.
fn cut_payload(p: &[u8]) -> (r: Vec<Vec<u8>>)
    ensures
        r@.map_values(|f: Vec<u8>| f@) == raw_fields(p@),
{
    let mut done: Vec<Vec<u8>> = Vec::new();
    let mut open: Vec<u8> = Vec::new();
    let mut i: usize = 0;
    assert(done@.map_values(|f: Vec<u8>| f@) =~= cut(p@.take(0)).0);
    while i < p.len()
        invariant
            i <= p@.len(),
            done@.map_values(|f: Vec<u8>| f@) == cut(p@.take(i as int)).0,
            open@ == cut(p@.take(i as int)).1,
        decreases p@.len() - i,
    {
        let ghost before = done@.map_values(|f: Vec<u8>| f@);
        let ghost piece = open@;
        proof {
            assert(p@.take(i + 1).drop_last() =~= p@.take(i as int));
            assert(p@.take(i + 1).last() == p@[i as int]);
        }
        if p[i] == 0 {
            done.push(open);
            open = Vec::new();
            assert(done@.map_values(|f: Vec<u8>| f@) =~= before.push(piece));
        } else {
            open.push(p[i]);
        }
        i = i + 1;
    }
    assert(p@.take(i as int) =~= p@);
    if open.len() > 0 {
        let ghost before = done@.map_values(|f: Vec<u8>| f@);
        let ghost piece = open@;
        done.push(open);
        assert(done@.map_values(|f: Vec<u8>| f@) =~= before.push(piece));
    }
    done
}

/// The texts of a payload's fields.
pub fn decode_payload(p: &[u8]) -> (r: Result<Vec<String>, NativeError>)
    ensures
        match r {
            Ok(v) => all_text(raw_fields(p@)) && decoded_as(v@, raw_fields(p@)),
            Err(e) => !all_text(raw_fields(p@)) && (e matches NativeError::Malformed(m) && m@
                == "field is not valid UTF-8"@),
        },
{
    let mut raw = cut_payload(p);
    let ghost all = raw@.map_values(|f: Vec<u8>| f@);
    let mut out: Vec<String> = Vec::new();
    let n: usize = raw.len();
    let mut i: usize = 0;
    while i < n
        invariant
            i <= n,
            n == raw@.len(),
            all == raw_fields(p@),
            all.len() == n,
            forall|k: int| i <= k < n ==> (#[trigger] raw@[k])@ == all[k],
            out@.len() == i,
            forall|k: int| 0 <= k < i ==> valid_utf8(#[trigger] all[k]) && encode_utf8(out@[k]@) == all[k],
        decreases n - i,
    {
        let bytes = vstd::slice::slice_to_vec(raw[i].as_slice());
        match utf8_text(bytes) {
            Some(s) => {
                out.push(s);
            },
            None => {
                assert(!valid_utf8(all[i as int]));
                return Err(NativeError::Malformed("field is not valid UTF-8".to_owned()));
            },
        }
        i = i + 1;
    }
    Ok(out)
}

/// Takes one message off the front of a buffer: `None` where no whole
/// message has arrived. A message that is not text is dropped and reported.
pub fn try_decode_frame(buf: &mut BytesMut) -> (r: Result<Option<Vec<String>>, NativeError>)
    ensures
        if has_frame(buffered(*old(buf))) {
            let raw = raw_fields(front_payload(buffered(*old(buf))));
            &&& buffered(*final(buf)) == after_frame(buffered(*old(buf)))
            &&& match r {
                Ok(Some(v)) => all_text(raw) && decoded_as(v@, raw),
                Ok(None) => false,
                Err(e) => !all_text(raw) && e is Malformed,
            }
        } else {
            buffered(*final(buf)) == buffered(*old(buf)) && r == Ok::<Option<Vec<String>>, NativeError>(None)
        },
{
    let (result, end): (Result<Vec<String>, NativeError>, usize) = {
        let b = buffer_bytes(buf);
        if b.len() < 4 {
            return Ok(None);
        }
        let n: u64 = (b[0] as u64) * 0x100_0000 + (b[1] as u64) * 0x1_0000 + (b[2] as u64) * 0x100 + (b[3] as u64);
        if (b.len() as u64) < 4 + n {
            return Ok(None);
        }
        let end: usize = (4 + n) as usize;
        (decode_payload(vstd::slice::slice_subrange(b, 4, end)), end)
    };
    drop_front(buf, end);
    match result {
        Ok(v) => Ok(Some(v)),
        Err(e) => Err(e),
    }
}

/// The messages that a buffer holds, what is left behind them, and whether
/// all of them were text. Decoding stops at one that is not.
pub open spec fn drained(b: Seq<u8>) -> (Seq<Seq<Seq<u8>>>, Seq<u8>, bool)
    decreases b.len(),
{
    if !has_frame(b) {
        (Seq::<Seq<Seq<u8>>>::empty(), b, true)
    } else if !all_text(raw_fields(front_payload(b))) {
        (Seq::<Seq<Seq<u8>>>::empty(), after_frame(b), false)
    } else {
        let (frames, left, ok) = drained(after_frame(b));
        (seq![raw_fields(front_payload(b))] + frames, left, ok)
    }
}

/// Takes every whole message off the front of a buffer.
pub fn try_decode_all(buf: &mut BytesMut) -> (r: Result<Vec<Vec<String>>, NativeError>)
    ensures
        buffered(*final(buf)) == drained(buffered(*old(buf))).1,
        match r {
            Ok(frames) => {
                let (raw, left, ok) = drained(buffered(*old(buf)));
                &&& ok
                &&& frames@.len() == raw.len()
                &&& forall|i: int| 0 <= i < raw.len() ==> decoded_as((#[trigger] frames@[i])@, raw[i])
            },
            Err(e) => !drained(buffered(*old(buf))).2 && e is Malformed,
        },
{
    let mut out: Vec<Vec<String>> = Vec::new();
    let ghost start = buffered(*buf);
    loop
        invariant
            start == buffered(*old(buf)),
            ({
                let (raw, left, ok) = drained(start);
                let (raw2, left2, ok2) = drained(buffered(*buf));
                &&& left == left2
                &&& ok == ok2
                &&& raw.len() == out@.len() + raw2.len()
                &&& raw.skip(out@.len() as int) == raw2
                &&& forall|i: int| 0 <= i < out@.len() ==> decoded_as((#[trigger] out@[i])@, raw[i])
            }),
        decreases buffered(*buf).len(),
    {
        let ghost before = buffered(*buf);
        match try_decode_frame(buf) {
            Ok(Some(v)) => {
                proof {
                    let (raw, left, ok) = drained(start);
                    let rest = drained(after_frame(before)).0;
                    let front = raw_fields(front_payload(before));
                    assert(raw.skip(out@.len() as int)[0] == front);
                    assert((seq![front] + rest).skip(1) =~= rest);
                    assert(raw.skip((out@.len() + 1) as int) =~= raw.skip(out@.len() as int).skip(1));
                }
                out.push(v);
            },
            Ok(None) => {
                return Ok(out);
            },
            Err(e) => {
                return Err(e);
            },
        }
    }
}

proof fn lemma_scalar_no_zero(c: u32)
    by (bit_vector)
    requires
        0 < c <= 0x10_ffff,
    ensures
        c <= 0x7f ==> leading_byte_width_1(c) != 0,
        leading_byte_width_2(c) != 0,
        leading_byte_width_3(c) != 0,
        leading_byte_width_4(c) != 0,
        last_continuation_byte(c) != 0,
        second_last_continuation_byte(c) != 0,
        third_last_continuation_byte(c) != 0,
{
}

/// Whether a text holds no zero character.
pub open spec fn no_zero(s: Seq<char>) -> bool {
    forall|i: int| 0 <= i < s.len() ==> #[trigger] s[i] != '\0'
}

proof fn lemma_encoding_no_zero(s: Seq<char>)
    requires
        no_zero(s),
    ensures
        forall|i: int| 0 <= i < encode_utf8(s).len() ==> #[trigger] encode_utf8(s)[i] != 0,
    decreases s.len(),
{
    if s.len() > 0 {
        lemma_encoding_no_zero(s.drop_first());
        let first: char = s[0];
        let c = first as u32;
        assert(first != '\0');
        char_is_scalar(first);
        char_u32_cast(first, c);
        assert(c != 0 && c <= 0x10_ffff);
        lemma_scalar_no_zero(c);
        let head = encode_scalar(c);
        let tail = encode_utf8(s.drop_first());
        assert forall|i: int| 0 <= i < encode_utf8(s).len() implies #[trigger] encode_utf8(s)[i] != 0 by {
            assert(encode_utf8(s) == head + tail);
            if i < head.len() {
                assert((head + tail)[i] == head[i]);
            } else {
                assert((head + tail)[i] == tail[i - head.len()]);
            }
        }
    }
}

proof fn lemma_cut_extends(a: Seq<u8>, b: Seq<u8>)
    requires
        forall|i: int| 0 <= i < b.len() ==> #[trigger] b[i] != 0,
    ensures
        cut(a + b) == (cut(a).0, cut(a).1 + b),
    decreases b.len(),
{
    if b.len() == 0 {
        assert(a + b =~= a);
        assert(cut(a).1 + b =~= cut(a).1);
    } else {
        lemma_cut_extends(a, b.drop_last());
        assert((a + b).drop_last() =~= a + b.drop_last());
        assert((a + b).last() == b.last());
        assert((cut(a).1 + b.drop_last()).push(b.last()) =~= cut(a).1 + b);
    }
}

/// The bytes of each field.
pub open spec fn field_bytes(fields: Seq<Seq<char>>) -> Seq<Seq<u8>> {
    fields.map_values(|f: Seq<char>| encode_utf8(f))
}

proof fn lemma_cut_payload(fields: Seq<Seq<char>>)
    requires
        forall|i: int| 0 <= i < fields.len() ==> no_zero(#[trigger] fields[i]),
    ensures
        cut(payload(fields)) == (field_bytes(fields), Seq::<u8>::empty()),
    decreases fields.len(),
{
    if fields.len() == 0 {
        assert(field_bytes(fields) =~= Seq::<Seq<u8>>::empty());
    } else {
        let init = fields.drop_last();
        assert forall|i: int| 0 <= i < init.len() implies no_zero(#[trigger] init[i]) by {
            assert(init[i] == fields[i]);
        }
        lemma_cut_payload(init);
        let f = fields.last();
        assert(no_zero(fields[fields.len() - 1]));
        lemma_encoding_no_zero(f);
        let a = payload(init);
        let e = encode_utf8(f);
        lemma_cut_extends(a, e);
        let whole = a + e + seq![0u8];
        assert(whole.drop_last() =~= a + e);
        assert(whole.last() == 0);
        assert(Seq::<u8>::empty() + e =~= e);
        assert(field_bytes(fields) =~= field_bytes(init).push(e));
    }
}

/// Decoding gives back what was encoded: of a message of fields without zero
/// characters, the fields are read back in order, and what follows the
/// message is left.
pub proof fn law_decode_reads_back(fields: Seq<Seq<char>>, rest: Seq<u8>)
    requires
        forall|i: int| 0 <= i < fields.len() ==> no_zero(#[trigger] fields[i]),
        payload(fields).len() < 0x1_0000_0000,
    ensures
        has_frame(frame_of(fields) + rest),
        raw_fields(front_payload(frame_of(fields) + rest)) == field_bytes(fields),
        all_text(field_bytes(fields)),
        after_frame(frame_of(fields) + rest) == rest,
        forall|v: Seq<String>| #[trigger]
            decoded_as(v, field_bytes(fields)) ==> v.map_values(|s: String| s@) == fields,
{
    let p = payload(fields);
    let n = p.len() as int;
    let b = frame_of(fields) + rest;
    assert(b[0] == ((n / 0x100_0000) % 0x100) as u8);
    assert(b[1] == ((n / 0x1_0000) % 0x100) as u8);
    assert(b[2] == ((n / 0x100) % 0x100) as u8);
    assert(b[3] == (n % 0x100) as u8);
    assert(from_be32(b) == n);
    assert(front_payload(b) =~= p);
    assert(after_frame(b) =~= rest);
    lemma_cut_payload(fields);
    assert forall|i: int| 0 <= i < field_bytes(fields).len() implies valid_utf8(#[trigger] field_bytes(fields)[i]) by {
        encode_utf8_valid_utf8(fields[i]);
    }
    assert forall|v: Seq<String>| #[trigger] decoded_as(v, field_bytes(fields)) implies v.map_values(|s: String| s@) == fields by {
        assert forall|i: int| 0 <= i < v.len() implies (#[trigger] v[i])@ == fields[i] by {
            encode_utf8_decode_utf8(v[i]@);
            encode_utf8_decode_utf8(fields[i]);
        }
        assert(v.map_values(|s: String| s@) =~= fields);
    }
}

/// The integer that a field denotes, where it fits 32 bits.
pub open spec fn int_field(s: Seq<char>) -> Option<i32> {
    match int_value(s) {
        Some(v) => if i32::MIN <= v <= i32::MAX {
            Some(v as i32)
        } else {
            None
        },
        None => None,
    }
}

/// Reads an integer field.
pub fn parse_int(s: &str) -> (r: Result<i32, NativeError>)
    ensures
        match int_field(s@) {
            Some(v) => r == Ok::<i32, NativeError>(v),
            None => r matches Err(NativeError::Malformed(m)) && m@ == "not an integer: "@ + s@,
        },
{
    match parse_i64(s) {
        Some(v) => {
            if -0x8000_0000 <= v && v <= 0x7fff_ffff {
                Ok(v as i32)
            } else {
                Err(NativeError::Malformed(prefixed("not an integer: ", s)))
            }
        },
        None => Err(NativeError::Malformed(prefixed("not an integer: ", s))),
    }
}

/// How many messages may wait to be dispatched: enough for the burst that
/// follows a connection.
pub const DISPATCH_CHANNEL_CAP: usize = 16_384;

/// Messages that wait to be dispatched, each with the time it came in. A slow
/// consumer does not hold up the socket: where the limit is reached, the
/// oldest message is lost.
#[derive(Debug)]
pub struct Backlog {
    messages: VecDeque<(Vec<String>, u64)>,
}

impl Backlog {
    /// The messages that wait, oldest first.
    pub closed spec fn view(&self) -> Seq<(Vec<String>, u64)> {
        self.messages@
    }

    /// No more wait than may.
    pub open spec fn wf(&self) -> bool {
        self@.len() <= DISPATCH_CHANNEL_CAP
    }

    /// Nothing waits.
    pub fn new() -> (r: Backlog)
        ensures
            r.wf(),
            r@ == Seq::<(Vec<String>, u64)>::empty(),
    {
        Backlog { messages: VecDeque::new() }
    }

    /// Adds a message. Returns whether the oldest one was lost to it.
    pub fn push(&mut self, fields: Vec<String>, recv_ns: u64) -> (lost: bool)
        requires
            old(self).wf(),
        ensures
            final(self).wf(),
            lost == (old(self)@.len() == DISPATCH_CHANNEL_CAP),
            final(self)@ == (if lost {
                old(self)@.skip(1)
            } else {
                old(self)@
            }).push((fields, recv_ns)),
    {
        let lost = self.messages.len() >= DISPATCH_CHANNEL_CAP;
        if lost {
            self.messages.pop_front();
            assert(self@ =~= old(self)@.skip(1));
        }
        self.messages.push_back((fields, recv_ns));
        lost
    }

    /// Takes the oldest message.
    pub fn pop(&mut self) -> (r: Option<(Vec<String>, u64)>)
        requires
            old(self).wf(),
        ensures
            final(self).wf(),
            match r {
                Some(m) => old(self)@.len() > 0 && m == old(self)@[0] && final(self)@ == old(self)@.skip(1),
                None => old(self)@.len() == 0 && final(self)@ == old(self)@,
            },
    {
        let r = self.messages.pop_front();
        proof {
            if r is Some {
                assert(self@ =~= old(self)@.skip(1));
            }
        }
        r
    }
}

/// What the client knows of the gateway.
#[derive(Debug)]
pub struct ClientState {
    /// Negotiated version; 0 before the handshake.
    pub server_version: i32,
    /// The gateway's connection time.
    pub conn_time: String,
    /// Next order id; 0 before the gateway sent one.
    pub next_order_id: i32,
    /// Accounts of this login.
    pub managed_accounts: Vec<String>,
    pub msgs_sent: u64,
    pub msgs_recv: u64,
    pub msgs_dropped: u64,
}

/// A count one higher, wrapping around.
pub open spec fn bumped(n: u64) -> u64 {
    if n == u64::MAX {
        0
    } else {
        (n + 1) as u64
    }
}

/// The accounts that a comma-separated list names.
pub open spec fn accounts_of(csv: Seq<char>) -> Seq<Seq<char>> {
    split_on(csv, ',').filter(|s: Seq<char>| s.len() > 0)
}

/// Whether a number is a power of two.
pub open spec fn power_of_two_count(n: u64) -> bool {
    exists|k: nat| n == #[trigger] vstd::arithmetic::power2::pow2(k)
}

fn split_accounts(csv: &str) -> (r: Vec<String>)
    ensures
        char_views(r@) == accounts_of(csv@),
{
    let parts = split_text(csv, ',');
    let ghost all = char_views(parts@);
    let ghost keep = |s: Seq<char>| s.len() > 0;
    let mut out: Vec<String> = Vec::new();
    let mut i: usize = 0;
    proof {
        reveal(Seq::filter);
        assert(char_views(out@) =~= all.take(0).filter(keep));
    }
    while i < parts.len()
        invariant
            i <= parts@.len(),
            all == char_views(parts@),
            keep == (|s: Seq<char>| s.len() > 0),
            char_views(out@) == all.take(i as int).filter(keep),
        decreases parts@.len() - i,
    {
        let ghost before = char_views(out@);
        let ghost head = all.take(i as int);
        if !parts[i].as_str().is_empty() {
            out.push(parts[i].clone());
            assert(char_views(out@) =~= before.push(all[i as int]));
        }
        proof {
            assert(all.take(i + 1) =~= head.push(all[i as int]));
            assert(head.push(all[i as int]).drop_last() =~= head);
            reveal(Seq::filter);
        }
        i = i + 1;
    }
    assert(all.take(i as int) =~= all);
    out
}

impl ClientState {
    /// The state before the handshake.
    pub fn new() -> (r: ClientState)
        ensures
            r.server_version == 0,
            r.conn_time@ == Seq::<char>::empty(),
            r.next_order_id == 0,
            r.managed_accounts@ == Seq::<String>::empty(),
            r.msgs_sent == 0,
            r.msgs_recv == 0,
            r.msgs_dropped == 0,
    {
        ClientState {
            server_version: 0,
            conn_time: String::new(),
            next_order_id: 0,
            managed_accounts: Vec::new(),
            msgs_sent: 0,
            msgs_recv: 0,
            msgs_dropped: 0,
        }
    }

    /// The order id after the gateway announced one: the larger of the two,
    /// so that an id handed out here is never reused.
    pub open spec fn merged_id(local: i32, fields: Seq<Seq<char>>) -> i32 {
        if fields.len() >= 3 && int_field(fields[0]) == Some(IN_NEXT_VALID_ID) {
            match int_field(fields[2]) {
                Some(id) => if id > local {
                    id
                } else {
                    local
                },
                None => local,
            }
        } else {
            local
        }
    }

    /// Takes note of one message: counts it, and keeps the next order id and
    /// the managed accounts where it carries them.
    pub fn note_frame(&mut self, fields: &Vec<String>)
        ensures
            *final(self) == (ClientState {
                next_order_id: ClientState::merged_id(old(self).next_order_id, texts(fields@)),
                managed_accounts: final(self).managed_accounts,
                msgs_recv: bumped(old(self).msgs_recv),
                ..*old(self)
            }),
            if fields@.len() >= 3 && int_field(fields@[0]@) == Some(IN_MANAGED_ACCTS) {
                char_views(final(self).managed_accounts@) == accounts_of(fields@[2]@)
            } else {
                final(self).managed_accounts == old(self).managed_accounts
            },
    {
        self.msgs_recv = self.msgs_recv.wrapping_add(1);
        if fields.len() < 3 {
            return;
        }
        assert(texts(fields@)[0] == fields@[0]@);
        assert(texts(fields@)[2] == fields@[2]@);
        match parse_int(fields[0].as_str()) {
            Ok(id) => {
                if id == IN_NEXT_VALID_ID {
                    match parse_int(fields[2].as_str()) {
                        Ok(next) => {
                            if next > self.next_order_id {
                                self.next_order_id = next;
                            }
                        },
                        Err(_) => {},
                    }
                } else if id == IN_MANAGED_ACCTS {
                    self.managed_accounts = split_accounts(fields[2].as_str());
                }
            },
            Err(_) => {},
        }
    }

    /// Counts a message that the dispatcher had no room for, and says
    /// whether to report it: at each power of two, so that a flood is
    /// reported with growing gaps.
    pub fn note_dropped(&mut self) -> (report: bool)
        ensures
            *final(self) == (ClientState { msgs_dropped: bumped(old(self).msgs_dropped), ..*old(self) }),
            report == power_of_two_count(final(self).msgs_dropped),
    {
        self.msgs_dropped = self.msgs_dropped.wrapping_add(1);
        is_power_of_two(self.msgs_dropped)
    }

    /// Counts a message sent.
    pub fn note_sent(&mut self)
        ensures
            *final(self) == (ClientState { msgs_sent: bumped(old(self).msgs_sent), ..*old(self) }),
    {
        self.msgs_sent = self.msgs_sent.wrapping_add(1);
    }

    /// The next id after one was handed out: an id that the gateway has not
    /// sent is not handed out.
    pub open spec fn following(id: i32) -> i32 {
        if id > 0 {
            (id + 1) as i32
        } else {
            id
        }
    }

    /// Hands out the next order id; 0 where the gateway has not sent one.
    pub fn alloc_order_id(&mut self) -> (r: i32)
        requires
            old(self).next_order_id < i32::MAX,
        ensures
            r == (if old(self).next_order_id > 0 {
                old(self).next_order_id
            } else {
                0
            }),
            *final(self) == (ClientState {
                next_order_id: ClientState::following(old(self).next_order_id),
                ..*old(self)
            }),
    {
        let id: i32 = self.next_order_id;
        if id > 0 {
            self.next_order_id = id + 1;
            id
        } else {
            0
        }
    }

    /// Whether the gateway has sent what must precede any request: an order
    /// id and the managed accounts.
    pub fn bootstrapped(&self) -> (r: bool)
        ensures
            r == (self.next_order_id > 0 && self.managed_accounts@.len() > 0),
    {
        self.next_order_id > 0 && self.managed_accounts.len() > 0
    }

    /// Keeps the outcome of the handshake, unless the server is too old.
    pub fn accept_handshake(&mut self, version: i32, conn_time: String) -> (r: Result<(), NativeError>)
        ensures
            if version < MIN_SERVER_VERSION {
                *final(self) == *old(self) && r == Err::<(), NativeError>(
                    NativeError::ServerVersionTooLow(version, MIN_SERVER_VERSION),
                )
            } else {
                *final(self) == (ClientState { server_version: version, conn_time, ..*old(self) }) && r == Ok::<
                    (),
                    NativeError,
                >(())
            },
    {
        if version < MIN_SERVER_VERSION {
            return Err(NativeError::ServerVersionTooLow(version, MIN_SERVER_VERSION));
        }
        self.server_version = version;
        self.conn_time = conn_time;
        Ok(())
    }
}

fn is_power_of_two(n: u64) -> (r: bool)
    ensures
        r == power_of_two_count(n),
{
    let mut p: u64 = 1;
    let mut k: u64 = 0;
    proof {
        vstd::arithmetic::power2::lemma2_to64();
        vstd::arithmetic::power2::lemma2_to64_rest();
    }
    while k < 63
        invariant
            k <= 63,
            p == vstd::arithmetic::power2::pow2(k as nat),
            vstd::arithmetic::power2::pow2(63) == 0x8000_0000_0000_0000,
            forall|j: nat| j < k ==> n != #[trigger] vstd::arithmetic::power2::pow2(j),
        decreases 63 - k,
    {
        if n == p {
            return true;
        }
        proof {
            vstd::arithmetic::power2::lemma_pow2_strictly_increases(k as nat, 63);
            vstd::arithmetic::power2::lemma_pow2_unfold((k + 1) as nat);
        }
        p = p * 2;
        k = k + 1;
    }
    proof {
        if n != p {
            assert forall|j: nat| n != #[trigger] vstd::arithmetic::power2::pow2(j) by {
                if j > 63 {
                    vstd::arithmetic::power2::lemma_pow2_strictly_increases(63, j);
                    vstd::arithmetic::power2::lemma_pow2_unfold(64);
                    if j > 64 {
                        vstd::arithmetic::power2::lemma_pow2_strictly_increases(64, j);
                    }
                }
            }
        }
    }
    n == p
}

/// What reading from the socket gave during the handshake.
pub enum HandshakeStep {
    /// These bytes.
    Got(Vec<u8>),
    /// Nothing yet.
    WouldBlock,
    /// The peer closed the connection.
    Eof,
    /// The socket failed.
    Failed(String),
    /// The time limit passed.
    TimedOut,
}

/// The reply to the handshake as far as it has arrived.
pub struct HandshakeReader {
    buf: BytesMut,
}

/// What the handshake's reply means: version and connection time.
pub open spec fn handshake_meaning(fields: Seq<Seq<char>>, r: Result<Option<(i32, String)>, NativeError>) -> bool {
    if fields.len() < 2 {
        r matches Err(NativeError::Protocol(m)) && m@ == "handshake reply has "@ + digits(fields.len()) + " fields, want ≥2"@
    } else {
        match int_field(fields[0]) {
            Some(v) => r matches Ok(Some((version, time))) && version == v && time@ == fields[1],
            None => r matches Err(NativeError::Malformed(m)) && m@ == "not an integer: "@ + fields[0],
        }
    }
}

/// Reads a decoded handshake reply.
pub fn handshake_reply(fields: &Vec<String>) -> (r: Result<Option<(i32, String)>, NativeError>)
    ensures
        handshake_meaning(texts(fields@), r),
{
    if fields.len() < 2 {
        let mut m = "handshake reply has ".to_owned();
        let n = u64_text(fields.len() as u64);
        m.append(n.as_str());
        m.append(" fields, want ≥2");
        return Err(NativeError::Protocol(m));
    }
    assert(texts(fields@)[0] == fields@[0]@);
    assert(texts(fields@)[1] == fields@[1]@);
    match parse_int(fields[0].as_str()) {
        Ok(v) => Ok(Some((v, fields[1].clone()))),
        Err(e) => Err(e),
    }
}

impl HandshakeReader {
    /// The bytes that have arrived and are not decoded.
    pub closed spec fn view(&self) -> Seq<u8> {
        buffered(self.buf)
    }

    /// Nothing has arrived.
    pub fn new() -> (r: HandshakeReader)
        ensures
            r@ == Seq::<u8>::empty(),
    {
        HandshakeReader { buf: empty_buffer(256) }
    }

    /// Takes what the socket gave: `Ok(None)` where more must be read,
    /// version and connection time once a whole message has arrived, and
    /// an error where none will.
    pub fn step(&mut self, step: HandshakeStep) -> (r: Result<Option<(i32, String)>, NativeError>)
        ensures
            match step {
                HandshakeStep::Got(bytes) => {
                    let b = old(self)@ + bytes@;
                    let raw = raw_fields(front_payload(b));
                    if !has_frame(b) {
                        final(self)@ == b && r == Ok::<Option<(i32, String)>, NativeError>(None)
                    } else {
                        &&& final(self)@ == after_frame(b)
                        &&& if all_text(raw) {
                            exists|v: Seq<String>| #[trigger] decoded_as(v, raw) && handshake_meaning(texts(v), r)
                        } else {
                            r is Err && r->Err_0 is Malformed
                        }
                    }
                },
                HandshakeStep::WouldBlock => final(self)@ == old(self)@ && r == Ok::<Option<(i32, String)>, NativeError>(None),
                HandshakeStep::Eof => final(self)@ == old(self)@ && (r matches Err(NativeError::Protocol(m)) && m@
                    == "handshake: connection closed by peer (EOF) before server sent serverVersion+connTime"@),
                HandshakeStep::Failed(e) => final(self)@ == old(self)@ && r == Err::<Option<(i32, String)>, NativeError>(
                    NativeError::Io(e),
                ),
                HandshakeStep::TimedOut => final(self)@ == old(self)@ && r == Err::<Option<(i32, String)>, NativeError>(
                    NativeError::HandshakeTimeout,
                ),
            },
    {
        match step {
            HandshakeStep::Got(bytes) => {
                append_bytes(&mut self.buf, bytes.as_slice());
                match try_decode_frame(&mut self.buf) {
                    Ok(Some(fields)) => handshake_reply(&fields),
                    Ok(None) => Ok(None),
                    Err(e) => Err(e),
                }
            },
            HandshakeStep::WouldBlock => Ok(None),
            HandshakeStep::Eof => Err(
                NativeError::Protocol(
                    "handshake: connection closed by peer (EOF) before server sent serverVersion+connTime".to_owned(),
                ),
            ),
            HandshakeStep::Failed(e) => Err(NativeError::Io(e)),
            HandshakeStep::TimedOut => Err(NativeError::HandshakeTimeout),
        }
    }
}

/// What arrives after the handshake.
pub struct FrameReader {
    buf: BytesMut,
}

impl FrameReader {
    /// The bytes that have arrived and are not decoded.
    pub closed spec fn view(&self) -> Seq<u8> {
        buffered(self.buf)
    }

    /// Nothing has arrived.
    pub fn new() -> (r: FrameReader)
        ensures
            r@ == Seq::<u8>::empty(),
    {
        FrameReader { buf: empty_buffer(65536) }
    }

    /// Takes bytes from the socket and returns the messages that they
    /// complete.
    pub fn feed(&mut self, bytes: &[u8]) -> (r: Result<Vec<Vec<String>>, NativeError>)
        ensures
            final(self)@ == drained(old(self)@ + bytes@).1,
            match r {
                Ok(frames) => {
                    let (raw, left, ok) = drained(old(self)@ + bytes@);
                    &&& ok
                    &&& frames@.len() == raw.len()
                    &&& forall|i: int| 0 <= i < raw.len() ==> decoded_as((#[trigger] frames@[i])@, raw[i])
                },
                Err(e) => !drained(old(self)@ + bytes@).2 && e is Malformed,
            },
    {
        append_bytes(&mut self.buf, bytes);
        try_decode_all(&mut self.buf)
    }
}

/// What happens to the order id: the gateway sends a message, or, where there
/// is none, an order takes an id.
pub type IdStep = Option<Seq<Seq<char>>>;

/// The next id after some steps.
pub open spec fn id_after(local: i32, steps: Seq<IdStep>) -> i32
    decreases steps.len(),
{
    if steps.len() == 0 {
        local
    } else {
        let before = id_after(local, steps.drop_last());
        match steps.last() {
            Some(fields) => ClientState::merged_id(before, fields),
            None => ClientState::following(before),
        }
    }
}

/// The ids that orders have taken in some steps, in order. An order that found
/// none took none.
pub open spec fn ids_taken(local: i32, steps: Seq<IdStep>) -> Seq<i32>
    decreases steps.len(),
{
    if steps.len() == 0 {
        Seq::<i32>::empty()
    } else {
        let taken = ids_taken(local, steps.drop_last());
        let before = id_after(local, steps.drop_last());
        if steps.last() is None && before > 0 {
            taken.push(before)
        } else {
            taken
        }
    }
}

/// Whether no order takes the last id that there is.
pub open spec fn ids_last(local: i32, steps: Seq<IdStep>) -> bool {
    forall|k: int|
        0 <= k < steps.len() && (#[trigger] steps[k]) is None ==> id_after(local, steps.take(k)) < i32::MAX
}

/// Order ids are handed out once: whatever the gateway announces in between,
/// each id that an order takes exceeds every earlier one, and the next id
/// exceeds them all.
pub proof fn law_order_ids_grow(local: i32, steps: Seq<IdStep>)
    requires
        ids_last(local, steps),
    ensures
        id_after(local, steps) >= local,
        forall|i: int, j: int|
            0 <= i < j < ids_taken(local, steps).len() ==> ids_taken(local, steps)[i] < ids_taken(local, steps)[j],
        forall|i: int|
            0 <= i < ids_taken(local, steps).len() ==> 0 < #[trigger] ids_taken(local, steps)[i] < id_after(local, steps),
    decreases steps.len(),
{
    if steps.len() > 0 {
        let d = steps.drop_last();
        assert forall|k: int| 0 <= k < d.len() && (#[trigger] d[k]) is None implies id_after(local, d.take(k))
            < i32::MAX by {
            assert(steps[k] is None);
            assert(d.take(k) =~= steps.take(k));
        }
        law_order_ids_grow(local, d);
        assert(steps.take(steps.len() - 1) =~= d);
        assert(steps[steps.len() - 1] == steps.last());
        let taken = ids_taken(local, d);
        let before = id_after(local, d);
        let ids = ids_taken(local, steps);
        assert(ids == (if steps.last() is None && before > 0 {
            taken.push(before)
        } else {
            taken
        }));
        assert(before <= id_after(local, steps));
        assert forall|i: int, j: int| 0 <= i < j < ids.len() implies ids[i] < ids[j] by {
            assert(ids[i] == taken[i]);
        }
        assert forall|i: int| 0 <= i < ids.len() implies 0 < #[trigger] ids[i] < id_after(local, steps) by {
            if i < taken.len() {
                assert(ids[i] == taken[i]);
            }
        }
    }
}

/// The gateway's next order id is taken over where it is ahead of ours, and
/// never takes ours back; no other message touches it.
pub proof fn law_gateway_ids_are_taken_over(local: i32, fields: Seq<Seq<char>>, id: i32)
    ensures
        ClientState::merged_id(local, fields) >= local,
        fields.len() >= 3 && int_value(fields[0]) == Some(9int) && int_value(fields[2]) == Some(id as int) && id > local
            ==> ClientState::merged_id(local, fields) == id,
        fields.len() >= 3 && int_value(fields[0]) == Some(9int) && int_value(fields[2]) == Some(id as int) && id <= local
            ==> ClientState::merged_id(local, fields) == local,
        fields.len() < 3 || int_value(fields[0]) != Some(9int) ==> ClientState::merged_id(local, fields) == local,
{
}

/// The accounts of a login are the parts between commas that hold anything.
pub proof fn law_accounts_are_the_parts(csv: Seq<char>, account: Seq<char>)
    ensures
        accounts_of(csv).contains(account) <==> account.len() > 0 && split_on(csv, ',').contains(account),
        forall|i: int| 0 <= i < accounts_of(csv).len() ==> !(#[trigger] accounts_of(csv)[i]).contains(','),
{
    broadcast use vstd::seq_lib::group_filter_ensures;
    broadcast use Seq::lemma_filter_contains_rev;

    law_split_parts_rejoin(csv, ',');
    let parts = split_on(csv, ',');
    let kept = accounts_of(csv);
    assert forall|i: int| 0 <= i < kept.len() implies !(#[trigger] kept[i]).contains(',') by {
        assert(kept.contains(kept[i]));
        assert(parts.contains(kept[i]));
        let k = parts.index_of(kept[i]);
        assert(!parts[k].contains(','));
    }
}

/// Frames come out one by one in the order they came in: the first frame's
/// fields first, then those of the rest.
pub proof fn law_frames_come_out_in_order(fields: Seq<Seq<char>>, rest: Seq<u8>)
    requires
        forall|i: int| 0 <= i < fields.len() ==> no_zero(#[trigger] fields[i]),
        payload(fields).len() < 0x1_0000_0000,
    ensures
        drained(frame_of(fields) + rest).0 == seq![field_bytes(fields)] + drained(rest).0,
        drained(frame_of(fields) + rest).1 == drained(rest).1,
        drained(frame_of(fields) + rest).2 == drained(rest).2,
        rest.len() < 4 ==> drained(rest) == (Seq::<Seq<Seq<u8>>>::empty(), rest, true),
{
    law_decode_reads_back(fields, rest);
}

/// The gateway's greeting is its version and the time of the connection; one
/// that holds less is refused.
pub proof fn law_greeting_tells_the_version(fields: Seq<Seq<char>>, r: Result<Option<(i32, String)>, NativeError>, v: i32)
    requires
        handshake_meaning(fields, r),
    ensures
        fields.len() >= 2 && int_value(fields[0]) == Some(v as int) ==> (r matches Ok(Some((version, time))) && version == v
            && time@ == fields[1]),
        fields.len() < 2 ==> r is Err,
        fields.len() >= 2 && int_value(fields[0]) is None ==> r is Err,
{
}

} // verus!
