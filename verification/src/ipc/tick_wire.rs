//! The tick event on the wire: a MessagePack map with named fields.
//!
//! Numbers have fixed widths, so a tick is encoded without looking at their
//! values.

use crate::double::Double;
use vstd::prelude::*;
use vstd::string::*;
use vstd::utf8::*;

verus! {

/// A tick event.
#[derive(Debug)]
pub struct TickEvent {
    pub ty: String,
    pub strike: Double,
    /// `YYYYMMDD`.
    pub expiry: String,
    /// `C` or `P`.
    pub right: String,
    pub bid: Option<Double>,
    pub ask: Option<Double>,
    pub bid_size: Option<i32>,
    pub ask_size: Option<i32>,
    pub ts_ns: u64,
    pub broker_recv_ns: u64,
    /// Best bids and asks of the depth book, where one is kept.
    pub depth_bid_0: Option<Double>,
    pub depth_bid_1: Option<Double>,
    pub depth_ask_0: Option<Double>,
    pub depth_ask_1: Option<Double>,
}

/// The `k` lowest bytes of a number, highest first.
pub open spec fn be_bytes(n: int, k: nat) -> Seq<u8>
    decreases k,
{
    if k == 0 {
        Seq::<u8>::empty()
    } else {
        be_bytes(n / 0x100, (k - 1) as nat).push((n % 0x100) as u8)
    }
}

/// A short text: at most 31 bytes behind one byte of length.
pub open spec fn fixstr(s: Seq<char>) -> Seq<u8> {
    seq![(0xa0 + encode_utf8(s).len()) as u8] + encode_utf8(s)
}

/// A text behind the shortest length that holds its size.
pub open spec fn packed_str(s: Seq<char>) -> Seq<u8> {
    let n = encode_utf8(s).len() as int;
    if n <= 31 {
        seq![(0xa0 + n) as u8] + encode_utf8(s)
    } else if n <= 255 {
        seq![0xd9u8] + be_bytes(n, 1) + encode_utf8(s)
    } else if n <= 65535 {
        seq![0xdau8] + be_bytes(n, 2) + encode_utf8(s)
    } else {
        seq![0xdbu8] + be_bytes(n, 4) + encode_utf8(s)
    }
}

/// A double: its eight bytes behind a tag.
pub open spec fn packed_f64(d: Double) -> Seq<u8> {
    seq![0xcbu8] + be_bytes(d.bits as int, 8)
}

/// A double, or nil.
pub open spec fn packed_opt_f64(d: Option<Double>) -> Seq<u8> {
    match d {
        Some(d) => packed_f64(d),
        None => seq![0xc0u8],
    }
}

/// A 32-bit integer in two's complement, or nil.
pub open spec fn packed_opt_i32(v: Option<i32>) -> Seq<u8> {
    match v {
        Some(v) => seq![0xd2u8] + be_bytes(v as int, 4),
        None => seq![0xc0u8],
    }
}

/// An unsigned 64-bit integer.
pub open spec fn packed_u64(v: u64) -> Seq<u8> {
    seq![0xcfu8] + be_bytes(v as int, 8)
}

/// A depth field, left out where there is none.
pub open spec fn depth_field(key: Seq<char>, d: Option<Double>) -> Seq<u8> {
    match d {
        Some(d) => fixstr(key) + packed_f64(d),
        None => Seq::<u8>::empty(),
    }
}

/// 1 for a value, 0 for none.
pub open spec fn present(d: Option<Double>) -> int {
    if d is Some {
        1
    } else {
        0
    }
}

/// What names the option: kind, strike, expiry and right.
pub open spec fn contract_fields(ev: TickEvent) -> Seq<u8> {
    (fixstr("type"@) + packed_str(ev.ty@)) + (fixstr("strike"@) + packed_f64(ev.strike)) + (fixstr("expiry"@) + packed_str(
        ev.expiry@,
    )) + (fixstr("right"@) + packed_str(ev.right@))
}

/// The quotes.
pub open spec fn quote_fields(ev: TickEvent) -> Seq<u8> {
    (fixstr("bid"@) + packed_opt_f64(ev.bid)) + (fixstr("ask"@) + packed_opt_f64(ev.ask)) + (fixstr("bid_size"@)
        + packed_opt_i32(ev.bid_size)) + (fixstr("ask_size"@) + packed_opt_i32(ev.ask_size))
}

/// The times.
pub open spec fn time_fields(ev: TickEvent) -> Seq<u8> {
    (fixstr("ts_ns"@) + packed_u64(ev.ts_ns)) + (fixstr("broker_recv_ns"@) + packed_u64(ev.broker_recv_ns))
}

/// The depth fields that are there.
pub open spec fn depth_fields(ev: TickEvent) -> Seq<u8> {
    depth_field("depth_bid_0"@, ev.depth_bid_0) + depth_field("depth_bid_1"@, ev.depth_bid_1) + depth_field(
        "depth_ask_0"@,
        ev.depth_ask_0,
    ) + depth_field("depth_ask_1"@, ev.depth_ask_1)
}

/// A tick event on the wire: a map of ten fields and the depth fields that
/// are there.
pub open spec fn tick_bytes(ev: TickEvent) -> Seq<u8> {
    seq![(0x80 + 10 + present(ev.depth_bid_0) + present(ev.depth_bid_1) + present(ev.depth_ask_0) + present(
        ev.depth_ask_1,
    )) as u8] + contract_fields(ev) + quote_fields(ev) + time_fields(ev) + depth_fields(ev)
}

/// Appends the `k` lowest bytes of a number, highest first.
fn push_be(buf: &mut Vec<u8>, n: u64, k: u64)
    requires
        k <= 8,
    ensures
        final(buf)@ == old(buf)@ + be_bytes(n as int, k as nat),
    decreases k,
{
    if k > 0 {
        push_be(buf, n / 0x100, k - 1);
        buf.push((n % 0x100) as u8);
    }
    assert(buf@ =~= old(buf)@ + be_bytes(n as int, k as nat));
}

/// Appends a short text.
pub fn write_fixstr(buf: &mut Vec<u8>, s: &str)
    requires
        encode_utf8(s@).len() <= 31,
    ensures
        final(buf)@ == old(buf)@ + fixstr(s@),
{
    let bytes = s.as_bytes();
    buf.push(0xa0 + bytes.len() as u8);
    buf.extend_from_slice(bytes);
    assert(buf@ =~= old(buf)@ + fixstr(s@));
}

/// Appends a text.
pub fn write_str(buf: &mut Vec<u8>, s: &str)
    ensures
        final(buf)@ == old(buf)@ + packed_str(s@),
{
    let bytes = s.as_bytes();
    let n: usize = bytes.len();
    if n <= 31 {
        buf.push(0xa0 + n as u8);
    } else if n <= 255 {
        buf.push(0xd9);
        push_be(buf, n as u64, 1);
    } else if n <= 65535 {
        buf.push(0xda);
        push_be(buf, n as u64, 2);
    } else {
        buf.push(0xdb);
        push_be(buf, n as u64, 4);
    }
    buf.extend_from_slice(bytes);
    assert(buf@ =~= old(buf)@ + packed_str(s@));
}

/// Appends a key and a text.
pub fn write_str_kv(buf: &mut Vec<u8>, key: &str, value: &str)
    requires
        encode_utf8(key@).len() <= 31,
    ensures
        final(buf)@ == old(buf)@ + (fixstr(key@) + packed_str(value@)),
{
    write_fixstr(buf, key);
    write_str(buf, value);
    assert(buf@ =~= old(buf)@ + (fixstr(key@) + packed_str(value@)));
}

/// Appends a key and a double.
pub fn write_f64_kv(buf: &mut Vec<u8>, key: &str, value: Double)
    requires
        encode_utf8(key@).len() <= 31,
    ensures
        final(buf)@ == old(buf)@ + (fixstr(key@) + packed_f64(value)),
{
    write_fixstr(buf, key);
    buf.push(0xcb);
    push_be(buf, value.bits, 8);
    assert(buf@ =~= old(buf)@ + (fixstr(key@) + packed_f64(value)));
}

/// Appends a key and a double or nil.
pub fn write_opt_f64_kv(buf: &mut Vec<u8>, key: &str, value: Option<Double>)
    requires
        encode_utf8(key@).len() <= 31,
    ensures
        final(buf)@ == old(buf)@ + (fixstr(key@) + packed_opt_f64(value)),
{
    write_fixstr(buf, key);
    match value {
        Some(v) => {
            buf.push(0xcb);
            push_be(buf, v.bits, 8);
        },
        None => {
            buf.push(0xc0);
        },
    }
    assert(buf@ =~= old(buf)@ + (fixstr(key@) + packed_opt_f64(value)));
}

proof fn lemma_be_bytes_wrap(v: int)
    requires
        -0x8000_0000 <= v < 0,
    ensures
        be_bytes(v, 4) == be_bytes(v + 0x1_0000_0000, 4),
{
    let u = v + 0x1_0000_0000;
    reveal_with_fuel(be_bytes, 5);
    assert(u % 0x100 == v % 0x100);
    assert(u / 0x100 == v / 0x100 + 0x100_0000);
    assert((u / 0x100) % 0x100 == (v / 0x100) % 0x100);
    assert((u / 0x100) / 0x100 == (v / 0x100) / 0x100 + 0x1_0000);
    assert(((u / 0x100) / 0x100) % 0x100 == ((v / 0x100) / 0x100) % 0x100);
    assert(((u / 0x100) / 0x100) / 0x100 == ((v / 0x100) / 0x100) / 0x100 + 0x100);
    assert((((u / 0x100) / 0x100) / 0x100) % 0x100 == (((v / 0x100) / 0x100) / 0x100) % 0x100);
    assert(be_bytes(v, 4) =~= be_bytes(u, 4));
}

/// Appends a key and a 32-bit integer or nil.
pub fn write_opt_i32_kv(buf: &mut Vec<u8>, key: &str, value: Option<i32>)
    requires
        encode_utf8(key@).len() <= 31,
    ensures
        final(buf)@ == old(buf)@ + (fixstr(key@) + packed_opt_i32(value)),
{
    write_fixstr(buf, key);
    match value {
        Some(v) => {
            buf.push(0xd2);
            if v >= 0 {
                push_be(buf, v as u64, 4);
            } else {
                proof {
                    lemma_be_bytes_wrap(v as int);
                }
                push_be(buf, (v as i64 + 0x1_0000_0000) as u64, 4);
            }
        },
        None => {
            buf.push(0xc0);
        },
    }
    assert(buf@ =~= old(buf)@ + (fixstr(key@) + packed_opt_i32(value)));
}

/// Appends a key and an unsigned 64-bit integer.
pub fn write_u64_kv(buf: &mut Vec<u8>, key: &str, value: u64)
    requires
        encode_utf8(key@).len() <= 31,
    ensures
        final(buf)@ == old(buf)@ + (fixstr(key@) + packed_u64(value)),
{
    write_fixstr(buf, key);
    buf.push(0xcf);
    push_be(buf, value, 8);
    assert(buf@ =~= old(buf)@ + (fixstr(key@) + packed_u64(value)));
}

fn write_depth(buf: &mut Vec<u8>, key: &str, value: Option<Double>)
    requires
        encode_utf8(key@).len() <= 31,
    ensures
        final(buf)@ == old(buf)@ + depth_field(key@, value),
{
    match value {
        Some(v) => {
            write_f64_kv(buf, key, v);
        },
        None => {},
    }
    assert(buf@ =~= old(buf)@ + depth_field(key@, value));
}

proof fn lemma_keys_short()
    ensures
        encode_utf8("type"@).len() <= 31,
        encode_utf8("strike"@).len() <= 31,
        encode_utf8("expiry"@).len() <= 31,
        encode_utf8("right"@).len() <= 31,
        encode_utf8("bid"@).len() <= 31,
        encode_utf8("ask"@).len() <= 31,
        encode_utf8("bid_size"@).len() <= 31,
        encode_utf8("ask_size"@).len() <= 31,
        encode_utf8("ts_ns"@).len() <= 31,
        encode_utf8("broker_recv_ns"@).len() <= 31,
        encode_utf8("depth_bid_0"@).len() <= 31,
        encode_utf8("depth_bid_1"@).len() <= 31,
        encode_utf8("depth_ask_0"@).len() <= 31,
        encode_utf8("depth_ask_1"@).len() <= 31,
{
    reveal_strlit("type");
    reveal_strlit("strike");
    reveal_strlit("expiry");
    reveal_strlit("right");
    reveal_strlit("bid");
    reveal_strlit("ask");
    reveal_strlit("bid_size");
    reveal_strlit("ask_size");
    reveal_strlit("ts_ns");
    reveal_strlit("broker_recv_ns");
    reveal_strlit("depth_bid_0");
    reveal_strlit("depth_bid_1");
    reveal_strlit("depth_ask_0");
    reveal_strlit("depth_ask_1");
    is_ascii_chars_encode_utf8("type"@);
    is_ascii_chars_encode_utf8("strike"@);
    is_ascii_chars_encode_utf8("expiry"@);
    is_ascii_chars_encode_utf8("right"@);
    is_ascii_chars_encode_utf8("bid"@);
    is_ascii_chars_encode_utf8("ask"@);
    is_ascii_chars_encode_utf8("bid_size"@);
    is_ascii_chars_encode_utf8("ask_size"@);
    is_ascii_chars_encode_utf8("ts_ns"@);
    is_ascii_chars_encode_utf8("broker_recv_ns"@);
    is_ascii_chars_encode_utf8("depth_bid_0"@);
    is_ascii_chars_encode_utf8("depth_bid_1"@);
    is_ascii_chars_encode_utf8("depth_ask_0"@);
    is_ascii_chars_encode_utf8("depth_ask_1"@);
}

fn write_contract(ev: &TickEvent, buf: &mut Vec<u8>)
    ensures
        final(buf)@ == old(buf)@ + contract_fields(*ev),
{
    proof {
        lemma_keys_short();
    }
    write_str_kv(buf, "type", ev.ty.as_str());
    write_f64_kv(buf, "strike", ev.strike);
    write_str_kv(buf, "expiry", ev.expiry.as_str());
    write_str_kv(buf, "right", ev.right.as_str());
    assert(buf@ =~= old(buf)@ + contract_fields(*ev));
}

fn write_quotes(ev: &TickEvent, buf: &mut Vec<u8>)
    ensures
        final(buf)@ == old(buf)@ + quote_fields(*ev),
{
    proof {
        lemma_keys_short();
    }
    write_opt_f64_kv(buf, "bid", ev.bid);
    write_opt_f64_kv(buf, "ask", ev.ask);
    write_opt_i32_kv(buf, "bid_size", ev.bid_size);
    write_opt_i32_kv(buf, "ask_size", ev.ask_size);
    assert(buf@ =~= old(buf)@ + quote_fields(*ev));
}

fn write_times(ev: &TickEvent, buf: &mut Vec<u8>)
    ensures
        final(buf)@ == old(buf)@ + time_fields(*ev),
{
    proof {
        lemma_keys_short();
    }
    write_u64_kv(buf, "ts_ns", ev.ts_ns);
    write_u64_kv(buf, "broker_recv_ns", ev.broker_recv_ns);
    assert(buf@ =~= old(buf)@ + time_fields(*ev));
}

fn write_depths(ev: &TickEvent, buf: &mut Vec<u8>)
    ensures
        final(buf)@ == old(buf)@ + depth_fields(*ev),
{
    proof {
        lemma_keys_short();
    }
    write_depth(buf, "depth_bid_0", ev.depth_bid_0);
    write_depth(buf, "depth_bid_1", ev.depth_bid_1);
    write_depth(buf, "depth_ask_0", ev.depth_ask_0);
    write_depth(buf, "depth_ask_1", ev.depth_ask_1);
    assert(buf@ =~= old(buf)@ + depth_fields(*ev));
}

/// Appends a tick event.
pub fn encode_tick_into(ev: &TickEvent, buf: &mut Vec<u8>)
    ensures
        final(buf)@ == old(buf)@ + tick_bytes(*ev),
{
    let mut header: u8 = 0x80 + 10;
    if ev.depth_bid_0.is_some() {
        header = header + 1;
    }
    if ev.depth_bid_1.is_some() {
        header = header + 1;
    }
    if ev.depth_ask_0.is_some() {
        header = header + 1;
    }
    if ev.depth_ask_1.is_some() {
        header = header + 1;
    }
    buf.push(header);
    write_contract(ev, buf);
    write_quotes(ev, buf);
    write_times(ev, buf);
    write_depths(ev, buf);
    assert(buf@ =~= old(buf)@ + tick_bytes(*ev));
}

/// A tick event on the wire.
pub fn encoded_tick(ev: &TickEvent) -> (r: Vec<u8>)
    ensures
        r@ == tick_bytes(*ev),
{
    let mut buf: Vec<u8> = Vec::new();
    encode_tick_into(ev, &mut buf);
    assert(buf@ =~= tick_bytes(*ev));
    buf
}

/// The number that bytes hold, highest first.
pub open spec fn from_be(b: Seq<u8>) -> int
    decreases b.len(),
{
    if b.len() == 0 {
        0
    } else {
        from_be(b.drop_last()) * 0x100 + b.last()
    }
}

/// A power of 256.
pub open spec fn span(k: nat) -> int
    decreases k,
{
    if k == 0 {
        1
    } else {
        0x100 * span((k - 1) as nat)
    }
}

/// Reading back the bytes of a number that fits them gives the number.
pub proof fn law_be_bytes_read_back(n: int, k: nat)
    requires
        0 <= n < span(k),
    ensures
        be_bytes(n, k).len() == k,
        from_be(be_bytes(n, k)) == n,
    decreases k,
{
    if k > 0 {
        assert(n / 0x100 < span((k - 1) as nat)) by (nonlinear_arith)
            requires
                n < 0x100 * span((k - 1) as nat),
        ;
        law_be_bytes_read_back(n / 0x100, (k - 1) as nat);
        let b = be_bytes(n, k);
        assert(b.drop_last() =~= be_bytes(n / 0x100, (k - 1) as nat));
    }
}

/// Doubles keep their bits: reading back the eight bytes behind the tag gives
/// the bit pattern that was written.
pub proof fn law_f64_reads_back(d: Double)
    ensures
        packed_f64(d).len() == 9,
        packed_f64(d)[0] == 0xcb,
        from_be(packed_f64(d).skip(1)) == d.bits,
{
    assert(span(8) == 0x1_0000_0000_0000_0000) by {
        reveal_with_fuel(span, 9);
    }
    law_be_bytes_read_back(d.bits as int, 8);
    assert(packed_f64(d).skip(1) =~= be_bytes(d.bits as int, 8));
}

/// Timestamps keep their value.
pub proof fn law_u64_reads_back(v: u64)
    ensures
        packed_u64(v).len() == 9,
        packed_u64(v)[0] == 0xcf,
        from_be(packed_u64(v).skip(1)) == v,
{
    assert(span(8) == 0x1_0000_0000_0000_0000) by {
        reveal_with_fuel(span, 9);
    }
    law_be_bytes_read_back(v as int, 8);
    assert(packed_u64(v).skip(1) =~= be_bytes(v as int, 8));
}

// Reading back

/// A value on the wire.
pub ghost enum Packed {
    Nil,
    Text(Seq<u8>),
    Real(int),
    Signed(int),
    Unsigned(int),
}

/// The number that the four bytes of a signed integer hold.
pub open spec fn from_be_signed(b: Seq<u8>) -> int {
    if from_be(b) >= 0x8000_0000 {
        from_be(b) - 0x1_0000_0000
    } else {
        from_be(b)
    }
}

/// The text of `n` bytes behind a head of `at` bytes.
pub open spec fn text_behind(b: Seq<u8>, at: int, n: int) -> Option<(Packed, Seq<u8>)> {
    if b.len() < at + n {
        None
    } else {
        Some((Packed::Text(b.subrange(at, at + n)), b.skip(at + n)))
    }
}

/// The value that bytes start with, and what follows it, by the format's
/// rules.
#[verifier::opaque]
pub open spec fn unpack(b: Seq<u8>) -> Option<(Packed, Seq<u8>)> {
    if b.len() == 0 {
        None
    } else if b[0] == 0xc0 {
        Some((Packed::Nil, b.skip(1)))
    } else if 0xa0 <= b[0] <= 0xbf {
        text_behind(b, 1, b[0] - 0xa0)
    } else if b[0] == 0xd9 && b.len() >= 2 {
        text_behind(b, 2, from_be(b.subrange(1, 2)))
    } else if b[0] == 0xda && b.len() >= 3 {
        text_behind(b, 3, from_be(b.subrange(1, 3)))
    } else if b[0] == 0xdb && b.len() >= 5 {
        text_behind(b, 5, from_be(b.subrange(1, 5)))
    } else if b[0] == 0xcb && b.len() >= 9 {
        Some((Packed::Real(from_be(b.subrange(1, 9))), b.skip(9)))
    } else if b[0] == 0xd2 && b.len() >= 5 {
        Some((Packed::Signed(from_be_signed(b.subrange(1, 5))), b.skip(5)))
    } else if b[0] == 0xcf && b.len() >= 9 {
        Some((Packed::Unsigned(from_be(b.subrange(1, 9))), b.skip(9)))
    } else {
        None
    }
}

/// A field: a key and a value.
pub type Field = (Seq<u8>, Packed);

/// The first `n` fields that bytes hold, and what follows them.
#[verifier::opaque]
pub open spec fn unpack_fields(b: Seq<u8>, n: nat) -> Option<(Seq<Field>, Seq<u8>)>
    decreases n,
{
    if n == 0 {
        Some((Seq::<Field>::empty(), b))
    } else {
        match unpack_fields(b, (n - 1) as nat) {
            Some((fields, rest)) => match unpack(rest) {
                Some((Packed::Text(key), rest)) => match unpack(rest) {
                    Some((value, rest)) => Some((fields.push((key, value)), rest)),
                    None => None,
                },
                _ => None,
            },
            None => None,
        }
    }
}

proof fn lemma_chain(a: Seq<u8>, b: Seq<u8>, c: Seq<u8>, d: Seq<u8>, rest: Seq<u8>)
    ensures
        (a + b + c + d) + rest == a + (b + (c + (d + rest))),
        (a + b) + rest == a + (b + rest),
{
    assert((a + b + c + d) + rest =~= a + (b + (c + (d + rest))));
    assert((a + b) + rest =~= a + (b + rest));
}

proof fn lemma_layout(head: u8, c: Seq<u8>, q: Seq<u8>, t: Seq<u8>, d: Seq<u8>)
    ensures
        (seq![head] + c + q + t + d).skip(1) == c + (q + (t + d)),
        (seq![head] + c + q + t + d)[0] == head,
{
    assert((seq![head] + c + q + t + d).skip(1) =~= c + (q + (t + d)));
}

proof fn lemma_spans()
    ensures
        span(1) == 0x100,
        span(2) == 0x1_0000,
        span(4) == 0x1_0000_0000,
        span(8) == 0x1_0000_0000_0000_0000,
{
    reveal_with_fuel(span, 9);
}

proof fn lemma_unpack_str(s: Seq<char>, rest: Seq<u8>)
    requires
        encode_utf8(s).len() < 0x1_0000_0000,
    ensures
        unpack(packed_str(s) + rest) == Some((Packed::Text(encode_utf8(s)), rest)),
{
    reveal(unpack);
    let u = encode_utf8(s);
    let n = u.len() as int;
    let b = packed_str(s) + rest;
    lemma_spans();
    if n <= 31 {
        assert(b.subrange(1, 1 + n) =~= u);
        assert(b.skip(1 + n) =~= rest);
    } else if n <= 255 {
        law_be_bytes_read_back(n, 1);
        assert(b.subrange(1, 2) =~= be_bytes(n, 1));
        assert(b.subrange(2, 2 + n) =~= u);
        assert(b.skip(2 + n) =~= rest);
    } else if n <= 65535 {
        law_be_bytes_read_back(n, 2);
        assert(b.subrange(1, 3) =~= be_bytes(n, 2));
        assert(b.subrange(3, 3 + n) =~= u);
        assert(b.skip(3 + n) =~= rest);
    } else {
        law_be_bytes_read_back(n, 4);
        assert(b.subrange(1, 5) =~= be_bytes(n, 4));
        assert(b.subrange(5, 5 + n) =~= u);
        assert(b.skip(5 + n) =~= rest);
    }
}

proof fn lemma_unpack_key(s: Seq<char>, rest: Seq<u8>)
    requires
        encode_utf8(s).len() <= 31,
    ensures
        unpack(fixstr(s) + rest) == Some((Packed::Text(encode_utf8(s)), rest)),
{
    assert(fixstr(s) =~= packed_str(s));
    lemma_unpack_str(s, rest);
}

proof fn lemma_unpack_f64(d: Double, rest: Seq<u8>)
    ensures
        unpack(packed_f64(d) + rest) == Some((Packed::Real(d.bits as int), rest)),
{
    reveal(unpack);
    lemma_spans();
    law_be_bytes_read_back(d.bits as int, 8);
    let b = packed_f64(d) + rest;
    assert(b.subrange(1, 9) =~= be_bytes(d.bits as int, 8));
    assert(b.skip(9) =~= rest);
}

proof fn lemma_unpack_u64(v: u64, rest: Seq<u8>)
    ensures
        unpack(packed_u64(v) + rest) == Some((Packed::Unsigned(v as int), rest)),
{
    reveal(unpack);
    lemma_spans();
    law_be_bytes_read_back(v as int, 8);
    let b = packed_u64(v) + rest;
    assert(b.subrange(1, 9) =~= be_bytes(v as int, 8));
    assert(b.skip(9) =~= rest);
}

/// What a double or nil reads back as.
pub open spec fn real_value(d: Option<Double>) -> Packed {
    match d {
        Some(d) => Packed::Real(d.bits as int),
        None => Packed::Nil,
    }
}

/// What an integer or nil reads back as.
pub open spec fn signed_value(v: Option<i32>) -> Packed {
    match v {
        Some(v) => Packed::Signed(v as int),
        None => Packed::Nil,
    }
}

proof fn lemma_unpack_opt_f64(d: Option<Double>, rest: Seq<u8>)
    ensures
        unpack(packed_opt_f64(d) + rest) == Some((real_value(d), rest)),
{
    reveal(unpack);
    match d {
        Some(v) => lemma_unpack_f64(v, rest),
        None => {
            assert((packed_opt_f64(d) + rest).skip(1) =~= rest);
        },
    }
}

proof fn lemma_unpack_opt_i32(v: Option<i32>, rest: Seq<u8>)
    ensures
        unpack(packed_opt_i32(v) + rest) == Some((signed_value(v), rest)),
{
    reveal(unpack);
    let b = packed_opt_i32(v) + rest;
    match v {
        Some(n) => {
            lemma_spans();
            let u = if n >= 0 {
                n as int
            } else {
                n + 0x1_0000_0000
            };
            if n < 0 {
                lemma_be_bytes_wrap(n as int);
            }
            law_be_bytes_read_back(u, 4);
            assert(b.subrange(1, 5) =~= be_bytes(u, 4));
            assert(b.skip(5) =~= rest);
        },
        None => {
            assert(b.skip(1) =~= rest);
        },
    }
}

/// One more field is read where it stands next.
proof fn lemma_next_field(b: Seq<u8>, n: nat, fields: Seq<Field>, key: Seq<char>, packed: Seq<u8>, value: Packed, rest: Seq<u8>)
    requires
        unpack_fields(b, n) == Some((fields, (fixstr(key) + packed) + rest)),
        encode_utf8(key).len() <= 31,
        unpack(packed + rest) == Some((value, rest)),
    ensures
        unpack_fields(b, n + 1) == Some((fields.push((encode_utf8(key), value)), rest)),
{
    reveal(unpack_fields);
    lemma_chain(fixstr(key), packed, Seq::<u8>::empty(), Seq::<u8>::empty(), rest);
    lemma_unpack_key(key, packed + rest);
}

/// A depth field is read where it stands next, or is not there.
proof fn lemma_next_depth(b: Seq<u8>, n: nat, fields: Seq<Field>, key: Seq<char>, d: Option<Double>, rest: Seq<u8>)
    requires
        unpack_fields(b, n) == Some((fields, depth_field(key, d) + rest)),
        encode_utf8(key).len() <= 31,
    ensures
        unpack_fields(b, (n + present(d)) as nat) == Some((with_depth(fields, key, d), rest)),
{
    reveal(unpack_fields);
    match d {
        Some(v) => {
            lemma_unpack_f64(v, rest);
            lemma_next_field(b, n, fields, key, packed_f64(v), Packed::Real(v.bits as int), rest);
        },
        None => {
            assert(depth_field(key, d) + rest =~= rest);
        },
    }
}

/// Fields with one more, where it is there.
pub open spec fn with_depth(fields: Seq<Field>, key: Seq<char>, d: Option<Double>) -> Seq<Field> {
    match d {
        Some(v) => fields.push((encode_utf8(key), Packed::Real(v.bits as int))),
        None => fields,
    }
}

/// The ten fields that every tick has.
pub open spec fn common_fields(ev: TickEvent) -> Seq<Field> {
    seq![
        (encode_utf8("type"@), Packed::Text(encode_utf8(ev.ty@))),
        (encode_utf8("strike"@), Packed::Real(ev.strike.bits as int)),
        (encode_utf8("expiry"@), Packed::Text(encode_utf8(ev.expiry@))),
        (encode_utf8("right"@), Packed::Text(encode_utf8(ev.right@))),
        (encode_utf8("bid"@), real_value(ev.bid)),
        (encode_utf8("ask"@), real_value(ev.ask)),
        (encode_utf8("bid_size"@), signed_value(ev.bid_size)),
        (encode_utf8("ask_size"@), signed_value(ev.ask_size)),
        (encode_utf8("ts_ns"@), Packed::Unsigned(ev.ts_ns as int)),
        (encode_utf8("broker_recv_ns"@), Packed::Unsigned(ev.broker_recv_ns as int)),
    ]
}

/// All fields of a tick.
pub open spec fn tick_fields(ev: TickEvent) -> Seq<Field> {
    with_depth(
        with_depth(
            with_depth(
                with_depth(common_fields(ev), "depth_bid_0"@, ev.depth_bid_0),
                "depth_bid_1"@,
                ev.depth_bid_1,
            ),
            "depth_ask_0"@,
            ev.depth_ask_0,
        ),
        "depth_ask_1"@,
        ev.depth_ask_1,
    )
}

proof fn lemma_contract_reads_back(ev: TickEvent, rest: Seq<u8>)
    requires
        encode_utf8(ev.ty@).len() < 0x1_0000_0000,
        encode_utf8(ev.expiry@).len() < 0x1_0000_0000,
        encode_utf8(ev.right@).len() < 0x1_0000_0000,
    ensures
        unpack_fields(contract_fields(ev) + rest, 4) == Some((common_fields(ev).take(4), rest)),
{
    lemma_keys_short();
    let b = contract_fields(ev) + rest;
    let p1 = packed_str(ev.ty@);
    let p2 = packed_f64(ev.strike);
    let p3 = packed_str(ev.expiry@);
    let p4 = packed_str(ev.right@);
    let r4 = rest;
    let r3 = (fixstr("right"@) + p4) + r4;
    let r2 = (fixstr("expiry"@) + p3) + r3;
    let r1 = (fixstr("strike"@) + p2) + r2;
    lemma_chain(
        fixstr("type"@) + p1,
        fixstr("strike"@) + p2,
        fixstr("expiry"@) + p3,
        fixstr("right"@) + p4,
        rest,
    );
    assert(unpack_fields(b, 0) == Some((Seq::<Field>::empty(), b))) by {
        reveal(unpack_fields);
    }
    let f0 = Seq::<Field>::empty();
    lemma_unpack_str(ev.ty@, r1);
    lemma_next_field(b, 0, f0, "type"@, p1, Packed::Text(encode_utf8(ev.ty@)), r1);
    let f1 = f0.push((encode_utf8("type"@), Packed::Text(encode_utf8(ev.ty@))));
    lemma_unpack_f64(ev.strike, r2);
    lemma_next_field(b, 1, f1, "strike"@, p2, Packed::Real(ev.strike.bits as int), r2);
    let f2 = f1.push((encode_utf8("strike"@), Packed::Real(ev.strike.bits as int)));
    lemma_unpack_str(ev.expiry@, r3);
    lemma_next_field(b, 2, f2, "expiry"@, p3, Packed::Text(encode_utf8(ev.expiry@)), r3);
    let f3 = f2.push((encode_utf8("expiry"@), Packed::Text(encode_utf8(ev.expiry@))));
    lemma_unpack_str(ev.right@, r4);
    lemma_next_field(b, 3, f3, "right"@, p4, Packed::Text(encode_utf8(ev.right@)), r4);
    let f4 = f3.push((encode_utf8("right"@), Packed::Text(encode_utf8(ev.right@))));
    assert(f4 =~= common_fields(ev).take(4));
}

proof fn lemma_quotes_read_back(ev: TickEvent, b: Seq<u8>, rest: Seq<u8>)
    requires
        unpack_fields(b, 4) == Some((common_fields(ev).take(4), quote_fields(ev) + rest)),
    ensures
        unpack_fields(b, 8) == Some((common_fields(ev).take(8), rest)),
{
    lemma_keys_short();
    let p1 = packed_opt_f64(ev.bid);
    let p2 = packed_opt_f64(ev.ask);
    let p3 = packed_opt_i32(ev.bid_size);
    let p4 = packed_opt_i32(ev.ask_size);
    let r4 = rest;
    let r3 = (fixstr("ask_size"@) + p4) + r4;
    let r2 = (fixstr("bid_size"@) + p3) + r3;
    let r1 = (fixstr("ask"@) + p2) + r2;
    lemma_chain(
        fixstr("bid"@) + p1,
        fixstr("ask"@) + p2,
        fixstr("bid_size"@) + p3,
        fixstr("ask_size"@) + p4,
        rest,
    );
    let f0 = common_fields(ev).take(4);
    lemma_unpack_opt_f64(ev.bid, r1);
    lemma_next_field(b, 4, f0, "bid"@, p1, real_value(ev.bid), r1);
    let f1 = f0.push((encode_utf8("bid"@), real_value(ev.bid)));
    lemma_unpack_opt_f64(ev.ask, r2);
    lemma_next_field(b, 5, f1, "ask"@, p2, real_value(ev.ask), r2);
    let f2 = f1.push((encode_utf8("ask"@), real_value(ev.ask)));
    lemma_unpack_opt_i32(ev.bid_size, r3);
    lemma_next_field(b, 6, f2, "bid_size"@, p3, signed_value(ev.bid_size), r3);
    let f3 = f2.push((encode_utf8("bid_size"@), signed_value(ev.bid_size)));
    lemma_unpack_opt_i32(ev.ask_size, r4);
    lemma_next_field(b, 7, f3, "ask_size"@, p4, signed_value(ev.ask_size), r4);
    let f4 = f3.push((encode_utf8("ask_size"@), signed_value(ev.ask_size)));
    assert(f4 =~= common_fields(ev).take(8));
}

proof fn lemma_times_read_back(ev: TickEvent, b: Seq<u8>, rest: Seq<u8>)
    requires
        unpack_fields(b, 8) == Some((common_fields(ev).take(8), time_fields(ev) + rest)),
    ensures
        unpack_fields(b, 10) == Some((common_fields(ev), rest)),
{
    lemma_keys_short();
    let p1 = packed_u64(ev.ts_ns);
    let p2 = packed_u64(ev.broker_recv_ns);
    let r1 = (fixstr("broker_recv_ns"@) + p2) + rest;
    let none = Seq::<u8>::empty();
    lemma_chain(fixstr("ts_ns"@) + p1, fixstr("broker_recv_ns"@) + p2, none, none, rest);
    let f0 = common_fields(ev).take(8);
    lemma_unpack_u64(ev.ts_ns, r1);
    lemma_next_field(b, 8, f0, "ts_ns"@, p1, Packed::Unsigned(ev.ts_ns as int), r1);
    let f1 = f0.push((encode_utf8("ts_ns"@), Packed::Unsigned(ev.ts_ns as int)));
    lemma_unpack_u64(ev.broker_recv_ns, rest);
    lemma_next_field(b, 9, f1, "broker_recv_ns"@, p2, Packed::Unsigned(ev.broker_recv_ns as int), rest);
    let f2 = f1.push((encode_utf8("broker_recv_ns"@), Packed::Unsigned(ev.broker_recv_ns as int)));
    assert(f2 =~= common_fields(ev));
}

/// A reader of the format gets every field of a tick back, and nothing else:
/// behind the head, which tells their number, stand the tick's fields. Texts
/// are shorter than four gigabytes.
pub proof fn law_tick_reads_back(ev: TickEvent)
    requires
        encode_utf8(ev.ty@).len() < 0x1_0000_0000,
        encode_utf8(ev.expiry@).len() < 0x1_0000_0000,
        encode_utf8(ev.right@).len() < 0x1_0000_0000,
    ensures
        tick_bytes(ev)[0] == 0x80 + tick_fields(ev).len(),
        unpack_fields(tick_bytes(ev).skip(1), tick_fields(ev).len()) == Some((tick_fields(ev), Seq::<u8>::empty())),
{
    lemma_layout(
        (0x80 + tick_fields(ev).len()) as u8,
        contract_fields(ev),
        quote_fields(ev),
        time_fields(ev),
        depth_fields(ev),
    );
    lemma_field_count(ev);
    let b = tick_bytes(ev).skip(1);
    let times = time_fields(ev) + depth_fields(ev);
    lemma_contract_reads_back(ev, quote_fields(ev) + times);
    lemma_quotes_read_back(ev, b, times);
    lemma_times_read_back(ev, b, depth_fields(ev));
    lemma_depth_reads_back(ev, b);
}

proof fn lemma_field_count(ev: TickEvent)
    ensures
        tick_fields(ev).len() == 10 + present(ev.depth_bid_0) + present(ev.depth_bid_1) + present(ev.depth_ask_0)
            + present(ev.depth_ask_1),
{
    let f0 = common_fields(ev);
    assert(f0.len() == 10);
    let f1 = with_depth(f0, "depth_bid_0"@, ev.depth_bid_0);
    assert(f1.len() == 10 + present(ev.depth_bid_0));
    let f2 = with_depth(f1, "depth_bid_1"@, ev.depth_bid_1);
    assert(f2.len() == f1.len() + present(ev.depth_bid_1));
    let f3 = with_depth(f2, "depth_ask_0"@, ev.depth_ask_0);
    assert(f3.len() == f2.len() + present(ev.depth_ask_0));
}

proof fn lemma_depth_reads_back(ev: TickEvent, b: Seq<u8>)
    requires
        unpack_fields(b, 10) == Some((common_fields(ev), depth_fields(ev))),
    ensures
        unpack_fields(b, tick_fields(ev).len()) == Some((tick_fields(ev), Seq::<u8>::empty())),
{
    lemma_keys_short();
    lemma_field_count(ev);
    let d4 = Seq::<u8>::empty();
    let d3 = depth_field("depth_ask_1"@, ev.depth_ask_1) + d4;
    let d2 = depth_field("depth_ask_0"@, ev.depth_ask_0) + d3;
    let d1 = depth_field("depth_bid_1"@, ev.depth_bid_1) + d2;
    lemma_chain(
        depth_field("depth_bid_0"@, ev.depth_bid_0),
        depth_field("depth_bid_1"@, ev.depth_bid_1),
        depth_field("depth_ask_0"@, ev.depth_ask_0),
        depth_field("depth_ask_1"@, ev.depth_ask_1),
        d4,
    );
    assert(depth_fields(ev) + d4 =~= depth_fields(ev));
    let f0 = common_fields(ev);
    let n1 = (10 + present(ev.depth_bid_0)) as nat;
    let n2 = (n1 + present(ev.depth_bid_1)) as nat;
    let n3 = (n2 + present(ev.depth_ask_0)) as nat;
    lemma_next_depth(b, 10, f0, "depth_bid_0"@, ev.depth_bid_0, d1);
    let f1 = with_depth(f0, "depth_bid_0"@, ev.depth_bid_0);
    lemma_next_depth(b, n1, f1, "depth_bid_1"@, ev.depth_bid_1, d2);
    let f2 = with_depth(f1, "depth_bid_1"@, ev.depth_bid_1);
    lemma_next_depth(b, n2, f2, "depth_ask_0"@, ev.depth_ask_0, d3);
    let f3 = with_depth(f2, "depth_ask_0"@, ev.depth_ask_0);
    lemma_next_depth(b, n3, f3, "depth_ask_1"@, ev.depth_ask_1, d4);
}

} // verus!
