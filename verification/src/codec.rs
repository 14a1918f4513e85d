//! The gateway's wire format.
//!
//! A message is a 4-byte big-endian length and a payload. The payload is a
//! run of fields, each a UTF-8 text ended by a zero byte. Integers travel in
//! decimal, booleans as `0` and `1`, unset values as the empty text.

use crate::text::{i64_text, int_text};
use vstd::prelude::*;
use vstd::string::*;
use vstd::utf8::*;

verus! {

/// The payload that holds these fields.
pub open spec fn payload(fields: Seq<Seq<char>>) -> Seq<u8>
    decreases fields.len(),
{
    if fields.len() == 0 {
        Seq::<u8>::empty()
    } else {
        payload(fields.drop_last()) + encode_utf8(fields.last()) + seq![0u8]
    }
}

/// The four bytes of `n`, highest first.
pub open spec fn be32(n: int) -> Seq<u8> {
    seq![
        ((n / 0x100_0000) % 0x100) as u8,
        ((n / 0x1_0000) % 0x100) as u8,
        ((n / 0x100) % 0x100) as u8,
        (n % 0x100) as u8,
    ]
}

/// The number that four bytes hold, highest first.
pub open spec fn from_be32(b: Seq<u8>) -> int {
    b[0] * 0x100_0000 + b[1] * 0x1_0000 + b[2] * 0x100 + b[3]
}

/// A payload behind its length, which is taken modulo 2^32.
pub open spec fn framed(payload: Seq<u8>) -> Seq<u8> {
    be32(payload.len() as int) + payload
}

/// The message that holds these fields.
pub open spec fn frame_of(fields: Seq<Seq<char>>) -> Seq<u8> {
    framed(payload(fields))
}

/// The characters of each string.
pub open spec fn texts(fields: Seq<String>) -> Seq<Seq<char>> {
    fields.map_values(|s: String| s@)
}

/// A boolean on the wire.
pub open spec fn bool_text(b: bool) -> Seq<char> {
    if b {
        "1"@
    } else {
        "0"@
    }
}

/// Adding a field at the end adds its text and a zero byte at the end.
pub proof fn lemma_payload_push(fields: Seq<Seq<char>>, f: Seq<char>)
    ensures
        payload(fields.push(f)) == payload(fields) + encode_utf8(f) + seq![0u8],
{
    assert(fields.push(f).drop_last() =~= fields);
}

/// The payload of two runs of fields is the one behind the other.
pub proof fn lemma_payload_concat(a: Seq<Seq<char>>, b: Seq<Seq<char>>)
    ensures
        payload(a + b) == payload(a) + payload(b),
    decreases b.len(),
{
    if b.len() == 0 {
        assert(a + b =~= a);
        assert(payload(a) + payload(b) =~= payload(a));
    } else {
        lemma_payload_concat(a, b.drop_last());
        assert((a + b).drop_last() =~= a + b.drop_last());
        assert((a + b).last() == b.last());
        assert(payload(a + b) =~= payload(a) + payload(b));
    }
}

/// An integer field.
pub fn encode_int(v: i32) -> (r: String)
    ensures
        r@ == int_text(v as int),
{
    i64_text(v as i64)
}

/// A 64-bit integer field.
pub fn encode_int64(v: i64) -> (r: String)
    ensures
        r@ == int_text(v as int),
{
    i64_text(v)
}

/// A boolean field.
pub fn encode_bool(b: bool) -> (r: String)
    ensures
        r@ == bool_text(b),
{
    if b {
        "1".to_owned()
    } else {
        "0".to_owned()
    }
}

/// Appends one field: its bytes and a zero byte.
pub fn push_field(buf: &mut Vec<u8>, field: &str)
    ensures
        final(buf)@ == old(buf)@ + encode_utf8(field@) + seq![0u8],
{
    buf.extend_from_slice(field.as_bytes());
    buf.push(0);
    assert(buf@ =~= old(buf)@ + encode_utf8(field@) + seq![0u8]);
}

/// The four bytes of a length, highest first.
fn length_prefix(n: usize) -> (r: Vec<u8>)
    ensures
        r@ == be32(n as int),
{
    let a: u8 = ((n / 0x100_0000) % 0x100) as u8;
    let b: u8 = ((n / 0x1_0000) % 0x100) as u8;
    let c: u8 = ((n / 0x100) % 0x100) as u8;
    let d: u8 = (n % 0x100) as u8;
    let mut v: Vec<u8> = Vec::new();
    v.push(a);
    v.push(b);
    v.push(c);
    v.push(d);
    assert(v@ =~= be32(n as int));
    v
}

/// Puts a payload behind its length.
pub fn frame_payload(payload: &Vec<u8>) -> (r: Vec<u8>)
    ensures
        r@ == framed(payload@),
{
    let mut out = length_prefix(payload.len());
    out.extend_from_slice(payload.as_slice());
    assert(out@ =~= framed(payload@));
    out
}

/// The payload of the given fields.
pub fn encode_payload(fields: &Vec<String>) -> (r: Vec<u8>)
    ensures
        r@ == payload(texts(fields@)),
{
    let mut out: Vec<u8> = Vec::new();
    let mut i: usize = 0;
    while i < fields.len()
        invariant
            i <= fields.len(),
            out@ == payload(texts(fields@).take(i as int)),
        decreases fields.len() - i,
    {
        push_field(&mut out, fields[i].as_str());
        proof {
            lemma_payload_push(texts(fields@).take(i as int), fields@[i as int]@);
            assert(texts(fields@).take(i + 1) =~= texts(fields@).take(i as int).push(fields@[i as int]@));
        }
        i = i + 1;
    }
    assert(texts(fields@).take(i as int) =~= texts(fields@));
    out
}

/// The message that holds the given fields.
pub fn encode_owned(fields: &Vec<String>) -> (r: Vec<u8>)
    ensures
        r@ == frame_of(texts(fields@)),
{
    let body = encode_payload(fields);
    frame_payload(&body)
}

/// A frame's length stands before it in four bytes, the most significant
/// first.
pub proof fn law_length_is_big_endian(n: int)
    requires
        0 <= n < 0x1_0000_0000,
    ensures
        be32(n).len() == 4,
        be32(n)[0] * 16777216 + be32(n)[1] * 65536 + be32(n)[2] * 256 + be32(n)[3] == n,
        from_be32(be32(n)) == n,
{
    let a = n / 256;
    let b = a / 256;
    let c = b / 256;
    assert(n / 0x1_0000 == b);
    assert(n / 0x100_0000 == c);
}

/// What goes out is the length of the fields' bytes and then those bytes, and
/// each field ends with a zero byte.
pub proof fn law_frames_hold_their_fields(fields: Seq<Seq<char>>, f: Seq<char>)
    requires
        payload(fields).len() < 0x1_0000_0000,
    ensures
        frame_of(fields).len() == 4 + payload(fields).len(),
        from_be32(frame_of(fields).take(4)) == payload(fields).len(),
        frame_of(fields).skip(4) == payload(fields),
        payload(fields.push(f)).last() == 0,
        payload(fields.push(f)).drop_last() == payload(fields) + encode_utf8(f),
        payload(Seq::empty()).len() == 0,
{
    law_length_is_big_endian(payload(fields).len() as int);
    assert(frame_of(fields).take(4) =~= be32(payload(fields).len() as int));
    assert(frame_of(fields).skip(4) =~= payload(fields));
    lemma_payload_push(fields, f);
    assert(payload(fields.push(f)).drop_last() =~= payload(fields) + encode_utf8(f));
}

/// Yes is one and no is zero.
pub proof fn law_flags_are_digits(b: bool)
    ensures
        b <==> bool_text(b) == "1"@,
        !b <==> bool_text(b) == "0"@,
{
    reveal_strlit("1");
    reveal_strlit("0");
    assert("1"@[0] != "0"@[0]);
}

} // verus!
