//! Specification of the SIBOR wire format.
//!
//! The spec functions here define, at the mathematical level, what each wire
//! shape looks like as a byte sequence and what a decoder extracts from one.
//! The executable encoder and decoder are specified against these functions,
//! and the lemmas at the bottom prove the round-trip properties of the format.

use vstd::prelude::*;

use vstd::arithmetic::power2::lemma2_to64;
use vstd::bits::lemma_u64_shl_is_mul;
use vstd::utf8::decode_utf8;
use vstd::utf8::encode_utf8;
use vstd::utf8::encode_utf8_decode_utf8;
use vstd::utf8::encode_utf8_valid_utf8;
use vstd::utf8::valid_utf8;

verus! {

/// The unsigned value a signed integer is mapped to before varint encoding.
///
/// Non-negative `v` maps to `2 * v`; negative `v` maps to `-2 * v - 1`, so
/// small magnitudes stay small in the unsigned varint encoding.
pub open spec fn zigzag_of(v: i64) -> u64 {
    if v < 0 {
        !((v as u64) << 1u64)
    } else {
        (v as u64) << 1u64
    }
}

/// The inverse of the zigzag mapping.
pub open spec fn unzigzag_of(u: u64) -> i64 {
    if u & 1 == 1 {
        !((u >> 1u64) as i64)
    } else {
        (u >> 1u64) as i64
    }
}

/// The base-128 little-endian variable-length encoding of an unsigned value.
///
/// Each byte holds 7 data bits in its low bits; the high bit is a
/// continuation flag. The encoding of 0 is the single byte `0x00`.
pub open spec fn uvarint_bytes(v: u64) -> Seq<u8>
    decreases v,
    via uvarint_bytes_decreases
{
    if v < 0x80 {
        seq![v as u8]
    } else {
        seq![((v & 0x7f) | 0x80) as u8] + uvarint_bytes(v >> 7u64)
    }
}

#[via_fn]
proof fn uvarint_bytes_decreases(v: u64) {
    assert(v >= 0x80 ==> (v >> 7u64) < v) by (bit_vector);
}

/// How many bytes a varint decode consumes from `s`, scanning at most `max`
/// bytes: `Some(n)` when the byte without the continuation bit is found at
/// index `n - 1`, `None` when the scan runs off the end of `s` or past `max`
/// bytes without finding it.
pub open spec fn uvarint_size_rec(s: Seq<u8>, max: int) -> Option<int>
    decreases max,
{
    if max <= 0 || s.len() == 0 {
        None
    } else if s[0] < 0x80 {
        Some(1)
    } else {
        match uvarint_size_rec(s.drop_first(), max - 1) {
            Some(n) => Some(n + 1),
            None => None,
        }
    }
}

/// How many bytes a varint decode consumes from the front of `s`.
///
/// A varint is at most 10 bytes: `None` with `s.len() >= 10` means the
/// encoding is invalid, `None` with `s.len() < 10` means the input ran out.
pub open spec fn uvarint_size(s: Seq<u8>) -> Option<int> {
    uvarint_size_rec(s, 10)
}

/// The value carried by the first `n` bytes of `s`, each contributing its low
/// 7 bits, least significant group first. Accumulation is into a 64-bit
/// value, so bits beyond the 64th are discarded, as the decoder does.
pub open spec fn uvarint_value(s: Seq<u8>, n: int) -> u64
    decreases n,
{
    if n <= 0 || s.len() == 0 {
        0
    } else {
        ((s[0] & 0x7f) as u64) | (uvarint_value(s.drop_first(), n - 1) << 7u64)
    }
}

/// The wire encoding of a byte string: varint length prefix, then the bytes.
pub open spec fn byte_string_bytes(b: Seq<u8>) -> Seq<u8> {
    uvarint_bytes(b.len() as u64) + b
}

/// The wire encoding of a boolean: exactly one byte, `0x00` or `0x01`.
pub open spec fn bool_bytes(v: bool) -> Seq<u8> {
    if v {
        seq![1u8]
    } else {
        seq![0u8]
    }
}

/// The decimal digit characters of `v`, most significant first.
pub open spec fn dec_str(v: u64) -> Seq<char>
    decreases v,
{
    if v < 10 {
        seq![dec_digit(v)]
    } else {
        dec_str((v / 10) as u64).push(dec_digit((v % 10) as u64))
    }
}

/// The character for a single decimal digit.
pub open spec fn dec_digit(d: u64) -> char {
    ((0x30 + (d % 10)) as u8) as char
}

/// A varint encoding is between 1 and 10 bytes long, and exactly 1 byte
/// for the values below `0x80`.
pub proof fn lemma_uvarint_bytes_len(v: u64)
    ensures
        1 <= uvarint_bytes(v).len(),
        uvarint_bytes(v).len() <= 10,
        (v < 0x80) == (uvarint_bytes(v).len() == 1),
{
    let v1 = v >> 7u64;
    let v2 = v1 >> 7u64;
    let v3 = v2 >> 7u64;
    let v4 = v3 >> 7u64;
    let v5 = v4 >> 7u64;
    let v6 = v5 >> 7u64;
    let v7 = v6 >> 7u64;
    let v8 = v7 >> 7u64;
    let v9 = v8 >> 7u64;
    assert(v9 < 0x80) by (bit_vector)
        requires
            v1 == v >> 7u64,
            v2 == v1 >> 7u64,
            v3 == v2 >> 7u64,
            v4 == v3 >> 7u64,
            v5 == v4 >> 7u64,
            v6 == v5 >> 7u64,
            v7 == v6 >> 7u64,
            v8 == v7 >> 7u64,
            v9 == v8 >> 7u64,
    ;
    assert(uvarint_bytes(v9).len() == 1);
    assert(uvarint_bytes(v8).len() <= 2);
    assert(uvarint_bytes(v7).len() <= 3);
    assert(uvarint_bytes(v6).len() <= 4);
    assert(uvarint_bytes(v5).len() <= 5);
    assert(uvarint_bytes(v4).len() <= 6);
    assert(uvarint_bytes(v3).len() <= 7);
    assert(uvarint_bytes(v2).len() <= 8);
    assert(uvarint_bytes(v1).len() <= 9);
    assert(uvarint_bytes(v).len() <= 10);
    assert(uvarint_bytes(v1).len() >= 1);
    assert(uvarint_bytes(v).len() >= 1);
}

proof fn lemma_uvarint_round_trip_rec(v: u64, rest: Seq<u8>, max: int)
    requires
        uvarint_bytes(v).len() <= max,
    ensures
        uvarint_size_rec(uvarint_bytes(v) + rest, max) == Some(uvarint_bytes(v).len() as int),
        uvarint_value(uvarint_bytes(v) + rest, uvarint_bytes(v).len() as int) == v,
    decreases v,
{
    let s = uvarint_bytes(v) + rest;
    lemma_uvarint_bytes_len(v);
    if v < 0x80 {
        assert(uvarint_bytes(v) == seq![v as u8]);
        assert(s[0] == v as u8);
        assert(uvarint_value(s.drop_first(), 0) == 0);
        assert((((v as u8) & 0x7f) as u64) | (0u64 << 7u64) == v) by (bit_vector)
            requires
                v < 0x80,
        ;
    } else {
        let b0: u8 = ((v & 0x7f) | 0x80) as u8;
        let tail = uvarint_bytes(v >> 7u64);
        assert(uvarint_bytes(v) == seq![b0] + tail);
        assert(s.drop_first() =~= tail + rest);
        assert(s[0] == b0);
        assert(b0 >= 0x80) by (bit_vector)
            requires
                b0 == ((v & 0x7f) | 0x80) as u8,
        ;
        assert(v >> 7u64 < v) by (bit_vector)
            requires
                v >= 0x80,
        ;
        lemma_uvarint_round_trip_rec(v >> 7u64, rest, max - 1);
        assert(uvarint_size_rec(s, max) == Some(uvarint_bytes(v).len() as int));
        assert(((b0 & 0x7f) as u64) | ((v >> 7u64) << 7u64) == v) by (bit_vector)
            requires
                b0 == ((v & 0x7f) | 0x80) as u8,
        ;
    }
}

/// Round trip of the varint codec: decoding a byte sequence that starts with
/// the encoding of `v` consumes exactly that encoding, whatever follows it,
/// and yields `v` back. The ordinal of a tagged union and the count of a
/// dynamic sequence are plain varints, so this also covers their framing in
/// front of a payload.
pub proof fn lemma_uvarint_round_trip(v: u64, rest: Seq<u8>)
    ensures
        uvarint_size(uvarint_bytes(v) + rest) == Some(uvarint_bytes(v).len() as int),
        uvarint_value(uvarint_bytes(v) + rest, uvarint_bytes(v).len() as int) == v,
        (uvarint_bytes(v) + rest).skip(uvarint_bytes(v).len() as int) == rest,
{
    lemma_uvarint_bytes_len(v);
    lemma_uvarint_round_trip_rec(v, rest, 10);
    assert((uvarint_bytes(v) + rest).skip(uvarint_bytes(v).len() as int) =~= rest);
}

/// Reading one more byte adds its 7 data bits above the ones already read.
pub(crate) proof fn lemma_uvarint_value_extend(s: Seq<u8>, i: int)
    requires
        0 <= i <= 9,
        i < s.len(),
    ensures
        uvarint_value(s, i + 1) == uvarint_value(s, i) | (((s[i] & 0x7f) as u64) << ((7 * i)
            as u64)),
    decreases i,
{
    if i == 0 {
        assert(uvarint_value(s.drop_first(), 0) == 0);
        assert(uvarint_value(s, 0) == 0);
        let c = (s[0] & 0x7f) as u64;
        assert(c | (0u64 << 7u64) == 0u64 | (c << 0u64)) by (bit_vector);
    } else {
        let d = s.drop_first();
        assert(d[i - 1] == s[i]);
        lemma_uvarint_value_extend(d, i - 1);
        let a = uvarint_value(d, i - 1);
        let c = (s[i] & 0x7f) as u64;
        let m = (7 * (i - 1)) as u64;
        let x = (s[0] & 0x7f) as u64;
        assert(x | ((a | (c << m)) << 7u64) == (x | (a << 7u64)) | (c << ((m + 7) as u64)))
            by (bit_vector)
            requires
                m <= 56u64,
        ;
        assert((7 * i) as u64 == m + 7);
    }
}

/// When the first byte without the continuation bit stands at index `i`,
/// the decoder consumes exactly `i + 1` bytes.
pub(crate) proof fn lemma_uvarint_size_found(s: Seq<u8>, i: int, max: int)
    requires
        0 <= i < max,
        i < s.len(),
        s[i] < 0x80,
        forall|j: int| 0 <= j < i ==> s[j] >= 0x80,
    ensures
        uvarint_size_rec(s, max) == Some(i + 1),
    decreases i,
{
    if i > 0 {
        assert(s[0] >= 0x80);
        let d = s.drop_first();
        assert forall|j: int| 0 <= j < i - 1 implies d[j] >= 0x80 by {
            assert(d[j] == s[j + 1]);
        }
        assert(d[i - 1] == s[i]);
        lemma_uvarint_size_found(d, i - 1, max - 1);
    }
}

/// When every byte the scan may look at has the continuation bit set, the
/// decoder finds no end to consume.
pub(crate) proof fn lemma_uvarint_size_none(s: Seq<u8>, max: int)
    requires
        forall|j: int| 0 <= j < max && j < s.len() ==> s[j] >= 0x80,
    ensures
        uvarint_size_rec(s, max) is None,
    decreases max,
{
    if max <= 0 || s.len() == 0 {
    } else {
        assert(s[0] >= 0x80);
        let d = s.drop_first();
        assert forall|j: int| 0 <= j < max - 1 && j < d.len() implies d[j] >= 0x80 by {
            assert(d[j] == s[j + 1]);
        }
        lemma_uvarint_size_none(d, max - 1);
    }
}

/// Round trip of the zigzag mapping: the inverse mapping undoes it, for
/// every signed 64-bit value.
pub proof fn lemma_zigzag_round_trip(v: i64)
    ensures
        unzigzag_of(zigzag_of(v)) == v,
{
    assert(unzigzag_of(zigzag_of(v)) == v) by (bit_vector);
}

/// The zigzag mapping in closed form: a non-negative value `v` maps to
/// `2 * v`, a negative one to `-2 * v - 1`, so consecutive unsigned values
/// alternate between the non-negative and negative signed values of half
/// their magnitude.
pub proof fn lemma_zigzag_magnitude(v: i64)
    ensures
        v >= 0 ==> zigzag_of(v) == 2 * (v as int),
        v < 0 ==> zigzag_of(v) == -2 * (v as int) - 1,
{
    let w = v as u64;
    lemma2_to64();
    if v >= 0 {
        assert(w == v as int);
        lemma_u64_shl_is_mul(w, 1);
    } else {
        assert(w == v + 0x10000000000000000) by (bit_vector)
            requires
                w == v as u64,
                v < 0,
        ;
        assert(w >= 0x8000000000000000 ==> (w << 1u64) == 2 * w - 0x10000000000000000)
            by (bit_vector);
        let y = w << 1u64;
        assert(!y == 0xffffffffffffffffu64 - y) by (bit_vector);
    }
}

/// Round trip of the signed integer codec: decoding a byte sequence that
/// starts with the encoding of the signed value `v` consumes exactly that
/// encoding and yields `v` back through the inverse zigzag mapping.
pub proof fn lemma_ivarint_round_trip(v: i64, rest: Seq<u8>)
    ensures
        ({
            let enc = uvarint_bytes(zigzag_of(v));
            &&& uvarint_size(enc + rest) == Some(enc.len() as int)
            &&& unzigzag_of(uvarint_value(enc + rest, enc.len() as int)) == v
            &&& (enc + rest).skip(enc.len() as int) == rest
        }),
{
    lemma_uvarint_round_trip(zigzag_of(v), rest);
    lemma_zigzag_round_trip(v);
}

/// Round trip of the boolean codec: the encoding of a boolean is one byte,
/// decoded back to the same value, whatever follows it.
pub proof fn lemma_bool_round_trip(v: bool, rest: Seq<u8>)
    ensures
        ({
            let s = bool_bytes(v) + rest;
            &&& bool_bytes(v).len() == 1
            &&& s.len() >= 1
            &&& (s[0] == 1) == v
            &&& (s[0] == 0) == !v
            &&& s.skip(1) == rest
        }),
{
    let s = bool_bytes(v) + rest;
    assert(s.skip(1) =~= rest);
}

/// Round trip of the byte string codec: decoding a byte sequence that
/// starts with the encoding of the byte string `b` finds exactly `b`'s
/// length in the varint prefix, then `b` itself, then whatever follows.
pub proof fn lemma_byte_string_round_trip(b: Seq<u8>, rest: Seq<u8>)
    requires
        b.len() <= u64::MAX,
    ensures
        ({
            let s = byte_string_bytes(b) + rest;
            let n = uvarint_bytes(b.len() as u64).len() as int;
            &&& uvarint_size(s) == Some(n)
            &&& uvarint_value(s, n) == b.len() as u64
            &&& s.skip(n).take(b.len() as int) == b
            &&& s.skip(n).skip(b.len() as int) == rest
        }),
{
    let s = byte_string_bytes(b) + rest;
    let n = uvarint_bytes(b.len() as u64).len() as int;
    assert(s =~= uvarint_bytes(b.len() as u64) + (b + rest));
    lemma_uvarint_round_trip(b.len() as u64, b + rest);
    assert(s.skip(n) =~= b + rest);
    assert(s.skip(n).take(b.len() as int) =~= b);
    assert(s.skip(n).skip(b.len() as int) =~= rest);
}

/// Round trip of the string codec: the encoding of a string is the byte
/// string of its UTF-8 bytes, and decoding those bytes yields the same
/// characters back, whatever follows them.
pub proof fn lemma_string_round_trip(t: Seq<char>, rest: Seq<u8>)
    requires
        encode_utf8(t).len() <= u64::MAX,
    ensures
        ({
            let b = encode_utf8(t);
            let s = byte_string_bytes(b) + rest;
            let n = uvarint_bytes(b.len() as u64).len() as int;
            &&& uvarint_size(s) == Some(n)
            &&& uvarint_value(s, n) == b.len() as u64
            &&& s.skip(n).take(b.len() as int) == b
            &&& valid_utf8(b)
            &&& decode_utf8(b) == t
            &&& s.skip(n).skip(b.len() as int) == rest
        }),
{
    lemma_byte_string_round_trip(encode_utf8(t), rest);
    encode_utf8_valid_utf8(t);
    encode_utf8_decode_utf8(t);
}

} // verus!

