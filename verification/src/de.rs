//! The streaming decoder: reads SIBOR-encoded values from a byte source.

use vstd::prelude::*;

use vstd::utf8::decode_utf8;
use vstd::utf8::encode_utf8;
use vstd::utf8::encode_utf8_decode_utf8;
use vstd::utf8::valid_utf8;

use crate::error::Error;
use crate::error::is_invalid;
use crate::wire::dec_str;
use crate::wire::lemma_uvarint_size_found;
use crate::wire::lemma_uvarint_size_none;
use crate::wire::lemma_uvarint_value_extend;
use crate::wire::unzigzag_of;
use crate::wire::uvarint_size;
use crate::wire::uvarint_value;

verus! {

/// A deserializer that reads values from a byte source.
///
/// The view of a deserializer is the sequence of bytes not yet consumed;
/// every read states exactly which prefix of it is consumed.
pub struct Deserializer {
    reader: Vec<u8>,
    pos: usize,
}

impl View for Deserializer {
    type V = Seq<u8>;

    closed spec fn view(&self) -> Seq<u8> {
        self.reader@.skip(self.pos as int)
    }
}

impl Deserializer {
    /// The reading position never runs past the end of the source.
    pub closed spec fn wf(&self) -> bool {
        self.pos <= self.reader@.len()
    }

    /// Create a new deserializer from the given byte source.
    pub fn new(reader: Vec<u8>) -> (d: Deserializer)
        ensures
            d.wf(),
            d@ == reader@,
    {
        Deserializer { reader, pos: 0 }
    }

    /// Read exactly `n` bytes from the source; fail without consuming
    /// anything when fewer than `n` bytes remain.
    pub fn read_exact(&mut self, n: usize) -> (r: Result<Vec<u8>, Error>)
        requires
            old(self).wf(),
        ensures
            final(self).wf(),
            n <= old(self)@.len() ==> (r matches Ok(b) && b@ == old(self)@.take(n as int)
                && final(self)@ == old(self)@.skip(n as int)),
            n > old(self)@.len() ==> (r matches Err(e) && e is Io && final(self)@ == old(self)@),
    {
        if n > self.reader.len() - self.pos {
            return Err(Error::Io("unexpected end of input".to_owned()));
        }
        let end = self.reader.len();
        let mut out: Vec<u8> = Vec::new();
        let mut i: usize = 0;
        while i < n
            invariant
                i <= n,
                self.wf(),
                self == old(self),
                end == self.reader@.len(),
                self.pos + n <= end,
                out@ == self@.take(i as int),
            decreases n - i,
        {
            out.push(self.reader[self.pos + i]);
            i = i + 1;
            proof {
                assert(out@ =~= self@.take(i as int));
            }
        }
        self.pos = self.pos + n;
        Ok(out)
    }

    /// Read an unsigned 64-bit integer from the stream, decoding the
    /// variable-length encoding: 7 data bits per byte, least significant
    /// group first, until a byte without the continuation bit, at most 10
    /// bytes in.
    pub fn read_uvarint(&mut self) -> (r: Result<u64, Error>)
        requires
            old(self).wf(),
        ensures
            final(self).wf(),
            ({
                let s0 = old(self)@;
                match uvarint_size(s0) {
                    Some(n) => r matches Ok(v) && v == uvarint_value(s0, n) && final(self)@
                        == s0.skip(n),
                    None => r matches Err(e) && (if s0.len() >= 10 {
                        is_invalid(e, "variable integer encoding"@) && final(self)@ == s0.skip(10)
                    } else {
                        e is Io && final(self)@.len() == 0
                    }),
                }
            }),
    {
        let ghost s0 = self@;
        let mut v: u64 = 0;
        let mut i: u64 = 0;
        while i < 10
            invariant
                self.wf(),
                s0 == old(self)@,
                i <= 10,
                i <= s0.len(),
                self@ == s0.skip(i as int),
                forall|j: int| 0 <= j < i ==> s0[j] >= 0x80,
                v == uvarint_value(s0, i as int),
            decreases 10 - i,
        {
            let b = match self.read_u8() {
                Ok(b) => b,
                Err(e) => {
                    proof {
                        lemma_uvarint_size_none(s0, 10);
                    }
                    return Err(e);
                },
            };
            proof {
                assert(s0.skip(i as int)[0] == s0[i as int]);
                lemma_uvarint_value_extend(s0, i as int);
                assert(s0.skip(i as int).skip(1) =~= s0.skip(i as int + 1));
            }
            v = v | (((b & 0x7f) as u64) << (i * 7));
            if b < 0x80 {
                proof {
                    lemma_uvarint_size_found(s0, i as int, 10);
                }
                return Ok(v);
            }
            i = i + 1;
        }
        proof {
            lemma_uvarint_size_none(s0, 10);
        }
        Err(Error::Invalid("variable integer encoding".to_owned()))
    }

    /// Read a signed 64-bit integer from the stream: an unsigned
    /// variable-length integer is read and mapped back through the inverse
    /// of the zigzag mapping.
    pub fn read_ivarint(&mut self) -> (r: Result<i64, Error>)
        requires
            old(self).wf(),
        ensures
            final(self).wf(),
            ({
                let s0 = old(self)@;
                match uvarint_size(s0) {
                    Some(n) => r matches Ok(v) && v == unzigzag_of(uvarint_value(s0, n))
                        && final(self)@ == s0.skip(n),
                    None => r matches Err(e) && (if s0.len() >= 10 {
                        is_invalid(e, "variable integer encoding"@) && final(self)@ == s0.skip(10)
                    } else {
                        e is Io && final(self)@.len() == 0
                    }),
                }
            }),
    {
        let unsigned = match self.read_uvarint() {
            Ok(u) => u,
            Err(e) => {
                return Err(e);
            },
        };
        proof {
            assert(unsigned >> 1u64 < 0x8000000000000000) by (bit_vector);
        }
        let mut signed = (unsigned >> 1) as i64;
        if (unsigned & 0x1) > 0 {
            signed = !signed;
        }
        proof {
            assert((unsigned & 0x1 > 0) == (unsigned & 1 == 1)) by (bit_vector);
        }
        Ok(signed)
    }

    /// Read a boolean value from the stream. This is a special case that
    /// consumes exactly one byte and expects it to be exactly `0` or `1`.
    pub fn read_bool(&mut self) -> (r: Result<bool, Error>)
        requires
            old(self).wf(),
        ensures
            final(self).wf(),
            old(self)@.len() == 0 ==> (r matches Err(e) && e is Io && final(self)@ == old(
                self,
            )@),
            old(self)@.len() >= 1 ==> final(self)@ == old(self)@.skip(1),
            old(self)@.len() >= 1 && old(self)@[0] == 1 ==> (r matches Ok(v) && v == true),
            old(self)@.len() >= 1 && old(self)@[0] == 0 ==> (r matches Ok(v) && v == false),
            old(self)@.len() >= 1 && old(self)@[0] != 0 && old(self)@[0] != 1 ==> (r matches Err(
                e,
            ) && is_invalid(e, "boolean encoding"@)),
    {
        let b = match self.read_u8() {
            Ok(b) => b,
            Err(e) => {
                return Err(e);
            },
        };
        match b {
            1 => Ok(true),
            0 => Ok(false),
            _ => Err(Error::Invalid("boolean encoding".to_owned())),
        }
    }

    /// Read a single byte from the source. This is a special case that
    /// consumes exactly one byte and does not use variable-length encoding.
    pub fn read_u8(&mut self) -> (r: Result<u8, Error>)
        requires
            old(self).wf(),
        ensures
            final(self).wf(),
            old(self)@.len() >= 1 ==> (r matches Ok(b) && b == old(self)@[0]
                && final(self)@ == old(self)@.skip(1)),
            old(self)@.len() == 0 ==> (r matches Err(e) && e is Io && final(self)@ == old(self)@),
    {
        match self.read_exact(1) {
            Ok(buf) => Ok(buf[0]),
            Err(e) => Err(e),
        }
    }

    /// Read a byte string from the stream: a varint length first, then
    /// exactly that many raw bytes. The declared length is held to the
    /// caller-supplied `[min, max]` bound before any payload byte is read,
    /// so a hostile length cannot force an oversized allocation.
    pub fn read_bytes(&mut self, min: usize, max: usize) -> (r: Result<Vec<u8>, Error>)
        requires
            old(self).wf(),
        ensures
            final(self).wf(),
            ({
                let s0 = old(self)@;
                match uvarint_size(s0) {
                    Some(n) => {
                        let len = uvarint_value(s0, n);
                        let after = s0.skip(n);
                        if len > usize::MAX {
                            r matches Err(e) && e is Generic && final(self)@ == after
                        } else if len < min || len > max {
                            r matches Err(e) && is_invalid(e, "length: "@ + dec_str(len))
                                && final(self)@ == after
                        } else if len > after.len() {
                            r matches Err(e) && e is Io && final(self)@ == after
                        } else {
                            r matches Ok(b) && b@ == after.take(len as int) && final(self)@
                                == after.skip(len as int)
                        }
                    },
                    None => r matches Err(e) && (if s0.len() >= 10 {
                        is_invalid(e, "variable integer encoding"@) && final(self)@ == s0.skip(10)
                    } else {
                        e is Io && final(self)@.len() == 0
                    }),
                }
            }),
    {
        let len64 = match self.read_uvarint() {
            Ok(v) => v,
            Err(e) => {
                return Err(e);
            },
        };
        if len64 > usize::MAX as u64 {
            return Err(Error::Generic("length out of range".to_owned()));
        }
        let len = len64 as usize;
        if len < min || len > max {
            return Err(Error::Invalid(length_message(len64)));
        }
        self.read_exact(len)
    }

    /// Read a UTF-8 string from the stream: a byte string held to the
    /// caller-supplied `[min, max]` bound, whose bytes must then be valid
    /// UTF-8.
    pub fn read_string(&mut self, min: usize, max: usize) -> (r: Result<String, Error>)
        requires
            old(self).wf(),
        ensures
            final(self).wf(),
            ({
                let s0 = old(self)@;
                match uvarint_size(s0) {
                    Some(n) => {
                        let len = uvarint_value(s0, n);
                        let after = s0.skip(n);
                        if len > usize::MAX {
                            r matches Err(e) && e is Generic && final(self)@ == after
                        } else if len < min || len > max {
                            r matches Err(e) && is_invalid(e, "length: "@ + dec_str(len))
                                && final(self)@ == after
                        } else if len > after.len() {
                            r matches Err(e) && e is Io && final(self)@ == after
                        } else if valid_utf8(after.take(len as int)) {
                            r matches Ok(t) && t@ == decode_utf8(after.take(len as int))
                                && final(self)@ == after.skip(len as int)
                        } else {
                            r matches Err(e) && e is Generic && final(self)@ == after.skip(
                                len as int,
                            )
                        }
                    },
                    None => r matches Err(e) && (if s0.len() >= 10 {
                        is_invalid(e, "variable integer encoding"@) && final(self)@ == s0.skip(10)
                    } else {
                        e is Io && final(self)@.len() == 0
                    }),
                }
            }),
    {
        let raw = match self.read_bytes(min, max) {
            Ok(b) => b,
            Err(e) => {
                return Err(e);
            },
        };
        match string_from_utf8(raw) {
            Some(s) => {
                proof {
                    encode_utf8_decode_utf8(s@);
                }
                Ok(s)
            },
            None => Err(Error::Generic("invalid utf-8 encoding".to_owned())),
        }
    }

    /// Begin decoding a dynamic sequence: read the element count, and hand
    /// back a cursor that yields exactly that many elements.
    pub fn deserialize_seq(&mut self) -> (r: Result<DeserializeCollection, Error>)
        requires
            old(self).wf(),
        ensures
            final(self).wf(),
            ({
                let s0 = old(self)@;
                match uvarint_size(s0) {
                    Some(n) => {
                        let count = uvarint_value(s0, n);
                        if count > usize::MAX {
                            r matches Err(e) && e is Generic && final(self)@ == s0.skip(n)
                        } else {
                            r matches Ok(c) && c.remaining == count && final(self)@ == s0.skip(n)
                        }
                    },
                    None => r matches Err(e) && (if s0.len() >= 10 {
                        is_invalid(e, "variable integer encoding"@) && final(self)@ == s0.skip(10)
                    } else {
                        e is Io && final(self)@.len() == 0
                    }),
                }
            }),
    {
        let count64 = match self.read_uvarint() {
            Ok(v) => v,
            Err(e) => {
                return Err(e);
            },
        };
        if count64 > usize::MAX as u64 {
            return Err(Error::Generic("count out of range".to_owned()));
        }
        Ok(DeserializeCollection { remaining: count64 as usize })
    }
}

/// Decode-side cursor for a dynamic sequence: tracks how many elements the
/// declared count still owes, and never yields one past that count, however
/// many bytes the source still holds.
#[derive(Debug)]
pub struct DeserializeCollection {
    /// How many more elements the declared count still owes.
    pub remaining: usize,
}

impl DeserializeCollection {
    /// Whether one more element is owed: true when it is, with the budget
    /// reduced; false exactly when the declared count is exhausted.
    pub fn next_element(&mut self) -> (more: bool)
        ensures
            old(self).remaining == 0 ==> (more == false && final(self).remaining == 0),
            old(self).remaining > 0 ==> (more == true && final(self).remaining == old(
                self,
            ).remaining - 1),
    {
        if self.remaining < 1 {
            return false;
        }
        self.remaining = self.remaining - 1;
        true
    }
}

/// Relies on the formatting machinery of std: renders `n` in decimal after
/// the fixed prefix, as `dec_str` describes.
#[verifier::external_body]
fn length_message(n: u64) -> (r: String)
    ensures
        r@ == "length: "@ + dec_str(n),
{
    format!("length: {n}")
}

/// Relies on String::from_utf8: it succeeds exactly on input that is valid
/// UTF-8, and returns the string whose UTF-8 encoding is that input.
#[verifier::external_body]
fn string_from_utf8(bytes: Vec<u8>) -> (r: Option<String>)
    ensures
        valid_utf8(bytes@) ==> (r is Some && encode_utf8(r->Some_0@) == bytes@),
        !valid_utf8(bytes@) ==> r is None,
{
    String::from_utf8(bytes).ok()
}

} // verus!
