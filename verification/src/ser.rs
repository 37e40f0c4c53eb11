//! The streaming encoder: writes SIBOR-encoded values into a byte sink.

use vstd::prelude::*;

use vstd::utf8::encode_utf8;

use crate::error::Error;
use crate::error::is_generic;
use crate::error::is_unsupported;
use crate::wire::bool_bytes;
use crate::wire::byte_string_bytes;
use crate::wire::lemma_uvarint_bytes_len;
use crate::wire::uvarint_bytes;
use crate::wire::zigzag_of;

verus! {

/// Tracker for an in-progress dynamic sequence: the element count was
/// written up front, and the serializer fails fast when the caller tries to
/// emit more elements than it declared.
#[derive(Debug)]
pub struct CollectionSerializer {
    /// How many more elements the caller may emit.
    pub remaining: usize,
}

impl CollectionSerializer {
    /// Claim room for one more element; the caller writes the element's own
    /// encoding after a successful claim. Emitting more elements than were
    /// declared is an error.
    pub fn serialize_element(&mut self) -> (r: Result<(), Error>)
        ensures
            old(self).remaining == 0 ==> (r matches Err(e) && is_generic(
                e,
                "tried to serialize too many elements in collection"@,
            ) && final(self).remaining == 0),
            old(self).remaining > 0 ==> (r is Ok && final(self).remaining == old(self).remaining
                - 1),
    {
        if self.remaining < 1 {
            return Err(
                Error::Generic("tried to serialize too many elements in collection".to_owned()),
            );
        }
        self.remaining = self.remaining - 1;
        Ok(())
    }

    /// Finish the collection. A caller that emitted fewer elements than it
    /// declared is not caught here: the count was already written.
    pub fn end(self) -> (r: Result<(), Error>)
        ensures
            r is Ok,
    {
        Ok(())
    }
}

/// Marker for an in-progress fixed sequence (tuple, struct, or a variant's
/// payload): members are written back to back with no framing, so there is
/// nothing to track.
#[derive(Debug)]
pub struct TupleSerializer {}

impl TupleSerializer {
    /// Note that one more member is about to be written; a fixed sequence
    /// puts no bound on that, the schema does.
    pub fn serialize_element(&mut self) -> (r: Result<(), Error>)
        ensures
            r is Ok,
    {
        Ok(())
    }

    /// Note that one more named field is about to be written; field names
    /// carry no wire representation.
    pub fn serialize_field(&mut self) -> (r: Result<(), Error>)
        ensures
            r is Ok,
    {
        Ok(())
    }

    /// Finish the fixed sequence.
    pub fn end(self) -> (r: Result<(), Error>)
        ensures
            r is Ok,
    {
        Ok(())
    }
}

/// A serializer that appends the wire encoding of values to a byte sink.
///
/// The view of a serializer is the sequence of bytes in its sink; every
/// write states exactly which bytes it appends.
pub struct Serializer {
    writer: Vec<u8>,
}

impl View for Serializer {
    type V = Seq<u8>;

    closed spec fn view(&self) -> Seq<u8> {
        self.writer@
    }
}

impl Serializer {
    /// Create a new serializer appending to the given byte sink.
    pub fn new(writer: Vec<u8>) -> (s: Serializer)
        ensures
            s@ == writer@,
    {
        Serializer { writer }
    }

    /// Give back the byte sink with everything written so far.
    pub fn into_writer(self) -> (w: Vec<u8>)
        ensures
            w@ == self@,
    {
        self.writer
    }

    /// Map a signed integer to an unsigned one with the zigzag mapping:
    /// non-negative `v` maps to `2 * v`, negative `v` to `-2 * v - 1`.
    pub fn zigzag(&self, v: i64) -> (r: u64)
        ensures
            r == zigzag_of(v),
    {
        let mut unsigned = (v as u64) << 1;
        if v < 0 {
            unsigned = !unsigned;
        }
        unsigned
    }

    /// Write the given bytes to the sink, exactly and in order.
    pub fn write_exact(&mut self, buf: &[u8]) -> (r: Result<(), Error>)
        ensures
            r is Ok,
            final(self)@ == old(self)@ + buf@,
    {
        let n = buf.len();
        let mut i: usize = 0;
        while i < n
            invariant
                i <= n,
                n == buf@.len(),
                self@ == old(self)@ + buf@.take(i as int),
            decreases n - i,
        {
            self.writer.push(buf[i]);
            i = i + 1;
            proof {
                assert(self@ =~= old(self)@ + buf@.take(i as int));
            }
        }
        proof {
            assert(self@ =~= old(self)@ + buf@);
        }
        Ok(())
    }

    /// Write a single byte to the sink.
    pub fn write_u8(&mut self, v: u8) -> (r: Result<(), Error>)
        ensures
            r is Ok,
            final(self)@ == old(self)@ + seq![v],
    {
        self.writer.push(v);
        proof {
            assert(self@ =~= old(self)@ + seq![v]);
        }
        Ok(())
    }

    /// Write an unsigned 64-bit integer with the variable-length encoding:
    /// 7 data bits per byte, least significant group first, high bit set on
    /// every byte but the last.
    pub fn write_uvarint(&mut self, v: u64) -> (r: Result<(), Error>)
        ensures
            r is Ok,
            final(self)@ == old(self)@ + uvarint_bytes(v),
    {
        let mut v = v;
        let ghost v0: u64 = v;
        while v >= 0x80
            invariant
                self@ + uvarint_bytes(v) == old(self)@ + uvarint_bytes(v0),
            decreases v,
        {
            let b: u8 = (v & 0x7f) as u8 | 0x80;
            proof {
                assert(b == ((v & 0x7f) | 0x80) as u8) by (bit_vector)
                    requires
                        b == (v & 0x7f) as u8 | 0x80,
                ;
                assert(uvarint_bytes(v) == seq![b] + uvarint_bytes(v >> 7u64));
                assert(v >> 7u64 < v) by (bit_vector)
                    requires
                        v >= 0x80,
                ;
            }
            let ghost prev = self@;
            self.write_u8(b)?;
            proof {
                assert(self@ + uvarint_bytes(v >> 7u64) =~= prev + uvarint_bytes(v));
            }
            v = v >> 7;
        }
        let ghost prev = self@;
        self.write_u8((v & 0x7f) as u8)?;
        proof {
            assert((v & 0x7f) as u8 == v as u8) by (bit_vector)
                requires
                    v < 0x80,
            ;
            assert(uvarint_bytes(v) == seq![v as u8]);
            assert(self@ =~= prev + uvarint_bytes(v));
            assert(self@ =~= old(self)@ + uvarint_bytes(v0));
        }
        Ok(())
    }

    /// Write a signed 64-bit integer: the zigzag mapping of the value is
    /// written with the variable-length encoding.
    pub fn write_ivarint(&mut self, v: i64) -> (r: Result<(), Error>)
        ensures
            r is Ok,
            final(self)@ == old(self)@ + uvarint_bytes(zigzag_of(v)),
    {
        let unsigned = self.zigzag(v);
        self.write_uvarint(unsigned)
    }

    /// The number of bytes the variable-length encoding of `v` occupies.
    pub fn sizeof_uvarint(&self, v: &u64) -> (r: Result<usize, Error>)
        ensures
            r matches Ok(n) && n == uvarint_bytes(*v).len(),
    {
        let mut v = *v;
        let ghost v0: u64 = v;
        let mut size: usize = 1;
        proof {
            lemma_uvarint_bytes_len(v0);
        }
        while v >= 0x80
            invariant
                1 <= size,
                size + uvarint_bytes(v).len() == 1 + uvarint_bytes(v0).len(),
                uvarint_bytes(v0).len() <= 10,
            decreases v,
        {
            proof {
                assert(uvarint_bytes(v) == seq![((v & 0x7f) | 0x80) as u8] + uvarint_bytes(
                    v >> 7u64,
                ));
                assert(v >> 7u64 < v) by (bit_vector)
                    requires
                        v >= 0x80,
                ;
                lemma_uvarint_bytes_len(v >> 7u64);
            }
            size = size + 1;
            v = v >> 7;
        }
        proof {
            assert(uvarint_bytes(v) == seq![v as u8]);
        }
        Ok(size)
    }

    /// The number of bytes the encoding of the signed value `v` occupies.
    pub fn sizeof_varint(&self, v: &i64) -> (r: Result<usize, Error>)
        ensures
            r matches Ok(n) && n == uvarint_bytes(zigzag_of(*v)).len(),
    {
        let unsigned = self.zigzag(*v);
        self.sizeof_uvarint(&unsigned)
    }

    /// The number of bytes the encoding of a boolean occupies: always one.
    pub fn sizeof_bool(&self, v: bool) -> (r: Result<usize, Error>)
        ensures
            r matches Ok(n) && n == bool_bytes(v).len(),
    {
        Ok(1)
    }

    /// The number of bytes the encoding of the byte string `v` occupies,
    /// failing when the total does not fit the platform's size type.
    pub fn sizeof_bytes(&self, v: &[u8]) -> (r: Result<usize, Error>)
        ensures
            byte_string_bytes(v@).len() <= usize::MAX ==> (r matches Ok(n) && n
                == byte_string_bytes(v@).len()),
            byte_string_bytes(v@).len() > usize::MAX ==> (r matches Err(e) && is_generic(
                e,
                "size too large"@,
            )),
    {
        let len64 = v.len() as u64;
        let prefix = match self.sizeof_uvarint(&len64) {
            Ok(n) => n,
            Err(e) => {
                return Err(e);
            },
        };
        Self::combine_sizes(prefix, v.len())
    }

    /// The number of bytes the encoding of the string `v` occupies, failing
    /// when the total does not fit the platform's size type.
    pub fn sizeof_string(&self, v: &str) -> (r: Result<usize, Error>)
        ensures
            byte_string_bytes(encode_utf8(v@)).len() <= usize::MAX ==> (r matches Ok(n) && n
                == byte_string_bytes(encode_utf8(v@)).len()),
            byte_string_bytes(encode_utf8(v@)).len() > usize::MAX ==> (r matches Err(e)
                && is_generic(e, "size too large"@)),
    {
        self.sizeof_bytes(v.as_bytes())
    }

    /// Write a boolean as exactly one byte: `0x01` for true, `0x00` for
    /// false, with no varint framing.
    pub fn write_bool(&mut self, v: bool) -> (r: Result<(), Error>)
        ensures
            r is Ok,
            final(self)@ == old(self)@ + bool_bytes(v),
    {
        self.write_u8(if v { 1 } else { 0 })
    }

    /// Write a byte string: the length as an unsigned varint, then exactly
    /// that many raw bytes.
    pub fn write_bytes(&mut self, v: &[u8]) -> (r: Result<(), Error>)
        ensures
            r is Ok,
            final(self)@ == old(self)@ + byte_string_bytes(v@),
    {
        let len64 = v.len() as u64;
        self.write_uvarint(len64)?;
        self.write_exact(v)?;
        proof {
            assert(self@ =~= old(self)@ + byte_string_bytes(v@));
        }
        Ok(())
    }

    /// Write a UTF-8 string: its UTF-8 bytes as a byte string.
    pub fn write_string(&mut self, v: &str) -> (r: Result<(), Error>)
        ensures
            r is Ok,
            final(self)@ == old(self)@ + byte_string_bytes(encode_utf8(v@)),
    {
        self.write_bytes(v.as_bytes())
    }

    /// Begin a dynamic sequence: the element count must be known up front
    /// and is written as an unsigned varint; the returned tracker holds the
    /// caller to that count. An unknown count has no wire representation.
    pub fn serialize_seq(&mut self, len: Option<usize>) -> (r: Result<CollectionSerializer, Error>)
        ensures
            len matches Some(n) ==> (r matches Ok(c) && c.remaining == n && final(self)@ == old(
                self,
            )@ + uvarint_bytes(n as u64)),
            len is None ==> (r matches Err(e) && is_unsupported(e, "serialize seq (unsized)"@)
                && final(self)@ == old(self)@),
    {
        match len {
            Some(remaining) => {
                let len64 = remaining as u64;
                self.write_uvarint(len64)?;
                Ok(CollectionSerializer { remaining })
            },
            None => Err(Error::Unsupported("serialize seq (unsized)".to_owned())),
        }
    }

    /// Begin a fixed sequence: members follow back to back with no framing.
    pub fn serialize_tuple(&mut self) -> (r: TupleSerializer)
        ensures
            final(self)@ == old(self)@,
    {
        TupleSerializer {  }
    }

    /// Add two encoded-size contributions, failing when the total does not
    /// fit the platform's size type.
    fn combine_sizes(a: usize, b: usize) -> (r: Result<usize, Error>)
        ensures
            a + b <= usize::MAX ==> (r matches Ok(n) && n == a + b),
            a + b > usize::MAX ==> (r matches Err(e) && is_generic(e, "size too large"@)),
    {
        if b > usize::MAX - a {
            Err(Error::Generic("size too large".to_owned()))
        } else {
            Ok(a + b)
        }
    }
}

} // verus!
