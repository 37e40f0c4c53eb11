//! The SIBOR binary format: a compact, schema-driven wire encoding.
//!
//! SIBOR is a binary format designed to be simple to implement, fast to encode
//! and decode, and relatively compact. The schema must be known in advance by
//! both sides: the format is not self-describing.
//!
//! - Unsigned integers are encoded with a base-128 little-endian
//!   variable-length encoding (at most 10 bytes).
//! - Signed integers are mapped to unsigned ones with the zigzag mapping and
//!   then encoded as unsigned variable-length integers.
//! - Booleans are a single byte, `0x00` or `0x01`; anything else is rejected.
//! - Byte strings and UTF-8 strings are a variable-length integer length
//!   prefix followed by that many raw bytes.
//! - Fixed sequences (tuples, structs) are the concatenation of their member
//!   encodings, with no framing; dynamic sequences carry a leading element
//!   count; tagged unions carry a leading zero-based variant ordinal.
//!
//! The wire format itself is specified by the spec functions in [`wire`],
//! and the encoder and decoder are proved against that specification. The
//! [`value`] module drives them over whole shape-described value trees, with
//! a round-trip theorem covering arbitrarily nested compound shapes.

pub mod de;
pub mod error;
pub mod ser;
pub mod value;
pub mod wire;

pub use crate::de::Deserializer;
pub use crate::error::Error;
pub use crate::ser::Serializer;
pub use crate::value::Shape;
pub use crate::value::Value;

use vstd::prelude::*;

use crate::value::spec_decode;
use crate::value::value_bytes;

verus! {

/// Encode a value into a byte vector: exactly its wire encoding.
pub fn to_bytes(v: &Value) -> (r: Result<Vec<u8>, Error>)
    ensures
        r matches Ok(b) && b@ == value_bytes(v@),
{
    let mut ser = Serializer::new(Vec::new());
    ser.encode_value(v)?;
    let out = ser.into_writer();
    proof {
        assert(out@ =~= value_bytes(v@));
    }
    Ok(out)
}

/// Get the number of bytes required to encode a value. The size is found
/// by running the write logic against a fresh sink and measuring what came
/// out, never by a separate formula, so the prediction cannot drift from a
/// real write.
pub fn encoded_size(v: &Value) -> (r: Result<usize, Error>)
    ensures
        r matches Ok(n) && n == value_bytes(v@).len(),
{
    let bytes = to_bytes(v)?;
    Ok(bytes.len())
}

/// Decode a value of the given shape from a byte vector. Bytes after the
/// value's encoding are left unread, as they would be in a stream.
pub fn from_bytes(buf: Vec<u8>, shape: &Shape) -> (r: Result<Value, Error>)
    ensures
        ({
            match spec_decode(buf@, shape@) {
                Some((m, rest)) => r matches Ok(val) && val@ == m,
                None => r is Err,
            }
        }),
{
    let mut de = Deserializer::new(buf);
    de.decode_value(shape)
}

} // verus!
