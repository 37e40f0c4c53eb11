//! A shape-driven engine over the primitive codec.
//!
//! `Value` is a dynamically shaped value, one constructor per wire shape;
//! `Shape` is the schema a decoder expects. The engine here encodes a whole
//! `Value` tree and decodes one back against a `Shape`, composing the
//! primitive codecs across arbitrarily nested sequences, tuples and tagged
//! unions. The round-trip theorem at the bottom proves that decoding an
//! encoded value against its shape yields the value back, whatever bytes
//! follow it.

use vstd::prelude::*;

use vstd::utf8::decode_utf8;
use vstd::utf8::encode_utf8;
use vstd::utf8::valid_utf8;

use crate::de::Deserializer;
use crate::error::Error;
use crate::ser::Serializer;
use crate::wire::bool_bytes;
use crate::wire::byte_string_bytes;
use crate::wire::lemma_bool_round_trip;
use crate::wire::lemma_byte_string_round_trip;
use crate::wire::lemma_string_round_trip;
use crate::wire::lemma_uvarint_round_trip;
use crate::wire::lemma_zigzag_round_trip;
use crate::wire::unzigzag_of;
use crate::wire::uvarint_bytes;
use crate::wire::uvarint_size;
use crate::wire::uvarint_value;
use crate::wire::zigzag_of;

verus! {

/// A value of one of the shapes the wire format can carry.
///
/// Schema-level integer widths narrower than 64 bits all ride the 64-bit
/// representations here; floats ride `UInt` as their IEEE-754 bit pattern.
#[derive(Debug, PartialEq)]
pub enum Value {
    /// The unit value: no wire representation.
    Unit,
    /// A boolean: one byte on the wire.
    Bool(bool),
    /// An unsigned 64-bit integer: a varint on the wire.
    UInt(u64),
    /// A signed 64-bit integer: zigzag-mapped, then a varint.
    SInt(i64),
    /// A raw byte string: varint length prefix, then the bytes.
    Bytes(Vec<u8>),
    /// A UTF-8 string: its UTF-8 bytes as a byte string.
    Text(String),
    /// A fixed sequence: members back to back, no framing.
    Tuple(Vec<Value>),
    /// A dynamic sequence: varint element count, then the elements.
    List(Vec<Value>),
    /// A tagged union: varint variant ordinal, then that variant's payload.
    Union(u64, Box<Value>),
}

/// The schema for a value: what shape the decoder should expect next.
#[derive(Debug, PartialEq)]
pub enum Shape {
    /// The unit shape.
    Unit,
    /// A boolean.
    Bool,
    /// An unsigned 64-bit integer.
    UInt,
    /// A signed 64-bit integer.
    SInt,
    /// A raw byte string.
    Bytes,
    /// A UTF-8 string.
    Text,
    /// A fixed sequence of the given member shapes, in order.
    Tuple(Vec<Shape>),
    /// A dynamic sequence of elements of one shape.
    List(Box<Shape>),
    /// A tagged union: one payload shape per variant, by ordinal.
    Union(Vec<Shape>),
}

/// The mathematical model of a `Value`: the same tree over `Seq` instead of
/// `Vec` and `String`, so that specifications can build and compare values.
pub enum ValModel {
    /// The unit value.
    Unit,
    /// A boolean.
    Bool(bool),
    /// An unsigned 64-bit integer.
    UInt(u64),
    /// A signed 64-bit integer.
    SInt(i64),
    /// A raw byte string.
    Bytes(Seq<u8>),
    /// A UTF-8 string, as its characters.
    Text(Seq<char>),
    /// A fixed sequence.
    Tuple(Seq<ValModel>),
    /// A dynamic sequence.
    List(Seq<ValModel>),
    /// A tagged union: ordinal and payload.
    Union(u64, Box<ValModel>),
}

/// The mathematical model of a `Shape`.
pub enum ShapeModel {
    /// The unit shape.
    Unit,
    /// A boolean.
    Bool,
    /// An unsigned 64-bit integer.
    UInt,
    /// A signed 64-bit integer.
    SInt,
    /// A raw byte string.
    Bytes,
    /// A UTF-8 string.
    Text,
    /// A fixed sequence of member shapes.
    Tuple(Seq<ShapeModel>),
    /// A dynamic sequence of one element shape.
    List(Box<ShapeModel>),
    /// A tagged union: one payload shape per variant.
    Union(Seq<ShapeModel>),
}

/// The model of a value.
pub open spec fn value_view(v: Value) -> ValModel
    decreases v,
{
    match v {
        Value::Unit => ValModel::Unit,
        Value::Bool(b) => ValModel::Bool(b),
        Value::UInt(u) => ValModel::UInt(u),
        Value::SInt(i) => ValModel::SInt(i),
        Value::Bytes(b) => ValModel::Bytes(b@),
        Value::Text(t) => ValModel::Text(t@),
        Value::Tuple(vs) => ValModel::Tuple(members_view(vs@)),
        Value::List(vs) => ValModel::List(members_view(vs@)),
        Value::Union(ord, payload) => ValModel::Union(ord, Box::new(value_view(*payload))),
    }
}

/// The model of a sequence of values.
pub open spec fn members_view(vs: Seq<Value>) -> Seq<ValModel>
    decreases vs,
{
    Seq::new(
        vs.len(),
        (|i: int|
            if 0 <= i < vs.len() {
                value_view(vs[i])
            } else {
                ValModel::Unit
            }),
    )
}

impl View for Value {
    type V = ValModel;

    open spec fn view(&self) -> ValModel {
        value_view(*self)
    }
}

/// The model of a shape.
pub open spec fn shape_view(s: Shape) -> ShapeModel
    decreases s,
{
    match s {
        Shape::Unit => ShapeModel::Unit,
        Shape::Bool => ShapeModel::Bool,
        Shape::UInt => ShapeModel::UInt,
        Shape::SInt => ShapeModel::SInt,
        Shape::Bytes => ShapeModel::Bytes,
        Shape::Text => ShapeModel::Text,
        Shape::Tuple(ss) => ShapeModel::Tuple(shapes_view(ss@)),
        Shape::List(elem) => ShapeModel::List(Box::new(shape_view(*elem))),
        Shape::Union(ss) => ShapeModel::Union(shapes_view(ss@)),
    }
}

/// The model of a sequence of shapes.
pub open spec fn shapes_view(ss: Seq<Shape>) -> Seq<ShapeModel>
    decreases ss,
{
    Seq::new(
        ss.len(),
        (|i: int|
            if 0 <= i < ss.len() {
                shape_view(ss[i])
            } else {
                ShapeModel::Unit
            }),
    )
}

impl View for Shape {
    type V = ShapeModel;

    open spec fn view(&self) -> ShapeModel {
        shape_view(*self)
    }
}

/// Whether a value has the given shape: the schema check the adapter is
/// responsible for, stated recursively over the whole tree.
pub open spec fn matches_shape(m: ValModel, s: ShapeModel) -> bool
    decreases m,
{
    match (m, s) {
        (ValModel::Unit, ShapeModel::Unit) => true,
        (ValModel::Bool(_), ShapeModel::Bool) => true,
        (ValModel::UInt(_), ShapeModel::UInt) => true,
        (ValModel::SInt(_), ShapeModel::SInt) => true,
        (ValModel::Bytes(_), ShapeModel::Bytes) => true,
        (ValModel::Text(_), ShapeModel::Text) => true,
        (ValModel::Tuple(ms), ShapeModel::Tuple(ss)) => ms.len() == ss.len() && (forall|i: int|
            0 <= i < ms.len() ==> matches_shape(#[trigger] ms[i], ss[i])),
        (ValModel::List(ms), ShapeModel::List(elem)) => forall|i: int|
            0 <= i < ms.len() ==> matches_shape(#[trigger] ms[i], *elem),
        (ValModel::Union(ord, payload), ShapeModel::Union(variants)) => ord < variants.len()
            && matches_shape(*payload, variants[ord as int]),
        _ => false,
    }
}

/// Whether a value's lengths fit the wire format and the platform: byte and
/// character strings and dynamic sequences carry an explicit length, which
/// must fit the platform's size type.
pub open spec fn value_wf(m: ValModel) -> bool
    decreases m,
{
    match m {
        ValModel::Unit => true,
        ValModel::Bool(_) => true,
        ValModel::UInt(_) => true,
        ValModel::SInt(_) => true,
        ValModel::Bytes(b) => b.len() <= usize::MAX,
        ValModel::Text(t) => encode_utf8(t).len() <= usize::MAX,
        ValModel::Tuple(ms) => forall|i: int| 0 <= i < ms.len() ==> value_wf(#[trigger] ms[i]),
        ValModel::List(ms) => ms.len() <= usize::MAX && (forall|i: int|
            0 <= i < ms.len() ==> value_wf(#[trigger] ms[i])),
        ValModel::Union(_, payload) => value_wf(*payload),
    }
}

/// The wire encoding of a whole value.
pub open spec fn value_bytes(m: ValModel) -> Seq<u8>
    decreases m,
{
    match m {
        ValModel::Unit => Seq::empty(),
        ValModel::Bool(b) => bool_bytes(b),
        ValModel::UInt(u) => uvarint_bytes(u),
        ValModel::SInt(i) => uvarint_bytes(zigzag_of(i)),
        ValModel::Bytes(b) => byte_string_bytes(b),
        ValModel::Text(t) => byte_string_bytes(encode_utf8(t)),
        ValModel::Tuple(ms) => members_bytes(ms),
        ValModel::List(ms) => uvarint_bytes(ms.len() as u64) + members_bytes(ms),
        ValModel::Union(ord, payload) => uvarint_bytes(ord) + value_bytes(*payload),
    }
}

/// The concatenated wire encodings of a sequence of values, in order.
pub open spec fn members_bytes(ms: Seq<ValModel>) -> Seq<u8>
    decreases ms,
{
    if ms.len() == 0 {
        Seq::empty()
    } else {
        value_bytes(ms[0]) + members_bytes(ms.drop_first())
    }
}

/// Appending one more value's encoding extends the members' encoding.
proof fn lemma_members_bytes_push(ms: Seq<ValModel>, m: ValModel)
    ensures
        members_bytes(ms.push(m)) == members_bytes(ms) + value_bytes(m),
    decreases ms,
{
    if ms.len() == 0 {
        assert(ms.push(m)[0] == m);
        assert(ms.push(m).drop_first() =~= Seq::<ValModel>::empty());
        assert(members_bytes(Seq::<ValModel>::empty()) == Seq::<u8>::empty());
        assert(members_bytes(ms.push(m)) == value_bytes(m) + Seq::<u8>::empty());
        assert(members_bytes(ms) == Seq::<u8>::empty());
        assert(members_bytes(ms.push(m)) =~= members_bytes(ms) + value_bytes(m));
    } else {
        assert(ms.push(m)[0] == ms[0]);
        assert(ms.push(m).drop_first() =~= ms.drop_first().push(m));
        lemma_members_bytes_push(ms.drop_first(), m);
        assert(members_bytes(ms.push(m)) == value_bytes(ms[0]) + members_bytes(
            ms.drop_first().push(m),
        ));
        assert(members_bytes(ms) == value_bytes(ms[0]) + members_bytes(ms.drop_first()));
        assert(members_bytes(ms.push(m)) =~= members_bytes(ms) + value_bytes(m));
    }
}

impl Serializer {
    /// Encode a whole value: scalars through the primitive codec, compound
    /// shapes by structural recursion, exactly as `value_bytes` describes.
    pub fn encode_value(&mut self, v: &Value) -> (r: Result<(), Error>)
        ensures
            r is Ok,
            final(self)@ == old(self)@ + value_bytes(v@),
        decreases *v,
    {
        match v {
            Value::Unit => {
                proof {
                    assert(old(self)@ + value_bytes(v@) =~= self@);
                }
                Ok(())
            },
            Value::Bool(b) => self.write_bool(*b),
            Value::UInt(u) => self.write_uvarint(*u),
            Value::SInt(i) => self.write_ivarint(*i),
            Value::Bytes(b) => self.write_bytes(b.as_slice()),
            Value::Text(t) => self.write_string(t.as_str()),
            Value::Tuple(vs) => self.encode_members(vs),
            Value::List(vs) => {
                let len64 = vs.len() as u64;
                self.write_uvarint(len64)?;
                self.encode_members(vs)?;
                proof {
                    assert(self@ =~= old(self)@ + value_bytes(v@));
                }
                Ok(())
            },
            Value::Union(ord, payload) => {
                self.write_uvarint(*ord)?;
                self.encode_value(&**payload)?;
                proof {
                    assert(self@ =~= old(self)@ + value_bytes(v@));
                }
                Ok(())
            },
        }
    }

    /// Encode the members of a fixed or dynamic sequence, back to back and
    /// in order, with no framing of its own.
    pub fn encode_members(&mut self, vs: &Vec<Value>) -> (r: Result<(), Error>)
        ensures
            r is Ok,
            final(self)@ == old(self)@ + members_bytes(members_view(vs@)),
        decreases vs@,
    {
        let n = vs.len();
        let mut i: usize = 0;
        while i < n
            invariant
                i <= n,
                n == vs@.len(),
                self@ == old(self)@ + members_bytes(members_view(vs@).take(i as int)),
            decreases n - i,
        {
            self.encode_value(&vs[i])?;
            proof {
                assert(members_view(vs@)[i as int] == vs@[i as int]@);
                assert(members_view(vs@).take(i as int + 1) =~= members_view(vs@).take(
                    i as int,
                ).push(vs@[i as int]@));
                lemma_members_bytes_push(members_view(vs@).take(i as int), vs@[i as int]@);
                assert(self@ =~= old(self)@ + members_bytes(
                    members_view(vs@).take(i as int + 1),
                ));
            }
            i = i + 1;
        }
        proof {
            assert(members_view(vs@).take(n as int) =~= members_view(vs@));
        }
        Ok(())
    }
}

/// What a decode of a varint length or count prefix yields: the value,
/// bounded by the platform's size type, and the bytes after the prefix.
pub open spec fn spec_decode_len(s: Seq<u8>) -> Option<(u64, Seq<u8>)> {
    match uvarint_size(s) {
        Some(n) => {
            let len = uvarint_value(s, n);
            if len <= usize::MAX {
                Some((len, s.skip(n)))
            } else {
                None
            }
        },
        None => None,
    }
}

/// What a decode against the given shape yields from the front of `s`: the
/// decoded value and the bytes left over, or nothing when the input is
/// malformed or runs out, a length does not fit the platform, or a variant
/// ordinal is out of range for the schema.
pub open spec fn spec_decode(s: Seq<u8>, shape: ShapeModel) -> Option<(ValModel, Seq<u8>)>
    decreases shape, 0int,
{
    match shape {
        ShapeModel::Unit => Some((ValModel::Unit, s)),
        ShapeModel::Bool => if s.len() >= 1 && s[0] == 1 {
            Some((ValModel::Bool(true), s.skip(1)))
        } else if s.len() >= 1 && s[0] == 0 {
            Some((ValModel::Bool(false), s.skip(1)))
        } else {
            None
        },
        ShapeModel::UInt => match uvarint_size(s) {
            Some(n) => Some((ValModel::UInt(uvarint_value(s, n)), s.skip(n))),
            None => None,
        },
        ShapeModel::SInt => match uvarint_size(s) {
            Some(n) => Some((ValModel::SInt(unzigzag_of(uvarint_value(s, n))), s.skip(n))),
            None => None,
        },
        ShapeModel::Bytes => match spec_decode_len(s) {
            Some((len, after)) => if after.len() >= len {
                Some((ValModel::Bytes(after.take(len as int)), after.skip(len as int)))
            } else {
                None
            },
            None => None,
        },
        ShapeModel::Text => match spec_decode_len(s) {
            Some((len, after)) => if after.len() >= len && valid_utf8(after.take(len as int)) {
                Some((ValModel::Text(decode_utf8(after.take(len as int))), after.skip(len as int)))
            } else {
                None
            },
            None => None,
        },
        ShapeModel::Tuple(ss) => match spec_decode_members(s, ss) {
            Some((ms, rest)) => Some((ValModel::Tuple(ms), rest)),
            None => None,
        },
        ShapeModel::List(elem) => match spec_decode_len(s) {
            Some((count, after)) => match spec_decode_list(after, *elem, count as nat) {
                Some((ms, rest)) => Some((ValModel::List(ms), rest)),
                None => None,
            },
            None => None,
        },
        ShapeModel::Union(variants) => match uvarint_size(s) {
            Some(n) => {
                let ord = uvarint_value(s, n);
                if ord < variants.len() {
                    match spec_decode(s.skip(n), variants[ord as int]) {
                        Some((payload, rest)) => Some(
                            (ValModel::Union(ord, Box::new(payload)), rest),
                        ),
                        None => None,
                    }
                } else {
                    None
                }
            },
            None => None,
        },
    }
}

/// What decoding one member per shape, in order, yields.
pub open spec fn spec_decode_members(s: Seq<u8>, ss: Seq<ShapeModel>) -> Option<
    (Seq<ValModel>, Seq<u8>),
>
    decreases ss, 0int,
{
    if ss.len() == 0 {
        Some((Seq::empty(), s))
    } else {
        match spec_decode(s, ss[0]) {
            Some((m, rest)) => match spec_decode_members(rest, ss.drop_first()) {
                Some((ms, left)) => Some((seq![m] + ms, left)),
                None => None,
            },
            None => None,
        }
    }
}

/// What decoding exactly `k` elements of one shape yields.
pub open spec fn spec_decode_list(s: Seq<u8>, elem: ShapeModel, k: nat) -> Option<
    (Seq<ValModel>, Seq<u8>),
>
    decreases elem, k,
{
    if k == 0 {
        Some((Seq::empty(), s))
    } else {
        match spec_decode(s, elem) {
            Some((m, rest)) => match spec_decode_list(rest, elem, (k - 1) as nat) {
                Some((ms, left)) => Some((seq![m] + ms, left)),
                None => None,
            },
            None => None,
        }
    }
}

/// Appending one more value extends the sequence model pointwise.
proof fn lemma_members_view_push(vs: Seq<Value>, v: Value)
    ensures
        members_view(vs.push(v)) == members_view(vs).push(value_view(v)),
{
    assert(members_view(vs.push(v)) =~= members_view(vs).push(value_view(v)));
}

impl Deserializer {
    /// Decode a whole value against the given shape: scalars through the
    /// primitive codec, compound shapes by structural recursion. On success
    /// the result and the bytes consumed are exactly what `spec_decode`
    /// describes; on malformed or exhausted input, an oversized length, or
    /// an out-of-range ordinal, an error comes back instead.
    pub fn decode_value(&mut self, shape: &Shape) -> (r: Result<Value, Error>)
        requires
            old(self).wf(),
        ensures
            final(self).wf(),
            ({
                let s0 = old(self)@;
                match spec_decode(s0, shape_view(*shape)) {
                    Some((m, rest)) => r matches Ok(val) && value_view(val) == m && final(self)@
                        == rest,
                    None => r is Err,
                }
            }),
        decreases *shape,
    {
        match shape {
            Shape::Unit => Ok(Value::Unit),
            Shape::Bool => match self.read_bool() {
                Ok(b) => Ok(Value::Bool(b)),
                Err(e) => Err(e),
            },
            Shape::UInt => match self.read_uvarint() {
                Ok(u) => Ok(Value::UInt(u)),
                Err(e) => Err(e),
            },
            Shape::SInt => match self.read_ivarint() {
                Ok(i) => Ok(Value::SInt(i)),
                Err(e) => Err(e),
            },
            Shape::Bytes => match self.read_bytes(0, usize::MAX) {
                Ok(b) => Ok(Value::Bytes(b)),
                Err(e) => Err(e),
            },
            Shape::Text => match self.read_string(0, usize::MAX) {
                Ok(t) => Ok(Value::Text(t)),
                Err(e) => Err(e),
            },
            Shape::Tuple(ss) => match self.decode_members(ss) {
                Ok(vs) => Ok(Value::Tuple(vs)),
                Err(e) => Err(e),
            },
            Shape::List(elem) => {
                let ghost s0 = self@;
                let ghost em = shape_view(**elem);
                let cursor = match self.deserialize_seq() {
                    Ok(c) => c,
                    Err(e) => {
                        return Err(e);
                    },
                };
                let ghost after = self@;
                let count = cursor.remaining;
                let mut out: Vec<Value> = Vec::new();
                let mut j: usize = 0;
                proof {
                    if spec_decode_list(after, em, count as nat) is Some {
                        let (ms0, l0) = spec_decode_list(after, em, count as nat)->Some_0;
                        assert(members_view(out@) + ms0 =~= ms0);
                    }
                }
                while j < count
                    invariant
                        self.wf(),
                        j <= count,
                        s0 == old(self)@,
                        *shape == Shape::List(*elem),
                        em == shape_view(**elem),
                        spec_decode(s0, shape_view(*shape)) == (match spec_decode_list(
                            after,
                            em,
                            count as nat,
                        ) {
                            Some((ms, rest2)) => Some((ValModel::List(ms), rest2)),
                            None => None::<(ValModel, Seq<u8>)>,
                        }),
                        spec_decode_list(after, em, count as nat) == (match spec_decode_list(
                            self@,
                            em,
                            (count - j) as nat,
                        ) {
                            Some((ms, left)) => Some((members_view(out@) + ms, left)),
                            None => None::<(Seq<ValModel>, Seq<u8>)>,
                        }),
                    decreases count - j,
                {
                    let ghost pre = self@;
                    proof {
                        assert(decreases_to!(*shape => **elem));
                    }
                    let v = match self.decode_value(&**elem) {
                        Ok(v) => v,
                        Err(e) => {
                            proof {
                                assert(spec_decode_list(pre, em, (count - j) as nat) is None);
                            }
                            return Err(e);
                        },
                    };
                    proof {
                        let (m, rest) = spec_decode(pre, em)->Some_0;
                        assert(m == value_view(v));
                        assert(rest == self@);
                        assert(spec_decode_list(pre, em, (count - j) as nat) == (
                        match spec_decode_list(rest, em, (count - j - 1) as nat) {
                            Some((ms, left)) => Some((seq![m] + ms, left)),
                            None => None::<(Seq<ValModel>, Seq<u8>)>,
                        }));
                        lemma_members_view_push(out@, v);
                        if spec_decode_list(self@, em, (count - j - 1) as nat) is Some {
                            let (ms, left) = spec_decode_list(
                                self@,
                                em,
                                (count - j - 1) as nat,
                            )->Some_0;
                            assert(members_view(out@.push(v)) + ms =~= members_view(out@) + (seq![
                                value_view(v),
                            ] + ms));
                        }
                    }
                    out.push(v);
                    j = j + 1;
                }
                proof {
                    assert(spec_decode_list(self@, em, 0) == Some(
                        (Seq::<ValModel>::empty(), self@),
                    ));
                    assert(members_view(out@) + Seq::<ValModel>::empty() =~= members_view(out@));
                    assert(spec_decode_list(after, em, count as nat) == Some(
                        (members_view(out@), self@),
                    ));
                }
                Ok(Value::List(out))
            },
            Shape::Union(variants) => {
                let ord = match self.read_uvarint() {
                    Ok(o) => o,
                    Err(e) => {
                        return Err(e);
                    },
                };
                if ord >= variants.len() as u64 {
                    return Err(Error::Generic("variant ordinal out of range".to_owned()));
                }
                let idx = ord as usize;
                proof {
                    assert(shapes_view(variants@)[ord as int] == shape_view(variants@[ord as int]));
                }
                let payload = match self.decode_value(&variants[idx]) {
                    Ok(p) => p,
                    Err(e) => {
                        return Err(e);
                    },
                };
                Ok(Value::Union(ord, Box::new(payload)))
            },
        }
    }

    /// Decode one member per shape, in order, as a fixed sequence has no
    /// framing of its own.
    pub fn decode_members(&mut self, shapes: &Vec<Shape>) -> (r: Result<Vec<Value>, Error>)
        requires
            old(self).wf(),
        ensures
            final(self).wf(),
            ({
                let s0 = old(self)@;
                match spec_decode_members(s0, shapes_view(shapes@)) {
                    Some((ms, rest)) => r matches Ok(vs) && members_view(vs@) == ms
                        && final(self)@ == rest,
                    None => r is Err,
                }
            }),
        decreases shapes@,
    {
        let ghost s0 = self@;
        let ghost sv = shapes_view(shapes@);
        let n = shapes.len();
        let mut out: Vec<Value> = Vec::new();
        let mut i: usize = 0;
        proof {
            assert(sv.skip(0) =~= sv);
            if spec_decode_members(s0, sv) is Some {
                let (ms0, l0) = spec_decode_members(s0, sv)->Some_0;
                assert(members_view(out@) + ms0 =~= ms0);
            }
        }
        while i < n
            invariant
                self.wf(),
                i <= n,
                s0 == old(self)@,
                n == shapes@.len(),
                sv == shapes_view(shapes@),
                spec_decode_members(s0, sv) == (match spec_decode_members(self@, sv.skip(i as int)) {
                    Some((ms, left)) => Some((members_view(out@) + ms, left)),
                    None => None::<(Seq<ValModel>, Seq<u8>)>,
                }),
            decreases n - i,
        {
            let ghost pre = self@;
            proof {
                assert(sv.skip(i as int).len() > 0);
                assert(sv.skip(i as int)[0] == sv[i as int]);
                assert(sv[i as int] == shape_view(shapes@[i as int]));
                assert(sv.skip(i as int).drop_first() =~= sv.skip(i as int + 1));
            }
            let v = match self.decode_value(&shapes[i]) {
                Ok(v) => v,
                Err(e) => {
                    proof {
                        assert(spec_decode_members(pre, sv.skip(i as int)) is None);
                    }
                    return Err(e);
                },
            };
            proof {
                let (m, rest) = spec_decode(pre, sv[i as int])->Some_0;
                assert(m == value_view(v));
                assert(rest == self@);
                assert(spec_decode_members(pre, sv.skip(i as int)) == (
                match spec_decode_members(rest, sv.skip(i as int + 1)) {
                    Some((ms, left)) => Some((seq![m] + ms, left)),
                    None => None::<(Seq<ValModel>, Seq<u8>)>,
                }));
                lemma_members_view_push(out@, v);
                if spec_decode_members(self@, sv.skip(i as int + 1)) is Some {
                    let (ms, left) = spec_decode_members(self@, sv.skip(i as int + 1))->Some_0;
                    assert(members_view(out@.push(v)) + ms =~= members_view(out@) + (seq![
                        value_view(v),
                    ] + ms));
                }
            }
            out.push(v);
            i = i + 1;
        }
        proof {
            assert(sv.skip(n as int) =~= Seq::<ShapeModel>::empty());
            assert(spec_decode_members(self@, sv.skip(n as int)) == Some(
                (Seq::<ValModel>::empty(), self@),
            ));
            assert(members_view(out@) + Seq::<ValModel>::empty() =~= members_view(out@));
        }
        Ok(out)
    }
}

/// Round trip of the whole engine: decoding a byte sequence that starts
/// with the encoding of a well-formed value of shape `shape` consumes
/// exactly that encoding and yields the value back, whatever bytes follow
/// it — across arbitrarily nested tuples, dynamic sequences and tagged
/// unions.
pub proof fn lemma_value_round_trip(m: ValModel, shape: ShapeModel, rest: Seq<u8>)
    requires
        matches_shape(m, shape),
        value_wf(m),
    ensures
        spec_decode(value_bytes(m) + rest, shape) == Some((m, rest)),
    decreases m,
{
    match m {
        ValModel::Unit => {
            assert(value_bytes(m) + rest =~= rest);
        },
        ValModel::Bool(b) => {
            lemma_bool_round_trip(b, rest);
        },
        ValModel::UInt(u) => {
            lemma_uvarint_round_trip(u, rest);
        },
        ValModel::SInt(i) => {
            lemma_uvarint_round_trip(zigzag_of(i), rest);
            lemma_zigzag_round_trip(i);
        },
        ValModel::Bytes(b) => {
            lemma_byte_string_round_trip(b, rest);
        },
        ValModel::Text(t) => {
            lemma_string_round_trip(t, rest);
        },
        ValModel::Tuple(ms) => {
            let ss = shape->Tuple_0;
            lemma_members_round_trip(ms, ss, rest);
        },
        ValModel::List(ms) => {
            let elem = shape->List_0;
            lemma_uvarint_round_trip(ms.len() as u64, members_bytes(ms) + rest);
            assert(value_bytes(m) + rest =~= uvarint_bytes(ms.len() as u64) + (members_bytes(ms)
                + rest));
            lemma_list_round_trip(ms, *elem, rest);
        },
        ValModel::Union(ord, payload) => {
            let variants = shape->Union_0;
            lemma_uvarint_round_trip(ord, value_bytes(*payload) + rest);
            assert(value_bytes(m) + rest =~= uvarint_bytes(ord) + (value_bytes(*payload) + rest));
            lemma_value_round_trip(*payload, variants[ord as int], rest);
        },
    }
}

/// Round trip of a fixed sequence: its members decode back in order, each
/// against its own shape, leaving exactly what followed them.
pub proof fn lemma_members_round_trip(ms: Seq<ValModel>, ss: Seq<ShapeModel>, rest: Seq<u8>)
    requires
        ms.len() == ss.len(),
        forall|i: int| 0 <= i < ms.len() ==> matches_shape(#[trigger] ms[i], ss[i]),
        forall|i: int| 0 <= i < ms.len() ==> value_wf(#[trigger] ms[i]),
    ensures
        spec_decode_members(members_bytes(ms) + rest, ss) == Some((ms, rest)),
    decreases ms,
{
    if ms.len() == 0 {
        assert(members_bytes(ms) + rest =~= rest);
        assert(ms =~= Seq::<ValModel>::empty());
    } else {
        assert(members_bytes(ms) + rest =~= value_bytes(ms[0]) + (members_bytes(ms.drop_first())
            + rest));
        assert(matches_shape(ms[0], ss[0]));
        assert(value_wf(ms[0]));
        lemma_value_round_trip(ms[0], ss[0], members_bytes(ms.drop_first()) + rest);
        assert forall|i: int| 0 <= i < ms.drop_first().len() implies matches_shape(
            #[trigger] ms.drop_first()[i],
            ss.drop_first()[i],
        ) by {
            assert(ms.drop_first()[i] == ms[i + 1]);
            assert(ss.drop_first()[i] == ss[i + 1]);
        }
        assert forall|i: int| 0 <= i < ms.drop_first().len() implies value_wf(
            #[trigger] ms.drop_first()[i],
        ) by {
            assert(ms.drop_first()[i] == ms[i + 1]);
        }
        lemma_members_round_trip(ms.drop_first(), ss.drop_first(), rest);
        assert(seq![ms[0]] + ms.drop_first() =~= ms);
    }
}

/// Round trip of a dynamic sequence's elements: exactly as many elements as
/// were declared decode back in order, leaving exactly what followed them.
pub proof fn lemma_list_round_trip(ms: Seq<ValModel>, elem: ShapeModel, rest: Seq<u8>)
    requires
        forall|i: int| 0 <= i < ms.len() ==> matches_shape(#[trigger] ms[i], elem),
        forall|i: int| 0 <= i < ms.len() ==> value_wf(#[trigger] ms[i]),
    ensures
        spec_decode_list(members_bytes(ms) + rest, elem, ms.len()) == Some((ms, rest)),
    decreases ms,
{
    if ms.len() == 0 {
        assert(members_bytes(ms) + rest =~= rest);
        assert(ms =~= Seq::<ValModel>::empty());
    } else {
        assert(members_bytes(ms) + rest =~= value_bytes(ms[0]) + (members_bytes(ms.drop_first())
            + rest));
        assert(matches_shape(ms[0], elem));
        assert(value_wf(ms[0]));
        lemma_value_round_trip(ms[0], elem, members_bytes(ms.drop_first()) + rest);
        assert forall|i: int| 0 <= i < ms.drop_first().len() implies matches_shape(
            #[trigger] ms.drop_first()[i],
            elem,
        ) by {
            assert(ms.drop_first()[i] == ms[i + 1]);
        }
        assert forall|i: int| 0 <= i < ms.drop_first().len() implies value_wf(
            #[trigger] ms.drop_first()[i],
        ) by {
            assert(ms.drop_first()[i] == ms[i + 1]);
        }
        lemma_list_round_trip(ms.drop_first(), elem, rest);
        assert(seq![ms[0]] + ms.drop_first() =~= ms);
    }
}

} // verus!
