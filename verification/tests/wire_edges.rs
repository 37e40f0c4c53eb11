use sibor::Deserializer;
use sibor::Error;
use sibor::Serializer;

fn encode_uvarint(v: u64) -> Vec<u8> {
    let mut ser = Serializer::new(Vec::new());
    ser.write_uvarint(v).unwrap();
    ser.into_writer()
}

fn encode_ivarint(v: i64) -> Vec<u8> {
    let mut ser = Serializer::new(Vec::new());
    ser.write_ivarint(v).unwrap();
    ser.into_writer()
}

#[test]
fn test_varint_boundary_sizes() {
    assert_eq!(encode_uvarint(0), vec![0x00]);
    assert_eq!(encode_uvarint(0x7f), vec![0x7f]);
    assert_eq!(encode_uvarint(0x80), vec![0x80, 0x01]);
    assert_eq!(encode_uvarint(u64::MAX).len(), 10);

    let ser = Serializer::new(Vec::new());
    assert_eq!(ser.sizeof_uvarint(&0).unwrap(), 1);
    assert_eq!(ser.sizeof_uvarint(&0x7f).unwrap(), 1);
    assert_eq!(ser.sizeof_uvarint(&0x80).unwrap(), 2);
    assert_eq!(ser.sizeof_uvarint(&u64::MAX).unwrap(), 10);
}

#[test]
fn test_varint_unterminated_fails() {
    // Ten bytes all with the continuation bit set: invalid, whatever follows.
    let mut de = Deserializer::new(vec![0xff; 10]);
    match de.read_uvarint() {
        Err(Error::Invalid(m)) => assert_eq!(m, "variable integer encoding"),
        other => panic!("expected invalid varint, got {other:?}"),
    }
}

#[test]
fn test_varint_truncated_fails() {
    // Fewer than ten continuation bytes and no terminator: the input ran out.
    let mut de = Deserializer::new(vec![0xff; 9]);
    match de.read_uvarint() {
        Err(Error::Io(_)) => {}
        other => panic!("expected io error, got {other:?}"),
    }
}

#[test]
fn test_zigzag_values() {
    let ser = Serializer::new(Vec::new());
    assert_eq!(ser.zigzag(0), 0x00);
    assert_eq!(ser.zigzag(-1), 0x01);
    assert_eq!(ser.zigzag(1), 0x02);
    assert_eq!(ser.zigzag(-2), 0x03);
    assert_eq!(ser.zigzag(2), 0x04);
    assert_eq!(ser.zigzag(i64::MAX), u64::MAX - 1);
    assert_eq!(ser.zigzag(i64::MIN), u64::MAX);

    assert_eq!(encode_ivarint(0), vec![0x00]);
    assert_eq!(encode_ivarint(-1), vec![0x01]);
    assert_eq!(encode_ivarint(1), vec![0x02]);
    assert_eq!(encode_ivarint(-2), vec![0x03]);
    assert_eq!(encode_ivarint(2), vec![0x04]);
}

#[test]
fn test_boolean_strictness() {
    let mut de = Deserializer::new(vec![0x00]);
    assert_eq!(de.read_bool().unwrap(), false);

    let mut de = Deserializer::new(vec![0x01]);
    assert_eq!(de.read_bool().unwrap(), true);

    let mut de = Deserializer::new(vec![0x02]);
    match de.read_bool() {
        Err(Error::Invalid(m)) => assert_eq!(m, "boolean encoding"),
        other => panic!("expected invalid boolean, got {other:?}"),
    }
}

#[test]
fn test_length_bound_enforcement() {
    // Declared length 5 against a maximum of 3: rejected before any payload
    // byte is read.
    let mut de = Deserializer::new(vec![0x05, 1, 2, 3, 4, 5]);
    match de.read_bytes(0, 3) {
        Err(Error::Invalid(m)) => assert_eq!(m, "length: 5"),
        other => panic!("expected invalid length, got {other:?}"),
    }
    // The payload was not consumed: the next byte is still the first one.
    assert_eq!(de.read_u8().unwrap(), 1);
}

#[test]
fn test_length_bound_minimum() {
    let mut de = Deserializer::new(vec![0x01, 9]);
    match de.read_bytes(2, 10) {
        Err(Error::Invalid(m)) => assert_eq!(m, "length: 1"),
        other => panic!("expected invalid length, got {other:?}"),
    }
}

#[test]
fn test_dynamic_sequence_exhaustion() {
    // Encode side: a declared count of 2 admits exactly 2 elements.
    let mut ser = Serializer::new(Vec::new());
    let mut coll = ser.serialize_seq(Some(2)).unwrap();
    coll.serialize_element().unwrap();
    ser.write_uvarint(10).unwrap();
    coll.serialize_element().unwrap();
    ser.write_uvarint(20).unwrap();
    match coll.serialize_element() {
        Err(Error::Generic(m)) => {
            assert_eq!(m, "tried to serialize too many elements in collection")
        }
        other => panic!("expected too-many-elements error, got {other:?}"),
    }
    let encoded = ser.into_writer();

    // Decode side: a declared count of 2 yields exactly 2 elements, then
    // signals completion, even though more bytes follow in the source.
    let mut with_extra = encoded.clone();
    with_extra.push(0x63);
    let mut de = Deserializer::new(with_extra);
    let mut coll = de.deserialize_seq().unwrap();
    assert!(coll.next_element());
    assert_eq!(de.read_uvarint().unwrap(), 10);
    assert!(coll.next_element());
    assert_eq!(de.read_uvarint().unwrap(), 20);
    assert!(!coll.next_element());
    assert!(!coll.next_element());
}

#[test]
fn test_unsized_sequence_unsupported() {
    let mut ser = Serializer::new(Vec::new());
    match ser.serialize_seq(None) {
        Err(Error::Unsupported(m)) => assert_eq!(m, "serialize seq (unsized)"),
        other => panic!("expected unsupported error, got {other:?}"),
    }
}

#[test]
fn test_tagged_union_no_payload() {
    // Variant ordinal 2 of a 3-variant union with no payload is exactly the
    // single byte 0x02.
    let mut ser = Serializer::new(Vec::new());
    ser.write_uvarint(2).unwrap();
    let encoded = ser.into_writer();
    assert_eq!(encoded, vec![0x02]);

    let mut de = Deserializer::new(encoded);
    assert_eq!(de.read_uvarint().unwrap(), 2);
}

#[test]
fn test_tagged_union_two_field_payload() {
    // A mixed union variant with a two-field payload: the ordinal, then both
    // fields in declared order.
    let mut ser = Serializer::new(Vec::new());
    ser.write_uvarint(1).unwrap();
    ser.write_ivarint(-7).unwrap();
    ser.write_string("field").unwrap();
    let encoded = ser.into_writer();

    let mut de = Deserializer::new(encoded);
    assert_eq!(de.read_uvarint().unwrap(), 1);
    assert_eq!(de.read_ivarint().unwrap(), -7);
    assert_eq!(de.read_string(0, usize::MAX).unwrap(), "field");
}

#[test]
fn test_encoding_deterministic() {
    let mut first = Serializer::new(Vec::new());
    first.write_uvarint(123456).unwrap();
    first.write_ivarint(-9876).unwrap();
    first.write_bool(true).unwrap();
    first.write_string("same value").unwrap();
    first.write_bytes(&[1, 2, 3]).unwrap();

    let mut second = Serializer::new(Vec::new());
    second.write_uvarint(123456).unwrap();
    second.write_ivarint(-9876).unwrap();
    second.write_bool(true).unwrap();
    second.write_string("same value").unwrap();
    second.write_bytes(&[1, 2, 3]).unwrap();

    assert_eq!(first.into_writer(), second.into_writer());
}

#[test]
fn test_string_multibyte_round_trip() {
    let given = "héllo wörld — ≠ ascii";
    let mut ser = Serializer::new(Vec::new());
    ser.write_string(given).unwrap();
    let mut de = Deserializer::new(ser.into_writer());
    assert_eq!(de.read_string(0, usize::MAX).unwrap(), given);
}

#[test]
fn test_string_invalid_utf8_fails() {
    // A two-byte string whose bytes are not valid UTF-8.
    let mut de = Deserializer::new(vec![0x02, 0xff, 0xfe]);
    match de.read_string(0, usize::MAX) {
        Err(Error::Generic(_)) => {}
        other => panic!("expected generic error, got {other:?}"),
    }
}

#[test]
fn test_short_reads_fail_with_io() {
    let mut de = Deserializer::new(vec![]);
    match de.read_bool() {
        Err(Error::Io(_)) => {}
        other => panic!("expected io error, got {other:?}"),
    }

    // Declared length 5 with only 2 payload bytes available.
    let mut de = Deserializer::new(vec![0x05, 1, 2]);
    match de.read_bytes(0, 10) {
        Err(Error::Io(_)) => {}
        other => panic!("expected io error, got {other:?}"),
    }
}

#[test]
fn test_non_minimal_varint_accepted() {
    // The decoder tolerates non-minimal encodings up to 10 bytes.
    let mut de = Deserializer::new(vec![0x80, 0x00]);
    assert_eq!(de.read_uvarint().unwrap(), 0);

    let mut de = Deserializer::new(vec![0xff, 0x00]);
    assert_eq!(de.read_uvarint().unwrap(), 0x7f);
}

#[test]
fn test_byte_string_appends_after_prefix() {
    let mut ser = Serializer::new(Vec::new());
    ser.write_bytes(&[0xaa, 0xbb]).unwrap();
    assert_eq!(ser.into_writer(), vec![0x02, 0xaa, 0xbb]);
}
