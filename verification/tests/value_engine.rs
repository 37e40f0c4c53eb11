use sibor::encoded_size;
use sibor::from_bytes;
use sibor::to_bytes;
use sibor::Error;
use sibor::Shape;
use sibor::Value;

fn union_shape() -> Shape {
    // A three-variant union: no payload, a two-field payload, and a list of
    // byte strings.
    Shape::Union(vec![
        Shape::Unit,
        Shape::Tuple(vec![Shape::SInt, Shape::Text]),
        Shape::List(Box::new(Shape::Bytes)),
    ])
}

#[test]
fn test_value_scalar_round_trips() {
    let shape = Shape::UInt;
    let given = Value::UInt(123456789);
    let encoded = to_bytes(&given).unwrap();
    assert_eq!(encoded_size(&given).unwrap(), encoded.len());
    let decoded = from_bytes(encoded, &shape).unwrap();
    assert_eq!(given, decoded);

    let shape = Shape::SInt;
    let given = Value::SInt(-987654321);
    let encoded = to_bytes(&given).unwrap();
    let decoded = from_bytes(encoded, &shape).unwrap();
    assert_eq!(given, decoded);

    let shape = Shape::Bool;
    let given = Value::Bool(true);
    let encoded = to_bytes(&given).unwrap();
    assert_eq!(encoded, vec![0x01]);
    let decoded = from_bytes(encoded, &shape).unwrap();
    assert_eq!(given, decoded);

    let shape = Shape::Text;
    let given = Value::Text("schema-driven".to_owned());
    let encoded = to_bytes(&given).unwrap();
    assert_eq!(encoded_size(&given).unwrap(), encoded.len());
    let decoded = from_bytes(encoded, &shape).unwrap();
    assert_eq!(given, decoded);
}

#[test]
fn test_value_nested_round_trip() {
    let shape = Shape::Tuple(vec![
        Shape::UInt,
        union_shape(),
        Shape::List(Box::new(union_shape())),
    ]);
    let given = Value::Tuple(vec![
        Value::UInt(7),
        Value::Union(
            1,
            Box::new(Value::Tuple(vec![
                Value::SInt(-42),
                Value::Text("héllo".to_owned()),
            ])),
        ),
        Value::List(vec![
            Value::Union(0, Box::new(Value::Unit)),
            Value::Union(
                2,
                Box::new(Value::List(vec![
                    Value::Bytes(vec![1, 2, 3]),
                    Value::Bytes(vec![]),
                ])),
            ),
        ]),
    ]);
    let encoded = to_bytes(&given).unwrap();
    assert_eq!(encoded_size(&given).unwrap(), encoded.len());
    let decoded = from_bytes(encoded, &shape).unwrap();
    assert_eq!(given, decoded);
}

#[test]
fn test_value_union_no_payload_is_one_byte() {
    // Variant ordinal 2 of a 3-variant union with a unit payload encodes to
    // exactly the single byte 0x02.
    let shape = Shape::Union(vec![Shape::Unit, Shape::Unit, Shape::Unit]);
    let given = Value::Union(2, Box::new(Value::Unit));
    let encoded = to_bytes(&given).unwrap();
    assert_eq!(encoded, vec![0x02]);
    let decoded = from_bytes(encoded, &shape).unwrap();
    assert_eq!(given, decoded);
}

#[test]
fn test_value_union_ordinal_out_of_range() {
    let shape = Shape::Union(vec![Shape::Unit, Shape::Unit, Shape::Unit]);
    match from_bytes(vec![0x05], &shape) {
        Err(Error::Generic(m)) => assert_eq!(m, "variant ordinal out of range"),
        other => panic!("expected ordinal error, got {other:?}"),
    }
}

#[test]
fn test_value_list_reads_declared_count_only() {
    // Count 2, two booleans, then a trailing byte that must stay unread.
    let shape = Shape::List(Box::new(Shape::Bool));
    let decoded = from_bytes(vec![0x02, 0x01, 0x00, 0x63], &shape).unwrap();
    assert_eq!(
        decoded,
        Value::List(vec![Value::Bool(true), Value::Bool(false)])
    );
}

#[test]
fn test_value_malformed_payload_fails() {
    let shape = Shape::Bool;
    match from_bytes(vec![0x07], &shape) {
        Err(Error::Invalid(m)) => assert_eq!(m, "boolean encoding"),
        other => panic!("expected invalid boolean, got {other:?}"),
    }

    let shape = Shape::Bytes;
    match from_bytes(vec![0x05, 1, 2], &shape) {
        Err(Error::Io(_)) => {}
        other => panic!("expected io error, got {other:?}"),
    }
}

#[test]
fn test_value_encoding_deterministic() {
    let given = Value::Tuple(vec![
        Value::Text("same".to_owned()),
        Value::UInt(99),
        Value::Union(1, Box::new(Value::Tuple(vec![Value::SInt(-1), Value::Text(String::new())]))),
    ]);
    assert_eq!(to_bytes(&given).unwrap(), to_bytes(&given).unwrap());
}
