use encodable::decode;
use encodable::encode;
use encodable::Encoding;
use encodable::Shape;
use encodable::Value;

fn bits(x: f64) -> u64 {
    x.to_bits()
}

fn nested_foo() -> Value {
    let bar = Value::Record(vec![
        Value::Double(bits(2.0)),
        Value::Int64(2),
        Value::Bool(false),
        Value::Tuple(vec![Value::Double(bits(8.0)), Value::Int64(9)]),
    ]);
    Value::Record(vec![Value::Int64(1), bar, Value::Bool(true)])
}

#[test]
fn encode_decode() {
    let foo = nested_foo();
    let shape = foo.shape();

    let encoding = encode(&foo).unwrap();
    let foo_decoded = decode(&encoding, &shape).unwrap();
    let foo_decoded_encoding = encode(&foo_decoded).unwrap();

    assert_eq!(foo, foo_decoded);
    assert_eq!(encoding, foo_decoded_encoding);
}

#[test]
fn round_trip_primitives() {
    for v in [
        Value::Double(bits(-0.75)),
        Value::Int64(i64::MIN),
        Value::Int64(i64::MAX),
        Value::Bool(false),
    ] {
        let shape = v.shape();
        let encoding = encode(&v).unwrap();
        assert_eq!(decode(&encoding, &shape).unwrap(), v);
    }
}

#[test]
fn shape_of_value_matches_hand_written_shape() {
    let expected = Shape::Record(vec![
        Shape::Int64,
        Shape::Record(vec![
            Shape::Double,
            Shape::Int64,
            Shape::Bool,
            Shape::Tuple(vec![Shape::Double, Shape::Int64]),
        ]),
        Shape::Bool,
    ]);

    assert_eq!(nested_foo().shape(), expected);
}

#[test]
fn encoding_equality_is_by_columns() {
    let a = Encoding { f: vec![bits(1.0)], i: vec![2], b: vec![true] };
    let b = Encoding { f: vec![bits(1.0)], i: vec![2], b: vec![true] };
    let c = Encoding { f: vec![bits(1.5)], i: vec![2], b: vec![true] };

    assert_eq!(a, b);
    assert_ne!(a, c);
    assert_eq!(a.clone(), a);
}

#[test]
fn default_encoding_is_empty() {
    let encoding = Encoding::default();

    assert!(encoding.f.is_empty());
    assert!(encoding.i.is_empty());
    assert!(encoding.b.is_empty());
}
