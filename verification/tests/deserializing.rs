use encodable::decode;
use encodable::Deserializer;
use encodable::Encoding;
use encodable::Error;
use encodable::Shape;
use encodable::Value;

fn bits(x: f64) -> u64 {
    x.to_bits()
}

#[test]
fn deserializer_primitives() {
    let encoding = Encoding { f: vec![bits(1.0)], i: vec![], b: vec![] };
    let f = decode(&encoding, &Shape::Double).unwrap();
    assert_eq!(f, Value::Double(bits(1.0)));

    let encoding = Encoding { f: vec![], i: vec![1], b: vec![] };
    let i = decode(&encoding, &Shape::Int64).unwrap();
    assert_eq!(i, Value::Int64(1));

    let encoding = Encoding { f: vec![], i: vec![], b: vec![true] };
    let b = decode(&encoding, &Shape::Bool).unwrap();
    assert_eq!(b, Value::Bool(true));
}

#[test]
fn flat_struct() {
    let encoding = Encoding { f: vec![bits(1.0)], i: vec![2], b: vec![true] };
    let shape = Shape::Record(vec![Shape::Double, Shape::Int64, Shape::Bool]);

    let foo = decode(&encoding, &shape).unwrap();

    assert_eq!(
        foo,
        Value::Record(vec![
            Value::Double(bits(1.0)),
            Value::Int64(2),
            Value::Bool(true),
        ])
    );
}

#[test]
fn nested_struct() {
    let encoding = Encoding {
        f: vec![bits(1.0), bits(8.0)],
        i: vec![1, 2, 9],
        b: vec![false, true],
    };
    let bar_shape = Shape::Record(vec![
        Shape::Double,
        Shape::Int64,
        Shape::Bool,
        Shape::Tuple(vec![Shape::Double, Shape::Int64]),
    ]);
    let foo_shape = Shape::Record(vec![Shape::Int64, bar_shape, Shape::Bool]);

    let foo = decode(&encoding, &foo_shape).unwrap();

    let expected_bar = Value::Record(vec![
        Value::Double(bits(1.0)),
        Value::Int64(2),
        Value::Bool(false),
        Value::Tuple(vec![Value::Double(bits(8.0)), Value::Int64(9)]),
    ]);
    let expected = Value::Record(vec![Value::Int64(1), expected_bar, Value::Bool(true)]);
    assert_eq!(foo, expected);
}

#[test]
fn lone_int_from_single_entry_column() {
    let encoding = Encoding { f: vec![], i: vec![1], b: vec![] };

    let decoded = decode(&encoding, &Shape::Int64).unwrap();

    assert_eq!(decoded, Value::Int64(1));
}

#[test]
fn missing_bool_reports_bool_out_of_bounds() {
    let encoding = Encoding { f: vec![bits(1.0)], i: vec![2], b: vec![] };
    let shape = Shape::Record(vec![Shape::Double, Shape::Int64, Shape::Bool]);

    let res = decode(&encoding, &shape);

    assert_eq!(res, Err(Error::BoolIndexOutOfBounds));
}

#[test]
fn missing_int_reports_int_out_of_bounds() {
    let encoding = Encoding { f: vec![], i: vec![1], b: vec![] };
    let shape = Shape::Tuple(vec![Shape::Int64, Shape::Int64]);

    let res = decode(&encoding, &shape);

    assert_eq!(res, Err(Error::IntIndexOutOfBounds));
}

#[test]
fn missing_float_reports_float_out_of_bounds() {
    let encoding = Encoding { f: vec![], i: vec![], b: vec![] };

    let res = decode(&encoding, &Shape::Double);

    assert_eq!(res, Err(Error::FloatIndexOutOfBounds));
}

#[test]
fn leftover_float_reports_incomplete() {
    let encoding = Encoding {
        f: vec![bits(1.0), bits(9.9)],
        i: vec![],
        b: vec![],
    };

    let mut deserializer = Deserializer::from_encoding(&encoding);
    let pulled = deserializer.deserialize_shape(&Shape::Double);
    assert_eq!(pulled, Ok(Value::Double(bits(1.0))));
    assert!(!deserializer.completed());

    let res = decode(&encoding, &Shape::Double);
    assert_eq!(res, Err(Error::Incomplete));
}

#[test]
fn cursors_advance_per_kind() {
    let encoding = Encoding {
        f: vec![bits(0.25)],
        i: vec![4, 5],
        b: vec![true],
    };
    let mut deserializer = Deserializer::from_encoding(&encoding);

    assert_eq!(deserializer.next_int(), Ok(4));
    assert_eq!(deserializer.next_float(), Ok(bits(0.25)));
    assert_eq!(deserializer.next_float(), Err(Error::FloatIndexOutOfBounds));
    assert_eq!(deserializer.next_int(), Ok(5));
    assert_eq!(deserializer.next_bool(), Ok(true));
    assert!(deserializer.completed());
    assert_eq!(deserializer.next_bool(), Err(Error::BoolIndexOutOfBounds));
}

#[test]
fn empty_shape_consumes_nothing() {
    let encoding = Encoding { f: vec![], i: vec![], b: vec![] };

    let decoded = decode(&encoding, &Shape::Record(vec![])).unwrap();

    assert_eq!(decoded, Value::Record(vec![]));
}

#[test]
fn aggregate_walk_is_bounded_by_the_shape() {
    // Two ints available, but the record asks for only one: the member walk
    // stops after one element and the surplus is reported by decode.
    let encoding = Encoding { f: vec![], i: vec![10, 20], b: vec![] };
    let shape = Shape::Record(vec![Shape::Int64]);

    let mut deserializer = Deserializer::from_encoding(&encoding);
    let pulled = deserializer.deserialize_shape(&shape);
    assert_eq!(pulled, Ok(Value::Record(vec![Value::Int64(10)])));
    assert!(!deserializer.completed());

    assert_eq!(decode(&encoding, &shape), Err(Error::Incomplete));
}
