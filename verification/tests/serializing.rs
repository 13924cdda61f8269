use encodable::encode;
use encodable::Value;

fn bits(x: f64) -> u64 {
    x.to_bits()
}

#[test]
fn serializer_primitives() {
    let foo = Value::Record(vec![
        Value::Double(bits(1.0)),
        Value::Int64(2),
        Value::Bool(true),
    ]);

    let encoded = encode(&foo).unwrap();

    assert_eq!(encoded.f, vec![bits(1.0)]);
    assert_eq!(encoded.i, vec![2]);
    assert_eq!(encoded.b, vec![true]);
}

#[test]
fn nested_structs() {
    let bar = Value::Record(vec![
        Value::Double(bits(2.0)),
        Value::Int64(2),
        Value::Bool(false),
        Value::Tuple(vec![Value::Double(bits(8.0)), Value::Int64(9)]),
    ]);
    let foo = Value::Record(vec![Value::Int64(1), bar, Value::Bool(true)]);

    let encoded = encode(&foo).unwrap();

    assert_eq!(encoded.f, vec![bits(2.0), bits(8.0)]);
    assert_eq!(encoded.i, vec![1, 2, 9]);
    assert_eq!(encoded.b, vec![false, true]);
}

#[test]
fn empty_record() {
    let encoded = encode(&Value::Record(vec![])).unwrap();

    assert!(encoded.f.is_empty());
    assert!(encoded.i.is_empty());
    assert!(encoded.b.is_empty());
}

#[test]
fn swapping_int_fields_swaps_column_entries() {
    let forward = Value::Record(vec![
        Value::Int64(1),
        Value::Int64(2),
        Value::Double(bits(3.5)),
    ]);
    let swapped = Value::Record(vec![
        Value::Int64(2),
        Value::Int64(1),
        Value::Double(bits(3.5)),
    ]);

    let enc_forward = encode(&forward).unwrap();
    let enc_swapped = encode(&swapped).unwrap();

    assert_eq!(enc_forward.i, vec![1, 2]);
    assert_eq!(enc_swapped.i, vec![2, 1]);
    assert_eq!(enc_forward.f, enc_swapped.f);
    assert_eq!(enc_forward.b, enc_swapped.b);
}

#[test]
fn columns_interleave_independently() {
    let mixed = Value::Record(vec![
        Value::Int64(1),
        Value::Double(bits(5.0)),
        Value::Bool(true),
        Value::Int64(2),
        Value::Double(bits(6.0)),
    ]);
    let without_doubles = Value::Record(vec![
        Value::Int64(1),
        Value::Bool(true),
        Value::Int64(2),
    ]);

    let enc_mixed = encode(&mixed).unwrap();
    let enc_without = encode(&without_doubles).unwrap();

    assert_eq!(enc_mixed.i, vec![1, 2]);
    assert_eq!(enc_mixed.f, vec![bits(5.0), bits(6.0)]);
    assert_eq!(enc_mixed.b, vec![true]);
    assert_eq!(enc_without.i, enc_mixed.i);
    assert_eq!(enc_without.b, enc_mixed.b);
}

#[test]
fn serializer_builds_columns_in_visitation_order() {
    let mut serializer = encodable::Serializer::default();
    serializer.serialize_i64(7);
    serializer.serialize_f64(bits(0.5));
    serializer.serialize_bool(false);
    serializer.serialize_i64(-3);

    let encoding = serializer.consume();

    assert_eq!(encoding.f, vec![bits(0.5)]);
    assert_eq!(encoding.i, vec![7, -3]);
    assert_eq!(encoding.b, vec![false]);
}
