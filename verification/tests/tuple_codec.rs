use cozo::data::tuple::{EncodedTuple, Tuple, TupleError};
use cozo::data::text::Text;
use cozo::data::value::DataValue;

fn sample() -> Tuple {
    Tuple(vec![
        DataValue::Int(1),
        DataValue::Float(2.0f64.to_bits()),
        DataValue::Str(Text::new("my_name_is")),
    ])
}

fn bad_length(bytes: &[u8]) -> TupleError {
    TupleError::BadData("bad data length".to_string(), bytes.to_vec())
}

fn bad_value(bytes: &[u8]) -> TupleError {
    TupleError::BadData("bad value data".to_string(), bytes.to_vec())
}

#[test]
fn test_serde() {
    let val = sample();
    let encoded = val.encode_as_key(123);
    println!("{:x?}", encoded);
    let encoded_tuple: EncodedTuple = (&encoded as &[u8]).into();
    println!("{:?}", encoded_tuple.prefix());
    println!("{:?}", encoded_tuple.arity());
    println!("{:?}", encoded_tuple.get(0));
    println!("{:?}", encoded_tuple.get(1));
    println!("{:?}", encoded_tuple.get(2));
    println!("{:?}", encoded_tuple.get(3));
    println!("{:?}", encoded_tuple.decode());
    assert_eq!(encoded_tuple.prefix(), Ok(123));
    assert_eq!(encoded_tuple.arity(), Ok(3));
    assert_eq!(encoded_tuple.get(0), Ok(DataValue::Int(1)));
    assert_eq!(encoded_tuple.get(1), Ok(DataValue::Float(2.0f64.to_bits())));
    assert_eq!(encoded_tuple.get(2), Ok(DataValue::Str(Text::new("my_name_is"))));
    assert_eq!(encoded_tuple.get(3), Err(bad_length(&encoded)));
    assert_eq!(encoded_tuple.decode(), Ok(sample()));
}

#[test]
fn key_layout_of_one_integer() {
    let key = Tuple(vec![DataValue::Int(1)]).encode_as_key(123);
    assert_eq!(
        key,
        vec![0, 0, 0, 123, 0, 0, 0, 1, 0x05, 0, 0, 0, 0, 0, 0, 0, 1]
    );
}

#[test]
fn key_layout_with_offsets() {
    let key = Tuple(vec![
        DataValue::Str(Text::new("ab")),
        DataValue::Bool(true),
        DataValue::Null,
    ])
    .encode_as_key(0x0102_0304);
    let expected: Vec<u8> = vec![
        1, 2, 3, 4, // prefix
        0, 0, 0, 3, // arity
        0, 0, 0, 23, // where the second value starts
        0, 0, 0, 24, // where the third value starts
        0x07, 0, 0, 0, 2, b'a', b'b', // "ab"
        0x04, // true
        0x02, // null
    ];
    assert_eq!(key, expected);
    assert_eq!(Tuple(vec![DataValue::Null]).arity(), 1);
}

#[test]
fn key_of_the_empty_tuple() {
    let key = Tuple(vec![]).encode_as_key(7);
    assert_eq!(key, vec![0, 0, 0, 7, 0, 0, 0, 0]);
    let encoded = EncodedTuple(&key);
    assert_eq!(encoded.prefix(), Ok(7));
    assert_eq!(encoded.arity(), Ok(0));
    assert_eq!(encoded.decode(), Ok(Tuple(vec![])));
    let mut it = encoded.iter();
    assert!(it.next().is_none());
}

#[test]
fn value_byte_forms() {
    let mut out = vec![0xaa];
    DataValue::Guard.encode(&mut out);
    DataValue::Null.encode(&mut out);
    DataValue::Bool(false).encode(&mut out);
    DataValue::Bool(true).encode(&mut out);
    DataValue::Bot.encode(&mut out);
    assert_eq!(out, vec![0xaa, 0x01, 0x02, 0x03, 0x04, 0xff]);

    let mut out = Vec::new();
    DataValue::Int(-2).encode(&mut out);
    assert_eq!(out, vec![0x05, 0xff, 0xff, 0xff, 0xff, 0xff, 0xff, 0xff, 0xfe]);

    let mut out = Vec::new();
    DataValue::Float(1.0f64.to_bits()).encode(&mut out);
    assert_eq!(out, vec![0x06, 0x3f, 0xf0, 0, 0, 0, 0, 0, 0]);

    let mut out = Vec::new();
    DataValue::Str(Text::new("hé")).encode(&mut out);
    assert_eq!(out, vec![0x07, 0, 0, 0, 3, b'h', 0xc3, 0xa9]);

    let mut out = Vec::new();
    DataValue::List(vec![DataValue::Int(1), DataValue::List(vec![])]).encode(&mut out);
    assert_eq!(
        out,
        vec![0x08, 0, 0, 0, 2, 0x05, 0, 0, 0, 0, 0, 0, 0, 1, 0x08, 0, 0, 0, 0]
    );
}

#[test]
fn value_round_trip_with_trailing_bytes() {
    let values = vec![
        DataValue::Guard,
        DataValue::Null,
        DataValue::Bool(true),
        DataValue::Bool(false),
        DataValue::Int(i64::MIN),
        DataValue::Int(i64::MAX),
        DataValue::Int(0),
        DataValue::Float(f64::NAN.to_bits()),
        DataValue::Float((-0.0f64).to_bits()),
        DataValue::Str(Text::new("")),
        DataValue::Str(Text::new("the quick brown fox \u{10ffff}")),
        DataValue::List(vec![
            DataValue::List(vec![DataValue::Str(Text::new("x")), DataValue::Bot]),
            DataValue::Int(-7),
        ]),
        DataValue::Bot,
    ];
    for v in values {
        let mut bytes = Vec::new();
        v.encode(&mut bytes);
        let len = bytes.len();
        bytes.extend_from_slice(&[0x55, 0x66]);
        assert_eq!(DataValue::decode(&bytes), Some((v, len)));
    }
}

#[test]
fn value_decode_rejects_bad_bytes() {
    assert_eq!(DataValue::decode(&[]), None);
    assert_eq!(DataValue::decode(&[0x00]), None);
    assert_eq!(DataValue::decode(&[0x09]), None);
    // an integer cut short
    assert_eq!(DataValue::decode(&[0x05, 0, 0, 0]), None);
    // a string whose length leaves the bytes
    assert_eq!(DataValue::decode(&[0x07, 0, 0, 0, 2, b'a']), None);
    // a string that is not UTF-8
    assert_eq!(DataValue::decode(&[0x07, 0, 0, 0, 1, 0xff]), None);
    // a list that announces more items than follow
    assert_eq!(DataValue::decode(&[0x08, 0, 0, 0, 2, 0x02]), None);
    assert_eq!(DataValue::decode(&[0x04, 0x02]), Some((DataValue::Bool(true), 1)));
}

#[test]
fn round_trip_of_a_mixed_tuple() {
    let make = || {
        Tuple(vec![
            DataValue::Guard,
            DataValue::List(vec![DataValue::Int(3), DataValue::Str(Text::new("é"))]),
            DataValue::Float(f64::INFINITY.to_bits()),
            DataValue::Str(Text::new("")),
            DataValue::Bot,
        ])
    };
    let key = make().encode_as_key(u32::MAX);
    let encoded = EncodedTuple(&key);
    assert_eq!(encoded.prefix(), Ok(u32::MAX));
    assert_eq!(encoded.arity(), Ok(make().arity()));
    let tuple = make();
    for (idx, v) in tuple.0.iter().enumerate() {
        assert_eq!(encoded.get(idx).as_ref(), Ok(v));
    }
    assert_eq!(encoded.decode(), Ok(make()));
}

#[test]
fn short_keys_have_no_prefix_and_no_arity() {
    let bytes = [1u8, 2, 3];
    let encoded = EncodedTuple(&bytes);
    assert_eq!(encoded.prefix(), Err(bad_length(&bytes)));
    assert_eq!(encoded.arity(), Err(bad_length(&bytes)));
    assert_eq!(encoded.get(0), Err(bad_length(&bytes)));
    assert_eq!(encoded.get(1), Err(bad_length(&bytes)));

    let bytes = [0u8, 0, 0, 9, 0, 0, 0];
    let encoded = EncodedTuple(&bytes);
    assert_eq!(encoded.prefix(), Ok(9));
    assert_eq!(encoded.arity(), Err(bad_length(&bytes)));
}

#[test]
fn get_checks_offsets() {
    // arity 2, the offset of the second value points past the end
    let bytes = [0u8, 0, 0, 1, 0, 0, 0, 2, 0, 0, 0, 99, 0x02, 0x04];
    let encoded = EncodedTuple(&bytes);
    assert_eq!(encoded.get(0), Ok(DataValue::Null));
    assert_eq!(encoded.get(1), Err(bad_length(&bytes)));
    // the offset table is cut short
    let bytes = [0u8, 0, 0, 1, 0, 0, 0, 2, 0, 0];
    let encoded = EncodedTuple(&bytes);
    assert_eq!(encoded.get(1), Err(bad_length(&bytes)));
    // the header says that the first value starts where the key ends
    let bytes = [0u8, 0, 0, 1, 0, 0, 0, 1];
    let encoded = EncodedTuple(&bytes);
    assert_eq!(encoded.get(0), Err(bad_length(&bytes)));
    // an index so large that its slot cannot exist
    assert_eq!(encoded.get(usize::MAX), Err(bad_length(&bytes)));
    // an offset that points at bytes which are no value
    let bytes = [0u8, 0, 0, 1, 0, 0, 0, 2, 0, 0, 0, 13, 0x02, 0x00];
    let encoded = EncodedTuple(&bytes);
    assert_eq!(encoded.get(1), Err(bad_value(&bytes)));
}

#[test]
fn iteration_fails_item_by_item() {
    // three values, the second of which is damaged
    let mut key = Tuple(vec![
        DataValue::Int(1),
        DataValue::Bool(true),
        DataValue::Str(Text::new("z")),
    ])
    .encode_as_key(5);
    let second = u32::from_be_bytes([key[8], key[9], key[10], key[11]]) as usize;
    key[second] = 0x00;
    let encoded = EncodedTuple(&key);
    let mut it = encoded.iter();
    assert_eq!(it.next(), Some(Ok(DataValue::Int(1))));
    assert_eq!(it.next(), Some(Err(bad_value(&key))));
    assert_eq!(it.next(), Some(Ok(DataValue::Str(Text::new("z")))));
    assert_eq!(it.next(), None);
    assert_eq!(it.next(), None);
    assert_eq!(encoded.decode(), Err(bad_value(&key)));
    // a fresh walk starts over
    let mut again = encoded.iter();
    assert_eq!(again.next(), Some(Ok(DataValue::Int(1))));
}

#[test]
fn iteration_over_a_cut_header_yields_one_fault() {
    let bytes = [0u8, 0, 0, 1, 0];
    let encoded = EncodedTuple(&bytes);
    let mut it = encoded.iter();
    assert_eq!(it.next(), Some(Err(bad_length(&bytes))));
    assert_eq!(it.next(), None);
    assert_eq!(encoded.decode(), Err(bad_length(&bytes)));
}
