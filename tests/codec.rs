use v8_format::{decode, encode, ArrayBufferViewType, Error, ErrorType, Value, FORMAT_VERSION};

fn round_trip(v: Value) {
    let bytes = encode(&v).unwrap();
    assert_eq!(decode(&bytes).unwrap(), v);
}

#[test]
fn encode_true_and_false() {
    assert_eq!(encode(&Value::Boolean(true)).unwrap(), vec![0xFF, FORMAT_VERSION, 0x54]);
    assert_eq!(encode(&Value::Boolean(false)).unwrap(), vec![0xFF, FORMAT_VERSION, 0x46]);
}

#[test]
fn encode_small_integers() {
    assert_eq!(encode(&Value::Uint32(1)).unwrap(), vec![0xFF, FORMAT_VERSION, 0x55, 0x01]);
    assert_eq!(encode(&Value::Int32(1)).unwrap(), vec![0xFF, FORMAT_VERSION, 0x49, 0x02]);
    assert_eq!(encode(&Value::Int32(-1)).unwrap(), vec![0xFF, FORMAT_VERSION, 0x49, 0x01]);
    assert_eq!(encode(&Value::Uint32(300)).unwrap(), vec![0xFF, FORMAT_VERSION, 0x55, 0xAC, 0x02]);
}

#[test]
fn encode_one_byte_string() {
    assert_eq!(
        encode(&Value::String("test".to_string(), false)).unwrap(),
        vec![0xFF, FORMAT_VERSION, 0x22, 0x04, b't', b'e', b's', b't']
    );
}

#[test]
fn encode_known_length_array() {
    let v = Value::Array(vec![Value::Boolean(true), Value::Boolean(false)]);
    assert_eq!(
        encode(&v).unwrap(),
        vec![0xFF, FORMAT_VERSION, 0x41, 0x02, 0x54, 0x46, 0x24, 0x00, 0x02]
    );
}

#[test]
fn encode_object_keeps_field_order() {
    let v = Value::Object(vec![
        ("x".to_string(), Value::Int32(-1234)),
        ("y".to_string(), Value::Int32(7)),
    ]);
    assert_eq!(
        encode(&v).unwrap(),
        vec![
            0xFF, FORMAT_VERSION, 0x6F, 0x22, 0x01, b'x', 0x49, 0xA3, 0x13, 0x22, 0x01, b'y', 0x49,
            0x0E, 0x7B, 0x02
        ]
    );
}

#[test]
fn encode_bigint_sign_and_magnitude() {
    assert_eq!(
        encode(&Value::BigInt(1)).unwrap(),
        vec![0xFF, FORMAT_VERSION, 0x5A, 0x10, 1, 0, 0, 0, 0, 0, 0, 0]
    );
    assert_eq!(
        encode(&Value::BigInt(-2)).unwrap(),
        vec![0xFF, FORMAT_VERSION, 0x5A, 0x11, 2, 0, 0, 0, 0, 0, 0, 0]
    );
}

#[test]
fn round_trip_scalars() {
    round_trip(Value::Undefined);
    round_trip(Value::Null);
    round_trip(Value::Boolean(true));
    round_trip(Value::Int32(i32::MIN));
    round_trip(Value::Int32(i32::MAX));
    round_trip(Value::Uint32(u32::MAX));
    round_trip(Value::Double(3.14f64.to_ne_bytes()));
    round_trip(Value::BigInt(i64::MIN));
    round_trip(Value::BigInt(i64::MAX));
    round_trip(Value::String("héllo".to_string(), true));
    round_trip(Value::ObjectReference { id: 7 });
    round_trip(Value::Date(1.5e12f64.to_ne_bytes()));
    round_trip(Value::NumberObject((-0.5f64).to_ne_bytes()));
    round_trip(Value::StringObject("boxed".to_string()));
    round_trip(Value::RegExp { expr: "a+b".to_string(), flags: 5 });
    round_trip(Value::ArrayBuffer(vec![1, 2, 3]));
    round_trip(Value::ArrayBufferTransfer { transfer_id: 9 });
    round_trip(Value::SharedArrayBuffer { transfer_id: 1000 });
}

#[test]
fn round_trip_composites() {
    round_trip(Value::Array(vec![]));
    round_trip(Value::Object(vec![]));
    round_trip(Value::JsMap(vec![(Value::Int32(1), Value::String("one".to_string(), false))]));
    round_trip(Value::JsSet(vec![Value::Null, Value::Uint32(2)]));
    round_trip(Value::Array(vec![
        Value::Object(vec![("k".to_string(), Value::Array(vec![Value::Undefined]))]),
        Value::ArrayBufferView {
            ty: ArrayBufferViewType::Uint16Array,
            byte_offset: 2,
            byte_length: 4,
            buffer: vec![0, 1, 2, 3, 4, 5],
        },
        Value::Error {
            ty: ErrorType::RangeError,
            message: Some("bad".to_string()),
            stack: None,
        },
        Value::Error { ty: ErrorType::Unknown, message: None, stack: Some("at x".to_string()) },
    ]));
}

#[test]
fn decode_without_header_matches_with_header() {
    let with = encode(&Value::Uint32(42)).unwrap();
    assert_eq!(decode(&with).unwrap(), decode(&with[2..]).unwrap());
    assert_eq!(decode(&with[2..]).unwrap(), Value::Uint32(42));
}

#[test]
fn decode_reports_count_mismatch() {
    let mut bytes = encode(&Value::JsSet(vec![Value::Null])).unwrap();
    let last = bytes.len() - 1;
    bytes[last] = 5;
    assert_eq!(
        decode(&bytes),
        Err(Error::CountMismatch { declared: 5, actual: 1, at: 2 })
    );
}

#[test]
fn decode_reports_truncation_at_every_cut() {
    let v = Value::Array(vec![Value::String("abc".to_string(), false), Value::BigInt(-5)]);
    let bytes = encode(&v).unwrap();
    for cut in 0..bytes.len() {
        assert!(matches!(decode(&bytes[..cut]), Err(Error::Truncated { .. })), "cut {}", cut);
    }
}

#[test]
fn decode_reports_unexpected_tag() {
    assert_eq!(decode(&[0x01]), Err(Error::UnexpectedTag { byte: 0x01, at: 0 }));
    assert_eq!(
        decode(&[0xFF, FORMAT_VERSION, 0x01]),
        Err(Error::UnexpectedTag { byte: 0x01, at: 2 })
    );
    assert_eq!(
        decode(&[0xFF, FORMAT_VERSION, 0x41, 0x01, 0x07]),
        Err(Error::UnexpectedTag { byte: 0x07, at: 4 })
    );
}

#[test]
fn decode_refuses_boxed_bigint_payload() {
    assert_eq!(decode(&[0x7A]), Err(Error::UnsupportedPayload { tag: 0x7A, at: 0 }));
}

#[test]
fn decode_reports_invalid_utf8() {
    assert_eq!(decode(&[0x22, 0x01, 0xFF]), Err(Error::InvalidUtf8 { at: 2 }));
}

#[test]
fn decode_reports_expected_byte() {
    assert_eq!(
        decode(&[0xFF, FORMAT_VERSION, 0x41, 0x00, 0x24, 0x07, 0x00]),
        Err(Error::Expected { expected: 0x00, found: 0x07, at: 5 })
    );
    assert_eq!(
        decode(&[0x41, 0x00, 0x24, 0x07, 0x00]),
        Err(Error::Expected { expected: 0x00, found: 0x07, at: 3 })
    );
}

#[test]
fn kind_predicates_name_the_variant() {
    assert!(Value::Null.is_null());
    assert!(!Value::Null.is_undefined());
    assert!(Value::JsMap(vec![]).is_map());
    assert!(Value::JsSet(vec![]).is_set());
    assert!(Value::BigIntObject().is_bigint_object());
    assert!(Value::Error { ty: ErrorType::Unknown, message: None, stack: None }.is_error());
    assert!(!Value::ArrayBuffer(vec![]).is_array_buffer_view());
}

#[test]
fn decode_reports_truncated_header() {
    assert_eq!(decode(&[0xFF]), Err(Error::Truncated { at: 1 }));
    assert_eq!(decode(&[0xFF, FORMAT_VERSION]), Err(Error::Truncated { at: 2 }));
    assert_eq!(decode(&[]), Err(Error::Truncated { at: 0 }));
}

#[test]
fn decode_reads_overlong_varints_and_refuses_wide_ones() {
    assert_eq!(decode(&[0x55, 0x81, 0x80, 0x00]), Ok(Value::Uint32(1)));
    assert_eq!(
        decode(&[0x55, 0x80, 0x80, 0x80, 0x80, 0x10]),
        Err(Error::UnsupportedPayload { tag: 0x55, at: 1 })
    );
}

#[test]
fn decode_reports_nested_count_mismatch() {
    let inner = Value::JsMap(vec![(Value::Null, Value::Null)]);
    let mut bytes = encode(&Value::Array(vec![inner, Value::Null])).unwrap();
    // Stream: header, `A` 2, `;` `0` `0` `:` 2, `0`, ...; the map's count sits at 8.
    assert_eq!(bytes[8], 2);
    bytes[8] = 1;
    assert_eq!(
        decode(&bytes),
        Err(Error::CountMismatch { declared: 1, actual: 2, at: 4 })
    );
}
