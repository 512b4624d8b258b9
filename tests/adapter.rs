use v8_format::{Serializer, FORMAT_VERSION};

fn finish(s: Serializer) -> Vec<u8> {
    s.into_bytes()
}

fn with_header(body: &[u8]) -> Vec<u8> {
    let mut v = vec![0xFF, FORMAT_VERSION];
    v.extend_from_slice(body);
    v
}

#[test]
fn test_boolean() {
    let mut s = Serializer::new();
    s.serialize_bool(true);
    assert_eq!(finish(s), vec![0xFF, FORMAT_VERSION, 84]);
    let mut s = Serializer::new();
    s.serialize_bool(false);
    assert_eq!(finish(s), vec![0xFF, FORMAT_VERSION, 70]);
}

#[test]
fn test_numbers() {
    let mut s = Serializer::new();
    s.serialize_u32(1);
    assert_eq!(finish(s), vec![0xFF, FORMAT_VERSION, 85, 1]);
    let mut s = Serializer::new();
    s.serialize_i32(1);
    assert_eq!(finish(s), vec![0xFF, FORMAT_VERSION, 73, 2]);

    let mut s = Serializer::new();
    s.serialize_u64(1);
    assert_eq!(finish(s), vec![0xFF, FORMAT_VERSION, 90, 16, 1, 0, 0, 0, 0, 0, 0, 0]);
    // Bit 0 of the bigint header is the sign, so a positive value leaves it clear.
    let mut s = Serializer::new();
    s.serialize_i64(1);
    assert_eq!(finish(s), vec![0xFF, FORMAT_VERSION, 90, 16, 1, 0, 0, 0, 0, 0, 0, 0]);
    let mut s = Serializer::new();
    s.serialize_i64(-1);
    assert_eq!(finish(s), vec![0xFF, FORMAT_VERSION, 90, 17, 1, 0, 0, 0, 0, 0, 0, 0]);

    // Doubles go in the host's byte order.
    let little = u16::from_ne_bytes([1, 0]) == 1;
    let expected = if little {
        vec![0xFF, FORMAT_VERSION, 78, 31, 133, 235, 81, 184, 30, 9, 64]
    } else {
        vec![0xFF, FORMAT_VERSION, 78, 64, 9, 30, 184, 81, 235, 133, 31]
    };
    let mut s = Serializer::new();
    s.serialize_f64(&3.14f64.to_ne_bytes());
    assert_eq!(finish(s), expected);
}

#[test]
fn test_char() {
    let mut s = Serializer::new();
    s.serialize_str(&'h'.to_string());
    assert_eq!(finish(s), vec![0xFF, FORMAT_VERSION, 34, 1, 104]);
}

#[test]
fn test_str() {
    let mut s = Serializer::new();
    s.serialize_str("test");
    assert_eq!(finish(s), vec![0xFF, FORMAT_VERSION, 34, 4, 116, 101, 115, 116]);
}

#[test]
fn test_bytes() {
    let bytes: [u8; 3] = [1, 2, 3];
    let mut s = Serializer::new();
    assert_eq!(s.serialize_bytes(&bytes), Ok(()));
    assert_eq!(finish(s), vec![0xFF, FORMAT_VERSION, 66, 3, 1, 2, 3]);
}

#[test]
fn test_undefined() {
    let mut s = Serializer::new();
    s.serialize_none();
    assert_eq!(finish(s), vec![0xFF, FORMAT_VERSION, 95]);
    let mut s = Serializer::new();
    s.serialize_none();
    assert_eq!(finish(s), vec![0xFF, FORMAT_VERSION, 95]);
}

#[test]
fn test_some() {
    let mut s = Serializer::new();
    s.serialize_bool(true);
    assert_eq!(finish(s), vec![0xFF, FORMAT_VERSION, 84]);
}

#[test]
fn test_unit_struct() {
    let mut s = Serializer::new();
    s.serialize_unit_struct();
    assert_eq!(finish(s), vec![0xFF, FORMAT_VERSION, 111, 123, 0]);
}

#[test]
fn test_unit_variant() {
    let mut s = Serializer::new();
    s.serialize_unit_variant("Variant");
    assert_eq!(
        finish(s),
        vec![0xFF, FORMAT_VERSION, 111, 34, 7, 86, 97, 114, 105, 97, 110, 116, 95, 123, 1]
    );
}

#[test]
fn test_newtype_struct() {
    let mut s = Serializer::new();
    s.serialize_bool(true);
    assert_eq!(finish(s), vec![0xFF, FORMAT_VERSION, 84]);
}

#[test]
fn test_newtype_variant() {
    let mut s = Serializer::new();
    s.begin_variant("Variant");
    s.serialize_bool(true);
    s.end_variant();
    assert_eq!(
        finish(s),
        vec![0xFF, FORMAT_VERSION, 111, 34, 7, 86, 97, 114, 105, 97, 110, 116, 84, 123, 1]
    );
}

#[test]
fn test_seq() {
    let mut s = Serializer::new();
    s.serialize_seq(Some(2));
    s.serialize_element();
    s.serialize_bool(true);
    s.serialize_element();
    s.serialize_bool(false);
    s.end_seq();
    assert_eq!(finish(s), vec![0xFF, FORMAT_VERSION, 65, 2, 84, 70, 36, 0, 2]);
}

#[test]
fn test_tuple() {
    let mut s = Serializer::new();
    s.serialize_tuple(2);
    s.serialize_bool(false);
    s.serialize_bool(true);
    s.end_seq();
    assert_eq!(finish(s), vec![0xFF, FORMAT_VERSION, 65, 2, 70, 84, 36, 0, 2]);
}

#[test]
fn test_tuple_struct() {
    let mut s = Serializer::new();
    s.serialize_tuple(2);
    s.serialize_bool(false);
    s.serialize_bool(true);
    s.end_seq();
    assert_eq!(finish(s), vec![0xFF, FORMAT_VERSION, 65, 2, 70, 84, 36, 0, 2]);
}

#[test]
fn test_tuple_variant() {
    let mut s = Serializer::new();
    s.begin_variant("Variant");
    s.serialize_tuple(2);
    s.serialize_bool(true);
    s.serialize_bool(false);
    s.end_seq();
    s.end_variant();
    assert_eq!(
        finish(s),
        vec![
            0xFF, FORMAT_VERSION, 111, 34, 7, 86, 97, 114, 105, 97, 110, 116, 65, 2, 84, 70, 36,
            0, 2, 123, 1
        ]
    );
}

#[test]
fn test_map() {
    let mut s = Serializer::new();
    s.serialize_map(Some(1));
    s.serialize_str("Hello");
    s.serialize_element();
    s.serialize_str("World");
    assert_eq!(s.end_map(), Ok(()));
    assert_eq!(
        finish(s),
        vec![
            0xFF, FORMAT_VERSION, 59, 34, 5, 72, 101, 108, 108, 111, 34, 5, 87, 111, 114, 108,
            100, 58, 2
        ]
    );
}

#[test]
fn test_struct() {
    let mut s = Serializer::new();
    s.serialize_struct(2);
    s.serialize_field("x");
    s.serialize_i32(69);
    s.serialize_field("y");
    s.serialize_i32(70);
    s.end_struct();
    assert_eq!(
        finish(s),
        vec![
            0xFF, FORMAT_VERSION, 111, 34, 1, 120, 73, 138, 1, 34, 1, 121, 73, 140, 1, 123, 2
        ]
    );
}

#[test]
fn test_struct_variant() {
    let mut s = Serializer::new();
    s.begin_variant("Point");
    s.serialize_struct(2);
    s.serialize_field("x");
    s.serialize_i32(69);
    s.serialize_field("y");
    s.serialize_i32(70);
    s.end_struct();
    s.end_variant();
    assert_eq!(
        finish(s),
        vec![
            0xFF, FORMAT_VERSION, 111, 34, 5, 80, 111, 105, 110, 116, 111, 34, 1, 120, 73, 138, 1,
            34, 1, 121, 73, 140, 1, 123, 2, 123, 1
        ]
    );
}

#[test]
fn test_date_ext() {
    let ms = 1_700_000_000_000f64.to_ne_bytes();
    let mut s = Serializer::new();
    s.serialize_date(&ms);
    let mut expected = vec![0xFF, FORMAT_VERSION, 68];
    expected.extend_from_slice(&ms);
    assert_eq!(finish(s), expected);
}

#[test]
fn unknown_length_seq_is_backpatched() {
    let mut s = Serializer::new();
    s.serialize_seq(None);
    s.serialize_element();
    s.serialize_bool(true);
    s.serialize_element();
    s.serialize_bool(false);
    s.end_seq();
    assert_eq!(finish(s), with_header(&[65, 2, 84, 70, 36, 0, 2]));
}

#[test]
fn nested_unknown_length_seqs_are_backpatched() {
    let mut s = Serializer::new();
    s.serialize_seq(None);
    s.serialize_element();
    s.serialize_seq(None);
    s.serialize_element();
    s.serialize_none();
    s.end_seq();
    s.serialize_element();
    s.serialize_none();
    s.end_seq();
    assert_eq!(s.depth(), 0);
    assert_eq!(
        finish(s),
        with_header(&[65, 2, 65, 1, 95, 36, 0, 1, 95, 36, 0, 2])
    );
}

#[test]
fn unknown_length_map_counts_entries_twice() {
    let mut s = Serializer::new();
    s.serialize_map(None);
    s.serialize_element();
    s.serialize_u8(1);
    s.serialize_u8(2);
    assert_eq!(s.end_map(), Ok(()));
    assert_eq!(finish(s), with_header(&[59, 85, 1, 85, 2, 58, 2]));
}

#[test]
fn small_integers_widen() {
    let mut s = Serializer::new();
    s.serialize_i8(-1);
    s.serialize_i16(2);
    s.serialize_u16(300);
    assert_eq!(finish(s), with_header(&[73, 1, 73, 4, 85, 0xAC, 0x02]));
}
