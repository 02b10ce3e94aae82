use enbyt::binary::deserialize::{
    parse_byte_array_payload, parse_byte_payload, parse_compressed_tag, parse_double_payload,
    parse_float_payload, parse_int_payload, parse_long_payload, parse_short_payload, parse_string,
    parse_tag,
};
use enbyt::binary::serialize::{
    write_byte_array_payload, write_byte_payload, write_compressed_tag, write_double_payload,
    write_float_payload, write_int_payload, write_long_payload, write_short_payload, write_string,
    write_tag,
};
use enbyt::{Tag, TagPayload, TagPayloadType};

fn sample_strings() -> Vec<String> {
    vec![
        String::new(),
        "a".to_string(),
        "hello world".to_string(),
        "Ünïcödé ✓ 日本語 🎉".to_string(),
        "x".repeat(300),
    ]
}

/// A tag with every kind of payload in it, lists and compounds nested.
fn sample_tag() -> Tag {
    let inner = vec![
        Tag { name: "byte".to_string(), payload: TagPayload::Byte(-5) },
        Tag { name: "short".to_string(), payload: TagPayload::Short(-300) },
        Tag { name: "int".to_string(), payload: TagPayload::Int(123_456_789) },
        Tag { name: "long".to_string(), payload: TagPayload::Long(-9_000_000_000) },
        Tag { name: "float".to_string(), payload: TagPayload::Float(1.5f32.to_bits()) },
        Tag { name: "double".to_string(), payload: TagPayload::Double((-2.25f64).to_bits()) },
        Tag { name: "bytes".to_string(), payload: TagPayload::ByteArray(vec![1, -2, 3]) },
        Tag { name: "text".to_string(), payload: TagPayload::String("héllo".to_string()) },
        Tag {
            name: "list".to_string(),
            payload: TagPayload::List(
                TagPayloadType::List,
                vec![
                    TagPayload::List(TagPayloadType::Int, vec![TagPayload::Int(1), TagPayload::Int(2)]),
                    TagPayload::List(TagPayloadType::End, vec![TagPayload::End]),
                ],
            ),
        },
        Tag { name: "ints".to_string(), payload: TagPayload::IntArray(vec![i32::MIN, 0, i32::MAX]) },
        Tag { name: "longs".to_string(), payload: TagPayload::LongArray(vec![i64::MIN, 7, i64::MAX]) },
        Tag {
            name: "nested".to_string(),
            payload: TagPayload::Compound(vec![Tag {
                name: "deep".to_string(),
                payload: TagPayload::String(String::new()),
            }]),
        },
    ];
    Tag { name: "root".to_string(), payload: TagPayload::Compound(inner) }
}

#[test]
fn test_string_roundtrip() {
    for str in sample_strings() {
        let mut buf = Vec::new();
        write_string(&mut buf, &str).unwrap();

        assert_eq!(parse_string(&mut &buf[..]), Ok(str));
    }
}

#[test]
fn test_byte_payload_roundtrip() {
    for byte in [i8::MIN, -1, 0, 1, i8::MAX] {
        let mut buf = Vec::new();

        write_byte_payload(&mut buf, &byte).unwrap();

        let parsed = parse_byte_payload(&mut &buf[..]);

        assert_eq!(parsed, Ok(byte));
    }
}

#[test]
fn test_short_payload_roundtrip() {
    for num in [i16::MIN, -256, -1, 0, 1, 255, i16::MAX] {
        let mut buf = Vec::new();

        write_short_payload(&mut buf, num).unwrap();

        let parsed = parse_short_payload(&mut &buf[..]);

        assert_eq!(parsed, Ok(num));
    }
}

#[test]
fn test_int_payload_roundtrip() {
    for num in [i32::MIN, -65_536, -1, 0, 1, 16_777_216, i32::MAX] {
        let mut buf = Vec::new();

        write_int_payload(&mut buf, num).unwrap();

        let parsed = parse_int_payload(&mut &buf[..]);

        assert_eq!(parsed, Ok(num));
    }
}

#[test]
fn test_long_payload_roundtrip() {
    for num in [i64::MIN, -4_294_967_296, -1, 0, 1, 1 << 40, i64::MAX] {
        let mut buf = Vec::new();

        write_long_payload(&mut buf, num).unwrap();

        let parsed = parse_long_payload(&mut &buf[..]);

        assert_eq!(parsed, Ok(num));
    }
}

#[test]
fn test_float_payload_roundtrip() {
    for num in [0.0f32, -0.0, 1.5, -3.25, f32::MAX, f32::MIN_POSITIVE, f32::INFINITY, f32::NAN] {
        let mut buf = Vec::new();

        write_float_payload(&mut buf, num.to_bits()).unwrap();

        let parsed = parse_float_payload(&mut &buf[..]);

        assert!(parsed.is_ok());
        assert_eq!(parsed.unwrap(), num.to_bits());
    }
}

#[test]
fn test_double_payload_roundtrip() {
    for num in [0.0f64, -0.0, 1.5, -3.25, f64::MAX, f64::MIN_POSITIVE, f64::NEG_INFINITY, f64::NAN] {
        let mut buf = Vec::new();

        write_double_payload(&mut buf, num.to_bits()).unwrap();

        let parsed = parse_double_payload(&mut &buf[..]);

        assert!(parsed.is_ok());
        assert_eq!(parsed.unwrap(), num.to_bits());
    }
}

#[test]
fn test_byte_array_payload_roundtrip() {
    for arr in [vec![], vec![0i8], vec![i8::MIN, -1, 0, 1, i8::MAX]] {
        let mut buf = Vec::new();

        write_byte_array_payload(&mut buf, &arr).unwrap();

        let parsed = parse_byte_array_payload(&mut &buf[..]);

        assert_eq!(parsed, Ok(arr));
    }
}

#[test]
fn test_tag_roundtrip() {
    let tag = sample_tag();

    let mut buf = Vec::new();

    if write_tag(&mut buf, &tag).is_ok() {
        let parsed = parse_tag(&mut &buf[..]);

        assert_eq!(parsed, Ok(tag));
    }
}

#[test]
fn test_compressed_tag_roundtrip() {
    let tag = sample_tag();

    let mut buf = Vec::new();

    if write_compressed_tag(&mut buf, &tag).is_ok() {
        let parsed = parse_compressed_tag(&buf[..]);

        assert_eq!(parsed, Ok(tag));
    }
}
