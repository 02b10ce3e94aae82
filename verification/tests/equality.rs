use enbyt::binary::serialize::{
    write_byte_array_payload, write_compound_payload, write_double_payload, write_int_payload,
    write_list_payload, write_payload, write_string_payload,
};
use enbyt::equality::payload_eq;
use enbyt::{NBTError, Tag, TagPayload, TagPayloadType};

fn entry(name: &str, payload: TagPayload) -> Tag {
    Tag { name: name.to_string(), payload }
}

#[test]
fn compounds_compare_whatever_the_order_of_entries() {
    let a = TagPayload::Compound(vec![
        entry("a", TagPayload::Int(1)),
        entry("b", TagPayload::String("x".to_string())),
    ]);
    let b = TagPayload::Compound(vec![
        entry("b", TagPayload::String("x".to_string())),
        entry("a", TagPayload::Int(1)),
    ]);
    assert_eq!(a, b);
    assert!(payload_eq(&a, &b));
    let c = TagPayload::Compound(vec![
        entry("b", TagPayload::String("x".to_string())),
        entry("a", TagPayload::Int(2)),
    ]);
    assert_ne!(a, c);
    let d = TagPayload::Compound(vec![entry("a", TagPayload::Int(1))]);
    assert_ne!(a, d);
    let e = TagPayload::Compound(vec![
        entry("a", TagPayload::Int(1)),
        entry("c", TagPayload::String("x".to_string())),
    ]);
    assert_ne!(a, e);
}

#[test]
fn nested_compounds_compare_whatever_the_order() {
    let inner1 = TagPayload::Compound(vec![
        entry("x", TagPayload::Byte(1)),
        entry("y", TagPayload::Byte(2)),
    ]);
    let inner2 = TagPayload::Compound(vec![
        entry("y", TagPayload::Byte(2)),
        entry("x", TagPayload::Byte(1)),
    ]);
    let a = Tag { name: "root".to_string(), payload: TagPayload::Compound(vec![entry("in", inner1)]) };
    let b = Tag { name: "root".to_string(), payload: TagPayload::Compound(vec![entry("in", inner2)]) };
    assert_eq!(a, b);
}

#[test]
fn lists_compare_in_order() {
    let a = TagPayload::List(TagPayloadType::Int, vec![TagPayload::Int(1), TagPayload::Int(2)]);
    let b = TagPayload::List(TagPayloadType::Int, vec![TagPayload::Int(2), TagPayload::Int(1)]);
    let c = TagPayload::List(TagPayloadType::Int, vec![TagPayload::Int(1), TagPayload::Int(2)]);
    let d = TagPayload::List(TagPayloadType::Long, vec![TagPayload::Int(1), TagPayload::Int(2)]);
    assert_ne!(a, b);
    assert_eq!(a, c);
    assert_ne!(a, d);
}

#[test]
fn scalars_arrays_and_floats_by_bits() {
    assert_eq!(TagPayload::End, TagPayload::End);
    assert_ne!(TagPayload::End, TagPayload::Byte(0));
    assert_eq!(TagPayload::Float(f32::NAN.to_bits()), TagPayload::Float(f32::NAN.to_bits()));
    assert_ne!(TagPayload::Float(0.0f32.to_bits()), TagPayload::Float((-0.0f32).to_bits()));
    assert_eq!(TagPayload::Double(1.5f64.to_bits()), TagPayload::Double(1.5f64.to_bits()));
    assert_eq!(TagPayload::ByteArray(vec![1, -1]), TagPayload::ByteArray(vec![1, -1]));
    assert_ne!(TagPayload::IntArray(vec![1, 2]), TagPayload::IntArray(vec![1]));
    assert_ne!(TagPayload::LongArray(vec![1, 2]), TagPayload::LongArray(vec![1, 3]));
    assert_ne!(TagPayload::Int(1), TagPayload::Long(1));
    assert_eq!(TagPayload::String("é".to_string()), TagPayload::String("é".to_string()));
}

#[test]
fn parsing_errors_are_equal_to_nothing() {
    assert_ne!(NBTError::ParsingError, NBTError::ParsingError);
    assert_eq!(NBTError::InconsistentList, NBTError::InconsistentList);
    assert_eq!(NBTError::InvalidTagName(None), NBTError::InvalidTagName(None));
    assert_ne!(NBTError::InvalidTagName(None), NBTError::InvalidTagName(Some("a".to_string())));
    assert_eq!(NBTError::StringTooLong(3), NBTError::StringTooLong(3));
    assert_ne!(NBTError::ArrayTooLong(3), NBTError::ArrayTooLong(4));
    assert_eq!(
        NBTError::IO(std::io::ErrorKind::InvalidInput),
        NBTError::IO(std::io::ErrorKind::InvalidInput)
    );
    assert_ne!(
        NBTError::IO(std::io::ErrorKind::InvalidInput),
        NBTError::IO(std::io::ErrorKind::UnexpectedEof)
    );
    let a = TagPayload::Compound(vec![entry("a", TagPayload::Int(1)), entry("b", TagPayload::Int(2))]);
    let b = TagPayload::Compound(vec![entry("b", TagPayload::Int(2)), entry("a", TagPayload::Int(1))]);
    assert_eq!(NBTError::UnexpectedType(3, a), NBTError::UnexpectedType(3, b));
    assert_ne!(NBTError::InconsistentList, NBTError::ParsingError);
}

#[test]
fn payload_writer_agrees_with_variant_writers() {
    let cases: Vec<TagPayload> = vec![
        TagPayload::Int(-7),
        TagPayload::Double(2.5f64.to_bits()),
        TagPayload::String("hello".to_string()),
        TagPayload::ByteArray(vec![1, 2, -3]),
        TagPayload::List(TagPayloadType::Short, vec![TagPayload::Short(4)]),
        TagPayload::List(TagPayloadType::Short, vec![TagPayload::Int(4)]),
        TagPayload::Compound(vec![entry("k", TagPayload::Byte(1))]),
        TagPayload::Compound(vec![entry("k", TagPayload::Byte(1)), entry("k", TagPayload::Byte(2))]),
    ];
    for p in cases {
        let mut by_payload = vec![9u8];
        let r1 = write_payload(&mut by_payload, &p);
        let mut by_variant = vec![9u8];
        let r2 = match &p {
            TagPayload::Int(v) => write_int_payload(&mut by_variant, *v),
            TagPayload::Double(v) => write_double_payload(&mut by_variant, *v),
            TagPayload::String(s) => write_string_payload(&mut by_variant, s),
            TagPayload::ByteArray(a) => write_byte_array_payload(&mut by_variant, a),
            TagPayload::List(t, l) => write_list_payload(&mut by_variant, *t, l),
            TagPayload::Compound(c) => write_compound_payload(&mut by_variant, c),
            _ => unreachable!(),
        };
        assert_eq!(by_payload, by_variant);
        assert_eq!(r1, r2);
    }
}
