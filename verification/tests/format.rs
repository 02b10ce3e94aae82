use enbyt::binary::deserialize::{
    parse_byte_array_payload, parse_compound_payload, parse_compressed_tag, parse_end_payload,
    parse_int_array_payload, parse_int_payload, parse_list_payload, parse_long_array_payload,
    parse_payload, parse_string, parse_string_payload, parse_tag, parse_tag_name,
};
use enbyt::binary::serialize::{
    write_compound_payload, write_compressed_tag, write_empty_payload, write_int_array_payload,
    write_int_payload, write_list_payload, write_long_array_payload, write_long_payload,
    write_payload, write_short_payload, write_string, write_string_payload, write_tag,
    write_tag_name,
};
use enbyt::{NBTError, Tag, TagPayload, TagPayloadType};

#[test]
fn writes_big_endian_numbers() {
    let mut buf = Vec::new();
    assert_eq!(write_short_payload(&mut buf, -2), Ok(2));
    assert_eq!(write_int_payload(&mut buf, 0x0102_0304), Ok(4));
    assert_eq!(write_long_payload(&mut buf, -1), Ok(8));
    assert_eq!(
        buf,
        vec![0xff, 0xfe, 1, 2, 3, 4, 0xff, 0xff, 0xff, 0xff, 0xff, 0xff, 0xff, 0xff]
    );
}

#[test]
fn writes_string_with_length_prefix() {
    let mut buf = Vec::new();
    assert_eq!(write_string(&mut buf, "é!"), Ok(5));
    assert_eq!(buf, vec![0, 3, 0xc3, 0xa9, b'!']);
    let mut buf2 = Vec::new();
    assert_eq!(write_tag_name(&mut buf2, "é!"), Ok(5));
    assert_eq!(write_string_payload(&mut buf2, ""), Ok(2));
    assert_eq!(buf2, vec![0, 3, 0xc3, 0xa9, b'!', 0, 0]);
}

#[test]
fn long_string_is_refused() {
    let long = "a".repeat(70_000);
    let mut buf = vec![7u8];
    assert_eq!(write_string(&mut buf, &long), Err(NBTError::StringTooLong(70_000)));
    assert_eq!(write_tag_name(&mut buf, &long), Err(NBTError::StringTooLong(70_000)));
    assert_eq!(write_string_payload(&mut buf, &long), Err(NBTError::StringTooLong(70_000)));
    assert_eq!(buf, vec![7u8]);

    let fits = "b".repeat(65_535);
    assert_eq!(write_string(&mut buf, &fits), Ok(65_537));
    assert_eq!(&buf[1..3], &[0xff, 0xff]);
}

#[test]
fn writers_refuse_what_cannot_be_read_back() {
    let mut buf = vec![9u8];

    let end_tag = Tag::new("e".to_string(), TagPayload::End).unwrap();
    assert_eq!(write_tag(&mut buf, &end_tag), Err(NBTError::InvalidPayloadType(0)));

    let wrong_item = TagPayload::List(TagPayloadType::Int, vec![TagPayload::Int(1), TagPayload::Byte(1)]);
    assert_eq!(
        write_payload(&mut buf, &wrong_item),
        Err(NBTError::UnexpectedType(3, TagPayload::Byte(1)))
    );
    let items = vec![TagPayload::Byte(1), TagPayload::Short(2)];
    assert_eq!(
        write_list_payload(&mut buf, TagPayloadType::Byte, &items),
        Err(NBTError::UnexpectedType(1, TagPayload::Short(2)))
    );

    let nested = Tag {
        name: "outer".to_string(),
        payload: TagPayload::List(
            TagPayloadType::List,
            vec![TagPayload::List(TagPayloadType::Int, vec![TagPayload::String("x".to_string())])],
        ),
    };
    assert_eq!(
        write_tag(&mut buf, &nested),
        Err(NBTError::UnexpectedType(3, TagPayload::String("x".to_string())))
    );

    let repeated = vec![
        Tag { name: "a".to_string(), payload: TagPayload::Byte(1) },
        Tag { name: "a".to_string(), payload: TagPayload::Byte(2) },
    ];
    assert_eq!(
        write_compound_payload(&mut buf, &repeated),
        Err(NBTError::InvalidTagName(Some("a".to_string())))
    );

    let end_entry = vec![Tag { name: "z".to_string(), payload: TagPayload::End }];
    assert_eq!(write_compound_payload(&mut buf, &end_entry), Err(NBTError::InvalidPayloadType(0)));

    let long_name = Tag { name: "n".repeat(70_000), payload: TagPayload::Byte(0) };
    assert_eq!(write_tag(&mut buf, &long_name), Err(NBTError::StringTooLong(70_000)));
    assert_eq!(write_compressed_tag(&mut buf, &end_tag), Err(NBTError::InvalidPayloadType(0)));

    assert_eq!(buf, vec![9u8]);
}

#[test]
fn writes_arrays_lists_and_compounds() {
    let mut buf = Vec::new();
    assert_eq!(write_int_array_payload(&mut buf, &[1, -1]), Ok(12));
    assert_eq!(buf, vec![0, 0, 0, 2, 0, 0, 0, 1, 0xff, 0xff, 0xff, 0xff]);

    let mut buf = Vec::new();
    assert_eq!(write_long_array_payload(&mut buf, &[5]), Ok(12));
    assert_eq!(buf, vec![0, 0, 0, 1, 0, 0, 0, 0, 0, 0, 0, 5]);

    let mut buf = Vec::new();
    let items = vec![TagPayload::Byte(1), TagPayload::Byte(2)];
    assert_eq!(write_list_payload(&mut buf, TagPayloadType::Byte, &items), Ok(7));
    assert_eq!(buf, vec![1, 0, 0, 0, 2, 1, 2]);

    let mut buf = Vec::new();
    let tags = vec![Tag { name: "a".to_string(), payload: TagPayload::Byte(5) }];
    assert_eq!(write_compound_payload(&mut buf, &tags), Ok(6));
    assert_eq!(buf, vec![1, 0, 1, b'a', 5, 0]);

    let mut buf = Vec::new();
    assert_eq!(write_empty_payload(&mut buf), Ok(1));
    assert_eq!(write_payload(&mut buf, &TagPayload::End), Ok(1));
    assert_eq!(buf, vec![0, 0]);
}

#[test]
fn writes_tag_type_name_payload() {
    let mut buf = Vec::new();
    let tag = Tag::new("a".to_string(), TagPayload::Short(258)).unwrap();
    assert_eq!(write_tag(&mut buf, &tag), Ok(6));
    assert_eq!(buf, vec![2, 0, 1, b'a', 1, 2]);
}

#[test]
fn parsers_advance_past_what_they_read() {
    let data = [0u8, 0, 0, 7, 9];
    let mut input = &data[..];
    assert_eq!(parse_int_payload(&mut input), Ok(7));
    assert_eq!(input, &[9]);

    let data = [0u8, 5];
    let mut input = &data[..];
    assert_eq!(parse_end_payload(&mut input), Ok(()));
    assert_eq!(input, &[5]);

    let data = [0u8, 1, b'x', 0, 2, b'h', b'i', 7];
    let mut input = &data[..];
    assert_eq!(parse_tag_name(&mut input), Ok("x".to_string()));
    assert_eq!(parse_string_payload(&mut input), Ok("hi".to_string()));
    assert_eq!(input, &[7]);
}

#[test]
fn parse_errors_leave_input_unchanged() {
    let cases: Vec<Vec<u8>> = vec![
        vec![],
        vec![0x00],
        vec![0x0d, 0, 0],
        vec![0x03, 0, 1, b'a', 0, 0],
        vec![0x08, 0, 0, 0, 1, 0xff],
    ];
    for data in cases {
        let mut input = &data[..];
        assert!(matches!(parse_tag(&mut input), Err(NBTError::ParsingError)));
        assert_eq!(input, &data[..]);
    }
}

#[test]
fn rejects_invalid_payloads() {
    let data = [0xffu8, 0xff, 0xff, 0xff];
    assert!(matches!(parse_byte_array_payload(&mut &data[..]), Err(NBTError::ParsingError)));
    let data = [0u8, 0, 0, 2, 0, 0, 0, 1];
    assert!(matches!(parse_int_array_payload(&mut &data[..]), Err(NBTError::ParsingError)));
    let data = [0u8, 0, 0, 1, 0, 0, 0, 0, 0, 0, 0];
    assert!(matches!(parse_long_array_payload(&mut &data[..]), Err(NBTError::ParsingError)));
    let data = [0x0du8, 0, 0, 0, 0];
    assert!(matches!(parse_list_payload(&mut &data[..]), Err(NBTError::ParsingError)));
    let data = [0u8, 1, 0xff];
    assert!(matches!(parse_string(&mut &data[..]), Err(NBTError::ParsingError)));
    let data = [1u8];
    assert!(matches!(parse_end_payload(&mut &data[..]), Err(NBTError::ParsingError)));
    let data = [1u8, 0, 1, b'a', 5];
    assert!(matches!(parse_compound_payload(&mut &data[..]), Err(NBTError::ParsingError)));
}

#[test]
fn parses_lists_and_typed_payloads() {
    let data = [1u8, 0, 0, 0, 2, 1, 0xfe, 9];
    let mut input = &data[..];
    assert_eq!(
        parse_list_payload(&mut input),
        Ok((TagPayloadType::Byte, vec![TagPayload::Byte(1), TagPayload::Byte(-2)]))
    );
    assert_eq!(input, &[9]);

    let data = [0xffu8, 0xfe];
    assert_eq!(parse_payload(TagPayloadType::Short, &mut &data[..]), Ok(TagPayload::Short(-2)));
}

#[test]
fn later_compound_entry_replaces_earlier_one() {
    let data = [1u8, 0, 1, b'a', 1, 1, 0, 1, b'b', 3, 1, 0, 1, b'a', 2, 0];
    let parsed = parse_compound_payload(&mut &data[..]);
    assert_eq!(
        parsed,
        Ok(vec![
            Tag { name: "a".to_string(), payload: TagPayload::Byte(2) },
            Tag { name: "b".to_string(), payload: TagPayload::Byte(3) },
        ])
    );
}

#[test]
fn parsed_tag_writes_back_to_same_bytes() {
    let data = [10u8, 0, 1, b'r', 9, 0, 1, b'l', 3, 0, 0, 0, 1, 0, 0, 0, 42, 0];
    let tag = parse_tag(&mut &data[..]).unwrap();
    let mut buf = Vec::new();
    write_tag(&mut buf, &tag).unwrap();
    assert_eq!(buf, data.to_vec());
    assert_eq!(parse_tag(&mut &buf[..]), Ok(tag));
}

#[test]
fn compressed_stream_is_gzip_and_not_raw() {
    let tag = Tag::new("n".to_string(), TagPayload::Int(1)).unwrap();
    let mut raw = Vec::new();
    write_tag(&mut raw, &tag).unwrap();
    let mut buf = vec![0xaa];
    assert_eq!(write_compressed_tag(&mut buf, &tag), Ok(()));
    assert_eq!(buf[0], 0xaa);
    assert_eq!(&buf[1..3], &[0x1f, 0x8b]);
    assert_ne!(buf[1..].to_vec(), raw);
    assert_eq!(parse_compressed_tag(&buf[1..]), Ok(tag));
}

#[test]
fn corrupt_gzip_is_an_io_error() {
    let res = parse_compressed_tag(b"not a gzip stream");
    assert!(matches!(res, Err(NBTError::IO(_))));
}

#[test]
fn rewriting_repeated_names_takes_fewer_bytes() {
    let data = [10u8, 0, 0, 1, 0, 1, b'a', 1, 1, 0, 1, b'a', 2, 0];
    let tag = parse_tag(&mut &data[..]).unwrap();
    let mut buf = Vec::new();
    write_tag(&mut buf, &tag).unwrap();
    assert_eq!(buf, vec![10, 0, 0, 1, 0, 1, b'a', 2, 0]);
    assert!(buf.len() < data.len());
}

#[test]
fn parse_tag_stops_at_the_end_of_the_tag() {
    let data = [1u8, 0, 1, b'b', 7, 0xaa, 0xbb];
    let mut input = &data[..];
    assert_eq!(
        parse_tag(&mut input),
        Ok(Tag { name: "b".to_string(), payload: TagPayload::Byte(7) })
    );
    assert_eq!(input, &[0xaa, 0xbb]);
}
