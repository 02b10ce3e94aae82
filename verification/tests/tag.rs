use enbyt::{NBTError, Tag, TagPayload, TagPayloadType};

#[test]
fn type_ids_follow_the_format() {
    assert_eq!(TagPayloadType::End.id(), 0);
    assert_eq!(TagPayloadType::Compound.id(), 10);
    assert_eq!(TagPayloadType::LongArray.id(), 12);
    assert_eq!(TagPayloadType::from_repr(9), Some(TagPayloadType::List));
    assert_eq!(TagPayloadType::from_repr(13), None);
    assert_eq!(TagPayloadType::try_from(3u8), Ok(TagPayloadType::Int));
    assert_eq!(TagPayloadType::try_from(200u8), Err(NBTError::InvalidPayloadType(200)));
    for id in 0u8..=12 {
        assert_eq!(TagPayloadType::from_repr(id).unwrap().id(), id);
    }
}

#[test]
fn payload_and_tag_types() {
    let tag = Tag::new("x".to_string(), TagPayload::IntArray(vec![1])).unwrap();
    assert_eq!(tag.payload_type(), TagPayloadType::IntArray);
    assert_eq!(tag.type_id(), 11);
    assert_eq!(TagPayload::Double(0).type_id(), 6);
    assert_eq!(TagPayload::String(String::new()).payload_type(), TagPayloadType::String);
}

#[test]
fn consistency_of_lists() {
    let consistent = TagPayload::List(
        TagPayloadType::Byte,
        vec![TagPayload::Byte(0x00), TagPayload::Byte(0x03)],
    );
    assert_eq!(consistent.is_consistent(), Some(true));

    let inconsistent = TagPayload::List(
        TagPayloadType::Byte,
        vec![TagPayload::Byte(0x00), TagPayload::Int(0x03)],
    );
    assert_eq!(inconsistent.is_consistent(), Some(false));
    assert_eq!(TagPayload::Int(1).is_consistent(), None);
    assert_eq!(TagPayload::List(TagPayloadType::End, vec![]).is_consistent(), Some(true));
}

#[test]
fn conversions_and_clone() {
    let tag = Tag::try_from((
        "a".to_string(),
        TagPayload::List(TagPayloadType::Int, vec![TagPayload::Int(1)]),
    ))
    .unwrap();
    let copy = tag.clone();
    assert_eq!(copy, tag);
    let (name, payload): (String, TagPayload) = tag.into();
    assert_eq!(name, "a");
    assert_eq!(payload, TagPayload::List(TagPayloadType::Int, vec![TagPayload::Int(1)]));

    let repeated = Tag::new(
        "c".to_string(),
        TagPayload::Compound(vec![
            Tag { name: "a".to_string(), payload: TagPayload::Byte(1) },
            Tag { name: "b".to_string(), payload: TagPayload::Byte(2) },
            Tag { name: "b".to_string(), payload: TagPayload::Byte(3) },
        ]),
    );
    assert_eq!(repeated, Err(NBTError::InvalidTagName(Some("b".to_string()))));

    let bad = Tag::try_from(("a".to_string(), TagPayload::List(TagPayloadType::Int, vec![TagPayload::End])));
    assert_eq!(bad, Err(NBTError::InconsistentList));
}

#[test]
fn tags_from_borrowed_parts() {
    let name = "n".to_string();
    let payload = TagPayload::Compound(vec![Tag { name: "a".to_string(), payload: TagPayload::Int(1) }]);
    let tag = Tag::try_from((&name, &payload)).unwrap();
    assert_eq!(tag.name, name);
    assert_eq!(tag.payload, payload);
    let bad = TagPayload::List(TagPayloadType::Int, vec![TagPayload::Byte(1)]);
    assert_eq!(Tag::try_from((&name, &bad)), Err(NBTError::InconsistentList));
    let repeated = TagPayload::Compound(vec![
        Tag { name: "a".to_string(), payload: TagPayload::Int(1) },
        Tag { name: "a".to_string(), payload: TagPayload::Int(2) },
    ]);
    assert_eq!(
        Tag::try_from((&name, &repeated)),
        Err(NBTError::InvalidTagName(Some("a".to_string())))
    );
}
