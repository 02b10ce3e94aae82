//! What the format cannot hold, and how the writers refuse it.
//!
//! The writers check their value before writing anything. The first thing found that the
//! format cannot hold, in the order that the bytes would be written, is stated by the
//! `*_violation` spec functions and becomes the writer's error; `w` is then left as it was.
use vstd::prelude::*;
use vstd::utf8::encode_utf8;

use super::format::{decode_payload, decode_tag, encode_payload, encode_tag, names_distinct};
use super::roundtrip::{
    law_payload_roundtrip, law_tag_roundtrip, payload_encodable, string_fits, tag_encodable,
};
use crate::gzip::gz_decoded;
use crate::error::NBTError;
use crate::tag::{clone_payload, repeats_earlier, payloads_model, tags_model, PayloadModel, Tag, TagModel, TagPayload, TagPayloadType};

verus! {

/// Something that the format cannot hold.
pub enum Violation {
    /// A string whose UTF-8 form, of this length, does not fit the 2-byte length field.
    StringTooLong(nat),
    /// An array or list of this length, which does not fit the 4-byte signed length field.
    ArrayTooLong(nat),
    /// A list item that does not have the list's type (of this ID).
    UnexpectedType(u8, PayloadModel),
    /// A tag whose payload is `End`.
    EndPayloadTag,
    /// A compound entry with the name of an earlier entry.
    RepeatedName(Seq<char>),
}

/// `e` is the error that the writers give for `v`.
pub open spec fn error_matches(e: NBTError, v: Violation) -> bool {
    match v {
        Violation::StringTooLong(n) => e == NBTError::StringTooLong(n as usize),
        Violation::ArrayTooLong(n) => e == NBTError::ArrayTooLong(n as usize),
        Violation::UnexpectedType(id, m) => e matches NBTError::UnexpectedType(x, p) && x == id
            && p@ == m,
        Violation::EndPayloadTag => e == NBTError::InvalidPayloadType(0),
        Violation::RepeatedName(name) => e matches NBTError::InvalidTagName(Some(s)) && s@
            == name,
    }
}

/// A string that does not fit its length field.
pub open spec fn string_violation(s: Seq<char>) -> Option<Violation> {
    if string_fits(s) {
        None
    } else {
        Some(Violation::StringTooLong(encode_utf8(s).len()))
    }
}

/// An array or list length that does not fit its length field.
pub open spec fn len_violation(n: nat) -> Option<Violation> {
    if n <= i32::MAX {
        None
    } else {
        Some(Violation::ArrayTooLong(n))
    }
}

/// The first thing in a payload that the format cannot hold.
pub open spec fn payload_violation(p: PayloadModel) -> Option<Violation>
    decreases p, 0nat,
{
    match p {
        PayloadModel::String(s) => string_violation(s),
        PayloadModel::ByteArray(s) => len_violation(s.len()),
        PayloadModel::IntArray(s) => len_violation(s.len()),
        PayloadModel::LongArray(s) => len_violation(s.len()),
        PayloadModel::List(ty, items) => if items.len() > i32::MAX {
            Some(Violation::ArrayTooLong(items.len()))
        } else {
            items_violation(ty, items, 0)
        },
        PayloadModel::Compound(tags) => entries_violation(tags, 0),
        _ => None,
    }
}

/// The first thing in the items of a list of type `ty`, from the `i`-th on, that the format
/// cannot hold: an item of another type, or something inside an item.
pub open spec fn items_violation(ty: TagPayloadType, items: Seq<PayloadModel>, i: nat) -> Option<
    Violation,
>
    decreases items, items.len() - i,
{
    if i >= items.len() {
        None
    } else if items[i as int].payload_type() != ty {
        Some(Violation::UnexpectedType(ty.spec_id(), items[i as int]))
    } else {
        match payload_violation(items[i as int]) {
            Some(v) => Some(v),
            None => items_violation(ty, items, i + 1),
        }
    }
}

/// The first thing in the entries of a compound, from the `i`-th on, that the format cannot
/// hold: for each entry, a name too long, an `End` payload, a name that an earlier entry has,
/// or something inside its payload.
pub open spec fn entries_violation(tags: Seq<TagModel>, i: nat) -> Option<Violation>
    decreases tags, tags.len() - i,
{
    if i >= tags.len() {
        None
    } else {
        let t = tags[i as int];
        if !string_fits(t.name) {
            string_violation(t.name)
        } else if t.payload.payload_type() == TagPayloadType::End {
            Some(Violation::EndPayloadTag)
        } else if repeats_earlier(tags, i as int) {
            Some(Violation::RepeatedName(t.name))
        } else {
            match payload_violation(t.payload) {
                Some(v) => Some(v),
                None => entries_violation(tags, i + 1),
            }
        }
    }
}

/// The first thing in a tag that the format cannot hold: a name too long, an `End` payload, or
/// something inside its payload.
pub open spec fn tag_violation(t: TagModel) -> Option<Violation> {
    if !string_fits(t.name) {
        string_violation(t.name)
    } else if t.payload.payload_type() == TagPayloadType::End {
        Some(Violation::EndPayloadTag)
    } else {
        payload_violation(t.payload)
    }
}

proof fn lemma_items_violation_none(ty: TagPayloadType, items: Seq<PayloadModel>, i: nat)
    ensures
        items_violation(ty, items, i) is None <==> forall|j: int|
            i <= j < items.len() ==> (#[trigger] items[j]).payload_type() == ty && payload_encodable(
                items[j],
            ),
    decreases items, items.len() - i,
{
    if i < items.len() {
        lemma_payload_violation_none(items[i as int]);
        lemma_items_violation_none(ty, items, i + 1);
    }
}

proof fn lemma_entries_violation_none(tags: Seq<TagModel>, i: nat)
    ensures
        entries_violation(tags, i) is None <==> forall|j: int|
            i <= j < tags.len() ==> tag_encodable(#[trigger] tags[j]) && !repeats_earlier(tags, j),
    decreases tags, tags.len() - i,
{
    if i < tags.len() {
        lemma_payload_violation_none(tags[i as int].payload);
        lemma_entries_violation_none(tags, i + 1);
    }
}

/// A payload has nothing that the format cannot hold exactly when the format can hold it.
proof fn lemma_payload_violation_none(p: PayloadModel)
    ensures
        payload_violation(p) is None <==> payload_encodable(p),
    decreases p, 1nat,
{
    match p {
        PayloadModel::List(ty, items) => {
            lemma_items_violation_none(ty, items, 0);
        },
        PayloadModel::Compound(tags) => {
            lemma_entries_violation_none(tags, 0);
            if names_distinct(tags) {
                assert forall|j: int| 0 <= j < tags.len() implies !#[trigger] repeats_earlier(tags, j) by {
                    if repeats_earlier(tags, j) {
                        let k = choose|k: int| 0 <= k < j && (#[trigger] tags[k]).name == tags[j].name;
                        assert(tags[k].name != tags[j].name);
                    }
                }
            }
            if entries_violation(tags, 0) is None {
                assert forall|a: int, b: int|
                    0 <= a < tags.len() && 0 <= b < tags.len() && a != b implies (#[trigger] tags[a]).name
                    != (#[trigger] tags[b]).name by {
                    if a < b {
                        assert(!repeats_earlier(tags, b));
                    } else {
                        assert(!repeats_earlier(tags, a));
                    }
                }
            }
        },
        _ => {},
    }
}

/// The writers refuse a tag exactly when the format cannot hold it.
pub proof fn law_refused_iff_not_encodable(t: TagModel, p: PayloadModel)
    ensures
        tag_violation(t) is None <==> tag_encodable(t),
        payload_violation(p) is None <==> payload_encodable(p),
{
    lemma_payload_violation_none(t.payload);
    lemma_payload_violation_none(p);
}


/// Every tag that `write_tag` writes (one in which it finds nothing that the format cannot
/// hold) is read back by `parse_tag` as that tag, whatever bytes follow.
pub proof fn law_written_tag_reads_back(t: TagModel, rest: Seq<u8>)
    requires
        tag_violation(t) is None,
    ensures
        decode_tag(encode_tag(t) + rest, 0) == Some((t, encode_tag(t).len() as int)),
{
    lemma_payload_violation_none(t.payload);
    law_tag_roundtrip(t, rest);
}

/// Every payload that `write_payload` writes is read back by the parser for its type as that
/// payload, whatever bytes follow.
pub proof fn law_written_payload_reads_back(p: PayloadModel, rest: Seq<u8>)
    requires
        payload_violation(p) is None,
    ensures
        decode_payload(p.payload_type(), encode_payload(p) + rest, 0) == Some(
            (p, encode_payload(p).len() as int),
        ),
{
    lemma_payload_violation_none(p);
    law_payload_roundtrip(p, rest);
}

/// Every stream that `write_compressed_tag` appends (for a tag it does not refuse, the stream
/// decompresses to the tag's bytes) is read back by `parse_compressed_tag` as that tag.
pub proof fn law_written_compressed_tag_reads_back(t: TagModel, z: Seq<u8>)
    requires
        tag_violation(t) is None,
        gz_decoded(z) is Ok,
        gz_decoded(z)->Ok_0 == encode_tag(t),
    ensures
        decode_tag(gz_decoded(z)->Ok_0, 0) == Some((t, encode_tag(t).len() as int)),
{
    law_written_tag_reads_back(t, Seq::empty());
    assert(encode_tag(t) + Seq::<u8>::empty() =~= encode_tag(t));
}

/// `res` is the result of checking a value whose first violation is `v`.
pub open spec fn checked(res: Result<(), NBTError>, v: Option<Violation>) -> bool {
    match v {
        None => res == Ok::<(), NBTError>(()),
        Some(v) => res matches Err(e) && error_matches(e, v),
    }
}

/// Checks that the UTF-8 form of `s` fits the 2-byte length field.
pub(crate) fn check_string(s: &str) -> (res: Result<(), NBTError>)
    ensures
        checked(res, string_violation(s@)),
{
    let n = s.as_bytes().len();
    if n > 0xffff {
        Err(NBTError::StringTooLong(n))
    } else {
        Ok(())
    }
}

/// Checks that the length `n` fits the 4-byte signed length field.
pub(crate) fn check_len(n: usize) -> (res: Result<(), NBTError>)
    ensures
        checked(res, len_violation(n as nat)),
{
    if n > 0x7fff_ffff {
        Err(NBTError::ArrayTooLong(n))
    } else {
        Ok(())
    }
}

/// Checks a payload for anything that the format cannot hold.
pub(crate) fn check_payload(p: &TagPayload) -> (res: Result<(), NBTError>)
    ensures
        checked(res, payload_violation(p@)),
    decreases p,
{
    match p {
        TagPayload::String(s) => check_string(s.as_str()),
        TagPayload::ByteArray(v) => check_len(v.len()),
        TagPayload::IntArray(v) => check_len(v.len()),
        TagPayload::LongArray(v) => check_len(v.len()),
        TagPayload::List(ty, items) => {
            assert(payloads_model(items@) =~= p@->List_1);
            check_len(items.len())?;
            check_items(*ty, items.as_slice())
        },
        TagPayload::Compound(tags) => {
            assert(tags_model(tags@) =~= p@->Compound_0);
            check_entries(tags.as_slice())
        },
        _ => Ok(()),
    }
}

/// Checks the items of a list of type `ty`.
pub(crate) fn check_items(ty: TagPayloadType, items: &[TagPayload]) -> (res: Result<(), NBTError>)
    ensures
        checked(res, items_violation(ty, payloads_model(items@), 0)),
    decreases items@,
{
    let ghost m = payloads_model(items@);
    let id = ty.id();
    let mut i: usize = 0;
    while i < items.len()
        invariant
            0 <= i <= items@.len(),
            m == payloads_model(items@),
            id == ty.spec_id(),
            items_violation(ty, m, 0) == items_violation(ty, m, i as nat),
        decreases items@.len() - i,
    {
        if items[i].type_id() != id {
            proof {
                crate::tag::lemma_type_id_injective(m[i as int].payload_type(), ty);
            }
            return Err(NBTError::UnexpectedType(id, clone_payload(&items[i])));
        }
        proof {
            crate::tag::lemma_type_id_injective(m[i as int].payload_type(), ty);
        }
        check_payload(&items[i])?;
        i += 1;
    }
    Ok(())
}

/// Checks the entries of a compound.
pub(crate) fn check_entries(tags: &[Tag]) -> (res: Result<(), NBTError>)
    ensures
        checked(res, entries_violation(tags_model(tags@), 0)),
    decreases tags@,
{
    let ghost m = tags_model(tags@);
    let mut i: usize = 0;
    while i < tags.len()
        invariant
            0 <= i <= tags@.len(),
            m == tags_model(tags@),
            entries_violation(m, 0) == entries_violation(m, i as nat),
        decreases tags@.len() - i,
    {
        check_string(tags[i].name.as_str())?;
        if tags[i].payload.type_id() == 0 {
            return Err(NBTError::InvalidPayloadType(0));
        }
        let mut k: usize = 0;
        while k < i
            invariant
                0 <= k <= i < tags@.len(),
                m == tags_model(tags@),
                entries_violation(m, 0) == entries_violation(m, i as nat),
                string_fits(m[i as int].name),
                m[i as int].payload.payload_type() != TagPayloadType::End,
                forall|j: int| 0 <= j < k ==> (#[trigger] m[j]).name != m[i as int].name,
            decreases i - k,
        {
            if tags[k].name == tags[i].name {
                assert(m[k as int].name == m[i as int].name);
                assert(repeats_earlier(m, i as int));
                return Err(NBTError::InvalidTagName(Some(tags[i].name.clone())));
            }
            k += 1;
        }
        assert(!repeats_earlier(m, i as int));
        check_payload(&tags[i].payload)?;
        i += 1;
    }
    Ok(())
}

/// Checks a tag for anything that the format cannot hold.
pub(crate) fn check_tag(t: &Tag) -> (res: Result<(), NBTError>)
    ensures
        checked(res, tag_violation(t@)),
{
    check_string(t.name.as_str())?;
    if t.payload.type_id() == 0 {
        return Err(NBTError::InvalidPayloadType(0));
    }
    check_payload(&t.payload)
}

} // verus!
