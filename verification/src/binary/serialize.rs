//! Writing NBT data.
//!
//! Every writer appends the bytes of its value to `w`, exactly as the matching `encode_*`
//! function of [`super::format`] gives them, and returns how many bytes it appended.
use vstd::prelude::*;

use super::format::{
    be16, be32, be64, encode_i32s, encode_i64s, encode_i8s, encode_len, encode_payload,
    encode_payloads, encode_string, encode_tag, encode_tags,
};
use crate::error::NBTError;
use super::format::{lemma_encode_payloads_push, lemma_encode_tags_push};
use crate::gzip::{gz_decoded, gz_encoded, gzip_compress};
use super::validity::{
    check_len, check_payload, check_string, check_tag, error_matches, payload_violation,
    tag_violation,
};
use super::roundtrip::{payload_encodable, string_fits, tag_encodable};
use super::validity::{law_refused_iff_not_encodable, Violation};
use crate::equality::{error_equal, law_payload_equal_reflexive};
use crate::tag::{payloads_model, tags_model, PayloadModel, Tag, TagModel, TagPayload, TagPayloadType};
use vstd::utf8::encode_utf8;
use std::io::ErrorKind;

verus! {

/// `after` and `res` are what writing the payload `p` after the bytes `before` gives: where the
/// format can hold `p`, its bytes appended and their count; otherwise the bytes left as they
/// were and the error for the first thing in `p` that the format cannot hold. Every payload
/// writer, [`write_payload`] and the writer for each variant alike, meets it for the payload
/// that it writes.
pub open spec fn payload_written(
    p: PayloadModel,
    before: Seq<u8>,
    after: Seq<u8>,
    res: Result<usize, NBTError>,
) -> bool {
    match payload_violation(p) {
        None => after == before + encode_payload(p) && res == Ok::<usize, NBTError>(
            encode_payload(p).len() as usize,
        ),
        Some(v) => after == before && (res matches Err(e) && error_matches(e, v)),
    }
}

/// Writing a payload with [`write_payload`] and with the writer for its variant, on the
/// variant's contents, gives the same bytes and the same result: both meet [`payload_written`]
/// for that payload, and it fixes the bytes, the count, and the error up to `==`.
pub proof fn law_payload_writers_agree(
    p: PayloadModel,
    before: Seq<u8>,
    after1: Seq<u8>,
    res1: Result<usize, NBTError>,
    after2: Seq<u8>,
    res2: Result<usize, NBTError>,
)
    requires
        payload_written(p, before, after1, res1),
        payload_written(p, before, after2, res2),
    ensures
        after1 == after2,
        res1 is Ok <==> res2 is Ok,
        res1 is Ok ==> res1 == res2,
        res1 matches Err(e1) ==> res2 matches Err(e2) && error_equal(e1, e2),
{
    if let Some(v) = payload_violation(p) {
        if let Violation::UnexpectedType(_, m) = v {
            law_payload_equal_reflexive(m);
        }
    }
}

fn push_be16(w: &mut Vec<u8>, x: u16)
    ensures
        final(w)@ == old(w)@ + be16(x),
{
    w.push((x >> 8u16) as u8);
    w.push(x as u8);
    assert(w@ =~= old(w)@ + be16(x));
}

fn push_be32(w: &mut Vec<u8>, x: u32)
    ensures
        final(w)@ == old(w)@ + be32(x),
{
    w.push((x >> 24u32) as u8);
    w.push((x >> 16u32) as u8);
    w.push((x >> 8u32) as u8);
    w.push(x as u8);
    assert(w@ =~= old(w)@ + be32(x));
}

fn push_be64(w: &mut Vec<u8>, x: u64)
    ensures
        final(w)@ == old(w)@ + be64(x),
{
    w.push((x >> 56u64) as u8);
    w.push((x >> 48u64) as u8);
    w.push((x >> 40u64) as u8);
    w.push((x >> 32u64) as u8);
    w.push((x >> 24u64) as u8);
    w.push((x >> 16u64) as u8);
    w.push((x >> 8u64) as u8);
    w.push(x as u8);
    assert(w@ =~= old(w)@ + be64(x));
}

fn push_bytes(w: &mut Vec<u8>, bytes: &[u8])
    ensures
        final(w)@ == old(w)@ + bytes@,
{
    let mut i: usize = 0;
    while i < bytes.len()
        invariant
            0 <= i <= bytes@.len(),
            w@ == old(w)@ + bytes@.take(i as int),
        decreases bytes@.len() - i,
    {
        w.push(bytes[i]);
        i += 1;
        assert(w@ =~= old(w)@ + bytes@.take(i as int));
    }
    assert(bytes@.take(i as int) =~= bytes@);
}

/// Appends the bytes of the value, whatever it holds.
fn emit_string(w: &mut Vec<u8>, str: &str) -> (res: Result<usize, NBTError>)
    ensures
        final(w)@ == old(w)@ + encode_string(str@),
        res == Ok::<usize, NBTError>(encode_string(str@).len() as usize),
{
    let start = w.len();
    let bytes = str.as_bytes();
    let length = #[verifier::truncate] (bytes.len() as u16);
    push_be16(w, length);
    push_bytes(w, bytes);
    Ok(w.len() - start)
}


/// Writes a tag name `name` into `w`.
///
/// Returns the amount of bytes written. This wraps [`write_string`]: a name whose UTF-8 form
/// is longer than 65535 bytes is refused.
pub fn write_tag_name(w: &mut Vec<u8>, name: &str) -> (res: Result<usize, NBTError>)
    ensures
        string_fits(name@) ==> final(w)@ == old(w)@ + encode_string(name@) && res == Ok::<
            usize,
            NBTError,
        >(encode_string(name@).len() as usize),
        !string_fits(name@) ==> final(w)@ == old(w)@ && res == Err::<usize, NBTError>(
            NBTError::StringTooLong(encode_utf8(name@).len() as usize),
        ),
{
    check_string(name)?;
    emit_string(w, name)
}

/// Writes an empty NBT tag (a single 0 byte) into `w`.
///
/// Returns the amount of bytes written.
pub fn write_empty_payload(w: &mut Vec<u8>) -> (res: Result<usize, NBTError>)
    ensures
        final(w)@ == old(w)@ + seq![0u8],
        res == Ok::<usize, NBTError>(1),
{
    w.push(0);
    Ok(1)
}

/// Writes a signed 1 byte number `byte` into `w`, in two's complement form.
///
/// Returns the amount of bytes written.
pub fn write_byte_payload(w: &mut Vec<u8>, byte: &i8) -> (res: Result<usize, NBTError>)
    ensures
        final(w)@ == old(w)@ + seq![*byte as u8],
        res == Ok::<usize, NBTError>(1),
        payload_written(PayloadModel::Byte(*byte), old(w)@, final(w)@, res),
{
    w.push(*byte as u8);
    assert(w@ =~= old(w)@ + encode_payload(PayloadModel::Byte(*byte)));
    Ok(1)
}

/// Writes a signed 2 byte number `value` into `w`, in Big Endian form.
///
/// Returns the amount of bytes written.
pub fn write_short_payload(w: &mut Vec<u8>, value: i16) -> (res: Result<usize, NBTError>)
    ensures
        final(w)@ == old(w)@ + be16(value as u16),
        res == Ok::<usize, NBTError>(2),
        payload_written(PayloadModel::Short(value), old(w)@, final(w)@, res),
{
    push_be16(w, value as u16);
    Ok(2)
}

/// Writes a signed 4 byte number `value` into `w`, in Big Endian form.
///
/// Returns the amount of bytes written.
pub fn write_int_payload(w: &mut Vec<u8>, value: i32) -> (res: Result<usize, NBTError>)
    ensures
        final(w)@ == old(w)@ + be32(value as u32),
        res == Ok::<usize, NBTError>(4),
        payload_written(PayloadModel::Int(value), old(w)@, final(w)@, res),
{
    push_be32(w, value as u32);
    Ok(4)
}

/// Writes a signed 8 byte number `value` into `w`, in Big Endian form.
///
/// Returns the amount of bytes written.
pub fn write_long_payload(w: &mut Vec<u8>, value: i64) -> (res: Result<usize, NBTError>)
    ensures
        final(w)@ == old(w)@ + be64(value as u64),
        res == Ok::<usize, NBTError>(8),
        payload_written(PayloadModel::Long(value), old(w)@, final(w)@, res),
{
    push_be64(w, value as u64);
    Ok(8)
}

/// Writes a 4 byte float number, given by the bits of its IEEE 754 form (`f32::to_bits`),
/// into `w`, in Big Endian form.
///
/// Returns the amount of bytes written.
pub fn write_float_payload(w: &mut Vec<u8>, bits: u32) -> (res: Result<usize, NBTError>)
    ensures
        final(w)@ == old(w)@ + be32(bits),
        res == Ok::<usize, NBTError>(4),
        payload_written(PayloadModel::Float(bits), old(w)@, final(w)@, res),
{
    push_be32(w, bits);
    Ok(4)
}

/// Writes an 8 byte float number, given by the bits of its IEEE 754 form (`f64::to_bits`),
/// into `w`, in Big Endian form.
///
/// Returns the amount of bytes written.
pub fn write_double_payload(w: &mut Vec<u8>, bits: u64) -> (res: Result<usize, NBTError>)
    ensures
        final(w)@ == old(w)@ + be64(bits),
        res == Ok::<usize, NBTError>(8),
        payload_written(PayloadModel::Double(bits), old(w)@, final(w)@, res),
{
    push_be64(w, bits);
    Ok(8)
}

/// Writes the length field of an array or list: the length as a 4 byte number.
fn write_len(w: &mut Vec<u8>, n: usize)
    ensures
        final(w)@ == old(w)@ + encode_len(n as nat),
{
    push_be32(w, #[verifier::truncate] (n as u32));
}

/// Appends the bytes of the value, whatever it holds.
fn emit_byte_array(w: &mut Vec<u8>, arr: &[i8]) -> (res: Result<usize, NBTError>)
    ensures
        final(w)@ == old(w)@ + encode_len(arr@.len()) + encode_i8s(arr@),
        res == Ok::<usize, NBTError>((4 + arr@.len()) as usize),
{
    let start = w.len();
    write_len(w, arr.len());
    let ghost head = w@;
    let mut i: usize = 0;
    while i < arr.len()
        invariant
            0 <= i <= arr@.len(),
            w@ == head + encode_i8s(arr@.take(i as int)),
        decreases arr@.len() - i,
    {
        w.push(arr[i] as u8);
        i += 1;
        assert(w@ =~= head + encode_i8s(arr@.take(i as int)));
    }
    assert(arr@.take(i as int) =~= arr@);
    Ok(w.len() - start)
}

/// Writes an NBT string payload `str` into `w`.
///
/// Returns the amount of bytes written. This wraps [`write_string`]: a string whose UTF-8 form
/// is longer than 65535 bytes is refused.
pub fn write_string_payload(w: &mut Vec<u8>, str: &str) -> (res: Result<usize, NBTError>)
    ensures
        string_fits(str@) ==> final(w)@ == old(w)@ + encode_string(str@) && res == Ok::<
            usize,
            NBTError,
        >(encode_string(str@).len() as usize),
        !string_fits(str@) ==> final(w)@ == old(w)@ && res == Err::<usize, NBTError>(
            NBTError::StringTooLong(encode_utf8(str@).len() as usize),
        ),
        payload_written(PayloadModel::String(str@), old(w)@, final(w)@, res),
{
    check_string(str)?;
    emit_string(w, str)
}

/// Appends the bytes of the value, whatever it holds.
fn emit_int_array(w: &mut Vec<u8>, arr: &[i32]) -> (res: Result<usize, NBTError>)
    ensures
        final(w)@ == old(w)@ + encode_len(arr@.len()) + encode_i32s(arr@),
        res == Ok::<usize, NBTError>((4 + 4 * arr@.len()) as usize),
{
    let start = w.len();
    write_len(w, arr.len());
    let ghost head = w@;
    let mut i: usize = 0;
    while i < arr.len()
        invariant
            0 <= i <= arr@.len(),
            w@ == head + encode_i32s(arr@.take(i as int)),
        decreases arr@.len() - i,
    {
        let ghost before = w@;
        push_be32(w, arr[i] as u32);
        i += 1;
        assert(w@ =~= head + encode_i32s(arr@.take(i as int))) by {
            assert forall|j: int| 0 <= j < encode_i32s(arr@.take(i as int)).len() implies
                #[trigger] encode_i32s(arr@.take(i as int))[j] == (head + encode_i32s(
                arr@.take(i as int),
            ))[head.len() + j] by {}
            assert(w@ =~= before + be32(arr@[i - 1] as u32));
        }
    }
    assert(arr@.take(i as int) =~= arr@);
    Ok(w.len() - start)
}


/// Appends the bytes of the value, whatever it holds.
fn emit_long_array(w: &mut Vec<u8>, arr: &[i64]) -> (res: Result<usize, NBTError>)
    ensures
        final(w)@ == old(w)@ + encode_len(arr@.len()) + encode_i64s(arr@),
        res == Ok::<usize, NBTError>((4 + 8 * arr@.len()) as usize),
{
    let start = w.len();
    write_len(w, arr.len());
    let ghost head = w@;
    let mut i: usize = 0;
    while i < arr.len()
        invariant
            0 <= i <= arr@.len(),
            w@ == head + encode_i64s(arr@.take(i as int)),
        decreases arr@.len() - i,
    {
        let ghost before = w@;
        push_be64(w, arr[i] as u64);
        i += 1;
        assert(w@ =~= head + encode_i64s(arr@.take(i as int))) by {
            assert forall|j: int| 0 <= j < encode_i64s(arr@.take(i as int)).len() implies
                #[trigger] encode_i64s(arr@.take(i as int))[j] == (head + encode_i64s(
                arr@.take(i as int),
            ))[head.len() + j] by {}
            assert(w@ =~= before + be64(arr@[i - 1] as u64));
        }
    }
    assert(arr@.take(i as int) =~= arr@);
    Ok(w.len() - start)
}

/// Appends the bytes of the value, whatever it holds.
fn emit_list(w: &mut Vec<u8>, tag_type: TagPayloadType, list: &[TagPayload]) -> (res:
    Result<usize, NBTError>)
    ensures
        final(w)@ == old(w)@ + seq![tag_type.spec_id()] + encode_len(list@.len())
            + encode_payloads(payloads_model(list@)),
        res == Ok::<usize, NBTError>((final(w)@.len() - old(w)@.len()) as usize),
    decreases list@,
{
    let start = w.len();
    w.push(tag_type.id());
    write_len(w, list.len());
    let ghost head = w@;
    let mut i: usize = 0;
    while i < list.len()
        invariant
            0 <= i <= list@.len(),
            w@ == head + encode_payloads(payloads_model(list@).take(i as int)),
        decreases list@.len() - i,
    {
        let ghost before = w@;
        emit_payload(w, &list[i]);
        proof {
            let ghost m = payloads_model(list@);
            lemma_encode_payloads_push(m.take(i as int), m[i as int]);
            assert(m.take(i + 1) =~= m.take(i as int).push(m[i as int]));
        }
        i += 1;
    }
    assert(payloads_model(list@).take(i as int) =~= payloads_model(list@));
    Ok(w.len() - start)
}

/// Appends the bytes of the value, whatever it holds.
fn emit_compound(w: &mut Vec<u8>, value: &[Tag]) -> (res: Result<usize, NBTError>)
    ensures
        final(w)@ == old(w)@ + encode_tags(tags_model(value@)) + seq![0u8],
        res == Ok::<usize, NBTError>((final(w)@.len() - old(w)@.len()) as usize),
    decreases value@,
{
    let start = w.len();
    let mut i: usize = 0;
    while i < value.len()
        invariant
            0 <= i <= value@.len(),
            w@ == old(w)@ + encode_tags(tags_model(value@).take(i as int)),
        decreases value@.len() - i,
    {
        emit_tag(w, &value[i]);
        proof {
            let ghost m = tags_model(value@);
            lemma_encode_tags_push(m.take(i as int), m[i as int]);
            assert(m.take(i + 1) =~= m.take(i as int).push(m[i as int]));
        }
        i += 1;
    }
    assert(tags_model(value@).take(i as int) =~= tags_model(value@));
    w.push(0);
    Ok(w.len() - start)
}

/// Appends the bytes of the value, whatever it holds.
fn emit_payload(w: &mut Vec<u8>, payload: &TagPayload) -> (res: Result<usize, NBTError>)
    ensures
        final(w)@ == old(w)@ + encode_payload(payload@),
        res == Ok::<usize, NBTError>(encode_payload(payload@).len() as usize),
    decreases payload,
{
    let start = w.len();
    match payload {
        TagPayload::End => {
            write_empty_payload(w);
        },
        TagPayload::Byte(value) => {
            write_byte_payload(w, value);
        },
        TagPayload::Short(value) => {
            write_short_payload(w, *value);
        },
        TagPayload::Int(value) => {
            write_int_payload(w, *value);
        },
        TagPayload::Long(value) => {
            write_long_payload(w, *value);
        },
        TagPayload::Float(value) => {
            write_float_payload(w, *value);
        },
        TagPayload::Double(value) => {
            write_double_payload(w, *value);
        },
        TagPayload::String(value) => {
            emit_string(w, value.as_str());
        },
        TagPayload::List(tag_type, value) => {
            emit_list(w, *tag_type, value.as_slice());
            assert(payloads_model(value@) =~= payload@->List_1);
        },
        TagPayload::Compound(value) => {
            emit_compound(w, value.as_slice());
            assert(tags_model(value@) =~= payload@->Compound_0);
        },
        TagPayload::ByteArray(value) => {
            emit_byte_array(w, value.as_slice());
        },
        TagPayload::IntArray(items) => {
            emit_int_array(w, items.as_slice());
        },
        TagPayload::LongArray(items) => {
            emit_long_array(w, items.as_slice());
        },
    }
    Ok(w.len() - start)
}

/// Appends the bytes of the value, whatever it holds.
fn emit_tag(w: &mut Vec<u8>, tag: &Tag) -> (res: Result<usize, NBTError>)
    ensures
        final(w)@ == old(w)@ + encode_tag(tag@),
        res == Ok::<usize, NBTError>(encode_tag(tag@).len() as usize),
    decreases tag,
{
    let start = w.len();
    w.push(tag.type_id());
    emit_string(w, tag.name.as_str());
    emit_payload(w, &tag.payload);
    assert(w@ =~= old(w)@ + encode_tag(tag@));
    Ok(w.len() - start)
}

/// Writes a string slice `str` into `w`.
///
/// Returns the amount of bytes written.
///
/// The format is:
/// - 2 byte integer (Big Endian) indicating the string's length in bytes
/// - the string's bytes encoded using UTF-8.
///
/// A string whose UTF-8 form is longer than 65535 bytes does not fit the length field and is
/// refused, with [`NBTError::StringTooLong`]; `w` is then left as it was.
pub fn write_string(w: &mut Vec<u8>, str: &str) -> (res: Result<usize, NBTError>)
    ensures
        string_fits(str@) ==> final(w)@ == old(w)@ + encode_string(str@) && res == Ok::<
            usize,
            NBTError,
        >(encode_string(str@).len() as usize),
        !string_fits(str@) ==> final(w)@ == old(w)@ && res == Err::<usize, NBTError>(
            NBTError::StringTooLong(encode_utf8(str@).len() as usize),
        ),
{
    check_string(str)?;
    emit_string(w, str)
}

/// Writes an NBT byte array `arr` into `w`.
///
/// Returns the amount of bytes written.
///
/// The format is:
/// - 4 bytes for the size (as in the length, not to be confused with size in bytes)
/// - the items, each in Big Endian form
///
/// An array longer than `i32::MAX` items does not fit the size field and is refused, with
/// [`NBTError::ArrayTooLong`]; `w` is then left as it was.
pub fn write_byte_array_payload(w: &mut Vec<u8>, arr: &[i8]) -> (res: Result<usize, NBTError>)
    ensures
        arr@.len() <= i32::MAX ==> final(w)@ == old(w)@ + encode_len(arr@.len()) + encode_i8s(arr@)
            && res == Ok::<usize, NBTError>((4 + 1 * arr@.len()) as usize),
        arr@.len() > i32::MAX ==> final(w)@ == old(w)@ && res == Err::<usize, NBTError>(
            NBTError::ArrayTooLong(arr@.len() as usize),
        ),
        payload_written(PayloadModel::ByteArray(arr@), old(w)@, final(w)@, res),
{
    check_len(arr.len())?;
    let r = emit_byte_array(w, arr);
    assert(w@ =~= old(w)@ + encode_payload(PayloadModel::ByteArray(arr@)));
    r
}

/// Writes an NBT int array `arr` into `w`.
///
/// Returns the amount of bytes written.
///
/// The format is:
/// - 4 bytes for the size (as in the length, not to be confused with size in bytes)
/// - the items, each in Big Endian form
///
/// An array longer than `i32::MAX` items does not fit the size field and is refused, with
/// [`NBTError::ArrayTooLong`]; `w` is then left as it was.
pub fn write_int_array_payload(w: &mut Vec<u8>, arr: &[i32]) -> (res: Result<usize, NBTError>)
    ensures
        arr@.len() <= i32::MAX ==> final(w)@ == old(w)@ + encode_len(arr@.len()) + encode_i32s(arr@)
            && res == Ok::<usize, NBTError>((4 + 4 * arr@.len()) as usize),
        arr@.len() > i32::MAX ==> final(w)@ == old(w)@ && res == Err::<usize, NBTError>(
            NBTError::ArrayTooLong(arr@.len() as usize),
        ),
        payload_written(PayloadModel::IntArray(arr@), old(w)@, final(w)@, res),
{
    check_len(arr.len())?;
    let r = emit_int_array(w, arr);
    assert(w@ =~= old(w)@ + encode_payload(PayloadModel::IntArray(arr@)));
    r
}

/// Writes an NBT long array `arr` into `w`.
///
/// Returns the amount of bytes written.
///
/// The format is:
/// - 4 bytes for the size (as in the length, not to be confused with size in bytes)
/// - the items, each in Big Endian form
///
/// An array longer than `i32::MAX` items does not fit the size field and is refused, with
/// [`NBTError::ArrayTooLong`]; `w` is then left as it was.
pub fn write_long_array_payload(w: &mut Vec<u8>, arr: &[i64]) -> (res: Result<usize, NBTError>)
    ensures
        arr@.len() <= i32::MAX ==> final(w)@ == old(w)@ + encode_len(arr@.len()) + encode_i64s(arr@)
            && res == Ok::<usize, NBTError>((4 + 8 * arr@.len()) as usize),
        arr@.len() > i32::MAX ==> final(w)@ == old(w)@ && res == Err::<usize, NBTError>(
            NBTError::ArrayTooLong(arr@.len() as usize),
        ),
        payload_written(PayloadModel::LongArray(arr@), old(w)@, final(w)@, res),
{
    check_len(arr.len())?;
    let r = emit_long_array(w, arr);
    assert(w@ =~= old(w)@ + encode_payload(PayloadModel::LongArray(arr@)));
    r
}

/// Writes an NBT list payload, of items of type `tag_type`, into `w`.
///
/// Returns the amount of bytes written.
///
/// The format is:
/// - 1 byte for the ID of the type of the list's contents
/// - 4 bytes for the length
/// - every payload in the list
///
/// A list that the format cannot hold (too long, an item of another type than `tag_type`, or
/// an item that the format cannot hold) is refused with the error for the first such thing,
/// as [`payload_violation`] states; `w` is then left as it was.
pub fn write_list_payload(w: &mut Vec<u8>, tag_type: TagPayloadType, list: &[TagPayload]) -> (res:
    Result<usize, NBTError>)
    ensures
        payload_written(
            PayloadModel::List(tag_type, payloads_model(list@)),
            old(w)@,
            final(w)@,
            res,
        ),
        res is Ok <==> payload_encodable(PayloadModel::List(tag_type, payloads_model(list@))),
{
    proof {
        let p = PayloadModel::List(tag_type, payloads_model(list@));
        law_refused_iff_not_encodable(TagModel { name: Seq::empty(), payload: p }, p);
    }
    check_len(list.len())?;
    super::validity::check_items(tag_type, list)?;
    let r = emit_list(w, tag_type, list);
    assert(w@ =~= old(w)@ + encode_payload(PayloadModel::List(tag_type, payloads_model(list@))));
    r
}

/// Writes an NBT compound payload `value` into `w`.
///
/// Returns the amount of bytes written.
///
/// The format is:
/// - every tag of the compound (see [`write_tag`])
/// - 0x00, which is an empty NBT tag
///
/// A compound that the format cannot hold (an entry with an `End` payload, a name too long or
/// already used by an earlier entry, or a payload that the format cannot hold) is refused with
/// the error for the first such thing, as [`payload_violation`] states; `w` is then left as it
/// was.
pub fn write_compound_payload(w: &mut Vec<u8>, value: &[Tag]) -> (res: Result<usize, NBTError>)
    ensures
        payload_written(PayloadModel::Compound(tags_model(value@)), old(w)@, final(w)@, res),
        res is Ok <==> payload_encodable(PayloadModel::Compound(tags_model(value@))),
{
    proof {
        let p = PayloadModel::Compound(tags_model(value@));
        law_refused_iff_not_encodable(TagModel { name: Seq::empty(), payload: p }, p);
    }
    super::validity::check_entries(value)?;
    let r = emit_compound(w, value);
    assert(w@ =~= old(w)@ + encode_payload(PayloadModel::Compound(tags_model(value@))));
    r
}

/// Writes the payload `payload` into `w`, as the writer for its type does.
///
/// Returns the amount of bytes written. A payload that the format cannot hold is refused with
/// the error for the first thing in it that the format cannot hold, as [`payload_violation`]
/// states; `w` is then left as it was.
pub fn write_payload(w: &mut Vec<u8>, payload: &TagPayload) -> (res: Result<usize, NBTError>)
    ensures
        payload_written(payload@, old(w)@, final(w)@, res),
        res is Ok <==> payload_encodable(payload@),
{
    proof {
        law_refused_iff_not_encodable(TagModel { name: Seq::empty(), payload: payload@ }, payload@);
    }
    check_payload(payload)?;
    emit_payload(w, payload)
}

/// Writes an NBT tag `tag` into `w`.
///
/// Returns the amount of bytes written.
///
/// The format is:
/// - 1 byte for the tag type's ID
/// - 2 bytes for the length of the name (see [`write_string`])
/// - n bytes for the name's UTF-8 encoded
/// - the tag's payload
///
/// A tag that the format cannot hold (a name too long, an `End` payload, or a payload that the
/// format cannot hold) is refused with the error for the first such thing, as
/// [`tag_violation`] states; `w` is then left as it was. Every tag that is written is read back
/// by the parser (see `law_written_tag_reads_back`).
pub fn write_tag(w: &mut Vec<u8>, tag: &Tag) -> (res: Result<usize, NBTError>)
    ensures
        match tag_violation(tag@) {
            None => final(w)@ == old(w)@ + encode_tag(tag@) && res == Ok::<usize, NBTError>(
                encode_tag(tag@).len() as usize,
            ),
            Some(v) => final(w)@ == old(w)@ && (res matches Err(e) && error_matches(e, v)),
        },
        res is Ok <==> tag_encodable(tag@),
{
    proof {
        law_refused_iff_not_encodable(tag@, tag@.payload);
    }
    check_tag(tag)?;
    emit_tag(w, tag)
}

/// Writes a gzip-compressed NBT tag into `w`: the tag's bytes (see [`write_tag`]) compressed
/// into a gzip stream at the default compression level.
///
/// A tag that the format cannot hold is refused as [`write_tag`] refuses it, and `w` is then
/// left as it was. Every other tag is written: the stream that is appended decompresses to the
/// tag's bytes (see `law_written_compressed_tag_reads_back`).
pub fn write_compressed_tag(w: &mut Vec<u8>, tag: &Tag) -> (res: Result<(), NBTError>)
    ensures
        tag_violation(tag@) matches Some(v) ==> final(w)@ == old(w)@ && (res matches Err(e)
            && error_matches(e, v)),
        tag_violation(tag@) is None ==> res is Ok && final(w)@ == old(w)@ + gz_encoded(
            encode_tag(tag@),
        ) && gz_decoded(gz_encoded(encode_tag(tag@))) == Ok::<Seq<u8>, ErrorKind>(
            encode_tag(tag@),
        ),
        res is Ok <==> tag_encodable(tag@),
{
    proof {
        law_refused_iff_not_encodable(tag@, tag@.payload);
    }
    check_tag(tag)?;
    let mut raw: Vec<u8> = Vec::new();
    emit_tag(&mut raw, tag);
    assert(raw@ =~= encode_tag(tag@));
    match gzip_compress(raw.as_slice()) {
        Ok(z) => {
            push_bytes(w, z.as_slice());
            Ok(())
        },
        Err(kind) => Err(NBTError::IO(kind)),
    }
}

} // verus!
