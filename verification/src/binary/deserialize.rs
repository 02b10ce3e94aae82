//! Reading NBT data.
//!
//! Every parser reads from the front of `input`. On success it returns the value and advances
//! `input` past the bytes it read; on failure it returns [`NBTError::ParsingError`] and leaves
//! `input` as it was. What each one reads is stated by the matching `decode_*` function of
//! [`super::format`].
use vstd::prelude::*;
use vstd::slice::slice_subrange;
use vstd::utf8::{encode_utf8, encode_utf8_decode_utf8, valid_utf8};

use super::format::{
    compound_insert, decode_i32s, decode_i64s, decode_i8s, decode_len, decode_payload,
    decode_payloads, decode_string, decode_tag, decode_tags,
    has_name, names_distinct, u16_at, u32_at, u64_at,
};
use crate::error::NBTError;
use crate::gzip::{gz_decoded, gzip_decompress};
use crate::tag::{payloads_model, tags_model, PayloadModel, Tag, TagModel, TagPayload, TagPayloadType};

verus! {

/// `std::str::from_utf8`: the bytes as a string slice where they are valid UTF-8.
///
/// The contract claims what the documentation of `from_utf8` says: it succeeds exactly on valid
/// UTF-8 (as vstd's `valid_utf8` defines it), and the slice it returns has the given bytes.
#[verifier::external_body]
fn str_from_utf8(bytes: &[u8]) -> (res: Option<&str>)
    ensures
        res is Some <==> valid_utf8(bytes@),
        res matches Some(s) ==> encode_utf8(s@) == bytes@,
{
    std::str::from_utf8(bytes).ok()
}

fn read_u16(data: &[u8], pos: usize) -> (r: u16)
    requires
        pos + 2 <= data@.len(),
    ensures
        r == u16_at(data@, pos as int),
{
    ((data[pos] as u16) << 8u16) | (data[pos + 1] as u16)
}

fn read_u32(data: &[u8], pos: usize) -> (r: u32)
    requires
        pos + 4 <= data@.len(),
    ensures
        r == u32_at(data@, pos as int),
{
    ((data[pos] as u32) << 24u32) | ((data[pos + 1] as u32) << 16u32) | ((data[pos + 2] as u32)
        << 8u32) | (data[pos + 3] as u32)
}

fn read_u64(data: &[u8], pos: usize) -> (r: u64)
    requires
        pos + 8 <= data@.len(),
    ensures
        r == u64_at(data@, pos as int),
{
    ((data[pos] as u64) << 56u64) | ((data[pos + 1] as u64) << 48u64) | ((data[pos + 2] as u64)
        << 40u64) | ((data[pos + 3] as u64) << 32u64) | ((data[pos + 4] as u64) << 24u64) | ((
    data[pos + 5] as u64) << 16u64) | ((data[pos + 6] as u64) << 8u64) | (data[pos + 7] as u64)
}

/// Reads a string at `pos` of `data`; see [`decode_string`].
fn parse_string_at(data: &[u8], pos: usize) -> (res: Result<(String, usize), NBTError>)
    requires
        pos <= data@.len(),
    ensures
        match decode_string(data@, pos as int) {
            Some((s, end)) => res matches Ok((r, e)) && r@ == s && e == end,
            None => res == Err::<(String, usize), NBTError>(NBTError::ParsingError),
        },
{
    if data.len() - pos < 2 {
        return Err(NBTError::ParsingError);
    }
    let n = read_u16(data, pos) as usize;
    if data.len() - (pos + 2) < n {
        return Err(NBTError::ParsingError);
    }
    let bytes = slice_subrange(data, pos + 2, pos + 2 + n);
    match str_from_utf8(bytes) {
        Some(s) => {
            proof {
                encode_utf8_decode_utf8(s@);
            }
            Ok((s.to_owned(), pos + 2 + n))
        },
        None => Err(NBTError::ParsingError),
    }
}

/// Reads the length field of an array or list at `pos`; see [`decode_len`].
fn parse_len_at(data: &[u8], pos: usize) -> (res: Result<usize, NBTError>)
    requires
        pos <= data@.len(),
    ensures
        match decode_len(data@, pos as int) {
            Some(n) => res == Ok::<usize, NBTError>(n as usize) && n <= i32::MAX,
            None => res == Err::<usize, NBTError>(NBTError::ParsingError),
        },
{
    if data.len() - pos < 4 {
        return Err(NBTError::ParsingError);
    }
    let n = read_u32(data, pos);
    if n > 0x7fff_ffff {
        return Err(NBTError::ParsingError);
    }
    Ok(n as usize)
}


/// Reads a byte array at `pos`; see [`decode_i8s`].
fn parse_byte_array_at(data: &[u8], pos: usize) -> (res: Result<(Vec<i8>, usize), NBTError>)
    requires
        pos <= data@.len(),
    ensures
        match decode_i8s(data@, pos as int) {
            Some((s, end)) => res matches Ok((r, e)) && r@ == s && e == end,
            None => res == Err::<(Vec<i8>, usize), NBTError>(NBTError::ParsingError),
        },
{
    let n = parse_len_at(data, pos)?;
    if data.len() - (pos + 4) < n {
        return Err(NBTError::ParsingError);
    }
    let start = pos + 4;
    let mut arr: Vec<i8> = Vec::new();
    let mut i: usize = 0;
    while i < n
        invariant
            0 <= i <= n,
            start + n <= data@.len(),
            data@.len() <= usize::MAX,
            arr@ == Seq::new(i as nat, |k: int| data@[start + k] as i8),
        decreases n - i,
    {
        arr.push(data[start + i] as i8);
        i += 1;
        assert(arr@ =~= Seq::new(i as nat, |k: int| data@[start + k] as i8));
    }
    Ok((arr, start + n))
}

/// Reads an int array at `pos`; see [`decode_i32s`].
fn parse_int_array_at(data: &[u8], pos: usize) -> (res: Result<(Vec<i32>, usize), NBTError>)
    requires
        pos <= data@.len(),
    ensures
        match decode_i32s(data@, pos as int) {
            Some((s, end)) => res matches Ok((r, e)) && r@ == s && e == end,
            None => res == Err::<(Vec<i32>, usize), NBTError>(NBTError::ParsingError),
        },
{
    let n = parse_len_at(data, pos)?;
    if (data.len() - (pos + 4)) / 4 < n {
        return Err(NBTError::ParsingError);
    }
    let start = pos + 4;
    let mut arr: Vec<i32> = Vec::new();
    let mut i: usize = 0;
    while i < n
        invariant
            0 <= i <= n,
            start + 4 * n <= data@.len(),
            data@.len() <= usize::MAX,
            arr@ == Seq::new(i as nat, |k: int| u32_at(data@, start + 4 * k) as i32),
        decreases n - i,
    {
        arr.push(read_u32(data, start + 4 * i) as i32);
        i += 1;
        assert(arr@ =~= Seq::new(i as nat, |k: int| u32_at(data@, start + 4 * k) as i32));
    }
    Ok((arr, start + 4 * n))
}

/// Reads a long array at `pos`; see [`decode_i64s`].
fn parse_long_array_at(data: &[u8], pos: usize) -> (res: Result<(Vec<i64>, usize), NBTError>)
    requires
        pos <= data@.len(),
    ensures
        match decode_i64s(data@, pos as int) {
            Some((s, end)) => res matches Ok((r, e)) && r@ == s && e == end,
            None => res == Err::<(Vec<i64>, usize), NBTError>(NBTError::ParsingError),
        },
{
    let n = parse_len_at(data, pos)?;
    if (data.len() - (pos + 4)) / 8 < n {
        return Err(NBTError::ParsingError);
    }
    let start = pos + 4;
    let mut arr: Vec<i64> = Vec::new();
    let mut i: usize = 0;
    while i < n
        invariant
            0 <= i <= n,
            start + 8 * n <= data@.len(),
            data@.len() <= usize::MAX,
            arr@ == Seq::new(i as nat, |k: int| u64_at(data@, start + 8 * k) as i64),
        decreases n - i,
    {
        arr.push(read_u64(data, start + 8 * i) as i64);
        i += 1;
        assert(arr@ =~= Seq::new(i as nat, |k: int| u64_at(data@, start + 8 * k) as i64));
    }
    Ok((arr, start + 8 * n))
}


/// Adds `tag` to the entries of a compound, as [`compound_insert`] states: in place of the
/// entry with the same name where there is one, at the end otherwise.
fn insert_entry(tags: &mut Vec<Tag>, tag: Tag)
    requires
        names_distinct(tags_model(old(tags)@)),
    ensures
        tags_model(final(tags)@) == compound_insert(tags_model(old(tags)@), tag@),
        names_distinct(tags_model(final(tags)@)),
{
    let ghost m = tags_model(tags@);
    let mut i: usize = 0;
    while i < tags.len()
        invariant
            0 <= i <= tags@.len(),
            m == tags_model(tags@),
            m == tags_model(old(tags)@),
            names_distinct(m),
            forall|j: int| 0 <= j < i ==> (#[trigger] m[j]).name != tag@.name,
        decreases tags@.len() - i,
    {
        if tags[i].name == tag.name {
            proof {
                assert(m[i as int].name == tag@.name);
                assert(has_name(m, tag@.name));
                let k = choose|k: int| 0 <= k < m.len() && (#[trigger] m[k]).name == tag@.name;
                assert(k == i);
            }
            tags.set(i, tag);
            assert(tags_model(tags@) =~= compound_insert(m, tag@));
            return;
        }
        i += 1;
    }
    assert(!has_name(m, tag@.name));
    tags.push(tag);
    assert(tags_model(tags@) =~= compound_insert(m, tag@));
}

/// Reads a payload of type `ty` at `pos`; see [`decode_payload`].
fn parse_payload_at(ty: TagPayloadType, data: &[u8], pos: usize) -> (res: Result<
    (TagPayload, usize),
    NBTError,
>)
    requires
        pos <= data@.len(),
    ensures
        match decode_payload(ty, data@, pos as int) {
            Some((p, end)) => res matches Ok((r, e)) && r@ == p && e == end && pos < e <= data@.len(),
            None => res == Err::<(TagPayload, usize), NBTError>(NBTError::ParsingError),
        },
    decreases data@.len() - pos, 2nat,
{
    match ty {
        TagPayloadType::End => {
            if pos < data.len() && data[pos] == 0 {
                Ok((TagPayload::End, pos + 1))
            } else {
                Err(NBTError::ParsingError)
            }
        },
        TagPayloadType::Byte => {
            if pos < data.len() {
                Ok((TagPayload::Byte(data[pos] as i8), pos + 1))
            } else {
                Err(NBTError::ParsingError)
            }
        },
        TagPayloadType::Short => {
            if data.len() - pos >= 2 {
                Ok((TagPayload::Short(read_u16(data, pos) as i16), pos + 2))
            } else {
                Err(NBTError::ParsingError)
            }
        },
        TagPayloadType::Int => {
            if data.len() - pos >= 4 {
                Ok((TagPayload::Int(read_u32(data, pos) as i32), pos + 4))
            } else {
                Err(NBTError::ParsingError)
            }
        },
        TagPayloadType::Long => {
            if data.len() - pos >= 8 {
                Ok((TagPayload::Long(read_u64(data, pos) as i64), pos + 8))
            } else {
                Err(NBTError::ParsingError)
            }
        },
        TagPayloadType::Float => {
            if data.len() - pos >= 4 {
                Ok((TagPayload::Float(read_u32(data, pos)), pos + 4))
            } else {
                Err(NBTError::ParsingError)
            }
        },
        TagPayloadType::Double => {
            if data.len() - pos >= 8 {
                Ok((TagPayload::Double(read_u64(data, pos)), pos + 8))
            } else {
                Err(NBTError::ParsingError)
            }
        },
        TagPayloadType::ByteArray => {
            let (v, e) = parse_byte_array_at(data, pos)?;
            Ok((TagPayload::ByteArray(v), e))
        },
        TagPayloadType::String => {
            let (v, e) = parse_string_at(data, pos)?;
            Ok((TagPayload::String(v), e))
        },
        TagPayloadType::List => {
            let (item_ty, items, e) = parse_list_at(data, pos)?;
            let r = TagPayload::List(item_ty, items);
            assert(payloads_model(items@) =~= r@->List_1);
            Ok((r, e))
        },
        TagPayloadType::Compound => {
            let (tags, e) = parse_compound_at(data, pos)?;
            let r = TagPayload::Compound(tags);
            assert(tags_model(tags@) =~= r@->Compound_0);
            Ok((r, e))
        },
        TagPayloadType::IntArray => {
            let (v, e) = parse_int_array_at(data, pos)?;
            Ok((TagPayload::IntArray(v), e))
        },
        TagPayloadType::LongArray => {
            let (v, e) = parse_long_array_at(data, pos)?;
            Ok((TagPayload::LongArray(v), e))
        },
    }
}

/// Reads a list payload at `pos`: the item type, the length, then the items.
fn parse_list_at(data: &[u8], pos: usize) -> (res: Result<
    (TagPayloadType, Vec<TagPayload>, usize),
    NBTError,
>)
    requires
        pos <= data@.len(),
    ensures
        match decode_payload(TagPayloadType::List, data@, pos as int) {
            Some((p, end)) => res matches Ok((ty, items, e)) && p == PayloadModel::List(
                ty,
                payloads_model(items@),
            ) && e == end && pos < e <= data@.len(),
            None => res == Err::<(TagPayloadType, Vec<TagPayload>, usize), NBTError>(
                NBTError::ParsingError,
            ),
        },
    decreases data@.len() - pos, 1nat,
{
    if pos >= data.len() {
        return Err(NBTError::ParsingError);
    }
    let item_ty = match TagPayloadType::from_repr(data[pos]) {
        Some(t) => t,
        None => {
            return Err(NBTError::ParsingError);
        },
    };
    let n = parse_len_at(data, pos + 1)?;
    let mut items: Vec<TagPayload> = Vec::new();
    let mut p = pos + 5;
    let mut i: usize = 0;
    assert(payloads_model(items@) =~= Seq::<PayloadModel>::empty());
    while i < n
        invariant
            0 <= i <= n,
            pos + 5 <= p <= data@.len(),
            pos < data@.len(),
            TagPayloadType::spec_from_repr(data@[pos as int]) == Some(item_ty),
            decode_len(data@, pos + 1) == Some(n as nat),
            decode_payloads(item_ty, data@, pos + 5, n as nat, Seq::empty()) == decode_payloads(
                item_ty,
                data@,
                p as int,
                (n - i) as nat,
                payloads_model(items@),
            ),
        decreases n - i,
    {
        match parse_payload_at(item_ty, data, p) {
            Ok((item, e)) => {
                let ghost before = payloads_model(items@);
                items.push(item);
                assert(payloads_model(items@) =~= before.push(item@));
                p = e;
                i += 1;
            },
            Err(err) => {
                return Err(err);
            },
        }
    }
    Ok((item_ty, items, p))
}

/// Reads a tag at `pos`; see [`decode_tag`].
fn parse_tag_at(data: &[u8], pos: usize) -> (res: Result<(Tag, usize), NBTError>)
    requires
        pos <= data@.len(),
    ensures
        match decode_tag(data@, pos as int) {
            Some((t, end)) => res matches Ok((r, e)) && r@ == t && e == end && pos < e
                <= data@.len(),
            None => res == Err::<(Tag, usize), NBTError>(NBTError::ParsingError),
        },
    decreases data@.len() - pos, 0nat,
{
    if pos >= data.len() {
        return Err(NBTError::ParsingError);
    }
    let ty = match TagPayloadType::from_repr(data[pos]) {
        Some(t) => t,
        None => {
            return Err(NBTError::ParsingError);
        },
    };
    if ty == TagPayloadType::End {
        return Err(NBTError::ParsingError);
    }
    let (name, start) = parse_string_at(data, pos + 1)?;
    let (payload, e) = parse_payload_at(ty, data, start)?;
    Ok((Tag { name, payload }, e))
}

/// Reads the entries of a compound at `pos`, up to and including its end marker.
fn parse_compound_at(data: &[u8], pos: usize) -> (res: Result<(Vec<Tag>, usize), NBTError>)
    requires
        pos <= data@.len(),
    ensures
        match decode_tags(data@, pos as int, Seq::empty()) {
            Some((tags, end)) => res matches Ok((r, e)) && tags_model(r@) == tags && e == end && pos
                < e <= data@.len(),
            None => res == Err::<(Vec<Tag>, usize), NBTError>(NBTError::ParsingError),
        },
    decreases data@.len() - pos, 1nat,
{
    let mut tags: Vec<Tag> = Vec::new();
    let mut p = pos;
    assert(tags_model(tags@) =~= Seq::<TagModel>::empty());
    loop
        invariant
            pos <= p <= data@.len(),
            names_distinct(tags_model(tags@)),
            decode_tags(data@, pos as int, Seq::empty()) == decode_tags(
                data@,
                p as int,
                tags_model(tags@),
            ),
        decreases data@.len() - p,
    {
        if p >= data.len() {
            return Err(NBTError::ParsingError);
        }
        if data[p] == 0 {
            return Ok((tags, p + 1));
        }
        let (tag, e) = parse_tag_at(data, p)?;
        insert_entry(&mut tags, tag);
        p = e;
    }
}


/// Moves the front of `input` forward by `n` bytes.
fn advance(input: &mut &[u8], n: usize)
    requires
        n <= old(input)@.len(),
    ensures
        final(input)@ == old(input)@.subrange(n as int, old(input)@.len() as int),
{
    let data: &[u8] = *input;
    *input = slice_subrange(data, n, data.len());
}

/// Parses an NBT string into a [`String`]: a 2 byte big-endian length, then that many bytes of
/// UTF-8. For the format see [`super::serialize::write_string`].
pub fn parse_string(input: &mut &[u8]) -> (res: Result<String, NBTError>)
    ensures
        match decode_string(old(input)@, 0) {
            Some((s, end)) => res matches Ok(r) && r@ == s && final(input)@ == old(input)@.subrange(
                end,
                old(input)@.len() as int,
            ),
            None => res == Err::<String, NBTError>(NBTError::ParsingError) && final(input)@ == old(input)@,
        },
{
    let (s, e) = parse_string_at(*input, 0)?;
    advance(input, e);
    Ok(s)
}

/// Parses an NBT tag's name. This wraps [`parse_string`].
pub fn parse_tag_name(input: &mut &[u8]) -> (res: Result<String, NBTError>)
    ensures
        match decode_string(old(input)@, 0) {
            Some((s, end)) => res matches Ok(r) && r@ == s && final(input)@ == old(input)@.subrange(
                end,
                old(input)@.len() as int,
            ),
            None => res == Err::<String, NBTError>(NBTError::ParsingError) && final(input)@ == old(input)@,
        },
{
    parse_string(input)
}

/// Parses an NBT string tag's payload. This wraps [`parse_string`].
pub fn parse_string_payload(input: &mut &[u8]) -> (res: Result<String, NBTError>)
    ensures
        match decode_string(old(input)@, 0) {
            Some((s, end)) => res matches Ok(r) && r@ == s && final(input)@ == old(input)@.subrange(
                end,
                old(input)@.len() as int,
            ),
            None => res == Err::<String, NBTError>(NBTError::ParsingError) && final(input)@ == old(input)@,
        },
{
    parse_string(input)
}

/// Parses an NBT byte tag's payload into an [`i8`] (one byte, two's complement).
pub fn parse_byte_payload(input: &mut &[u8]) -> (res: Result<i8, NBTError>)
    ensures
        old(input)@.len() >= 1 ==> res == Ok::<i8, NBTError>(old(input)@[0] as i8) && final(input)@ == old(input)@.subrange(1, old(input)@.len() as int),
        old(input)@.len() < 1 ==> res == Err::<i8, NBTError>(NBTError::ParsingError) && final(input)@ == old(input)@,
{
    if input.len() < 1 {
        return Err(NBTError::ParsingError);
    }
    let v = input[0] as i8;
    advance(input, 1);
    Ok(v)
}

/// Parses an NBT short tag's payload into an [`i16`] (two bytes, big endian).
pub fn parse_short_payload(input: &mut &[u8]) -> (res: Result<i16, NBTError>)
    ensures
        old(input)@.len() >= 2 ==> res == Ok::<i16, NBTError>(u16_at(old(input)@, 0) as i16)
            && final(input)@ == old(input)@.subrange(2, old(input)@.len() as int),
        old(input)@.len() < 2 ==> res == Err::<i16, NBTError>(NBTError::ParsingError) && final(input)@ == old(input)@,
{
    if input.len() < 2 {
        return Err(NBTError::ParsingError);
    }
    let v = read_u16(*input, 0) as i16;
    advance(input, 2);
    Ok(v)
}

/// Parses an NBT int tag's payload into an [`i32`] (four bytes, big endian).
pub fn parse_int_payload(input: &mut &[u8]) -> (res: Result<i32, NBTError>)
    ensures
        old(input)@.len() >= 4 ==> res == Ok::<i32, NBTError>(u32_at(old(input)@, 0) as i32)
            && final(input)@ == old(input)@.subrange(4, old(input)@.len() as int),
        old(input)@.len() < 4 ==> res == Err::<i32, NBTError>(NBTError::ParsingError) && final(input)@ == old(input)@,
{
    if input.len() < 4 {
        return Err(NBTError::ParsingError);
    }
    let v = read_u32(*input, 0) as i32;
    advance(input, 4);
    Ok(v)
}

/// Parses an NBT long tag's payload into an [`i64`] (eight bytes, big endian).
pub fn parse_long_payload(input: &mut &[u8]) -> (res: Result<i64, NBTError>)
    ensures
        old(input)@.len() >= 8 ==> res == Ok::<i64, NBTError>(u64_at(old(input)@, 0) as i64)
            && final(input)@ == old(input)@.subrange(8, old(input)@.len() as int),
        old(input)@.len() < 8 ==> res == Err::<i64, NBTError>(NBTError::ParsingError) && final(input)@ == old(input)@,
{
    if input.len() < 8 {
        return Err(NBTError::ParsingError);
    }
    let v = read_u64(*input, 0) as i64;
    advance(input, 8);
    Ok(v)
}

/// Parses an NBT float tag's payload (four bytes, big endian) into the bits of the IEEE 754
/// form of the number (what `f32::from_bits` takes).
pub fn parse_float_payload(input: &mut &[u8]) -> (res: Result<u32, NBTError>)
    ensures
        old(input)@.len() >= 4 ==> res == Ok::<u32, NBTError>(u32_at(old(input)@, 0)) && final(input)@ == old(input)@.subrange(4, old(input)@.len() as int),
        old(input)@.len() < 4 ==> res == Err::<u32, NBTError>(NBTError::ParsingError) && final(input)@ == old(input)@,
{
    if input.len() < 4 {
        return Err(NBTError::ParsingError);
    }
    let v = read_u32(*input, 0);
    advance(input, 4);
    Ok(v)
}

/// Parses an NBT double tag's payload (eight bytes, big endian) into the bits of the IEEE 754
/// form of the number (what `f64::from_bits` takes).
pub fn parse_double_payload(input: &mut &[u8]) -> (res: Result<u64, NBTError>)
    ensures
        old(input)@.len() >= 8 ==> res == Ok::<u64, NBTError>(u64_at(old(input)@, 0)) && final(input)@ == old(input)@.subrange(8, old(input)@.len() as int),
        old(input)@.len() < 8 ==> res == Err::<u64, NBTError>(NBTError::ParsingError) && final(input)@ == old(input)@,
{
    if input.len() < 8 {
        return Err(NBTError::ParsingError);
    }
    let v = read_u64(*input, 0);
    advance(input, 8);
    Ok(v)
}

/// Parses an NBT end tag's payload: a single 0 byte.
pub fn parse_end_payload(input: &mut &[u8]) -> (res: Result<(), NBTError>)
    ensures
        old(input)@.len() >= 1 && old(input)@[0] == 0 ==> res == Ok::<(), NBTError>(()) && final(input)@ == old(input)@.subrange(1, old(input)@.len() as int),
        !(old(input)@.len() >= 1 && old(input)@[0] == 0) ==> res == Err::<(), NBTError>(
            NBTError::ParsingError,
        ) && final(input)@ == old(input)@,
{
    if input.len() < 1 || input[0] != 0 {
        return Err(NBTError::ParsingError);
    }
    advance(input, 1);
    Ok(())
}

/// Parses an NBT byte array tag's payload: a 4 byte length `n`, then `n` bytes.
pub fn parse_byte_array_payload(input: &mut &[u8]) -> (res: Result<Vec<i8>, NBTError>)
    ensures
        match decode_i8s(old(input)@, 0) {
            Some((s, end)) => res matches Ok(r) && r@ == s && final(input)@ == old(input)@.subrange(
                end,
                old(input)@.len() as int,
            ),
            None => res == Err::<Vec<i8>, NBTError>(NBTError::ParsingError) && final(input)@ == old(input)@,
        },
{
    let (v, e) = parse_byte_array_at(*input, 0)?;
    advance(input, e);
    Ok(v)
}

/// Parses an NBT int array tag's payload: a 4 byte length `n`, then `n` int payloads.
pub fn parse_int_array_payload(input: &mut &[u8]) -> (res: Result<Vec<i32>, NBTError>)
    ensures
        match decode_i32s(old(input)@, 0) {
            Some((s, end)) => res matches Ok(r) && r@ == s && final(input)@ == old(input)@.subrange(
                end,
                old(input)@.len() as int,
            ),
            None => res == Err::<Vec<i32>, NBTError>(NBTError::ParsingError) && final(input)@
                == old(input)@,
        },
{
    let (v, e) = parse_int_array_at(*input, 0)?;
    advance(input, e);
    Ok(v)
}

/// Parses an NBT long array tag's payload: a 4 byte length `n`, then `n` long payloads.
pub fn parse_long_array_payload(input: &mut &[u8]) -> (res: Result<Vec<i64>, NBTError>)
    ensures
        match decode_i64s(old(input)@, 0) {
            Some((s, end)) => res matches Ok(r) && r@ == s && final(input)@ == old(input)@.subrange(
                end,
                old(input)@.len() as int,
            ),
            None => res == Err::<Vec<i64>, NBTError>(NBTError::ParsingError) && final(input)@
                == old(input)@,
        },
{
    let (v, e) = parse_long_array_at(*input, 0)?;
    advance(input, e);
    Ok(v)
}

/// Parses an NBT list tag's payload into the type of its items and the items: one byte for the
/// type's ID, a 4 byte length `n`, then `n` payloads of that type.
pub fn parse_list_payload(input: &mut &[u8]) -> (res: Result<
    (TagPayloadType, Vec<TagPayload>),
    NBTError,
>)
    ensures
        match decode_payload(TagPayloadType::List, old(input)@, 0) {
            Some((p, end)) => res matches Ok((ty, items)) && p == PayloadModel::List(
                ty,
                payloads_model(items@),
            ) && final(input)@ == old(input)@.subrange(end, old(input)@.len() as int),
            None => res == Err::<(TagPayloadType, Vec<TagPayload>), NBTError>(
                NBTError::ParsingError,
            ) && final(input)@ == old(input)@,
        },
{
    let (ty, items, e) = parse_list_at(*input, 0)?;
    advance(input, e);
    Ok((ty, items))
}

/// Parses an NBT compound tag's payload into its entries: tags, up to an end marker (a 0
/// byte). An entry takes the place of an earlier one with the same name.
pub fn parse_compound_payload(input: &mut &[u8]) -> (res: Result<Vec<Tag>, NBTError>)
    ensures
        match decode_tags(old(input)@, 0, Seq::empty()) {
            Some((tags, end)) => res matches Ok(r) && tags_model(r@) == tags && final(input)@ == old(input)@.subrange(end, old(input)@.len() as int),
            None => res == Err::<Vec<Tag>, NBTError>(NBTError::ParsingError) && final(input)@
                == old(input)@,
        },
{
    let (tags, e) = parse_compound_at(*input, 0)?;
    advance(input, e);
    Ok(tags)
}

/// Parses an NBT payload of the given type `ty`, with the parser for that type.
pub fn parse_payload(ty: TagPayloadType, input: &mut &[u8]) -> (res: Result<TagPayload, NBTError>)
    ensures
        match decode_payload(ty, old(input)@, 0) {
            Some((p, end)) => res matches Ok(r) && r@ == p && final(input)@ == old(input)@.subrange(
                end,
                old(input)@.len() as int,
            ),
            None => res == Err::<TagPayload, NBTError>(NBTError::ParsingError) && final(input)@
                == old(input)@,
        },
{
    let (p, e) = parse_payload_at(ty, *input, 0)?;
    advance(input, e);
    Ok(p)
}

/// Parses a raw NBT tag from the front of `input`: one byte for the type's ID (not that of
/// `End`), the name, then a payload of that type.
pub fn parse_tag(input: &mut &[u8]) -> (res: Result<Tag, NBTError>)
    ensures
        match decode_tag(old(input)@, 0) {
            Some((t, end)) => res matches Ok(r) && r@ == t && final(input)@ == old(input)@.subrange(
                end,
                old(input)@.len() as int,
            ),
            None => res == Err::<Tag, NBTError>(NBTError::ParsingError) && final(input)@ == old(input)@,
        },
{
    let (t, e) = parse_tag_at(*input, 0)?;
    advance(input, e);
    Ok(t)
}


/// Parses a gzip-compressed NBT tag: decompresses `data`, then parses a tag from the front of
/// the decompressed bytes (see [`parse_tag`]).
///
/// Where the decompression fails, the kind of the I/O error is returned in [`NBTError::IO`].
pub fn parse_compressed_tag(data: &[u8]) -> (res: Result<Tag, NBTError>)
    ensures
        gz_decoded(data@) is Err ==> res == Err::<Tag, NBTError>(
            NBTError::IO(gz_decoded(data@)->Err_0),
        ),
        gz_decoded(data@) is Ok ==> match decode_tag(gz_decoded(data@)->Ok_0, 0) {
            Some((t, _)) => res matches Ok(r) && r@ == t,
            None => res == Err::<Tag, NBTError>(NBTError::ParsingError),
        },
{
    match gzip_decompress(data) {
        Ok(buf) => {
            let mut input: &[u8] = buf.as_slice();
            parse_tag(&mut input)
        },
        Err(kind) => Err(NBTError::IO(kind)),
    }
}

} // verus!
