//! The NBT binary layout, stated as spec functions over byte sequences.
//!
//! Every multi-byte number is big endian. `encode_*` give the bytes that the writers append;
//! `decode_*` give what the parsers read from position `pos` of `data`: the value and the
//! position just after it, or `None` where the bytes do not form a valid encoding.
use vstd::prelude::*;
use vstd::utf8::{decode_utf8, encode_utf8, valid_utf8};

use crate::tag::{PayloadModel, TagModel, TagPayloadType};

verus! {

/// The two bytes of `x`, most significant first.
pub open spec fn be16(x: u16) -> Seq<u8> {
    seq![(x >> 8u16) as u8, x as u8]
}

/// The four bytes of `x`, most significant first.
pub open spec fn be32(x: u32) -> Seq<u8> {
    seq![(x >> 24u32) as u8, (x >> 16u32) as u8, (x >> 8u32) as u8, x as u8]
}

/// The eight bytes of `x`, most significant first.
pub open spec fn be64(x: u64) -> Seq<u8> {
    seq![
        (x >> 56u64) as u8,
        (x >> 48u64) as u8,
        (x >> 40u64) as u8,
        (x >> 32u64) as u8,
        (x >> 24u64) as u8,
        (x >> 16u64) as u8,
        (x >> 8u64) as u8,
        x as u8,
    ]
}

/// The number whose big-endian bytes are `b0, b1`.
pub open spec fn from_be16(b0: u8, b1: u8) -> u16 {
    ((b0 as u16) << 8u16) | (b1 as u16)
}

/// The number whose big-endian bytes are `b0 .. b3`.
pub open spec fn from_be32(b0: u8, b1: u8, b2: u8, b3: u8) -> u32 {
    ((b0 as u32) << 24u32) | ((b1 as u32) << 16u32) | ((b2 as u32) << 8u32) | (b3 as u32)
}

/// The number whose big-endian bytes are `b0 .. b7`.
pub open spec fn from_be64(b0: u8, b1: u8, b2: u8, b3: u8, b4: u8, b5: u8, b6: u8, b7: u8) -> u64 {
    ((b0 as u64) << 56u64) | ((b1 as u64) << 48u64) | ((b2 as u64) << 40u64) | ((b3 as u64) << 32u64)
        | ((b4 as u64) << 24u64) | ((b5 as u64) << 16u64) | ((b6 as u64) << 8u64) | (b7 as u64)
}

/// Reading back the bytes of a number gives the number.
pub proof fn lemma_be_roundtrip(x16: u16, x32: u32, x64: u64)
    ensures
        from_be16((x16 >> 8u16) as u8, x16 as u8) == x16,
        from_be32((x32 >> 24u32) as u8, (x32 >> 16u32) as u8, (x32 >> 8u32) as u8, x32 as u8)
            == x32,
        from_be64(
            (x64 >> 56u64) as u8,
            (x64 >> 48u64) as u8,
            (x64 >> 40u64) as u8,
            (x64 >> 32u64) as u8,
            (x64 >> 24u64) as u8,
            (x64 >> 16u64) as u8,
            (x64 >> 8u64) as u8,
            x64 as u8,
        ) == x64,
{
    assert(from_be16((x16 >> 8u16) as u8, x16 as u8) == x16) by (bit_vector);
    assert(from_be32((x32 >> 24u32) as u8, (x32 >> 16u32) as u8, (x32 >> 8u32) as u8, x32 as u8)
        == x32) by (bit_vector);
    assert(from_be64(
        (x64 >> 56u64) as u8,
        (x64 >> 48u64) as u8,
        (x64 >> 40u64) as u8,
        (x64 >> 32u64) as u8,
        (x64 >> 24u64) as u8,
        (x64 >> 16u64) as u8,
        (x64 >> 8u64) as u8,
        x64 as u8,
    ) == x64) by (bit_vector);
}

/// Writing back the number read from bytes gives the bytes.
pub proof fn lemma_be_bytes_roundtrip(b0: u8, b1: u8, b2: u8, b3: u8, b4: u8, b5: u8, b6: u8, b7: u8)
    ensures
        be16(from_be16(b0, b1)) == seq![b0, b1],
        be32(from_be32(b0, b1, b2, b3)) == seq![b0, b1, b2, b3],
        be64(from_be64(b0, b1, b2, b3, b4, b5, b6, b7)) == seq![b0, b1, b2, b3, b4, b5, b6, b7],
{
    let x = from_be16(b0, b1);
    assert((x >> 8u16) as u8 == b0 && x as u8 == b1) by (bit_vector)
        requires
            x == from_be16(b0, b1),
    ;
    assert(be16(x) =~= seq![b0, b1]);
    let y = from_be32(b0, b1, b2, b3);
    assert((y >> 24u32) as u8 == b0 && (y >> 16u32) as u8 == b1 && (y >> 8u32) as u8 == b2 && y as u8
        == b3) by (bit_vector)
        requires
            y == from_be32(b0, b1, b2, b3),
    ;
    assert(be32(y) =~= seq![b0, b1, b2, b3]);
    let z = from_be64(b0, b1, b2, b3, b4, b5, b6, b7);
    assert((z >> 56u64) as u8 == b0 && (z >> 48u64) as u8 == b1 && (z >> 40u64) as u8 == b2 && (z
        >> 32u64) as u8 == b3 && (z >> 24u64) as u8 == b4 && (z >> 16u64) as u8 == b5 && (z
        >> 8u64) as u8 == b6 && z as u8 == b7) by (bit_vector)
        requires
            z == from_be64(b0, b1, b2, b3, b4, b5, b6, b7),
    ;
    assert(be64(z) =~= seq![b0, b1, b2, b3, b4, b5, b6, b7]);
}

/// Casting an unsigned number to the signed type of its width and back gives the number.
pub proof fn lemma_unsigned_casts(a: u8, b: u16, c: u32, d: u64)
    ensures
        (a as i8) as u8 == a,
        (b as i16) as u16 == b,
        (c as i32) as u32 == c,
        (d as i64) as u64 == d,
{
    assert((a as i8) as u8 == a) by (bit_vector);
    assert((b as i16) as u16 == b) by (bit_vector);
    assert((c as i32) as u32 == c) by (bit_vector);
    assert((d as i64) as u64 == d) by (bit_vector);
}

/// Casting a signed number to the unsigned type of its width and back gives the number.
pub proof fn lemma_signed_casts(a: i8, b: i16, c: i32, d: i64)
    ensures
        (a as u8) as i8 == a,
        (b as u16) as i16 == b,
        (c as u32) as i32 == c,
        (d as u64) as i64 == d,
{
    assert((a as u8) as i8 == a) by (bit_vector);
    assert((b as u16) as i16 == b) by (bit_vector);
    assert((c as u32) as i32 == c) by (bit_vector);
    assert((d as u64) as i64 == d) by (bit_vector);
}


/// A string: its UTF-8 length as two bytes, then its UTF-8 bytes. (The writers refuse a string
/// whose length does not fit two bytes.)
pub open spec fn encode_string(s: Seq<char>) -> Seq<u8> {
    be16(encode_utf8(s).len() as u16) + encode_utf8(s)
}

/// The length field of an array or list: the length as a 4-byte signed number.
pub open spec fn encode_len(n: nat) -> Seq<u8> {
    be32(n as u32)
}

/// The bytes of a byte array, in two's complement.
pub open spec fn encode_i8s(s: Seq<i8>) -> Seq<u8> {
    Seq::new(s.len(), |i: int| s[i] as u8)
}

/// The 4-byte big-endian forms of the numbers of `s`, one after the other.
pub open spec fn encode_i32s(s: Seq<i32>) -> Seq<u8> {
    Seq::new(4 * s.len(), |j: int| be32(s[j / 4] as u32)[j % 4])
}

/// The 8-byte big-endian forms of the numbers of `s`, one after the other.
pub open spec fn encode_i64s(s: Seq<i64>) -> Seq<u8> {
    Seq::new(8 * s.len(), |j: int| be64(s[j / 8] as u64)[j % 8])
}

/// The bytes of a payload.
pub open spec fn encode_payload(p: PayloadModel) -> Seq<u8>
    decreases p,
{
    match p {
        PayloadModel::End => seq![0u8],
        PayloadModel::Byte(v) => seq![v as u8],
        PayloadModel::Short(v) => be16(v as u16),
        PayloadModel::Int(v) => be32(v as u32),
        PayloadModel::Long(v) => be64(v as u64),
        PayloadModel::Float(bits) => be32(bits),
        PayloadModel::Double(bits) => be64(bits),
        PayloadModel::ByteArray(s) => encode_len(s.len()) + encode_i8s(s),
        PayloadModel::String(s) => encode_string(s),
        PayloadModel::List(ty, items) => seq![ty.spec_id()] + encode_len(items.len())
            + encode_payloads(items),
        PayloadModel::Compound(tags) => encode_tags(tags) + seq![0u8],
        PayloadModel::IntArray(s) => encode_len(s.len()) + encode_i32s(s),
        PayloadModel::LongArray(s) => encode_len(s.len()) + encode_i64s(s),
    }
}

/// The payloads of `items`, one after the other.
pub open spec fn encode_payloads(items: Seq<PayloadModel>) -> Seq<u8>
    decreases items,
{
    if items.len() == 0 {
        Seq::empty()
    } else {
        encode_payload(items[0]) + encode_payloads(items.drop_first())
    }
}

/// The bytes of a tag: its type ID, its name, then its payload.
pub open spec fn encode_tag(t: TagModel) -> Seq<u8>
    decreases t,
{
    seq![t.payload.payload_type().spec_id()] + encode_string(t.name) + encode_payload(t.payload)
}

/// The tags of `tags`, one after the other.
pub open spec fn encode_tags(tags: Seq<TagModel>) -> Seq<u8>
    decreases tags,
{
    if tags.len() == 0 {
        Seq::empty()
    } else {
        encode_tag(tags[0]) + encode_tags(tags.drop_first())
    }
}


/// The 2-byte big-endian number at `pos`.
pub open spec fn u16_at(data: Seq<u8>, pos: int) -> u16 {
    from_be16(data[pos], data[pos + 1])
}

/// The 4-byte big-endian number at `pos`.
pub open spec fn u32_at(data: Seq<u8>, pos: int) -> u32 {
    from_be32(data[pos], data[pos + 1], data[pos + 2], data[pos + 3])
}

/// The 8-byte big-endian number at `pos`.
pub open spec fn u64_at(data: Seq<u8>, pos: int) -> u64 {
    from_be64(
        data[pos],
        data[pos + 1],
        data[pos + 2],
        data[pos + 3],
        data[pos + 4],
        data[pos + 5],
        data[pos + 6],
        data[pos + 7],
    )
}

/// A string at `pos`: a 2-byte length `n`, then `n` bytes of valid UTF-8.
pub open spec fn decode_string(data: Seq<u8>, pos: int) -> Option<(Seq<char>, int)> {
    if 0 <= pos && pos + 2 <= data.len() {
        let end = pos + 2 + u16_at(data, pos);
        if end <= data.len() && valid_utf8(data.subrange(pos + 2, end)) {
            Some((decode_utf8(data.subrange(pos + 2, end)), end))
        } else {
            None
        }
    } else {
        None
    }
}

/// The length field at `pos`: a 4-byte signed number that must not be negative (its first bit
/// is 0).
pub open spec fn decode_len(data: Seq<u8>, pos: int) -> Option<nat> {
    if 0 <= pos && pos + 4 <= data.len() && u32_at(data, pos) <= i32::MAX {
        Some(u32_at(data, pos) as nat)
    } else {
        None
    }
}

/// A byte array at `pos`: its length `n`, then `n` bytes.
pub open spec fn decode_i8s(data: Seq<u8>, pos: int) -> Option<(Seq<i8>, int)> {
    match decode_len(data, pos) {
        Some(n) => if pos + 4 + n <= data.len() {
            Some((Seq::new(n, |i: int| data[pos + 4 + i] as i8), pos + 4 + n))
        } else {
            None
        },
        None => None,
    }
}

/// An int array at `pos`: its length `n`, then `n` 4-byte numbers.
pub open spec fn decode_i32s(data: Seq<u8>, pos: int) -> Option<(Seq<i32>, int)> {
    match decode_len(data, pos) {
        Some(n) => if pos + 4 + 4 * n <= data.len() {
            Some((Seq::new(n, |i: int| u32_at(data, pos + 4 + 4 * i) as i32), pos + 4 + 4 * n))
        } else {
            None
        },
        None => None,
    }
}

/// A long array at `pos`: its length `n`, then `n` 8-byte numbers.
pub open spec fn decode_i64s(data: Seq<u8>, pos: int) -> Option<(Seq<i64>, int)> {
    match decode_len(data, pos) {
        Some(n) => if pos + 4 + 8 * n <= data.len() {
            Some((Seq::new(n, |i: int| u64_at(data, pos + 4 + 8 * i) as i64), pos + 4 + 8 * n))
        } else {
            None
        },
        None => None,
    }
}

/// Some entry of `tags` is named `name`.
pub open spec fn has_name(tags: Seq<TagModel>, name: Seq<char>) -> bool {
    exists|i: int| 0 <= i < tags.len() && (#[trigger] tags[i]).name == name
}

/// No two tags of `tags` have the same name.
pub open spec fn names_distinct(tags: Seq<TagModel>) -> bool {
    forall|i: int, j: int|
        0 <= i < tags.len() && 0 <= j < tags.len() && i != j ==> (#[trigger] tags[i]).name
            != (#[trigger] tags[j]).name
}

/// Adds `t` to the entries of a compound: it takes the place of the entry with the same name
/// where there is one, and is appended otherwise.
pub open spec fn compound_insert(tags: Seq<TagModel>, t: TagModel) -> Seq<TagModel> {
    if has_name(tags, t.name) {
        tags.update(choose|i: int| 0 <= i < tags.len() && (#[trigger] tags[i]).name == t.name, t)
    } else {
        tags.push(t)
    }
}

/// A payload of type `ty` at `pos`.
pub open spec fn decode_payload(ty: TagPayloadType, data: Seq<u8>, pos: int) -> Option<
    (PayloadModel, int),
>
    decreases data.len() - pos, 2nat,
{
    if !(0 <= pos <= data.len()) {
        None
    } else {
        match ty {
            TagPayloadType::End => if pos < data.len() && data[pos] == 0 {
                Some((PayloadModel::End, pos + 1))
            } else {
                None
            },
            TagPayloadType::Byte => if pos + 1 <= data.len() {
                Some((PayloadModel::Byte(data[pos] as i8), pos + 1))
            } else {
                None
            },
            TagPayloadType::Short => if pos + 2 <= data.len() {
                Some((PayloadModel::Short(u16_at(data, pos) as i16), pos + 2))
            } else {
                None
            },
            TagPayloadType::Int => if pos + 4 <= data.len() {
                Some((PayloadModel::Int(u32_at(data, pos) as i32), pos + 4))
            } else {
                None
            },
            TagPayloadType::Long => if pos + 8 <= data.len() {
                Some((PayloadModel::Long(u64_at(data, pos) as i64), pos + 8))
            } else {
                None
            },
            TagPayloadType::Float => if pos + 4 <= data.len() {
                Some((PayloadModel::Float(u32_at(data, pos)), pos + 4))
            } else {
                None
            },
            TagPayloadType::Double => if pos + 8 <= data.len() {
                Some((PayloadModel::Double(u64_at(data, pos)), pos + 8))
            } else {
                None
            },
            TagPayloadType::ByteArray => match decode_i8s(data, pos) {
                Some((s, end)) => Some((PayloadModel::ByteArray(s), end)),
                None => None,
            },
            TagPayloadType::String => match decode_string(data, pos) {
                Some((s, end)) => Some((PayloadModel::String(s), end)),
                None => None,
            },
            TagPayloadType::List => if pos + 1 <= data.len() {
                match TagPayloadType::spec_from_repr(data[pos]) {
                    Some(item_ty) => match decode_len(data, pos + 1) {
                        Some(n) => match decode_payloads(item_ty, data, pos + 5, n, Seq::empty()) {
                            Some((items, end)) => Some((PayloadModel::List(item_ty, items), end)),
                            None => None,
                        },
                        None => None,
                    },
                    None => None,
                }
            } else {
                None
            },
            TagPayloadType::Compound => match decode_tags(data, pos, Seq::empty()) {
                Some((tags, end)) => Some((PayloadModel::Compound(tags), end)),
                None => None,
            },
            TagPayloadType::IntArray => match decode_i32s(data, pos) {
                Some((s, end)) => Some((PayloadModel::IntArray(s), end)),
                None => None,
            },
            TagPayloadType::LongArray => match decode_i64s(data, pos) {
                Some((s, end)) => Some((PayloadModel::LongArray(s), end)),
                None => None,
            },
        }
    }
}

/// `n` more payloads of type `ty` from `pos`, appended to the ones already read, `acc`.
pub open spec fn decode_payloads(
    ty: TagPayloadType,
    data: Seq<u8>,
    pos: int,
    n: nat,
    acc: Seq<PayloadModel>,
) -> Option<(Seq<PayloadModel>, int)>
    decreases data.len() - pos, 3 + n,
{
    if n == 0 {
        if 0 <= pos <= data.len() {
            Some((acc, pos))
        } else {
            None
        }
    } else {
        match decode_payload(ty, data, pos) {
            Some((p, end)) => if pos < end <= data.len() {
                decode_payloads(ty, data, end, (n - 1) as nat, acc.push(p))
            } else {
                None
            },
            None => None,
        }
    }
}

/// A tag at `pos`: a type ID other than that of `End`, a name, then a payload of that type.
pub open spec fn decode_tag(data: Seq<u8>, pos: int) -> Option<(TagModel, int)>
    decreases data.len() - pos, 0nat,
{
    if 0 <= pos < data.len() {
        match TagPayloadType::spec_from_repr(data[pos]) {
            Some(ty) => if ty == TagPayloadType::End {
                None
            } else {
                match decode_string(data, pos + 1) {
                    Some((name, start)) => match decode_payload(ty, data, start) {
                        Some((p, end)) => Some((TagModel { name, payload: p }, end)),
                        None => None,
                    },
                    None => None,
                }
            },
            None => None,
        }
    } else {
        None
    }
}

/// The entries of a compound from `pos` up to its end marker (a 0 byte), added one by one to
/// the ones already read, `acc`.
pub open spec fn decode_tags(data: Seq<u8>, pos: int, acc: Seq<TagModel>) -> Option<
    (Seq<TagModel>, int),
>
    decreases data.len() - pos, 1nat,
{
    if 0 <= pos < data.len() {
        if data[pos] == 0 {
            Some((acc, pos + 1))
        } else {
            match decode_tag(data, pos) {
                Some((t, end)) => if pos < end <= data.len() {
                    decode_tags(data, end, compound_insert(acc, t))
                } else {
                    None
                },
                None => None,
            }
        }
    } else {
        None
    }
}


/// Writing one more payload after `items` appends its bytes.
pub proof fn lemma_encode_payloads_push(items: Seq<PayloadModel>, p: PayloadModel)
    ensures
        encode_payloads(items.push(p)) == encode_payloads(items) + encode_payload(p),
    decreases items.len(),
{
    if items.len() == 0 {
        assert(items.push(p).drop_first() =~= Seq::<PayloadModel>::empty());
        assert(encode_payloads(items.push(p).drop_first()) =~= Seq::<u8>::empty());
        assert(encode_payloads(items.push(p)) =~= encode_payload(p));
    } else {
        lemma_encode_payloads_push(items.drop_first(), p);
        assert(items.push(p).drop_first() =~= items.drop_first().push(p));
        assert(encode_payloads(items.push(p)) =~= encode_payloads(items) + encode_payload(p));
    }
}

/// Writing one more tag after `tags` appends its bytes.
pub proof fn lemma_encode_tags_push(tags: Seq<TagModel>, t: TagModel)
    ensures
        encode_tags(tags.push(t)) == encode_tags(tags) + encode_tag(t),
    decreases tags.len(),
{
    if tags.len() == 0 {
        assert(tags.push(t).drop_first() =~= Seq::<TagModel>::empty());
        assert(encode_tags(tags.push(t).drop_first()) =~= Seq::<u8>::empty());
        assert(encode_tags(tags.push(t)) =~= encode_tag(t));
    } else {
        lemma_encode_tags_push(tags.drop_first(), t);
        assert(tags.push(t).drop_first() =~= tags.drop_first().push(t));
        assert(encode_tags(tags.push(t)) =~= encode_tags(tags) + encode_tag(t));
    }
}

/// A list's bytes are the ID of its items' type, its length as 4 bytes, then its items; a
/// compound's bytes are its entries, then a 0 byte that ends it; a string's bytes are its
/// UTF-8 length as 2 bytes, then its UTF-8 bytes.
pub proof fn law_list_compound_and_string_layout(
    ty: TagPayloadType,
    items: Seq<PayloadModel>,
    tags: Seq<TagModel>,
    s: Seq<char>,
)
    ensures
        encode_payload(PayloadModel::List(ty, items))[0] == ty.spec_id(),
        encode_payload(PayloadModel::List(ty, items)).subrange(1, 5) == be32(items.len() as u32),
        encode_payload(PayloadModel::List(ty, items)).subrange(
            5,
            encode_payload(PayloadModel::List(ty, items)).len() as int,
        ) == encode_payloads(items),
        encode_payload(PayloadModel::Compound(tags)) == encode_tags(tags).push(0u8),
        encode_string(s).subrange(0, 2) == be16(encode_utf8(s).len() as u16),
        encode_string(s).subrange(2, encode_string(s).len() as int) == encode_utf8(s),
{
    let l = encode_payload(PayloadModel::List(ty, items));
    assert(l.subrange(1, 5) =~= be32(items.len() as u32));
    assert(l.subrange(5, l.len() as int) =~= encode_payloads(items));
    assert(encode_payload(PayloadModel::Compound(tags)) =~= encode_tags(tags).push(0u8));
    assert(encode_string(s).subrange(0, 2) =~= be16(encode_utf8(s).len() as u16));
    assert(encode_string(s).subrange(2, encode_string(s).len() as int) =~= encode_utf8(s));
}

/// Numbers are written big endian: the bytes of a 2-, 4- or 8-byte number are its base-256
/// digits, most significant first.
pub proof fn law_numbers_are_big_endian(x16: u16, x32: u32, x64: u64)
    ensures
        be16(x16).len() == 2,
        be16(x16)[0] * 0x100 + be16(x16)[1] == x16,
        be32(x32).len() == 4,
        be32(x32)[0] * 0x1000000 + be32(x32)[1] * 0x10000 + be32(x32)[2] * 0x100 + be32(x32)[3]
            == x32,
        be64(x64).len() == 8,
        be64(x64)[0] * 0x100000000000000 + be64(x64)[1] * 0x1000000000000 + be64(x64)[2]
            * 0x10000000000 + be64(x64)[3] * 0x100000000 + be64(x64)[4] * 0x1000000 + be64(x64)[5]
            * 0x10000 + be64(x64)[6] * 0x100 + be64(x64)[7] == x64,
{
    assert(((x16 >> 8u16) as u8) * 0x100 + (x16 as u8) == x16) by (bit_vector);
    assert(((x32 >> 24u32) as u8) * 0x1000000 + ((x32 >> 16u32) as u8) * 0x10000 + ((x32
        >> 8u32) as u8) * 0x100 + (x32 as u8) == x32) by (bit_vector);
    assert(((x64 >> 56u64) as u8) * 0x100000000000000 + ((x64 >> 48u64) as u8) * 0x1000000000000
        + ((x64 >> 40u64) as u8) * 0x10000000000 + ((x64 >> 32u64) as u8) * 0x100000000 + ((x64
        >> 24u64) as u8) * 0x1000000 + ((x64 >> 16u64) as u8) * 0x10000 + ((x64 >> 8u64) as u8)
        * 0x100 + (x64 as u8) == x64) by (bit_vector);
}

/// Numbers are read big endian: the number at a position is the base-256 value of its bytes,
/// most significant first.
pub proof fn law_numbers_are_read_big_endian(data: Seq<u8>, pos: int)
    requires
        0 <= pos,
        pos + 8 <= data.len(),
    ensures
        u16_at(data, pos) == data[pos] * 0x100 + data[pos + 1],
        u32_at(data, pos) == data[pos] * 0x1000000 + data[pos + 1] * 0x10000 + data[pos + 2]
            * 0x100 + data[pos + 3],
        u64_at(data, pos) == data[pos] * 0x100000000000000 + data[pos + 1] * 0x1000000000000
            + data[pos + 2] * 0x10000000000 + data[pos + 3] * 0x100000000 + data[pos + 4]
            * 0x1000000 + data[pos + 5] * 0x10000 + data[pos + 6] * 0x100 + data[pos + 7],
{
    let (b0, b1, b2, b3) = (data[pos], data[pos + 1], data[pos + 2], data[pos + 3]);
    let (b4, b5, b6, b7) = (data[pos + 4], data[pos + 5], data[pos + 6], data[pos + 7]);
    assert(from_be16(b0, b1) == b0 * 0x100 + b1) by (bit_vector);
    assert(from_be32(b0, b1, b2, b3) == b0 * 0x1000000 + b1 * 0x10000 + b2 * 0x100 + b3)
        by (bit_vector);
    assert(from_be64(b0, b1, b2, b3, b4, b5, b6, b7) == b0 * 0x100000000000000 + b1
        * 0x1000000000000 + b2 * 0x10000000000 + b3 * 0x100000000 + b4 * 0x1000000 + b5
        * 0x10000 + b6 * 0x100 + b7) by (bit_vector);
}

/// The items of an array are written in order: item `i` of a byte array is byte `i`, in two's
/// complement, and item `i` of an int or long array is the `i`-th group of 4 or 8 bytes.
pub proof fn law_array_items_in_order(a: Seq<i8>, b: Seq<i32>, c: Seq<i64>)
    ensures
        encode_i8s(a).len() == a.len(),
        forall|i: int| 0 <= i < a.len() ==> (#[trigger] encode_i8s(a)[i]) as i8 == a[i],
        encode_i32s(b).len() == 4 * b.len(),
        forall|i: int|
            0 <= i < b.len() ==> #[trigger] encode_i32s(b).subrange(4 * i, 4 * i + 4) == be32(
                b[i] as u32,
            ),
        encode_i64s(c).len() == 8 * c.len(),
        forall|i: int|
            0 <= i < c.len() ==> #[trigger] encode_i64s(c).subrange(8 * i, 8 * i + 8) == be64(
                c[i] as u64,
            ),
{
    assert forall|i: int| 0 <= i < a.len() implies (#[trigger] encode_i8s(a)[i]) as i8 == a[i] by {
        lemma_signed_casts(a[i], 0, 0, 0);
    }
    assert forall|i: int| 0 <= i < b.len() implies #[trigger] encode_i32s(b).subrange(
        4 * i,
        4 * i + 4,
    ) == be32(b[i] as u32) by {
        assert forall|k: int| 0 <= k < 4 implies #[trigger] encode_i32s(b)[4 * i + k] == be32(
            b[i] as u32,
        )[k] by {
            assert((4 * i + k) / 4 == i && (4 * i + k) % 4 == k) by (nonlinear_arith)
                requires
                    0 <= k < 4,
            ;
        }
        assert(encode_i32s(b).subrange(4 * i, 4 * i + 4) =~= be32(b[i] as u32));
    }
    assert forall|i: int| 0 <= i < c.len() implies #[trigger] encode_i64s(c).subrange(
        8 * i,
        8 * i + 8,
    ) == be64(c[i] as u64) by {
        assert forall|k: int| 0 <= k < 8 implies #[trigger] encode_i64s(c)[8 * i + k] == be64(
            c[i] as u64,
        )[k] by {
            assert((8 * i + k) / 8 == i && (8 * i + k) % 8 == k) by (nonlinear_arith)
                requires
                    0 <= k < 8,
            ;
        }
        assert(encode_i64s(c).subrange(8 * i, 8 * i + 8) =~= be64(c[i] as u64));
    }
}

/// The items of an array are read in order: after the 4-byte length, item `i` of a byte array
/// is byte `i`, and item `i` of an int or long array is read from the `i`-th group of 4 or 8
/// bytes; the array ends just after its last item.
pub proof fn law_array_items_read_in_order(data: Seq<u8>, pos: int)
    ensures
        decode_i8s(data, pos) matches Some((s, end)) ==> end == pos + 4 + s.len() && forall|i: int|
            0 <= i < s.len() ==> (#[trigger] s[i]) as u8 == data[pos + 4 + i],
        decode_i32s(data, pos) matches Some((s, end)) ==> end == pos + 4 + 4 * s.len()
            && forall|i: int|
            0 <= i < s.len() ==> (#[trigger] s[i]) as u32 == u32_at(data, pos + 4 + 4 * i),
        decode_i64s(data, pos) matches Some((s, end)) ==> end == pos + 4 + 8 * s.len()
            && forall|i: int|
            0 <= i < s.len() ==> (#[trigger] s[i]) as u64 == u64_at(data, pos + 4 + 8 * i),
{
    if let Some((s, end)) = decode_i8s(data, pos) {
        assert forall|i: int| 0 <= i < s.len() implies (#[trigger] s[i]) as u8 == data[pos + 4
            + i] by {
            lemma_unsigned_casts(data[pos + 4 + i], 0, 0, 0);
        }
    }
    if let Some((s, end)) = decode_i32s(data, pos) {
        assert forall|i: int| 0 <= i < s.len() implies (#[trigger] s[i]) as u32 == u32_at(
            data,
            pos + 4 + 4 * i,
        ) by {
            lemma_unsigned_casts(0, 0, u32_at(data, pos + 4 + 4 * i), 0);
        }
    }
    if let Some((s, end)) = decode_i64s(data, pos) {
        assert forall|i: int| 0 <= i < s.len() implies (#[trigger] s[i]) as u64 == u64_at(
            data,
            pos + 4 + 8 * i,
        ) by {
            lemma_unsigned_casts(0, 0, 0, u64_at(data, pos + 4 + 8 * i));
        }
    }
}

/// A tag's bytes start with the ID of its payload's type, then its name's length and name.
pub proof fn law_tag_bytes_start_with_type_id(t: TagModel)
    ensures
        encode_tag(t)[0] == t.payload.payload_type().spec_id(),
        encode_tag(t).subrange(1, 3) == be16(encode_utf8(t.name).len() as u16),
        encode_tag(t).subrange(3, 3 + encode_utf8(t.name).len() as int) == encode_utf8(t.name),
{
    let n: int = encode_utf8(t.name).len() as int;
    assert(encode_tag(t).subrange(1, 3) =~= be16(n as u16));
    assert(encode_tag(t).subrange(3, 3 + n) =~= encode_utf8(t.name));
}

/// A tag read from bytes has the payload type whose ID its first byte holds.
pub proof fn law_read_tag_type_from_first_byte(data: Seq<u8>, pos: int)
    ensures
        decode_tag(data, pos) matches Some((t, _)) ==> TagPayloadType::spec_from_repr(data[pos])
            == Some(t.payload.payload_type()),
{
    if let Some((t, _)) = decode_tag(data, pos) {
        let ty = TagPayloadType::spec_from_repr(data[pos])->Some_0;
        let start = decode_string(data, pos + 1)->Some_0.1;
        lemma_decoded_payload_has_type(ty, data, start);
    }
}

/// A payload read as type `ty` has type `ty`.
proof fn lemma_decoded_payload_has_type(ty: TagPayloadType, data: Seq<u8>, pos: int)
    ensures
        decode_payload(ty, data, pos) matches Some((p, _)) ==> p.payload_type() == ty,
{
}

} // verus!
