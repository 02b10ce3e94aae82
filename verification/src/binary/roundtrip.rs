//! What reading gives back of what writing wrote.
use vstd::prelude::*;
use vstd::utf8::{
    decode_utf8_encode_utf8, encode_utf8, encode_utf8_decode_utf8, encode_utf8_valid_utf8,
};

use super::format::{
    decode_i32s, decode_i64s, decode_i8s,
    be16, be32, be64, compound_insert, decode_len, decode_payload, decode_payloads, decode_string,
    decode_tag, decode_tags, encode_i32s, encode_i64s, encode_i8s, encode_len, encode_payload,
    encode_payloads, encode_string, encode_tag, encode_tags, has_name, lemma_be_roundtrip,
    lemma_be_bytes_roundtrip, lemma_encode_tags_push, lemma_signed_casts, lemma_unsigned_casts,
    names_distinct, u16_at,
    u32_at, u64_at,
};
use crate::tag::{lemma_type_id_roundtrip, PayloadModel, TagModel, TagPayloadType};

verus! {

/// A string whose UTF-8 form fits the 2-byte length field.
pub open spec fn string_fits(s: Seq<char>) -> bool {
    encode_utf8(s).len() <= u16::MAX
}

/// A payload that the format can hold: every string fits its length field, every array and
/// list fits its length field (at most `i32::MAX` items), every list item has the type of its
/// list, and every compound has entries with distinct names, none of them an `End` payload.
pub open spec fn payload_encodable(p: PayloadModel) -> bool
    decreases p,
{
    match p {
        PayloadModel::ByteArray(s) => s.len() <= i32::MAX,
        PayloadModel::IntArray(s) => s.len() <= i32::MAX,
        PayloadModel::LongArray(s) => s.len() <= i32::MAX,
        PayloadModel::String(s) => string_fits(s),
        PayloadModel::List(ty, items) => items.len() <= i32::MAX && forall|i: int|
            0 <= i < items.len() ==> (#[trigger] items[i]).payload_type() == ty
                && payload_encodable(items[i]),
        PayloadModel::Compound(tags) => names_distinct(tags) && forall|i: int|
            0 <= i < tags.len() ==> tag_encodable(#[trigger] tags[i]),
        _ => true,
    }
}

/// A tag that the format can hold: its name fits, its payload is not `End` and can be held.
pub open spec fn tag_encodable(t: TagModel) -> bool
    decreases t,
{
    string_fits(t.name) && t.payload.payload_type() != TagPayloadType::End && payload_encodable(
        t.payload,
    )
}

/// `data` holds the bytes `b` from position `pos` on.
pub open spec fn bytes_at(data: Seq<u8>, pos: int, b: Seq<u8>) -> bool {
    0 <= pos && pos + b.len() <= data.len() && data.subrange(pos, pos + b.len()) == b
}

proof fn lemma_bytes_at_split(data: Seq<u8>, pos: int, a: Seq<u8>, b: Seq<u8>)
    requires
        bytes_at(data, pos, a + b),
    ensures
        bytes_at(data, pos, a),
        bytes_at(data, pos + a.len(), b),
{
    let big = data.subrange(pos, pos + (a + b).len());
    assert(big == a + b);
    assert(data.subrange(pos, pos + a.len()) =~= big.subrange(0, a.len() as int));
    assert(big.subrange(0, a.len() as int) =~= a);
    assert(data.subrange(pos + a.len(), pos + a.len() + b.len()) =~= big.subrange(
        a.len() as int,
        big.len() as int,
    ));
    assert(big.subrange(a.len() as int, big.len() as int) =~= b);
}

proof fn lemma_bytes_at_index(data: Seq<u8>, pos: int, b: Seq<u8>, i: int)
    requires
        bytes_at(data, pos, b),
        0 <= i < b.len(),
    ensures
        data[pos + i] == b[i],
{
    assert(data.subrange(pos, pos + b.len())[i] == data[pos + i]);
}

/// Every payload takes at least one byte.
proof fn lemma_encode_payload_nonempty(p: PayloadModel)
    ensures
        encode_payload(p).len() >= 1,
{
}

/// Reading a string back from its bytes.
proof fn lemma_string_roundtrip(s: Seq<char>, data: Seq<u8>, pos: int)
    requires
        string_fits(s),
        bytes_at(data, pos, encode_string(s)),
    ensures
        decode_string(data, pos) == Some((s, pos + encode_string(s).len())),
{
    let b = encode_utf8(s);
    let n = b.len();
    let x = n as u16;
    assert(x == n);
    lemma_bytes_at_split(data, pos, be16(x), b);
    lemma_bytes_at_index(data, pos, be16(x), 0);
    lemma_bytes_at_index(data, pos, be16(x), 1);
    lemma_be_roundtrip(x, 0, 0);
    assert(u16_at(data, pos) == x);
    encode_utf8_valid_utf8(s);
    encode_utf8_decode_utf8(s);
}


/// Reading a length field back from its bytes.
proof fn lemma_len_roundtrip(n: nat, data: Seq<u8>, pos: int)
    requires
        n <= i32::MAX,
        bytes_at(data, pos, encode_len(n)),
    ensures
        decode_len(data, pos) == Some(n),
{
    let x = n as u32;
    assert(x == n);
    lemma_bytes_at_index(data, pos, be32(x), 0);
    lemma_bytes_at_index(data, pos, be32(x), 1);
    lemma_bytes_at_index(data, pos, be32(x), 2);
    lemma_bytes_at_index(data, pos, be32(x), 3);
    lemma_be_roundtrip(0, x, 0);
    assert(u32_at(data, pos) == x);
}

/// Reading a byte array back from its bytes.
proof fn lemma_i8s_roundtrip(s: Seq<i8>, data: Seq<u8>, pos: int)
    requires
        s.len() <= i32::MAX,
        bytes_at(data, pos, encode_len(s.len()) + encode_i8s(s)),
    ensures
        decode_i8s(data, pos) == Some((s, pos + 4 + s.len())),
{
    lemma_bytes_at_split(data, pos, encode_len(s.len()), encode_i8s(s));
    lemma_len_roundtrip(s.len(), data, pos);
    let got = Seq::new(s.len(), |i: int| data[pos + 4 + i] as i8);
    assert forall|i: int| 0 <= i < s.len() implies got[i] == s[i] by {
        lemma_bytes_at_index(data, pos + 4, encode_i8s(s), i);
        lemma_signed_casts(s[i], 0, 0, 0);
    }
    assert(got =~= s);
}

/// Reading an int array back from its bytes.
proof fn lemma_i32s_roundtrip(s: Seq<i32>, data: Seq<u8>, pos: int)
    requires
        s.len() <= i32::MAX,
        bytes_at(data, pos, encode_len(s.len()) + encode_i32s(s)),
    ensures
        decode_i32s(data, pos) == Some((s, pos + 4 + 4 * s.len())),
{
    let e = encode_i32s(s);
    lemma_bytes_at_split(data, pos, encode_len(s.len()), e);
    lemma_len_roundtrip(s.len(), data, pos);
    let got = Seq::new(s.len(), |i: int| u32_at(data, pos + 4 + 4 * i) as i32);
    assert forall|i: int| 0 <= i < s.len() implies got[i] == s[i] by {
        let x = s[i] as u32;
        let q = pos + 4 + 4 * i;
        assert forall|k: int| 0 <= k < 4 implies data[q + k] == be32(x)[k] by {
            lemma_bytes_at_index(data, pos + 4, e, 4 * i + k);
            assert((4 * i + k) / 4 == i);
            assert((4 * i + k) % 4 == k);
        }
        assert(data[q] == be32(x)[0]);
        assert(data[q + 1] == be32(x)[1]);
        assert(data[q + 2] == be32(x)[2]);
        assert(data[q + 3] == be32(x)[3]);
        lemma_be_roundtrip(0, x, 0);
        lemma_signed_casts(0, 0, s[i], 0);
    }
    assert(got =~= s);
}

/// Reading a long array back from its bytes.
proof fn lemma_i64s_roundtrip(s: Seq<i64>, data: Seq<u8>, pos: int)
    requires
        s.len() <= i32::MAX,
        bytes_at(data, pos, encode_len(s.len()) + encode_i64s(s)),
    ensures
        decode_i64s(data, pos) == Some((s, pos + 4 + 8 * s.len())),
{
    let e = encode_i64s(s);
    lemma_bytes_at_split(data, pos, encode_len(s.len()), e);
    lemma_len_roundtrip(s.len(), data, pos);
    let got = Seq::new(s.len(), |i: int| u64_at(data, pos + 4 + 8 * i) as i64);
    assert forall|i: int| 0 <= i < s.len() implies got[i] == s[i] by {
        let x = s[i] as u64;
        let q = pos + 4 + 8 * i;
        assert forall|k: int| 0 <= k < 8 implies data[q + k] == be64(x)[k] by {
            lemma_bytes_at_index(data, pos + 4, e, 8 * i + k);
            assert((8 * i + k) / 8 == i);
            assert((8 * i + k) % 8 == k);
        }
        assert(data[q] == be64(x)[0]);
        assert(data[q + 1] == be64(x)[1]);
        assert(data[q + 2] == be64(x)[2]);
        assert(data[q + 3] == be64(x)[3]);
        assert(data[q + 4] == be64(x)[4]);
        assert(data[q + 5] == be64(x)[5]);
        assert(data[q + 6] == be64(x)[6]);
        assert(data[q + 7] == be64(x)[7]);
        lemma_be_roundtrip(0, 0, x);
        lemma_signed_casts(0, 0, 0, s[i]);
    }
    assert(got =~= s);
}


/// Reading a payload back from its bytes, with the parser for its type.
proof fn lemma_payload_roundtrip(p: PayloadModel, data: Seq<u8>, pos: int)
    requires
        payload_encodable(p),
        bytes_at(data, pos, encode_payload(p)),
    ensures
        decode_payload(p.payload_type(), data, pos) == Some((p, pos + encode_payload(p).len())),
    decreases p,
{
    let e = encode_payload(p);
    match p {
        PayloadModel::End => {
            lemma_bytes_at_index(data, pos, e, 0);
        },
        PayloadModel::Byte(v) => {
            lemma_bytes_at_index(data, pos, e, 0);
            lemma_signed_casts(v, 0, 0, 0);
        },
        PayloadModel::Short(v) => {
            lemma_bytes_at_index(data, pos, e, 0);
            lemma_bytes_at_index(data, pos, e, 1);
            lemma_be_roundtrip(v as u16, 0, 0);
            lemma_signed_casts(0, v, 0, 0);
        },
        PayloadModel::Int(v) => {
            lemma_bytes_at_index(data, pos, e, 0);
            lemma_bytes_at_index(data, pos, e, 1);
            lemma_bytes_at_index(data, pos, e, 2);
            lemma_bytes_at_index(data, pos, e, 3);
            lemma_be_roundtrip(0, v as u32, 0);
            lemma_signed_casts(0, 0, v, 0);
        },
        PayloadModel::Long(v) => {
            assert forall|k: int| 0 <= k < 8 implies data[pos + k] == e[k] by {
                lemma_bytes_at_index(data, pos, e, k);
            }
            assert(data[pos] == e[0] && data[pos + 1] == e[1] && data[pos + 2] == e[2] && data[pos
                + 3] == e[3] && data[pos + 4] == e[4] && data[pos + 5] == e[5] && data[pos + 6]
                == e[6] && data[pos + 7] == e[7]);
            lemma_be_roundtrip(0, 0, v as u64);
            lemma_signed_casts(0, 0, 0, v);
        },
        PayloadModel::Float(bits) => {
            lemma_bytes_at_index(data, pos, e, 0);
            lemma_bytes_at_index(data, pos, e, 1);
            lemma_bytes_at_index(data, pos, e, 2);
            lemma_bytes_at_index(data, pos, e, 3);
            lemma_be_roundtrip(0, bits, 0);
        },
        PayloadModel::Double(bits) => {
            assert forall|k: int| 0 <= k < 8 implies data[pos + k] == e[k] by {
                lemma_bytes_at_index(data, pos, e, k);
            }
            assert(data[pos] == e[0] && data[pos + 1] == e[1] && data[pos + 2] == e[2] && data[pos
                + 3] == e[3] && data[pos + 4] == e[4] && data[pos + 5] == e[5] && data[pos + 6]
                == e[6] && data[pos + 7] == e[7]);
            lemma_be_roundtrip(0, 0, bits);
        },
        PayloadModel::ByteArray(s) => {
            lemma_i8s_roundtrip(s, data, pos);
        },
        PayloadModel::String(s) => {
            lemma_string_roundtrip(s, data, pos);
        },
        PayloadModel::List(ty, items) => {
            let head = seq![ty.spec_id()] + encode_len(items.len());
            assert(e == head + encode_payloads(items));
            lemma_bytes_at_split(data, pos, head, encode_payloads(items));
            lemma_bytes_at_split(data, pos, seq![ty.spec_id()], encode_len(items.len()));
            lemma_bytes_at_index(data, pos, seq![ty.spec_id()], 0);
            lemma_type_id_roundtrip(ty, 0);
            lemma_len_roundtrip(items.len(), data, pos + 1);
            lemma_payloads_roundtrip(ty, items, data, pos + 5, Seq::empty());
            assert(Seq::<PayloadModel>::empty() + items =~= items);
        },
        PayloadModel::Compound(tags) => {
            lemma_tags_roundtrip(tags, data, pos, Seq::empty());
            assert(Seq::<TagModel>::empty() + tags =~= tags);
        },
        PayloadModel::IntArray(s) => {
            lemma_i32s_roundtrip(s, data, pos);
        },
        PayloadModel::LongArray(s) => {
            lemma_i64s_roundtrip(s, data, pos);
        },
    }
}

/// Reading the payloads of a list back from their bytes, after the items `acc`.
proof fn lemma_payloads_roundtrip(
    ty: TagPayloadType,
    items: Seq<PayloadModel>,
    data: Seq<u8>,
    pos: int,
    acc: Seq<PayloadModel>,
)
    requires
        forall|i: int|
            0 <= i < items.len() ==> (#[trigger] items[i]).payload_type() == ty
                && payload_encodable(items[i]),
        bytes_at(data, pos, encode_payloads(items)),
    ensures
        decode_payloads(ty, data, pos, items.len(), acc) == Some(
            (acc + items, pos + encode_payloads(items).len()),
        ),
    decreases items,
{
    if items.len() == 0 {
        assert(acc + items =~= acc);
    } else {
        let first = items[0];
        let rest = items.drop_first();
        lemma_bytes_at_split(data, pos, encode_payload(first), encode_payloads(rest));
        lemma_payload_roundtrip(first, data, pos);
        lemma_encode_payload_nonempty(first);
        let end = pos + encode_payload(first).len();
        assert forall|i: int| 0 <= i < rest.len() implies (#[trigger] rest[i]).payload_type() == ty
            && payload_encodable(rest[i]) by {
            assert(rest[i] == items[i + 1]);
        }
        lemma_payloads_roundtrip(ty, rest, data, end, acc.push(first));
        assert(acc.push(first) + rest =~= acc + items);
        assert((items.len() - 1) as nat == rest.len());
    }
}

/// Reading a tag back from its bytes.
proof fn lemma_tag_roundtrip(t: TagModel, data: Seq<u8>, pos: int)
    requires
        tag_encodable(t),
        bytes_at(data, pos, encode_tag(t)),
    ensures
        decode_tag(data, pos) == Some((t, pos + encode_tag(t).len())),
    decreases t,
{
    let ty = t.payload.payload_type();
    let id = seq![ty.spec_id()];
    let name = encode_string(t.name);
    assert(encode_tag(t) == id + name + encode_payload(t.payload));
    lemma_bytes_at_split(data, pos, id + name, encode_payload(t.payload));
    lemma_bytes_at_split(data, pos, id, name);
    lemma_bytes_at_index(data, pos, id, 0);
    lemma_type_id_roundtrip(ty, 0);
    lemma_string_roundtrip(t.name, data, pos + 1);
    lemma_payload_roundtrip(t.payload, data, pos + 1 + name.len());
}

/// Reading the entries of a compound back from their bytes and the end marker, after the
/// entries `acc`.
proof fn lemma_tags_roundtrip(tags: Seq<TagModel>, data: Seq<u8>, pos: int, acc: Seq<TagModel>)
    requires
        forall|i: int| 0 <= i < tags.len() ==> tag_encodable(#[trigger] tags[i]),
        names_distinct(acc + tags),
        bytes_at(data, pos, encode_tags(tags) + seq![0u8]),
    ensures
        decode_tags(data, pos, acc) == Some((acc + tags, pos + encode_tags(tags).len() + 1)),
    decreases tags,
{
    if tags.len() == 0 {
        assert(encode_tags(tags) + seq![0u8] =~= seq![0u8]);
        lemma_bytes_at_index(data, pos, seq![0u8], 0);
        assert(acc + tags =~= acc);
    } else {
        let first = tags[0];
        let rest = tags.drop_first();
        assert(encode_tags(tags) + seq![0u8] =~= encode_tag(first) + (encode_tags(rest) + seq![
            0u8,
        ]));
        lemma_bytes_at_split(data, pos, encode_tag(first), encode_tags(rest) + seq![0u8]);
        assert(tag_encodable(first));
        lemma_tag_roundtrip(first, data, pos);
        lemma_bytes_at_index(data, pos, encode_tag(first), 0);
        assert(data[pos] != 0);
        let all = acc + tags;
        assert(!has_name(acc, first.name)) by {
            if has_name(acc, first.name) {
                let k = choose|k: int| 0 <= k < acc.len() && (#[trigger] acc[k]).name == first.name;
                assert(all[k] == acc[k]);
                assert(all[acc.len() as int] == first);
            }
        }
        assert(compound_insert(acc, first) == acc.push(first));
        assert(acc.push(first) + rest =~= all);
        assert forall|i: int| 0 <= i < rest.len() implies tag_encodable(#[trigger] rest[i]) by {
            assert(rest[i] == tags[i + 1]);
        }
        lemma_tags_roundtrip(rest, data, pos + encode_tag(first).len(), acc.push(first));
    }
}


/// Reading back the bytes that the number writers write gives the numbers, whatever bytes
/// follow.
pub proof fn law_number_roundtrip(a: i8, b: i16, c: i32, d: i64, f: u32, g: u64, rest: Seq<u8>)
    ensures
        (seq![a as u8] + rest)[0] as i8 == a,
        u16_at(be16(b as u16) + rest, 0) as i16 == b,
        u32_at(be32(c as u32) + rest, 0) as i32 == c,
        u64_at(be64(d as u64) + rest, 0) as i64 == d,
        u32_at(be32(f) + rest, 0) == f,
        u64_at(be64(g) + rest, 0) == g,
{
    lemma_signed_casts(a, b, c, d);
    lemma_be_roundtrip(b as u16, c as u32, d as u64);
    lemma_be_roundtrip(0, f, g);
}

/// Reading back the bytes of a string whose UTF-8 form fits its length field gives the string,
/// whatever bytes follow.
pub proof fn law_string_roundtrip(s: Seq<char>, rest: Seq<u8>)
    requires
        string_fits(s),
    ensures
        decode_string(encode_string(s) + rest, 0) == Some((s, encode_string(s).len() as int)),
{
    let e = encode_string(s);
    assert((e + rest).subrange(0, e.len() as int) =~= e);
    lemma_string_roundtrip(s, e + rest, 0);
}

/// Reading back the bytes of a payload that the format can hold, with the parser for its
/// type, gives the payload, whatever bytes follow.
pub proof fn law_payload_roundtrip(p: PayloadModel, rest: Seq<u8>)
    requires
        payload_encodable(p),
    ensures
        decode_payload(p.payload_type(), encode_payload(p) + rest, 0) == Some(
            (p, encode_payload(p).len() as int),
        ),
{
    let e = encode_payload(p);
    assert((e + rest).subrange(0, e.len() as int) =~= e);
    lemma_payload_roundtrip(p, e + rest, 0);
}

/// Reading back the bytes of a tag that the format can hold gives the tag, whatever bytes
/// follow.
pub proof fn law_tag_roundtrip(t: TagModel, rest: Seq<u8>)
    requires
        tag_encodable(t),
    ensures
        decode_tag(encode_tag(t) + rest, 0) == Some((t, encode_tag(t).len() as int)),
{
    let e = encode_tag(t);
    assert((e + rest).subrange(0, e.len() as int) =~= e);
    lemma_tag_roundtrip(t, e + rest, 0);
}

/// Adding an entry that the format can hold to the entries of a compound keeps the names
/// distinct and every entry one that the format can hold.
proof fn lemma_insert_keeps_encodable(tags: Seq<TagModel>, t: TagModel)
    requires
        names_distinct(tags),
        forall|i: int| 0 <= i < tags.len() ==> tag_encodable(#[trigger] tags[i]),
        tag_encodable(t),
    ensures
        names_distinct(compound_insert(tags, t)),
        forall|i: int|
            0 <= i < compound_insert(tags, t).len() ==> tag_encodable(
                #[trigger] compound_insert(tags, t)[i],
            ),
{
    let r = compound_insert(tags, t);
    if has_name(tags, t.name) {
        let k = choose|i: int| 0 <= i < tags.len() && (#[trigger] tags[i]).name == t.name;
        assert(r == tags.update(k, t));
        assert forall|i: int, j: int|
            0 <= i < r.len() && 0 <= j < r.len() && i != j implies (#[trigger] r[i]).name != (
            #[trigger] r[j]).name by {
            if i == k {
                assert(r[j] == tags[j]);
            } else if j == k {
                assert(r[i] == tags[i]);
            } else {
                assert(r[i] == tags[i] && r[j] == tags[j]);
            }
        }
    } else {
        assert forall|i: int, j: int|
            0 <= i < r.len() && 0 <= j < r.len() && i != j implies (#[trigger] r[i]).name != (
            #[trigger] r[j]).name by {
            if i == tags.len() {
                assert(r[j] == tags[j]);
            } else if j == tags.len() {
                assert(r[i] == tags[i]);
            }
        }
    }
}

/// What the payload parser reads has the type it was asked for and can be held by the format.
proof fn lemma_decoded_payload_encodable(ty: TagPayloadType, data: Seq<u8>, pos: int)
    ensures
        decode_payload(ty, data, pos) matches Some((p, end)) ==> p.payload_type() == ty
            && payload_encodable(p) && pos < end <= data.len(),
    decreases data.len() - pos, 2nat,
{
    if 0 <= pos <= data.len() {
        match ty {
            TagPayloadType::String => {
                if let Some((s, end)) = decode_string(data, pos) {
                    let b = data.subrange(pos + 2, end);
                    decode_utf8_encode_utf8(b);
                    assert(encode_utf8(s) == b);
                }
            },
            TagPayloadType::List => {
                if pos + 1 <= data.len() {
                    if let Some(item_ty) = TagPayloadType::spec_from_repr(data[pos]) {
                        if let Some(n) = decode_len(data, pos + 1) {
                            lemma_decoded_payloads_encodable(
                                item_ty,
                                data,
                                pos + 5,
                                n,
                                Seq::empty(),
                            );
                        }
                    }
                }
            },
            TagPayloadType::Compound => {
                lemma_decoded_tags_encodable(data, pos, Seq::empty());
            },
            _ => {},
        }
    }
}

/// What the parser of list items reads: the items read before, then `n` more, all of the type
/// `ty` and all of which the format can hold.
proof fn lemma_decoded_payloads_encodable(
    ty: TagPayloadType,
    data: Seq<u8>,
    pos: int,
    n: nat,
    acc: Seq<PayloadModel>,
)
    requires
        forall|i: int|
            0 <= i < acc.len() ==> (#[trigger] acc[i]).payload_type() == ty && payload_encodable(
                acc[i],
            ),
    ensures
        decode_payloads(ty, data, pos, n, acc) matches Some((items, end)) ==> {
            &&& items.len() == acc.len() + n
            &&& forall|i: int|
                0 <= i < items.len() ==> (#[trigger] items[i]).payload_type() == ty
                    && payload_encodable(items[i])
            &&& pos <= end <= data.len()
        },
    decreases data.len() - pos, 3 + n,
{
    if n > 0 {
        lemma_decoded_payload_encodable(ty, data, pos);
        if let Some((p, end)) = decode_payload(ty, data, pos) {
            if pos < end <= data.len() {
                lemma_decoded_payloads_encodable(ty, data, end, (n - 1) as nat, acc.push(p));
            }
        }
    }
}

/// What the tag parser reads can be held by the format.
proof fn lemma_decoded_tag_encodable(data: Seq<u8>, pos: int)
    ensures
        decode_tag(data, pos) matches Some((t, end)) ==> tag_encodable(t) && pos < end
            <= data.len(),
    decreases data.len() - pos, 0nat,
{
    if 0 <= pos < data.len() {
        if let Some(ty) = TagPayloadType::spec_from_repr(data[pos]) {
            if ty != TagPayloadType::End {
                if let Some((name, start)) = decode_string(data, pos + 1) {
                    let b = data.subrange(pos + 3, start);
                    decode_utf8_encode_utf8(b);
                    lemma_decoded_payload_encodable(ty, data, start);
                }
            }
        }
    }
}

/// What the compound parser reads: entries with distinct names, all of which the format can
/// hold.
proof fn lemma_decoded_tags_encodable(data: Seq<u8>, pos: int, acc: Seq<TagModel>)
    requires
        names_distinct(acc),
        forall|i: int| 0 <= i < acc.len() ==> tag_encodable(#[trigger] acc[i]),
    ensures
        decode_tags(data, pos, acc) matches Some((tags, end)) ==> {
            &&& names_distinct(tags)
            &&& forall|i: int| 0 <= i < tags.len() ==> tag_encodable(#[trigger] tags[i])
            &&& pos < end <= data.len()
        },
    decreases data.len() - pos, 1nat,
{
    if 0 <= pos < data.len() && data[pos] != 0 {
        lemma_decoded_tag_encodable(data, pos);
        if let Some((t, end)) = decode_tag(data, pos) {
            if pos < end <= data.len() {
                lemma_insert_keeps_encodable(acc, t);
                lemma_decoded_tags_encodable(data, end, compound_insert(acc, t));
            }
        }
    }
}

/// Every tag that the tag parser reads can be held by the format; so writing it and reading
/// the bytes back gives it again.
pub proof fn law_parsed_tag_rewrites(data: Seq<u8>)
    ensures
        decode_tag(data, 0) matches Some((t, end)) ==> {
            &&& tag_encodable(t)
            &&& decode_tag(encode_tag(t), 0) == Some((t, encode_tag(t).len() as int))
        },
{
    lemma_decoded_tag_encodable(data, 0);
    if let Some((t, end)) = decode_tag(data, 0) {
        law_tag_roundtrip(t, Seq::empty());
        assert(encode_tag(t) + Seq::<u8>::empty() =~= encode_tag(t));
    }
}


/// Writing `enc` in place of the bytes of `data` from `pos` to `end` takes no more bytes, and
/// where it takes as many, it writes those bytes.
spec fn rewrites_within(enc: Seq<u8>, data: Seq<u8>, pos: int, end: int) -> bool {
    enc.len() <= end - pos && (enc.len() == end - pos ==> enc == data.subrange(pos, end))
}

/// Replacing one entry of a compound changes the length of its bytes by the difference of the
/// two entries' lengths.
proof fn lemma_encode_tags_update_len(tags: Seq<TagModel>, k: int, t: TagModel)
    requires
        0 <= k < tags.len(),
    ensures
        encode_tags(tags.update(k, t)).len() == encode_tags(tags).len() - encode_tag(tags[k]).len()
            + encode_tag(t).len(),
    decreases tags.len(),
{
    if k == 0 {
        assert(tags.update(k, t).drop_first() =~= tags.drop_first());
    } else {
        lemma_encode_tags_update_len(tags.drop_first(), k - 1, t);
        assert(tags.update(k, t).drop_first() =~= tags.drop_first().update(k - 1, t));
    }
}

proof fn lemma_rewrite_join(a: Seq<u8>, b: Seq<u8>, data: Seq<u8>, pos: int, mid: int, end: int)
    requires
        pos <= mid <= end <= data.len(),
        0 <= pos,
        rewrites_within(a, data, pos, mid),
        rewrites_within(b, data, mid, end),
    ensures
        rewrites_within(a + b, data, pos, end),
{
    if (a + b).len() == end - pos {
        assert(data.subrange(pos, end) =~= data.subrange(pos, mid) + data.subrange(mid, end));
    }
}

/// Writing back a payload that the payload parser read.
proof fn lemma_payload_rewrite(ty: TagPayloadType, data: Seq<u8>, pos: int)
    ensures
        decode_payload(ty, data, pos) matches Some((p, end)) ==> rewrites_within(
            encode_payload(p),
            data,
            pos,
            end,
        ),
    decreases data.len() - pos, 2nat,
{
    if let Some((p, end)) = decode_payload(ty, data, pos) {
        let e = encode_payload(p);
        match ty {
            TagPayloadType::End => {
                assert(e =~= data.subrange(pos, end));
            },
            TagPayloadType::Byte => {
                lemma_unsigned_casts(data[pos], 0, 0, 0);
                assert(e =~= data.subrange(pos, end));
            },
            TagPayloadType::Short => {
                lemma_unsigned_casts(0, u16_at(data, pos), 0, 0);
                lemma_be_bytes_roundtrip(data[pos], data[pos + 1], 0, 0, 0, 0, 0, 0);
                assert(e =~= data.subrange(pos, end));
            },
            TagPayloadType::Int => {
                lemma_unsigned_casts(0, 0, u32_at(data, pos), 0);
                lemma_be_bytes_roundtrip(data[pos], data[pos + 1], data[pos + 2], data[pos + 3], 0, 0, 0, 0);
                assert(e =~= data.subrange(pos, end));
            },
            TagPayloadType::Float => {
                lemma_be_bytes_roundtrip(data[pos], data[pos + 1], data[pos + 2], data[pos + 3], 0, 0, 0, 0);
                assert(e =~= data.subrange(pos, end));
            },
            TagPayloadType::Long => {
                lemma_unsigned_casts(0, 0, 0, u64_at(data, pos));
                lemma_be_bytes_roundtrip(
                    data[pos],
                    data[pos + 1],
                    data[pos + 2],
                    data[pos + 3],
                    data[pos + 4],
                    data[pos + 5],
                    data[pos + 6],
                    data[pos + 7],
                );
                assert(e =~= data.subrange(pos, end));
            },
            TagPayloadType::Double => {
                lemma_be_bytes_roundtrip(
                    data[pos],
                    data[pos + 1],
                    data[pos + 2],
                    data[pos + 3],
                    data[pos + 4],
                    data[pos + 5],
                    data[pos + 6],
                    data[pos + 7],
                );
                assert(e =~= data.subrange(pos, end));
            },
            TagPayloadType::ByteArray => {
                lemma_len_rewrite(data, pos);
                let s = p->ByteArray_0;
                assert forall|i: int| 0 <= i < s.len() implies #[trigger] encode_i8s(s)[i] == data[pos
                    + 4 + i] by {
                    lemma_unsigned_casts(data[pos + 4 + i], 0, 0, 0);
                }
                assert(encode_i8s(s) =~= data.subrange(pos + 4, end));
                assert(e =~= data.subrange(pos, end));
            },
            TagPayloadType::IntArray => {
                lemma_len_rewrite(data, pos);
                let s = p->IntArray_0;
                assert forall|j: int| 0 <= j < 4 * s.len() implies #[trigger] encode_i32s(s)[j]
                    == data[pos + 4 + j] by {
                    let i = j / 4;
                    let q = pos + 4 + 4 * i;
                    lemma_unsigned_casts(0, 0, u32_at(data, q), 0);
                    lemma_be_bytes_roundtrip(data[q], data[q + 1], data[q + 2], data[q + 3], 0, 0, 0, 0);
                    assert(j == 4 * i + j % 4);
                }
                assert(encode_i32s(s) =~= data.subrange(pos + 4, end));
                assert(e =~= data.subrange(pos, end));
            },
            TagPayloadType::LongArray => {
                lemma_len_rewrite(data, pos);
                let s = p->LongArray_0;
                assert forall|j: int| 0 <= j < 8 * s.len() implies #[trigger] encode_i64s(s)[j]
                    == data[pos + 4 + j] by {
                    let i = j / 8;
                    let q = pos + 4 + 8 * i;
                    lemma_unsigned_casts(0, 0, 0, u64_at(data, q));
                    lemma_be_bytes_roundtrip(
                        data[q],
                        data[q + 1],
                        data[q + 2],
                        data[q + 3],
                        data[q + 4],
                        data[q + 5],
                        data[q + 6],
                        data[q + 7],
                    );
                    assert(j == 8 * i + j % 8);
                }
                assert(encode_i64s(s) =~= data.subrange(pos + 4, end));
                assert(e =~= data.subrange(pos, end));
            },
            TagPayloadType::String => {
                lemma_string_rewrite(data, pos);
            },
            TagPayloadType::List => {
                let item_ty = p->List_0;
                let items = p->List_1;
                lemma_type_id_roundtrip(item_ty, data[pos]);
                lemma_len_rewrite(data, pos + 1);
                let n = decode_len(data, pos + 1)->0;
                lemma_payloads_rewrite(item_ty, data, pos + 5, n, Seq::empty());
                assert(items.subrange(0, items.len() as int) =~= items);
                let head = seq![item_ty.spec_id()] + encode_len(items.len());
                assert(head =~= data.subrange(pos, pos + 5));
                lemma_rewrite_join(head, encode_payloads(items), data, pos, pos + 5, end);
            },
            TagPayloadType::Compound => {
                lemma_tags_rewrite(data, pos, Seq::empty());
                assert(encode_tags(Seq::<TagModel>::empty()) =~= Seq::<u8>::empty());
                let tags = p->Compound_0;
                if e.len() == end - pos {
                    assert(encode_tags(tags) + seq![0u8] =~= Seq::<u8>::empty() + data.subrange(
                        pos,
                        end,
                    ));
                }
            },
        }
    }
}

/// Writing back the length field that the parser read gives its bytes.
proof fn lemma_len_rewrite(data: Seq<u8>, pos: int)
    ensures
        decode_len(data, pos) matches Some(n) ==> encode_len(n) == data.subrange(pos, pos + 4),
{
    if let Some(n) = decode_len(data, pos) {
        let x = u32_at(data, pos);
        assert(n as u32 == x);
        lemma_be_bytes_roundtrip(data[pos], data[pos + 1], data[pos + 2], data[pos + 3], 0, 0, 0, 0);
        assert(encode_len(n) =~= data.subrange(pos, pos + 4));
    }
}

/// Writing back a string that the parser read gives its bytes.
proof fn lemma_string_rewrite(data: Seq<u8>, pos: int)
    ensures
        decode_string(data, pos) matches Some((s, end)) ==> encode_string(s) == data.subrange(
            pos,
            end,
        ),
{
    if let Some((s, end)) = decode_string(data, pos) {
        let b = data.subrange(pos + 2, end);
        decode_utf8_encode_utf8(b);
        let x = u16_at(data, pos);
        assert(encode_utf8(s).len() as u16 == x);
        lemma_be_bytes_roundtrip(data[pos], data[pos + 1], 0, 0, 0, 0, 0, 0);
        assert(encode_string(s) =~= data.subrange(pos, end));
    }
}

/// Writing back the items that the parser of list items read after `acc`.
proof fn lemma_payloads_rewrite(
    ty: TagPayloadType,
    data: Seq<u8>,
    pos: int,
    n: nat,
    acc: Seq<PayloadModel>,
)
    ensures
        decode_payloads(ty, data, pos, n, acc) matches Some((items, end)) ==> {
            &&& items.len() == acc.len() + n
            &&& items.subrange(0, acc.len() as int) == acc
            &&& pos <= end <= data.len()
            &&& rewrites_within(
                encode_payloads(items.subrange(acc.len() as int, items.len() as int)),
                data,
                pos,
                end,
            )
        },
    decreases data.len() - pos, 3 + n,
{
    if let Some((items, end)) = decode_payloads(ty, data, pos, n, acc) {
        if n == 0 {
            assert(items.subrange(0, acc.len() as int) =~= acc);
            assert(items.subrange(acc.len() as int, items.len() as int) =~= Seq::<
                PayloadModel,
            >::empty());
            assert(data.subrange(pos, end) =~= Seq::<u8>::empty());
        } else {
            let (p, mid) = decode_payload(ty, data, pos)->0;
            lemma_payload_rewrite(ty, data, pos);
            lemma_payloads_rewrite(ty, data, mid, (n - 1) as nat, acc.push(p));
            let new = items.subrange(acc.len() as int, items.len() as int);
            let rest = items.subrange(acc.len() as int + 1, items.len() as int);
            assert(items.subrange(0, acc.len() as int + 1) == acc.push(p));
            assert(items.subrange(0, acc.len() as int) =~= acc.push(p).subrange(
                0,
                acc.len() as int,
            ));
            assert(new[0] == acc.push(p)[acc.len() as int]);
            assert(new.drop_first() =~= rest);
            assert(encode_payloads(new) == encode_payload(p) + encode_payloads(rest));
            lemma_rewrite_join(encode_payload(p), encode_payloads(rest), data, pos, mid, end);
        }
    }
}

/// Writing back a tag that the tag parser read.
proof fn lemma_tag_rewrite(data: Seq<u8>, pos: int)
    ensures
        decode_tag(data, pos) matches Some((t, end)) ==> rewrites_within(
            encode_tag(t),
            data,
            pos,
            end,
        ),
    decreases data.len() - pos, 0nat,
{
    if let Some((t, end)) = decode_tag(data, pos) {
        let ty = TagPayloadType::spec_from_repr(data[pos])->0;
        let (name, start) = decode_string(data, pos + 1)->0;
        lemma_type_id_roundtrip(ty, data[pos]);
        lemma_string_rewrite(data, pos + 1);
        lemma_decoded_payload_encodable(ty, data, start);
        lemma_payload_rewrite(ty, data, start);
        let head = seq![ty.spec_id()] + encode_string(name);
        assert(head =~= data.subrange(pos, start));
        assert(encode_tag(t) == head + encode_payload(t.payload));
        lemma_rewrite_join(head, encode_payload(t.payload), data, pos, start, end);
    }
}

/// Writing back the entries of a compound that the compound parser read after `acc`: no more
/// bytes than were read, and those bytes where as many.
proof fn lemma_tags_rewrite(data: Seq<u8>, pos: int, acc: Seq<TagModel>)
    ensures
        decode_tags(data, pos, acc) matches Some((tags, end)) ==> {
            &&& pos < end <= data.len()
            &&& encode_tags(tags).len() + 1 <= encode_tags(acc).len() + (end - pos)
            &&& encode_tags(tags).len() + 1 == encode_tags(acc).len() + (end - pos) ==> encode_tags(
                tags,
            ) + seq![0u8] == encode_tags(acc) + data.subrange(pos, end)
        },
    decreases data.len() - pos, 1nat,
{
    if let Some((tags, end)) = decode_tags(data, pos, acc) {
        if data[pos] == 0 {
            assert(data.subrange(pos, end) =~= seq![0u8]);
        } else {
            let (t, mid) = decode_tag(data, pos)->0;
            lemma_tag_rewrite(data, pos);
            let next = compound_insert(acc, t);
            lemma_tags_rewrite(data, mid, next);
            lemma_encode_tags_push(acc, t);
            if has_name(acc, t.name) {
                let k = choose|i: int| 0 <= i < acc.len() && (#[trigger] acc[i]).name == t.name;
                lemma_encode_tags_update_len(acc, k, t);
                assert(encode_tag(acc[k]).len() >= 1);
            } else {
                assert(next == acc.push(t));
                if encode_tags(tags).len() + 1 == encode_tags(acc).len() + (end - pos) {
                    assert(data.subrange(pos, end) =~= data.subrange(pos, mid) + data.subrange(
                        mid,
                        end,
                    ));
                }
            }
        }
    }
}

/// Writing a tag that the tag parser read takes no more bytes than were read; where it takes
/// as many (no compound in them held two entries of one name), it writes the very bytes that
/// were read.
pub proof fn law_parsed_tag_rewrites_bytes(data: Seq<u8>)
    ensures
        decode_tag(data, 0) matches Some((t, end)) ==> {
            &&& encode_tag(t).len() <= end
            &&& encode_tag(t).len() == end ==> encode_tag(t) == data.subrange(0, end)
        },
{
    lemma_tag_rewrite(data, 0);
}

} // verus!
