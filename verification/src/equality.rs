//! How payloads and errors compare with `==`.
use std::io::ErrorKind;

use vstd::prelude::*;

use crate::binary::format::names_distinct;
use crate::error::NBTError;
use crate::tag::{payloads_model, tags_model, PayloadModel, Tag, TagModel, TagPayload};

verus! {

/// Two payloads that `==` holds equal: of one variant, with equal numbers (floats by their
/// bits), equal strings and arrays, lists of one declared type whose items are equal in order,
/// and compounds of as many entries, each entry of the first having in the second an entry of
/// the same name with an equal payload, in whatever order.
pub open spec fn payload_equal(a: PayloadModel, b: PayloadModel) -> bool
    decreases a,
{
    match a {
        PayloadModel::End => b is End,
        PayloadModel::Byte(x) => b matches PayloadModel::Byte(y) && x == y,
        PayloadModel::Short(x) => b matches PayloadModel::Short(y) && x == y,
        PayloadModel::Int(x) => b matches PayloadModel::Int(y) && x == y,
        PayloadModel::Long(x) => b matches PayloadModel::Long(y) && x == y,
        PayloadModel::Float(x) => b matches PayloadModel::Float(y) && x == y,
        PayloadModel::Double(x) => b matches PayloadModel::Double(y) && x == y,
        PayloadModel::ByteArray(x) => b matches PayloadModel::ByteArray(y) && x == y,
        PayloadModel::String(x) => b matches PayloadModel::String(y) && x == y,
        PayloadModel::List(t, xs) => b matches PayloadModel::List(u, ys) && t == u && xs.len()
            == ys.len() && forall|i: int|
            0 <= i < xs.len() ==> payload_equal(#[trigger] xs[i], ys[i]),
        PayloadModel::Compound(xs) => b matches PayloadModel::Compound(ys) && xs.len() == ys.len()
            && forall|i: int| 0 <= i < xs.len() ==> entry_found(#[trigger] xs[i], ys),
        PayloadModel::IntArray(x) => b matches PayloadModel::IntArray(y) && x == y,
        PayloadModel::LongArray(x) => b matches PayloadModel::LongArray(y) && x == y,
    }
}

/// `ys` has an entry with the name of `x` and a payload equal to that of `x`.
pub open spec fn entry_found(x: TagModel, ys: Seq<TagModel>) -> bool
    decreases x,
{
    exists|j: int|
        #![trigger ys[j]]
        0 <= j < ys.len() && ys[j].name == x.name && payload_equal(x.payload, ys[j].payload)
}

/// Two errors that `==` holds equal: of one variant, with equal contents (payloads as
/// [`payload_equal`] compares them, names by their characters). A parsing error is equal to
/// no error, itself included.
pub open spec fn error_equal(a: NBTError, b: NBTError) -> bool {
    match a {
        NBTError::InvalidTagName(x) => b matches NBTError::InvalidTagName(y) && match (x, y) {
            (None, None) => true,
            (Some(s), Some(t)) => s@ == t@,
            _ => false,
        },
        NBTError::UnexpectedType(i, p) => b matches NBTError::UnexpectedType(j, q) && i == j
            && payload_equal(p@, q@),
        NBTError::InconsistentList => b is InconsistentList,
        NBTError::InvalidListElementType(t) => b matches NBTError::InvalidListElementType(u) && t
            == u,
        NBTError::InvalidPayloadType(i) => b matches NBTError::InvalidPayloadType(j) && i == j,
        NBTError::StringTooLong(n) => b matches NBTError::StringTooLong(m) && n == m,
        NBTError::ArrayTooLong(n) => b matches NBTError::ArrayTooLong(m) && n == m,
        NBTError::IO(k) => b matches NBTError::IO(l) && k == l,
        NBTError::ParsingError => false,
    }
}

/// Every payload is equal to itself.
pub proof fn law_payload_equal_reflexive(p: PayloadModel)
    ensures
        payload_equal(p, p),
    decreases p,
{
    match p {
        PayloadModel::List(_, xs) => {
            assert forall|i: int| 0 <= i < xs.len() implies payload_equal(
                #[trigger] xs[i],
                xs[i],
            ) by {
                law_payload_equal_reflexive(xs[i]);
            }
        },
        PayloadModel::Compound(xs) => {
            assert forall|i: int| 0 <= i < xs.len() implies entry_found(#[trigger] xs[i], xs) by {
                lemma_entry_found_itself(xs, i);
            }
        },
        _ => {},
    }
}

/// A payload with no compound anywhere in it.
pub open spec fn compound_free(p: PayloadModel) -> bool
    decreases p,
{
    match p {
        PayloadModel::Compound(_) => false,
        PayloadModel::List(_, xs) => forall|i: int| 0 <= i < xs.len() ==> compound_free(#[trigger] xs[i]),
        _ => true,
    }
}

/// Payloads without compounds are equal exactly when they are the same value: of one variant,
/// with the same numbers (floats by their bits), strings and arrays of the same items in the
/// same order, and lists of one declared type with the same items in the same order.
pub proof fn law_payload_equal_is_sameness_without_compounds(a: PayloadModel, b: PayloadModel)
    requires
        compound_free(a),
        compound_free(b),
    ensures
        payload_equal(a, b) <==> a == b,
    decreases a,
{
    law_payload_equal_reflexive(a);
    if let PayloadModel::List(t, xs) = a {
        if let PayloadModel::List(u, ys) = b {
            if payload_equal(a, b) {
                assert forall|i: int| 0 <= i < xs.len() implies #[trigger] xs[i] == ys[i] by {
                    law_payload_equal_is_sameness_without_compounds(xs[i], ys[i]);
                }
                assert(xs =~= ys);
            }
        }
    }
}

/// Swapping two entries of a compound gives a compound equal to it: `==` on compounds does not
/// depend on the order of their entries.
pub proof fn law_compound_equal_after_swap(xs: Seq<TagModel>, i: int, j: int)
    requires
        0 <= i < xs.len(),
        0 <= j < xs.len(),
    ensures
        payload_equal(
            PayloadModel::Compound(xs),
            PayloadModel::Compound(xs.update(i, xs[j]).update(j, xs[i])),
        ),
{
    let ys = xs.update(i, xs[j]).update(j, xs[i]);
    assert forall|k: int| 0 <= k < xs.len() implies entry_found(#[trigger] xs[k], ys) by {
        let w = if k == i {
            j
        } else if k == j {
            i
        } else {
            k
        };
        assert(ys[w] == xs[k]);
        law_payload_equal_reflexive(xs[k].payload);
    }
}

/// Two compounds with entries of distinct names and payloads without compounds are equal only
/// where each entry of the first has, in the second, an entry of its name with the same payload.
pub proof fn law_compound_equal_matches_entries_by_name(xs: Seq<TagModel>, ys: Seq<TagModel>)
    requires
        names_distinct(ys),
        forall|k: int| 0 <= k < xs.len() ==> compound_free(#[trigger] xs[k].payload),
        forall|k: int| 0 <= k < ys.len() ==> compound_free(#[trigger] ys[k].payload),
        payload_equal(PayloadModel::Compound(xs), PayloadModel::Compound(ys)),
    ensures
        xs.len() == ys.len(),
        forall|k: int, j: int|
            0 <= k < xs.len() && 0 <= j < ys.len() && xs[k].name == ys[j].name ==> (#[trigger] xs[k]).payload
                == (#[trigger] ys[j]).payload,
{
    assert forall|k: int, j: int|
        0 <= k < xs.len() && 0 <= j < ys.len() && xs[k].name == ys[j].name implies (#[trigger] xs[k]).payload
        == (#[trigger] ys[j]).payload by {
        assert(entry_found(xs[k], ys));
        let w = choose|w: int|
            #![trigger ys[w]]
            0 <= w < ys.len() && ys[w].name == xs[k].name && payload_equal(
                xs[k].payload,
                ys[w].payload,
            );
        assert(ys[w].name == ys[j].name);
        law_payload_equal_is_sameness_without_compounds(xs[k].payload, ys[w].payload);
    }
}

/// An entry of a compound is found, by its own name and payload, in that compound.
proof fn lemma_entry_found_itself(xs: Seq<TagModel>, i: int)
    requires
        0 <= i < xs.len(),
    ensures
        entry_found(xs[i], xs),
    decreases xs[i],
{
    law_payload_equal_reflexive(xs[i].payload);
    assert(xs[i].name == xs[i].name && payload_equal(xs[i].payload, xs[i].payload));
}

/// Compares two payloads; the result is [`payload_equal`] of their values.
pub fn payload_eq(a: &TagPayload, b: &TagPayload) -> (r: bool)
    ensures
        r == payload_equal(a@, b@),
    decreases a,
{
    match (a, b) {
        (TagPayload::End, TagPayload::End) => true,
        (TagPayload::Byte(x), TagPayload::Byte(y)) => *x == *y,
        (TagPayload::Short(x), TagPayload::Short(y)) => *x == *y,
        (TagPayload::Int(x), TagPayload::Int(y)) => *x == *y,
        (TagPayload::Long(x), TagPayload::Long(y)) => *x == *y,
        (TagPayload::Float(x), TagPayload::Float(y)) => *x == *y,
        (TagPayload::Double(x), TagPayload::Double(y)) => *x == *y,
        (TagPayload::ByteArray(x), TagPayload::ByteArray(y)) => i8s_eq(x.as_slice(), y.as_slice()),
        (TagPayload::String(x), TagPayload::String(y)) => *x == *y,
        (TagPayload::List(t, xs), TagPayload::List(u, ys)) => {
            let r = *t == *u && items_eq(xs.as_slice(), ys.as_slice());
            assert(payloads_model(xs@) =~= a@->List_1);
            assert(payloads_model(ys@) =~= b@->List_1);
            r
        },
        (TagPayload::Compound(xs), TagPayload::Compound(ys)) => {
            let r = entries_eq(xs.as_slice(), ys.as_slice());
            assert(tags_model(xs@) =~= a@->Compound_0);
            assert(tags_model(ys@) =~= b@->Compound_0);
            r
        },
        (TagPayload::IntArray(x), TagPayload::IntArray(y)) => i32s_eq(x.as_slice(), y.as_slice()),
        (TagPayload::LongArray(x), TagPayload::LongArray(y)) => i64s_eq(
            x.as_slice(),
            y.as_slice(),
        ),
        _ => false,
    }
}

/// Whether `x` and `y` hold the same numbers in the same order.
fn i8s_eq(x: &[i8], y: &[i8]) -> (r: bool)
    ensures
        r == (x@ == y@),
{
    if x.len() != y.len() {
        return false;
    }
    let mut i: usize = 0;
    while i < x.len()
        invariant
            0 <= i <= x@.len(),
            x@.len() == y@.len(),
            forall|j: int| 0 <= j < i ==> x@[j] == y@[j],
        decreases x@.len() - i,
    {
        if x[i] != y[i] {
            return false;
        }
        i += 1;
    }
    assert(x@ =~= y@);
    true
}

/// Whether `x` and `y` hold the same numbers in the same order.
fn i32s_eq(x: &[i32], y: &[i32]) -> (r: bool)
    ensures
        r == (x@ == y@),
{
    if x.len() != y.len() {
        return false;
    }
    let mut i: usize = 0;
    while i < x.len()
        invariant
            0 <= i <= x@.len(),
            x@.len() == y@.len(),
            forall|j: int| 0 <= j < i ==> x@[j] == y@[j],
        decreases x@.len() - i,
    {
        if x[i] != y[i] {
            return false;
        }
        i += 1;
    }
    assert(x@ =~= y@);
    true
}

/// Whether `x` and `y` hold the same numbers in the same order.
fn i64s_eq(x: &[i64], y: &[i64]) -> (r: bool)
    ensures
        r == (x@ == y@),
{
    if x.len() != y.len() {
        return false;
    }
    let mut i: usize = 0;
    while i < x.len()
        invariant
            0 <= i <= x@.len(),
            x@.len() == y@.len(),
            forall|j: int| 0 <= j < i ==> x@[j] == y@[j],
        decreases x@.len() - i,
    {
        if x[i] != y[i] {
            return false;
        }
        i += 1;
    }
    assert(x@ =~= y@);
    true
}

/// Whether the items of two lists are equal, in order.
fn items_eq(xs: &[TagPayload], ys: &[TagPayload]) -> (r: bool)
    ensures
        r == (xs@.len() == ys@.len() && forall|i: int|
            0 <= i < xs@.len() ==> payload_equal(
                #[trigger] payloads_model(xs@)[i],
                payloads_model(ys@)[i],
            )),
    decreases xs@,
{
    if xs.len() != ys.len() {
        return false;
    }
    let mut i: usize = 0;
    while i < xs.len()
        invariant
            0 <= i <= xs@.len(),
            xs@.len() == ys@.len(),
            forall|j: int|
                0 <= j < i ==> payload_equal(
                    #[trigger] payloads_model(xs@)[j],
                    payloads_model(ys@)[j],
                ),
        decreases xs@.len() - i,
    {
        if !payload_eq(&xs[i], &ys[i]) {
            assert(!payload_equal(payloads_model(xs@)[i as int], payloads_model(ys@)[i as int]));
            return false;
        }
        i += 1;
    }
    true
}

/// Whether two compounds have as many entries and every entry of `xs` is found in `ys`.
fn entries_eq(xs: &[Tag], ys: &[Tag]) -> (r: bool)
    ensures
        r == (xs@.len() == ys@.len() && forall|i: int|
            0 <= i < xs@.len() ==> entry_found(#[trigger] tags_model(xs@)[i], tags_model(ys@))),
    decreases xs@,
{
    if xs.len() != ys.len() {
        return false;
    }
    let mut i: usize = 0;
    while i < xs.len()
        invariant
            0 <= i <= xs@.len(),
            xs@.len() == ys@.len(),
            forall|j: int|
                0 <= j < i ==> entry_found(#[trigger] tags_model(xs@)[j], tags_model(ys@)),
        decreases xs@.len() - i,
    {
        if !entry_in(&xs[i], ys) {
            assert(!entry_found(tags_model(xs@)[i as int], tags_model(ys@)));
            return false;
        }
        i += 1;
    }
    true
}

/// Whether `ys` has an entry with the name of `x` and a payload equal to that of `x`.
fn entry_in(x: &Tag, ys: &[Tag]) -> (r: bool)
    ensures
        r == entry_found(x@, tags_model(ys@)),
    decreases x,
{
    let ghost m = tags_model(ys@);
    let mut j: usize = 0;
    while j < ys.len()
        invariant
            0 <= j <= ys@.len(),
            m == tags_model(ys@),
            forall|k: int|
                0 <= k < j ==> !(#[trigger] m[k].name == x@.name && payload_equal(
                    x@.payload,
                    m[k].payload,
                )),
        decreases ys@.len() - j,
    {
        if x.name == ys[j].name && payload_eq(&x.payload, &ys[j].payload) {
            assert(m[j as int].name == x@.name && payload_equal(x@.payload, m[j as int].payload));
            return true;
        }
        j += 1;
    }
    assert forall|k: int|
        0 <= k < m.len() && m[k].name == x@.name implies !payload_equal(
        x@.payload,
        #[trigger] m[k].payload,
    ) by {}
    false
}

impl PartialEq for TagPayload {
    fn eq(&self, other: &Self) -> (r: bool) {
        payload_eq(self, other)
    }
}

impl vstd::std_specs::cmp::PartialEqSpecImpl for TagPayload {
    open spec fn obeys_eq_spec() -> bool {
        true
    }

    open spec fn eq_spec(&self, other: &TagPayload) -> bool {
        payload_equal(self@, other@)
    }
}

/// Compares two I/O error kinds with `std::io::ErrorKind`'s `==`.
///
/// The contract claims that the result is whether the two kinds are one kind: `ErrorKind` is
/// an enum whose variants hold no data, and its `==` is derived.
#[verifier::external_body]
fn same_io_kind(a: &ErrorKind, b: &ErrorKind) -> (r: bool)
    ensures
        r == (*a == *b),
{
    *a == *b
}

impl PartialEq for NBTError {
    fn eq(&self, other: &Self) -> (r: bool) {
        match (self, other) {
            (NBTError::InvalidTagName(x), NBTError::InvalidTagName(y)) => match (x, y) {
                (None, None) => true,
                (Some(s), Some(t)) => *s == *t,
                _ => false,
            },
            (NBTError::UnexpectedType(i, p), NBTError::UnexpectedType(j, q)) => *i == *j
                && payload_eq(p, q),
            (NBTError::InconsistentList, NBTError::InconsistentList) => true,
            (NBTError::InvalidListElementType(t), NBTError::InvalidListElementType(u)) => *t == *u,
            (NBTError::InvalidPayloadType(i), NBTError::InvalidPayloadType(j)) => *i == *j,
            (NBTError::StringTooLong(n), NBTError::StringTooLong(m)) => *n == *m,
            (NBTError::ArrayTooLong(n), NBTError::ArrayTooLong(m)) => *n == *m,
            (NBTError::IO(k), NBTError::IO(l)) => same_io_kind(k, l),
            _ => false,
        }
    }
}

impl vstd::std_specs::cmp::PartialEqSpecImpl for NBTError {
    open spec fn obeys_eq_spec() -> bool {
        true
    }

    open spec fn eq_spec(&self, other: &NBTError) -> bool {
        error_equal(*self, *other)
    }
}

} // verus!
