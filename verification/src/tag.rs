use vstd::prelude::*;
use vstd::slice::slice_to_vec;

use crate::equality::error_equal;
use crate::error::NBTError;

verus! {

/// The type of a [`TagPayload`], one per variant.
#[derive(Debug, Clone, Copy, PartialEq, Eq, Structural, Hash)]
pub enum TagPayloadType {
    End,
    Byte,
    Short,
    Int,
    Long,
    Float,
    Double,
    ByteArray,
    String,
    List,
    Compound,
    IntArray,
    LongArray,
}

/// The data held by a [`Tag`] container.
///
/// Floating point payloads are held as the bits of their IEEE 754 representation
/// (`f32::to_bits` / `f64::to_bits`), which is also what two payloads are compared by.
#[derive(Debug)]
pub enum TagPayload {
    /// End
    End,
    /// A signed 1-byte numeric payload.
    Byte(i8),
    /// A signed 2-byte numeric payload.
    Short(i16),
    /// A signed 4-byte numeric payload.
    Int(i32),
    /// A signed 8-byte numeric payload.
    Long(i64),
    /// A 4-byte floating point numeric payload, as the bits of its IEEE 754 form.
    Float(u32),
    /// An 8-byte floating point numeric payload, as the bits of its IEEE 754 form.
    Double(u64),
    /// A list payload containing several signed 1-byte numbers.
    ByteArray(Vec<i8>),
    /// A textual payload.
    String(String),
    /// A list payload, containing several [`TagPayload`]s of the type that it names.
    List(TagPayloadType, Vec<TagPayload>),
    /// A collection payload containing named payloads, as [`Tag`]s. The format holds no two
    /// entries of one name; of several, the parser keeps the last in place of the first.
    Compound(Vec<Tag>),
    /// A list payload containing several signed 4-byte numbers.
    IntArray(Vec<i32>),
    /// A list payload containing several signed 8-byte numbers.
    LongArray(Vec<i64>),
}

/// A container data structure holding a named payload.
#[derive(Debug, PartialEq)]
pub struct Tag {
    /// The name of the payload.
    pub name: String,
    /// The data of the tag.
    pub payload: TagPayload,
}

/// The mathematical value of a [`TagPayload`].
pub enum PayloadModel {
    End,
    Byte(i8),
    Short(i16),
    Int(i32),
    Long(i64),
    Float(u32),
    Double(u64),
    ByteArray(Seq<i8>),
    String(Seq<char>),
    List(TagPayloadType, Seq<PayloadModel>),
    Compound(Seq<TagModel>),
    IntArray(Seq<i32>),
    LongArray(Seq<i64>),
}

/// The mathematical value of a [`Tag`].
pub struct TagModel {
    pub name: Seq<char>,
    pub payload: PayloadModel,
}

/// The value of a payload: strings as their characters, vectors as sequences.
pub open spec fn payload_model(p: TagPayload) -> PayloadModel
    decreases p,
{
    match p {
        TagPayload::End => PayloadModel::End,
        TagPayload::Byte(v) => PayloadModel::Byte(v),
        TagPayload::Short(v) => PayloadModel::Short(v),
        TagPayload::Int(v) => PayloadModel::Int(v),
        TagPayload::Long(v) => PayloadModel::Long(v),
        TagPayload::Float(v) => PayloadModel::Float(v),
        TagPayload::Double(v) => PayloadModel::Double(v),
        TagPayload::ByteArray(v) => PayloadModel::ByteArray(v@),
        TagPayload::String(s) => PayloadModel::String(s@),
        TagPayload::List(ty, items) => PayloadModel::List(
            ty,
            Seq::new(
                items@.len(),
                |i: int|
                    if 0 <= i < items@.len() {
                        payload_model(items@[i])
                    } else {
                        PayloadModel::End
                    },
            ),
        ),
        TagPayload::Compound(tags) => PayloadModel::Compound(
            Seq::new(
                tags@.len(),
                |i: int|
                    if 0 <= i < tags@.len() {
                        tag_model(tags@[i])
                    } else {
                        TagModel { name: Seq::empty(), payload: PayloadModel::End }
                    },
            ),
        ),
        TagPayload::IntArray(v) => PayloadModel::IntArray(v@),
        TagPayload::LongArray(v) => PayloadModel::LongArray(v@),
    }
}

/// The value of a tag.
pub open spec fn tag_model(t: Tag) -> TagModel
    decreases t,
{
    TagModel { name: t.name@, payload: payload_model(t.payload) }
}

/// The values of a sequence of payloads.
pub open spec fn payloads_model(s: Seq<TagPayload>) -> Seq<PayloadModel> {
    Seq::new(s.len(), |i: int| s[i]@)
}

/// The values of a sequence of tags.
pub open spec fn tags_model(s: Seq<Tag>) -> Seq<TagModel> {
    Seq::new(s.len(), |i: int| s[i]@)
}

impl View for TagPayload {
    type V = PayloadModel;

    open spec fn view(&self) -> PayloadModel {
        payload_model(*self)
    }
}

impl View for Tag {
    type V = TagModel;

    open spec fn view(&self) -> TagModel {
        tag_model(*self)
    }
}

impl TagPayloadType {
    /// The ID of the type, as the NBT format numbers them.
    pub open spec fn spec_id(self) -> u8 {
        match self {
            TagPayloadType::End => 0,
            TagPayloadType::Byte => 1,
            TagPayloadType::Short => 2,
            TagPayloadType::Int => 3,
            TagPayloadType::Long => 4,
            TagPayloadType::Float => 5,
            TagPayloadType::Double => 6,
            TagPayloadType::ByteArray => 7,
            TagPayloadType::String => 8,
            TagPayloadType::List => 9,
            TagPayloadType::Compound => 10,
            TagPayloadType::IntArray => 11,
            TagPayloadType::LongArray => 12,
        }
    }

    /// The type whose ID is `id`, if there is one.
    pub open spec fn spec_from_repr(id: u8) -> Option<TagPayloadType> {
        if id == 0 {
            Some(TagPayloadType::End)
        } else if id == 1 {
            Some(TagPayloadType::Byte)
        } else if id == 2 {
            Some(TagPayloadType::Short)
        } else if id == 3 {
            Some(TagPayloadType::Int)
        } else if id == 4 {
            Some(TagPayloadType::Long)
        } else if id == 5 {
            Some(TagPayloadType::Float)
        } else if id == 6 {
            Some(TagPayloadType::Double)
        } else if id == 7 {
            Some(TagPayloadType::ByteArray)
        } else if id == 8 {
            Some(TagPayloadType::String)
        } else if id == 9 {
            Some(TagPayloadType::List)
        } else if id == 10 {
            Some(TagPayloadType::Compound)
        } else if id == 11 {
            Some(TagPayloadType::IntArray)
        } else if id == 12 {
            Some(TagPayloadType::LongArray)
        } else {
            None
        }
    }

    /// Returns the ID of the type, as the NBT format numbers them.
    pub fn id(self) -> (r: u8)
        ensures
            r == self.spec_id(),
    {
        match self {
            TagPayloadType::End => 0,
            TagPayloadType::Byte => 1,
            TagPayloadType::Short => 2,
            TagPayloadType::Int => 3,
            TagPayloadType::Long => 4,
            TagPayloadType::Float => 5,
            TagPayloadType::Double => 6,
            TagPayloadType::ByteArray => 7,
            TagPayloadType::String => 8,
            TagPayloadType::List => 9,
            TagPayloadType::Compound => 10,
            TagPayloadType::IntArray => 11,
            TagPayloadType::LongArray => 12,
        }
    }

    /// Returns the type whose ID is `id`, or `None` where `id` is greater than 12.
    pub fn from_repr(id: u8) -> (r: Option<TagPayloadType>)
        ensures
            r == Self::spec_from_repr(id),
            r is Some <==> id <= 12,
            r matches Some(ty) ==> ty.spec_id() == id,
    {
        match id {
            0 => Some(TagPayloadType::End),
            1 => Some(TagPayloadType::Byte),
            2 => Some(TagPayloadType::Short),
            3 => Some(TagPayloadType::Int),
            4 => Some(TagPayloadType::Long),
            5 => Some(TagPayloadType::Float),
            6 => Some(TagPayloadType::Double),
            7 => Some(TagPayloadType::ByteArray),
            8 => Some(TagPayloadType::String),
            9 => Some(TagPayloadType::List),
            10 => Some(TagPayloadType::Compound),
            11 => Some(TagPayloadType::IntArray),
            12 => Some(TagPayloadType::LongArray),
            _ => None,
        }
    }
}

/// Looking a type up by its own ID gives the type back, and the type found for an ID has that
/// ID.
pub proof fn lemma_type_id_roundtrip(ty: TagPayloadType, id: u8)
    ensures
        TagPayloadType::spec_from_repr(ty.spec_id()) == Some(ty),
        TagPayloadType::spec_from_repr(id) matches Some(t) ==> t.spec_id() == id,
{
}

/// The type IDs are those of the NBT format: `End` 0, `Byte` 1, `Short` 2, `Int` 3, `Long` 4,
/// `Float` 5, `Double` 6, `ByteArray` 7, `String` 8, `List` 9, `Compound` 10, `IntArray` 11 and
/// `LongArray` 12. Looking up each of these IDs gives its type, and no other ID names a type.
pub proof fn law_type_ids_follow_nbt(id: u8)
    ensures
        TagPayloadType::End.spec_id() == 0,
        TagPayloadType::Byte.spec_id() == 1,
        TagPayloadType::Short.spec_id() == 2,
        TagPayloadType::Int.spec_id() == 3,
        TagPayloadType::Long.spec_id() == 4,
        TagPayloadType::Float.spec_id() == 5,
        TagPayloadType::Double.spec_id() == 6,
        TagPayloadType::ByteArray.spec_id() == 7,
        TagPayloadType::String.spec_id() == 8,
        TagPayloadType::List.spec_id() == 9,
        TagPayloadType::Compound.spec_id() == 10,
        TagPayloadType::IntArray.spec_id() == 11,
        TagPayloadType::LongArray.spec_id() == 12,
        TagPayloadType::spec_from_repr(0) == Some(TagPayloadType::End),
        TagPayloadType::spec_from_repr(1) == Some(TagPayloadType::Byte),
        TagPayloadType::spec_from_repr(2) == Some(TagPayloadType::Short),
        TagPayloadType::spec_from_repr(3) == Some(TagPayloadType::Int),
        TagPayloadType::spec_from_repr(4) == Some(TagPayloadType::Long),
        TagPayloadType::spec_from_repr(5) == Some(TagPayloadType::Float),
        TagPayloadType::spec_from_repr(6) == Some(TagPayloadType::Double),
        TagPayloadType::spec_from_repr(7) == Some(TagPayloadType::ByteArray),
        TagPayloadType::spec_from_repr(8) == Some(TagPayloadType::String),
        TagPayloadType::spec_from_repr(9) == Some(TagPayloadType::List),
        TagPayloadType::spec_from_repr(10) == Some(TagPayloadType::Compound),
        TagPayloadType::spec_from_repr(11) == Some(TagPayloadType::IntArray),
        TagPayloadType::spec_from_repr(12) == Some(TagPayloadType::LongArray),
        id > 12 ==> TagPayloadType::spec_from_repr(id) is None,
{
}

impl TryFrom<u8> for TagPayloadType {
    type Error = NBTError;

    fn try_from(id: u8) -> (r: Result<TagPayloadType, NBTError>) {
        match TagPayloadType::from_repr(id) {
            Some(ty) => Ok(ty),
            None => Err(NBTError::InvalidPayloadType(id)),
        }
    }
}

impl vstd::std_specs::convert::TryFromSpecImpl<u8> for TagPayloadType {
    open spec fn obeys_try_from_spec() -> bool {
        true
    }

    open spec fn try_from_spec(id: u8) -> Result<TagPayloadType, NBTError> {
        match TagPayloadType::spec_from_repr(id) {
            Some(ty) => Ok(ty),
            None => Err(NBTError::InvalidPayloadType(id)),
        }
    }
}

impl PayloadModel {
    /// The type of the payload.
    pub open spec fn payload_type(self) -> TagPayloadType {
        match self {
            PayloadModel::End => TagPayloadType::End,
            PayloadModel::Byte(_) => TagPayloadType::Byte,
            PayloadModel::Short(_) => TagPayloadType::Short,
            PayloadModel::Int(_) => TagPayloadType::Int,
            PayloadModel::Long(_) => TagPayloadType::Long,
            PayloadModel::Float(_) => TagPayloadType::Float,
            PayloadModel::Double(_) => TagPayloadType::Double,
            PayloadModel::ByteArray(_) => TagPayloadType::ByteArray,
            PayloadModel::String(_) => TagPayloadType::String,
            PayloadModel::List(_, _) => TagPayloadType::List,
            PayloadModel::Compound(_) => TagPayloadType::Compound,
            PayloadModel::IntArray(_) => TagPayloadType::IntArray,
            PayloadModel::LongArray(_) => TagPayloadType::LongArray,
        }
    }

    /// A list whose items are all of the type that the list declares.
    pub open spec fn is_consistent_list(self) -> bool {
        match self {
            PayloadModel::List(ty, items) => forall|i: int|
                0 <= i < items.len() ==> (#[trigger] items[i]).payload_type() == ty,
            _ => false,
        }
    }
}

impl TagPayload {
    /// Returns the [`TagPayloadType`] of the payload.
    pub fn payload_type(&self) -> (r: TagPayloadType)
        ensures
            r == self@.payload_type(),
    {
        match self {
            TagPayload::End => TagPayloadType::End,
            TagPayload::Byte(_) => TagPayloadType::Byte,
            TagPayload::Short(_) => TagPayloadType::Short,
            TagPayload::Int(_) => TagPayloadType::Int,
            TagPayload::Long(_) => TagPayloadType::Long,
            TagPayload::Float(_) => TagPayloadType::Float,
            TagPayload::Double(_) => TagPayloadType::Double,
            TagPayload::ByteArray(_) => TagPayloadType::ByteArray,
            TagPayload::String(_) => TagPayloadType::String,
            TagPayload::List(_, _) => TagPayloadType::List,
            TagPayload::Compound(_) => TagPayloadType::Compound,
            TagPayload::IntArray(_) => TagPayloadType::IntArray,
            TagPayload::LongArray(_) => TagPayloadType::LongArray,
        }
    }

    /// Returns the ID (as per the NBT format) of the payload's type.
    pub fn type_id(&self) -> (r: u8)
        ensures
            r == self@.payload_type().spec_id(),
    {
        self.payload_type().id()
    }

    /// Checks if the payload is consistent.
    ///
    /// For a [`TagPayload::List`] this is whether every item has the type that the list
    /// declares; for any other payload `None` is returned.
    pub fn is_consistent(&self) -> (r: Option<bool>)
        ensures
            match self@ {
                PayloadModel::List(_, _) => r == Some(self@.is_consistent_list()),
                _ => r is None,
            },
    {
        match self {
            TagPayload::List(ty, list) => {
                let id = ty.id();
                let mut i: usize = 0;
                while i < list.len()
                    invariant
                        0 <= i <= list@.len(),
                        id == ty.spec_id(),
                        *self == TagPayload::List(*ty, *list),
                        forall|j: int| 0 <= j < i ==> (#[trigger] list@[j])@.payload_type() == *ty,
                    decreases list@.len() - i,
                {
                    if list[i].type_id() != id {
                        assert(self@ is List);
                        assert(!self@.is_consistent_list()) by {
                            let ghost items = self@->List_1;
                            assert(items[i as int] == list@[i as int]@);
                            lemma_type_id_injective(items[i as int].payload_type(), *ty);
                        }
                        return Some(false);
                    }
                    proof {
                        lemma_type_id_injective(list@[i as int]@.payload_type(), *ty);
                    }
                    i += 1;
                }
                assert(self@.is_consistent_list()) by {
                    let ghost items = self@->List_1;
                    assert forall|j: int| 0 <= j < items.len() implies (#[trigger] items[j]).payload_type()
                        == *ty by {
                        assert(items[j] == list@[j]@);
                    }
                }
                Some(true)
            },
            _ => None,
        }
    }
}

/// Two types with the same ID are the same type.
pub proof fn lemma_type_id_injective(a: TagPayloadType, b: TagPayloadType)
    ensures
        a.spec_id() == b.spec_id() ==> a == b,
{
}

/// A list is consistent exactly when every item, at every position, has the type that the
/// list declares; one item of another type, wherever it stands, makes it inconsistent.
pub proof fn law_consistent_list_checks_every_item(ty: TagPayloadType, items: Seq<PayloadModel>, i: int)
    ensures
        PayloadModel::List(ty, items).is_consistent_list() <==> forall|j: int|
            0 <= j < items.len() ==> (#[trigger] items[j]).payload_type() == ty,
        0 <= i < items.len() && items[i].payload_type() != ty ==> !PayloadModel::List(
            ty,
            items,
        ).is_consistent_list(),
{
}

/// [`Tag::new`] refuses a list with an item of another type than the one it declares, at
/// whatever position, with [`NBTError::InconsistentList`], and gives the tag, as it was given,
/// for a list whose items all have that type.
pub proof fn law_new_checks_every_list_item(
    name: String,
    ty: TagPayloadType,
    items: Vec<TagPayload>,
    i: int,
)
    ensures
        0 <= i < items@.len() && items@[i]@.payload_type() != ty ==> new_result(
            name,
            TagPayload::List(ty, items),
        ) == Err::<Tag, NBTError>(NBTError::InconsistentList),
        (forall|j: int| 0 <= j < items@.len() ==> (#[trigger] items@[j])@.payload_type() == ty)
            ==> new_result(name, TagPayload::List(ty, items)) == Ok::<Tag, NBTError>(
            Tag { name, payload: TagPayload::List(ty, items) },
        ),
{
    let p = TagPayload::List(ty, items);
    assert(p@->List_1 =~= payloads_model(items@));
    if 0 <= i < items@.len() && items@[i]@.payload_type() != ty {
        assert(p@->List_1[i] == items@[i]@);
    }
    if forall|j: int| 0 <= j < items@.len() ==> (#[trigger] items@[j])@.payload_type() == ty {
        assert forall|j: int| 0 <= j < p@->List_1.len() implies (#[trigger] p@->List_1[j]).payload_type()
            == ty by {
            assert(p@->List_1[j] == items@[j]@);
        }
    }
}

/// The `j`-th entry of `tags` has the name of an earlier entry.
pub open spec fn repeats_earlier(tags: Seq<TagModel>, j: int) -> bool {
    exists|k: int| 0 <= k < j && (#[trigger] tags[k]).name == tags[j].name
}

/// The position of the first entry of `tags`, from the `i`-th on, that has the name of an
/// earlier entry.
pub open spec fn first_repeat(tags: Seq<TagModel>, i: nat) -> Option<nat>
    decreases tags.len() - i,
{
    if i >= tags.len() {
        None
    } else if repeats_earlier(tags, i as int) {
        Some(i)
    } else {
        first_repeat(tags, i + 1)
    }
}

/// A repeated entry that [`first_repeat`] finds from the `i`-th on is one of the entries.
proof fn lemma_first_repeat_in_range(tags: Seq<TagModel>, i: nat)
    ensures
        first_repeat(tags, i) matches Some(j) ==> i <= j < tags.len(),
    decreases tags.len() - i,
{
    if i < tags.len() && !repeats_earlier(tags, i as int) {
        lemma_first_repeat_in_range(tags, i + 1);
    }
}

/// What [`Tag::new`] gives for `name` and `payload`: the refusal of a list with an item of
/// another type, or of a compound that repeats a name (with the first repeated name), and the
/// tag otherwise.
pub open spec fn new_result(name: String, payload: TagPayload) -> Result<Tag, NBTError> {
    if payload@ is List && !payload@.is_consistent_list() {
        Err(NBTError::InconsistentList)
    } else {
        match payload {
            TagPayload::Compound(tags) => match first_repeat(tags_model(tags@), 0) {
                Some(i) => Err(NBTError::InvalidTagName(Some(tags@[i as int].name))),
                None => Ok(Tag { name, payload }),
            },
            _ => Ok(Tag { name, payload }),
        }
    }
}

impl Tag {
    /// Creates a new [`Tag`] from a name and a payload, ensuring the given data is valid.
    ///
    /// # Errors
    /// - [`NBTError::InconsistentList`] where `payload` is a [`TagPayload::List`] one of whose
    ///   items is not of the type that the list declares.
    /// - [`NBTError::InvalidTagName`] where `payload` is a [`TagPayload::Compound`] one of
    ///   whose entries has the name of an earlier entry; the error holds the first such name.
    pub fn new(name: String, payload: TagPayload) -> (res: Result<Tag, NBTError>)
        ensures
            res == new_result(name, payload),
    {
        if let Some(false) = payload.is_consistent() {
            return Err(NBTError::InconsistentList);
        }
        if let TagPayload::Compound(tags) = &payload {
            let ghost m = tags_model(tags@);
            let mut i: usize = 0;
            while i < tags.len()
                invariant
                    0 <= i <= tags@.len(),
                    m == tags_model(tags@),
                    payload == TagPayload::Compound(*tags),
                    first_repeat(m, 0) == first_repeat(m, i as nat),
                decreases tags@.len() - i,
            {
                let mut k: usize = 0;
                while k < i
                    invariant
                        0 <= k <= i < tags@.len(),
                        m == tags_model(tags@),
                        payload == TagPayload::Compound(*tags),
                        first_repeat(m, 0) == first_repeat(m, i as nat),
                        forall|j: int| 0 <= j < k ==> (#[trigger] m[j]).name != m[i as int].name,
                    decreases i - k,
                {
                    if tags[k].name == tags[i].name {
                        assert(m[k as int].name == m[i as int].name);
                        assert(repeats_earlier(m, i as int));
                        return Err(NBTError::InvalidTagName(Some(tags[i].name.clone())));
                    }
                    k += 1;
                }
                assert(!repeats_earlier(m, i as int));
                i += 1;
            }
        }
        Ok(Tag { name, payload })
    }

    /// Returns the [`TagPayloadType`] of the payload.
    pub fn payload_type(&self) -> (r: TagPayloadType)
        ensures
            r == self@.payload.payload_type(),
    {
        self.payload.payload_type()
    }

    /// Returns the ID (as per the NBT format) of the payload's type.
    pub fn type_id(&self) -> (r: u8)
        ensures
            r == self@.payload.payload_type().spec_id(),
    {
        self.payload.type_id()
    }
}


impl TryFrom<(String, TagPayload)> for Tag {
    type Error = NBTError;

    fn try_from(parts: (String, TagPayload)) -> (r: Result<Tag, NBTError>) {
        Tag::new(parts.0, parts.1)
    }
}

impl vstd::std_specs::convert::TryFromSpecImpl<(String, TagPayload)> for Tag {
    open spec fn obeys_try_from_spec() -> bool {
        true
    }

    open spec fn try_from_spec(parts: (String, TagPayload)) -> Result<Tag, NBTError> {
        new_result(parts.0, parts.1)
    }
}

impl<'a> TryFrom<(&'a String, &'a TagPayload)> for Tag {
    type Error = NBTError;

    /// Creates a tag from copies of a name and a payload, as [`Tag::new`] does from them.
    fn try_from(parts: (&'a String, &'a TagPayload)) -> (r: Result<Tag, NBTError>)
        ensures
            r is Ok <==> new_result(*parts.0, *parts.1) is Ok,
            r matches Ok(t) ==> t@ == (TagModel { name: parts.0@, payload: parts.1@ }),
            r matches Err(e) ==> error_equal(e, new_result(*parts.0, *parts.1)->Err_0),
    {
        let name = parts.0.clone();
        let payload = clone_payload(parts.1);
        proof {
            lemma_new_result_of_copy(*parts.0, *parts.1, payload);
        }
        Tag::new(name, payload)
    }
}

/// What `std`'s contract of `try_from` would say is not claimed: the tag holds copies, equal
/// to the originals in value; the method's own contract says what it gives.
impl<'a> vstd::std_specs::convert::TryFromSpecImpl<(&'a String, &'a TagPayload)> for Tag {
    open spec fn obeys_try_from_spec() -> bool {
        false
    }

    open spec fn try_from_spec(parts: (&'a String, &'a TagPayload)) -> Result<Tag, NBTError> {
        new_result(*parts.0, *parts.1)
    }
}

/// [`Tag::new`] on a copy of a payload refuses it as it refuses the payload, with an equal
/// error, and otherwise gives a tag of the same value.
proof fn lemma_new_result_of_copy(name: String, payload: TagPayload, copy: TagPayload)
    requires
        copy@ == payload@,
    ensures
        new_result(name, copy) is Ok <==> new_result(name, payload) is Ok,
        new_result(name, copy) matches Ok(t) ==> t@ == (TagModel { name: name@, payload: payload@ }),
        new_result(name, copy) matches Err(e) ==> error_equal(e, new_result(name, payload)->Err_0),
{
    if let TagPayload::Compound(tags) = payload {
        if let TagPayload::Compound(ctags) = copy {
            assert(tags_model(tags@) =~= payload@->Compound_0);
            assert(tags_model(ctags@) =~= copy@->Compound_0);
            if let Some(i) = first_repeat(tags_model(tags@), 0) {
                lemma_first_repeat_in_range(tags_model(tags@), 0);
                assert(tags_model(ctags@)[i as int] == tags_model(tags@)[i as int]);
            }
        }
    }
}

impl From<Tag> for (String, TagPayload) {
    fn from(tag: Tag) -> (r: (String, TagPayload)) {
        (tag.name, tag.payload)
    }
}

impl vstd::std_specs::convert::FromSpecImpl<Tag> for (String, TagPayload) {
    open spec fn obeys_from_spec() -> bool {
        true
    }

    open spec fn from_spec(tag: Tag) -> (String, TagPayload) {
        (tag.name, tag.payload)
    }
}

/// A copy of `p`, item by item.
pub(crate) fn clone_payload(p: &TagPayload) -> (r: TagPayload)
    ensures
        r@ == p@,
    decreases p,
{
    match p {
        TagPayload::End => TagPayload::End,
        TagPayload::Byte(v) => TagPayload::Byte(*v),
        TagPayload::Short(v) => TagPayload::Short(*v),
        TagPayload::Int(v) => TagPayload::Int(*v),
        TagPayload::Long(v) => TagPayload::Long(*v),
        TagPayload::Float(v) => TagPayload::Float(*v),
        TagPayload::Double(v) => TagPayload::Double(*v),
        TagPayload::ByteArray(v) => TagPayload::ByteArray(slice_to_vec(v.as_slice())),
        TagPayload::String(s) => TagPayload::String(s.clone()),
        TagPayload::List(ty, items) => {
            let out = clone_payloads(items.as_slice());
            let r = TagPayload::List(*ty, out);
            assert(payloads_model(out@) =~= r@->List_1);
            assert(payloads_model(items@) =~= p@->List_1);
            r
        },
        TagPayload::Compound(tags) => {
            let out = clone_tags(tags.as_slice());
            let r = TagPayload::Compound(out);
            assert(tags_model(out@) =~= r@->Compound_0);
            assert(tags_model(tags@) =~= p@->Compound_0);
            r
        },
        TagPayload::IntArray(v) => TagPayload::IntArray(slice_to_vec(v.as_slice())),
        TagPayload::LongArray(v) => TagPayload::LongArray(slice_to_vec(v.as_slice())),
    }
}

/// Copies of the payloads of `items`.
fn clone_payloads(items: &[TagPayload]) -> (r: Vec<TagPayload>)
    ensures
        payloads_model(r@) == payloads_model(items@),
    decreases items@,
{
    let mut out: Vec<TagPayload> = Vec::new();
    let mut i: usize = 0;
    while i < items.len()
        invariant
            0 <= i <= items@.len(),
            payloads_model(out@) == payloads_model(items@).take(i as int),
        decreases items@.len() - i,
    {
        let item = clone_payload(&items[i]);
        let ghost before = out@;
        out.push(item);
        assert(payloads_model(out@) =~= payloads_model(before).push(items@[i as int]@));
        assert(payloads_model(items@).take(i + 1) =~= payloads_model(items@).take(i as int).push(
            items@[i as int]@,
        ));
        i += 1;
    }
    assert(payloads_model(items@).take(i as int) =~= payloads_model(items@));
    out
}

/// Copies of the tags of `tags`.
fn clone_tags(tags: &[Tag]) -> (r: Vec<Tag>)
    ensures
        tags_model(r@) == tags_model(tags@),
    decreases tags@,
{
    let mut out: Vec<Tag> = Vec::new();
    let mut i: usize = 0;
    while i < tags.len()
        invariant
            0 <= i <= tags@.len(),
            tags_model(out@) == tags_model(tags@).take(i as int),
        decreases tags@.len() - i,
    {
        let t = clone_tag(&tags[i]);
        let ghost before = out@;
        out.push(t);
        assert(tags_model(out@) =~= tags_model(before).push(tags@[i as int]@));
        assert(tags_model(tags@).take(i + 1) =~= tags_model(tags@).take(i as int).push(
            tags@[i as int]@,
        ));
        i += 1;
    }
    assert(tags_model(tags@).take(i as int) =~= tags_model(tags@));
    out
}

/// A copy of `t`.
fn clone_tag(t: &Tag) -> (r: Tag)
    ensures
        r@ == t@,
    decreases t,
{
    Tag { name: t.name.clone(), payload: clone_payload(&t.payload) }
}

impl Clone for TagPayload {
    fn clone(&self) -> (r: TagPayload)
        ensures
            r@ == self@,
    {
        clone_payload(self)
    }
}

impl Clone for Tag {
    fn clone(&self) -> (r: Tag)
        ensures
            r@ == self@,
    {
        clone_tag(self)
    }
}

} // verus!
