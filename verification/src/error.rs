use vstd::prelude::*;

use crate::tag::{TagPayload, TagPayloadType};

verus! {

/// The kind of an I/O error, as `std::io` reports it.
#[verifier::external_type_specification]
#[verifier::external_body]
pub struct ExIoErrorKind(std::io::ErrorKind);

/// The errors of this library.
#[derive(Debug)]
pub enum NBTError {
    /// A tag name that cannot be used: one that an earlier entry of the same compound has.
    InvalidTagName(Option<String>),
    /// A list item that does not have the list's type: the ID of that type, and the item.
    UnexpectedType(u8, TagPayload),
    /// A list whose items are not all of the type that it declares.
    InconsistentList,
    /// A payload type that cannot be used for list elements.
    InvalidListElementType(TagPayloadType),
    /// A payload type ID that cannot stand where it was found: one above 12, or that of `End`
    /// (0) as the payload of a tag.
    InvalidPayloadType(u8),
    /// A string whose UTF-8 form, of the given length, does not fit the 2-byte length field.
    StringTooLong(usize),
    /// An array or list whose length does not fit the 4-byte signed length field.
    ArrayTooLong(usize),
    /// Decompressing a gzip stream failed, with the kind of the I/O error that was reported.
    IO(std::io::ErrorKind),
    /// The bytes do not form a valid NBT encoding.
    ParsingError,
}

} // verus!
