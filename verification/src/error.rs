use vstd::prelude::*;

verus! {

/// Why a record could not be read or written.
#[derive(Clone, Copy, Debug, PartialEq, Eq)]
pub enum Error {
    /// The text is not a JSON document (this includes an object that names a
    /// member twice).
    Syntax,
    /// The JSON value is not an object.
    NotAnObject,
    /// The object has no `id` member.
    MissingId,
    /// The `id` member is not a string.
    InvalidId,
    /// The `id` string is not a URL.
    InvalidUrl,
    /// The object has no `type` member.
    MissingType,
    /// The `type` member is neither a string nor an array of strings.
    InvalidType,
    /// The `type` member is an empty array.
    EmptyType,
    /// A property of the record is named `id` or `type`.
    ReservedProperty,
}

} // verus!
