//! The errors of parsing and decoding.
use vstd::prelude::*;

verus! {

/// A kind of value that a consumer asks the decode engine for.
#[derive(Debug, Clone, Copy, PartialEq, Eq, Structural)]
pub enum Kind {
    Bool,
    I8,
    I16,
    I32,
    I64,
    I128,
    U8,
    U16,
    U32,
    U64,
    U128,
    F32,
    F64,
    Char,
    Str,
    Bytes,
    Sequence,
    Mapping,
}

/// What stood in the tree where a value of another shape was asked for.
#[derive(Debug, PartialEq, Eq)]
pub enum Found {
    /// A scalar token.
    Scalar(String),
    /// A sub-entry or fragment.
    Mapping,
}

/// Error type of the crate.
#[derive(Debug, PartialEq, Eq)]
pub enum Error {
    /// The text does not follow the grammar; the message names what was
    /// expected.
    ParseError(String),
    /// A message raised by a consumer of the decode engine.
    SerdeError(String),
    /// The text ended where the grammar needed more of it.
    UnknownError,
    /// A scalar token could not be read as the requested kind.
    DeserializationTypeError(String, Kind),
    /// The node has another shape than the one requested.
    InvalidType(Found, Kind),
    /// A map cursor was asked for a value before a key.
    ValueBeforeKey,
}

} // verus!
