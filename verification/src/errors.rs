//! Error taxonomies: syntax-level decode errors and schema-level map errors.
//!
//! The two taxonomies are disjoint and never merged; `MetainfoError` only
//! carries one or the other through the combined decode-then-map entry point.

use vstd::prelude::*;

verus! {

/// What went wrong while decoding bencode syntax.
#[derive(Debug, Clone, Copy, PartialEq, Eq, Structural)]
pub enum DecodeErrorKind {
    /// The input ended in the middle of a token.
    UnexpectedEndOfInput,
    /// An integer token broke the canonical form: no digits, a leading zero,
    /// a negative zero, a stray byte, or a value outside the 64-bit range.
    InvalidIntegerFormat,
    /// A byte-string length prefix was malformed, or a value began with a
    /// byte that opens no token.
    InvalidLengthPrefix,
    /// A byte string declared more bytes than remain in the input.
    TruncatedByteString,
    /// A list or dictionary was never closed with `e`.
    UnterminatedContainer,
    /// A dictionary key was not a byte string.
    NonByteStringDictionaryKey,
    /// In strict mode, a dictionary key was not strictly greater than the
    /// previous key.
    UnsortedOrDuplicateDictionaryKeys,
    /// A container opened deeper than the configured nesting cap.
    MaxNestingDepthExceeded,
    /// Bytes remained after the single top-level value.
    TrailingDataAfterValue,
}

/// A decode failure: its kind and the byte offset where it was detected.
#[derive(Debug, Clone, Copy, PartialEq, Eq, Structural)]
pub struct DecodeError {
    pub kind: DecodeErrorKind,
    pub offset: usize,
}

/// The four bencode value shapes, plus the two-element pair shape expected
/// of a DHT node entry; used to report type mismatches.
#[derive(Debug, Clone, Copy, PartialEq, Eq, Structural)]
pub enum ValueKind {
    Integer,
    ByteString,
    List,
    Dictionary,
    /// A list of exactly two elements: host and port.
    Pair,
}

/// The metainfo fields the mapper knows, named after their meaning; the
/// on-wire spellings (including `piece length`, `announce-list`,
/// `creation date`, `created by`, `root hash`) live in the mapper.
#[derive(Debug, Clone, Copy, PartialEq, Eq, Structural)]
pub enum Field {
    Info,
    Name,
    PieceLength,
    Pieces,
    Private,
    RootHash,
    Length,
    Md5sum,
    Files,
    Path,
    Announce,
    AnnounceList,
    Nodes,
    CreationDate,
    Comment,
    CreatedBy,
    Encoding,
    Httpseeds,
}

/// What went wrong while mapping a decoded value onto the metainfo schema.
#[derive(Debug, Clone, Copy, PartialEq, Eq, Structural)]
pub enum MapError {
    /// The top-level value was not a dictionary.
    RootNotADictionary,
    /// A required field was absent.
    MissingRequiredField(Field),
    /// A field held a value of the wrong shape.
    UnexpectedType { field: Field, expected: ValueKind, actual: ValueKind },
    /// A textual field held bytes that are not valid UTF-8.
    InvalidTextEncoding(Field),
    /// The info dictionary had neither a single-file `length` nor a
    /// multi-file `files` entry.
    MissingLayout,
    /// The info dictionary had both a single-file `length` and a multi-file
    /// `files` entry.
    ConflictingLayout,
}

/// An error from either stage of the combined decode-then-map entry point.
#[derive(Debug, Clone, Copy, PartialEq, Eq, Structural)]
pub enum MetainfoError {
    Syntax(DecodeError),
    Schema(MapError),
}

} // verus!
