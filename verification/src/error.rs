//! Error taxonomy of the archive access layer.
//!
//! `FormatError` marks bytes that do not match the expected archive
//! structure; it is fatal to the operation in progress and never silently
//! patched over. Lookup failures (an identifier absent from an index) and
//! unsupported patch requests are distinct from format errors. I/O failures
//! happen outside this library, which works on bytes already read.

use vstd::prelude::*;

verus! {

/// The bytes of a map file or data file do not match the archive structure.
#[derive(Debug, Clone, Copy, PartialEq, Eq, Structural)]
pub enum FormatError {
    /// The file ends before a complete record or trailer.
    Truncated,
    /// The map file's terminating record is malformed or not final.
    BadTrailer,
    /// A stored type tag denotes no known resource type.
    BadTypeTag,
    /// The map file's records are not in ascending identifier order.
    OutOfOrder,
    /// A record's offset lies outside the data file.
    OffsetOutOfRange,
    /// A data record's compression tag is unrecognized.
    UnknownCompression,
    /// Decoding a payload did not yield the header's declared length.
    SizeMismatch,
    /// A data record's stored type differs from the index entry's type.
    TypeMismatch,
}

/// Failure of a single-resource read from a store.
#[derive(Debug, Clone, Copy, PartialEq, Eq, Structural)]
pub enum StoreError {
    /// The resource's bytes do not match the archive structure.
    Format(FormatError),
    /// The requested identifier is absent from the store's index.
    Lookup,
}

/// The patch/export path does not handle the requested resource type.
#[derive(Debug, Clone, Copy, PartialEq, Eq, Structural)]
pub enum PatchError {
    UnsupportedResourceType,
}

/// Failure while populating a book's entry tables.
#[derive(Debug, Clone, Copy, PartialEq, Eq, Structural)]
pub enum BuildError {
    /// An entry with the same key was already added to the same table.
    DuplicateKey,
    /// The named parent entity does not exist.
    MissingParent,
    /// A line references a talker absent from the talker table.
    DanglingTalker,
    /// A talker references a role absent from the role table.
    DanglingRole,
    /// A conversation key references a nonzero verb absent from the verb table.
    DanglingVerb,
}

} // verus!
