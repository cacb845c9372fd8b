//! The data file: a binary blob addressed by byte offset.
//!
//! Each record starts with a 6-byte header
//! `[type tag: u8][decoded length: u16 LE][stored length: u16 LE][compression tag: u8]`
//! followed by the stored payload bytes. Raw reads return header fields and
//! payload exactly as stored; the decode step applies the payload transform
//! named by the compression tag (tag 0 denotes "stored uncompressed", a
//! pass-through) and checks the result against the declared decoded length.

use vstd::prelude::*;
use vstd::slice::{slice_subrange, slice_to_vec};

use crate::error::FormatError;
use crate::mapfile::{spec_le16, Location};
use crate::restype::{spec_type_of_tag, ResourceType};

verus! {

/// Header fields and payload of one record, exactly as stored: no
/// decompression is applied. Used for bulk enumeration and patch emission.
#[derive(Debug, Clone)]
pub struct RawContents {
    pub res_type: ResourceType,
    pub decoded_len: u16,
    pub stored_len: u16,
    pub compression: u8,
    pub payload: Vec<u8>,
}

/// Mathematical value of a raw record.
pub struct RawView {
    pub res_type: ResourceType,
    pub decoded_len: u16,
    pub stored_len: u16,
    pub compression: u8,
    pub payload: Seq<u8>,
}

impl View for RawContents {
    type V = RawView;

    open spec fn view(&self) -> RawView {
        RawView {
            res_type: self.res_type,
            decoded_len: self.decoded_len,
            stored_len: self.stored_len,
            compression: self.compression,
            payload: self.payload@,
        }
    }
}

/// A record's fully decoded content: its declared type and the materialized
/// payload bytes, ready to use.
#[derive(Debug, Clone)]
pub struct Contents {
    pub res_type: ResourceType,
    pub data: Vec<u8>,
}

/// Mathematical value of decoded contents.
pub struct ContentsView {
    pub res_type: ResourceType,
    pub data: Seq<u8>,
}

impl View for Contents {
    type V = ContentsView;

    open spec fn view(&self) -> ContentsView {
        ContentsView { res_type: self.res_type, data: self.data@ }
    }
}

impl Contents {
    /// The declared resource type.
    pub fn res_type(&self) -> (r: ResourceType)
        ensures
            r == self@.res_type,
    {
        self.res_type
    }

    /// The decoded payload bytes.
    pub fn data(&self) -> (r: &Vec<u8>)
        ensures
            r@ == self@.data,
    {
        &self.data
    }
}

/// The raw record a location denotes inside the data file's bytes, or the
/// structural fault that prevents reading it.
pub open spec fn spec_read_raw(data: Seq<u8>, loc: Location) -> Result<RawView, FormatError> {
    let off = loc.offset as int;
    if off > data.len() {
        Err(FormatError::OffsetOutOfRange)
    } else if data.len() - off < 6 {
        Err(FormatError::Truncated)
    } else {
        match spec_type_of_tag(data[off]) {
            None => Err(FormatError::BadTypeTag),
            Some(t) => {
                let dlen = spec_le16(data[off + 1], data[off + 2]);
                let slen = spec_le16(data[off + 3], data[off + 4]);
                if data.len() - (off + 6) < slen {
                    Err(FormatError::Truncated)
                } else {
                    Ok(
                        RawView {
                            res_type: t,
                            decoded_len: dlen,
                            stored_len: slen,
                            compression: data[off + 5],
                            payload: data.subrange(off + 6, off + 6 + slen),
                        },
                    )
                }
            },
        }
    }
}

/// The decode step applied to a raw record: the pass-through transform for
/// compression tag 0, checked against the declared decoded length; any other
/// tag is unrecognized.
pub open spec fn spec_decode(raw: RawView) -> Result<Seq<u8>, FormatError> {
    if raw.compression != 0 {
        Err(FormatError::UnknownCompression)
    } else if raw.payload.len() != raw.decoded_len {
        Err(FormatError::SizeMismatch)
    } else {
        Ok(raw.payload)
    }
}

/// Reading a location and decoding it in one step, with the stored type
/// checked against the index entry's type.
pub open spec fn spec_read_contents(data: Seq<u8>, loc: Location) -> Result<
    ContentsView,
    FormatError,
> {
    match spec_read_raw(data, loc) {
        Err(e) => Err(e),
        Ok(raw) => {
            if raw.res_type != loc.id.res_type {
                Err(FormatError::TypeMismatch)
            } else {
                match spec_decode(raw) {
                    Err(e) => Err(e),
                    Ok(d) => Ok(ContentsView { res_type: raw.res_type, data: d }),
                }
            }
        },
    }
}

/// The decode step is a function of the raw record's value alone: equal raw
/// records always decode to the identical result, across repeated calls.
pub proof fn lemma_decode_deterministic(a: RawView, b: RawView)
    requires
        a == b,
    ensures
        spec_decode(a) == spec_decode(b),
{
}

/// The decode step is idempotent: bytes it produced, stored back uncompressed
/// under their own length, decode to themselves unchanged.
pub proof fn lemma_decode_idempotent(raw: RawView)
    requires
        spec_decode(raw) is Ok,
    ensures
        ({
            let d = spec_decode(raw).unwrap();
            spec_decode(
                RawView {
                    res_type: raw.res_type,
                    decoded_len: raw.decoded_len,
                    stored_len: raw.stored_len,
                    compression: 0,
                    payload: d,
                },
            ) == Ok::<Seq<u8>, FormatError>(d)
        }),
{
}

impl RawContents {
    /// Applies the decode step to this raw record.
    pub fn decode(&self) -> (r: Result<Contents, FormatError>)
        ensures
            match r {
                Ok(c) => spec_decode(self@) == Ok::<Seq<u8>, FormatError>(c@.data) && c@.res_type
                    == self@.res_type,
                Err(e) => spec_decode(self@) == Err::<Seq<u8>, FormatError>(e),
            },
    {
        if self.compression != 0 {
            return Err(FormatError::UnknownCompression);
        }
        if self.payload.len() != self.decoded_len as usize {
            return Err(FormatError::SizeMismatch);
        }
        Ok(Contents { res_type: self.res_type, data: self.payload.clone() })
    }
}

/// The fixed header fields of one data-file record.
#[derive(Debug, Clone, Copy, PartialEq, Eq, Structural)]
pub struct RecordHeader {
    pub res_type: ResourceType,
    pub decoded_len: u16,
    pub stored_len: u16,
    pub compression: u8,
}

/// The header encoded by a record's first six bytes.
pub open spec fn spec_parse_header(bytes: Seq<u8>) -> Result<RecordHeader, FormatError> {
    if bytes.len() < 6 {
        Err(FormatError::Truncated)
    } else {
        match spec_type_of_tag(bytes[0]) {
            None => Err(FormatError::BadTypeTag),
            Some(t) => Ok(
                RecordHeader {
                    res_type: t,
                    decoded_len: spec_le16(bytes[1], bytes[2]),
                    stored_len: spec_le16(bytes[3], bytes[4]),
                    compression: bytes[5],
                },
            ),
        }
    }
}

/// Decodes a record's six header bytes on their own. A caller holding a
/// seekable data file can read just these six bytes at a record's offset,
/// learn the payload's stored length from them, and then read exactly the
/// payload's range: arbitrarily large archives need no full in-memory
/// buffering.
pub fn parse_header(bytes: &[u8]) -> (r: Result<RecordHeader, FormatError>)
    ensures
        r == spec_parse_header(bytes@),
{
    if bytes.len() < 6 {
        return Err(FormatError::Truncated);
    }
    let t = match ResourceType::from_tag(bytes[0]) {
        None => {
            return Err(FormatError::BadTypeTag);
        },
        Some(t) => t,
    };
    let dlen = bytes[1] as u16 + bytes[2] as u16 * 0x100;
    let slen = bytes[3] as u16 + bytes[4] as u16 * 0x100;
    Ok(RecordHeader { res_type: t, decoded_len: dlen, stored_len: slen, compression: bytes[5] })
}

/// Reading a record in place agrees with decoding its six header bytes alone.
pub proof fn lemma_read_raw_header(data: Seq<u8>, loc: Location)
    requires
        spec_read_raw(data, loc) is Ok,
    ensures
        ({
            let raw = spec_read_raw(data, loc).unwrap();
            spec_parse_header(data.subrange(loc.offset as int, loc.offset + 6)) == Ok::<
                RecordHeader,
                FormatError,
            >(
                RecordHeader {
                    res_type: raw.res_type,
                    decoded_len: raw.decoded_len,
                    stored_len: raw.stored_len,
                    compression: raw.compression,
                },
            )
        }),
{
    let off = loc.offset as int;
    let h = data.subrange(off, off + 6);
    assert(h[0] == data[off]);
    assert(h[1] == data[off + 1]);
    assert(h[2] == data[off + 2]);
    assert(h[3] == data[off + 3]);
    assert(h[4] == data[off + 4]);
    assert(h[5] == data[off + 5]);
}

/// Retrieval of record bytes from the data file's contents.
pub struct DataFile {
    pub data: Vec<u8>,
}

impl DataFile {
    pub fn new(data: Vec<u8>) -> (r: DataFile)
        ensures
            r.data@ == data@,
    {
        DataFile { data }
    }

    /// Reads the record a location denotes, exactly as stored: header fields
    /// and payload bytes, with no decompression.
    pub fn read_raw_contents(&self, loc: &Location) -> (r: Result<RawContents, FormatError>)
        ensures
            match r {
                Ok(raw) => spec_read_raw(self.data@, *loc) == Ok::<RawView, FormatError>(raw@),
                Err(e) => spec_read_raw(self.data@, *loc) == Err::<RawView, FormatError>(e),
            },
    {
        let off = loc.offset as usize;
        if off > self.data.len() {
            return Err(FormatError::OffsetOutOfRange);
        }
        if self.data.len() - off < 6 {
            return Err(FormatError::Truncated);
        }
        let tag = self.data[off];
        let t = match ResourceType::from_tag(tag) {
            None => {
                return Err(FormatError::BadTypeTag);
            },
            Some(t) => t,
        };
        let dlen = self.data[off + 1] as u16 + self.data[off + 2] as u16 * 0x100;
        let slen = self.data[off + 3] as u16 + self.data[off + 4] as u16 * 0x100;
        let comp = self.data[off + 5];
        if self.data.len() - (off + 6) < slen as usize {
            return Err(FormatError::Truncated);
        }
        let payload_slice = slice_subrange(self.data.as_slice(), off + 6, off + 6 + slen as usize);
        let payload = slice_to_vec(payload_slice);
        Ok(RawContents { res_type: t, decoded_len: dlen, stored_len: slen, compression: comp, payload })
    }

    /// Reads the record a location denotes and decodes it: the stored type
    /// must match the index entry's type, the compression tag must be
    /// recognized, and the decoded payload must have the declared length.
    pub fn read_contents(&self, loc: &Location) -> (r: Result<Contents, FormatError>)
        ensures
            match r {
                Ok(c) => spec_read_contents(self.data@, *loc) == Ok::<ContentsView, FormatError>(
                    c@,
                ),
                Err(e) => spec_read_contents(self.data@, *loc) == Err::<ContentsView, FormatError>(
                    e,
                ),
            },
    {
        let raw = match self.read_raw_contents(loc) {
            Err(e) => {
                return Err(e);
            },
            Ok(raw) => raw,
        };
        if raw.res_type.to_tag() != loc.id.res_type.to_tag() {
            proof {
                crate::restype::lemma_tag_round_trip(raw.res_type);
                crate::restype::lemma_tag_round_trip(loc.id.res_type);
            }
            return Err(FormatError::TypeMismatch);
        }
        proof {
            crate::restype::lemma_tag_round_trip(raw.res_type);
            crate::restype::lemma_tag_round_trip(loc.id.res_type);
        }
        match raw.decode() {
            Err(e) => Err(e),
            Ok(c) => Ok(c),
        }
    }
}

} // verus!
