//! The map file: an ordered index from resource identifier to the location
//! of the resource's bytes inside the paired data file.
//!
//! Layout: a sequence of fixed-width 7-byte records, one per resource, in
//! strictly ascending identifier order, terminated by a trailer record of
//! seven 0xFF bytes which must end the file. Each record is
//! `[type tag: u8][number: u16 LE][offset: u32 LE]`.

use vstd::prelude::*;

use crate::error::FormatError;
use crate::restype::{spec_id_lt, spec_type_of_tag, ResourceId, ResourceType};

verus! {

/// Where one resource's bytes lie inside the data file.
#[derive(Debug, Clone, Copy, PartialEq, Eq, Structural)]
pub struct Location {
    pub id: ResourceId,
    pub offset: u32,
}

/// The value of a 16-bit little-endian field.
pub open spec fn spec_le16(b0: u8, b1: u8) -> u16 {
    (b0 + b1 * 0x100) as u16
}

/// The value of a 32-bit little-endian field.
pub open spec fn spec_le32(b0: u8, b1: u8, b2: u8, b3: u8) -> u32 {
    (b0 + b1 * 0x100 + b2 * 0x10000 + b3 * 0x1000000) as u32
}

/// Whether the first seven bytes are the map file's trailer marker.
pub open spec fn spec_is_trailer(bytes: Seq<u8>) -> bool {
    forall|k: int| 0 <= k < 7 ==> bytes[k] == 0xFFu8
}

/// The record encoded by the first seven bytes, or `None` if its type tag is
/// out of range.
pub open spec fn spec_record_at(bytes: Seq<u8>) -> Option<Location> {
    match spec_type_of_tag(bytes[0]) {
        None => None,
        Some(t) => Some(
            Location {
                id: ResourceId { res_type: t, res_num: spec_le16(bytes[1], bytes[2]) },
                offset: spec_le32(bytes[3], bytes[4], bytes[5], bytes[6]),
            },
        ),
    }
}

/// Parse of a map file's bytes: the locations its records describe, or the
/// first structural fault. `lower` is the identifier of the preceding record,
/// which every further record must exceed.
pub open spec fn spec_parse_map(bytes: Seq<u8>, lower: Option<ResourceId>) -> Result<
    Seq<Location>,
    FormatError,
>
    decreases bytes.len(),
{
    if bytes.len() < 7 {
        Err(FormatError::Truncated)
    } else if bytes[0] == 0xFFu8 {
        if bytes.len() == 7 && spec_is_trailer(bytes) {
            Ok(Seq::empty())
        } else {
            Err(FormatError::BadTrailer)
        }
    } else {
        match spec_record_at(bytes) {
            None => Err(FormatError::BadTypeTag),
            Some(loc) => {
                let order_ok = match lower {
                    None => true,
                    Some(lo) => spec_id_lt(lo, loc.id),
                };
                if !order_ok {
                    Err(FormatError::OutOfOrder)
                } else {
                    match spec_parse_map(bytes.skip(7), Some(loc.id)) {
                        Ok(rest) => Ok(seq![loc] + rest),
                        Err(e) => Err(e),
                    }
                }
            },
        }
    }
}

/// The ordered mapping from resource identifier to location, read once and
/// fully from the map file.
pub struct ResourceLocations {
    pub locs: Vec<Location>,
}

impl View for ResourceLocations {
    type V = Seq<Location>;

    open spec fn view(&self) -> Seq<Location> {
        self.locs@
    }
}

impl ResourceLocations {
    /// The index lists its locations in strictly ascending identifier order.
    pub open spec fn wf(&self) -> bool {
        forall|i: int, j: int|
            0 <= i < j < self@.len() ==> spec_id_lt(self@[i].id, self@[j].id)
    }

    /// Whether some location carries the identifier.
    pub open spec fn spec_contains(&self, id: ResourceId) -> bool {
        exists|i: int| 0 <= i < self@.len() && self@[i].id == id
    }

    /// Reads the value of a 16-bit little-endian field.
    fn le16(b0: u8, b1: u8) -> (r: u16)
        ensures
            r == spec_le16(b0, b1),
    {
        b0 as u16 + b1 as u16 * 0x100
    }

    /// Reads the value of a 32-bit little-endian field.
    fn le32(b0: u8, b1: u8, b2: u8, b3: u8) -> (r: u32)
        ensures
            r == spec_le32(b0, b1, b2, b3),
    {
        b0 as u32 + b1 as u32 * 0x100 + b2 as u32 * 0x10000 + b3 as u32 * 0x1000000
    }

    /// Compares identifiers in the map file's enumeration order.
    fn id_lt(a: ResourceId, b: ResourceId) -> (r: bool)
        ensures
            r == spec_id_lt(a, b),
    {
        let ta = a.res_type.to_tag();
        let tb = b.res_type.to_tag();
        ta < tb || (ta == tb && a.res_num < b.res_num)
    }

    /// Parses a whole map file. Returns exactly what `spec_parse_map` gives:
    /// the ordered locations, or the first structural fault (truncation, a
    /// malformed trailer, an out-of-range type tag, or records out of order).
    pub fn read_from(bytes: &[u8]) -> (r: Result<ResourceLocations, FormatError>)
        ensures
            match r {
                Ok(rl) => spec_parse_map(bytes@, None) == Ok::<Seq<Location>, FormatError>(rl@)
                    && rl.wf(),
                Err(e) => spec_parse_map(bytes@, None) == Err::<Seq<Location>, FormatError>(e),
            },
    {
        let mut locs: Vec<Location> = Vec::new();
        let mut i: usize = 0;
        let ghost mut lower: Option<ResourceId> = None;
        proof {
            assert(bytes@.skip(0) =~= bytes@);
            if let Ok(rest) = spec_parse_map(bytes@, None) {
                assert(locs@ + rest =~= rest);
            }
        }
        loop
            invariant
                i <= bytes@.len(),
                forall|p: int, q: int|
                    0 <= p < q < locs@.len() ==> spec_id_lt(locs@[p].id, locs@[q].id),
                lower == if locs@.len() == 0 {
                    None::<ResourceId>
                } else {
                    Some(locs@.last().id)
                },
                spec_parse_map(bytes@, None) == (match spec_parse_map(bytes@.skip(i as int), lower) {
                    Ok(rest) => Ok::<Seq<Location>, FormatError>(locs@ + rest),
                    Err(e) => Err::<Seq<Location>, FormatError>(e),
                }),
            decreases bytes@.len() - i,
        {
            if bytes.len() - i < 7 {
                return Err(FormatError::Truncated);
            }
            let b0 = bytes[i];
            if b0 == 0xFF {
                if bytes.len() - i != 7 {
                    return Err(FormatError::BadTrailer);
                }
                if bytes[i + 1] != 0xFF || bytes[i + 2] != 0xFF || bytes[i + 3] != 0xFF || bytes[i
                    + 4] != 0xFF || bytes[i + 5] != 0xFF || bytes[i + 6] != 0xFF {
                    assert(!spec_is_trailer(bytes@.skip(i as int)));
                    return Err(FormatError::BadTrailer);
                }
                assert(spec_is_trailer(bytes@.skip(i as int))) by {
                    assert forall|k: int| 0 <= k < 7 implies bytes@.skip(i as int)[k]
                        == 0xFFu8 by {
                        assert(bytes@.skip(i as int)[k] == bytes@[i + k]);
                    }
                }
                assert(locs@ + Seq::<Location>::empty() =~= locs@);
                return Ok(ResourceLocations { locs });
            }
            let tag = b0;
            let t_opt = ResourceType::from_tag(tag);
            match t_opt {
                None => {
                    return Err(FormatError::BadTypeTag);
                },
                Some(t) => {
                    let num = Self::le16(bytes[i + 1], bytes[i + 2]);
                    let off = Self::le32(bytes[i + 3], bytes[i + 4], bytes[i + 5], bytes[i + 6]);
                    let loc = Location { id: ResourceId { res_type: t, res_num: num }, offset: off };
                    assert(spec_record_at(bytes@.skip(i as int)) == Some(loc));
                    if locs.len() > 0 {
                        let last = locs[locs.len() - 1];
                        if !Self::id_lt(last.id, loc.id) {
                            return Err(FormatError::OutOfOrder);
                        }
                    }
                    proof {
                        assert(bytes@.skip(i as int).skip(7) =~= bytes@.skip(i as int + 7));
                        if locs@.len() > 0 {
                            assert(spec_id_lt(locs@.last().id, loc.id));
                        }
                    }
                    let ghost old_locs = locs@;
                    locs.push(loc);
                    proof {
                        lower = Some(loc.id);
                        assert forall|p: int, q: int|
                            0 <= p < q < locs@.len() implies spec_id_lt(
                            locs@[p].id,
                            locs@[q].id,
                        ) by {
                            if q == locs@.len() - 1 {
                                if p < old_locs.len() - 1 {
                                    assert(spec_id_lt(old_locs[p].id, old_locs.last().id));
                                }
                            }
                        }
                        assert(match spec_parse_map(bytes@.skip(i as int + 7), lower) {
                            Ok(rest) => old_locs + (seq![loc] + rest) =~= locs@ + rest,
                            Err(e) => true,
                        });
                    }
                    i = i + 7;
                },
            }
        }
    }

    /// Looks up the location stored for an identifier, or `None` when the
    /// identifier is absent from the index.
    pub fn get_location(&self, id: &ResourceId) -> (r: Option<Location>)
        ensures
            r is Some <==> self.spec_contains(*id),
            match r {
                Some(loc) => loc.id == *id && exists|i: int|
                    0 <= i < self@.len() && self@[i] == loc,
                None => true,
            },
    {
        let mut i: usize = 0;
        while i < self.locs.len()
            invariant
                i <= self@.len(),
                forall|j: int| 0 <= j < i ==> self@[j].id != *id,
            decreases self@.len() - i,
        {
            if self.locs[i].id == *id {
                return Some(self.locs[i]);
            }
            i = i + 1;
        }
        None
    }

    /// All indexed locations, in ascending identifier order.
    pub fn locations(&self) -> (r: &Vec<Location>)
        ensures
            r@ == self@,
    {
        &self.locs
    }
}

} // verus!
