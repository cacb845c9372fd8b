//! Resource types and identifiers.
//!
//! A resource is one addressable unit in an archive, identified by its type
//! and a 16-bit number. The type is stored in archive files as a one-byte
//! tag; the tag value 0xFF is reserved as the map file's trailer marker and
//! never denotes a type.

use vstd::prelude::*;

verus! {

/// The kind of content a resource holds.
#[derive(Debug, Clone, Copy, PartialEq, Eq, Structural)]
pub enum ResourceType {
    View,
    Pic,
    Script,
    Text,
    Sound,
    Vocab,
    Font,
    Cursor,
    Patch,
    Palette,
    Message,
    Heap,
}

/// The one-byte tag under which a resource type is stored in archive files.
pub open spec fn spec_tag_of(t: ResourceType) -> u8 {
    match t {
        ResourceType::View => 0,
        ResourceType::Pic => 1,
        ResourceType::Script => 2,
        ResourceType::Text => 3,
        ResourceType::Sound => 4,
        ResourceType::Vocab => 5,
        ResourceType::Font => 6,
        ResourceType::Cursor => 7,
        ResourceType::Patch => 8,
        ResourceType::Palette => 9,
        ResourceType::Message => 10,
        ResourceType::Heap => 11,
    }
}

/// The resource type denoted by a stored tag byte, if any.
pub open spec fn spec_type_of_tag(tag: u8) -> Option<ResourceType> {
    if tag == 0 {
        Some(ResourceType::View)
    } else if tag == 1 {
        Some(ResourceType::Pic)
    } else if tag == 2 {
        Some(ResourceType::Script)
    } else if tag == 3 {
        Some(ResourceType::Text)
    } else if tag == 4 {
        Some(ResourceType::Sound)
    } else if tag == 5 {
        Some(ResourceType::Vocab)
    } else if tag == 6 {
        Some(ResourceType::Font)
    } else if tag == 7 {
        Some(ResourceType::Cursor)
    } else if tag == 8 {
        Some(ResourceType::Patch)
    } else if tag == 9 {
        Some(ResourceType::Palette)
    } else if tag == 10 {
        Some(ResourceType::Message)
    } else if tag == 11 {
        Some(ResourceType::Heap)
    } else {
        None
    }
}

/// Tags round-trip: decoding the tag of a type gives the type back.
pub proof fn lemma_tag_round_trip(t: ResourceType)
    ensures
        spec_type_of_tag(spec_tag_of(t)) == Some(t),
{
}

/// Decoded tags round-trip: a tag that denotes a type is that type's tag.
pub proof fn lemma_type_of_tag_inverse(tag: u8)
    ensures
        spec_type_of_tag(tag) matches Some(t) ==> spec_tag_of(t) == tag,
{
}

impl ResourceType {
    /// The tag byte under which this type is stored.
    pub fn to_tag(self) -> (r: u8)
        ensures
            r == spec_tag_of(self),
    {
        match self {
            ResourceType::View => 0,
            ResourceType::Pic => 1,
            ResourceType::Script => 2,
            ResourceType::Text => 3,
            ResourceType::Sound => 4,
            ResourceType::Vocab => 5,
            ResourceType::Font => 6,
            ResourceType::Cursor => 7,
            ResourceType::Patch => 8,
            ResourceType::Palette => 9,
            ResourceType::Message => 10,
            ResourceType::Heap => 11,
        }
    }

    /// The type a stored tag byte denotes, or `None` for an out-of-range tag.
    pub fn from_tag(tag: u8) -> (r: Option<ResourceType>)
        ensures
            r == spec_type_of_tag(tag),
    {
        if tag == 0 {
            Some(ResourceType::View)
        } else if tag == 1 {
            Some(ResourceType::Pic)
        } else if tag == 2 {
            Some(ResourceType::Script)
        } else if tag == 3 {
            Some(ResourceType::Text)
        } else if tag == 4 {
            Some(ResourceType::Sound)
        } else if tag == 5 {
            Some(ResourceType::Vocab)
        } else if tag == 6 {
            Some(ResourceType::Font)
        } else if tag == 7 {
            Some(ResourceType::Cursor)
        } else if tag == 8 {
            Some(ResourceType::Patch)
        } else if tag == 9 {
            Some(ResourceType::Palette)
        } else if tag == 10 {
            Some(ResourceType::Message)
        } else if tag == 11 {
            Some(ResourceType::Heap)
        } else {
            None
        }
    }
}

/// Identifies one resource within an archive: its type and its number.
#[derive(Debug, Clone, Copy, PartialEq, Eq, Structural)]
pub struct ResourceId {
    pub res_type: ResourceType,
    pub res_num: u16,
}

/// Ordering of resource identifiers as enumerated by the map file:
/// ascending by type tag, then by number.
pub open spec fn spec_id_lt(a: ResourceId, b: ResourceId) -> bool {
    spec_tag_of(a.res_type) < spec_tag_of(b.res_type) || (spec_tag_of(a.res_type) == spec_tag_of(
        b.res_type,
    ) && a.res_num < b.res_num)
}

impl ResourceId {
    pub fn new(res_type: ResourceType, res_num: u16) -> (r: ResourceId)
        ensures
            r == (ResourceId { res_type, res_num }),
    {
        ResourceId { res_type, res_num }
    }
}

/// The map file's ordering is strict: two distinct identifiers always compare,
/// and an identifier never precedes itself.
pub proof fn lemma_id_lt_strict(a: ResourceId, b: ResourceId)
    ensures
        spec_id_lt(a, b) ==> !spec_id_lt(b, a),
        spec_id_lt(a, b) ==> a != b,
        !spec_id_lt(a, b) && !spec_id_lt(b, a) ==> a == b,
{
    lemma_tag_round_trip(a.res_type);
    lemma_tag_round_trip(b.res_type);
}

} // verus!
