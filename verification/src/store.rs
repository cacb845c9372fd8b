//! The resource store: the façade combining the map file index and the data
//! file reader for one archive. Two stores exist side by side per archive
//! root — a main store and a message store — differing only in the
//! well-known file names their bytes are read from, which is the caller's
//! concern; the store itself works on the two files' bytes.

use vstd::prelude::*;

use crate::datafile::{
    spec_read_contents, spec_read_raw, Contents, ContentsView, DataFile, RawContents, RawView,
};
use crate::error::{FormatError, StoreError};
use crate::mapfile::{spec_parse_map, Location, ResourceLocations};
use crate::restype::{ResourceId, ResourceType};

verus! {

pub struct ResourceStore {
    pub resource_locations: ResourceLocations,
    pub data_file: DataFile,
}

impl ResourceStore {
    pub open spec fn wf(&self) -> bool {
        self.resource_locations.wf()
    }

    /// The index position holding an identifier, when the identifier is
    /// present. Under `wf` that position is unique.
    pub open spec fn spec_index_of(&self, id: ResourceId) -> int {
        choose|i: int|
            0 <= i < self.resource_locations@.len() && self.resource_locations@[i].id == id
    }

    /// The location stored for an identifier that is present in the index.
    pub open spec fn spec_location_of(&self, id: ResourceId) -> Location {
        self.resource_locations@[self.spec_index_of(id)]
    }

    /// Under `wf`, an identifier appears at no two index positions.
    pub proof fn lemma_index_unique(&self, i: int, j: int)
        requires
            self.wf(),
            0 <= i < self.resource_locations@.len(),
            0 <= j < self.resource_locations@.len(),
            self.resource_locations@[i].id == self.resource_locations@[j].id,
        ensures
            i == j,
    {
        if i < j {
            crate::restype::lemma_id_lt_strict(
                self.resource_locations@[i].id,
                self.resource_locations@[j].id,
            );
        } else if j < i {
            crate::restype::lemma_id_lt_strict(
                self.resource_locations@[j].id,
                self.resource_locations@[i].id,
            );
        }
    }

    /// Composes a store from the bytes of its two files: the map file is
    /// parsed fully; the data file's bytes are kept for addressed reads.
    pub fn from_bytes(map_bytes: &[u8], data_bytes: Vec<u8>) -> (r: Result<
        ResourceStore,
        FormatError,
    >)
        ensures
            match r {
                Ok(s) => spec_parse_map(map_bytes@, None) == Ok::<Seq<Location>, FormatError>(
                    s.resource_locations@,
                ) && s.wf() && s.data_file.data@ == data_bytes@,
                Err(e) => spec_parse_map(map_bytes@, None) == Err::<Seq<Location>, FormatError>(e),
            },
    {
        let resource_locations = match ResourceLocations::read_from(map_bytes) {
            Ok(rl) => rl,
            Err(e) => {
                return Err(e);
            },
        };
        Ok(ResourceStore { resource_locations, data_file: DataFile::new(data_bytes) })
    }

    /// Reads every indexed location raw, one fallible item per location, in
    /// index order: a single bad record yields one failed item at its own
    /// position, never an aborted enumeration.
    pub fn read_raw_contents(&self) -> (r: Vec<Result<RawContents, FormatError>>)
        ensures
            r@.len() == self.resource_locations@.len(),
            forall|i: int|
                0 <= i < r@.len() ==> match #[trigger] r@[i] {
                    Ok(raw) => spec_read_raw(self.data_file.data@, self.resource_locations@[i])
                        == Ok::<RawView, FormatError>(raw@),
                    Err(e) => spec_read_raw(self.data_file.data@, self.resource_locations@[i])
                        == Err::<RawView, FormatError>(e),
                },
    {
        let locs = self.resource_locations.locations();
        let mut out: Vec<Result<RawContents, FormatError>> = Vec::new();
        let mut i: usize = 0;
        while i < locs.len()
            invariant
                locs@ == self.resource_locations@,
                i <= locs@.len(),
                out@.len() == i,
                forall|j: int|
                    0 <= j < i ==> match #[trigger] out@[j] {
                        Ok(raw) => spec_read_raw(self.data_file.data@, self.resource_locations@[j])
                            == Ok::<RawView, FormatError>(raw@),
                        Err(e) => spec_read_raw(self.data_file.data@, self.resource_locations@[j])
                            == Err::<RawView, FormatError>(e),
                    },
            decreases locs@.len() - i,
        {
            let item = self.data_file.read_raw_contents(&locs[i]);
            out.push(item);
            i = i + 1;
        }
        out
    }

    /// Looks up one resource by type and number and reads it decoded.
    /// Fails with `Lookup` exactly when the pair is absent from the index;
    /// otherwise reads the indexed location, and the content's declared type
    /// equals the queried type whenever the read succeeds.
    pub fn read_resource(&self, res_type: ResourceType, res_num: u16) -> (r: Result<
        Contents,
        StoreError,
    >)
        requires
            self.wf(),
        ensures
            match r {
                Ok(c) => self.resource_locations.spec_contains(
                    ResourceId { res_type, res_num },
                ) && spec_read_contents(
                    self.data_file.data@,
                    self.spec_location_of(ResourceId { res_type, res_num }),
                ) == Ok::<ContentsView, FormatError>(c@) && c@.res_type == res_type,
                Err(StoreError::Lookup) => !self.resource_locations.spec_contains(
                    ResourceId { res_type, res_num },
                ),
                Err(StoreError::Format(e)) => self.resource_locations.spec_contains(
                    ResourceId { res_type, res_num },
                ) && spec_read_contents(
                    self.data_file.data@,
                    self.spec_location_of(ResourceId { res_type, res_num }),
                ) == Err::<ContentsView, FormatError>(e),
            },
    {
        let id = ResourceId::new(res_type, res_num);
        let loc = match self.resource_locations.get_location(&id) {
            None => {
                return Err(StoreError::Lookup);
            },
            Some(loc) => loc,
        };
        proof {
            let i = choose|i: int|
                0 <= i < self.resource_locations@.len() && self.resource_locations@[i] == loc;
            self.lemma_index_unique(i, self.spec_index_of(id));
        }
        match self.data_file.read_contents(&loc) {
            Ok(c) => Ok(c),
            Err(e) => Err(StoreError::Format(e)),
        }
    }

    /// Looks up one resource by type and number and reads it raw, for patch
    /// emission: the payload is exactly as stored, never re-decoded. The
    /// stored type must still match the queried type.
    pub fn read_raw_resource(&self, res_type: ResourceType, res_num: u16) -> (r: Result<
        RawContents,
        StoreError,
    >)
        requires
            self.wf(),
        ensures
            match r {
                Ok(raw) => self.resource_locations.spec_contains(
                    ResourceId { res_type, res_num },
                ) && spec_read_raw(
                    self.data_file.data@,
                    self.spec_location_of(ResourceId { res_type, res_num }),
                ) == Ok::<RawView, FormatError>(raw@) && raw@.res_type == res_type,
                Err(StoreError::Lookup) => !self.resource_locations.spec_contains(
                    ResourceId { res_type, res_num },
                ),
                Err(StoreError::Format(e)) => self.resource_locations.spec_contains(
                    ResourceId { res_type, res_num },
                ) && match spec_read_raw(
                    self.data_file.data@,
                    self.spec_location_of(ResourceId { res_type, res_num }),
                ) {
                    Ok(raw) => e == FormatError::TypeMismatch && raw.res_type != res_type,
                    Err(e2) => e == e2,
                },
            },
    {
        let id = ResourceId::new(res_type, res_num);
        let loc = match self.resource_locations.get_location(&id) {
            None => {
                return Err(StoreError::Lookup);
            },
            Some(loc) => loc,
        };
        proof {
            let i = choose|i: int|
                0 <= i < self.resource_locations@.len() && self.resource_locations@[i] == loc;
            self.lemma_index_unique(i, self.spec_index_of(id));
        }
        let raw = match self.data_file.read_raw_contents(&loc) {
            Ok(raw) => raw,
            Err(e) => {
                return Err(StoreError::Format(e));
            },
        };
        if raw.res_type.to_tag() != res_type.to_tag() {
            proof {
                crate::restype::lemma_tag_round_trip(raw.res_type);
                crate::restype::lemma_tag_round_trip(res_type);
            }
            return Err(StoreError::Format(FormatError::TypeMismatch));
        }
        proof {
            crate::restype::lemma_tag_round_trip(raw.res_type);
            crate::restype::lemma_tag_round_trip(res_type);
        }
        Ok(raw)
    }
}

} // verus!
