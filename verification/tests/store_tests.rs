use resbook::datafile::{parse_header, DataFile, RawContents};
use resbook::error::{FormatError, PatchError, StoreError};
use resbook::mapfile::ResourceLocations;
use resbook::patch::{dec_string, patch_contents, patch_file_name};
use resbook::restype::{ResourceId, ResourceType};
use resbook::store::ResourceStore;

fn map_record(tag: u8, num: u16, offset: u32) -> Vec<u8> {
    let mut r = vec![tag];
    r.extend_from_slice(&num.to_le_bytes());
    r.extend_from_slice(&offset.to_le_bytes());
    r
}

fn trailer() -> Vec<u8> {
    vec![0xFF; 7]
}

fn data_record(tag: u8, decoded_len: u16, stored_len: u16, comp: u8, payload: &[u8]) -> Vec<u8> {
    let mut r = vec![tag];
    r.extend_from_slice(&decoded_len.to_le_bytes());
    r.extend_from_slice(&stored_len.to_le_bytes());
    r.push(comp);
    r.extend_from_slice(payload);
    r
}

/// A two-resource archive: Script 42 and Heap 7.
fn sample_archive() -> (Vec<u8>, Vec<u8>) {
    let mut data = Vec::new();
    let script_off = data.len() as u32;
    data.extend_from_slice(&data_record(2, 4, 4, 0, &[0xAA, 0xBB, 0xCC, 0xDD]));
    let heap_off = data.len() as u32;
    data.extend_from_slice(&data_record(11, 2, 2, 0, &[0x01, 0x02]));
    let mut map = Vec::new();
    map.extend_from_slice(&map_record(2, 42, script_off));
    map.extend_from_slice(&map_record(11, 7, heap_off));
    map.extend_from_slice(&trailer());
    (map, data)
}

#[test]
fn parses_map_file() {
    let (map, _) = sample_archive();
    let locs = ResourceLocations::read_from(&map).unwrap();
    let all = locs.locations();
    assert_eq!(all.len(), 2);
    assert_eq!(all[0].id, ResourceId::new(ResourceType::Script, 42));
    assert_eq!(all[1].id, ResourceId::new(ResourceType::Heap, 7));
    assert_eq!(all[0].offset, 0);
}

#[test]
fn empty_map_is_just_a_trailer() {
    let locs = ResourceLocations::read_from(&trailer()).unwrap();
    assert_eq!(locs.locations().len(), 0);
}

#[test]
fn truncated_map_is_rejected() {
    let mut map = map_record(2, 42, 0);
    map.truncate(5);
    assert!(matches!(
        ResourceLocations::read_from(&map),
        Err(FormatError::Truncated)
    ));
    assert!(matches!(
        ResourceLocations::read_from(&[]),
        Err(FormatError::Truncated)
    ));
}

#[test]
fn missing_trailer_is_rejected() {
    // A valid record but no trailer at all.
    let map = map_record(2, 42, 0);
    assert!(matches!(
        ResourceLocations::read_from(&map),
        Err(FormatError::Truncated)
    ));
}

#[test]
fn malformed_trailer_is_rejected() {
    let mut map = map_record(2, 42, 0);
    let mut bad = vec![0xFF; 7];
    bad[3] = 0;
    map.extend_from_slice(&bad);
    assert!(matches!(
        ResourceLocations::read_from(&map),
        Err(FormatError::BadTrailer)
    ));
    // Bytes after the trailer are also rejected.
    let mut map2 = trailer();
    map2.push(0);
    assert!(matches!(
        ResourceLocations::read_from(&map2),
        Err(FormatError::BadTrailer)
    ));
}

#[test]
fn out_of_range_type_tag_is_rejected() {
    let mut map = map_record(0x77, 1, 0);
    map.extend_from_slice(&trailer());
    assert!(matches!(
        ResourceLocations::read_from(&map),
        Err(FormatError::BadTypeTag)
    ));
}

#[test]
fn out_of_order_records_are_rejected() {
    let mut map = Vec::new();
    map.extend_from_slice(&map_record(11, 7, 0));
    map.extend_from_slice(&map_record(2, 42, 10));
    map.extend_from_slice(&trailer());
    assert!(matches!(
        ResourceLocations::read_from(&map),
        Err(FormatError::OutOfOrder)
    ));
    // Equal identifiers are out of order too: keys are unique.
    let mut map2 = Vec::new();
    map2.extend_from_slice(&map_record(2, 42, 0));
    map2.extend_from_slice(&map_record(2, 42, 10));
    map2.extend_from_slice(&trailer());
    assert!(matches!(
        ResourceLocations::read_from(&map2),
        Err(FormatError::OutOfOrder)
    ));
}

#[test]
fn get_location_finds_present_and_rejects_absent() {
    let (map, _) = sample_archive();
    let locs = ResourceLocations::read_from(&map).unwrap();
    let loc = locs
        .get_location(&ResourceId::new(ResourceType::Script, 42))
        .unwrap();
    assert_eq!(loc.id.res_num, 42);
    assert!(locs
        .get_location(&ResourceId::new(ResourceType::Script, 43))
        .is_none());
}

#[test]
fn read_resource_returns_queried_type() {
    // The content's declared type always equals the query's type.
    let (map, data) = sample_archive();
    let store = ResourceStore::from_bytes(&map, data).unwrap();
    let contents = store.read_resource(ResourceType::Script, 42).unwrap();
    assert_eq!(contents.res_type(), ResourceType::Script);
    assert_eq!(contents.data(), &vec![0xAA, 0xBB, 0xCC, 0xDD]);
    let heap = store.read_resource(ResourceType::Heap, 7).unwrap();
    assert_eq!(heap.res_type(), ResourceType::Heap);
}

#[test]
fn read_resource_absent_pair_is_a_lookup_error() {
    let (map, data) = sample_archive();
    let store = ResourceStore::from_bytes(&map, data).unwrap();
    assert!(matches!(
        store.read_resource(ResourceType::Script, 99),
        Err(StoreError::Lookup)
    ));
    // Same number under another type is a distinct identifier.
    assert!(matches!(
        store.read_resource(ResourceType::View, 42),
        Err(StoreError::Lookup)
    ));
}

#[test]
fn stored_type_must_match_the_index_entry() {
    // The map says Script but the data record says Heap.
    let data = data_record(11, 1, 1, 0, &[0x55]);
    let mut map = Vec::new();
    map.extend_from_slice(&map_record(2, 1, 0));
    map.extend_from_slice(&trailer());
    let store = ResourceStore::from_bytes(&map, data).unwrap();
    assert!(matches!(
        store.read_resource(ResourceType::Script, 1),
        Err(StoreError::Format(FormatError::TypeMismatch))
    ));
}

#[test]
fn unknown_compression_tag_is_rejected() {
    let data = data_record(2, 1, 1, 9, &[0x55]);
    let mut map = Vec::new();
    map.extend_from_slice(&map_record(2, 1, 0));
    map.extend_from_slice(&trailer());
    let store = ResourceStore::from_bytes(&map, data).unwrap();
    assert!(matches!(
        store.read_resource(ResourceType::Script, 1),
        Err(StoreError::Format(FormatError::UnknownCompression))
    ));
}

#[test]
fn declared_length_mismatch_is_rejected() {
    // Header declares 3 decoded bytes but stores 1, uncompressed.
    let data = data_record(2, 3, 1, 0, &[0x55]);
    let mut map = Vec::new();
    map.extend_from_slice(&map_record(2, 1, 0));
    map.extend_from_slice(&trailer());
    let store = ResourceStore::from_bytes(&map, data).unwrap();
    assert!(matches!(
        store.read_resource(ResourceType::Script, 1),
        Err(StoreError::Format(FormatError::SizeMismatch))
    ));
}

#[test]
fn offset_outside_data_file_is_rejected() {
    let data = data_record(2, 1, 1, 0, &[0x55]);
    let mut map = Vec::new();
    map.extend_from_slice(&map_record(2, 1, 500));
    map.extend_from_slice(&trailer());
    let store = ResourceStore::from_bytes(&map, data).unwrap();
    assert!(matches!(
        store.read_resource(ResourceType::Script, 1),
        Err(StoreError::Format(FormatError::OffsetOutOfRange))
    ));
}

#[test]
fn decoding_raw_contents_twice_is_identical() {
    // The decode step depends on the raw record's value alone.
    let (map, data) = sample_archive();
    let store = ResourceStore::from_bytes(&map, data).unwrap();
    let raw = store.read_raw_resource(ResourceType::Script, 42).unwrap();
    let once = raw.decode().unwrap();
    let twice = raw.decode().unwrap();
    assert_eq!(once.data(), twice.data());
    assert_eq!(once.res_type(), twice.res_type());
}

#[test]
fn enumeration_isolates_one_corrupt_record() {
    // Three indexed records; the middle one points past the end of the data
    // file. Enumeration yields two successes and exactly one failure, at the
    // corrupt record's own position.
    let mut data = Vec::new();
    let a_off = data.len() as u32;
    data.extend_from_slice(&data_record(2, 1, 1, 0, &[0x11]));
    let c_off = data.len() as u32;
    data.extend_from_slice(&data_record(11, 1, 1, 0, &[0x33]));
    let mut map = Vec::new();
    map.extend_from_slice(&map_record(2, 1, a_off));
    map.extend_from_slice(&map_record(2, 2, 9999));
    map.extend_from_slice(&map_record(11, 1, c_off));
    map.extend_from_slice(&trailer());
    let store = ResourceStore::from_bytes(&map, data).unwrap();
    let items = store.read_raw_contents();
    assert_eq!(items.len(), 3);
    assert!(items[0].is_ok());
    assert!(matches!(items[1], Err(FormatError::OffsetOutOfRange)));
    assert!(items[2].is_ok());
    assert_eq!(items[0].as_ref().unwrap().payload, vec![0x11]);
    assert_eq!(items[2].as_ref().unwrap().payload, vec![0x33]);
}

#[test]
fn truncated_data_record_is_an_isolated_failure() {
    // The record's header promises more payload than the file holds.
    let data = data_record(2, 9, 9, 0, &[0x55]);
    let mut map = Vec::new();
    map.extend_from_slice(&map_record(2, 1, 0));
    map.extend_from_slice(&trailer());
    let store = ResourceStore::from_bytes(&map, data).unwrap();
    let items = store.read_raw_contents();
    assert_eq!(items.len(), 1);
    assert!(matches!(items[0], Err(FormatError::Truncated)));
}

#[test]
fn decimal_numerals() {
    assert_eq!(dec_string(0), "0");
    assert_eq!(dec_string(7), "7");
    assert_eq!(dec_string(42), "42");
    assert_eq!(dec_string(65535), "65535");
    assert_eq!(dec_string(1000), "1000");
}

#[test]
fn patch_file_for_script_42() {
    // Name is 42.SCR; contents are the type tag, a zero header size, then the
    // raw stored payload.
    let (map, data) = sample_archive();
    let store = ResourceStore::from_bytes(&map, data).unwrap();
    let raw = store.read_raw_resource(ResourceType::Script, 42).unwrap();
    let name = patch_file_name(ResourceType::Script, 42).unwrap();
    assert_eq!(name, "42.SCR");
    let bytes = patch_contents(ResourceType::Script, &raw).unwrap();
    assert_eq!(bytes[0], 2);
    assert_eq!(bytes[1], 0);
    assert_eq!(&bytes[2..], &[0xAA, 0xBB, 0xCC, 0xDD]);
}

#[test]
fn patch_file_for_heap_uses_hep_extension() {
    let name = patch_file_name(ResourceType::Heap, 7).unwrap();
    assert_eq!(name, "7.HEP");
}

#[test]
fn unsupported_patch_type_fails_before_any_output() {
    let (map, data) = sample_archive();
    let store = ResourceStore::from_bytes(&map, data).unwrap();
    let raw = store.read_raw_resource(ResourceType::Script, 42).unwrap();
    assert!(matches!(
        patch_file_name(ResourceType::View, 42),
        Err(PatchError::UnsupportedResourceType)
    ));
    assert!(matches!(
        patch_contents(ResourceType::Sound, &raw),
        Err(PatchError::UnsupportedResourceType)
    ));
}

#[test]
fn raw_contents_keep_stored_bytes_exactly() {
    // A compressed record reads raw without decoding.
    let data = data_record(2, 8, 3, 5, &[0x01, 0x02, 0x03]);
    let mut map = Vec::new();
    map.extend_from_slice(&map_record(2, 1, 0));
    map.extend_from_slice(&trailer());
    let df = DataFile::new(data);
    let locs = ResourceLocations::read_from(&map).unwrap();
    let loc = locs.locations()[0];
    let raw = df.read_raw_contents(&loc).unwrap();
    assert_eq!(raw.compression, 5);
    assert_eq!(raw.decoded_len, 8);
    assert_eq!(raw.stored_len, 3);
    assert_eq!(raw.payload, vec![0x01, 0x02, 0x03]);
    // Decoding it, though, is rejected: the tag is unrecognized.
    assert!(matches!(
        df.read_contents(&loc),
        Err(FormatError::UnknownCompression)
    ));
}

#[test]
fn decode_is_idempotent_on_its_own_output() {
    let (map, data) = sample_archive();
    let store = ResourceStore::from_bytes(&map, data).unwrap();
    let raw = store.read_raw_resource(ResourceType::Script, 42).unwrap();
    let once = raw.decode().unwrap();
    let rewrapped = RawContents {
        res_type: once.res_type,
        decoded_len: raw.decoded_len,
        stored_len: raw.stored_len,
        compression: 0,
        payload: once.data().clone(),
    };
    let twice = rewrapped.decode().unwrap();
    assert_eq!(twice.data(), once.data());
}

#[test]
fn parses_a_record_header_on_its_own() {
    // Six header bytes read at a record's offset are enough to learn the
    // payload's stored length, so a caller can read ranges, not whole files.
    let rec = data_record(2, 4, 3, 0, &[0x01, 0x02, 0x03]);
    let header = parse_header(&rec[..6]).unwrap();
    assert_eq!(header.res_type, ResourceType::Script);
    assert_eq!(header.decoded_len, 4);
    assert_eq!(header.stored_len, 3);
    assert_eq!(header.compression, 0);
    assert!(matches!(parse_header(&rec[..5]), Err(FormatError::Truncated)));
    let mut bad = rec.clone();
    bad[0] = 0x99;
    assert!(matches!(parse_header(&bad[..6]), Err(FormatError::BadTypeTag)));
}

#[test]
fn header_decoding_agrees_with_whole_record_reads() {
    let (map, data) = sample_archive();
    let store = ResourceStore::from_bytes(&map, data.clone()).unwrap();
    let loc = store
        .resource_locations
        .get_location(&ResourceId::new(ResourceType::Heap, 7))
        .unwrap();
    let off = loc.offset as usize;
    let header = parse_header(&data[off..off + 6]).unwrap();
    let raw = store.read_raw_resource(ResourceType::Heap, 7).unwrap();
    assert_eq!(header.res_type, raw.res_type);
    assert_eq!(header.decoded_len, raw.decoded_len);
    assert_eq!(header.stored_len, raw.stored_len);
    assert_eq!(header.compression, raw.compression);
    // The payload is exactly the stored_len bytes after the header.
    assert_eq!(&data[off + 6..off + 6 + header.stored_len as usize], &raw.payload[..]);
}
