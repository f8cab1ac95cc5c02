use dirsync::{
    deserialize_file_timestamps, deserialize_other_nodes, serialize_file_timestamps,
    serialize_other_nodes, FileStateMap, PeerRegistry, SyncError,
};

fn registry_of(addrs: &[&str]) -> PeerRegistry {
    let mut r = PeerRegistry::new();
    for a in addrs {
        r.insert(a.to_string());
    }
    r
}

fn sorted(r: &PeerRegistry) -> Vec<String> {
    let mut v = r.addresses();
    v.sort();
    v
}

#[test]
fn peers_encode_with_leading_delimiters() {
    let r = registry_of(&["127.0.0.1:9000", "[::1]:9001"]);
    assert_eq!(serialize_other_nodes(&r), "|127.0.0.1:9000|[::1]:9001");
}

#[test]
fn empty_peer_set_encodes_to_empty_text() {
    assert_eq!(serialize_other_nodes(&PeerRegistry::new()), "");
    assert_eq!(deserialize_other_nodes("").len(), 0);
}

#[test]
fn peers_round_trip_on_concrete_set() {
    let r = registry_of(&["a:1", "b:2", "[fe80::1]:3"]);
    let back = deserialize_other_nodes(&serialize_other_nodes(&r));
    assert_eq!(sorted(&back), sorted(&r));
}

#[test]
fn peer_decoding_skips_empty_segments_and_duplicates() {
    let r = deserialize_other_nodes("||a:1||b:2|a:1|");
    assert_eq!(sorted(&r), vec!["a:1".to_string(), "b:2".to_string()]);
}

#[test]
fn timestamps_encode_path_tab_millis() {
    let mut m = FileStateMap::new();
    m.record_change("notes.txt".to_string(), 1500);
    m.record_change("dir/a.txt".to_string(), 0);
    assert_eq!(serialize_file_timestamps(&m), "|notes.txt\t1500|dir/a.txt\t0");
}

#[test]
fn timestamps_round_trip_on_concrete_map() {
    let mut m = FileStateMap::new();
    m.record_change("x/y.txt".to_string(), 1_700_000_000_123);
    m.record_change("z".to_string(), u64::MAX);
    let back = deserialize_file_timestamps(&serialize_file_timestamps(&m)).unwrap();
    assert_eq!(back.len(), 2);
    assert_eq!(back.get(&"x/y.txt".to_string()), Some(1_700_000_000_123));
    assert_eq!(back.get(&"z".to_string()), Some(u64::MAX));
}

#[test]
fn timestamp_decoding_of_empty_text_is_empty_map() {
    let m = deserialize_file_timestamps("").unwrap();
    assert_eq!(m.len(), 0);
}

#[test]
fn later_timestamp_entry_replaces_earlier() {
    let m = deserialize_file_timestamps("|a\t1|a\t2").unwrap();
    assert_eq!(m.len(), 1);
    assert_eq!(m.get(&"a".to_string()), Some(2));
}

#[test]
fn non_numeric_timestamp_is_malformed() {
    assert_eq!(
        deserialize_file_timestamps("|a\tabc").err(),
        Some(SyncError::MalformedWireData)
    );
    assert_eq!(deserialize_file_timestamps("|a\t").err(), Some(SyncError::MalformedWireData));
    assert_eq!(deserialize_file_timestamps("|a\t-1").err(), Some(SyncError::MalformedWireData));
}

#[test]
fn entry_without_separator_is_malformed() {
    assert_eq!(deserialize_file_timestamps("|a").err(), Some(SyncError::MalformedWireData));
    assert_eq!(
        deserialize_file_timestamps("|a\t1\t2").err(),
        Some(SyncError::MalformedWireData)
    );
}

#[test]
fn timestamp_beyond_u64_is_malformed() {
    assert_eq!(
        deserialize_file_timestamps("|a\t18446744073709551616").err(),
        Some(SyncError::MalformedWireData)
    );
    let m = deserialize_file_timestamps("|a\t18446744073709551615").unwrap();
    assert_eq!(m.get(&"a".to_string()), Some(u64::MAX));
}

#[test]
fn one_bad_entry_rejects_whole_payload() {
    assert_eq!(
        deserialize_file_timestamps("|a\t1|b\tx|c\t3").err(),
        Some(SyncError::MalformedWireData)
    );
}
