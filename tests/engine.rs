use dirsync::{
    answer_greeting, deserialize_other_nodes, greet_url, handle_file_change, peer_address,
    publish_targets, record_greet_reply, request_target, resolve_change, serialize_other_nodes,
    FileStateMap, PeerRegistry, SyncError,
};

#[test]
fn greet_reply_excludes_caller_and_registry_gains_it() {
    let mut b = PeerRegistry::new();
    b.insert("10.0.0.5:7000".to_string());
    let a = "10.0.0.9:7001".to_string();
    let reply = answer_greeting(&mut b, a.clone());
    assert_eq!(reply, "|10.0.0.5:7000");
    assert!(!deserialize_other_nodes(&reply).contains(&a));
    assert!(b.contains(&a));
    assert_eq!(b.len(), 2);
}

#[test]
fn two_greets_from_same_address_leave_one_copy() {
    let mut a = PeerRegistry::new();
    let b = "192.168.1.2:9123".to_string();
    let first = answer_greeting(&mut a, b.clone());
    let second = answer_greeting(&mut a, b.clone());
    assert_eq!(first, "");
    assert_eq!(second, "|192.168.1.2:9123");
    assert_eq!(a.len(), 1);
    assert_eq!(a.addresses(), vec![b]);
}

#[test]
fn merging_an_address_twice_is_merging_it_once() {
    let mut once = PeerRegistry::new();
    once.insert("x:1".to_string());
    let mut twice = once.snapshot();
    let extra = deserialize_other_nodes("|y:2");
    once.merge(&extra);
    twice.merge(&extra);
    twice.merge(&extra);
    assert_eq!(once.addresses(), twice.addresses());
    assert!(!twice.insert("y:2".to_string()));
    assert_eq!(twice.len(), 2);
}

#[test]
fn last_of_several_changes_wins() {
    let mut m = FileStateMap::new();
    for t in [5u64, 9, 3, 12] {
        m.record_change("a/b.txt".to_string(), t);
    }
    assert_eq!(m.get(&"a/b.txt".to_string()), Some(12));
    assert_eq!(m.len(), 1);
}

#[test]
fn peer_address_brackets_ipv6() {
    assert_eq!(peer_address("10.1.2.3", false, "9123"), "10.1.2.3:9123");
    assert_eq!(peer_address("::1", true, "9123"), "[::1]:9123");
}

#[test]
fn greet_url_names_port() {
    assert_eq!(greet_url("127.0.0.1:9000", "9001"), "http://127.0.0.1:9000/greet/9001");
}

#[test]
fn seed_reply_is_merged_with_seed() {
    let mut r = PeerRegistry::new();
    record_greet_reply(&mut r, "seed:1".to_string(), "|p:2|q:3");
    let mut v = r.addresses();
    v.sort();
    assert_eq!(v, vec!["p:2".to_string(), "q:3".to_string(), "seed:1".to_string()]);
}

#[test]
fn push_targets_form_encode_the_path() {
    let mut r = PeerRegistry::new();
    r.insert("h:1".to_string());
    r.insert("[::1]:2".to_string());
    let urls = publish_targets(&r, "dir/my notes.txt");
    assert_eq!(
        urls,
        vec![
            "http://h:1/file/dir%2Fmy+notes.txt".to_string(),
            "http://[::1]:2/file/dir%2Fmy+notes.txt".to_string(),
        ]
    );
}

#[test]
fn no_peers_no_pushes() {
    assert!(publish_targets(&PeerRegistry::new(), "a.txt").is_empty());
}

#[test]
fn request_target_decodes_and_joins() {
    let (rel, full) = request_target("/b", "dir%2Fmy+notes.txt").unwrap();
    assert_eq!(rel, "dir/my notes.txt");
    assert_eq!(full, "/b/dir/my notes.txt");
}

#[test]
fn request_without_path_is_not_found() {
    assert_eq!(request_target("/b", ""), None);
}

#[test]
fn change_under_root_resolves() {
    assert_eq!(resolve_change("/a", "/a/sub/notes.txt"), Ok("sub/notes.txt".to_string()));
}

#[test]
fn change_outside_root_is_refused() {
    assert_eq!(resolve_change("/a", "/x/y.txt"), Err(SyncError::PathResolution));
    assert_eq!(resolve_change("/a/b", "/a"), Err(SyncError::PathResolution));
    assert_eq!(resolve_change("/a", "/a"), Err(SyncError::PathResolution));
    assert_eq!(resolve_change("/a", "rel.txt"), Err(SyncError::PathResolution));
}

#[test]
fn change_event_records_time_only_when_resolved() {
    let mut m = FileStateMap::new();
    assert_eq!(handle_file_change("/a", &mut m, "/a/n.txt", 42), Ok("n.txt".to_string()));
    assert_eq!(m.get(&"n.txt".to_string()), Some(42));
    assert_eq!(
        handle_file_change("/a", &mut m, "/elsewhere/n.txt", 43),
        Err(SyncError::PathResolution)
    );
    assert_eq!(m.len(), 1);
    assert_eq!(m.get(&"n.txt".to_string()), Some(42));
}

#[test]
fn two_nodes_propagate_a_new_file() {
    // node X serves /a on port 9001; node Y serves /b on port 9002, seeded with X
    let mut x_peers = PeerRegistry::new();
    let mut x_files = FileStateMap::new();
    let mut y_peers = PeerRegistry::new();
    let mut y_files = FileStateMap::new();

    assert_eq!(greet_url("127.0.0.1:9001", "9002"), "http://127.0.0.1:9001/greet/9002");
    let y_addr = peer_address("127.0.0.1", false, "9002");
    let reply = answer_greeting(&mut x_peers, y_addr.clone());
    record_greet_reply(&mut y_peers, "127.0.0.1:9001".to_string(), &reply);
    assert!(y_peers.contains(&"127.0.0.1:9001".to_string()));
    assert!(x_peers.contains(&y_addr));

    let rel = handle_file_change("/a", &mut x_files, "/a/notes.txt", 1000).unwrap();
    assert_eq!(rel, "notes.txt");
    let urls = publish_targets(&x_peers, &rel);
    assert_eq!(urls, vec!["http://127.0.0.1:9002/file/notes.txt".to_string()]);

    let (got, full) = request_target("/b", "notes.txt").unwrap();
    assert_eq!(full, "/b/notes.txt");
    y_files.record_change(got, 2000);
    assert_eq!(y_files.get(&"notes.txt".to_string()), Some(2000));
    assert_eq!(serialize_other_nodes(&y_peers), "|127.0.0.1:9001");
}
