use filecache::digest;
use filecache::scan_entries;
use filecache::resolve;
use filecache::CacheStore;
use filecache::ChangeEvent;
use filecache::FileInfo;
use filecache::RawKind;
use filecache::ReadOutcome;
use filecache::Snapshot;
use filecache::event::normalize;

fn seeded_store(files: Vec<(&str, &[u8])>) -> CacheStore {
    let files: Vec<(String, Vec<u8>)> =
        files.into_iter().map(|(p, c)| (p.to_string(), c.to_vec())).collect();
    let snap = scan_entries("www", files);
    CacheStore::init("www".to_string(), snap)
}

#[test]
fn serves_the_index_for_the_root_path() {
    let store = seeded_store(vec![("www/index.html", b"hello")]);
    let e = resolve(store.current(), "/").expect("index must resolve");
    assert_eq!(e.path, "/index.html");
    assert_eq!(e.content, b"hello");
    assert_eq!(e.hash, digest(b"hello"));
}

#[test]
fn created_file_becomes_resolvable_with_its_fingerprint() {
    let mut store = seeded_store(vec![]);
    assert!(resolve(store.current(), "/a.txt").is_none());
    let published = store.apply(
        ChangeEvent::Created { path: "www/a.txt".to_string() },
        ReadOutcome::Content { bytes: b"x".to_vec() },
    );
    assert!(published);
    let e = resolve(store.current(), "/a.txt").expect("created file must resolve");
    assert_eq!(e.content, b"x");
    assert_eq!(e.hash, digest(b"x"));
}

#[test]
fn removal_then_lookup_finds_nothing() {
    let mut store = seeded_store(vec![("www/a.txt", b"x")]);
    let published = store.apply(
        ChangeEvent::Removed { path: "www/a.txt".to_string() },
        ReadOutcome::Vanished,
    );
    assert!(published);
    assert!(resolve(store.current(), "/a.txt").is_none());
}

#[test]
fn recreation_after_removal_restores_a_hit_with_the_new_fingerprint() {
    let mut store = seeded_store(vec![("www/a.txt", b"old")]);
    store.apply(
        ChangeEvent::Removed { path: "www/a.txt".to_string() },
        ReadOutcome::Vanished,
    );
    assert!(resolve(store.current(), "/a.txt").is_none());
    store.apply(
        ChangeEvent::Created { path: "www/a.txt".to_string() },
        ReadOutcome::Content { bytes: b"new".to_vec() },
    );
    let e = resolve(store.current(), "/a.txt").expect("recreated file must resolve");
    assert_eq!(e.content, b"new");
    assert_eq!(e.hash, digest(b"new"));
    assert_ne!(e.hash, digest(b"old"));
}

#[test]
fn duplicate_modification_publishes_no_new_snapshot() {
    let mut store = seeded_store(vec![]);
    let first = store.apply(
        ChangeEvent::Modified { path: "www/a.txt".to_string() },
        ReadOutcome::Content { bytes: b"x".to_vec() },
    );
    let second = store.apply(
        ChangeEvent::Modified { path: "www/a.txt".to_string() },
        ReadOutcome::Content { bytes: b"x".to_vec() },
    );
    assert!(first);
    assert!(!second);
    let e = resolve(store.current(), "/a.txt").expect("file must still resolve");
    assert_eq!(e.content, b"x");
}

#[test]
fn vanished_file_is_treated_as_removed_without_a_fault() {
    let mut store = seeded_store(vec![("www/a.txt", b"x")]);
    let published = store.apply(
        ChangeEvent::Modified { path: "www/a.txt".to_string() },
        ReadOutcome::Vanished,
    );
    assert!(published);
    assert!(resolve(store.current(), "/a.txt").is_none());

    let again = store.apply(
        ChangeEvent::Modified { path: "www/a.txt".to_string() },
        ReadOutcome::Vanished,
    );
    assert!(!again);
}

#[test]
fn unreadable_file_leaves_the_prior_snapshot_unchanged() {
    let mut store = seeded_store(vec![("www/a.txt", b"x")]);
    let published = store.apply(
        ChangeEvent::Modified { path: "www/a.txt".to_string() },
        ReadOutcome::Unreadable,
    );
    assert!(!published);
    let e = resolve(store.current(), "/a.txt").expect("entry must survive");
    assert_eq!(e.content, b"x");
}

#[test]
fn readers_between_updates_see_the_identical_snapshot() {
    let store = seeded_store(vec![("www/a.txt", b"x"), ("www/b.txt", b"y")]);
    let r1 = resolve(store.current(), "/a.txt").cloned().expect("first reader");
    let r2 = resolve(store.current(), "/a.txt").cloned().expect("second reader");
    assert_eq!(r1.path, r2.path);
    assert_eq!(r1.hash, r2.hash);
    assert_eq!(r1.content, r2.content);
}

#[test]
fn events_for_a_path_outside_the_root_use_the_whole_path_as_key() {
    let mut store = seeded_store(vec![]);
    store.apply(
        ChangeEvent::Created { path: "/etc/motd".to_string() },
        ReadOutcome::Content { bytes: b"m".to_vec() },
    );
    let e = resolve(store.current(), "/etc/motd").expect("entry must resolve");
    assert_eq!(e.content, b"m");
}

#[test]
fn snapshot_lookup_and_removal_work_key_by_key() {
    let mut snap = Snapshot::empty();
    snap.upsert(FileInfo::new("/a".to_string(), b"1".to_vec()));
    snap.upsert(FileInfo::new("/b".to_string(), b"2".to_vec()));
    assert_eq!(snap.lookup(&"/a".to_string()).unwrap().content, b"1");
    assert_eq!(snap.lookup(&"/b".to_string()).unwrap().content, b"2");
    assert!(snap.lookup(&"/c".to_string()).is_none());

    snap.upsert(FileInfo::new("/a".to_string(), b"3".to_vec()));
    assert_eq!(snap.lookup(&"/a".to_string()).unwrap().content, b"3");

    assert!(snap.remove_key(&"/a".to_string()));
    assert!(snap.lookup(&"/a".to_string()).is_none());
    assert!(!snap.remove_key(&"/a".to_string()));
}

#[test]
fn entry_fingerprint_is_the_digest_of_its_content() {
    let e = FileInfo::new("/a".to_string(), b"payload".to_vec());
    assert_eq!(e.hash, digest(b"payload"));
    assert_eq!(e.path, "/a");
    assert_eq!(e.content, b"payload");
}

#[test]
fn raw_file_events_collapse_to_modified_or_removed() {
    match normalize(RawKind::Create, "p".to_string(), false) {
        Some(ChangeEvent::Modified { path }) => assert_eq!(path, "p"),
        _ => panic!("a create must become a modification"),
    }
    match normalize(RawKind::Write, "p".to_string(), false) {
        Some(ChangeEvent::Modified { path }) => assert_eq!(path, "p"),
        _ => panic!("a write must become a modification"),
    }
    match normalize(RawKind::Remove, "p".to_string(), false) {
        Some(ChangeEvent::Removed { path }) => assert_eq!(path, "p"),
        _ => panic!("a delete must become a removal"),
    }
    match normalize(RawKind::RenameAway, "p".to_string(), false) {
        Some(ChangeEvent::Removed { path }) => assert_eq!(path, "p"),
        _ => panic!("a rename away must become a removal"),
    }
}

#[test]
fn directory_and_unclassified_events_are_filtered_out() {
    assert!(normalize(RawKind::Create, "d".to_string(), true).is_none());
    assert!(normalize(RawKind::Remove, "d".to_string(), true).is_none());
    assert!(normalize(RawKind::Other, "p".to_string(), false).is_none());
}

#[test]
fn scanning_an_empty_walk_seeds_an_empty_store() {
    let store = seeded_store(vec![]);
    assert!(resolve(store.current(), "/").is_none());
    assert!(resolve(store.current(), "/anything").is_none());
}

#[test]
fn a_later_scanned_duplicate_key_overwrites_an_earlier_one() {
    let store = seeded_store(vec![("www/a", b"first"), ("www/a", b"second")]);
    let e = resolve(store.current(), "/a").expect("entry must resolve");
    assert_eq!(e.content, b"second");
}
