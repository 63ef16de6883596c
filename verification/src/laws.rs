//! The store's general guarantees, written down and proved: snapshot
//! stability between updates, idempotence of duplicate events, removal
//! followed by lookup, and the entry invariant lifted to whole mappings.

use vstd::prelude::*;
use crate::event::ChangeEvent;
use crate::event::ReadOutcome;
use crate::event::event_path;
use crate::hashing::digest_of;
use crate::paths::key_of;
use crate::paths::request_key;
use crate::store::CacheStore;
use crate::store::Snapshot;
use crate::store::apply_map;
use crate::store::apply_publishes;
use crate::store::scan_map;
use crate::store::upsert_map;

verus! {

/// Law: between two successive `apply` calls the store value is fixed,
/// and `current` returns exactly the published snapshot, so any two
/// readers in that window — however many run at once — observe the
/// identical snapshot value.
pub proof fn lemma_snapshot_stability(store: CacheStore, r1: Snapshot, r2: Snapshot)
    requires
        r1 == store.snapshot_spec(),
        r2 == store.snapshot_spec(),
    ensures
        r1 == r2,
{
}

/// Law: applying a created-or-modified event for one path twice, with the
/// on-disk content unchanged in between, leaves the mapping as after the
/// first application and publishes no new snapshot the second time.
pub proof fn lemma_apply_idempotent(
    m: Map<Seq<char>, (Seq<char>, Seq<u8>)>,
    root: Seq<char>,
    ev: ChangeEvent,
    read: ReadOutcome,
)
    requires
        !(ev is Removed),
        read is Content,
    ensures
        apply_map(apply_map(m, root, ev, read), root, ev, read) == apply_map(m, root, ev, read),
        !apply_publishes(apply_map(m, root, ev, read), root, ev, read),
{
    let key = key_of(root, event_path(ev));
    match read {
        ReadOutcome::Content { bytes } => {
            let m1 = upsert_map(m, key, bytes@);
            assert(m1.dom().contains(key) && m1[key].0 == digest_of(bytes@));
            assert(upsert_map(m1, key, bytes@) == m1);
        },
        ReadOutcome::Vanished => {
            assert(false);
        },
        ReadOutcome::Unreadable => {
            assert(false);
        },
    }
}

/// Law: once a removal event for a path is applied, resolving that path's
/// key finds nothing. (A file's key does not end in the separator; a key
/// that does would resolve to the `index.html` below it instead.)
pub proof fn lemma_removed_then_not_found(
    m: Map<Seq<char>, (Seq<char>, Seq<u8>)>,
    root: Seq<char>,
    ev: ChangeEvent,
    read: ReadOutcome,
)
    requires
        ev is Removed,
        key_of(root, event_path(ev)).last() != '/',
    ensures
        !apply_map(m, root, ev, read).dom().contains(request_key(key_of(root, event_path(ev)))),
{
    let key = key_of(root, event_path(ev));
    assert(key.len() > 0);
    assert(request_key(key) == key);
    assert(apply_map(m, root, ev, read) == m.remove(key));
}

/// Every fingerprint in a mapping is the digest of the content bound
/// beside it — the entry invariant, lifted to the whole mapping.
pub open spec fn hashes_consistent(m: Map<Seq<char>, (Seq<char>, Seq<u8>)>) -> bool {
    forall|k: Seq<char>| #[trigger] m.dom().contains(k) ==> m[k].0 == digest_of(m[k].1)
}

/// Law: the scanner's initial mapping satisfies the entry invariant
/// everywhere.
pub proof fn lemma_scan_consistent(root: Seq<char>, files: Seq<(String, Vec<u8>)>)
    ensures
        hashes_consistent(scan_map(root, files)),
    decreases files.len(),
{
    if files.len() > 0 {
        lemma_scan_consistent(root, files.drop_last());
    }
}

/// Law: applying an event preserves the entry invariant across the whole
/// mapping, whatever the event and however the re-read went.
pub proof fn lemma_apply_consistent(
    m: Map<Seq<char>, (Seq<char>, Seq<u8>)>,
    root: Seq<char>,
    ev: ChangeEvent,
    read: ReadOutcome,
)
    requires
        hashes_consistent(m),
    ensures
        hashes_consistent(apply_map(m, root, ev, read)),
{
}

} // verus!
