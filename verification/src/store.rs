//! The snapshot store: the authoritative key-to-entry mapping, published
//! to readers as immutable snapshots and updated atomically, one change
//! event at a time.

use vstd::prelude::*;
use crate::entry::FileInfo;
use crate::event::ChangeEvent;
use crate::event::ReadOutcome;
use crate::event::event_path;
use crate::hashing::digest;
use crate::hashing::digest_of;
use crate::paths::key_of;
use crate::paths::key_for;

verus! {

// --- the mathematical model: a run of entries read as a mapping ---

/// No two entries share a key, so the run determines a mapping.
spec fn unique_keys(s: Seq<FileInfo>) -> bool {
    forall|i: int, j: int| 0 <= i < j < s.len() ==> s[i].path@ != s[j].path@
}

/// Some entry in the run carries key `k`.
spec fn has_key(s: Seq<FileInfo>, k: Seq<char>) -> bool {
    exists|i: int| 0 <= i < s.len() && s[i].path@ == k
}

/// The position of the entry carrying key `k` (meaningful under
/// `unique_keys` when `has_key` holds).
spec fn index_of(s: Seq<FileInfo>, k: Seq<char>) -> int {
    choose|i: int| 0 <= i < s.len() && s[i].path@ == k
}

/// The run of entries read as a mapping from key to (fingerprint,
/// content).
spec fn map_of(s: Seq<FileInfo>) -> Map<Seq<char>, (Seq<char>, Seq<u8>)> {
    Map::new(
        |k: Seq<char>| has_key(s, k),
        |k: Seq<char>| (s[index_of(s, k)].hash@, s[index_of(s, k)].content@),
    )
}

proof fn lemma_at_index(s: Seq<FileInfo>, i: int)
    requires
        unique_keys(s),
        0 <= i < s.len(),
    ensures
        has_key(s, s[i].path@),
        index_of(s, s[i].path@) == i,
        map_of(s).dom().contains(s[i].path@),
        map_of(s)[s[i].path@] == (s[i].hash@, s[i].content@),
{
    let k = s[i].path@;
    assert(has_key(s, k)) by {
        assert(0 <= i < s.len() && s[i].path@ == k);
    }
    let j = index_of(s, k);
    assert(0 <= j < s.len() && s[j].path@ == k);
    if j < i {
        assert(s[j].path@ != s[i].path@);
    } else if i < j {
        assert(s[i].path@ != s[j].path@);
    }
}

proof fn lemma_map_update(s: Seq<FileInfo>, i: int, e: FileInfo)
    requires
        unique_keys(s),
        0 <= i < s.len(),
        s[i].path@ == e.path@,
    ensures
        unique_keys(s.update(i, e)),
        map_of(s.update(i, e)) == map_of(s).insert(e.path@, (e.hash@, e.content@)),
{
    let s2 = s.update(i, e);
    let m2 = map_of(s).insert(e.path@, (e.hash@, e.content@));
    assert forall|p: int, q: int| 0 <= p < q < s2.len() implies s2[p].path@ != s2[q].path@ by {
        assert(s2[p].path@ == s[p].path@);
        assert(s2[q].path@ == s[q].path@);
    }
    assert forall|k: Seq<char>| #[trigger] has_key(s2, k) implies m2.dom().contains(k) by {
        let j = choose|j: int| 0 <= j < s2.len() && s2[j].path@ == k;
        if j != i {
            assert(s[j].path@ == k);
            assert(has_key(s, k));
        }
    }
    assert forall|k: Seq<char>| #[trigger] m2.dom().contains(k) implies has_key(s2, k) by {
        if k == e.path@ {
            assert(0 <= i < s2.len() && s2[i].path@ == k);
        } else {
            let j = choose|j: int| 0 <= j < s.len() && s[j].path@ == k;
            assert(0 <= j < s.len() && s[j].path@ == k);
            assert(j != i);
            assert(s2[j].path@ == k);
        }
    }
    assert(map_of(s2).dom() =~= m2.dom());
    assert forall|k: Seq<char>| #[trigger] m2.dom().contains(k) implies map_of(s2)[k] == m2[k] by {
        if k == e.path@ {
            lemma_at_index(s2, i);
        } else {
            let j = choose|j: int| 0 <= j < s2.len() && s2[j].path@ == k;
            assert(0 <= j < s2.len() && s2[j].path@ == k);
            assert(j != i);
            lemma_at_index(s2, j);
            assert(s[j].path@ == k);
            lemma_at_index(s, j);
        }
    }
    assert(map_of(s2) =~= m2);
}

proof fn lemma_map_push(s: Seq<FileInfo>, e: FileInfo)
    requires
        unique_keys(s),
        !has_key(s, e.path@),
    ensures
        unique_keys(s.push(e)),
        map_of(s.push(e)) == map_of(s).insert(e.path@, (e.hash@, e.content@)),
{
    let s2 = s.push(e);
    let m2 = map_of(s).insert(e.path@, (e.hash@, e.content@));
    assert forall|p: int, q: int| 0 <= p < q < s2.len() implies s2[p].path@ != s2[q].path@ by {
        if q == s.len() {
            assert(s2[p].path@ == s[p].path@);
            if s2[p].path@ == e.path@ {
                assert(has_key(s, e.path@));
            }
        } else {
            assert(s2[p].path@ == s[p].path@);
            assert(s2[q].path@ == s[q].path@);
        }
    }
    assert forall|k: Seq<char>| #[trigger] has_key(s2, k) implies m2.dom().contains(k) by {
        let j = choose|j: int| 0 <= j < s2.len() && s2[j].path@ == k;
        if j != s.len() {
            assert(s[j].path@ == k);
            assert(has_key(s, k));
        }
    }
    assert forall|k: Seq<char>| #[trigger] m2.dom().contains(k) implies has_key(s2, k) by {
        if k == e.path@ {
            assert(s2[s.len() as int].path@ == k);
        } else {
            let j = choose|j: int| 0 <= j < s.len() && s[j].path@ == k;
            assert(0 <= j < s.len() && s[j].path@ == k);
            assert(s2[j].path@ == k);
        }
    }
    assert(map_of(s2).dom() =~= m2.dom());
    assert forall|k: Seq<char>| #[trigger] m2.dom().contains(k) implies map_of(s2)[k] == m2[k] by {
        if k == e.path@ {
            lemma_at_index(s2, s.len() as int);
        } else {
            let j = choose|j: int| 0 <= j < s2.len() && s2[j].path@ == k;
            assert(0 <= j < s2.len() && s2[j].path@ == k);
            assert(j != s.len());
            lemma_at_index(s2, j);
            assert(s[j].path@ == k);
            lemma_at_index(s, j);
        }
    }
    assert(map_of(s2) =~= m2);
}

proof fn lemma_map_remove(s: Seq<FileInfo>, i: int)
    requires
        unique_keys(s),
        0 <= i < s.len(),
    ensures
        unique_keys(s.remove(i)),
        map_of(s.remove(i)) == map_of(s).remove(s[i].path@),
{
    let s2 = s.remove(i);
    let m2 = map_of(s).remove(s[i].path@);
    assert forall|j: int| 0 <= j < s2.len() implies s2[j] == s[if j < i {
        j
    } else {
        j + 1
    }] by {}
    assert forall|p: int, q: int| 0 <= p < q < s2.len() implies s2[p].path@ != s2[q].path@ by {
        let p2: int = if p < i { p } else { p + 1 };
        let q2: int = if q < i { q } else { q + 1 };
        assert(s2[p] == s[p2]);
        assert(s2[q] == s[q2]);
        assert(s[p2].path@ != s[q2].path@);
    }
    assert forall|k: Seq<char>| #[trigger] has_key(s2, k) implies m2.dom().contains(k) by {
        let j = choose|j: int| 0 <= j < s2.len() && s2[j].path@ == k;
        let j2: int = if j < i { j } else { j + 1 };
        assert(s2[j] == s[j2]);
        assert(has_key(s, k)) by {
            assert(0 <= j2 < s.len() && s[j2].path@ == k);
        }
        if j2 < i {
            assert(s[j2].path@ != s[i].path@);
        } else {
            assert(s[i].path@ != s[j2].path@);
        }
    }
    assert forall|k: Seq<char>| #[trigger] m2.dom().contains(k) implies has_key(s2, k) by {
        let j = choose|j: int| 0 <= j < s.len() && s[j].path@ == k;
        assert(0 <= j < s.len() && s[j].path@ == k);
        if j < i {
            assert(s2[j] == s[j]);
            assert(0 <= j < s2.len() && s2[j].path@ == k);
        } else {
            assert(j != i);
            assert(s2[j - 1] == s[j]);
            assert(0 <= j - 1 < s2.len() && s2[j - 1].path@ == k);
        }
    }
    assert(map_of(s2).dom() =~= m2.dom());
    assert forall|k: Seq<char>| #[trigger] m2.dom().contains(k) implies map_of(s2)[k] == m2[k] by {
        let j = choose|j: int| 0 <= j < s2.len() && s2[j].path@ == k;
        assert(0 <= j < s2.len() && s2[j].path@ == k);
        lemma_at_index(s2, j);
        let j2: int = if j < i { j } else { j + 1 };
        assert(s2[j] == s[j2]);
        lemma_at_index(s, j2);
    }
    assert(map_of(s2) =~= m2);
}

// --- snapshots ---

/// An immutable point-in-time mapping from cache key to entry. A reader
/// holds a snapshot value and sees one whole generation of the store;
/// the update pipeline never mutates a published snapshot, it publishes
/// a new one.
pub struct Snapshot {
    entries: Vec<FileInfo>,
}

impl View for Snapshot {
    type V = Map<Seq<char>, (Seq<char>, Seq<u8>)>;

    closed spec fn view(&self) -> Map<Seq<char>, (Seq<char>, Seq<u8>)> {
        map_of(self.entries@)
    }
}

impl Snapshot {
    /// Internal shape: no two entries share a key, so `self@` is well
    /// defined.
    pub closed spec fn inv(&self) -> bool {
        unique_keys(self.entries@)
    }

    /// The snapshot with nothing in it.
    pub fn empty() -> (s: Snapshot)
        ensures
            s.inv(),
            s@ == Map::<Seq<char>, (Seq<char>, Seq<u8>)>::empty(),
    {
        let s = Snapshot { entries: Vec::new() };
        proof {
            assert(s@ =~= Map::<Seq<char>, (Seq<char>, Seq<u8>)>::empty());
        }
        s
    }

    /// Where the entry carrying `key` sits, if anywhere.
    fn find_index(&self, key: &String) -> (r: Option<usize>)
        ensures
            match r {
                Some(i) => i < self.entries@.len() && self.entries@[i as int].path@ == key@,
                None => forall|j: int|
                    0 <= j < self.entries@.len() ==> self.entries@[j].path@ != key@,
            },
    {
        let n = self.entries.len();
        let mut i: usize = 0;
        while i < n
            invariant
                i <= n,
                n == self.entries@.len(),
                forall|j: int| 0 <= j < i ==> self.entries@[j].path@ != key@,
            decreases n - i,
        {
            if self.entries[i].path == *key {
                return Some(i);
            }
            i += 1;
        }
        None
    }

    /// Find the entry for `key`, if any: exactly the binding `self@`
    /// holds for that key.
    pub fn lookup<'a>(&'a self, key: &String) -> (r: Option<&'a FileInfo>)
        requires
            self.inv(),
        ensures
            match r {
                Some(e) => self@.dom().contains(key@) && e.path@ == key@ && self@[key@] == (
                    e.hash@,
                    e.content@,
                ),
                None => !self@.dom().contains(key@),
            },
    {
        match self.find_index(key) {
            Some(i) => {
                proof {
                    lemma_at_index(self.entries@, i as int);
                }
                Some(&self.entries[i])
            },
            None => {
                proof {
                    if has_key(self.entries@, key@) {
                        let j = choose|j: int|
                            0 <= j < self.entries@.len() && self.entries@[j].path@ == key@;
                        assert(self.entries@[j].path@ == key@);
                    }
                }
                None
            },
        }
    }

    /// Whether the snapshot already binds `key` to exactly this
    /// fingerprint — the test that lets a duplicate event publish
    /// nothing.
    pub fn fingerprint_matches(&self, key: &String, hash: &String) -> (r: bool)
        requires
            self.inv(),
        ensures
            r == (self@.dom().contains(key@) && self@[key@].0 == hash@),
    {
        match self.lookup(key) {
            Some(e) => e.hash == *hash,
            None => false,
        }
    }

    /// Bind `e.path` to `e`, replacing any entry that shares its key.
    pub fn upsert(&mut self, e: FileInfo)
        requires
            old(self).inv(),
        ensures
            final(self).inv(),
            final(self)@ == old(self)@.insert(e.path@, (e.hash@, e.content@)),
    {
        match self.find_index(&e.path) {
            Some(i) => {
                proof {
                    lemma_map_update(self.entries@, i as int, e);
                }
                self.entries.set(i, e);
            },
            None => {
                proof {
                    if has_key(self.entries@, e.path@) {
                        let j = choose|j: int|
                            0 <= j < self.entries@.len() && self.entries@[j].path@ == e.path@;
                        assert(self.entries@[j].path@ == e.path@);
                    }
                    lemma_map_push(self.entries@, e);
                }
                self.entries.push(e);
            },
        }
    }

    /// Drop the binding for `key`, if there is one; say whether there
    /// was.
    pub fn remove_key(&mut self, key: &String) -> (removed: bool)
        requires
            old(self).inv(),
        ensures
            final(self).inv(),
            final(self)@ == old(self)@.remove(key@),
            removed == old(self)@.dom().contains(key@),
    {
        match self.find_index(key) {
            Some(i) => {
                proof {
                    lemma_at_index(self.entries@, i as int);
                    lemma_map_remove(self.entries@, i as int);
                }
                self.entries.remove(i);
                true
            },
            None => {
                proof {
                    if has_key(self.entries@, key@) {
                        let j = choose|j: int|
                            0 <= j < self.entries@.len() && self.entries@[j].path@ == key@;
                        assert(self.entries@[j].path@ == key@);
                    }
                    assert(old(self)@.remove(key@) =~= old(self)@);
                }
                false
            },
        }
    }
}

// --- what one update does, stated over the mapping ---

/// The mapping after new content arrives for `key`: unchanged when the
/// key already carries exactly this content's fingerprint (a duplicate
/// event publishes nothing), else the prior mapping with the key bound to
/// the fresh entry.
pub open spec fn upsert_map(
    m: Map<Seq<char>, (Seq<char>, Seq<u8>)>,
    key: Seq<char>,
    content: Seq<u8>,
) -> Map<Seq<char>, (Seq<char>, Seq<u8>)> {
    if m.dom().contains(key) && m[key].0 == digest_of(content) {
        m
    } else {
        m.insert(key, (digest_of(content), content))
    }
}

/// Whether new content for `key` makes a new snapshot worth publishing.
pub open spec fn upsert_publishes(
    m: Map<Seq<char>, (Seq<char>, Seq<u8>)>,
    key: Seq<char>,
    content: Seq<u8>,
) -> bool {
    !(m.dom().contains(key) && m[key].0 == digest_of(content))
}

/// The mapping after one normalized event is applied, given how the
/// re-read of the file went: a removal (or a read of a vanished file)
/// drops the key; fresh content upserts it; an unreadable file leaves the
/// prior mapping untouched.
pub open spec fn apply_map(
    m: Map<Seq<char>, (Seq<char>, Seq<u8>)>,
    root: Seq<char>,
    ev: ChangeEvent,
    read: ReadOutcome,
) -> Map<Seq<char>, (Seq<char>, Seq<u8>)> {
    let key = key_of(root, event_path(ev));
    if ev is Removed {
        m.remove(key)
    } else {
        match read {
            ReadOutcome::Content { bytes } => upsert_map(m, key, bytes@),
            ReadOutcome::Vanished => m.remove(key),
            ReadOutcome::Unreadable => m,
        }
    }
}

/// Whether applying the event publishes a new snapshot.
pub open spec fn apply_publishes(
    m: Map<Seq<char>, (Seq<char>, Seq<u8>)>,
    root: Seq<char>,
    ev: ChangeEvent,
    read: ReadOutcome,
) -> bool {
    let key = key_of(root, event_path(ev));
    if ev is Removed {
        m.dom().contains(key)
    } else {
        match read {
            ReadOutcome::Content { bytes } => upsert_publishes(m, key, bytes@),
            ReadOutcome::Vanished => m.dom().contains(key),
            ReadOutcome::Unreadable => false,
        }
    }
}

// --- the scanner's fold ---

/// The mapping a walk's files fold into: each file keyed under the root
/// and fingerprinted, in order, a later duplicate overwriting an earlier
/// one.
pub open spec fn scan_map(root: Seq<char>, files: Seq<(String, Vec<u8>)>) -> Map<
    Seq<char>,
    (Seq<char>, Seq<u8>),
>
    decreases files.len(),
{
    if files.len() == 0 {
        Map::empty()
    } else {
        scan_map(root, files.drop_last()).insert(
            key_of(root, files.last().0@),
            (digest_of(files.last().1@), files.last().1@),
        )
    }
}

/// Fold the (path, content) pairs a directory walk produced into the
/// initial snapshot, exactly as `scan_map` states it.
pub fn scan_entries(root: &str, files: Vec<(String, Vec<u8>)>) -> (s: Snapshot)
    ensures
        s.inv(),
        s@ == scan_map(root@, files@),
{
    let ghost all = files@;
    let mut files = files;
    let mut snap = Snapshot::empty();
    let ghost mut k: int = 0;
    proof {
        assert(files@ =~= all.subrange(0, all.len() as int));
        assert(all.take(0) =~= Seq::<(String, Vec<u8>)>::empty());
    }
    while files.len() > 0
        invariant
            0 <= k <= all.len(),
            files@ == all.subrange(k, all.len() as int),
            snap.inv(),
            snap@ == scan_map(root@, all.take(k)),
        decreases files@.len(),
    {
        let (p, c) = files.remove(0);
        proof {
            assert(all.subrange(k, all.len() as int)[0] == all[k]);
            assert(all.subrange(k, all.len() as int).remove(0) =~= all.subrange(
                k + 1,
                all.len() as int,
            ));
        }
        let key = key_for(root, p.as_str());
        let e = FileInfo::new(key, c);
        snap.upsert(e);
        proof {
            k = k + 1;
            assert(all.take(k).drop_last() =~= all.take(k - 1));
            assert(all.take(k).last() == all[k - 1]);
        }
    }
    proof {
        assert(all.take(all.len() as int) =~= all);
    }
    snap
}

// --- the store ---

/// The authoritative store: the watched root and the currently published
/// snapshot. `current` is the whole read path; `apply` is the only
/// mutator, and it replaces the snapshot as one indivisible step, so a
/// reader sees either the entire prior snapshot or the entire new one.
pub struct CacheStore {
    root: String,
    snap: Snapshot,
}

impl View for CacheStore {
    type V = Map<Seq<char>, (Seq<char>, Seq<u8>)>;

    closed spec fn view(&self) -> Map<Seq<char>, (Seq<char>, Seq<u8>)> {
        self.snap@
    }
}

impl CacheStore {
    /// The watched root the store computes keys under.
    pub closed spec fn root_spec(&self) -> Seq<char> {
        self.root@
    }

    /// The snapshot the store currently publishes.
    pub closed spec fn snapshot_spec(&self) -> Snapshot {
        self.snap
    }

    pub closed spec fn inv(&self) -> bool {
        self.snap.inv()
    }

    /// One-time seed from the scanner's mapping. The store serves exactly
    /// this snapshot until an event is applied.
    pub fn init(root: String, seed: Snapshot) -> (s: CacheStore)
        requires
            seed.inv(),
        ensures
            s.inv(),
            s@ == seed@,
            s.root_spec() == root@,
            s.snapshot_spec() == seed,
    {
        CacheStore { root, snap: seed }
    }

    /// The latest published snapshot, instantly: no in-flight update is
    /// waited on, and no copy is made.
    pub fn current(&self) -> (s: &Snapshot)
        ensures
            *s == self.snapshot_spec(),
            s@ == self@,
            self.inv() ==> s.inv(),
    {
        &self.snap
    }

    /// Consume one normalized event together with the outcome of the
    /// re-read its path needed, and publish the updated snapshot. Exactly
    /// `apply_map` says what the store holds afterwards, and
    /// `apply_publishes` whether a new snapshot was published; an event
    /// whose file was unreadable is absorbed, never escalated.
    pub fn apply(&mut self, event: ChangeEvent, read: ReadOutcome) -> (published: bool)
        requires
            old(self).inv(),
        ensures
            final(self).inv(),
            final(self).root_spec() == old(self).root_spec(),
            final(self)@ == apply_map(old(self)@, old(self).root_spec(), event, read),
            published == apply_publishes(old(self)@, old(self).root_spec(), event, read),
    {
        match event {
            ChangeEvent::Removed { path } => {
                let key = key_for(self.root.as_str(), path.as_str());
                self.snap.remove_key(&key)
            },
            ChangeEvent::Created { path } => self.apply_reread(path, read),
            ChangeEvent::Modified { path } => self.apply_reread(path, read),
        }
    }

    /// A created or modified file: upsert its fresh content, treat a
    /// vanished file as removed, and discard the event when the read
    /// failed for another reason.
    fn apply_reread(&mut self, path: String, read: ReadOutcome) -> (published: bool)
        requires
            old(self).inv(),
        ensures
            final(self).inv(),
            final(self).root_spec() == old(self).root_spec(),
            final(self)@ == (match read {
                ReadOutcome::Content { bytes } => upsert_map(
                    old(self)@,
                    key_of(old(self).root_spec(), path@),
                    bytes@,
                ),
                ReadOutcome::Vanished => old(self)@.remove(key_of(old(self).root_spec(), path@)),
                ReadOutcome::Unreadable => old(self)@,
            }),
            published == (match read {
                ReadOutcome::Content { bytes } => upsert_publishes(
                    old(self)@,
                    key_of(old(self).root_spec(), path@),
                    bytes@,
                ),
                ReadOutcome::Vanished => old(self)@.dom().contains(
                    key_of(old(self).root_spec(), path@),
                ),
                ReadOutcome::Unreadable => false,
            }),
    {
        match read {
            ReadOutcome::Content { bytes } => {
                let key = key_for(self.root.as_str(), path.as_str());
                let hash = digest(bytes.as_slice());
                if self.snap.fingerprint_matches(&key, &hash) {
                    false
                } else {
                    self.snap.upsert(FileInfo { path: key, hash, content: bytes });
                    true
                }
            },
            ReadOutcome::Vanished => {
                let key = key_for(self.root.as_str(), path.as_str());
                self.snap.remove_key(&key)
            },
            ReadOutcome::Unreadable => false,
        }
    }
}

} // verus!
