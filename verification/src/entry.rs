//! One file's servable state: its cache key, the fingerprint of its
//! content, and the content bytes themselves.

use vstd::prelude::*;
use crate::hashing::digest;
use crate::hashing::digest_of;

verus! {

/// An entry is immutable once built: a change to a file produces a new
/// `FileInfo` value, never an in-place update, and `hash` and `content`
/// are never set independently of each other.
#[derive(Debug, Clone)]
pub struct FileInfo {
    /// The cache key: the file's slash-rooted path relative to the
    /// watched root.
    pub path: String,
    /// The fingerprint of `content`, used to detect real changes.
    pub hash: String,
    /// The file's raw bytes.
    pub content: Vec<u8>,
}

impl FileInfo {
    /// The entry invariant: the fingerprint is the digest of the entry's
    /// own content.
    pub open spec fn wf(self) -> bool {
        self.hash@ == digest_of(self.content@)
    }

    /// Build an entry for `key` from freshly read content; the
    /// fingerprint is computed from exactly those bytes.
    pub fn new(key: String, content: Vec<u8>) -> (e: FileInfo)
        ensures
            e.path == key,
            e.content == content,
            e.hash@ == digest_of(content@),
            e.wf(),
    {
        let hash = digest(content.as_slice());
        FileInfo { path: key, hash, content }
    }
}

} // verus!
