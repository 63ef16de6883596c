//! Request-side lookup: one request path, one snapshot, one answer.

use vstd::prelude::*;
use crate::entry::FileInfo;
use crate::paths::normalize_request;
use crate::paths::request_key;
use crate::store::Snapshot;

verus! {

/// Resolve a request path against one snapshot: normalize the path to a
/// key — a path ending in the separator maps to the `index.html` key in
/// that directory — and look the key up. The caller takes the snapshot
/// from `current` once and resolves against that single value, so one
/// resolution never mixes two generations of the store.
pub fn resolve<'a>(snap: &'a Snapshot, path: &str) -> (r: Option<&'a FileInfo>)
    requires
        snap.inv(),
    ensures
        match r {
            Some(e) => snap@.dom().contains(request_key(path@)) && e.path@ == request_key(path@)
                && snap@[request_key(path@)] == (e.hash@, e.content@),
            None => !snap@.dom().contains(request_key(path@)),
        },
{
    let key = normalize_request(path);
    snap.lookup(&key)
}

} // verus!
