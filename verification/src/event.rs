//! Normalized filesystem change events. The OS notification layer reports
//! raw kinds per path; this module reduces them to the two updates the
//! cache distinguishes — a file needs re-reading, or a file is gone — and
//! filters out events for directories.

use vstd::prelude::*;

verus! {

/// A normalized change: the file at an absolute path was created,
/// modified, or removed. Created and Modified both mean "re-read the
/// file"; they are kept apart only to mirror what the OS reported.
#[derive(Debug, Clone)]
pub enum ChangeEvent {
    Created { path: String },
    Modified { path: String },
    Removed { path: String },
}

/// The absolute path an event speaks of.
pub open spec fn event_path(ev: ChangeEvent) -> Seq<char> {
    match ev {
        ChangeEvent::Created { path } => path@,
        ChangeEvent::Modified { path } => path@,
        ChangeEvent::Removed { path } => path@,
    }
}

/// What the OS notification layer reported for one path, reduced to the
/// kinds normalization tells apart.
#[derive(Debug, Clone, Copy, PartialEq, Eq, Structural)]
pub enum RawKind {
    /// A file or directory appeared.
    Create,
    /// Content was written.
    Write,
    /// A file or directory was deleted.
    Remove,
    /// A file or directory was renamed away from this path.
    RenameAway,
    /// Anything else (access, metadata, unclassified).
    Other,
}

/// How a raw event collapses: creates and writes both require a re-read,
/// so they become `Modified`; deletes and renames away become `Removed`;
/// directory events and everything else are filtered out.
pub open spec fn normalize_spec(kind: RawKind, path: String, is_dir: bool) -> Option<
    ChangeEvent,
> {
    if is_dir {
        None
    } else {
        match kind {
            RawKind::Create => Some(ChangeEvent::Modified { path }),
            RawKind::Write => Some(ChangeEvent::Modified { path }),
            RawKind::Remove => Some(ChangeEvent::Removed { path }),
            RawKind::RenameAway => Some(ChangeEvent::Removed { path }),
            RawKind::Other => None,
        }
    }
}

/// Normalize one raw OS event, exactly as `normalize_spec` states it.
pub fn normalize(kind: RawKind, path: String, is_dir: bool) -> (r: Option<ChangeEvent>)
    ensures
        r == normalize_spec(kind, path, is_dir),
{
    if is_dir {
        None
    } else {
        match kind {
            RawKind::Create => Some(ChangeEvent::Modified { path }),
            RawKind::Write => Some(ChangeEvent::Modified { path }),
            RawKind::Remove => Some(ChangeEvent::Removed { path }),
            RawKind::RenameAway => Some(ChangeEvent::Removed { path }),
            RawKind::Other => None,
        }
    }
}

/// The result of re-reading a changed file, as the surrounding I/O layer
/// reports it: the bytes, or the file vanished before the read could
/// happen, or the read failed for another reason.
pub enum ReadOutcome {
    Content { bytes: Vec<u8> },
    Vanished,
    Unreadable,
}

} // verus!
