//! An in-memory cache of a directory tree's files, kept in step with the
//! filesystem by applying normalized change events, and read through
//! immutable snapshots.
//!
//! The data structures and the update logic live here, verified. The
//! surrounding plumbing — walking the directory, the OS file watcher, the
//! request loop — hands this library plain values and takes plain values
//! back.

pub mod entry;
pub mod event;
pub mod hashing;
pub mod laws;
pub mod paths;
pub mod resolver;
pub mod store;

pub use entry::FileInfo;
pub use event::ChangeEvent;
pub use event::RawKind;
pub use event::ReadOutcome;
pub use hashing::digest;
pub use paths::key_for;
pub use paths::normalize_request;
pub use resolver::resolve;
pub use store::CacheStore;
pub use store::Snapshot;
pub use store::scan_entries;
