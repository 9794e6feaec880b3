//! An in-process, concurrency-safe file access layer: a path-keyed registry
//! that arbitrates exclusive writers against shared readers of cached
//! memory-mapped snapshots, a hierarchical bucket namespace with per-key
//! locks, and positional raw-stream cursors.
//!
//! All arbitration decisions and data transformations are verified here over
//! plain values; the operating-system calls that carry them out (open, map,
//! pread, pwrite, sync) live outside the verified core and hand plain bytes
//! in and out.
use vstd::prelude::*;

pub mod key_map;
pub mod bucket;
pub mod file_map;
pub mod mmap_file;
pub mod raw_stream;

verus! {

/// The error taxonomy of the access layer.
///
/// `Contention` is recoverable by retrying (another writer is active, or
/// readers hold the mapping); the others are surfaced to the caller.
#[derive(Clone, Copy, Debug, PartialEq, Eq, Structural)]
pub enum AccessError {
    /// The requested access conflicts with another in-flight access.
    Contention,
    /// No entry exists for the key or path.
    NotFound,
    /// A write was attempted through a read-only handle.
    Permission,
    /// A seek or offset argument falls outside the valid range.
    InvalidInput,
    /// The underlying operating-system call failed.
    Io,
}

} // verus!
