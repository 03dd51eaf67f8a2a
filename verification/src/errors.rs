//! Failure modes of one install or update call.

use vstd::prelude::*;

verus! {

/// Why an install or update call stopped.
///
/// - `ArchiveOpen`: the byte stream is not a valid archive container;
///   nothing was scanned and nothing was touched.
/// - `Conflict`: the named top-level folder already exists at the
///   destination and is not owned by the caller; nothing was touched.
/// - `CleanupIo`: removing a previously owned folder or file failed; the
///   destination may be partially cleaned.
/// - `ExtractionIo`: reading an entry's bytes or writing them out failed;
///   the destination may hold a partial file tree.
#[derive(Debug)]
pub enum InstallError {
    ArchiveOpen,
    Conflict(String),
    CleanupIo,
    ExtractionIo,
}

} // verus!
