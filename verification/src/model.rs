//! Shared value types: probe snapshots, icon results, cache records.

use vstd::prelude::*;

verus! {

/// Size and modification timestamp of a file, as observed by the
/// metadata prober at some instant.
#[derive(Clone, Copy, Debug)]
pub struct FileMeta {
    /// File size in bytes.
    pub size: u64,
    /// Modification time, seconds since the Unix epoch.
    pub modified: u64,
}

/// A snapshot of what probing a filesystem path found. The prober itself
/// performs I/O and lives outside this crate; every function here that
/// depends on the state of a path takes the observation as a value.
#[derive(Clone, Copy, Debug)]
pub struct PathProbe {
    /// The path exists.
    pub exists: bool,
    /// The path exists and is a regular file.
    pub is_file: bool,
    /// The path exists and is a directory.
    pub is_dir: bool,
    /// Size and modification time, when metadata could be read.
    pub meta: Option<FileMeta>,
}

/// The outward-facing value of a lookup: an encoded icon image together
/// with its provenance.
#[derive(Clone, Debug)]
pub struct IconResult {
    /// Encoded image; a `data:` URI for PNG icons, base64 text for
    /// placeholder glyphs.
    pub icon_data: String,
    /// Encoding of `icon_data`: `"png"` or `"text"`.
    pub icon_format: String,
    /// Whether this value was served from the cache.
    pub from_cache: bool,
    /// Change-detection fingerprint of the source file, when known.
    pub file_hash: Option<String>,
}

/// An internal cache record: the encoded icon plus the freshness fields
/// it was validated against when stored.
#[derive(Clone, Debug)]
pub struct CachedIcon {
    /// Encoded image, as in [`IconResult::icon_data`].
    pub icon_data: String,
    /// Encoding of `icon_data`.
    pub icon_format: String,
    /// Change-detection fingerprint of the source file.
    pub file_hash: String,
    /// Time the record was stored, seconds since the Unix epoch.
    pub cached_at: u64,
    /// File size observed when the record was stored.
    pub file_size: u64,
    /// Modification time observed when the record was stored.
    pub last_modified: u64,
}

/// Read-only cache introspection.
#[derive(Clone, Copy, Debug)]
pub struct CacheStats {
    /// Number of records currently held.
    pub total_entries: usize,
    /// Configured maximum number of records.
    pub max_entries: usize,
    /// Configured time-to-live of a record, in seconds.
    pub cache_duration: u64,
}

} // verus!
