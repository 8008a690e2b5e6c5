//! Icon extraction and caching.
//!
//! The crate turns a filesystem path into a portable, encoded icon image
//! and memoizes the result in a bounded, freshness-aware cache:
//!
//! - [`model`] holds the shared value types: probe snapshots, icon
//!   results, cache records and statistics.
//! - [`text`] holds small verified string utilities: ASCII
//!   case-insensitive comparison, hexadecimal formatting, filename
//!   sanitizing.
//! - [`placeholder`] maps a file extension to a fixed placeholder glyph,
//!   used where no native icon subsystem is available.
//! - [`bitmap`] normalizes a device-dependent 32-bit bitmap buffer into
//!   a canonical top-down RGBA pixel buffer.
//! - [`encode`] serializes an RGBA buffer as PNG and wraps encoded
//!   icons into `data:` URI strings.
//! - [`hash`] derives the change-detection fingerprint of a file from
//!   its path and observed metadata.
//! - [`cache`] is the bounded, TTL- and metadata-validated icon cache,
//!   and the cache-fronted lookup entry point.
//! - [`extract`] is the extraction pipeline over probed path state,
//!   with path validation.
//!
//! All filesystem and clock reads stay outside the crate: a caller
//! probes a path once per operation and hands the observation in as a
//! [`model::PathProbe`] together with the current time, so every rule in
//! here is checked against an explicit snapshot, and callers control
//! time and metadata completely.

pub mod bitmap;
pub mod cache;
pub mod encode;
pub mod extract;
pub mod hash;
pub mod model;
pub mod placeholder;
pub mod text;
