//! A verified core for a self-updating binary launcher.
//!
//! Given a manifest that names an artifact, a URL template and a table of
//! per-platform checksums, the library resolves the concrete download URL,
//! checks fetched bytes against the expected SHA-256 digest, models the
//! extraction of a zip archive into a cache directory, and governs the
//! marker protocol that decides when the cache must be refreshed.
//! Network and file I/O stay outside; the library works on plain values.

pub mod configuration;
pub mod download_marker;
pub mod errors;
pub mod file_marker_manager;
pub mod fs_model;
pub mod hashing;
pub mod marker_manager;
pub mod text;
pub mod unauthenticated_downloader;
pub mod zip_extractor;
