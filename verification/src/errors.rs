//! The error taxonomy of the launcher core.
//!
//! Every failure of a single invocation is terminal; nothing is retried.
//! The variants follow the stages of the pipeline: reading the manifest,
//! resolving a platform entry, fetching, checking integrity, expanding the
//! archive, marking the entry point, and finally spawning the binary.

use vstd::prelude::*;

verus! {

#[derive(Clone, Copy, Debug, PartialEq, Eq, Structural)]
pub enum LauncherError {
    /// The manifest could not be read or parsed.
    ManifestError,
    /// The manifest has no entry for the host operating system.
    PlatformNotFound,
    /// The host architecture is unknown, or the platform entry lacks it.
    ArchitectureNotFound,
    /// The fetch failed before a whole body was retrieved.
    NetworkError,
    /// The digest of the fetched body differs from the expected checksum.
    IntegrityError,
    /// The archive was malformed, held an unsafe entry name, or an entry
    /// could not be placed into the target tree.
    ExtractionError,
    /// The designated entry point was absent after expansion.
    PermissionError,
    /// The launched binary could not be spawned.
    ProcessError,
}

} // verus!
