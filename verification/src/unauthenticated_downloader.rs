//! The resolver and integrity gate for plain, unauthenticated downloads.
//!
//! `build_url_and_sha256` maps a manifest and a host platform to the
//! concrete download URL and its expected checksum; it does no I/O.  The
//! fetch itself lives with the caller, which hands the retrieved body to
//! `download_and_validate_sha256` before using a single byte of it.

use vstd::prelude::*;
use crate::configuration::{File, find_architecture, find_platform};
use crate::errors::LauncherError;
use crate::hashing::checksum_matches;
use crate::text::replace_all;

verus! {

/// A fixed, fail-closed table from host architecture names to the vendor
/// names used inside manifests.  Absence is an error, never a passthrough.
pub open spec fn normalize_arch(arch: Seq<char>) -> Option<Seq<char>> {
    if arch == "x86_64"@ {
        Some("amd64"@)
    } else if arch == "aarch64"@ {
        Some("arm64"@)
    } else {
        None
    }
}

/// The URL template with `{{version}}`, `{{os}}` and `{{arch}}` replaced
/// by their concrete values; unmatched placeholders stay verbatim.
pub open spec fn substituted_url(
    pattern: Seq<char>,
    version: Seq<char>,
    os: Seq<char>,
    arch: Seq<char>,
) -> Seq<char> {
    replace_all(
        replace_all(replace_all(pattern, "{{version}}"@, version), "{{os}}"@, os),
        "{{arch}}"@,
        arch,
    )
}

/// What resolving a manifest against a host platform yields: the concrete
/// URL and expected checksum, or the error that names the missing key.
pub open spec fn resolve_spec(configuration: File, os: Seq<char>, arch: Seq<char>) -> Result<
    (Seq<char>, Seq<char>),
    LauncherError,
> {
    match normalize_arch(arch) {
        None => Err(LauncherError::ArchitectureNotFound),
        Some(mapped) => match find_platform(configuration.platforms@, os) {
            None => Err(LauncherError::PlatformNotFound),
            Some(platform) => match find_architecture(platform.architectures@, mapped) {
                None => Err(LauncherError::ArchitectureNotFound),
                Some(entry) => Ok(
                    (
                        substituted_url(
                            configuration.url_pattern@,
                            configuration.version@,
                            os,
                            mapped,
                        ),
                        entry.details.sha256@,
                    ),
                ),
            },
        },
    }
}

/// Resolves artifacts fetched by plain HTTP GET with no credentials.
pub struct UnauthenticatedDownloader {}

impl UnauthenticatedDownloader {
    pub fn new() -> (r: UnauthenticatedDownloader) {
        UnauthenticatedDownloader {}
    }

    /// Maps (manifest, host os, host architecture) to the download URL and
    /// its expected checksum, exactly as `resolve_spec` describes.
    pub fn build_url_and_sha256(
        &self,
        configuration: &File,
        os: &str,
        arch: &str,
    ) -> (r: Result<(String, String), LauncherError>)
        ensures
            match resolve_spec(*configuration, os@, arch@) {
                Ok((url, sha)) => {
                    &&& r is Ok
                    &&& r->Ok_0.0@ == url
                    &&& r->Ok_0.1@ == sha
                },
                Err(e) => r == Err::<(String, String), LauncherError>(e),
            },
    {
        let mapped: &str = if crate::text::str_eq(arch, "x86_64") {
            "amd64"
        } else if crate::text::str_eq(arch, "aarch64") {
            "arm64"
        } else {
            return Err(LauncherError::ArchitectureNotFound);
        };
        let platform = match crate::configuration::lookup_platform(&configuration.platforms, os) {
            Some(p) => p,
            None => {
                return Err(LauncherError::PlatformNotFound);
            },
        };
        let entry = match crate::configuration::lookup_architecture(
            &platform.architectures,
            mapped,
        ) {
            Some(e) => e,
            None => {
                return Err(LauncherError::ArchitectureNotFound);
            },
        };
        proof {
            reveal_strlit("{{version}}");
            reveal_strlit("{{os}}");
            reveal_strlit("{{arch}}");
        }
        let with_version = crate::text::replace(
            configuration.url_pattern.as_str(),
            "{{version}}",
            configuration.version.as_str(),
        );
        let with_os = crate::text::replace(with_version.as_str(), "{{os}}", os);
        let url = crate::text::replace(with_os.as_str(), "{{arch}}", mapped);
        Ok((url, entry.details.sha256.clone()))
    }

    /// Checks a whole retrieved body against its expected checksum.  The
    /// bytes come back only when the digest matches, up to ASCII case;
    /// otherwise the corrupt body is dropped and only the error surfaces.
    pub fn validate_sha256(&self, content: Vec<u8>, sha256: &str) -> (r: Result<
        Vec<u8>,
        LauncherError,
    >)
        ensures
            checksum_matches(content@, sha256@) ==> r is Ok && r->Ok_0@ == content@,
            !checksum_matches(content@, sha256@) ==> r == Err::<Vec<u8>, LauncherError>(
                LauncherError::IntegrityError,
            ),
    {
        let hex = crate::hashing::sha256_hex(&content);
        if crate::hashing::folded_eq(sha256, hex.as_str()) {
            Ok(content)
        } else {
            Err(LauncherError::IntegrityError)
        }
    }
}

/// Resolution is deterministic: for one manifest and host platform there
/// is one result, so any two resolutions agree.
pub proof fn lemma_resolve_deterministic(
    configuration: File,
    os: Seq<char>,
    arch: Seq<char>,
    r1: Result<(Seq<char>, Seq<char>), LauncherError>,
    r2: Result<(Seq<char>, Seq<char>), LauncherError>,
)
    requires
        r1 == resolve_spec(configuration, os, arch),
        r2 == resolve_spec(configuration, os, arch),
    ensures
        r1 == r2,
{
}

/// Unknown platforms and architectures fail closed: an architecture
/// outside the normalization table, an operating system absent from the
/// manifest, or a normalized architecture absent from its platform each
/// yield the corresponding error, never a substituted default.
pub proof fn lemma_resolve_fails_closed(configuration: File, os: Seq<char>, arch: Seq<char>)
    ensures
        normalize_arch(arch) is None ==> resolve_spec(configuration, os, arch) == Err::<
            (Seq<char>, Seq<char>),
            LauncherError,
        >(LauncherError::ArchitectureNotFound),
        normalize_arch(arch) is Some && find_platform(configuration.platforms@, os) is None
            ==> resolve_spec(configuration, os, arch) == Err::<(Seq<char>, Seq<char>), LauncherError>(
            LauncherError::PlatformNotFound,
        ),
        normalize_arch(arch) is Some && find_platform(configuration.platforms@, os) is Some
            && find_architecture(
            find_platform(configuration.platforms@, os)->Some_0.architectures@,
            normalize_arch(arch)->Some_0,
        ) is None ==> resolve_spec(configuration, os, arch) == Err::<
            (Seq<char>, Seq<char>),
            LauncherError,
        >(LauncherError::ArchitectureNotFound),
{
}

} // verus!
