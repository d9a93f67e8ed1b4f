use launcher::configuration::{
    ArchitectureEntry, Compression, CompressionType, File, PlatformEntry, PlatformOSArchitecture,
};
use launcher::errors::LauncherError;
use launcher::unauthenticated_downloader::UnauthenticatedDownloader;

fn manifest() -> File {
    File {
        name: "tool".to_string(),
        version: "1.0.0".to_string(),
        url_pattern: "https://example.com/{{version}}/{{os}}/{{arch}}.zip".to_string(),
        platforms: vec![PlatformEntry {
            os: "linux".to_string(),
            architectures: vec![ArchitectureEntry {
                architecture: "arm64".to_string(),
                details: PlatformOSArchitecture {
                    sha256: "dummysha256".to_string(),
                },
            }],
        }],
        strip_prefix: None,
        compression: Compression {
            compression_type: CompressionType::Zip,
        },
    }
}

#[test]
fn test_resolve_concrete_url_and_checksum() {
    let downloader = UnauthenticatedDownloader::new();
    let (url, sha256) = downloader
        .build_url_and_sha256(&manifest(), "linux", "aarch64")
        .unwrap();
    assert_eq!(url, "https://example.com/1.0.0/linux/arm64.zip");
    assert_eq!(sha256, "dummysha256");
}

#[test]
fn test_resolve_is_deterministic() {
    let downloader = UnauthenticatedDownloader::new();
    let first = downloader.build_url_and_sha256(&manifest(), "linux", "aarch64");
    let second = downloader.build_url_and_sha256(&manifest(), "linux", "aarch64");
    assert_eq!(first.unwrap(), second.unwrap());
}

#[test]
fn test_resolve_unknown_platform_fails_closed() {
    let downloader = UnauthenticatedDownloader::new();
    let result = downloader.build_url_and_sha256(&manifest(), "windows", "aarch64");
    assert_eq!(result.unwrap_err(), LauncherError::PlatformNotFound);
}

#[test]
fn test_resolve_unknown_architecture_fails_closed() {
    let downloader = UnauthenticatedDownloader::new();
    let result = downloader.build_url_and_sha256(&manifest(), "linux", "mips");
    assert_eq!(result.unwrap_err(), LauncherError::ArchitectureNotFound);
}

#[test]
fn test_resolve_architecture_absent_from_platform_fails_closed() {
    let downloader = UnauthenticatedDownloader::new();
    let result = downloader.build_url_and_sha256(&manifest(), "linux", "x86_64");
    assert_eq!(result.unwrap_err(), LauncherError::ArchitectureNotFound);
}

#[test]
fn test_resolve_leaves_unmatched_placeholders_verbatim() {
    let mut configuration = manifest();
    configuration.url_pattern = "https://example.com/{{channel}}/{{arch}}.zip".to_string();
    let downloader = UnauthenticatedDownloader::new();
    let (url, _) = downloader
        .build_url_and_sha256(&configuration, "linux", "aarch64")
        .unwrap();
    assert_eq!(url, "https://example.com/{{channel}}/arm64.zip");
}

#[test]
fn test_resolve_replaces_every_occurrence() {
    let mut configuration = manifest();
    configuration.url_pattern = "{{os}}/{{os}}-{{version}}-{{version}}".to_string();
    let downloader = UnauthenticatedDownloader::new();
    let (url, _) = downloader
        .build_url_and_sha256(&configuration, "linux", "aarch64")
        .unwrap();
    assert_eq!(url, "linux/linux-1.0.0-1.0.0");
}
