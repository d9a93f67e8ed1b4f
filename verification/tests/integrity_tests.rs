use launcher::errors::LauncherError;
use launcher::unauthenticated_downloader::UnauthenticatedDownloader;
use sha2::Digest;

fn hex_digest(content: &[u8]) -> String {
    let mut hasher = sha2::Sha256::new();
    hasher.update(content);
    hasher
        .finalize()
        .iter()
        .map(|b| format!("{:02x}", b))
        .collect::<String>()
}

#[test]
fn test_download_and_validate_sha256_success() {
    let content = b"test content";
    let sha256 = hex_digest(content);
    let downloader = UnauthenticatedDownloader::new();
    let result = downloader.validate_sha256(content.to_vec(), &sha256);
    assert!(result.is_ok());
    assert_eq!(result.unwrap(), content.to_vec());
}

#[test]
fn test_download_and_validate_sha256_mismatch() {
    let content = b"test content";
    let incorrect_sha256 = "incorrectsha256";
    let downloader = UnauthenticatedDownloader::new();
    let result = downloader.validate_sha256(content.to_vec(), incorrect_sha256);
    assert!(result.is_err());
    assert_eq!(result.unwrap_err(), LauncherError::IntegrityError);
}

#[test]
fn test_validate_sha256_known_digest() {
    // The digest is a fixed public value, not anything derived from the
    // body itself, so a checker that echoed its input would fail here.
    let content = b"test content";
    let known = "6ae8a75555209fd6c44157c0aed8016e763ff435a19cf186f76863140143ff72";
    assert_eq!(hex_digest(content), known);
    let downloader = UnauthenticatedDownloader::new();
    assert!(downloader.validate_sha256(content.to_vec(), known).is_ok());
}

#[test]
fn test_validate_sha256_is_case_insensitive() {
    let content = b"test content";
    let upper = "6AE8A75555209FD6C44157C0AED8016E763FF435A19CF186F76863140143FF72";
    let downloader = UnauthenticatedDownloader::new();
    assert!(downloader.validate_sha256(content.to_vec(), upper).is_ok());
}

#[test]
fn test_validate_sha256_rejects_digest_of_other_body() {
    let downloader = UnauthenticatedDownloader::new();
    let other = hex_digest(b"some other content");
    let result = downloader.validate_sha256(b"test content".to_vec(), &other);
    assert_eq!(result.unwrap_err(), LauncherError::IntegrityError);
}
