use launcher::configuration::{Compression, CompressionType};
use launcher::errors::LauncherError;
use launcher::fs_model::{DirTree, FsNode};
use launcher::zip_extractor::{extract_to_disk, ZipExtractor};
use std::io::Write;

fn build_zip(entries: &[(&str, Option<&[u8]>)]) -> Vec<u8> {
    let mut buffer = Vec::new();
    {
        let mut writer = zip::ZipWriter::new(std::io::Cursor::new(&mut buffer));
        let options = zip::write::SimpleFileOptions::default();
        for (name, data) in entries {
            match data {
                Some(bytes) => {
                    writer.start_file(*name, options).unwrap();
                    writer.write_all(bytes).unwrap();
                }
                None => {
                    writer.add_directory(*name, options).unwrap();
                }
            }
        }
        writer.finish().unwrap();
    }
    buffer
}

fn file_data(tree: &DirTree, path: &str) -> Vec<u8> {
    match tree.lookup(path) {
        Some(FsNode::File { data, .. }) => data.clone(),
        _ => panic!("no file at {}", path),
    }
}

fn is_executable(tree: &DirTree, path: &str) -> bool {
    match tree.lookup(path) {
        Some(FsNode::File { executable, .. }) => *executable,
        _ => false,
    }
}

#[test]
fn test_extract_to_disk() {
    let content = build_zip(&[
        ("test_file.txt", Some(b"Hello, world!")),
        ("test_executable", Some(b"Executable content")),
    ]);
    let mut tree = DirTree::new();
    let extractor = ZipExtractor::new();
    extractor
        .extract_to_disk(&content, &mut tree, &"test_executable".to_string())
        .unwrap();

    assert!(tree.lookup("test_file.txt").is_some());
    assert!(tree.lookup("test_executable").is_some());
    assert_eq!(file_data(&tree, "test_file.txt"), b"Hello, world!".to_vec());
    assert_eq!(
        file_data(&tree, "test_executable"),
        b"Executable content".to_vec()
    );
    assert!(is_executable(&tree, "test_executable"));
}

#[test]
fn test_extract_replaces_previous_contents() {
    let first = build_zip(&[
        ("run", Some(b"first binary")),
        ("stale.txt", Some(b"left over")),
    ]);
    let second = build_zip(&[("run", Some(b"second binary"))]);
    let mut tree = DirTree::new();
    let extractor = ZipExtractor::new();
    let entry_point = "run".to_string();

    extractor
        .extract_to_disk(&first, &mut tree, &entry_point)
        .unwrap();
    assert!(tree.lookup("stale.txt").is_some());

    extractor
        .extract_to_disk(&second, &mut tree, &entry_point)
        .unwrap();
    assert!(tree.lookup("stale.txt").is_none());
    assert_eq!(file_data(&tree, "run"), b"second binary".to_vec());
}

#[test]
fn test_extract_creates_directories_and_parents() {
    let content = build_zip(&[
        ("empty_dir/", None),
        ("nested/deep/file.txt", Some(b"payload")),
        ("run", Some(b"binary")),
    ]);
    let mut tree = DirTree::new();
    let extractor = ZipExtractor::new();
    extractor
        .extract_to_disk(&content, &mut tree, &"run".to_string())
        .unwrap();

    assert!(matches!(tree.lookup("empty_dir"), Some(FsNode::Dir)));
    assert!(matches!(tree.lookup("nested"), Some(FsNode::Dir)));
    assert!(matches!(tree.lookup("nested/deep"), Some(FsNode::Dir)));
    assert_eq!(file_data(&tree, "nested/deep/file.txt"), b"payload".to_vec());
}

#[test]
fn test_extract_rejects_path_traversal() {
    let content = build_zip(&[("../evil.txt", Some(b"outside")), ("run", Some(b"binary"))]);
    let mut tree = DirTree::new();
    let extractor = ZipExtractor::new();
    let result = extractor.extract_to_disk(&content, &mut tree, &"run".to_string());
    assert_eq!(result.unwrap_err(), LauncherError::ExtractionError);
}

#[test]
fn test_failed_extraction_keeps_entries_already_processed() {
    let content = build_zip(&[
        ("kept.txt", Some(b"processed first")),
        ("../evil.txt", Some(b"outside")),
        ("later.txt", Some(b"never reached")),
    ]);
    let mut tree = DirTree::new();
    let extractor = ZipExtractor::new();
    let result = extractor.extract_to_disk(&content, &mut tree, &"kept.txt".to_string());
    assert_eq!(result.unwrap_err(), LauncherError::ExtractionError);
    assert_eq!(file_data(&tree, "kept.txt"), b"processed first".to_vec());
    assert!(tree.lookup("later.txt").is_none());
}

#[test]
fn test_extract_missing_entry_point_is_permission_error() {
    let content = build_zip(&[("only_file.txt", Some(b"data"))]);
    let mut tree = DirTree::new();
    let extractor = ZipExtractor::new();
    let result = extractor.extract_to_disk(&content, &mut tree, &"run".to_string());
    assert_eq!(result.unwrap_err(), LauncherError::PermissionError);
}

#[test]
fn test_extract_malformed_archive_is_extraction_error() {
    let content = b"this is not a zip archive".to_vec();
    let mut tree = DirTree::new();
    let extractor = ZipExtractor::new();
    let result = extractor.extract_to_disk(&content, &mut tree, &"run".to_string());
    assert_eq!(result.unwrap_err(), LauncherError::ExtractionError);
}

#[test]
fn test_extract_dispatches_on_compression_type() {
    let content = build_zip(&[("run", Some(b"binary"))]);
    let compression = Compression {
        compression_type: CompressionType::Zip,
    };
    let mut tree = DirTree::new();
    extract_to_disk(&compression, &content, &mut tree, &"run".to_string()).unwrap();
    assert!(is_executable(&tree, "run"));
}
