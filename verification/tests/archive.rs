use std::io::Write;

use copit::archive::{extract_from_bytes, find_archive_prefix, root_license, select_name, ArchiveError};

fn create_zip(files: &[(&str, &[u8])]) -> Vec<u8> {
    let buf = std::io::Cursor::new(Vec::new());
    let mut zip = zip::ZipWriter::new(buf);
    let options = zip::write::SimpleFileOptions::default().compression_method(zip::CompressionMethod::Stored);
    for (name, contents) in files {
        zip.start_file(*name, options).unwrap();
        zip.write_all(contents).unwrap();
    }
    zip.finish().unwrap().into_inner()
}

fn create_github_zip(prefix: &str, files: &[(&str, &[u8])]) -> Vec<u8> {
    let named: Vec<(String, &[u8])> = files.iter().map(|(n, c)| (format!("{prefix}{n}"), *c)).collect();
    let refs: Vec<(&str, &[u8])> = named.iter().map(|(n, c)| (n.as_str(), *c)).collect();
    create_zip(&refs)
}

fn empty_zip() -> Vec<u8> {
    let buf = std::io::Cursor::new(Vec::new());
    let zip = zip::ZipWriter::new(buf);
    zip.finish().unwrap().into_inner()
}

#[test]
fn extract_no_filter() {
    let data = create_zip(&[("a.txt", b"aaa"), ("sub/b.txt", b"bbb")]);
    let files = extract_from_bytes(&data, None, None).unwrap();
    assert_eq!(files.size(), 2);
    assert_eq!(files.find("a.txt").unwrap(), b"aaa");
    assert_eq!(files.find("sub/b.txt").unwrap(), b"bbb");
}

#[test]
fn extract_inner_path_file() {
    let data = create_zip(&[("a.txt", b"aaa"), ("sub/b.txt", b"bbb")]);
    let files = extract_from_bytes(&data, Some("sub/b.txt"), None).unwrap();
    assert_eq!(files.size(), 1);
    assert_eq!(files.find("sub/b.txt").unwrap(), b"bbb");
}

#[test]
fn extract_inner_path_dir() {
    let data = create_zip(&[("root/a.txt", b"aaa"), ("root/sub/b.txt", b"bbb"), ("other/c.txt", b"ccc")]);
    let files = extract_from_bytes(&data, Some("root"), None).unwrap();
    assert_eq!(files.size(), 2);
    assert!(files.has("root/a.txt"));
    assert!(files.has("root/sub/b.txt"));
}

#[test]
fn extract_strip_prefix() {
    let data = create_zip(&[("repo-v1/src/lib.rs", b"code"), ("repo-v1/README.md", b"readme")]);
    let files = extract_from_bytes(&data, None, Some("repo-v1/")).unwrap();
    assert_eq!(files.size(), 2);
    assert_eq!(files.find("src/lib.rs").unwrap(), b"code");
    assert_eq!(files.find("README.md").unwrap(), b"readme");
}

#[test]
fn extract_strip_prefix_and_inner_path() {
    let data = create_zip(&[
        ("repo-v1/src/lib.rs", b"code"),
        ("repo-v1/src/util.rs", b"util"),
        ("repo-v1/README.md", b"readme"),
    ]);
    let files = extract_from_bytes(&data, Some("src/lib.rs"), Some("repo-v1/")).unwrap();
    assert_eq!(files.size(), 1);
    assert_eq!(files.find("src/lib.rs").unwrap(), b"code");
}

#[test]
fn extract_strip_prefix_no_match() {
    let data = create_zip(&[("repo-v1/src/lib.rs", b"code")]);
    let files = extract_from_bytes(&data, None, Some("other-prefix/")).unwrap();
    assert_eq!(files.size(), 0);
}

#[test]
fn extract_inner_path_no_match() {
    let data = create_zip(&[("a.txt", b"aaa")]);
    let files = extract_from_bytes(&data, Some("nonexistent.txt"), None).unwrap();
    assert_eq!(files.size(), 0);
}

#[test]
fn extract_invalid_archive() {
    assert!(extract_from_bytes(b"not a zip", None, None).is_err());
}

#[test]
fn extract_empty_archive() {
    let data = empty_zip();
    let files = extract_from_bytes(&data, None, None).unwrap();
    assert_eq!(files.size(), 0);
}

#[test]
fn test_find_archive_prefix() {
    let data = create_github_zip("repo-v1.0/", &[("src/lib.rs", b"code")]);
    let prefix = find_archive_prefix(&data).unwrap();
    assert_eq!(prefix, "repo-v1.0/");
}

#[test]
fn test_find_archive_prefix_empty_zip() {
    let data = empty_zip();
    assert!(find_archive_prefix(&data).is_err());
    assert!(matches!(find_archive_prefix(&data), Err(ArchiveError::Empty)));
}

#[test]
fn test_find_archive_prefix_no_slash() {
    let buf = std::io::Cursor::new(Vec::new());
    let mut zip = zip::ZipWriter::new(buf);
    let options = zip::write::SimpleFileOptions::default();
    zip.start_file("single-file", options).unwrap();
    zip.write_all(b"data").unwrap();
    let data = zip.finish().unwrap().into_inner();
    let prefix = find_archive_prefix(&data).unwrap();
    assert_eq!(prefix, "single-file");
}

#[test]
fn directories_and_climbing_names_are_never_extracted() {
    let buf = std::io::Cursor::new(Vec::new());
    let mut zip = zip::ZipWriter::new(buf);
    let options = zip::write::SimpleFileOptions::default().compression_method(zip::CompressionMethod::Stored);
    zip.add_directory("dir/", options).unwrap();
    zip.start_file("dir/../../evil.txt", options).unwrap();
    zip.write_all(b"evil").unwrap();
    zip.start_file("dir/ok.txt", options).unwrap();
    zip.write_all(b"ok").unwrap();
    let data = zip.finish().unwrap().into_inner();

    let files = extract_from_bytes(&data, None, None).unwrap();
    assert_eq!(files.size(), 1);
    assert_eq!(files.find("dir/ok.txt").unwrap(), b"ok");
}

#[test]
fn a_deflated_entry_reads_back_its_contents() {
    let buf = std::io::Cursor::new(Vec::new());
    let mut zip = zip::ZipWriter::new(buf);
    let options = zip::write::SimpleFileOptions::default().compression_method(zip::CompressionMethod::Deflated);
    zip.start_file("big.txt", options).unwrap();
    let contents = vec![b'x'; 10_000];
    zip.write_all(&contents).unwrap();
    let data = zip.finish().unwrap().into_inner();

    let files = extract_from_bytes(&data, None, None).unwrap();
    assert_eq!(files.find("big.txt").unwrap(), &contents);
}

#[test]
fn an_unreadable_archive_says_so() {
    let error = extract_from_bytes(b"not a zip", None, None).unwrap_err();
    assert!(matches!(error, ArchiveError::Open { .. }));
    assert!(error.message().starts_with("Failed to open ZIP archive"));
}

#[test]
fn entry_names_are_chosen_by_prefix_and_inner_path() {
    assert_eq!(select_name("repo-v1/src/lib.rs", Some("src"), Some("repo-v1/")), Some("src/lib.rs".to_string()));
    assert_eq!(select_name("repo-v1/srcx/lib.rs", Some("src"), Some("repo-v1/")), None);
    assert_eq!(select_name("repo-v1/src/", None, Some("repo-v1/")), None);
    assert_eq!(select_name("a/../b", None, None), None);
    assert_eq!(select_name("a\\", None, None), None);
}

#[test]
fn root_license_files_match_regardless_of_case() {
    assert!(root_license("LICENSE"));
    assert!(root_license("license-mit"));
    assert!(root_license("Copying.md"));
    assert!(!root_license("docs/LICENSE"));
    assert!(!root_license("README.md"));
}
