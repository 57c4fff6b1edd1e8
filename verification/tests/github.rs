use copit::github::{archive_url, commit_url, local_license, skipped_dir};

#[test]
fn archive_and_commit_urls_name_the_ref() {
    assert_eq!(
        archive_url("https://github.com", "owner", "repo", "v1.2"),
        "https://github.com/owner/repo/archive/v1.2.zip"
    );
    assert_eq!(
        commit_url("https://api.github.com", "owner", "repo", "main"),
        "https://api.github.com/repos/owner/repo/commits/main"
    );
}

#[test]
fn local_license_files_are_recognised_in_any_case() {
    assert!(local_license("LICENSE"));
    assert!(local_license("license.md"));
    assert!(local_license("Licence.txt"));
    assert!(local_license("copying"));
    assert!(!local_license("README.md"));
    assert!(!local_license("licenses.txt"));
}

#[test]
fn caches_and_git_metadata_are_skipped() {
    assert!(skipped_dir("__pycache__"));
    assert!(skipped_dir(".git"));
    assert!(!skipped_dir("src"));
}
