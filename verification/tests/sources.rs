use copit::sources::{http_file_name, parse_source, Source, SourceError};

#[test]
fn parse_github_full() {
    let s = parse_source("github:serde-rs/serde@v1.0.219/serde/src/lib.rs").unwrap();
    match s {
        Source::GitHub { owner, repo, version, path } => {
            assert_eq!(owner, "serde-rs");
            assert_eq!(repo, "serde");
            assert_eq!(version, "v1.0.219");
            assert_eq!(path, "serde/src/lib.rs");
        }
        _ => panic!("Expected GitHub"),
    }
}

#[test]
fn parse_github_gh_alias() {
    let s = parse_source("gh:owner/repo@main/src/utils.rs").unwrap();
    match s {
        Source::GitHub { owner, repo, version, path } => {
            assert_eq!(owner, "owner");
            assert_eq!(repo, "repo");
            assert_eq!(version, "main");
            assert_eq!(path, "src/utils.rs");
        }
        _ => panic!("Expected GitHub"),
    }
}

#[test]
fn parse_github_empty_components() {
    assert!(parse_source("github:/repo@v1/path").is_err());
    assert!(parse_source("github:owner/@v1/path").is_err());
    assert!(parse_source("github:owner/repo@/path").is_err());
    assert!(parse_source("github:owner/repo@v1/").is_err());
}

#[test]
fn parse_github_no_path() {
    assert!(parse_source("github:owner/repo@v1").is_err());
}

#[test]
fn parse_github_no_at() {
    assert!(parse_source("github:missing-at").is_err());
}

#[test]
fn parse_http() {
    match parse_source("https://example.com/file.txt").unwrap() {
        Source::Http { url } => assert_eq!(url, "https://example.com/file.txt"),
        _ => panic!("Expected Http"),
    }
}

#[test]
fn parse_http_scheme() {
    match parse_source("http://example.com/file.txt").unwrap() {
        Source::Http { url } => assert_eq!(url, "http://example.com/file.txt"),
        _ => panic!("Expected Http"),
    }
}

#[test]
fn parse_zip_with_inner() {
    match parse_source("https://example.com/archive.zip#src/main.rs").unwrap() {
        Source::Zip { url, inner_path } => {
            assert_eq!(url, "https://example.com/archive.zip");
            assert_eq!(inner_path, Some("src/main.rs".to_string()));
        }
        _ => panic!("Expected Zip"),
    }
}

#[test]
fn parse_zip_without_inner() {
    match parse_source("https://example.com/archive.zip").unwrap() {
        Source::Zip { url, inner_path } => {
            assert_eq!(url, "https://example.com/archive.zip");
            assert_eq!(inner_path, None);
        }
        _ => panic!("Expected Zip"),
    }
}

#[test]
fn parse_invalid() {
    assert!(parse_source("ftp://example.com").is_err());
    assert!(parse_source("random-string").is_err());
}

#[test]
fn to_source_string_all_variants() {
    let gh = parse_source("github:owner/repo@main/src/lib.rs").unwrap();
    assert_eq!(gh.to_source_string(), "github:owner/repo@main/src/lib.rs");

    let http = parse_source("https://example.com/file.txt").unwrap();
    assert_eq!(http.to_source_string(), "https://example.com/file.txt");

    let zip_with = parse_source("https://example.com/a.zip#inner/path").unwrap();
    assert_eq!(zip_with.to_source_string(), "https://example.com/a.zip#inner/path");

    let zip_none = parse_source("https://example.com/a.zip").unwrap();
    assert_eq!(zip_none.to_source_string(), "https://example.com/a.zip");
}

#[test]
fn with_version_github() {
    let s = parse_source("github:owner/repo@v1.0/src/lib.rs").unwrap();
    let updated = s.with_version("v2.0");
    match &updated {
        Source::GitHub { version, path, .. } => {
            assert_eq!(version, "v2.0");
            assert_eq!(path, "src/lib.rs");
        }
        _ => panic!("Expected GitHub"),
    }
    assert_eq!(updated.to_source_string(), "github:owner/repo@v2.0/src/lib.rs");
}

#[test]
fn with_version_http_unchanged() {
    let s = parse_source("https://example.com/file.txt").unwrap();
    let updated = s.with_version("v2.0");
    match &updated {
        Source::Http { url } => assert_eq!(url, "https://example.com/file.txt"),
        _ => panic!("Expected Http"),
    }
}

#[test]
fn with_version_zip_unchanged() {
    let s = parse_source("https://example.com/a.zip#src/main.rs").unwrap();
    let updated = s.with_version("v3.0");
    match &updated {
        Source::Zip { url, inner_path } => {
            assert_eq!(url, "https://example.com/a.zip");
            assert_eq!(inner_path.as_deref(), Some("src/main.rs"));
        }
        _ => panic!("Expected Zip"),
    }
}

#[test]
fn with_version_roundtrip() {
    let s = parse_source("gh:owner/repo@v1/path/to/file.rs").unwrap();
    let updated = s.with_version("v2");
    let reparsed = parse_source(&updated.to_source_string()).unwrap();
    match reparsed {
        Source::GitHub { version, path, .. } => {
            assert_eq!(version, "v2");
            assert_eq!(path, "path/to/file.rs");
        }
        _ => panic!("Expected GitHub"),
    }
}

#[test]
fn suggested_name_all_variants() {
    let gh = parse_source("github:owner/repo@v1/src/lib.rs").unwrap();
    assert_eq!(gh.suggested_name(), "src/lib.rs");

    let http = parse_source("https://example.com/file.txt").unwrap();
    assert_eq!(http.suggested_name(), "file.txt");

    let zip_with = parse_source("https://example.com/a.zip#src/utils.rs").unwrap();
    assert_eq!(zip_with.suggested_name(), "src/utils.rs");

    let zip_none = parse_source("https://example.com/archive.zip").unwrap();
    assert_eq!(zip_none.suggested_name(), "archive.zip");
}

#[test]
fn each_refusal_names_what_was_wrong() {
    let unknown = parse_source("ftp://example.com").unwrap_err();
    assert!(matches!(unknown, SourceError::UnknownFormat { .. }));
    assert!(unknown.message().starts_with("Unknown source format: ftp://example.com\nExpected:"));

    let no_at = parse_source("github:missing-at").unwrap_err();
    assert!(matches!(no_at, SourceError::MissingVersion { .. }));
    assert_eq!(no_at.message(), "GitHub source must contain @version: missing-at");

    let no_slash = parse_source("github:ownerrepo@v1/x").unwrap_err();
    assert!(matches!(no_slash, SourceError::NotOwnerRepo { .. }));
    assert_eq!(no_slash.message(), "GitHub source must be owner/repo: ownerrepo");

    let no_path = parse_source("github:owner/repo@v1").unwrap_err();
    assert!(matches!(no_path, SourceError::MissingPath { .. }));
    assert_eq!(no_path.message(), "GitHub source must contain a path after version: v1");

    let empty = parse_source("github:owner/repo@v1/").unwrap_err();
    assert!(matches!(empty, SourceError::EmptyComponents { .. }));
    assert_eq!(empty.message(), "GitHub source has empty components: github:owner/repo@v1/");
}

#[test]
fn a_zip_url_without_a_zip_suffix_before_the_hash_is_plain_http() {
    match parse_source("https://example.com/page#section").unwrap() {
        Source::Http { url } => assert_eq!(url, "https://example.com/page#section"),
        _ => panic!("Expected Http"),
    }
}

#[test]
fn a_parsed_source_writes_back_with_the_alias_spelled_out() {
    let s = parse_source("gh:owner/repo@v1/a/b.rs").unwrap();
    assert_eq!(s.to_source_string(), "github:owner/repo@v1/a/b.rs");
    let again = parse_source(&s.to_source_string()).unwrap();
    assert_eq!(again.to_source_string(), s.to_source_string());
}

#[test]
fn an_http_download_is_named_after_the_last_url_segment() {
    assert_eq!(http_file_name("https://example.com/dir/file.txt"), "file.txt");
    assert_eq!(http_file_name("https://example.com/dir/"), "");
    assert_eq!(http_file_name("no-slash"), "no-slash");
}
