use copit::config::{
    add_source_entry, add_source_entry_at, config_path, config_path_in, get_source_entry_from,
    installed_components, remove_source_entries, set_source_component, CopitConfig,
    RegistryConfig, ResolvedSettings, SourceEntry,
};
use copit::manifest::config_document;

fn make_config(overwrite: Option<bool>, skip: Option<bool>, backup: Option<bool>) -> CopitConfig {
    let mut cfg = CopitConfig::default();
    cfg.overwrite = overwrite;
    cfg.skip = skip;
    cfg.backup = backup;
    cfg
}

fn make_entry(overwrite: Option<bool>, skip: Option<bool>, backup: Option<bool>) -> SourceEntry {
    SourceEntry {
        path: "vendor/lib.rs".to_string(),
        source: "https://example.com/lib.rs".to_string(),
        version_ref: None,
        commit: None,
        copied_at: "2026-01-01T00:00:00Z".to_string(),
        excludes: vec![],
        frozen: None,
        overwrite,
        skip,
        backup,
        no_license: None,
        component: None,
        component_version: None,
        variants: vec![],
        optional: None,
    }
}

#[test]
fn resolved_settings_default_all_false() {
    let cfg = make_config(None, None, None);
    let s = ResolvedSettings::resolve(false, false, false, None, &cfg);
    assert!(!s.overwrite);
    assert!(!s.skip);
    assert!(!s.backup);
}

#[test]
fn resolved_settings_cli_wins() {
    let cfg = make_config(None, None, None);
    let s = ResolvedSettings::resolve(true, true, true, None, &cfg);
    assert!(s.overwrite);
    assert!(s.skip);
    assert!(s.backup);
}

#[test]
fn resolved_settings_config_defaults() {
    let cfg = make_config(Some(true), Some(true), Some(true));
    let s = ResolvedSettings::resolve(false, false, false, None, &cfg);
    assert!(s.overwrite);
    assert!(s.skip);
    assert!(s.backup);
}

#[test]
fn resolved_settings_source_overrides_config() {
    let cfg = make_config(Some(true), Some(true), Some(true));
    let entry = make_entry(Some(false), Some(false), Some(false));
    let s = ResolvedSettings::resolve(false, false, false, Some(&entry), &cfg);
    assert!(!s.overwrite);
    assert!(!s.skip);
    assert!(!s.backup);
}

#[test]
fn resolved_settings_cli_overrides_source() {
    let cfg = make_config(None, None, None);
    let entry = make_entry(Some(false), Some(false), Some(false));
    let s = ResolvedSettings::resolve(true, true, true, Some(&entry), &cfg);
    assert!(s.overwrite);
    assert!(s.skip);
    assert!(s.backup);
}

#[test]
fn resolved_settings_source_none_falls_through_to_config() {
    let cfg = make_config(Some(true), None, Some(true));
    let entry = make_entry(None, None, None);
    let s = ResolvedSettings::resolve(false, false, false, Some(&entry), &cfg);
    assert!(s.overwrite);
    assert!(!s.skip);
    assert!(s.backup);
}

#[test]
fn init_creates_config() {
    let config = CopitConfig::default();
    assert_eq!(config.target, "vendor");
    assert!(config.sources.is_empty());
    assert_eq!(config_path(), "copit.toml");
    assert_eq!(config_path_in("/tmp/project"), "/tmp/project/copit.toml");
}

#[test]
fn roundtrip() {
    let mut config = CopitConfig::default();
    add_source_entry(
        &mut config,
        "vendor/lib.rs",
        "github:serde-rs/serde@v1.0.219/serde/src/lib.rs",
        Some("v1.0.219"),
        Some("abc123"),
        None,
        None,
    );

    assert_eq!(config.sources.len(), 1);
    assert_eq!(config.sources[0].path, "vendor/lib.rs");
    assert_eq!(config.sources[0].version_ref, Some("v1.0.219".to_string()));
    assert_eq!(config.sources[0].commit, Some("abc123".to_string()));
    assert!(!config.sources[0].copied_at.is_empty());
    assert!(config.sources[0].copied_at.ends_with('Z'));
    let stamp: Vec<char> = config.sources[0].copied_at.chars().collect();
    let tail = &stamp[stamp.len() - 20..];
    for (k, c) in tail.iter().enumerate() {
        match k {
            4 | 7 => assert_eq!(*c, '-'),
            10 => assert_eq!(*c, 'T'),
            13 | 16 => assert_eq!(*c, ':'),
            19 => assert_eq!(*c, 'Z'),
            _ => assert!(c.is_ascii_digit()),
        }
    }
}

#[test]
fn add_source_updates_existing() {
    let mut config = CopitConfig::default();
    add_source_entry(&mut config, "vendor/lib.rs", "github:a/b@v1/path", Some("v1"), Some("sha1"), None, None);
    add_source_entry(&mut config, "vendor/lib.rs", "github:a/b@v2/path", Some("v2"), Some("sha2"), None, None);

    assert_eq!(config.sources.len(), 1);
    assert_eq!(config.sources[0].source, "github:a/b@v2/path");
    assert_eq!(config.sources[0].version_ref, Some("v2".to_string()));
    assert_eq!(config.sources[0].commit, Some("sha2".to_string()));
}

#[test]
fn add_source_without_ref_commit() {
    let mut config = CopitConfig::default();
    add_source_entry(&mut config, "vendor/file.txt", "https://example.com/file.txt", None, None, None, None);

    assert_eq!(config.sources[0].version_ref, None);
    assert_eq!(config.sources[0].commit, None);
}

#[test]
fn remove_source_entry() {
    let mut config = CopitConfig::default();
    add_source_entry(&mut config, "vendor/a.rs", "github:a/b@v1/a", None, None, None, None);
    add_source_entry(&mut config, "vendor/b.rs", "github:a/b@v1/b", None, None, None, None);

    let removed = remove_source_entries(&mut config, &["vendor/a.rs".to_string()]);
    assert_eq!(removed, vec!["vendor/a.rs"]);

    assert_eq!(config.sources.len(), 1);
    assert_eq!(config.sources[0].path, "vendor/b.rs");
}

#[test]
fn remove_all_sources() {
    let mut config = CopitConfig::default();
    add_source_entry(&mut config, "vendor/a.rs", "github:a/b@v1/a", None, None, None, None);
    add_source_entry(&mut config, "vendor/b.rs", "github:a/b@v1/b", None, None, None, None);

    let removed = remove_source_entries(&mut config, &["vendor/a.rs".to_string(), "vendor/b.rs".to_string()]);
    assert_eq!(removed.len(), 2);
    assert!(config.sources.is_empty());
}

#[test]
fn remove_nonexistent_returns_empty() {
    let mut config = CopitConfig::default();
    let removed = remove_source_entries(&mut config, &["vendor/x.rs".to_string()]);
    assert!(removed.is_empty());
}

#[test]
fn get_source_entry() {
    let mut config = CopitConfig::default();
    add_source_entry(&mut config, "vendor/lib.rs", "github:a/b@v1/lib.rs", Some("v1"), Some("sha1"), None, None);

    let entry = get_source_entry_from(&config, "vendor/lib.rs");
    assert!(entry.is_some());
    let entry = entry.unwrap();
    assert_eq!(entry.version_ref, Some("v1".to_string()));

    assert!(get_source_entry_from(&config, "vendor/nonexistent.rs").is_none());
}

#[test]
fn multiple_sources_independent() {
    let mut config = CopitConfig::default();
    add_source_entry(&mut config, "vendor/a.rs", "github:a/b@v1/a.rs", Some("v1"), Some("sha1"), None, None);
    add_source_entry(&mut config, "vendor/b.rs", "https://example.com/b.rs", None, None, None, None);
    add_source_entry(&mut config, "vendor/a.rs", "github:a/b@v2/a.rs", Some("v2"), Some("sha2"), None, None);

    assert_eq!(config.sources.len(), 2);
    assert_eq!(config.sources[0].version_ref, Some("v2".to_string()));
    assert_eq!(config.sources[1].version_ref, None);
}

#[test]
fn save_then_add_preserves_target() {
    let mut config = CopitConfig::default();
    config.target = "libs".to_string();
    add_source_entry(&mut config, "libs/util.rs", "github:x/y@main/util.rs", Some("main"), None, None, None);

    assert_eq!(config.target, "libs");
    assert_eq!(config.sources[0].path, "libs/util.rs");
}

#[test]
fn update_preserves_excludes() {
    let mut config = CopitConfig::default();
    config.sources.push(SourceEntry {
        path: "vendor/mylib".to_string(),
        source: "github:owner/repo@v1/src/mylib".to_string(),
        version_ref: Some("v1".to_string()),
        commit: Some("sha1".to_string()),
        copied_at: "2026-01-01T00:00:00Z".to_string(),
        excludes: vec!["Cargo.toml".to_string()],
        frozen: None,
        overwrite: None,
        skip: None,
        backup: None,
        no_license: None,
        component: None,
        component_version: None,
        variants: vec![],
        optional: None,
    });

    add_source_entry(&mut config, "vendor/mylib", "github:owner/repo@v2/src/mylib", Some("v2"), Some("sha2"), None, None);

    assert_eq!(config.sources[0].excludes, vec!["Cargo.toml"]);
    assert_eq!(config.sources[0].version_ref, Some("v2".to_string()));
}

#[test]
fn frozen_roundtrip() {
    let mut config = CopitConfig::default();
    add_source_entry(&mut config, "vendor/lib.rs", "github:a/b@v1/lib.rs", Some("v1"), Some("sha1"), Some(true), None);
    assert_eq!(config.sources[0].frozen, Some(true));
}

#[test]
fn frozen_not_serialized_when_none() {
    let mut config = CopitConfig::default();
    add_source_entry(&mut config, "vendor/lib.rs", "https://example.com/lib.rs", None, None, None, None);
    assert_eq!(config.sources[0].frozen, None);
    let raw = config_document(&config);
    assert!(!raw.contains("frozen"), "{raw}");
}

#[test]
fn roundtrip_with_excludes() {
    let mut config = CopitConfig::default();
    let mut entry = make_entry(None, None, None);
    entry.path = "vendor/prek-identify".to_string();
    entry.source = "github:j178/prek@master/crates/prek-identify".to_string();
    entry.version_ref = Some("master".to_string());
    entry.commit = Some("abc123def456".to_string());
    entry.copied_at = "2026-03-07T08:46:51Z".to_string();
    entry.excludes = vec!["Cargo.toml".to_string(), "src/lib.rs".to_string()];
    config.sources.push(entry);

    let raw = config_document(&config);
    let parsed: toml::Table = toml::from_str(&raw).unwrap();
    let sources = parsed["sources"].as_array().unwrap();
    let excludes: Vec<&str> =
        sources[0]["excludes"].as_array().unwrap().iter().map(|v| v.as_str().unwrap()).collect();
    assert_eq!(excludes, vec!["Cargo.toml", "src/lib.rs"]);
    assert_eq!(sources[0]["ref"].as_str(), Some("master"));
    assert_eq!(parsed["target"].as_str(), Some("vendor"));
}

#[test]
fn the_manifest_is_written_in_the_documented_order() {
    let mut config = CopitConfig::default();
    config.licenses_dir = Some("licenses".to_string());
    config.registries.insert(
        "kit",
        RegistryConfig {
            source: "github:o/kit@v1".to_string(),
            index: None,
            target: Some("app/components".to_string()),
            variants: vec!["django".to_string()],
            optional: vec![],
            package_manager: None,
        },
    );
    let mut entry = make_entry(None, None, None);
    entry.version_ref = Some("v1".to_string());
    entry.excludes = vec!["a.rs".to_string()];
    config.sources.push(entry);

    let raw = config_document(&config);
    let at = |needle: &str| raw.find(needle).unwrap_or_else(|| panic!("{needle} missing from:\n{raw}"));
    assert!(raw.starts_with("target = \"vendor\""), "{raw}");
    assert!(at("licenses_dir = \"licenses\"") < at("[registries.kit]"));
    assert!(at("[registries.kit]") < at("[[sources]]"));
    assert!(!raw.contains("[registries]\n"), "{raw}");
    assert!(at("variants = [\"django\"]") < at("[[sources]]"));
    assert!(!raw.contains("optional"), "{raw}");
    assert!(at("path = ") < at("ref = \"v1\""));
    assert!(at("ref = \"v1\"") < at("copied_at = "));
    assert!(at("copied_at = ") < at("excludes = [\"a.rs\"]"));

    let parsed: toml::Table = toml::from_str(&raw).unwrap();
    assert_eq!(parsed["registries"]["kit"]["target"].as_str(), Some("app/components"));
}

#[test]
fn freeze_then_unfreeze() {
    let mut config = CopitConfig::default();
    add_source_entry(&mut config, "vendor/lib.rs", "github:a/b@v1/lib.rs", Some("v1"), Some("sha1"), Some(true), None);
    assert_eq!(config.sources[0].frozen, Some(true));

    add_source_entry(&mut config, "vendor/lib.rs", "github:a/b@v2/lib.rs", Some("v2"), Some("sha2"), Some(false), None);
    assert_eq!(config.sources[0].frozen, None);
}

#[test]
fn update_with_none_preserves_frozen() {
    let mut config = CopitConfig::default();
    add_source_entry(&mut config, "vendor/lib.rs", "github:a/b@v1/lib.rs", Some("v1"), Some("sha1"), Some(true), None);
    add_source_entry(&mut config, "vendor/lib.rs", "github:a/b@v2/lib.rs", Some("v2"), Some("sha2"), None, None);

    assert_eq!(config.sources[0].frozen, Some(true));
    assert_eq!(config.sources[0].version_ref, Some("v2".to_string()));
}

#[test]
fn a_recorded_copy_reads_back_exactly() {
    let mut config = CopitConfig::default();
    add_source_entry_at(&mut config, "vendor/x", "github:o/r@v1/x", Some("v1"), None, None, Some(true), "2026-03-07T08:46:51Z");
    let e = get_source_entry_from(&config, "vendor/x").unwrap();
    assert_eq!(e.source, "github:o/r@v1/x");
    assert_eq!(e.copied_at, "2026-03-07T08:46:51Z");
    assert_eq!(e.no_license, Some(true));
    assert_eq!(e.commit, None);

    add_source_entry_at(&mut config, "vendor/x", "github:o/r@v2/x", None, None, None, Some(false), "2026-03-08T00:00:00Z");
    let e = get_source_entry_from(&config, "vendor/x").unwrap();
    assert_eq!(e.version_ref, None);
    assert_eq!(e.no_license, None);
    assert_eq!(e.copied_at, "2026-03-08T00:00:00Z");
}

#[test]
fn a_removed_path_is_gone_and_the_others_stay() {
    let mut config = CopitConfig::default();
    for p in ["a", "b", "c"] {
        add_source_entry_at(&mut config, p, "https://x/y", None, None, None, None, "t");
    }
    let removed = remove_source_entries(&mut config, &["b".to_string(), "zzz".to_string()]);
    assert_eq!(removed, vec!["b"]);
    assert!(get_source_entry_from(&config, "b").is_none());
    assert!(get_source_entry_from(&config, "a").is_some());
    assert!(get_source_entry_from(&config, "c").is_some());
}

#[test]
fn installed_components_read_the_backlinks_of_one_registry() {
    let mut config = CopitConfig::default();
    add_source_entry_at(&mut config, "app/auth", "github:o/r@v1/auth", None, None, None, None, "t");
    add_source_entry_at(&mut config, "app/cache", "github:o/r@v1/cache", None, None, None, None, "t");
    add_source_entry_at(&mut config, "vendor/lib.rs", "https://x/lib.rs", None, None, None, None, "t");
    assert!(set_source_component(&mut config, "app/auth", "my-kit:auth", Some("1.0.0"), &["postgres".to_string()], None));
    assert!(set_source_component(&mut config, "app/cache", "other:cache", None, &[], Some(&["tests".to_string()][..])));
    assert!(!set_source_component(&mut config, "nope", "my-kit:nope", None, &[], None));

    assert_eq!(installed_components(&config, "my-kit"), vec!["auth"]);
    assert_eq!(installed_components(&config, "other"), vec!["cache"]);
    let auth = get_source_entry_from(&config, "app/auth").unwrap();
    assert_eq!(auth.component.as_deref(), Some("my-kit:auth"));
    assert_eq!(auth.component_version.as_deref(), Some("1.0.0"));
    assert_eq!(auth.variants, vec!["postgres"]);
    let cache = get_source_entry_from(&config, "app/cache").unwrap();
    assert_eq!(cache.optional, Some(vec!["tests".to_string()]));
}
