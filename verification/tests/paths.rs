use copit::config::{target_for_entry, CopitConfig, RegistryConfig, SourceEntry};
use copit::names::NameMap;
use copit::paths::{
    compute_dest, compute_strip_prefix, existing_license_dir, find_license_files,
    has_license_files, join, license_dir_candidates, license_dir_for, portable_display,
    remove_license_files, validate_install_target, validate_no_path_traversal, validate_no_path_traversal_on, dirs_to_prune, prune_chain, TargetError,
    TraversalError,
};

#[test]
fn license_dir_for_centralized_single_file() {
    let result = license_dir_for("vendor/lib.rs", "vendor", Some("licenses"));
    assert_eq!(result, "licenses/lib");
}

#[test]
fn license_dir_for_centralized_directory() {
    let result = license_dir_for("vendor/mylib", "vendor", Some("licenses"));
    assert_eq!(result, "licenses/mylib");
}

#[test]
fn license_dir_for_side_by_side_single_file() {
    let result = license_dir_for("vendor/lib.rs", "vendor", None);
    assert_eq!(result, "vendor/lib");
}

#[test]
fn license_dir_for_side_by_side_directory() {
    let result = license_dir_for("vendor/mylib", "vendor", None);
    assert_eq!(result, "vendor/mylib");
}

#[test]
fn license_dir_for_nested_target_single_file() {
    let result = license_dir_for("my_proj/ext/utils/helpers.rs", "my_proj/ext", Some("licenses"));
    assert_eq!(result, "licenses/utils/helpers");
}

#[test]
fn license_dir_for_nested_target_directory() {
    let result = license_dir_for("my_proj/ext/commands", "my_proj/ext", Some("licenses"));
    assert_eq!(result, "licenses/commands");
}

#[test]
fn license_dir_for_strip_prefix_not_matching() {
    let result = license_dir_for("other/lib.rs", "vendor", Some("licenses"));
    assert_eq!(result, "licenses/other/lib");
}

#[test]
fn an_install_target_must_stay_inside_the_project() {
    assert!(validate_install_target("vendor").is_ok());
    assert!(validate_install_target("app/components").is_ok());
    assert!(validate_install_target("app/../components").is_ok());
    assert!(validate_install_target("./app/components").is_ok());

    assert!(validate_install_target("").is_err());
    assert!(validate_install_target("../../shared").is_err());
    assert!(validate_install_target("app/../../shared").is_err());
}

#[test]
fn an_install_target_is_judged_the_same_on_every_platform() {
    for target in ["/etc/cron.d", "\\etc\\cron.d", "C:\\Windows\\Temp", "C:temp", "..\\..\\shared"] {
        assert!(validate_install_target(target).is_err(), "{target} should be rejected");
    }
}

#[test]
fn a_component_file_resolves_under_its_target() {
    let target = "app/components";
    let track_path = join(target, "auth_core");

    for within in ["__init__.py", "stores/sqlite.py", "a/b/c/deep.py"] {
        let dest = join(&track_path, within);
        assert!(
            validate_no_path_traversal(&dest, target).is_ok(),
            "{within} should resolve inside {target}"
        );
    }
}

#[test]
fn a_component_file_cannot_climb_out_of_its_target() {
    let target = "app/components";
    let track_path = join(target, "auth_core");

    for within in ["../../../etc/passwd", "../../../../outside.py"] {
        let dest = join(&track_path, within);
        assert!(validate_no_path_traversal(&dest, target).is_err(), "{within} should be rejected");
    }
}

#[test]
fn a_destination_is_judged_against_the_resolved_base() {
    assert!(validate_no_path_traversal("x", ".").is_ok());
    assert!(validate_no_path_traversal("vendor/x", "./vendor").is_ok());
    assert!(validate_no_path_traversal("components/x.py", "app/../components").is_ok());
    assert!(validate_no_path_traversal("./app/components/auth/a.py", "./app/components").is_ok());
    assert!(validate_no_path_traversal("vendor/x", "../vendor").is_err());
}

#[test]
fn a_backslash_climbs_only_where_the_platform_reads_it_as_a_separator() {
    assert!(validate_no_path_traversal("vendor/..\\..\\x", "vendor").is_ok());
    assert!(validate_no_path_traversal("vendor\\..\\..\\x", "vendor").is_err());
    match validate_no_path_traversal_on("vendor\\..\\..\\x", "vendor", true) {
        Err(TraversalError::Escapes { .. }) => {}
        other => panic!("{other:?}"),
    }
    match validate_no_path_traversal_on("vendor/a\\..\\..\\other", "vendor", true) {
        Err(TraversalError::Outside { .. }) => {}
        other => panic!("{other:?}"),
    }
}

fn config_with_registry(registry_target: Option<&str>) -> CopitConfig {
    let mut registries = NameMap::new();
    registries.insert(
        "my-kit",
        RegistryConfig {
            source: "github:owner/repo@v1".to_string(),
            index: None,
            target: registry_target.map(str::to_string),
            variants: Vec::new(),
            optional: Vec::new(),
            package_manager: None,
        },
    );
    let mut cfg = CopitConfig::default();
    cfg.target = "vendor".to_string();
    cfg.registries = registries;
    cfg
}

fn entry(path: &str, component: Option<&str>) -> SourceEntry {
    SourceEntry {
        path: path.to_string(),
        source: String::new(),
        version_ref: None,
        commit: None,
        copied_at: String::new(),
        excludes: Vec::new(),
        frozen: None,
        overwrite: None,
        skip: None,
        backup: None,
        no_license: None,
        component: component.map(str::to_string),
        component_version: None,
        variants: Vec::new(),
        optional: None,
    }
}

#[test]
fn target_for_entry_prefers_the_registrys_own_target() {
    let cfg = config_with_registry(Some("app/ws_kits"));
    let entry = entry("app/ws_kits/ag_ui", Some("my-kit:ag-ui"));

    assert_eq!(target_for_entry(&cfg, &entry), "app/ws_kits");
}

#[test]
fn target_for_entry_falls_back_to_the_project_target() {
    let cfg = config_with_registry(None);

    assert_eq!(target_for_entry(&cfg, &entry("vendor/ag_ui", Some("my-kit:ag-ui"))), "vendor");
    assert_eq!(target_for_entry(&cfg, &entry("vendor/lib.rs", None)), "vendor");
}

#[test]
fn target_for_entry_ignores_a_registry_that_is_gone() {
    let cfg = config_with_registry(Some("app/ws_kits"));
    let entry = entry("vendor/thing", Some("removed-kit:thing"));

    assert_eq!(target_for_entry(&cfg, &entry), "vendor");
}

#[test]
fn a_registry_component_keeps_its_name_under_a_licenses_dir() {
    let cfg = config_with_registry(Some("app/ws_kits"));
    let entry = entry("app/ws_kits/ag_ui", Some("my-kit:ag-ui"));
    let target = target_for_entry(&cfg, &entry);

    let dir = license_dir_for(&entry.path, &target, Some("licenses"));

    assert_eq!(dir, "licenses/ag_ui");
}

#[test]
fn existing_license_dir_finds_files_the_config_does_not_know_about() {
    // The setting says "licenses", the files are still beside the source.
    let found = existing_license_dir("/p/vendor/mylib", "/p/vendor", "/p/vendor", Some("licenses"), &["/p/vendor/mylib".to_string()]);
    assert_eq!(found, "/p/vendor/mylib");
}

#[test]
fn existing_license_dir_finds_the_layout_written_before_registry_targets() {
    let found = existing_license_dir(
        "/p/app/ws_kits/ag_ui",
        "/p/app/ws_kits",
        "/p",
        Some("/p/licenses"),
        &["/p/licenses/app/ws_kits/ag_ui".to_string()],
    );
    assert_eq!(found, "/p/licenses/app/ws_kits/ag_ui");
}

#[test]
fn existing_license_dir_uses_the_configured_layout_when_it_holds_the_files() {
    let found = existing_license_dir("/p/vendor/mylib", "/p/vendor", "/p/vendor", Some("/p/licenses"), &["/p/licenses/mylib".to_string()]);
    assert_eq!(found, "/p/licenses/mylib");
}

#[test]
fn with_no_files_anywhere_the_current_layout_is_reported() {
    let found = existing_license_dir("vendor/mylib", "vendor", "vendor", Some("licenses"), &[]);
    assert_eq!(found, "licenses/mylib");
}

#[test]
fn candidates_list_each_layout_once_current_first() {
    assert_eq!(
        license_dir_candidates("app/ws_kits/ag_ui", "app/ws_kits", ".", Some("licenses")),
        vec!["licenses/ag_ui", "licenses/app/ws_kits/ag_ui", "app/ws_kits/ag_ui"]
    );
    assert_eq!(license_dir_candidates("vendor/mylib", "vendor", "vendor", None), vec!["vendor/mylib"]);
    assert_eq!(
        license_dir_candidates("vendor/lib.rs", "vendor", "vendor", Some("licenses")),
        vec!["licenses/lib", "vendor/lib"]
    );
}

#[test]
fn removing_a_directory_source_leaves_its_own_licenses_to_the_directory() {
    assert_eq!(remove_license_files("vendor/mylib", "vendor", "vendor", None), Vec::<String>::new());
    assert_eq!(
        remove_license_files("vendor/mylib", "vendor", "vendor", Some("licenses")),
        vec!["licenses/mylib"]
    );
    assert_eq!(remove_license_files("vendor/lib.rs", "vendor", "vendor", None), vec!["vendor/lib"]);
}

#[test]
fn license_files_are_recognised_by_exact_name_in_lookup_order() {
    let present = vec!["README.md".to_string(), "COPYING".to_string(), "LICENSE".to_string(), "license".to_string()];
    assert_eq!(find_license_files(&present), vec!["LICENSE", "COPYING"]);
    assert!(has_license_files(&present));
    assert!(!has_license_files(&["README.md".to_string()]));
}

#[test]
fn a_multi_file_source_strips_all_but_its_last_folder() {
    assert_eq!(compute_strip_prefix("crates/prek-identify", true), Some("crates/".to_string()));
    assert_eq!(compute_strip_prefix("prek-identify", true), None);
    assert_eq!(compute_strip_prefix("crates/prek-identify", false), None);
    assert_eq!(compute_strip_prefix("a/b/c", true), Some("a/b/".to_string()));
}

#[test]
fn a_file_lands_under_the_target_by_its_kept_path() {
    assert_eq!(compute_dest("src/lib.rs", "vendor", "src/lib.rs", &None, true), "vendor/lib.rs");
    assert_eq!(
        compute_dest("crates/prek-identify/src/lib.rs", "vendor", "crates/prek-identify", &Some("crates/".to_string()), false),
        "vendor/prek-identify/src/lib.rs"
    );
    assert_eq!(compute_dest("other/x.rs", "vendor/", "x", &Some("crates/".to_string()), false), "vendor/other/x.rs");
    assert_eq!(compute_dest("..", "vendor", "fallback.rs", &None, true), "vendor/fallback.rs");
}

#[test]
fn joining_follows_pathbuf() {
    assert_eq!(join("vendor", "lib.rs"), "vendor/lib.rs");
    assert_eq!(join("vendor/", "lib.rs"), "vendor/lib.rs");
    assert_eq!(join("", "lib.rs"), "lib.rs");
    assert_eq!(join("vendor", "/etc/passwd"), "/etc/passwd");
}

#[test]
fn windows_separators_become_forward_slashes() {
    assert_eq!(portable_display("a\\b\\c.rs", true), "a/b/c.rs");
    assert_eq!(portable_display("a\\b", false), "a\\b");
}

#[test]
fn each_refusal_explains_itself() {
    match validate_install_target("") {
        Err(e @ TargetError::Empty) => assert_eq!(e.message(), "Target directory cannot be empty"),
        other => panic!("{other:?}"),
    }
    match validate_install_target("/abs") {
        Err(e @ TargetError::NotRelative { .. }) => {
            assert_eq!(e.message(), "Target directory must be relative to the project: /abs")
        }
        other => panic!("{other:?}"),
    }
    match validate_install_target("a/../..") {
        Err(e @ TargetError::Escapes { .. }) => assert_eq!(e.message(), "Target directory escapes the project: a/../.."),
        other => panic!("{other:?}"),
    }
    match validate_no_path_traversal("../x", "vendor") {
        Err(e @ TraversalError::Escapes { .. }) => {
            assert_eq!(e.message(), "Path traversal detected: ../x escapes target directory vendor")
        }
        other => panic!("{other:?}"),
    }
    match validate_no_path_traversal("other/x", "vendor") {
        Err(e @ TraversalError::Outside { .. }) => {
            assert_eq!(e.message(), "Path traversal detected: other/x is outside target directory vendor")
        }
        other => panic!("{other:?}"),
    }
    assert!(validate_no_path_traversal("vendor/./a/../b.rs", "vendor").is_ok());
}

#[test]
fn an_emptied_license_directory_is_pruned_up_to_the_first_non_empty_parent() {
    assert_eq!(prune_chain("licenses/owner-repo"), vec!["licenses/owner-repo", "licenses"]);
    assert_eq!(prune_chain("./a/b"), vec!["./a/b", "./a"]);
    assert_eq!(prune_chain("/x"), vec!["/x", "/"]);
    assert_eq!(dirs_to_prune("licenses/owner-repo", &[0, 1]), vec!["licenses/owner-repo", "licenses"]);
    assert_eq!(dirs_to_prune("licenses/owner-repo", &[0, 2]), vec!["licenses/owner-repo"]);
    assert!(dirs_to_prune("licenses/owner-repo", &[1, 1]).is_empty());
}
