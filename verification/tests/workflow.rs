use copit::config::{CopitConfig, SourceEntry};
use copit::names::NameMap;
use copit::registry::{Component, OptionalGroup};
use copit::workflow::{
    add_track_path, backlink_for, check_adoption, check_package_manager, confirm_prompt,
    freeze_flag, install_target, license_move, missing_components, packages_label, plural,
    recorded_optional, ref_is_ambiguous, registry_target, removal_paths, selected_variants,
    sibling_target, skips_frozen, sync_target, untracked_paths, update_base_target, update_dest,
    update_selection, version_change, AdoptError,
};

fn names(items: &[&str]) -> Vec<String> {
    items.iter().map(|i| i.to_string()).collect()
}

fn entry(path: &str, component: Option<&str>) -> SourceEntry {
    SourceEntry {
        path: path.to_string(),
        source: "github:o/r@v1/x".to_string(),
        version_ref: None,
        commit: None,
        copied_at: String::new(),
        excludes: Vec::new(),
        frozen: None,
        overwrite: None,
        skip: None,
        backup: None,
        no_license: None,
        component: component.map(str::to_string),
        component_version: None,
        variants: Vec::new(),
        optional: None,
    }
}

fn widget() -> Component {
    let mut optional = NameMap::new();
    optional.insert("tests", OptionalGroup::Files(names(&["tests/test_w.py"])));
    optional.insert("docs", OptionalGroup::Files(names(&["docs/w.md"])));
    Component {
        name: "widget".to_string(),
        title: String::new(),
        description: String::new(),
        tier: "core".to_string(),
        version: "1.0.0".to_string(),
        path: "kits/widget".to_string(),
        tags: vec![],
        authors: vec![],
        requirements: vec![],
        dependencies: vec![],
        variants: NameMap::new(),
        only_variants: vec![],
        files: names(&["__init__.py"]),
        optional,
    }
}

#[test]
fn recorded_selections_win_over_the_registry_defaults() {
    assert_eq!(selected_variants(&names(&["django"]), &names(&["flask"])), vec!["django"]);
    assert_eq!(selected_variants(&[], &names(&["flask"])), vec!["flask"]);
    assert_eq!(recorded_optional(&Some(vec![]), &names(&["tests"])), Some(vec![]));
    assert_eq!(recorded_optional(&None, &names(&["tests"])), Some(names(&["tests"])));
    assert_eq!(recorded_optional(&None, &[]), None);
}

#[test]
fn an_update_writes_only_published_or_opted_in_files() {
    let w = widget();
    let groups = names(&["tests"]);
    let selected = update_selection(&w, &[], Some(groups.as_slice()));
    assert!(selected.wants("__init__.py", false));
    assert!(selected.wants("tests/test_w.py", false));
    assert!(!selected.wants("docs/w.md", true));
    assert!(!selected.wants("setup.cfg", true));

    let legacy = update_selection(&w, &[], None);
    assert!(legacy.wants("docs/w.md", true));
    assert!(!legacy.wants("docs/w.md", false));
    assert!(!legacy.wants("setup.cfg", true));
}

#[test]
fn a_version_move_is_reported() {
    assert_eq!(version_change(Some("1.0.0"), "1.1.0"), "1.0.0 -> 1.1.0");
    assert_eq!(version_change(Some("1.1.0"), "1.1.0"), "1.1.0");
    assert_eq!(version_change(None, "1.1.0"), "1.1.0");
    assert_eq!(plural(1), "");
    assert_eq!(plural(0), "s");
    assert_eq!(plural(3), "s");
}

#[test]
fn only_missing_requirements_are_installed() {
    assert_eq!(missing_components(&names(&["a", "b", "c"]), &names(&["b"])), vec!["a", "c"]);
    assert_eq!(untracked_paths(&names(&["x", "y"]), &names(&["y"])), vec!["x"]);
}

#[test]
fn group_requirements_land_beside_their_component() {
    assert_eq!(sibling_target("app/components/auth", "vendor"), "app/components");
    assert_eq!(sibling_target("auth", "vendor"), "vendor");
    assert_eq!(sibling_target("/", "vendor"), "vendor");
}

#[test]
fn freezing_and_skipping() {
    assert_eq!(freeze_flag(true, false), Some(true));
    assert_eq!(freeze_flag(false, true), Some(false));
    assert_eq!(freeze_flag(false, false), None);
    assert!(skips_frozen(Some(true), false));
    assert!(!skips_frozen(Some(true), true));
    assert!(!skips_frozen(None, false));
    assert!(ref_is_ambiguous(true, 2));
    assert!(!ref_is_ambiguous(true, 1));
    assert!(!ref_is_ambiguous(false, 5));
}

#[test]
fn an_install_adopts_only_its_own_path() {
    let backlink = backlink_for("my-kit", "auth");
    assert_eq!(backlink, "my-kit:auth");
    assert!(check_adoption(None, "app/auth", &backlink).is_ok());
    assert!(check_adoption(Some(&entry("app/auth", Some("my-kit:auth"))), "app/auth", &backlink).is_ok());
    match check_adoption(Some(&entry("app/auth", Some("other:auth"))), "app/auth", &backlink) {
        Err(e @ AdoptError::OtherComponent { .. }) => assert_eq!(
            e.message(),
            "app/auth is already tracked as component 'other:auth'. Remove it first, or install to a different target."
        ),
        other => panic!("{other:?}"),
    }
    match check_adoption(Some(&entry("app/auth", None)), "app/auth", &backlink) {
        Err(e @ AdoptError::PlainSource { .. }) => assert_eq!(
            e.message(),
            "app/auth is already tracked from github:o/r@v1/x. Remove it first, or install to a different target."
        ),
        other => panic!("{other:?}"),
    }
}

#[test]
fn the_install_target_comes_from_the_user_first() {
    assert_eq!(install_target(Some("lib"), Some("app/components"), "vendor"), "lib");
    assert_eq!(install_target(None, Some("app/components"), "vendor"), "app/components");
    assert_eq!(install_target(None, None, "vendor"), "vendor");
    assert_eq!(registry_target(Some("lib"), Some("suggested")), Some("lib".to_string()));
    assert_eq!(registry_target(None, Some("suggested")), Some("suggested".to_string()));
    assert_eq!(registry_target(None, None), None);
}

#[test]
fn an_added_source_is_tracked_under_its_last_name() {
    assert_eq!(add_track_path("src/lib.rs", "vendor", "src/lib.rs", true), "vendor/lib.rs");
    assert_eq!(add_track_path("crates/prek-identify/src/lib.rs", "vendor", "crates/prek-identify", false), "vendor/prek-identify");
}

#[test]
fn an_update_writes_where_the_source_was_copied() {
    assert_eq!(update_base_target("vendor/prek-identify"), "vendor");
    assert_eq!(update_base_target("lib.rs"), "");
    assert_eq!(update_base_target(""), ".");
    assert_eq!(update_dest("src/lib.rs", "vendor/lib.rs", "src/lib.rs", &None, true), "vendor/lib.rs");
    assert_eq!(
        update_dest("crates/prek-identify/src/lib.rs", "vendor/prek-identify", "crates/prek-identify", &Some("crates/".to_string()), false),
        "vendor/prek-identify/src/lib.rs"
    );
}

#[test]
fn licenses_sync_moves_between_layouts() {
    assert_eq!(sync_target(true, Some("licenses"), Some("x")), None);
    assert_eq!(sync_target(false, Some("licenses"), Some("x")), Some("licenses".to_string()));
    assert_eq!(sync_target(false, None, Some("x")), Some("x".to_string()));
    assert_eq!(
        license_move("vendor/lib", "vendor/lib.rs", "vendor", Some("licenses")),
        Some(("vendor/lib".to_string(), "licenses/lib".to_string()))
    );
    assert_eq!(license_move("licenses/lib", "vendor/lib.rs", "vendor", Some("licenses")), None);
}

#[test]
fn removing_everything_lists_every_tracked_path() {
    let mut cfg = CopitConfig::default();
    cfg.sources.push(entry("vendor/a", None));
    cfg.sources.push(entry("vendor/b", None));
    assert_eq!(removal_paths(&cfg, true, &names(&["x"])), vec!["vendor/a", "vendor/b"]);
    assert_eq!(removal_paths(&cfg, false, &names(&["x"])), vec!["x"]);
}

#[test]
fn package_managers_are_checked_and_labelled() {
    assert!(check_package_manager("uv").is_ok());
    assert!(check_package_manager("none").is_ok());
    let error = check_package_manager("conda").unwrap_err();
    assert_eq!(
        error.message(),
        "Unknown package manager 'conda'. Known: uv, poetry, pdm, pip, pnpm, yarn, npm, cargo, or 'none'"
    );
    assert_eq!(packages_label(true, Some("uv")), "Packages (not installed, --no-packages)");
    assert_eq!(packages_label(false, Some("uv")), "Packages (via uv)");
    assert_eq!(packages_label(false, None), "Packages (install these yourself)");
}

#[test]
fn the_confirmation_counts_what_it_installs() {
    assert_eq!(confirm_prompt(1, 0), "\nInstall 1 component?");
    assert_eq!(confirm_prompt(3, 1), "\nInstall 3 components and 1 package?");
    assert_eq!(confirm_prompt(2, 12), "\nInstall 2 components and 12 packages?");
}
