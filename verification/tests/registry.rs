use copit::names::NameMap;
use copit::registry::{
    within_one_edit, Component, Deps, InstallConfig, InstallPlan, OptionalGroup, OptionalSpec, RegistryIndex,
    Variant,
};
use copit::registry_source::{
    component_dir, component_relative, component_source, index_source, parse_component_ref,
    registry_name, validate_registry_name, with_ref, NameError, RefError,
};

fn component(name: &str, requires: &[&str], deps: &[&str]) -> Component {
    Component {
        name: name.to_string(),
        title: name.to_string(),
        description: String::new(),
        tier: "core".to_string(),
        version: "0.1.0".to_string(),
        path: format!("kits/{name}"),
        tags: vec![],
        authors: vec![],
        requirements: requires.iter().map(|r| r.to_string()).collect(),
        dependencies: deps.iter().map(|d| d.to_string()).collect(),
        variants: NameMap::new(),
        only_variants: vec![],
        files: vec!["__init__.py".to_string()],
        optional: NameMap::new(),
    }
}

fn file_group(paths: &[&str]) -> OptionalGroup {
    OptionalGroup::Files(paths.iter().map(|path| path.to_string()).collect())
}

fn index(components: Vec<Component>) -> RegistryIndex {
    let mut map = NameMap::new();
    for component in components {
        let key = component.name.clone();
        map.insert(&key, component);
    }
    RegistryIndex {
        version: 1,
        name: "test".to_string(),
        title: "Test".to_string(),
        description: String::new(),
        source: "github:owner/repo".to_string(),
        homepage: None,
        ecosystem: "python".to_string(),
        variants: vec!["sqlite".to_string(), "postgres".to_string()],
        install: InstallConfig::new(),
        components: map,
    }
}

fn plan_ids(plan: &InstallPlan) -> Vec<String> {
    plan.components.iter().map(|planned| planned.component.name.clone()).collect()
}

fn ids(items: &[&str]) -> Vec<String> {
    items.iter().map(|i| i.to_string()).collect()
}

#[test]
fn dependencies_are_installed_before_dependents() {
    let registry = index(vec![component("store", &[], &[]), component("logger", &["store"], &[])]);
    let plan = registry.plan(&ids(&["logger"]), &[], &[], &[], Deps::Resolve).unwrap();
    assert_eq!(plan_ids(&plan), vec!["store", "logger"]);
}

#[test]
fn transitive_dependencies_are_resolved() {
    let registry = index(vec![component("a", &["b"], &[]), component("b", &["c"], &[]), component("c", &[], &[])]);
    let plan = registry.plan(&ids(&["a"]), &[], &[], &[], Deps::Resolve).unwrap();
    assert_eq!(plan_ids(&plan), vec!["c", "b", "a"]);
}

#[test]
fn a_shared_dependency_is_planned_once() {
    let registry = index(vec![
        component("shared", &[], &[]),
        component("one", &["shared"], &[]),
        component("two", &["shared"], &[]),
    ]);
    let plan = registry.plan(&ids(&["one", "two"]), &[], &[], &[], Deps::Resolve).unwrap();
    assert_eq!(plan_ids(&plan), vec!["shared", "one", "two"]);
}

#[test]
fn only_directly_requested_components_are_marked_requested() {
    let registry = index(vec![component("store", &[], &[]), component("logger", &["store"], &[])]);
    let plan = registry.plan(&ids(&["logger"]), &[], &[], &[], Deps::Resolve).unwrap();
    let implied: Vec<&str> = plan
        .components
        .iter()
        .filter(|planned| !planned.requested)
        .map(|planned| planned.component.name.as_str())
        .collect();
    assert_eq!(implied, vec!["store"]);
}

#[test]
fn already_installed_dependencies_are_skipped() {
    let registry = index(vec![component("store", &[], &[]), component("logger", &["store"], &[])]);
    let installed = ids(&["store"]);
    let plan = registry.plan(&ids(&["logger"]), &[], &[], &installed, Deps::Resolve).unwrap();
    assert_eq!(plan_ids(&plan), vec!["logger"]);
}

#[test]
fn an_installed_component_is_replanned_when_asked_for_again() {
    let registry = index(vec![component("logger", &[], &[])]);
    let installed = ids(&["logger"]);
    let plan = registry.plan(&ids(&["logger"]), &[], &[], &installed, Deps::Resolve).unwrap();
    assert_eq!(plan_ids(&plan), vec!["logger"]);
}

#[test]
fn a_cycle_is_reported_with_its_path() {
    let registry = index(vec![component("a", &["b"], &[]), component("b", &["a"], &[])]);
    let error = registry.plan(&ids(&["a"]), &[], &[], &[], Deps::Resolve).unwrap_err().message();
    assert!(error.contains("Dependency cycle"), "{error}");
    assert!(error.contains("a -> b -> a"), "{error}");
}

#[test]
fn a_self_dependency_is_a_cycle() {
    let registry = index(vec![component("a", &["a"], &[])]);
    assert!(registry.plan(&ids(&["a"]), &[], &[], &[], Deps::Resolve).is_err());
}

#[test]
fn an_unknown_component_suggests_close_matches() {
    let registry = index(vec![component("analytics", &[], &[])]);
    let error = registry.plan(&ids(&["analy"]), &[], &[], &[], Deps::Resolve).unwrap_err().message();
    assert!(error.contains("Did you mean"), "{error}");
    assert!(error.contains("analytics"), "{error}");
}

fn one_edit_away(word: &str) -> Vec<String> {
    let mut transposed: Vec<char> = word.chars().collect();
    transposed.swap(2, 3);
    vec![
        transposed.into_iter().collect(),
        word[..word.len() - 1].to_string(),
        format!("{word}{}", word.chars().last().unwrap()),
    ]
}

#[test]
fn a_typo_suggests_the_component_it_resembles() {
    let registry = index(vec![component("analytics", &[], &[]), component("logger", &[], &[])]);
    let mut typos = one_edit_away("analytics");
    typos.push("analy".to_string());
    for typo in typos {
        let error = registry
            .plan(std::slice::from_ref(&typo), &[], &[], &[], Deps::Resolve)
            .unwrap_err()
            .message();
        assert!(error.contains("analytics"), "{typo}: {error}");
    }
}

#[test]
fn a_typo_one_edit_away_finds_its_component() {
    let registry = index(vec![component("cache", &[], &[])]);
    for typo in one_edit_away("cache") {
        let error = registry
            .plan(std::slice::from_ref(&typo), &[], &[], &[], Deps::Resolve)
            .unwrap_err()
            .message();
        assert!(error.contains("Did you mean"), "{typo}: {error}");
        assert!(error.contains("cache"), "{typo}: {error}");
    }
}

#[test]
fn a_component_name_must_match_its_key() {
    let mut map = NameMap::new();
    let mut auth = component("authentication", &[], &[]);
    auth.path = "components/auth".to_string();
    map.insert("auth", auth);
    let mut registry = index(vec![]);
    registry.name = "kit".to_string();
    registry.components = map;
    let error = registry.validated().unwrap_err().message();
    assert!(error.contains("key and the name must match"), "{error}");
}

#[test]
fn an_unrelated_id_does_not_get_a_bogus_suggestion() {
    let registry = index(vec![component("analytics", &[], &[])]);
    let error = registry.plan(&ids(&["zzz"]), &[], &[], &[], Deps::Resolve).unwrap_err().message();
    assert!(error.contains("copit search"), "{error}");
    assert!(!error.contains("Did you mean"), "{error}");
}

#[test]
fn an_unknown_dependency_is_reported() {
    let registry = index(vec![component("a", &["ghost"], &[])]);
    let error = registry.plan(&ids(&["a"]), &[], &[], &[], Deps::Resolve).unwrap_err().message();
    assert!(error.contains("ghost"), "{error}");
}

#[test]
fn packages_merge_across_components_and_deduplicate() {
    let registry = index(vec![
        component("store", &[], &["redis>=5", "shared>=1"]),
        component("logger", &["store"], &["shared>=1"]),
    ]);
    let plan = registry.plan(&ids(&["logger"]), &[], &[], &[], Deps::Resolve).unwrap();
    assert_eq!(plan.packages, vec!["redis>=5", "shared>=1"]);
}

#[test]
fn variant_packages_are_added_only_when_selected() {
    let mut widget = component("widget", &[], &["base>=1"]);
    widget.variants.insert("sqlite", Variant { dependencies: vec!["pg-driver>=5".to_string()], includes: vec![] });
    let registry = index(vec![widget]);

    let without = registry.plan(&ids(&["widget"]), &[], &[], &[], Deps::Resolve).unwrap();
    let with = registry.plan(&ids(&["widget"]), &ids(&["sqlite"]), &[], &[], Deps::Resolve).unwrap();

    assert_eq!(without.packages, vec!["base>=1"]);
    assert_eq!(with.packages, vec!["base>=1", "pg-driver>=5"]);
}

#[test]
fn files_of_unselected_variants_are_not_copied() {
    let mut widget = component("widget", &[], &[]);
    widget.files = ids(&["__init__.py", "stores/sqlite.py", "stores/postgres.py"]);
    widget.variants.insert("sqlite", Variant { dependencies: vec![], includes: ids(&["stores/sqlite.py"]) });
    widget.variants.insert("postgres", Variant { dependencies: vec![], includes: ids(&["stores/postgres.py"]) });
    let registry = index(vec![widget]);

    let plan = registry.plan(&ids(&["widget"]), &ids(&["sqlite"]), &[], &[], Deps::Resolve).unwrap();
    assert_eq!(plan.components[0].files, vec!["__init__.py", "stores/sqlite.py"]);
}

#[test]
fn a_file_two_variants_share_is_kept_when_either_is_selected() {
    let mut widget = component("widget", &[], &[]);
    widget.files = ids(&["__init__.py", "stores/base.py", "stores/sqlite.py", "stores/postgres.py"]);
    widget
        .variants
        .insert("sqlite", Variant { dependencies: vec![], includes: ids(&["stores/base.py", "stores/sqlite.py"]) });
    widget
        .variants
        .insert("postgres", Variant { dependencies: vec![], includes: ids(&["stores/base.py", "stores/postgres.py"]) });
    let registry = index(vec![widget]);

    let plan = registry.plan(&ids(&["widget"]), &ids(&["sqlite"]), &[], &[], Deps::Resolve).unwrap();
    assert_eq!(plan.components[0].files, vec!["__init__.py", "stores/base.py", "stores/sqlite.py"]);
}

#[test]
fn optional_groups_are_copied_only_when_requested() {
    let mut widget = component("widget", &[], &[]);
    widget.optional.insert("tests", file_group(&["tests/test_widget.py"]));
    let mut registry = index(vec![widget]);
    registry.install.optional.insert("tests", file_group(&["tests/**"]));

    let without = registry.plan(&ids(&["widget"]), &[], &[], &[], Deps::Resolve).unwrap();
    let with = registry.plan(&ids(&["widget"]), &[], &ids(&["tests"]), &[], Deps::Resolve).unwrap();

    assert_eq!(without.components[0].files, vec!["__init__.py"]);
    assert_eq!(with.components[0].files, vec!["__init__.py", "tests/test_widget.py"]);
}

fn with_test_group(name: &str, harness: &str) -> Component {
    let mut component = component(name, &[], &[]);
    component.optional.insert(
        "tests",
        OptionalGroup::Detailed(OptionalSpec {
            includes: ids(&["tests/test_it.py"]),
            requirements: vec![harness.to_string()],
            dependencies: ids(&["pytest>=8"]),
        }),
    );
    component
}

#[test]
fn a_group_requirement_is_planned_before_the_component_that_declares_it() {
    let registry = index(vec![component("harness", &[], &[]), with_test_group("notify", "harness")]);
    let plan = registry.plan(&ids(&["notify"]), &[], &ids(&["tests"]), &[], Deps::Resolve).unwrap();
    assert_eq!(plan_ids(&plan), vec!["harness", "notify"]);
}

#[test]
fn a_group_requirement_stays_out_when_the_group_is_not_selected() {
    let registry = index(vec![component("harness", &[], &[]), with_test_group("notify", "harness")]);
    let plan = registry.plan(&ids(&["notify"]), &[], &[], &[], Deps::Resolve).unwrap();
    assert_eq!(plan_ids(&plan), vec!["notify"]);
}

#[test]
fn no_deps_skips_group_requirements_too() {
    let registry = index(vec![component("harness", &[], &[]), with_test_group("notify", "harness")]);
    let plan = registry.plan(&ids(&["notify"]), &[], &ids(&["tests"]), &[], Deps::Skip).unwrap();
    assert_eq!(plan_ids(&plan), vec!["notify"]);
}

#[test]
fn a_cycle_through_a_group_requirement_is_reported() {
    let registry = index(vec![component("harness", &["notify"], &[]), with_test_group("notify", "harness")]);
    let error = registry
        .plan(&ids(&["notify"]), &[], &ids(&["tests"]), &[], Deps::Resolve)
        .unwrap_err()
        .message();
    assert!(error.contains("Dependency cycle"), "{error}");
    assert!(error.contains("notify -> harness -> notify"), "{error}");
}

#[test]
fn group_packages_are_added_only_when_the_group_is_selected() {
    let notify = with_test_group("notify", "harness");
    assert_eq!(notify.packages_for(&[], &[]), Vec::<String>::new());
    assert_eq!(notify.packages_for(&[], &ids(&["tests"])), vec!["pytest>=8"]);
}

#[test]
fn an_unknown_optional_group_lists_what_is_available() {
    let mut widget = component("widget", &[], &[]);
    widget.optional.insert("tests", file_group(&[]));
    let registry = index(vec![widget]);
    let error = registry.plan(&ids(&["widget"]), &[], &ids(&["docs"]), &[], Deps::Resolve).unwrap_err().message();
    assert!(error.contains("no optional group 'docs'"), "{error}");
    assert!(error.contains("tests"), "{error}");
}

#[test]
fn an_unknown_variant_is_rejected() {
    let registry = index(vec![component("widget", &[], &[])]);
    let error = registry.plan(&ids(&["widget"]), &ids(&["mysql"]), &[], &[], Deps::Resolve).unwrap_err().message();
    assert!(error.contains("no variant 'mysql'"), "{error}");
    assert!(error.contains("sqlite, postgres"), "{error}");
}

#[test]
fn a_future_index_version_is_rejected_with_advice() {
    let mut registry = index(vec![]);
    registry.version = 99;
    registry.name = "future".to_string();
    let error = registry.validated().unwrap_err().message();
    assert!(error.contains("version 99"), "{error}");
    assert!(error.contains("Upgrade copit"), "{error}");
}

#[test]
fn a_ref_override_rewrites_a_bare_registry_source() {
    assert_eq!(with_ref("github:owner/repo@v1.0.0", "v2.0.0", false).unwrap(), "github:owner/repo@v2.0.0");
    assert_eq!(with_ref("gh:owner/repo", "v2.0.0", false).unwrap(), "gh:owner/repo@v2.0.0");
}

#[test]
fn a_ref_override_is_rejected_rather_than_ignored() {
    let error = with_ref("/tmp/some-registry", "v2.0.0", true).unwrap_err();
    assert!(matches!(error, RefError::LocalRegistry { .. }));
    assert!(error.message().contains("local registry"), "{}", error.message());

    let error = with_ref("https://example.com/registry", "v2", false).unwrap_err();
    assert!(error.message().contains("only supported for GitHub"), "{}", error.message());
}

#[test]
fn registry_an_optional_group_no_component_publishes_is_rejected() {
    let mut registry = index(vec![component("widget", &[], &[])]);
    registry.install.optional.insert("tests", file_group(&["tests/**"]));
    let error = registry.check_optional(&ids(&["tests"])).unwrap_err().message();
    assert!(error.contains("no optional group 'tests'"), "{error}");
}

#[test]
fn search_matches_id_description_and_tags() {
    let mut cache = component("cache", &[], &[]);
    cache.description = "In-memory cache with a pluggable store".to_string();
    cache.tags = vec!["memory".to_string()];
    let registry = index(vec![cache, component("analytics", &[], &[])]);

    assert_eq!(registry.search("cache").len(), 1);
    assert_eq!(registry.search("pluggable").len(), 1);
    assert_eq!(registry.search("memory").len(), 1);
    assert_eq!(registry.search("nothing").len(), 0);
}

#[test]
fn search_ignores_case() {
    let mut cache = component("cache", &[], &[]);
    cache.description = "In-memory Cache".to_string();
    let registry = index(vec![cache, component("analytics", &[], &[])]);
    assert_eq!(registry.search("CACHE").len(), 1);
    assert_eq!(registry.search("Analytics").len(), 1);
}

#[test]
fn a_restricted_component_is_refused_without_its_variant() {
    let mut django = component("django-auth", &[], &[]);
    django.only_variants = ids(&["sqlite"]);
    let registry = index(vec![django, component("app", &["django-auth"], &[])]);
    let error = registry.plan(&ids(&["app"]), &[], &[], &[], Deps::Resolve).unwrap_err().message();
    assert_eq!(
        error,
        "Component '@test/django-auth' (required by 'app') requires variant 'sqlite'.\n  This project selects: none\n  Pass --variant sqlite, or set `variants` for this registry in copit.toml."
    );
    assert!(registry.plan(&ids(&["app"]), &ids(&["sqlite"]), &[], &[], Deps::Resolve).is_ok());
}

#[test]
fn an_undeclared_restriction_makes_the_index_invalid() {
    let mut widget = component("widget", &[], &[]);
    widget.only_variants = ids(&["mysql"]);
    let registry = index(vec![widget]);
    let error = registry.validated().unwrap_err().message();
    assert_eq!(
        error,
        "Registry 'test' restricts component 'widget' to variant 'mysql', which it does not declare. Available: sqlite, postgres"
    );
}

#[test]
fn a_registry_index_is_found_at_the_root_of_its_source() {
    assert_eq!(index_source("github:o/r@v1/", None), "github:o/r@v1/copit-registry.json");
    assert_eq!(index_source("github:o/r@v1", Some("registry/index.json")), "github:o/r@v1/registry/index.json");
}

#[test]
fn a_component_is_fetched_from_the_pinned_registry_source() {
    assert_eq!(component_source("github:o/r@v1//", "/components/auth"), "github:o/r@v1/components/auth");
    assert_eq!(component_relative("components/auth/x/y.py", "/components/auth/"), "x/y.py");
    assert_eq!(component_relative("elsewhere/y.py", "components/auth"), "elsewhere/y.py");
}

#[test]
fn a_component_directory_is_the_last_name_of_its_path() {
    let mut c = component("auth", &[], &[]);
    c.path = "components/auth_core".to_string();
    assert_eq!(component_dir(&c), "auth_core");
    c.path = String::new();
    assert_eq!(component_dir(&c), "auth");
}

#[test]
fn registry_names_must_survive_the_backlink() {
    assert!(validate_registry_name("my-kit").is_ok());
    assert!(matches!(validate_registry_name(""), Err(NameError::Empty)));
    match validate_registry_name("gh:kit") {
        Err(e @ NameError::Forbidden { found: ':', .. }) => {
            assert_eq!(e.message(), "Registry name 'gh:kit' cannot contain ':'")
        }
        other => panic!("{other:?}"),
    }
    assert!(validate_registry_name("my kit").is_err());
    assert!(validate_registry_name("a/b").is_err());
    assert_eq!(registry_name("@my-kit"), "my-kit");
    assert_eq!(registry_name("my-kit"), "my-kit");
}

#[test]
fn a_component_reference_names_its_registry_and_component() {
    assert_eq!(parse_component_ref("@my-kit/auth"), Some(("my-kit".to_string(), "auth".to_string())));
    assert_eq!(parse_component_ref("@my-kit/"), None);
    assert_eq!(parse_component_ref("github:o/r@v1/x"), None);
}

#[test]
fn one_edit_apart_reads_the_same_both_ways() {
    for (a, b) in [("cache", "cahce"), ("cache", "cach"), ("cache", "caches"), ("cache", "cacke"), ("cache", "hcace")] {
        assert_eq!(within_one_edit(a, b), within_one_edit(b, a), "{a} {b}");
    }
    assert!(within_one_edit("cache", "cahce"));
    assert!(within_one_edit("cache", "cache"));
    assert!(!within_one_edit("cache", "hcace"));
}
