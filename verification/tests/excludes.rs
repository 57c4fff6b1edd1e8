use copit::excludes::is_excluded;

fn patterns(items: &[&str]) -> Vec<String> {
    items.iter().map(|s| s.to_string()).collect()
}

#[test]
fn nothing_is_excluded_without_patterns() {
    assert_eq!(is_excluded("vendor/lib/config.toml", "vendor/lib", &[]).unwrap(), false);
}

#[test]
fn a_pattern_matches_the_path_inside_the_source() {
    let excludes = patterns(&["*.toml"]);
    assert_eq!(is_excluded("vendor/lib/config.toml", "vendor/lib", &excludes).unwrap(), true);
    assert_eq!(is_excluded("vendor/lib/main.py", "vendor/lib", &excludes).unwrap(), false);
}

#[test]
fn a_single_star_stops_at_a_separator() {
    let excludes = patterns(&["*.toml"]);
    assert_eq!(is_excluded("vendor/lib/sub/config.toml", "vendor/lib", &excludes).unwrap(), false);
    let deep = patterns(&["**/*.toml"]);
    assert_eq!(is_excluded("vendor/lib/sub/config.toml", "vendor/lib", &deep).unwrap(), true);
}

#[test]
fn any_of_several_patterns_excludes() {
    let excludes = patterns(&["docs/**", "*.cfg"]);
    assert_eq!(is_excluded("vendor/lib/docs/index.md", "vendor/lib", &excludes).unwrap(), true);
    assert_eq!(is_excluded("vendor/lib/setup.cfg", "vendor/lib", &excludes).unwrap(), true);
    assert_eq!(is_excluded("vendor/lib/src/a.py", "vendor/lib", &excludes).unwrap(), false);
}

#[test]
fn a_file_outside_the_source_is_never_excluded() {
    let excludes = patterns(&["*.toml", "["]);
    assert_eq!(is_excluded("other/config.toml", "vendor/lib", &excludes).unwrap(), false);
}

#[test]
fn a_pattern_that_does_not_compile_is_reported() {
    let excludes = patterns(&["*.toml", "[", "*.py"]);
    let error = is_excluded("vendor/lib/main.py", "vendor/lib", &excludes).unwrap_err();
    assert_eq!(error.pattern, "[");
    assert!(error.message().starts_with("Invalid glob pattern: [: "), "{}", error.message());
}

#[test]
fn a_pattern_too_large_to_compile_is_reported_rather_than_fatal() {
    let huge = "a*".repeat(200_000);
    let excludes = vec![huge.clone()];
    match is_excluded("vendor/lib/x", "vendor/lib", &excludes) {
        Err(error) => assert_eq!(error.pattern, huge),
        Ok(_) => {}
    }
}
