use copit::installers::{by_name, detect, known_names, resolve_manager};

fn files(names: &[&str]) -> Vec<String> {
    names.iter().map(|n| n.to_string()).collect()
}

#[test]
fn add_commands_pass_specs_through_verbatim() {
    let specs = vec!["my-package>=0.1.0".to_string(), "redis>=5".to_string()];

    assert_eq!(by_name("uv").unwrap().add_command(&specs), vec!["uv", "add", "my-package>=0.1.0", "redis>=5"]);
    assert_eq!(
        by_name("poetry").unwrap().add_command(&specs),
        vec!["poetry", "add", "my-package>=0.1.0", "redis>=5"]
    );
    assert_eq!(
        by_name("pip").unwrap().add_command(&specs),
        vec!["pip", "install", "my-package>=0.1.0", "redis>=5"]
    );
}

#[test]
fn an_installer_can_be_looked_up_by_name() {
    assert_eq!(by_name("poetry").unwrap().name, "poetry");
    assert!(by_name("conda").is_none());
}

#[test]
fn uv_is_detected_from_its_lockfile() {
    let installer = detect(&files(&["uv.lock"]), None, Some("python")).unwrap();
    assert_eq!(installer.name, "uv");
}

#[test]
fn uv_is_detected_from_a_pyproject_table() {
    let found = detect(&files(&["pyproject.toml"]), Some("[tool.uv]\ndefault-groups = []\n"), Some("python"));
    assert_eq!(found.unwrap().name, "uv");
}

#[test]
fn poetry_is_detected_from_its_lockfile() {
    assert_eq!(detect(&files(&["poetry.lock"]), None, Some("python")).unwrap().name, "poetry");
}

#[test]
fn pdm_is_detected_from_a_pyproject_table() {
    assert_eq!(detect(&files(&["pyproject.toml"]), Some("[tool.pdm]\n"), Some("python")).unwrap().name, "pdm");
}

#[test]
fn pip_is_detected_from_a_requirements_file() {
    assert_eq!(detect(&files(&["requirements.txt"]), None, Some("python")).unwrap().name, "pip");
    assert_eq!(detect(&files(&["requirements/base.txt"]), None, Some("python")).unwrap().name, "pip");
}

#[test]
fn a_lockfile_manager_wins_over_a_stray_requirements_file() {
    assert_eq!(detect(&files(&["uv.lock", "requirements.txt"]), None, Some("python")).unwrap().name, "uv");
}

#[test]
fn nothing_is_detected_in_an_empty_project() {
    assert!(detect(&[], None, Some("python")).is_none());
}

#[test]
fn detection_is_scoped_to_the_registrys_ecosystem() {
    let present = files(&["package-lock.json"]);
    assert!(detect(&present, None, Some("python")).is_none());
    assert_eq!(detect(&present, None, Some("node")).unwrap().name, "npm");
    assert_eq!(detect(&present, None, None).unwrap().name, "npm");
}

#[test]
fn node_managers_are_detected_by_lockfile() {
    assert_eq!(detect(&files(&["pnpm-lock.yaml"]), None, Some("node")).unwrap().name, "pnpm");
    assert_eq!(detect(&files(&["yarn.lock"]), None, Some("node")).unwrap().name, "yarn");
}

#[test]
fn cargo_is_detected_from_its_manifest() {
    assert_eq!(detect(&files(&["Cargo.toml"]), None, Some("rust")).unwrap().name, "cargo");
}

#[test]
fn each_installer_reports_the_files_that_identify_it() {
    assert_eq!(by_name("pip").unwrap().lockfiles(), &vec!["requirements.txt", "requirements/base.txt"]);
    assert_eq!(by_name("npm").unwrap().ecosystem, "node");
}

#[test]
fn every_manager_is_known_in_detection_order() {
    assert_eq!(known_names(), vec!["uv", "poetry", "pdm", "pip", "pnpm", "yarn", "npm", "cargo"]);
}

#[test]
fn configuration_beats_detection_and_none_means_none() {
    let present = files(&["uv.lock"]);
    assert_eq!(resolve_manager(Some("poetry"), "python", &present, None), Some("poetry".to_string()));
    assert_eq!(resolve_manager(Some("none"), "python", &present, None), None);
    assert_eq!(resolve_manager(None, "python", &present, None), Some("uv".to_string()));
    assert_eq!(resolve_manager(None, "node", &present, None), None);
    assert_eq!(resolve_manager(None, "", &files(&["yarn.lock"]), None), Some("yarn".to_string()));
}
