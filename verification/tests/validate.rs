use yaml_to_env::errors::EnvError;
use yaml_to_env::paths::{assert_paths_are_yaml_files, has_yaml_extension};

#[test]
fn all_yaml_paths_pass_unchanged() {
    let paths = vec!["a.yaml".to_string(), "dir/b.yaml".to_string()];
    let r = assert_paths_are_yaml_files(paths.clone()).unwrap();
    assert_eq!(r, paths);
}

#[test]
fn one_wrong_extension_fails_the_batch() {
    let paths = vec!["a.yaml".to_string(), "b.txt".to_string()];
    let e = assert_paths_are_yaml_files(paths).unwrap_err();
    assert!(matches!(e, EnvError::PathValidation));
}

#[test]
fn extension_match_is_case_sensitive() {
    assert!(!has_yaml_extension("a.YAML"));
    assert!(has_yaml_extension("a.yaml"));
}

#[test]
fn path_without_extension_fails_validation() {
    assert!(!has_yaml_extension("noext"));
    let e = assert_paths_are_yaml_files(vec!["noext".to_string()]).unwrap_err();
    assert!(matches!(e, EnvError::PathValidation));
}

#[test]
fn empty_line_has_no_extension() {
    let e = assert_paths_are_yaml_files(vec!["".to_string()]).unwrap_err();
    assert!(matches!(e, EnvError::PathValidation));
}

#[test]
fn hidden_file_has_no_extension() {
    assert!(!has_yaml_extension(".yaml"));
    assert!(!has_yaml_extension("dir/.yaml"));
}

#[test]
fn extension_is_after_the_last_dot_of_the_final_component() {
    assert!(has_yaml_extension("a.b.yaml"));
    assert!(has_yaml_extension("some/dir.d/x.yaml"));
    assert!(!has_yaml_extension("some/dir.yaml/x"));
    assert!(!has_yaml_extension("a.yaml.txt"));
}

#[test]
fn validation_error_message_names_the_requirement() {
    let e = assert_paths_are_yaml_files(vec!["a.txt".to_string()]).unwrap_err();
    assert_eq!(
        e.message(),
        "All paths in config file must have .yaml extension"
    );
}
