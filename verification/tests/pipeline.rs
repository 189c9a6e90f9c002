//! End-to-end runs of the pure pipeline: manifest lines, validation,
//! extraction and merge, serialization. Reading and writing files is the
//! binary's job; a failure before serialization means no output is produced.

use yaml_to_env::errors::{create_yaml_file_read_err, EnvError};
use yaml_to_env::lines::split_lines;
use yaml_to_env::merge::create_env_hashmap;
use yaml_to_env::paths::assert_paths_are_yaml_files;
use yaml_to_env::serialize::convert_map_to_string;

#[test]
fn round_trip_two_entries() {
    let paths = split_lines("a.yaml");
    assert_eq!(paths, vec!["a.yaml".to_string()]);
    let paths = assert_paths_are_yaml_files(paths).unwrap();
    let files: Vec<(String, String)> = paths
        .into_iter()
        .map(|p| (p, "FOO:bar\nBAZ: qux".to_string()))
        .collect();
    let m = create_env_hashmap(files).unwrap();
    let out = convert_map_to_string(m);
    let mut lines: Vec<&str> = out.lines().collect();
    lines.sort();
    assert_eq!(lines, vec!["BAZ=qux", "FOO=bar"]);
}

#[test]
fn wrong_extension_stops_the_run_before_any_source_is_read() {
    let paths = split_lines("a.txt");
    let e = assert_paths_are_yaml_files(paths).unwrap_err();
    assert!(matches!(e, EnvError::PathValidation));
}

#[test]
fn malformed_source_stops_the_run_and_names_the_file() {
    let paths = assert_paths_are_yaml_files(split_lines("a.yaml")).unwrap();
    let files: Vec<(String, String)> = paths
        .into_iter()
        .map(|p| (p, "FOO:bar\nnocolonhere".to_string()))
        .collect();
    let e = create_env_hashmap(files).unwrap_err();
    assert_eq!(
        e.message(),
        "Unsupported yaml structure in file with path: a.yaml"
    );
}

#[test]
fn read_error_message_names_the_path() {
    assert_eq!(
        create_yaml_file_read_err("x.yaml"),
        "Could not read yaml file with path: x.yaml"
    );
}
