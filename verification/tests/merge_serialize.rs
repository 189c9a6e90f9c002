use yaml_to_env::env_map::EnvMap;
use yaml_to_env::errors::EnvError;
use yaml_to_env::merge::create_env_hashmap;
use yaml_to_env::serialize::{convert_map_to_string, trim};

#[test]
fn merging_the_same_pair_twice_keeps_one_entry() {
    let mut m = EnvMap::new();
    m.insert("k".to_string(), "v".to_string());
    m.insert("k".to_string(), "v".to_string());
    assert_eq!(m.len(), 1);
    assert_eq!(convert_map_to_string(m), "k=v\n");
}

#[test]
fn merging_two_values_for_one_key_keeps_the_last() {
    let mut m = EnvMap::new();
    m.insert("k".to_string(), "v1".to_string());
    m.insert("k".to_string(), "v2".to_string());
    assert_eq!(m.len(), 1);
    assert_eq!(convert_map_to_string(m), "k=v2\n");
}

#[test]
fn distinct_keys_keep_distinct_entries() {
    let mut m = EnvMap::new();
    m.insert("a".to_string(), "1".to_string());
    m.insert("b".to_string(), "2".to_string());
    assert_eq!(m.len(), 2);
}

#[test]
fn later_file_overwrites_earlier_key() {
    let files = vec![
        ("a.yaml".to_string(), "K:first".to_string()),
        ("b.yaml".to_string(), "K:second".to_string()),
    ];
    let m = create_env_hashmap(files).unwrap();
    assert_eq!(convert_map_to_string(m), "K=second\n");
}

#[test]
fn serialization_trims_key_and_value() {
    let mut m = EnvMap::new();
    m.insert(" A ".to_string(), " b ".to_string());
    assert_eq!(convert_map_to_string(m), "A=b\n");
}

#[test]
fn padded_entry_is_extracted_raw_and_serialized_trimmed() {
    let files = vec![("a.yaml".to_string(), " A : b ".to_string())];
    let m = create_env_hashmap(files).unwrap();
    assert_eq!(convert_map_to_string(m), "A=b\n");
}

#[test]
fn trim_removes_surrounding_whitespace_only() {
    assert_eq!(trim("  x\t"), "x");
    assert_eq!(trim("a b"), "a b");
    assert_eq!(trim("\u{a0}x\u{a0}"), "x");
    assert_eq!(trim(" \t\r\n"), "");
    assert_eq!(trim(""), "");
}

#[test]
fn merge_fails_on_first_malformed_file() {
    let files = vec![
        ("ok.yaml".to_string(), "A:1".to_string()),
        ("bad.yaml".to_string(), "oops".to_string()),
        ("worse.yaml".to_string(), "also bad".to_string()),
    ];
    let e = create_env_hashmap(files).unwrap_err();
    match e {
        EnvError::ContentValidation(p) => assert_eq!(p, "bad.yaml"),
        _ => panic!("wrong error kind"),
    }
}

#[test]
fn empty_source_file_contributes_nothing() {
    let files = vec![
        ("a.yaml".to_string(), "".to_string()),
        ("b.yaml".to_string(), "X:1".to_string()),
    ];
    let m = create_env_hashmap(files).unwrap();
    assert_eq!(convert_map_to_string(m), "X=1\n");
}
