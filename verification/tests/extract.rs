use yaml_to_env::entry::{extract_entries, split_first_colon};
use yaml_to_env::lines::split_lines;

#[test]
fn split_lines_basic() {
    let r = split_lines("a\nb");
    assert_eq!(r, vec!["a".to_string(), "b".to_string()]);
}

#[test]
fn split_lines_crlf() {
    let r = split_lines("a\r\nb\r\n");
    assert_eq!(r, vec!["a".to_string(), "b".to_string()]);
}

#[test]
fn split_lines_trailing_newline_adds_no_line() {
    let r = split_lines("a\nb\n");
    assert_eq!(r, vec!["a".to_string(), "b".to_string()]);
}

#[test]
fn split_lines_empty_text_has_no_lines() {
    let r = split_lines("");
    assert!(r.is_empty());
}

#[test]
fn split_lines_keeps_empty_lines() {
    let r = split_lines("a\n\nb");
    assert_eq!(r, vec!["a".to_string(), "".to_string(), "b".to_string()]);
}

#[test]
fn split_lines_lone_cr_is_kept() {
    let r = split_lines("a\r");
    assert_eq!(r, vec!["a\r".to_string()]);
}

#[test]
fn colon_splits_at_first_only() {
    let r = split_first_colon("a:b:c").unwrap();
    assert_eq!(r.0, "a");
    assert_eq!(r.1, "b:c");
}

#[test]
fn colon_empty_key_is_accepted() {
    let r = split_first_colon(":value").unwrap();
    assert_eq!(r.0, "");
    assert_eq!(r.1, "value");
}

#[test]
fn colon_empty_value_is_accepted() {
    let r = split_first_colon("key:").unwrap();
    assert_eq!(r.0, "key");
    assert_eq!(r.1, "");
}

#[test]
fn colon_missing_yields_nothing() {
    assert!(split_first_colon("no separator").is_none());
}

#[test]
fn extract_one_pair_per_line_untrimmed() {
    let r = extract_entries("FOO:bar\nBAZ: qux").unwrap();
    assert_eq!(
        r,
        vec![
            ("FOO".to_string(), "bar".to_string()),
            ("BAZ".to_string(), " qux".to_string()),
        ]
    );
}

#[test]
fn extract_keeps_surrounding_whitespace() {
    let r = extract_entries("A : b").unwrap();
    assert_eq!(r, vec![("A ".to_string(), " b".to_string())]);
}

#[test]
fn extract_rejects_whole_file_on_one_bad_line() {
    assert!(extract_entries("FOO:bar\nnocolonhere").is_none());
}

#[test]
fn extract_rejects_file_with_empty_line() {
    assert!(extract_entries("a:1\n\nb:2").is_none());
}

#[test]
fn extract_empty_file_yields_zero_pairs() {
    let r = extract_entries("").unwrap();
    assert!(r.is_empty());
}
