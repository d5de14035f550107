use j2e::execute;

fn lines_of(out: &str) -> Vec<&str> {
    out.split('\n').filter(|l| !l.is_empty()).collect()
}

#[test]
fn string_values_one_line_per_key() {
    let (out, count) = execute(r#"{"a": "x", "b": "y"}"#).unwrap();
    let lines = lines_of(&out);
    assert_eq!(count, 2);
    assert_eq!(lines.len(), 2);
    assert!(lines.contains(&"A=x"));
    assert!(lines.contains(&"B=y"));
}

#[test]
fn scenario_name_and_age() {
    let (out, count) = execute(r#"{"name": "Alice", "age": 30}"#).unwrap();
    let lines = lines_of(&out);
    assert_eq!(count, 2);
    assert!(lines.contains(&"NAME=Alice"));
    assert!(lines.contains(&"AGE=30"));
}

#[test]
fn scenario_bool_and_array() {
    let (out, count) = execute(r#"{"active": true, "tags": ["a","b"]}"#).unwrap();
    let lines = lines_of(&out);
    assert_eq!(count, 2);
    assert!(lines.contains(&"ACTIVE=true"));
    assert!(lines.contains(&r#"TAGS=["a","b"]"#));
}

#[test]
fn non_string_values_verbatim() {
    let (out, _) = execute(r#"{"n": 30, "z": null, "f": false, "o": {"k": 1}}"#).unwrap();
    let lines = lines_of(&out);
    assert!(lines.contains(&"N=30"));
    assert!(lines.contains(&"Z=null"));
    assert!(lines.contains(&"F=false"));
    assert!(lines.contains(&r#"O={"k":1}"#));
}

#[test]
fn embedded_quote_is_stripped_backslash_kept() {
    let (out, _) = execute(r#"{"k": "a\"b"}"#).unwrap();
    let lines = lines_of(&out);
    assert!(lines.contains(&r"K=a\b"));
}

#[test]
fn control_characters_stay_escaped() {
    let (out, count) = execute(r#"{"k": "a\nb"}"#).unwrap();
    assert_eq!(count, 1);
    let lines = lines_of(&out);
    assert_eq!(lines.len(), 1);
    assert_eq!(lines[0], r#"K=a\nb"#);
}

#[test]
fn empty_object_gives_empty_output() {
    let (out, count) = execute("{}").unwrap();
    assert_eq!(count, 0);
    assert_eq!(out, "");
}

#[test]
fn count_equals_number_of_keys() {
    let (_, count) = execute(r#"{"a": 1, "b": 2, "c": 3, "d": 4}"#).unwrap();
    assert_eq!(count, 4);
}

#[test]
fn running_twice_is_byte_identical() {
    let input = r#"{"name": "Alice", "age": 30, "tags": ["a","b"]}"#;
    let (first, n1) = execute(input).unwrap();
    let (second, n2) = execute(input).unwrap();
    assert_eq!(first.as_bytes(), second.as_bytes());
    assert_eq!(n1, n2);
}

#[test]
fn every_line_ends_with_newline() {
    let (out, _) = execute(r#"{"a": "x", "b": 2}"#).unwrap();
    assert!(out.ends_with('\n'));
    assert_eq!(out.matches('\n').count(), 2);
}

#[test]
fn top_level_array_is_a_decode_error() {
    let err = execute("[1,2,3]").unwrap_err();
    assert!(!err.message.is_empty());
}

#[test]
fn top_level_scalar_is_a_decode_error() {
    assert!(execute("42").is_err());
    assert!(execute(r#""just a string""#).is_err());
}

#[test]
fn malformed_text_is_a_decode_error() {
    let err = execute("{\"a\": ").unwrap_err();
    assert!(!err.message.is_empty());
}

#[test]
fn keys_are_uppercased() {
    let (out, _) = execute(r#"{"mixedCase_key": "v"}"#).unwrap();
    let lines = lines_of(&out);
    assert_eq!(lines[0], "MIXEDCASE_KEY=v");
}
