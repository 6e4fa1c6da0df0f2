use rcf::get_constants_map;
use rcf::reader::ConstantsMap;

fn value_of(map: &ConstantsMap, key: &str) -> String {
    map.get(&key.to_string()).expect("key should be bound").clone()
}

#[test]
fn single_declaration() {
    let map = get_constants_map("FOO = 1+1;\n").expect("read failed");
    assert_eq!(value_of(&map, "FOO"), "1+1");
}

#[test]
fn newline_terminates_a_declaration() {
    let map = get_constants_map("A = 7\n").expect("read failed");
    assert_eq!(value_of(&map, "A"), "7");
}

#[test]
fn trailing_declaration_without_newline_is_kept() {
    let map = get_constants_map("A = 7;").expect("read failed");
    assert_eq!(value_of(&map, "A"), "7");
}

#[test]
fn forward_reference_is_rejected() {
    let err = get_constants_map("B = A;\nA = 1;\n").expect_err("read should fail");
    assert!(err.contains("non-constant identifier"));
}

#[test]
fn earlier_constant_is_substituted() {
    let map = get_constants_map("A = 1;\nB = A+2;\n").expect("read failed");
    assert_eq!(value_of(&map, "B"), "1+2");
}

#[test]
fn later_declaration_overwrites_earlier() {
    let map = get_constants_map("A = 1;\nA = 2;\n").expect("read failed");
    assert_eq!(value_of(&map, "A"), "2");
}

#[test]
fn value_spacing_between_word_like_tokens_only() {
    let map = get_constants_map("A = 1 2;\nB = 1+2;\n").expect("read failed");
    assert_eq!(value_of(&map, "A"), "1 2");
    assert_eq!(value_of(&map, "B"), "1+2");
}

#[test]
fn bracketed_value_spans_lines() {
    let map = get_constants_map("A = [1,\n2];\n").expect("read failed");
    assert_eq!(value_of(&map, "A"), "[1,2]");
}

#[test]
fn newline_inside_brackets_does_not_terminate() {
    let map = get_constants_map("A = (1\n+\n2);\n").expect("read failed");
    assert_eq!(value_of(&map, "A"), "(1+2)");
}

#[test]
fn dotted_value_stays_tight() {
    let map = get_constants_map("A = 1;\nB = A.A;\n").expect("read failed");
    assert_eq!(value_of(&map, "B"), "1.1");
}

#[test]
fn plain_identifier_in_value_must_be_a_constant() {
    assert!(get_constants_map("A = obj.x;\n").is_err());
}

#[test]
fn comments_and_whitespace_are_skipped() {
    let map = get_constants_map("// header\nA = 1; /* trailing */\nB = 2;\n").expect("read failed");
    assert_eq!(value_of(&map, "A"), "1");
    assert_eq!(value_of(&map, "B"), "2");
}

#[test]
fn ignore_region_is_skipped() {
    let map = get_constants_map("//#RCFBEGINIGNORE\nthis is ! not * a declaration\n//#RCFENDIGNORE\nA = 1;\n")
        .expect("read failed");
    assert_eq!(value_of(&map, "A"), "1");
}

#[test]
fn unpaired_end_ignore_is_rejected() {
    let err = get_constants_map("//#RCFENDIGNORE\n").expect_err("read should fail");
    assert!(err.contains("unpaired end-ignore"));
}

#[test]
fn deformat_markers_are_rejected() {
    let err = get_constants_map("//#RCFBEGINDEFORMAT\nA = 1;\n").expect_err("read should fail");
    assert!(err.contains("Deformatting"));
}

#[test]
fn bare_semicolon_is_rejected() {
    let err = get_constants_map(";\n").expect_err("read should fail");
    assert!(err.contains("semicolon"));
}

#[test]
fn missing_equals_is_rejected() {
    assert!(get_constants_map("A 1;\n").is_err());
}

#[test]
fn literal_at_statement_start_is_rejected() {
    assert!(get_constants_map("1 = A;\n").is_err());
}

#[test]
fn unpaired_close_bracket_is_rejected() {
    let err = get_constants_map("A = );\n").expect_err("read should fail");
    assert!(err.contains("unpaired close bracket"));
}

#[test]
fn terminating_inside_brackets_is_rejected() {
    let err = get_constants_map("A = (1;\n").expect_err("read should fail");
    assert!(err.contains("semicolon"));
}

#[test]
fn dangling_assignment_at_end_is_rejected() {
    assert!(get_constants_map("A = ").is_err());
    assert!(get_constants_map("A").is_err());
    assert!(get_constants_map("A = 1+").is_err());
}

#[test]
fn empty_script_gives_empty_map() {
    let map = get_constants_map("").expect("read failed");
    assert!(!map.contains_key(&"A".to_string()));
}

#[test]
fn scan_errors_propagate() {
    assert!(get_constants_map("A = \"oops;\n").is_err());
}

#[test]
fn map_insert_and_get() {
    let mut map = ConstantsMap::new();
    map.insert("FOO".to_string(), "1+1".to_string());
    assert_eq!(value_of(&map, "FOO"), "1+1");
    assert!(map.get(&"BAR".to_string()).is_none());
    map.insert("FOO".to_string(), "2".to_string());
    assert_eq!(value_of(&map, "FOO"), "2");
}
