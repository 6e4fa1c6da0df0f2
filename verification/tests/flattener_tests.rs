use rcf::flatten_file;
use rcf::reader::ConstantsMap;

fn map_of(pairs: &[(&str, &str)]) -> ConstantsMap {
    let mut map = ConstantsMap::new();
    for (k, v) in pairs.iter() {
        map.insert(k.to_string(), v.to_string());
    }
    map
}

#[test]
fn constant_substitution_plain() {
    let map = map_of(&[("FOO", "1+1")]);
    let out = flatten_file("x = FOO;", &map, Some(2), false, false).expect("flatten failed");
    assert_eq!(out, "x = 1+1;");
}

#[test]
fn constant_reference_wins_over_pending_chain() {
    let map = map_of(&[("FOO", "9")]);
    let out = flatten_file("obj.FOO;", &map, Some(2), false, false).expect("flatten failed");
    assert_eq!(out, "9;");
}

#[test]
fn unknown_identifiers_pass_through() {
    let map = ConstantsMap::new();
    let out = flatten_file("x = y;", &map, Some(2), false, false).expect("flatten failed");
    assert_eq!(out, "x = y;");
}

#[test]
fn dispatch_call_with_matching_selector_vanishes() {
    let map = ConstantsMap::new();
    let out = flatten_file("user_event(2);", &map, Some(2), false, false).expect("flatten failed");
    assert_eq!(out, "");
}

#[test]
fn dispatch_call_with_other_selector_survives() {
    let map = ConstantsMap::new();
    let out = flatten_file("user_event(3);", &map, Some(2), false, false).expect("flatten failed");
    assert_eq!(out, "user_event(3);");
}

#[test]
fn dispatch_call_without_selector_survives() {
    let map = ConstantsMap::new();
    let out = flatten_file("user_event(2);", &map, None, false, false).expect("flatten failed");
    assert_eq!(out, "user_event(2);");
}

#[test]
fn dispatch_elision_keeps_surrounding_code() {
    let map = ConstantsMap::new();
    let out = flatten_file("a = 1;\nuser_event(2);\nb = 2;", &map, Some(2), false, false)
        .expect("flatten failed");
    assert_eq!(out, "a = 1;\n\nb = 2;");
}

#[test]
fn ignore_region_is_dropped() {
    let map = ConstantsMap::new();
    let src = "a = 1;\n//#RCFBEGINIGNORE\nsecret stuff;\n//#RCFENDIGNORE\nb = 2;";
    let out = flatten_file(src, &map, Some(2), false, false).expect("flatten failed");
    assert!(!out.contains("secret"));
    assert_eq!(out, "a = 1;\n\nb = 2;");
}

#[test]
fn ignore_region_is_dropped_with_strip_flags_on() {
    let map = ConstantsMap::new();
    let src = "a = 1;\n//#RCFBEGINIGNORE\nsecret stuff;\n//#RCFENDIGNORE\nb = 2;";
    let out = flatten_file(src, &map, Some(2), true, true).expect("flatten failed");
    assert!(!out.contains("secret"));
}

#[test]
fn unmatched_end_ignore_fails() {
    let map = ConstantsMap::new();
    let err = flatten_file("a;\n//#RCFENDIGNORE\n", &map, Some(2), false, false)
        .expect_err("flatten should fail");
    assert!(err.contains("unpaired end-ignore"));
}

#[test]
fn strip_comments_removes_comments_but_keeps_separation() {
    let map = ConstantsMap::new();
    let out = flatten_file("a/*x*/b;", &map, Some(2), true, true).expect("flatten failed");
    assert_eq!(out, "a b;");
}

#[test]
fn comments_kept_when_not_stripping() {
    let map = ConstantsMap::new();
    let out = flatten_file("a = 1; // note", &map, Some(2), false, false).expect("flatten failed");
    assert_eq!(out, "a = 1; // note");
}

#[test]
fn strip_whitespace_collapses_line_breaks_after_a_terminator() {
    let map = ConstantsMap::new();
    let out = flatten_file("a = 1;\n\n\nb = 2;", &map, Some(2), true, false)
        .expect("flatten failed");
    assert_eq!(out, "a=1;b=2;");
}

#[test]
fn strip_whitespace_keeps_one_newline_between_statements() {
    let map = ConstantsMap::new();
    let out = flatten_file("a = 1\n\n\nb = 2;", &map, Some(2), true, false)
        .expect("flatten failed");
    assert_eq!(out, "a=1\nb=2;");
}

#[test]
fn deformat_region_preserves_whitespace_despite_comment_stripping() {
    let map = ConstantsMap::new();
    let src = "//#RCFBEGINDEFORMAT\na  =  1; // keep\n//#RCFENDDEFORMAT";
    let out = flatten_file(src, &map, Some(2), false, true).expect("flatten failed");
    assert_eq!(out, "\na  =  1; // keep\n");
}

#[test]
fn empty_input_flattens_to_empty_output() {
    let map = ConstantsMap::new();
    let out = flatten_file("", &map, Some(2), false, false).expect("flatten failed");
    assert_eq!(out, "");
}

#[test]
fn whitespace_only_input_flattens_to_empty_output() {
    let map = ConstantsMap::new();
    let out = flatten_file("  \n\n\t\n", &map, Some(2), false, false).expect("flatten failed");
    assert_eq!(out, "");
}

#[test]
fn scan_errors_propagate_through_flatten() {
    let map = ConstantsMap::new();
    assert!(flatten_file("x = \"oops", &map, Some(2), false, false).is_err());
}
