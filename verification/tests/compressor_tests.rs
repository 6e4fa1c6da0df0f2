use rcf::compressor::compress_whitespace;

#[test]
fn blank_line_collapses_to_one_newline() {
    assert_eq!(compress_whitespace("a\n\nb"), "a\nb");
}

#[test]
fn newline_after_semicolon_is_removed() {
    assert_eq!(compress_whitespace("a;\nb"), "a;b");
}

#[test]
fn newline_after_braces_and_commas_is_removed() {
    assert_eq!(compress_whitespace("a{\nb"), "a{b");
    assert_eq!(compress_whitespace("a}\nb"), "a}b");
    assert_eq!(compress_whitespace("a,\nb"), "a,b");
}

#[test]
fn space_between_identifiers_survives() {
    assert_eq!(compress_whitespace("var x"), "var x");
}

#[test]
fn space_around_operators_is_removed() {
    assert_eq!(compress_whitespace("a + b"), "a+b");
    assert_eq!(compress_whitespace("x  =  1;"), "x=1;");
}

#[test]
fn space_runs_keep_at_most_one_space() {
    assert_eq!(compress_whitespace("a   b"), "a b");
}

#[test]
fn leading_whitespace_is_dropped() {
    assert_eq!(compress_whitespace("   \n\t a"), "a");
}

#[test]
fn trailing_whitespace_is_dropped() {
    assert_eq!(compress_whitespace("a \n"), "a");
}

#[test]
fn carriage_returns_vanish() {
    assert_eq!(compress_whitespace("a\r\nb"), "a\nb");
}

#[test]
fn string_bodies_pass_through_untouched() {
    assert_eq!(compress_whitespace("x = \"a   b\";"), "x=\"a   b\";");
    assert_eq!(compress_whitespace("x = 'a  b';"), "x='a  b';");
}

#[test]
fn escaped_quote_does_not_close_a_string() {
    assert_eq!(compress_whitespace("x\"a\\\"  b\"y  z"), "x\"a\\\"  b\"y z");
}

#[test]
fn line_comment_bodies_pass_through() {
    assert_eq!(compress_whitespace("a// keep   this\nb"), "a// keep   this\nb");
}

#[test]
fn block_comment_bodies_pass_through() {
    assert_eq!(compress_whitespace("a/* x   y */b"), "a/* x   y */b");
}

#[test]
fn block_close_does_not_open_line_comment() {
    // the `/` closing a block comment and a following `/` are not `//`
    assert_eq!(compress_whitespace("/*x*//a  b"), "/*x*//a b");
}

#[test]
fn empty_input_stays_empty() {
    assert_eq!(compress_whitespace(""), "");
}

#[test]
fn compress_is_idempotent_on_ordinary_code() {
    let cases = [
        "a\n\nb",
        "x  =  1;\ny = 2;",
        "if (a == b) {\n  c();\n}",
        "s = \"a   b\"; // note\nt = 2;",
        "a// c\nb",
        " lead  and  trail ",
    ];
    for src in cases.iter() {
        let once = compress_whitespace(src);
        let twice = compress_whitespace(&once);
        assert_eq!(once, twice);
    }
}
