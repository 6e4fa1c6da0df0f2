use rcf::scanner::RcfScanner;
use rcf::token::Token;

fn scan(src: &str) -> Vec<Token> {
    let mut s = RcfScanner::new(src);
    s.scan_tokens().expect("scan failed")
}

fn concat(tokens: &Vec<Token>) -> String {
    let mut out = String::new();
    for t in tokens.iter() {
        out.push_str(t.get_string().as_str());
    }
    out
}

#[test]
fn round_trip_plain_source() {
    let src = "x = FOO;\nobj.val = 1.5; // note\n/* block\ncomment */ 'str' == \"two\"\n";
    let tokens = scan(src);
    assert_eq!(concat(&tokens), src);
}

#[test]
fn round_trip_odd_characters() {
    let src = "a\t+ b # ? @\r\n{ [ ] } ( )";
    let tokens = scan(src);
    assert_eq!(concat(&tokens), src);
}

#[test]
fn single_character_tokens() {
    let tokens = scan(".;\n=");
    assert!(matches!(tokens[0], Token::Dot));
    assert!(matches!(tokens[1], Token::Semicolon));
    assert!(matches!(tokens[2], Token::NewLine));
    assert!(matches!(tokens[3], Token::Equal));
}

#[test]
fn double_equal_is_symbol() {
    let tokens = scan("a == b");
    assert!(matches!(&tokens[1], Token::Whitespace(_)));
    match &tokens[2] {
        Token::Symbol(s) => assert_eq!(s, "=="),
        t => panic!("expected symbol, got {:?}", t),
    }
}

#[test]
fn brackets_keep_their_kind() {
    let tokens = scan("({[)}]");
    match &tokens[0] {
        Token::OpenBracket(s) => assert_eq!(s, "("),
        t => panic!("unexpected {:?}", t),
    }
    match &tokens[2] {
        Token::OpenBracket(s) => assert_eq!(s, "["),
        t => panic!("unexpected {:?}", t),
    }
    match &tokens[5] {
        Token::CloseBracket(s) => assert_eq!(s, "]"),
        t => panic!("unexpected {:?}", t),
    }
}

#[test]
fn whitespace_run_collapses_into_one_token() {
    let tokens = scan("a \t\r b");
    assert_eq!(tokens.len(), 3);
    match &tokens[1] {
        Token::Whitespace(s) => assert_eq!(s, " \t\r "),
        t => panic!("unexpected {:?}", t),
    }
}

#[test]
fn reserved_words_become_literals() {
    for word in ["true", "false", "noone", "pi", "null"] {
        let tokens = scan(word);
        match &tokens[0] {
            Token::Literal(s) => assert_eq!(s, word),
            t => panic!("{} scanned as {:?}", word, t),
        }
    }
    let tokens = scan("truely");
    assert!(matches!(&tokens[0], Token::Identifier(_)));
}

#[test]
fn numbers_with_and_without_fraction() {
    let tokens = scan("12 3.75 4.");
    match &tokens[0] {
        Token::Literal(s) => assert_eq!(s, "12"),
        t => panic!("unexpected {:?}", t),
    }
    match &tokens[2] {
        Token::Literal(s) => assert_eq!(s, "3.75"),
        t => panic!("unexpected {:?}", t),
    }
    match &tokens[4] {
        Token::Literal(s) => assert_eq!(s, "4."),
        t => panic!("unexpected {:?}", t),
    }
}

#[test]
fn string_literals_keep_quotes_and_escapes() {
    let tokens = scan("\"ab\\\"cd\" 'x'");
    match &tokens[0] {
        Token::Literal(s) => assert_eq!(s, "\"ab\\\"cd\""),
        t => panic!("unexpected {:?}", t),
    }
    match &tokens[2] {
        Token::Literal(s) => assert_eq!(s, "'x'"),
        t => panic!("unexpected {:?}", t),
    }
}

#[test]
fn unterminated_string_collects_error() {
    let mut s = RcfScanner::new("x = \"abc");
    let errs = s.scan_tokens().expect_err("scan should fail");
    assert_eq!(errs.len(), 1);
    assert_eq!(errs[0], "Unterminated string starting at line [1].");
}

#[test]
fn unterminated_string_reports_its_line() {
    let mut s = RcfScanner::new("a\nb\n'oops");
    let errs = s.scan_tokens().expect_err("scan should fail");
    assert_eq!(errs[0], "Unterminated string starting at line [3].");
}

#[test]
fn directive_comments_become_directive_tokens() {
    let tokens = scan("//#RCFBEGINIGNORE\n//#RCFENDIGNORE\n//#RCFBEGINDEFORMAT\n//#RCFENDDEFORMAT");
    assert!(matches!(tokens[0], Token::IgnoreBegin));
    assert!(matches!(tokens[2], Token::IgnoreEnd));
    assert!(matches!(tokens[4], Token::DeformatBegin));
    assert!(matches!(tokens[6], Token::DeformatEnd));
}

#[test]
fn directive_with_trailing_whitespace_still_matches() {
    let tokens = scan("//#RCFBEGINIGNORE   \nx");
    assert!(matches!(tokens[0], Token::IgnoreBegin));
}

#[test]
fn directive_with_extra_text_is_a_plain_comment() {
    let tokens = scan("//#RCFBEGINIGNOREextra\n");
    match &tokens[0] {
        Token::ShortComment(s) => assert_eq!(s, "//#RCFBEGINIGNOREextra"),
        t => panic!("unexpected {:?}", t),
    }
}

#[test]
fn line_comment_keeps_interior_spacing() {
    let tokens = scan("// keep  this  \nx");
    match &tokens[0] {
        Token::ShortComment(s) => assert_eq!(s, "// keep  this  "),
        t => panic!("unexpected {:?}", t),
    }
}

#[test]
fn block_comment_runs_to_terminator() {
    let tokens = scan("/* a * b */c");
    match &tokens[0] {
        Token::LongComment(s) => assert_eq!(s, "/* a * b */"),
        t => panic!("unexpected {:?}", t),
    }
    assert!(matches!(&tokens[1], Token::Identifier(_)));
}

#[test]
fn unterminated_block_comment_is_carried_through() {
    let tokens = scan("x/*never closed");
    match &tokens[1] {
        Token::LongComment(s) => assert_eq!(s, "/*never closed"),
        t => panic!("unexpected {:?}", t),
    }
}

#[test]
fn bare_slash_is_a_symbol() {
    let tokens = scan("a/b");
    match &tokens[1] {
        Token::Symbol(s) => assert_eq!(s, "/"),
        t => panic!("unexpected {:?}", t),
    }
}

#[test]
fn scanning_is_cached_across_calls() {
    let mut s = RcfScanner::new("a = 1;");
    let first = s.scan_tokens().expect("scan failed");
    let second = s.scan_tokens().expect("scan failed");
    assert_eq!(concat(&first), concat(&second));
    assert_eq!(first.len(), second.len());
}

#[test]
fn backtick_opens_a_string_literal() {
    let tokens = scan("`a b` c");
    match &tokens[0] {
        Token::Literal(s) => assert_eq!(s, "`a b`"),
        t => panic!("unexpected {:?}", t),
    }
}

#[test]
fn empty_source_scans_to_no_tokens() {
    let tokens = scan("");
    assert_eq!(tokens.len(), 0);
}
