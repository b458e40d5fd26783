use racket_wellformed::errors::ParsingError;
use racket_wellformed::sexpr_parser::SexprParser;

#[test]
fn render_list_back_to_text() {
    let parsed = SexprParser::parse_str("[1  (2 {3 4})  \"s\" #t #f 'x `y ,z -7 2.5]").unwrap();
    assert_eq!(
        parsed.to_text(),
        "(1 (2 (3 4)) \"s\" #t #f 'x `y ,z -7 2.5)"
    );
}

#[test]
fn render_empty_list() {
    let parsed = SexprParser::parse_str("()").unwrap();
    assert_eq!(parsed.to_text(), "()");
}

#[test]
fn render_negative_and_large_integers() {
    let parsed = SexprParser::parse_str("(-1 0 9223372036854775807 -9223372036854775808)").unwrap();
    assert_eq!(
        parsed.to_text(),
        "(-1 0 9223372036854775807 -9223372036854775808)"
    );
}

#[test]
fn decorations_track_positions() {
    let parsed = SexprParser::parse_str("(1\n 23)").unwrap();
    let tok = parsed.get_decorator();
    assert_eq!(tok.string, "(1\n 23)");
    assert_eq!(tok.start, (1, 1));
    assert_eq!(tok.end, (2, 5));
}

#[test]
fn tok_info_display() {
    let parsed = SexprParser::parse_str("  foo").unwrap();
    let tok = parsed.get_decorator();
    assert_eq!(
        tok.to_text(),
        "token starting at line 1, column 3 and ending at line 1, column 6:\nfoo"
    );
}

#[test]
fn parsing_error_display() {
    let err = SexprParser::parse_str("(1 2]").unwrap_err();
    let text = match &err {
        ParsingError::InvalidSyntax(_, _, _) => err.to_text(),
        other => panic!("expected InvalidSyntax, got {:?}", other),
    };
    assert!(text.starts_with("Invalid syntax `]` : token starting at line 1, column 5"));
}

#[test]
fn nothing_to_parse_display() {
    let err = SexprParser::parse_str("#;1").unwrap_err();
    assert_eq!(err.to_text(), "Nothing to parse");
}
