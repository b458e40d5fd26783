use racket_wellformed::errors::ParsingError;
use racket_wellformed::sexpr::{Atom, Sexpr};
use racket_wellformed::sexpr_parser::SexprParser;

#[test]
fn parse_is_deterministic() {
    let text = "(define (my-func x) '(1 2.5 \"s\" #t))";
    let a = SexprParser::parse_str(text).unwrap().untag();
    let b = SexprParser::parse_str(text).unwrap().untag();
    assert_eq!(a, b);
}

#[test]
fn comments_are_fully_elided() {
    let commented = SexprParser::parse_str("(1 ; c\n 2 #| block |# 3)").unwrap().untag();
    let plain = SexprParser::parse_str("(1 2 3)").unwrap().untag();
    assert_eq!(commented, plain);
}

#[test]
fn sexpr_comments_skip_data() {
    let commented = SexprParser::parse_str("(#;1 1 2 #;3 3)").unwrap().untag();
    let plain = SexprParser::parse_str("(1 2 3)").unwrap().untag();
    assert_eq!(commented, plain);
}

#[test]
fn untag_is_idempotent() {
    let text = "(a (b 'c) 1.5)";
    let once = SexprParser::parse_str(text).unwrap().untag();
    let twice = SexprParser::parse_str(text).unwrap().untag().untag();
    assert_eq!(once, twice);
}

#[test]
fn parse_all_skips_toplevel_sexpr_comments() {
    let parsed = SexprParser::parse_all("#;(1 2) (3) #;4 5").unwrap();
    let untagged: Vec<Sexpr<()>> = parsed.into_iter().map(|t| t.untag()).collect();
    assert_eq!(
        untagged,
        vec![
            Sexpr::List(vec![Sexpr::Atom(Atom::Integer(3, ()), ())], ()),
            Sexpr::Atom(Atom::Integer(5, ()), ()),
        ]
    );
}

#[test]
fn quoted_datum_comment_is_skipped() {
    let res = SexprParser::parse_str("'#;1");
    assert!(matches!(res, Err(ParsingError::NothingToParse)));
}

#[test]
fn quoted_datum_comment_in_list_is_skipped() {
    let parsed = SexprParser::parse_str("(a '#;1 b)").unwrap().untag();
    assert_eq!(
        parsed,
        Sexpr::List(
            vec![
                Sexpr::Atom(Atom::Symbol("a".to_string(), ()), ()),
                Sexpr::Atom(Atom::Symbol("b".to_string(), ()), ()),
            ],
            ()
        )
    );
}

#[test]
fn parse_one_rejects_trailing_garbage() {
    let res = SexprParser::parse_str("(1 2) 3");
    assert!(matches!(res, Err(ParsingError::InvalidSyntax(_, _, _))));
}

#[test]
fn empty_input_is_a_grammar_failure() {
    let res = SexprParser::parse_str("");
    assert!(matches!(res, Err(ParsingError::GrammarFailure(_))));
}

#[test]
fn unterminated_string_is_a_grammar_failure() {
    let res = SexprParser::parse_str("\"abc");
    assert!(matches!(res, Err(ParsingError::GrammarFailure(_))));
}

#[test]
fn unterminated_block_comment_is_a_grammar_failure() {
    let res = SexprParser::parse_str("#| never closed");
    assert!(matches!(res, Err(ParsingError::GrammarFailure(_))));
}

#[test]
fn mismatched_closer_is_invalid_syntax() {
    let res = SexprParser::parse_str("(bla [bla)]");
    assert!(matches!(res, Err(ParsingError::InvalidSyntax(_, _, _))));
}

#[test]
fn hex_overflow_is_invalid_syntax() {
    let res = SexprParser::parse_str("0xFFFFFFFFFFFFFFFF");
    assert!(matches!(res, Err(ParsingError::InvalidSyntax(_, _, _))));
}

#[test]
fn decimal_overflow_is_invalid_syntax() {
    let res = SexprParser::parse_str("99999999999999999999");
    assert!(matches!(res, Err(ParsingError::InvalidSyntax(_, _, _))));
}

#[test]
fn most_negative_integer_parses() {
    let parsed = SexprParser::parse_str("-9223372036854775808").unwrap().untag();
    assert_eq!(parsed, Sexpr::Atom(Atom::Integer(i64::MIN, ()), ()));
}

#[test]
fn largest_integer_parses() {
    let parsed = SexprParser::parse_str("9223372036854775807").unwrap().untag();
    assert_eq!(parsed, Sexpr::Atom(Atom::Integer(i64::MAX, ()), ()));
}

#[test]
fn nested_block_comments() {
    let parsed = SexprParser::parse_str("(1 #| outer #| inner |# still outer |# 2)")
        .unwrap()
        .untag();
    let plain = SexprParser::parse_str("(1 2)").unwrap().untag();
    assert_eq!(parsed, plain);
}
