use racket_wellformed::errors::ParsingError;
use racket_wellformed::sexpr::{Atom, Sexpr};
use racket_wellformed::sexpr_parser::SexprParser;

#[test]
fn test_parse_slist_simple() {
    let parsed = SexprParser::parse_str("(1 2 3)").unwrap().untag();
    assert_eq!(
        parsed,
        Sexpr::List(
            vec![
                Sexpr::Atom(Atom::Integer(1, ()), ()),
                Sexpr::Atom(Atom::Integer(2, ()), ()),
                Sexpr::Atom(Atom::Integer(3, ()), ()),
            ],
            ()
        )
    );
}

#[test]
fn test_comment_parse() {
    let parsed = SexprParser::parse_str(
        "(1 ; a comment
            2 ; another comment (1 2 3)
            3) ; yet another comment",
    )
    .unwrap()
    .untag();
    assert_eq!(
        parsed,
        Sexpr::List(
            vec![
                Sexpr::Atom(Atom::Integer(1, ()), ()),
                Sexpr::Atom(Atom::Integer(2, ()), ()),
                Sexpr::Atom(Atom::Integer(3, ()), ()),
            ],
            ()
        )
    );
}

#[test]
fn test_blockcomment_parse_inline() {
    let parsed = SexprParser::parse_str(
        "(1 #| 2 |# #| 2 3|#
            2 #| aaaaaaaa |#
            3)",
    )
    .unwrap()
    .untag();
    assert_eq!(
        parsed,
        Sexpr::List(
            vec![
                Sexpr::Atom(Atom::Integer(1, ()), ()),
                Sexpr::Atom(Atom::Integer(2, ()), ()),
                Sexpr::Atom(Atom::Integer(3, ()), ()),
            ],
            ()
        )
    );
}

#[test]
fn test_blockcomment_parse_multiline() {
    let parsed = SexprParser::parse_str(
        "(1 #| 2 |# #| 2 3
            2  aaaaaaaa |#
            2
            3)",
    )
    .unwrap()
    .untag();
    assert_eq!(
        parsed,
        Sexpr::List(
            vec![
                Sexpr::Atom(Atom::Integer(1, ()), ()),
                Sexpr::Atom(Atom::Integer(2, ()), ()),
                Sexpr::Atom(Atom::Integer(3, ()), ()),
            ],
            ()
        )
    );
}

#[test]
fn test_sexprcomment_atom() {
    let parsed = SexprParser::parse_str("(#;1 1 2 #;3 3)").unwrap().untag();
    assert_eq!(
        parsed,
        Sexpr::List(
            vec![
                Sexpr::Atom(Atom::Integer(1, ()), ()),
                Sexpr::Atom(Atom::Integer(2, ()), ()),
                Sexpr::Atom(Atom::Integer(3, ()), ()),
            ],
            ()
        )
    );
}

#[test]
fn test_sexprcomment_slist() {
    let parsed = SexprParser::parse_str("(#;(1 5 6) 1 2 #;3 3)")
        .unwrap()
        .untag();
    assert_eq!(
        parsed,
        Sexpr::List(
            vec![
                Sexpr::Atom(Atom::Integer(1, ()), ()),
                Sexpr::Atom(Atom::Integer(2, ()), ()),
                Sexpr::Atom(Atom::Integer(3, ()), ()),
            ],
            ()
        )
    );
}

#[test]
fn test_sexprcomment_slist2() {
    let parsed = SexprParser::parse_str("#;(1 2 3 4)");
    assert!(matches!(parsed, Err(ParsingError::NothingToParse)));
}

#[test]
fn test_parse_slist_simple_int_neg() {
    let parsed = SexprParser::parse_str("(-1 2 -3)").unwrap().untag();
    assert_eq!(
        parsed,
        Sexpr::List(
            vec![
                Sexpr::Atom(Atom::Integer(-1, ()), ()),
                Sexpr::Atom(Atom::Integer(2, ()), ()),
                Sexpr::Atom(Atom::Integer(-3, ()), ()),
            ],
            ()
        )
    );
}

#[test]
fn test_parse_string() {
    let parsed = SexprParser::parse_str("\"hello\"").unwrap().untag();
    assert_eq!(
        parsed,
        Sexpr::Atom(Atom::String("hello".to_string(), ()), ())
    );
}

#[test]
fn test_parse_hex() {
    let parsed = SexprParser::parse_str("0xFA5c2b").unwrap().untag();
    assert_eq!(parsed, Sexpr::Atom(Atom::Integer(0xFA5C2B, ()), ()));
}

#[test]
fn test_parse_string_escapes() {
    let parsed = SexprParser::parse_str(r#""a\nb\x0Fc\u{a}d\u{AbAbAb}e""#)
        .unwrap()
        .untag();
    assert_eq!(
        parsed,
        Sexpr::Atom(
            Atom::String(r#"a\nb\x0Fc\u{a}d\u{AbAbAb}e"#.to_string(), ()),
            ()
        )
    );
}

#[test]
fn test_parse_string_nested() {
    let parsed = SexprParser::parse_str(r#"("a" "b" "c")"#).unwrap().untag();
    assert_eq!(
        parsed,
        Sexpr::List(
            vec![
                Sexpr::Atom(Atom::String("a".to_string(), ()), ()),
                Sexpr::Atom(Atom::String("b".to_string(), ()), ()),
                Sexpr::Atom(Atom::String("c".to_string(), ()), ()),
            ],
            ()
        )
    );
}

#[test]
fn test_parse_simple_atom_int() {
    let parsed = SexprParser::parse_str("1337").unwrap().untag();
    assert_eq!(parsed, Sexpr::Atom(Atom::Integer(1337, ()), ()));
}

#[test]
fn test_parse_simple_atom_symbol() {
    let parsed = SexprParser::parse_str("bleh").unwrap().untag();
    assert_eq!(
        parsed,
        Sexpr::Atom(Atom::Symbol("bleh".to_string(), ()), ())
    );
}

#[test]
fn test_parse_slist_sym() {
    let parsed = SexprParser::parse_str("(+ 1 2)").unwrap().untag();
    assert_eq!(
        parsed,
        Sexpr::List(
            vec![
                Sexpr::Atom(Atom::Symbol("+".to_string(), ()), ()),
                Sexpr::Atom(Atom::Integer(1, ()), ()),
                Sexpr::Atom(Atom::Integer(2, ()), ()),
            ],
            ()
        )
    );
}

#[test]
fn test_parse_simple_atom_bool_t() {
    let parsed = SexprParser::parse_str("#t").unwrap().untag();
    assert_eq!(parsed, Sexpr::Atom(Atom::Boolean(true, ()), ()));
}

#[test]
fn test_parse_simple_atom_bool_true() {
    let parsed = SexprParser::parse_str("#true").unwrap().untag();
    assert_eq!(parsed, Sexpr::Atom(Atom::Boolean(true, ()), ()));
}

#[test]
fn test_parse_simple_atom_bool_f() {
    let parsed = SexprParser::parse_str("#f").unwrap().untag();
    assert_eq!(parsed, Sexpr::Atom(Atom::Boolean(false, ()), ()));
}

#[test]
fn test_parse_simple_atom_bool_false() {
    let parsed = SexprParser::parse_str("#false").unwrap().untag();
    assert_eq!(parsed, Sexpr::Atom(Atom::Boolean(false, ()), ()));
}

#[test]
fn test_parse_simple_float_full() {
    let parsed = SexprParser::parse_str("232.555").unwrap().untag();
    assert_eq!(parsed, Sexpr::Atom(Atom::Float("232.555".to_string(), ()), ()));
    assert_eq!("232.555".parse::<f64>().unwrap(), 232.555);
}

#[test]
fn test_parse_simple_float_left_optional() {
    let parsed = SexprParser::parse_str(".555").unwrap().untag();
    assert_eq!(parsed, Sexpr::Atom(Atom::Float(".555".to_string(), ()), ()));
    assert_eq!(".555".parse::<f64>().unwrap(), 0.555);
}

#[test]
fn test_parse_simple_float_right_optional() {
    let parsed = SexprParser::parse_str("4324.").unwrap().untag();
    assert_eq!(parsed, Sexpr::Atom(Atom::Float("4324.".to_string(), ()), ()));
    assert_eq!("4324.".parse::<f64>().unwrap(), 4324.0);
}

#[test]
fn test_parse_simple_float_literal() {
    let parsed = SexprParser::parse_str("20f").unwrap().untag();
    assert_eq!(parsed, Sexpr::Atom(Atom::Float("20".to_string(), ()), ()));
    assert_eq!("20".parse::<f64>().unwrap(), 20.0);
}

#[test]
fn test_sval_symbol() {
    let parsed = SexprParser::parse_str("'b").unwrap().untag();
    assert_eq!(
        parsed,
        Sexpr::Atom(
            Atom::Quoted(
                Box::new(Sexpr::Atom(Atom::Symbol("b".to_string(), ()), ())),
                ()
            ),
            ()
        )
    );
}

#[test]
fn test_sval_symbol_doublequote() {
    let parsed = SexprParser::parse_str("''b").unwrap().untag();
    assert_eq!(
        parsed,
        Sexpr::Atom(
            Atom::Quoted(
                Box::new(Sexpr::Atom(
                    Atom::Quoted(
                        Box::new(Sexpr::Atom(Atom::Symbol("b".to_string(), ()), ()),),
                        ()
                    ),
                    ()
                )),
                ()
            ),
            ()
        )
    );
}

#[test]
fn test_sval_symbol_triplequote() {
    let parsed = SexprParser::parse_str("'''b").unwrap().untag();
    assert_eq!(
        parsed,
        Sexpr::Atom(
            Atom::Quoted(
                Box::new(Sexpr::Atom(
                    Atom::Quoted(
                        Box::new(Sexpr::Atom(
                            Atom::Quoted(
                                Box::new(Sexpr::Atom(Atom::Symbol("b".to_string(), ()), ()),),
                                ()
                            ),
                            ()
                        ),),
                        ()
                    ),
                    ()
                )),
                ()
            ),
            ()
        )
    );
}

#[test]
fn test_sval_quasisymbol() {
    let parsed = SexprParser::parse_str("`b").unwrap().untag();
    assert_eq!(
        parsed,
        Sexpr::Atom(
            Atom::QuasiQuoted(
                Box::new(Sexpr::Atom(Atom::Symbol("b".to_string(), ()), ())),
                ()
            ),
            ()
        )
    );
}

#[test]
fn test_sval_symbol_quasidoublequote() {
    let parsed = SexprParser::parse_str("``b").unwrap().untag();
    assert_eq!(
        parsed,
        Sexpr::Atom(
            Atom::QuasiQuoted(
                Box::new(Sexpr::Atom(
                    Atom::QuasiQuoted(
                        Box::new(Sexpr::Atom(Atom::Symbol("b".to_string(), ()), ()),),
                        ()
                    ),
                    ()
                )),
                ()
            ),
            ()
        )
    );
}

#[test]
fn test_sval_symbol_quasitriplequote() {
    let parsed = SexprParser::parse_str("```b").unwrap().untag();
    assert_eq!(
        parsed,
        Sexpr::Atom(
            Atom::QuasiQuoted(
                Box::new(Sexpr::Atom(
                    Atom::QuasiQuoted(
                        Box::new(Sexpr::Atom(
                            Atom::QuasiQuoted(
                                Box::new(Sexpr::Atom(Atom::Symbol("b".to_string(), ()), ()),),
                                ()
                            ),
                            ()
                        ),),
                        ()
                    ),
                    ()
                )),
                ()
            ),
            ()
        )
    );
}

#[test]
fn test_sval_symbol_quasitriplequotemix() {
    let parsed = SexprParser::parse_str("`'`b").unwrap().untag();
    assert_eq!(
        parsed,
        Sexpr::Atom(
            Atom::QuasiQuoted(
                Box::new(Sexpr::Atom(
                    Atom::Quoted(
                        Box::new(Sexpr::Atom(
                            Atom::QuasiQuoted(
                                Box::new(Sexpr::Atom(Atom::Symbol("b".to_string(), ()), ()),),
                                ()
                            ),
                            ()
                        ),),
                        ()
                    ),
                    ()
                )),
                ()
            ),
            ()
        )
    );
}

#[test]
fn test_sval_symbol_quasitriplequotemix_unquote() {
    let parsed = SexprParser::parse_str("`,`b").unwrap().untag();
    assert_eq!(
        parsed,
        Sexpr::Atom(
            Atom::QuasiQuoted(
                Box::new(Sexpr::Atom(
                    Atom::Unquoted(
                        Box::new(Sexpr::Atom(
                            Atom::QuasiQuoted(
                                Box::new(Sexpr::Atom(Atom::Symbol("b".to_string(), ()), ()),),
                                ()
                            ),
                            ()
                        ),),
                        ()
                    ),
                    ()
                )),
                ()
            ),
            ()
        )
    );
}

#[test]
fn test_sval_list_simple() {
    let parsed = SexprParser::parse_str("'(1 \"bla\" #false bla 'bla)")
        .unwrap()
        .untag();
    assert_eq!(
        parsed,
        Sexpr::Atom(
            Atom::Quoted(
                Box::new(Sexpr::List(
                    vec![
                        Sexpr::Atom(Atom::Integer(1, ()), ()),
                        Sexpr::Atom(Atom::String("bla".to_string(), ()), ()),
                        Sexpr::Atom(Atom::Boolean(false, ()), ()),
                        Sexpr::Atom(Atom::Symbol("bla".to_string(), ()), ()),
                        Sexpr::Atom(
                            Atom::Quoted(
                                Box::new(Sexpr::Atom(Atom::Symbol("bla".to_string(), ()), ())),
                                ()
                            ),
                            ()
                        ),
                    ],
                    ()
                )),
                ()
            ),
            ()
        )
    );
}

#[test]
fn test_empty() {
    let parsed = SexprParser::parse_str("()").unwrap().untag();
    assert_eq!(parsed, Sexpr::List(vec![], ()));
}

#[test]
fn test_sval_empty() {
    let parsed = SexprParser::parse_str("'()").unwrap().untag();
    assert_eq!(
        parsed,
        Sexpr::Atom(Atom::Quoted(Box::new(Sexpr::List(vec![], ())), ()), ())
    );
}

#[test]
fn test_symbol_dot() {
    let parsed = SexprParser::parse_str(".").unwrap().untag();
    assert_eq!(parsed, Sexpr::Atom(Atom::Symbol(".".to_string(), ()), ()));
}

#[test]
fn test_sval_list_nested() {
    let parsed = SexprParser::parse_str("'(1 '(bla '(bla bla) 'fufu #true) 'faf)")
        .unwrap()
        .untag();
    assert_eq!(
        parsed,
        Sexpr::Atom(
            Atom::Quoted(
                Box::new(Sexpr::List(
                    vec![
                        Sexpr::Atom(Atom::Integer(1, ()), ()),
                        Sexpr::Atom(
                            Atom::Quoted(
                                Box::new(Sexpr::List(
                                    vec![
                                        Sexpr::Atom(Atom::Symbol("bla".to_string(), ()), ()),
                                        Sexpr::Atom(
                                            Atom::Quoted(
                                                Box::new(Sexpr::List(
                                                    vec![
                                                        Sexpr::Atom(
                                                            Atom::Symbol("bla".to_string(), ()),
                                                            ()
                                                        ),
                                                        Sexpr::Atom(
                                                            Atom::Symbol("bla".to_string(), ()),
                                                            ()
                                                        ),
                                                    ],
                                                    ()
                                                )),
                                                ()
                                            ),
                                            ()
                                        ),
                                        Sexpr::Atom(
                                            Atom::Quoted(
                                                Box::new(Sexpr::Atom(
                                                    Atom::Symbol("fufu".to_string(), ()),
                                                    ()
                                                )),
                                                ()
                                            ),
                                            ()
                                        ),
                                        Sexpr::Atom(Atom::Boolean(true, ()), ()),
                                    ],
                                    ()
                                )),
                                ()
                            ),
                            ()
                        ),
                        Sexpr::Atom(
                            Atom::Quoted(
                                Box::new(Sexpr::Atom(Atom::Symbol("faf".to_string(), ()), ())),
                                ()
                            ),
                            ()
                        ),
                    ],
                    ()
                )),
                ()
            ),
            ()
        )
    );
}

#[test]
fn racket_optional_see_how_parses() {
    let parsed = SexprParser::parse_str("(bla #:when #true)")
        .unwrap()
        .untag();
    assert_eq!(
        parsed,
        Sexpr::List(
            vec![
                Sexpr::Atom(Atom::Symbol("bla".to_string(), ()), ()),
                Sexpr::Atom(Atom::Symbol("#:when".to_string(), ()), ()),
                Sexpr::Atom(Atom::Boolean(true, ()), ()),
            ],
            ()
        )
    );
}

#[test]
fn test_balanced_parens1() {
    let parsed = SexprParser::parse_str("[1 (2 {1 2 3}) 3]");
    assert!(parsed.is_ok());
}

#[test]
fn test_unbalanced_parens1() {
    let parsed = SexprParser::parse_str("(bla (bla)");
    assert!(parsed.is_err());
}

#[test]
fn test_unbalanced_parens2() {
    let parsed = SexprParser::parse_str("(bla [bla)]");
    assert!(parsed.is_err());
}

#[test]
fn test_parse_nested() {
    let parsed = SexprParser::parse_str("(1 (2 3 4) (5 (2 3)))")
        .unwrap()
        .untag();
    assert_eq!(
        parsed,
        Sexpr::List(
            vec![
                Sexpr::Atom(Atom::Integer(1, ()), ()),
                Sexpr::List(
                    vec![
                        Sexpr::Atom(Atom::Integer(2, ()), ()),
                        Sexpr::Atom(Atom::Integer(3, ()), ()),
                        Sexpr::Atom(Atom::Integer(4, ()), ())
                    ],
                    ()
                ),
                Sexpr::List(
                    vec![
                        Sexpr::Atom(Atom::Integer(5, ()), ()),
                        Sexpr::List(
                            vec![
                                Sexpr::Atom(Atom::Integer(2, ()), ()),
                                Sexpr::Atom(Atom::Integer(3, ()), ()),
                            ],
                            ()
                        ),
                    ],
                    ()
                ),
            ],
            ()
        )
    );
}
