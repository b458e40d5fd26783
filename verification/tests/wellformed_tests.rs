use racket_wellformed::config::Config;
use racket_wellformed::prog::Program;
use racket_wellformed::sexpr_parser::SexprParser;
use racket_wellformed::wellformed::WellformedError;

fn program(source: &str, hashlang: &str) -> Program {
    Program {
        hashlang: hashlang.to_string(),
        body: SexprParser::parse_all(source).unwrap(),
    }
}

#[test]
fn wellformed_success() {
    let prog = program("(define (my-func x) x)", "htdp/bsl");
    let config = Config {
        lang: (Some("htdp/bsl".to_string()), None),
        defs: vec!["my-func".to_string()],
    };
    assert!(config.check_wellformedness(&prog).is_ok());
}

#[test]
fn wellformed_missing_def() {
    let prog = program("(define (my-func x) x)", "htdp/bsl");
    let config = Config {
        lang: (Some("htdp/bsl".to_string()), None),
        defs: vec!["other-func".to_string()],
    };
    let errs = config.check_wellformedness(&prog).unwrap_err();
    assert_eq!(errs.len(), 1);
    match &errs[0] {
        WellformedError::MissingDef(name) => assert_eq!(name, "other-func"),
        other => panic!("expected a MissingDef violation, got {:?}", other),
    }
}

#[test]
fn wellformed_wrong_hashlang() {
    let prog = program("(define (my-func x) x)", "racket/full");
    let config = Config {
        lang: (Some("htdp/bsl".to_string()), None),
        defs: vec!["my-func".to_string()],
    };
    let errs = config.check_wellformedness(&prog).unwrap_err();
    assert_eq!(errs.len(), 1);
    match &errs[0] {
        WellformedError::WrongHashlang(expected, found) => {
            assert_eq!(expected, "htdp/bsl");
            assert_eq!(found, "racket/full");
        },
        other => panic!("expected a WrongHashlang violation, got {:?}", other),
    }
}

#[test]
fn wellformed_accumulates_all_violations() {
    let prog = program("(define (f x) x) (not-a-define 1)", "racket/full");
    let config = Config {
        lang: (Some("htdp/bsl".to_string()), None),
        defs: vec!["f".to_string(), "g".to_string(), "h".to_string()],
    };
    let errs = config.check_wellformedness(&prog).unwrap_err();
    assert_eq!(errs.len(), 3);
    match &errs[0] {
        WellformedError::MissingDef(name) => assert_eq!(name, "g"),
        other => panic!("expected a MissingDef violation, got {:?}", other),
    }
    match &errs[1] {
        WellformedError::MissingDef(name) => assert_eq!(name, "h"),
        other => panic!("expected a MissingDef violation, got {:?}", other),
    }
    match &errs[2] {
        WellformedError::WrongHashlang(expected, found) => {
            assert_eq!(expected, "htdp/bsl");
            assert_eq!(found, "racket/full");
        },
        other => panic!("expected a WrongHashlang violation, got {:?}", other),
    }
}

#[test]
fn wellformed_duplicate_defs_collapse() {
    let prog = program("(define (f x) x) (define (f y) y)", "htdp/bsl");
    let config = Config {
        lang: (Some("htdp/bsl".to_string()), None),
        defs: vec!["f".to_string()],
    };
    assert!(config.check_wellformedness(&prog).is_ok());
}

#[test]
fn wellformed_only_recognizes_define_shape() {
    // `(define name value)` without the inner list is not recognized.
    let prog = program("(define f 1)", "htdp/bsl");
    let config = Config {
        lang: (Some("htdp/bsl".to_string()), None),
        defs: vec!["f".to_string()],
    };
    let errs = config.check_wellformedness(&prog).unwrap_err();
    assert_eq!(errs.len(), 1);
    match &errs[0] {
        WellformedError::MissingDef(name) => assert_eq!(name, "f"),
        other => panic!("expected a MissingDef violation, got {:?}", other),
    }
}

#[test]
fn wellformed_error_display() {
    let missing = WellformedError::MissingDef("my-func".to_string());
    assert_eq!(missing.to_text(), "Missing expected definition: my-func");
    let wrong = WellformedError::WrongHashlang("a".to_string(), "b".to_string());
    assert_eq!(wrong.to_text(), "Wrong language selected: expected a, found b");
}

#[test]
fn wellformed_reader_matches_too() {
    let prog = program("(define (f x) x)", "reader.ss");
    let config = Config {
        lang: (Some("htdp/bsl".to_string()), Some("reader.ss".to_string())),
        defs: vec!["f".to_string()],
    };
    assert!(config.check_wellformedness(&prog).is_ok());
}
