use racket_wellformed::config::Config;
use racket_wellformed::errors::ParsingError;

#[test]
fn parse_cfg_text() {
    let text = "((lang \"htdp/bsl\" \"htdp-beginner-reader.ss\") (defs '(my-func)))";
    let config = Config::from_str(text).unwrap();
    assert_eq!(
        config,
        Config {
            lang: (
                Some("htdp/bsl".to_string()),
                Some("htdp-beginner-reader.ss".to_string())
            ),
            defs: vec!["my-func".to_string()]
        }
    )
}

#[test]
fn parse_cfg_lang_only() {
    let text = "((lang \"htdp/bsl\" none) (defs '(f g)))";
    let config = Config::from_str(text).unwrap();
    assert_eq!(
        config,
        Config {
            lang: (Some("htdp/bsl".to_string()), None),
            defs: vec!["f".to_string(), "g".to_string()]
        }
    )
}

#[test]
fn parse_cfg_bad_shape() {
    let res = Config::from_str("(1 2 3)");
    assert!(matches!(res, Err(ParsingError::BadWellformedConfig)));
}

#[test]
fn parse_cfg_no_lang_at_all() {
    let res = Config::from_str("((lang none none) (defs '(f)))");
    assert!(matches!(res, Err(ParsingError::BadWellformedConfig)));
}

#[test]
fn parse_cfg_nothing() {
    let res = Config::from_str("#;(1 2)");
    assert!(matches!(res, Err(ParsingError::NothingToParse)));
}

#[test]
fn config_is_same_lang() {
    let config = Config {
        lang: (Some("htdp/bsl".to_string()), Some("reader.ss".to_string())),
        defs: vec![],
    };
    assert!(config.is_same_lang("htdp/bsl"));
    assert!(config.is_same_lang("reader.ss"));
    assert!(!config.is_same_lang("racket/full"));
}

#[test]
fn config_is_same_lang_defaults() {
    let config = Config {
        lang: (None, Some("reader.ss".to_string())),
        defs: vec![],
    };
    // An absent field matches only its placeholder wording.
    assert!(config.is_same_lang("no hashlang!"));
    assert!(!config.is_same_lang("no reader!"));
}

#[test]
fn config_get_lang() {
    let both = Config {
        lang: (Some("a".to_string()), Some("b".to_string())),
        defs: vec![],
    };
    assert_eq!(both.get_lang(), "a");
    let reader_only = Config {
        lang: (None, Some("b".to_string())),
        defs: vec![],
    };
    assert_eq!(reader_only.get_lang(), "b");
}
