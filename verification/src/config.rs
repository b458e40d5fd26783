//! The expectation record: an optional declared language, an optional
//! declared reader (at least one present), and the list of expected
//! top-level definition names, read from a fixed two-clause S-expression
//! form `((lang <hashlang> <reader>) (defs '(<name> ...)))`.

use vstd::prelude::*;
use vstd::string::*;
use crate::errors::ParsingError;
use crate::grammar::{parse_one_model, OneRes};
use crate::sexpr::{Atom, Sexpr, SpecAtom, SpecSexpr, TokInfo, views_of, lemma_views_of, sym_is};
use crate::sexpr_parser::SexprParser;
use crate::text::str_eq;

verus! {

/// An expectation record.
#[derive(Debug, PartialEq, Eq)]
pub struct Config {
    /// The declared language and the declared reader; either may be absent,
    /// but not both.
    pub lang: (Option<String>, Option<String>),
    /// The names of the expected top-level definitions.
    pub defs: Vec<String>,
}

/// The model of an expectation record.
pub struct SpecConfig {
    pub lang0: Option<Seq<char>>,
    pub lang1: Option<Seq<char>>,
    pub defs: Seq<Seq<char>>,
}

/// The views of a sequence of strings.
pub open spec fn string_views(ss: Seq<String>) -> Seq<Seq<char>> {
    Seq::new(ss.len(), |i: int| ss[i]@)
}

impl View for Config {
    type V = SpecConfig;

    open spec fn view(&self) -> SpecConfig {
        SpecConfig {
            lang0: match self.lang.0 {
                Some(l) => Some(l@),
                None => None,
            },
            lang1: match self.lang.1 {
                Some(l) => Some(l@),
                None => None,
            },
            defs: string_views(self.defs@),
        }
    }
}

/// Whether `lang` matches the record's declared language or reader; an
/// absent field matches only its placeholder wording.
pub open spec fn spec_is_same_lang(c: SpecConfig, lang: Seq<char>) -> bool {
    (match c.lang0 {
        Some(l) => l == lang,
        None => "no hashlang!"@ == lang,
    }) || (match c.lang1 {
        Some(l) => l == lang,
        None => "no reader!"@ == lang,
    })
}

/// The language the record resolves to: the declared language when present,
/// else the declared reader.
pub open spec fn spec_get_lang(c: SpecConfig) -> Seq<char> {
    match c.lang0 {
        Some(l) => l,
        None => match c.lang1 {
            Some(l) => l,
            None => Seq::empty(),
        },
    }
}

/// The string carried by an atom node, when the atom is a string literal.
pub open spec fn string_of_atom(v: SpecSexpr) -> Option<Seq<char>> {
    match v {
        SpecSexpr::Atom(a) => match a {
            SpecAtom::Str(s) => Some(s),
            _ => None,
        },
        _ => None,
    }
}

/// Whether the tree is an atom node.
pub open spec fn is_any_atom(v: SpecSexpr) -> bool {
    v matches SpecSexpr::Atom(_)
}

/// The expression wrapped by a quote atom, if the tree is one.
pub open spec fn quoted_inner(v: SpecSexpr) -> Option<SpecSexpr> {
    match v {
        SpecSexpr::Atom(a) => match a {
            SpecAtom::Quoted(b) => Some(*b),
            _ => None,
        },
        _ => None,
    }
}

/// The names of the symbol atoms among `dl[i..]`, in order; other entries
/// are ignored.
pub open spec fn syms_of_from(dl: Seq<SpecSexpr>, i: nat) -> Seq<Seq<char>>
    decreases dl.len() - i,
{
    if i >= dl.len() {
        Seq::empty()
    } else {
        let rest = syms_of_from(dl, (i + 1) as nat);
        match dl[i as int] {
            SpecSexpr::Atom(a) => match a {
                SpecAtom::Symbol(s) => seq![s] + rest,
                _ => rest,
            },
            _ => rest,
        }
    }
}

/// The expectation record described by an erased tree, when the tree has the
/// fixed two-clause shape: a `lang` clause of exactly two atoms, of which the
/// string literals are kept (at least one must be a string), and a `defs`
/// clause holding one quoted list whose symbol entries are the expected
/// names.
pub open spec fn spec_config_of(v: SpecSexpr) -> Option<SpecConfig> {
    match v {
        SpecSexpr::List(top) => {
            if top.len() == 2 {
                match top[0] {
                    SpecSexpr::List(langl) => match top[1] {
                        SpecSexpr::List(defsl) => {
                            if langl.len() == 3 && defsl.len() == 2 && sym_is(langl[0], "lang"@)
                                && sym_is(defsl[0], "defs"@) && is_any_atom(langl[1]) && is_any_atom(
                                langl[2],
                            ) {
                                let lang0 = string_of_atom(langl[1]);
                                let lang1 = string_of_atom(langl[2]);
                                if lang0 is None && lang1 is None {
                                    None
                                } else {
                                    match quoted_inner(defsl[1]) {
                                        Some(inner) => match inner {
                                            SpecSexpr::List(dl) => Some(
                                                SpecConfig {
                                                    lang0,
                                                    lang1,
                                                    defs: syms_of_from(dl, 0),
                                                },
                                            ),
                                            _ => None,
                                        },
                                        None => None,
                                    }
                                }
                            } else {
                                None
                            }
                        },
                        _ => None,
                    },
                    _ => None,
                }
            } else {
                None
            }
        },
        _ => None,
    }
}

/// Whether the decorated tree is the symbol spelled by `w`.
fn sexpr_is_sym(v: &Sexpr<TokInfo>, w: &str) -> (r: bool)
    ensures
        r == sym_is(v@, w@),
{
    match v {
        Sexpr::Atom(a, _) => match a {
            Atom::Symbol(s, _) => str_eq(s.as_str(), w),
            _ => false,
        },
        _ => false,
    }
}

/// Collects the names of the symbol atoms among `dl[i..]`.
fn collect_syms(dl: &Vec<Sexpr<TokInfo>>, i: usize) -> (r: Vec<String>)
    requires
        i <= dl@.len(),
    ensures
        string_views(r@) == syms_of_from(views_of(dl@), i as nat),
    decreases dl@.len() - i,
{
    proof {
        lemma_views_of(dl@);
    }
    if i >= dl.len() {
        let r: Vec<String> = Vec::new();
        proof {
            assert(string_views(r@) =~= Seq::<Seq<char>>::empty());
        }
        r
    } else {
        let rest = collect_syms(dl, i + 1);
        let ghost rest_view = rest@;
        match &dl[i] {
            Sexpr::Atom(a, _) => match a {
                Atom::Symbol(sym, _) => {
                    let mut r = rest;
                    r.insert(0, sym.clone());
                    proof {
                        assert(r@[0]@ == sym@);
                        assert(r@.drop_first() =~= rest_view);
                        assert forall|x: int|
                            0 <= x < string_views(r@).len() implies string_views(r@)[x] == (seq![
                            sym@,
                        ] + string_views(rest_view))[x] by {
                            if x > 0 {
                                assert(r@[x] == rest_view[x - 1]);
                            }
                        }
                        assert(string_views(r@) =~= seq![sym@] + string_views(rest_view));
                    }
                    r
                },
                _ => rest,
            },
            _ => rest,
        }
    }
}

impl Config {
    /// Whether `lang` matches the record's declared language or reader.
    pub fn is_same_lang(&self, lang: &str) -> (r: bool)
        ensures
            r == spec_is_same_lang(self@, lang@),
    {
        let first = match &self.lang.0 {
            Some(l) => str_eq(l.as_str(), lang),
            None => str_eq("no hashlang!", lang),
        };
        if first {
            true
        } else {
            match &self.lang.1 {
                Some(l) => str_eq(l.as_str(), lang),
                None => str_eq("no reader!", lang),
            }
        }
    }

    /// The language of this record, preferring the declared language over
    /// the declared reader.
    pub fn get_lang<'a>(&'a self) -> (r: &'a str)
        requires
            self@.lang0 is Some || self@.lang1 is Some,
        ensures
            r@ == spec_get_lang(self@),
    {
        match &self.lang.0 {
            Some(l) => l.as_str(),
            None => match &self.lang.1 {
                Some(l) => l.as_str(),
                None => unreached(),
            },
        }
    }

    /// Reads an expectation record from source text: the text must parse as
    /// one expression of the fixed two-clause shape, else the record is
    /// rejected as malformed.
    pub fn from_str(s: &str) -> (r: Result<Config, ParsingError>)
        requires
            s@.len() < usize::MAX,
        ensures
            match parse_one_model(s@) {
                OneRes::Val(v) => match spec_config_of(v) {
                    Some(c) => r matches Ok(cfg) && cfg@ == c,
                    None => r matches Err(e) && e is BadWellformedConfig,
                },
                OneRes::Nothing => r matches Err(e) && e is NothingToParse,
                OneRes::FailTok(p) => r matches Err(e) && e is InvalidSyntax,
                OneRes::FailEof => r matches Err(e) && e is GrammarFailure,
            },
    {
        let parsed = match SexprParser::parse_str(s) {
            Ok(t) => t,
            Err(e) => {
                return Err(e);
            },
        };
        match parsed {
            Sexpr::List(top, _) => {
                proof {
                    lemma_views_of(top@);
                }
                if top.len() == 2 {
                    match (&top[0], &top[1]) {
                        (Sexpr::List(langl, _), Sexpr::List(defsl, _)) => {
                            proof {
                                lemma_views_of(langl@);
                                lemma_views_of(defsl@);
                            }
                            if langl.len() == 3 && defsl.len() == 2 && sexpr_is_sym(
                                &langl[0],
                                "lang",
                            ) && sexpr_is_sym(&defsl[0], "defs") {
                                match (&langl[1], &langl[2], &defsl[1]) {
                                    (
                                        Sexpr::Atom(a1, _),
                                        Sexpr::Atom(a2, _),
                                        Sexpr::Atom(aq, _),
                                    ) => {
                                        let lang0: Option<String> = match a1 {
                                            Atom::String(st, _) => Some(st.clone()),
                                            _ => None,
                                        };
                                        let lang1: Option<String> = match a2 {
                                            Atom::String(st, _) => Some(st.clone()),
                                            _ => None,
                                        };
                                        if lang0.is_none() && lang1.is_none() {
                                            Err(ParsingError::BadWellformedConfig)
                                        } else {
                                            match aq {
                                                Atom::Quoted(inner, _) => match &**inner {
                                                    Sexpr::List(dl, _) => {
                                                        let defs = collect_syms(dl, 0);
                                                        proof {
                                                            let vv = SpecSexpr::List(
                                                                views_of(top@),
                                                            );
                                                            assert(views_of(defsl@)[1] == defsl@[1]@);
                                                            assert(aq@ == SpecAtom::Quoted(
                                                                Box::new((**inner).model()),
                                                            ));
                                                            assert((**inner).model()
                                                                == SpecSexpr::List(views_of(dl@)));
                                                            assert(*Box::new((**inner).model())
                                                                == (**inner).model());
                                                            assert(quoted_inner(
                                                                views_of(defsl@)[1],
                                                            ) == Some(
                                                                SpecSexpr::List(views_of(dl@)),
                                                            ));
                                                            assert(spec_config_of(vv) matches Some(
                                                                c2,
                                                            ) && c2.defs == syms_of_from(
                                                                views_of(dl@),
                                                                0,
                                                            ));
                                                        }
                                                        Ok(Config { lang: (lang0, lang1), defs })
                                                    },
                                                    _ => Err(ParsingError::BadWellformedConfig),
                                                },
                                                _ => Err(ParsingError::BadWellformedConfig),
                                            }
                                        }
                                    },
                                    _ => Err(ParsingError::BadWellformedConfig),
                                }
                            } else {
                                Err(ParsingError::BadWellformedConfig)
                            }
                        },
                        _ => Err(ParsingError::BadWellformedConfig),
                    }
                } else {
                    Err(ParsingError::BadWellformedConfig)
                }
            },
            Sexpr::Atom(_, _) => Err(ParsingError::BadWellformedConfig),
        }
    }
}

} // verus!
