//! The wellformedness checker: validates a parsed program against an
//! expectation record, accumulating every violation in one pass.

use vstd::prelude::*;
use vstd::string::*;
use crate::config::{Config, SpecConfig, spec_is_same_lang, spec_get_lang, string_views};
use crate::prog::Program;
use crate::sexpr::{Atom, Sexpr, SpecAtom, SpecSexpr, TokInfo, views_of, lemma_views_of, sym_is};
use crate::text::str_eq;

verus! {

/// A violation found by the wellformedness check.
#[derive(Debug)]
pub enum WellformedError {
    /// The program's declared language matches neither the expected language
    /// nor the expected reader: the expected tag, then the found tag.
    WrongHashlang(String, String),
    /// An expected top-level definition is absent from the program.
    MissingDef(String),
}

/// The model of a violation.
pub enum SpecWfError {
    WrongHashlang(Seq<char>, Seq<char>),
    MissingDef(Seq<char>),
}

impl View for WellformedError {
    type V = SpecWfError;

    open spec fn view(&self) -> SpecWfError {
        match self {
            WellformedError::WrongHashlang(exp, found) => SpecWfError::WrongHashlang(exp@, found@),
            WellformedError::MissingDef(d) => SpecWfError::MissingDef(d@),
        }
    }
}

/// The rendering of a violation.
pub open spec fn wf_error_text(e: SpecWfError) -> Seq<char> {
    match e {
        SpecWfError::WrongHashlang(exp, found) => "Wrong language selected: expected "@ + exp
            + ", found "@ + found,
        SpecWfError::MissingDef(d) => "Missing expected definition: "@ + d,
    }
}

impl WellformedError {
    /// Renders the violation for display.
    pub fn to_text(&self) -> (r: String)
        ensures
            r@ == wf_error_text(self@),
    {
        match self {
            WellformedError::WrongHashlang(exp, found) => {
                let mut s = String::from_str("Wrong language selected: expected ");
                s.append(exp.as_str());
                s.append(", found ");
                s.append(found.as_str());
                s
            },
            WellformedError::MissingDef(d) => {
                let mut s = String::from_str("Missing expected definition: ");
                s.append(d.as_str());
                s
            },
        }
    }
}

/// The models of a sequence of violations.
pub open spec fn wf_views(es: Seq<WellformedError>) -> Seq<SpecWfError> {
    Seq::new(es.len(), |i: int| es[i]@)
}

/// The name defined by a top-level form, when the form is a definition: a
/// list starting with the symbol `define` whose second element is a list
/// starting with a symbol — that symbol is the defined name.
pub open spec fn spec_def_of(v: SpecSexpr) -> Option<Seq<char>> {
    match v {
        SpecSexpr::List(l) => {
            if l.len() >= 2 && sym_is(l[0], "define"@) {
                match l[1] {
                    SpecSexpr::List(inner) => {
                        if inner.len() >= 1 {
                            match inner[0] {
                                SpecSexpr::Atom(a) => match a {
                                    SpecAtom::Symbol(s) => Some(s),
                                    _ => None,
                                },
                                _ => None,
                            }
                        } else {
                            None
                        }
                    },
                    _ => None,
                }
            } else {
                None
            }
        },
        _ => None,
    }
}

/// Whether some top-level form of the body defines `name`.
pub open spec fn body_defines(body: Seq<SpecSexpr>, name: Seq<char>) -> bool {
    exists|i: int| 0 <= i < body.len() && spec_def_of(body[i]) == Some(name)
}

/// The `MissingDef` violations for the expected names from index `i` on, in
/// order.
pub open spec fn missing_defs_from(defs: Seq<Seq<char>>, i: nat, body: Seq<SpecSexpr>) -> Seq<
    SpecWfError,
>
    decreases defs.len() - i,
{
    if i >= defs.len() {
        Seq::empty()
    } else {
        let rest = missing_defs_from(defs, (i + 1) as nat, body);
        if body_defines(body, defs[i as int]) {
            rest
        } else {
            seq![SpecWfError::MissingDef(defs[i as int])] + rest
        }
    }
}

/// Every violation of a program against an expectation record: one
/// `MissingDef` per expected name absent from the body, in order, then a
/// `WrongHashlang` when the program's tag matches neither declared field.
pub open spec fn spec_violations(c: SpecConfig, hashlang: Seq<char>, body: Seq<SpecSexpr>) -> Seq<
    SpecWfError,
> {
    missing_defs_from(c.defs, 0, body) + if !spec_is_same_lang(c, hashlang) {
        seq![SpecWfError::WrongHashlang(spec_get_lang(c), hashlang)]
    } else {
        Seq::empty()
    }
}

/// The name defined by a decorated top-level form, if it is a definition.
fn def_of(v: &Sexpr<TokInfo>) -> (r: Option<String>)
    ensures
        match spec_def_of(v@) {
            Some(n) => r matches Some(s) && s@ == n,
            None => r is None,
        },
{
    match v {
        Sexpr::List(l, _) => {
            proof {
                lemma_views_of(l@);
            }
            if l.len() >= 2 && sexpr_is_define(&l[0]) {
                match &l[1] {
                    Sexpr::List(inner, _) => {
                        proof {
                            lemma_views_of(inner@);
                        }
                        if inner.len() >= 1 {
                            match &inner[0] {
                                Sexpr::Atom(a, _) => match a {
                                    Atom::Symbol(s, _) => Some(s.clone()),
                                    _ => None,
                                },
                                _ => None,
                            }
                        } else {
                            None
                        }
                    },
                    _ => None,
                }
            } else {
                None
            }
        },
        _ => None,
    }
}

/// Whether the decorated tree is the symbol `define`.
fn sexpr_is_define(v: &Sexpr<TokInfo>) -> (r: bool)
    ensures
        r == sym_is(v@, "define"@),
{
    match v {
        Sexpr::Atom(a, _) => match a {
            Atom::Symbol(s, _) => str_eq(s.as_str(), "define"),
            _ => false,
        },
        _ => false,
    }
}

/// Whether some form of the body defines `name`.
fn body_defines_exec(body: &Vec<Sexpr<TokInfo>>, name: &String) -> (r: bool)
    ensures
        r == body_defines(views_of(body@), name@),
{
    proof {
        lemma_views_of(body@);
    }
    let mut i: usize = 0;
    while i < body.len()
        invariant
            i <= body@.len(),
            forall|x: int|
                0 <= x < i ==> spec_def_of(views_of(body@)[x]) != Some(name@),
            views_of(body@).len() == body@.len(),
            forall|x: int| 0 <= x < body@.len() ==> views_of(body@)[x] == body@[x]@,
        decreases body@.len() - i,
    {
        match def_of(&body[i]) {
            Some(s) => {
                if str_eq(s.as_str(), name.as_str()) {
                    proof {
                        assert(spec_def_of(views_of(body@)[i as int]) == Some(name@));
                    }
                    return true;
                }
            },
            None => {},
        }
        i = i + 1;
    }
    false
}

/// Collects the `MissingDef` violations for the expected names from `i` on.
fn collect_missing(defs: &Vec<String>, i: usize, body: &Vec<Sexpr<TokInfo>>) -> (r: Vec<
    WellformedError,
>)
    requires
        i <= defs@.len(),
    ensures
        wf_views(r@) == missing_defs_from(string_views(defs@), i as nat, views_of(body@)),
    decreases defs@.len() - i,
{
    if i >= defs.len() {
        let r: Vec<WellformedError> = Vec::new();
        proof {
            assert(wf_views(r@) =~= Seq::<SpecWfError>::empty());
        }
        r
    } else {
        let rest = collect_missing(defs, i + 1, body);
        let ghost rest_view = rest@;
        proof {
            assert(string_views(defs@)[i as int] == defs@[i as int]@);
        }
        if body_defines_exec(body, &defs[i]) {
            rest
        } else {
            let mut r = rest;
            r.insert(0, WellformedError::MissingDef(defs[i].clone()));
            proof {
                assert(r@[0]@ == SpecWfError::MissingDef(defs@[i as int]@));
                assert(r@.drop_first() =~= rest_view);
                assert forall|x: int|
                    0 <= x < wf_views(r@).len() implies wf_views(r@)[x] == (seq![
                    SpecWfError::MissingDef(defs@[i as int]@),
                ] + wf_views(rest_view))[x] by {
                    if x > 0 {
                        assert(r@[x] == rest_view[x - 1]);
                    }
                }
                assert(wf_views(r@) =~= seq![SpecWfError::MissingDef(defs@[i as int]@)] + wf_views(
                    rest_view,
                ));
            }
            r
        }
    }
}

impl Config {
    /// Checks a program against this expectation record: collects one
    /// `MissingDef` per expected definition absent from the program, then a
    /// `WrongHashlang` when the program's declared language matches neither
    /// the expected language nor the expected reader. Returns all collected
    /// violations, or success when there are none.
    pub fn check_wellformedness(&self, prog: &Program) -> (r: Result<(), Vec<WellformedError>>)
        requires
            self@.lang0 is Some || self@.lang1 is Some,
        ensures
            match r {
                Ok(()) => spec_violations(self@, prog.hashlang@, views_of(prog.body@)).len() == 0,
                Err(es) => wf_views(es@) == spec_violations(
                    self@,
                    prog.hashlang@,
                    views_of(prog.body@),
                ) && es@.len() > 0,
            },
    {
        let mut maybe_errs = collect_missing(&self.defs, 0, &prog.body);
        let ghost missing = wf_views(maybe_errs@);
        if !self.is_same_lang(prog.hashlang.as_str()) {
            let expected = String::from_str(self.get_lang());
            maybe_errs.push(WellformedError::WrongHashlang(expected, prog.hashlang.clone()));
            proof {
                let wrong = SpecWfError::WrongHashlang(spec_get_lang(self@), prog.hashlang@);
                assert forall|x: int|
                    0 <= x < wf_views(maybe_errs@).len() implies wf_views(maybe_errs@)[x] == (
                missing + seq![wrong])[x] by {
                    if x < missing.len() {
                        assert(maybe_errs@[x] == maybe_errs@.drop_last()[x]);
                    }
                }
                assert(wf_views(maybe_errs@) =~= missing + seq![wrong]);
            }
        } else {
            proof {
                assert(wf_views(maybe_errs@) =~= missing + Seq::<SpecWfError>::empty());
            }
        }
        if maybe_errs.len() == 0 {
            proof {
                assert(spec_violations(self@, prog.hashlang@, views_of(prog.body@)).len() == 0);
            }
            Ok(())
        } else {
            Err(maybe_errs)
        }
    }
}

} // verus!
