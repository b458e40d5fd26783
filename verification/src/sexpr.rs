//! The decorated S-expression tree: `Sexpr` nodes and `Atom` leaves, both
//! carrying a decoration on every node, plus the `TokInfo` decoration that the
//! parser attaches, erasure of decorations (`untag`), and rendering back to
//! source-like text.
//!
//! The mathematical model of a tree is `SpecSexpr`: the same shape with every
//! decoration erased and texts as `Seq<char>`. Two parses of equivalent input
//! may differ in decoration but agree on this model.

use vstd::prelude::*;
use vstd::string::*;
use crate::text::{dec_text, int_text, push_char, usize_text, i64_text};

verus! {

/// A decorated S-expression: an atom or a (possibly empty) list of
/// S-expressions, each node carrying a decoration of type `D`.
#[derive(PartialEq, Debug)]
pub enum Sexpr<D> {
    Atom(Atom<D>, D),
    List(Vec<Sexpr<D>>, D),
}

/// A decorated atom: a leaf value, or one of the three quoting forms, each of
/// which owns exactly one nested expression.
///
/// A float literal is kept as its source text with any trailing `f` suffix
/// removed; numeric conversion is left to the consumer, so that the library
/// itself stays free of floating-point arithmetic.
#[derive(PartialEq, Debug)]
pub enum Atom<D> {
    Symbol(String, D),
    String(String, D),
    Integer(i64, D),
    Float(String, D),
    Boolean(bool, D),
    Quoted(Box<Sexpr<D>>, D),
    QuasiQuoted(Box<Sexpr<D>>, D),
    Unquoted(Box<Sexpr<D>>, D),
}

/// The erased model of an atom.
pub enum SpecAtom {
    Symbol(Seq<char>),
    Str(Seq<char>),
    Integer(i64),
    Float(Seq<char>),
    Boolean(bool),
    Quoted(Box<SpecSexpr>),
    QuasiQuoted(Box<SpecSexpr>),
    Unquoted(Box<SpecSexpr>),
}

/// The erased model of an S-expression.
pub enum SpecSexpr {
    Atom(SpecAtom),
    List(Seq<SpecSexpr>),
}

impl<D> Sexpr<D> {
    /// The erased model of this tree.
    pub open spec fn model(&self) -> SpecSexpr
        decreases self,
    {
        match self {
            Sexpr::Atom(a, _) => SpecSexpr::Atom(a.model()),
            Sexpr::List(l, _) => SpecSexpr::List(views_of(l@)),
        }
    }
}

impl<D> Atom<D> {
    /// The erased model of this atom.
    pub open spec fn model(&self) -> SpecAtom
        decreases self,
    {
        match self {
            Atom::Symbol(s, _) => SpecAtom::Symbol(s@),
            Atom::String(s, _) => SpecAtom::Str(s@),
            Atom::Integer(i, _) => SpecAtom::Integer(*i),
            Atom::Float(t, _) => SpecAtom::Float(t@),
            Atom::Boolean(b, _) => SpecAtom::Boolean(*b),
            Atom::Quoted(q, _) => SpecAtom::Quoted(Box::new((*q).model())),
            Atom::QuasiQuoted(q, _) => SpecAtom::QuasiQuoted(Box::new((*q).model())),
            Atom::Unquoted(q, _) => SpecAtom::Unquoted(Box::new((*q).model())),
        }
    }
}

impl<D> View for Sexpr<D> {
    type V = SpecSexpr;

    open spec fn view(&self) -> SpecSexpr {
        self.model()
    }
}

impl<D> View for Atom<D> {
    type V = SpecAtom;

    open spec fn view(&self) -> SpecAtom {
        self.model()
    }
}

/// The models of a sequence of decorated trees, in order.
pub open spec fn views_of<D>(l: Seq<Sexpr<D>>) -> Seq<SpecSexpr>
    decreases l,
{
    if l.len() == 0 {
        Seq::empty()
    } else {
        seq![l[0].model()] + views_of(l.drop_first())
    }
}

/// `views_of` maps each element to its model and keeps the length.
pub proof fn lemma_views_of<D>(l: Seq<Sexpr<D>>)
    ensures
        views_of(l).len() == l.len(),
        forall|i: int| 0 <= i < l.len() ==> views_of(l)[i] == l[i]@,
    decreases l.len(),
{
    if l.len() > 0 {
        lemma_views_of(l.drop_first());
    }
}

impl<D> Sexpr<D> {
    /// The decoration attached to this node.
    pub open spec fn spec_decorator(&self) -> D {
        match self {
            Sexpr::Atom(_, d) => *d,
            Sexpr::List(_, d) => *d,
        }
    }

    /// Returns the decoration attached to this node.
    pub fn get_decorator<'a>(&'a self) -> (r: &'a D)
        ensures
            *r == self.spec_decorator(),
    {
        match self {
            Sexpr::Atom(_, d) => d,
            Sexpr::List(_, d) => d,
        }
    }

    /// Erases every decoration to the unit value. The erased tree has the
    /// same model as the original: erasure never changes the structure, so
    /// applying it to an already-erased tree changes nothing of the model.
    pub fn untag(self) -> (r: Sexpr<()>)
        ensures
            r@ == self@,
        decreases self,
    {
        match self {
            Sexpr::Atom(a, _) => Sexpr::Atom(a.untag(), ()),
            Sexpr::List(l, _) => Sexpr::List(untag_all(l), ()),
        }
    }
}

impl<D> Atom<D> {
    /// The decoration attached to this atom.
    pub open spec fn spec_decorator(&self) -> D {
        match self {
            Atom::Symbol(_, d) => *d,
            Atom::String(_, d) => *d,
            Atom::Integer(_, d) => *d,
            Atom::Float(_, d) => *d,
            Atom::Boolean(_, d) => *d,
            Atom::Quoted(_, d) => *d,
            Atom::QuasiQuoted(_, d) => *d,
            Atom::Unquoted(_, d) => *d,
        }
    }

    /// Returns the decoration attached to this atom.
    pub fn get_decorator<'a>(&'a self) -> (r: &'a D)
        ensures
            *r == self.spec_decorator(),
    {
        match self {
            Atom::Symbol(_, d) => d,
            Atom::String(_, d) => d,
            Atom::Integer(_, d) => d,
            Atom::Float(_, d) => d,
            Atom::Boolean(_, d) => d,
            Atom::Quoted(_, d) => d,
            Atom::QuasiQuoted(_, d) => d,
            Atom::Unquoted(_, d) => d,
        }
    }

    /// Erases every decoration to the unit value, preserving the model.
    pub fn untag(self) -> (r: Atom<()>)
        ensures
            r@ == self@,
        decreases self,
    {
        match self {
            Atom::Symbol(s, _) => Atom::Symbol(s, ()),
            Atom::String(s, _) => Atom::String(s, ()),
            Atom::Integer(i, _) => Atom::Integer(i, ()),
            Atom::Float(t, _) => Atom::Float(t, ()),
            Atom::Boolean(b, _) => Atom::Boolean(b, ()),
            Atom::Quoted(q, _) => Atom::Quoted(Box::new((*q).untag()), ()),
            Atom::QuasiQuoted(q, _) => Atom::QuasiQuoted(Box::new((*q).untag()), ()),
            Atom::Unquoted(q, _) => Atom::Unquoted(Box::new((*q).untag()), ()),
        }
    }
}

/// Erases the decorations of every tree in the vector, in order.
fn untag_all<D>(l: Vec<Sexpr<D>>) -> (r: Vec<Sexpr<()>>)
    ensures
        views_of(r@) == views_of(l@),
    decreases l@,
{
    let mut l = l;
    if l.len() == 0 {
        Vec::new()
    } else {
        let ghost entry = l@;
        let first = l.remove(0);
        let u = first.untag();
        let rest = untag_all(l);
        let mut r = rest;
        r.insert(0, u);
        proof {
            assert(r@.drop_first() =~= rest@);
            assert(entry.drop_first() =~= entry.skip(1));
            assert(views_of(r@) =~= views_of(entry));
        }
        r
    }
}

/// Decoration erasure is stable: `untag` promises a result whose model
/// equals its argument's, so applying it twice yields the same model as
/// applying it once, which is also the model of the original tree.
pub proof fn lemma_untag_idempotent<D>(t: Sexpr<D>, once: Sexpr<()>, twice: Sexpr<()>)
    requires
        once@ == t@,
        twice@ == once@,
    ensures
        twice@ == once@,
        twice@ == t@,
{
}

/// Whether an erased tree is exactly the symbol spelled `w`.
pub open spec fn sym_is(v: SpecSexpr, w: Seq<char>) -> bool {
    v matches SpecSexpr::Atom(SpecAtom::Symbol(s)) && s == w
}

/// Information on the position of a token: the matched source text and its
/// 1-based (line, column) start and end coordinates.
#[derive(Debug, PartialEq, Hash, Eq)]
pub struct TokInfo {
    pub string: String,
    pub start: (usize, usize),
    pub end: (usize, usize),
}

/// The rendering of a `TokInfo`: one line naming the start and end
/// coordinates, then the literal token text on its own line.
pub open spec fn tok_text(t: TokInfo) -> Seq<char> {
    "token starting at line "@ + dec_text(t.start.0 as nat) + ", column "@ + dec_text(
        t.start.1 as nat,
    ) + " and ending at line "@ + dec_text(t.end.0 as nat) + ", column "@ + dec_text(
        t.end.1 as nat,
    ) + ":\n"@ + t.string@
}

impl TokInfo {
    /// Renders the token description used by diagnostics.
    pub fn to_text(&self) -> (r: String)
        ensures
            r@ == tok_text(*self),
    {
        let mut s = String::from_str("token starting at line ");
        let t = usize_text(self.start.0);
        s.append(t.as_str());
        s.append(", column ");
        let t = usize_text(self.start.1);
        s.append(t.as_str());
        s.append(" and ending at line ");
        let t = usize_text(self.end.0);
        s.append(t.as_str());
        s.append(", column ");
        let t = usize_text(self.end.1);
        s.append(t.as_str());
        s.append(":\n");
        s.append(self.string.as_str());
        s
    }
}

/// The source-like rendering of an erased tree: lists are space-joined in
/// round parentheses, strings are double-quoted, booleans are `#t`/`#f`, and
/// the quoting forms use their one-character prefixes. Bracket shape and
/// original whitespace are not round-tripped.
pub open spec fn render(v: SpecSexpr) -> Seq<char>
    decreases v,
{
    match v {
        SpecSexpr::Atom(a) => render_atom(a),
        SpecSexpr::List(l) => seq!['('] + render_items(l) + seq![')'],
    }
}

/// The space-joined rendering of a sequence of erased trees.
pub open spec fn render_items(l: Seq<SpecSexpr>) -> Seq<char>
    decreases l,
{
    if l.len() == 0 {
        Seq::empty()
    } else if l.len() == 1 {
        render(l[0])
    } else {
        render(l[0]) + seq![' '] + render_items(l.drop_first())
    }
}

/// The rendering of an erased atom.
pub open spec fn render_atom(a: SpecAtom) -> Seq<char>
    decreases a,
{
    match a {
        SpecAtom::Symbol(s) => s,
        SpecAtom::Str(s) => seq!['"'] + s + seq!['"'],
        SpecAtom::Integer(i) => int_text(i as int),
        SpecAtom::Float(t) => t,
        SpecAtom::Boolean(b) => if b {
            seq!['#', 't']
        } else {
            seq!['#', 'f']
        },
        SpecAtom::Quoted(q) => seq!['\''] + render(*q),
        SpecAtom::QuasiQuoted(q) => seq!['`'] + render(*q),
        SpecAtom::Unquoted(q) => seq![','] + render(*q),
    }
}

impl<D> Sexpr<D> {
    /// Renders the tree back to source-like text.
    pub fn to_text(&self) -> (r: String)
        ensures
            r@ == render(self@),
        decreases self,
    {
        match self {
            Sexpr::Atom(a, _) => a.to_text(),
            Sexpr::List(l, _) => {
                let mut s = String::new();
                push_char(&mut s, '(');
                proof {
                    assert(l@.skip(0) =~= l@);
                }
                let items = to_text_items(l, 0);
                s.append(items.as_str());
                push_char(&mut s, ')');
                proof {
                    lemma_views_of(l@);
                    assert(views_of(l@).skip(0) =~= views_of(l@));
                }
                s
            },
        }
    }
}

/// Renders the items of `l` starting at index `i`, space-separated.
fn to_text_items<D>(l: &Vec<Sexpr<D>>, i: usize) -> (r: String)
    requires
        i <= l@.len(),
    ensures
        r@ == render_items(views_of(l@).skip(i as int)),
    decreases l@.skip(i as int),
{
    proof {
        lemma_views_of(l@);
    }
    if i >= l.len() {
        proof {
            assert(views_of(l@).skip(i as int) =~= Seq::<SpecSexpr>::empty());
        }
        String::new()
    } else if i == l.len() - 1 {
        proof {
            assert(l@.skip(i as int)[0] == l@[i as int]);
            assert(decreases_to!(l@.skip(i as int) => l@.skip(i as int)[0]));
        }
        let r = l[i].to_text();
        proof {
            assert(views_of(l@).skip(i as int) =~= seq![l@[i as int]@]);
            assert(render_items(seq![l@[i as int]@]) == render(l@[i as int]@));
        }
        r
    } else {
        proof {
            assert(l@.skip(i as int)[0] == l@[i as int]);
            assert(decreases_to!(l@.skip(i as int) => l@.skip(i as int)[0]));
        }
        let mut s = l[i].to_text();
        push_char(&mut s, ' ');
        proof {
            let s1 = l@.skip(i as int);
            assert(l@.skip(i + 1 as int) =~= s1.subrange(1, s1.len() as int));
            assert(decreases_to!(s1 => s1.subrange(1, s1.len() as int)));
        }
        let rest = to_text_items(l, i + 1);
        s.append(rest.as_str());
        proof {
            let vs = views_of(l@).skip(i as int);
            assert(vs.len() >= 2);
            assert(vs[0] == l@[i as int]@);
            assert(vs.drop_first() =~= views_of(l@).skip(i + 1 as int));
        }
        s
    }
}

impl<D> Atom<D> {
    /// Renders the atom back to source-like text.
    pub fn to_text(&self) -> (r: String)
        ensures
            r@ == render_atom(self@),
        decreases self,
    {
        match self {
            Atom::Symbol(s, _) => {
                let mut r = String::new();
                r.append(s.as_str());
                r
            },
            Atom::String(s, _) => {
                let mut r = String::new();
                push_char(&mut r, '"');
                r.append(s.as_str());
                push_char(&mut r, '"');
                r
            },
            Atom::Integer(i, _) => i64_text(*i),
            Atom::Float(t, _) => {
                let mut r = String::new();
                r.append(t.as_str());
                r
            },
            Atom::Boolean(b, _) => {
                let mut r = String::new();
                push_char(&mut r, '#');
                if *b {
                    push_char(&mut r, 't');
                } else {
                    push_char(&mut r, 'f');
                }
                r
            },
            Atom::Quoted(q, _) => {
                let mut r = String::new();
                push_char(&mut r, '\'');
                let inner = q.to_text();
                r.append(inner.as_str());
                r
            },
            Atom::QuasiQuoted(q, _) => {
                let mut r = String::new();
                push_char(&mut r, '`');
                let inner = q.to_text();
                r.append(inner.as_str());
                r
            },
            Atom::Unquoted(q, _) => {
                let mut r = String::new();
                push_char(&mut r, ',');
                let inner = q.to_text();
                r.append(inner.as_str());
                r
            },
        }
    }
}

} // verus!
