//! The grammar, stated as specification functions over a sequence of
//! characters. The executable parser in `sexpr_parser` is proved to return
//! exactly what these functions describe.
//!
//! A source text is a sequence of top-level units. Between units stands
//! trivia: whitespace, line comments from `;` to the end of the line, and
//! nesting block comments between `#|` and `|#`. A unit is an atom, a
//! delimited list (`()`, `[]` or `{}`, closer matching its own opener), a
//! quoting mark (`'`, `` ` `` or `,`) applied to the following unit, or a
//! datum comment `#;` that consumes the following unit and contributes
//! nothing.

use vstd::prelude::*;
use crate::sexpr::{SpecAtom, SpecSexpr};

verus! {

/// Whitespace characters recognized between tokens.
pub open spec fn is_ws(c: char) -> bool {
    c == ' ' || c == '\t' || c == '\n' || c == '\r'
}

/// Opening delimiters of lists.
pub open spec fn is_open_delim(c: char) -> bool {
    c == '(' || c == '[' || c == '{'
}

/// Closing delimiters of lists.
pub open spec fn is_close_delim(c: char) -> bool {
    c == ')' || c == ']' || c == '}'
}

/// The closing delimiter matching an opening one.
pub open spec fn closer_of(c: char) -> char {
    if c == '(' {
        ')'
    } else if c == '[' {
        ']'
    } else {
        '}'
    }
}

/// The three quoting marks.
pub open spec fn is_quote_mark(c: char) -> bool {
    c == '\'' || c == '`' || c == ','
}

/// A character that may stand inside an undelimited token run.
pub open spec fn is_token_char(c: char) -> bool {
    !is_ws(c) && !is_open_delim(c) && !is_close_delim(c) && !is_quote_mark(c) && c != '"' && c
        != ';'
}

/// A decimal digit.
pub open spec fn is_digit(c: char) -> bool {
    48 <= c as u32 && c as u32 <= 57
}

/// The value of a decimal digit.
pub open spec fn digit_val(c: char) -> int {
    c as u32 - 48
}

/// A hexadecimal digit, either case.
pub open spec fn is_hex_digit(c: char) -> bool {
    is_digit(c) || (65 <= c as u32 && c as u32 <= 70) || (97 <= c as u32 && c as u32 <= 102)
}

/// The value of a hexadecimal digit.
pub open spec fn hex_digit_val(c: char) -> int {
    if is_digit(c) {
        c as u32 - 48
    } else if 65 <= c as u32 && c as u32 <= 70 {
        c as u32 - 55
    } else {
        c as u32 - 87
    }
}

/// The index just past the next line break at or after `i`, or the end of the
/// text.
pub open spec fn line_end(s: Seq<char>, i: nat) -> nat
    decreases s.len() - i,
{
    if i >= s.len() {
        s.len()
    } else if s[i as int] == '\n' {
        (i + 1) as nat
    } else {
        line_end(s, (i + 1) as nat)
    }
}

/// Scans the inside of a block comment opened `depth` times, starting at `i`;
/// returns the index just past the closer of the outermost block, or `None`
/// when the comment never closes.
pub open spec fn block_end(s: Seq<char>, i: nat, depth: nat) -> Option<nat>
    decreases s.len() - i,
{
    if i >= s.len() {
        None
    } else if i + 1 < s.len() && s[i as int] == '|' && s[i + 1 as int] == '#' {
        if depth <= 1 {
            Some((i + 2) as nat)
        } else {
            block_end(s, (i + 2) as nat, (depth - 1) as nat)
        }
    } else if i + 1 < s.len() && s[i as int] == '#' && s[i + 1 as int] == '|' {
        block_end(s, (i + 2) as nat, (depth + 1) as nat)
    } else {
        block_end(s, (i + 1) as nat, depth)
    }
}

/// Skips whitespace, line comments and block comments starting at `i`;
/// returns the index of the first non-trivia character (or the text length),
/// or `None` when a block comment never closes.
pub open spec fn skip_trivia(s: Seq<char>, i: nat) -> Option<nat>
    decreases s.len() - i,
{
    if i >= s.len() {
        Some(i)
    } else if is_ws(s[i as int]) {
        skip_trivia(s, (i + 1) as nat)
    } else if s[i as int] == ';' {
        let j = line_end(s, (i + 1) as nat);
        if j <= i || j > s.len() {
            None
        } else {
            skip_trivia(s, j)
        }
    } else if s[i as int] == '#' && i + 1 < s.len() && s[i + 1 as int] == '|' {
        match block_end(s, (i + 2) as nat, 1) {
            Some(j) => if j <= i || j > s.len() {
                None
            } else {
                skip_trivia(s, j)
            },
            None => None,
        }
    } else {
        Some(i)
    }
}

/// Scans a string literal body starting just after the opening quote;
/// a backslash escapes the following character. Returns the index just past
/// the closing quote, or `None` when the literal never closes.
pub open spec fn string_end(s: Seq<char>, i: nat) -> Option<nat>
    decreases s.len() - i,
{
    if i >= s.len() {
        None
    } else if s[i as int] == '"' {
        Some((i + 1) as nat)
    } else if s[i as int] == '\\' {
        if i + 1 < s.len() {
            string_end(s, (i + 2) as nat)
        } else {
            None
        }
    } else {
        string_end(s, (i + 1) as nat)
    }
}

/// The end of the maximal run of token characters starting at `i`.
pub open spec fn run_end(s: Seq<char>, i: nat) -> nat
    decreases s.len() - i,
{
    if i >= s.len() {
        i
    } else if is_token_char(s[i as int]) {
        run_end(s, (i + 1) as nat)
    } else {
        i
    }
}

/// Every character of `t` is a decimal digit.
pub open spec fn all_digits(t: Seq<char>) -> bool {
    forall|k: int| 0 <= k < t.len() ==> is_digit(t[k])
}

/// Every character of `t` is a hexadecimal digit.
pub open spec fn all_hex_digits(t: Seq<char>) -> bool {
    forall|k: int| 0 <= k < t.len() ==> is_hex_digit(t[k])
}

/// The value of a run of decimal digits, most significant first.
pub open spec fn dec_val(t: Seq<char>) -> int
    decreases t.len(),
{
    if t.len() == 0 {
        0
    } else {
        dec_val(t.drop_last()) * 10 + digit_val(t.last())
    }
}

/// The value of a run of hexadecimal digits, most significant first.
pub open spec fn hex_val(t: Seq<char>) -> int
    decreases t.len(),
{
    if t.len() == 0 {
        0
    } else {
        hex_val(t.drop_last()) * 16 + hex_digit_val(t.last())
    }
}

/// The token runs spelling the true boolean literal.
pub open spec fn is_bool_true_tok(t: Seq<char>) -> bool {
    t == seq!['#', 't'] || t == seq!['#', 't', 'r', 'u', 'e']
}

/// The token runs spelling the false boolean literal.
pub open spec fn is_bool_false_tok(t: Seq<char>) -> bool {
    t == seq!['#', 'f'] || t == seq!['#', 'f', 'a', 'l', 's', 'e']
}

/// A hexadecimal integer literal: `0x` followed by at least one hex digit.
pub open spec fn is_hex_tok(t: Seq<char>) -> bool {
    t.len() > 2 && t[0] == '0' && t[1] == 'x' && all_hex_digits(t.skip(2))
}

/// A decimal integer literal: an optional `-` then at least one digit.
pub open spec fn is_dec_int_tok(t: Seq<char>) -> bool {
    if t.len() > 0 && t[0] == '-' {
        t.len() > 1 && all_digits(t.skip(1))
    } else {
        t.len() > 0 && all_digits(t)
    }
}

/// The signed value of a decimal integer literal.
pub open spec fn dec_int_val(t: Seq<char>) -> int {
    if t.len() > 0 && t[0] == '-' {
        -dec_val(t.skip(1))
    } else {
        dec_val(t)
    }
}

/// A dotted float literal: exactly one `.` among digits, with at least one
/// digit present.
pub open spec fn is_dotted_float_tok(t: Seq<char>) -> bool {
    t.len() >= 2 && exists|k: int|
        0 <= k < t.len() && t[k] == '.' && (forall|j: int|
            0 <= j < t.len() && j != k ==> is_digit(t[j]))
}

/// A suffixed float literal: a run of digits followed by a single `f`.
pub open spec fn is_suffix_float_tok(t: Seq<char>) -> bool {
    t.len() >= 2 && t.last() == 'f' && all_digits(t.drop_last())
}

/// A signed 64-bit value.
pub open spec fn i64_fits(v: int) -> bool {
    i64::MIN <= v && v <= i64::MAX
}

/// What a token run denotes, or `Bad` for a numeric literal whose value does
/// not fit a signed 64-bit integer.
pub enum TokAtom {
    Atom(SpecAtom),
    Bad,
}

/// Classifies a token run: boolean, then hexadecimal integer, then decimal
/// integer, then float, then symbol as the catch-all.
pub open spec fn atom_of_run(t: Seq<char>) -> TokAtom {
    if is_bool_true_tok(t) {
        TokAtom::Atom(SpecAtom::Boolean(true))
    } else if is_bool_false_tok(t) {
        TokAtom::Atom(SpecAtom::Boolean(false))
    } else if is_hex_tok(t) {
        if i64_fits(hex_val(t.skip(2))) {
            TokAtom::Atom(SpecAtom::Integer(hex_val(t.skip(2)) as i64))
        } else {
            TokAtom::Bad
        }
    } else if is_dec_int_tok(t) {
        if i64_fits(dec_int_val(t)) {
            TokAtom::Atom(SpecAtom::Integer(dec_int_val(t) as i64))
        } else {
            TokAtom::Bad
        }
    } else if is_dotted_float_tok(t) {
        TokAtom::Atom(SpecAtom::Float(t))
    } else if is_suffix_float_tok(t) {
        TokAtom::Atom(SpecAtom::Float(t.drop_last()))
    } else {
        TokAtom::Atom(SpecAtom::Symbol(t))
    }
}

/// The quoting atom built by a quoting mark around a unit.
pub open spec fn wrap_quote(c: char, v: SpecSexpr) -> SpecAtom {
    if c == '\'' {
        SpecAtom::Quoted(Box::new(v))
    } else if c == '`' {
        SpecAtom::QuasiQuoted(Box::new(v))
    } else {
        SpecAtom::Unquoted(Box::new(v))
    }
}

/// The outcome of parsing one unit: a value and the index just past it, a
/// skipped datum comment and the index just past it, a syntax error at an
/// offending token, or a failure with no token to blame (unexpected end of
/// input, or an unterminated string or block comment).
pub enum URes {
    Val(SpecSexpr, nat),
    Skip(nat),
    FailTok(nat),
    FailEof,
}

/// The outcome of parsing list items up to a closing delimiter.
pub enum ItemsRes {
    Done(Seq<SpecSexpr>, nat),
    FailTok(nat),
    FailEof,
}

/// Parses one unit starting at `i`, skipping leading trivia.
///
/// The guards on returned positions (a position may never move backwards or
/// past the end of the text) keep the recursion well-founded; the progress
/// lemmas below show they are never taken for positions within the text.
pub open spec fn p_unit(s: Seq<char>, i: nat) -> URes
    decreases s.len() - i, 0int,
{
    match skip_trivia(s, i) {
        None => URes::FailEof,
        Some(j) => {
            if j < i || j > s.len() {
                URes::FailEof
            } else if j == s.len() {
                URes::FailEof
            } else {
                let c = s[j as int];
                if is_open_delim(c) {
                    match p_items(s, (j + 1) as nat, closer_of(c)) {
                        ItemsRes::Done(items, k) => URes::Val(SpecSexpr::List(items), k),
                        ItemsRes::FailTok(p) => URes::FailTok(p),
                        ItemsRes::FailEof => URes::FailEof,
                    }
                } else if is_close_delim(c) {
                    URes::FailTok(j)
                } else if is_quote_mark(c) {
                    match p_unit(s, (j + 1) as nat) {
                        URes::Val(v, k) => URes::Val(SpecSexpr::Atom(wrap_quote(c, v)), k),
                        URes::Skip(k) => URes::Skip(k),
                        URes::FailTok(p) => URes::FailTok(p),
                        URes::FailEof => URes::FailEof,
                    }
                } else if c == '"' {
                    match string_end(s, (j + 1) as nat) {
                        Some(k) => URes::Val(
                            SpecSexpr::Atom(SpecAtom::Str(s.subrange(j + 1 as int, k - 1))),
                            k,
                        ),
                        None => URes::FailEof,
                    }
                } else if c == '#' && j + 1 < s.len() && s[j + 1 as int] == ';' {
                    match p_unit(s, (j + 2) as nat) {
                        URes::Val(v, k) => URes::Skip(k),
                        URes::Skip(k) => URes::Skip(k),
                        URes::FailTok(p) => URes::FailTok(p),
                        URes::FailEof => URes::FailEof,
                    }
                } else {
                    let e = run_end(s, j);
                    match atom_of_run(s.subrange(j as int, e as int)) {
                        TokAtom::Atom(a) => URes::Val(SpecSexpr::Atom(a), e),
                        TokAtom::Bad => URes::FailTok(j),
                    }
                }
            }
        },
    }
}

/// Parses the items of a list up to the closing delimiter `close`, starting
/// at `k`; datum comments among the items are consumed and dropped.
pub open spec fn p_items(s: Seq<char>, k: nat, close: char) -> ItemsRes
    decreases s.len() - k, 1int,
{
    match skip_trivia(s, k) {
        None => ItemsRes::FailEof,
        Some(j) => {
            if j < k || j > s.len() {
                ItemsRes::FailEof
            } else if j == s.len() {
                ItemsRes::FailEof
            } else if is_close_delim(s[j as int]) {
                if s[j as int] == close {
                    ItemsRes::Done(Seq::empty(), (j + 1) as nat)
                } else {
                    ItemsRes::FailTok(j)
                }
            } else {
                match p_unit(s, j) {
                    URes::Val(v, m) => {
                        if m <= j || m > s.len() {
                            ItemsRes::FailEof
                        } else {
                            match p_items(s, m, close) {
                                ItemsRes::Done(rest, e) => ItemsRes::Done(seq![v] + rest, e),
                                ItemsRes::FailTok(p) => ItemsRes::FailTok(p),
                                ItemsRes::FailEof => ItemsRes::FailEof,
                            }
                        }
                    },
                    URes::Skip(m) => if m <= j || m > s.len() {
                        ItemsRes::FailEof
                    } else {
                        p_items(s, m, close)
                    },
                    URes::FailTok(p) => ItemsRes::FailTok(p),
                    URes::FailEof => ItemsRes::FailEof,
                }
            }
        },
    }
}

/// The outcome of parsing a text as exactly one unit.
pub enum OneRes {
    Val(SpecSexpr),
    Nothing,
    FailTok(nat),
    FailEof,
}

/// Parses a whole text as exactly one unit: trailing input after the unit is
/// an error, and a text whose single unit is a datum comment is `Nothing`.
pub open spec fn parse_one_model(s: Seq<char>) -> OneRes {
    match p_unit(s, 0) {
        URes::Val(v, k) => match skip_trivia(s, k) {
            None => OneRes::FailEof,
            Some(j) => if j >= s.len() {
                OneRes::Val(v)
            } else {
                OneRes::FailTok(j)
            },
        },
        URes::Skip(k) => OneRes::Nothing,
        URes::FailTok(p) => OneRes::FailTok(p),
        URes::FailEof => OneRes::FailEof,
    }
}

/// The outcome of parsing a text as a sequence of top-level units.
pub enum ManyRes {
    Vals(Seq<SpecSexpr>),
    FailTok(nat),
    FailEof,
}

/// Parses top-level units from `i` to the end of the text; units that are
/// datum comments are dropped, any error aborts the whole parse.
pub open spec fn p_program(s: Seq<char>, i: nat) -> ManyRes
    decreases s.len() - i, 2int,
{
    match skip_trivia(s, i) {
        None => ManyRes::FailEof,
        Some(j) => {
            if j < i || j > s.len() {
                ManyRes::FailEof
            } else if j == s.len() {
                ManyRes::Vals(Seq::empty())
            } else {
                match p_unit(s, j) {
                    URes::Val(v, k) => {
                        if k <= j || k > s.len() {
                            ManyRes::FailEof
                        } else {
                            match p_program(s, k) {
                                ManyRes::Vals(rest) => ManyRes::Vals(seq![v] + rest),
                                ManyRes::FailTok(p) => ManyRes::FailTok(p),
                                ManyRes::FailEof => ManyRes::FailEof,
                            }
                        }
                    },
                    URes::Skip(k) => if k <= j || k > s.len() {
                        ManyRes::FailEof
                    } else {
                        p_program(s, k)
                    },
                    URes::FailTok(p) => ManyRes::FailTok(p),
                    URes::FailEof => ManyRes::FailEof,
                }
            }
        },
    }
}

/// Parses a whole text as a sequence of top-level units.
pub open spec fn parse_many_model(s: Seq<char>) -> ManyRes {
    p_program(s, 0)
}

/// The 1-based line number of position `p` in the text: one more than the
/// number of line breaks before `p`.
pub open spec fn line_of(s: Seq<char>, p: nat) -> nat
    decreases p,
{
    if p == 0 {
        1
    } else if s[p - 1] == '\n' {
        line_of(s, (p - 1) as nat) + 1
    } else {
        line_of(s, (p - 1) as nat)
    }
}

/// The 1-based column number of position `p` in the text: the distance to
/// the last line break before `p`.
pub open spec fn col_of(s: Seq<char>, p: nat) -> nat
    decreases p,
{
    if p == 0 {
        1
    } else if s[p - 1] == '\n' {
        1
    } else {
        col_of(s, (p - 1) as nat) + 1
    }
}

/// The value of a digit run is never negative.
pub proof fn lemma_dec_val_nonneg(t: Seq<char>)
    requires
        all_digits(t),
    ensures
        dec_val(t) >= 0,
    decreases t.len(),
{
    if t.len() > 0 {
        assert(all_digits(t.drop_last()));
        lemma_dec_val_nonneg(t.drop_last());
    }
}

/// The value of a digit run dominates the value of any of its prefixes.
pub proof fn lemma_dec_val_prefix(t: Seq<char>, m: int)
    requires
        all_digits(t),
        0 <= m <= t.len(),
    ensures
        dec_val(t) >= dec_val(t.take(m)),
    decreases t.len(),
{
    if m == t.len() {
        assert(t.take(m) =~= t);
    } else {
        assert(all_digits(t.drop_last()));
        lemma_dec_val_nonneg(t.drop_last());
        lemma_dec_val_prefix(t.drop_last(), m);
        assert(t.drop_last().take(m) =~= t.take(m));
    }
}

/// The value of a hex digit run is never negative.
pub proof fn lemma_hex_val_nonneg(t: Seq<char>)
    requires
        all_hex_digits(t),
    ensures
        hex_val(t) >= 0,
    decreases t.len(),
{
    if t.len() > 0 {
        assert(all_hex_digits(t.drop_last()));
        lemma_hex_val_nonneg(t.drop_last());
    }
}

/// The value of a hex digit run dominates the value of any of its prefixes.
pub proof fn lemma_hex_val_prefix(t: Seq<char>, m: int)
    requires
        all_hex_digits(t),
        0 <= m <= t.len(),
    ensures
        hex_val(t) >= hex_val(t.take(m)),
    decreases t.len(),
{
    if m == t.len() {
        assert(t.take(m) =~= t);
    } else {
        assert(all_hex_digits(t.drop_last()));
        lemma_hex_val_nonneg(t.drop_last());
        lemma_hex_val_prefix(t.drop_last(), m);
        assert(t.drop_last().take(m) =~= t.take(m));
    }
}

/// `line_end` stays within the text and makes progress.
pub proof fn lemma_line_end(s: Seq<char>, i: nat)
    requires
        i <= s.len(),
    ensures
        i <= line_end(s, i) <= s.len(),
        i < s.len() ==> i < line_end(s, i),
    decreases s.len() - i,
{
    if i < s.len() && s[i as int] != '\n' {
        lemma_line_end(s, (i + 1) as nat);
    }
}

/// A successful `block_end` stays within the text and makes progress.
pub proof fn lemma_block_end(s: Seq<char>, i: nat, depth: nat)
    requires
        i <= s.len(),
    ensures
        block_end(s, i, depth) matches Some(j) ==> i < j <= s.len(),
    decreases s.len() - i,
{
    if i < s.len() {
        if i + 1 < s.len() && s[i as int] == '|' && s[i + 1 as int] == '#' {
            if depth > 1 {
                lemma_block_end(s, (i + 2) as nat, (depth - 1) as nat);
            }
        } else if i + 1 < s.len() && s[i as int] == '#' && s[i + 1 as int] == '|' {
            lemma_block_end(s, (i + 2) as nat, (depth + 1) as nat);
        } else {
            lemma_block_end(s, (i + 1) as nat, depth);
        }
    }
}

/// A successful `skip_trivia` stays within the text and stops on a
/// non-trivia character.
pub proof fn lemma_skip_trivia(s: Seq<char>, i: nat)
    requires
        i <= s.len(),
    ensures
        skip_trivia(s, i) matches Some(j) ==> i <= j <= s.len(),
        skip_trivia(s, i) matches Some(j) ==> (j < s.len() ==> !is_ws(s[j as int]) && s[j as int]
            != ';' && !(s[j as int] == '#' && j + 1 < s.len() && s[j + 1 as int] == '|')),
    decreases s.len() - i,
{
    if i < s.len() {
        if is_ws(s[i as int]) {
            lemma_skip_trivia(s, (i + 1) as nat);
        } else if s[i as int] == ';' {
            lemma_line_end(s, (i + 1) as nat);
            let j = line_end(s, (i + 1) as nat);
            lemma_skip_trivia(s, j);
        } else if s[i as int] == '#' && i + 1 < s.len() && s[i + 1 as int] == '|' {
            lemma_block_end(s, (i + 2) as nat, 1);
            match block_end(s, (i + 2) as nat, 1) {
                Some(j) => {
                    lemma_skip_trivia(s, j);
                },
                None => {},
            }
        }
    }
}

/// A successful `string_end` stays within the text and makes progress.
pub proof fn lemma_string_end(s: Seq<char>, i: nat)
    requires
        i <= s.len(),
    ensures
        string_end(s, i) matches Some(k) ==> i < k <= s.len(),
    decreases s.len() - i,
{
    if i < s.len() {
        if s[i as int] == '"' {
        } else if s[i as int] == '\\' {
            if i + 1 < s.len() {
                lemma_string_end(s, (i + 2) as nat);
            }
        } else {
            lemma_string_end(s, (i + 1) as nat);
        }
    }
}

/// `run_end` stays within the text and makes progress over a token character.
pub proof fn lemma_run_end(s: Seq<char>, i: nat)
    requires
        i <= s.len(),
    ensures
        i <= run_end(s, i) <= s.len(),
        i < s.len() && is_token_char(s[i as int]) ==> i < run_end(s, i),
    decreases s.len() - i,
{
    if i < s.len() && is_token_char(s[i as int]) {
        lemma_run_end(s, (i + 1) as nat);
    }
}

/// A successful or skipped unit consumes at least one character and ends
/// within the text.
pub proof fn lemma_p_unit_progress(s: Seq<char>, i: nat)
    requires
        i <= s.len(),
    ensures
        p_unit(s, i) matches URes::Val(v, k) ==> i < k <= s.len(),
        p_unit(s, i) matches URes::Skip(k) ==> i < k <= s.len(),
    decreases s.len() - i, 0int,
{
    lemma_skip_trivia(s, i);
    match skip_trivia(s, i) {
        Some(j) => {
            if i <= j < s.len() {
                let c = s[j as int];
                if is_open_delim(c) {
                    lemma_p_items_progress(s, (j + 1) as nat, closer_of(c));
                } else if is_close_delim(c) {
                } else if is_quote_mark(c) {
                    lemma_p_unit_progress(s, (j + 1) as nat);
                } else if c == '"' {
                    lemma_string_end(s, (j + 1) as nat);
                } else if c == '#' && j + 1 < s.len() && s[j + 1 as int] == ';' {
                    lemma_p_unit_progress(s, (j + 2) as nat);
                } else {
                    lemma_run_end(s, j);
                }
            }
        },
        None => {},
    }
}

/// A completed list of items ends past its opening position and within the
/// text.
pub proof fn lemma_p_items_progress(s: Seq<char>, k: nat, close: char)
    requires
        k <= s.len(),
    ensures
        p_items(s, k, close) matches ItemsRes::Done(items, e) ==> k < e <= s.len(),
    decreases s.len() - k, 1int,
{
    lemma_skip_trivia(s, k);
    match skip_trivia(s, k) {
        Some(j) => {
            if k <= j < s.len() {
                if is_close_delim(s[j as int]) {
                } else {
                    lemma_p_unit_progress(s, j);
                    match p_unit(s, j) {
                        URes::Val(v, m) => {
                            if j < m <= s.len() {
                                lemma_p_items_progress(s, m, close);
                            }
                        },
                        URes::Skip(m) => {
                            if j < m <= s.len() {
                                lemma_p_items_progress(s, m, close);
                            }
                        },
                        URes::FailTok(p) => {},
                        URes::FailEof => {},
                    }
                }
            }
        },
        None => {},
    }
}

} // verus!
