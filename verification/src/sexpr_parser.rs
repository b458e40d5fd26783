//! The executable recursive-descent parser. Every function mirrors a
//! specification function of `grammar` and is proved to return exactly what
//! the model describes; decorations (`TokInfo`) carry the matched text and
//! its 1-based line/column span.

use vstd::prelude::*;
use vstd::string::*;
use crate::sexpr::{Atom, Sexpr, SpecSexpr, TokInfo, views_of, lemma_views_of};
use crate::errors::ParsingError;
use crate::text::{to_chars, chars_to_string};
use crate::grammar::{
    closer_of, is_token_char, is_digit, is_hex_digit, hex_digit_val, line_end, block_end,
    skip_trivia, string_end, run_end, all_digits, all_hex_digits, dec_val, hex_val,
    is_bool_true_tok, is_bool_false_tok, is_hex_tok, is_dec_int_tok, dec_int_val,
    is_dotted_float_tok, is_suffix_float_tok, i64_fits, TokAtom, atom_of_run, URes, ItemsRes,
    p_unit, p_items, OneRes, parse_one_model, ManyRes, p_program, parse_many_model, line_of,
    col_of, lemma_line_end, lemma_block_end, lemma_skip_trivia, lemma_string_end, lemma_run_end,
    lemma_p_unit_progress, lemma_p_items_progress, lemma_dec_val_nonneg, lemma_dec_val_prefix,
    lemma_hex_val_nonneg, lemma_hex_val_prefix,
};

verus! {

/// The index just past the next line break at or after `i`.
fn scan_line_end(s: &Vec<char>, i: usize) -> (r: usize)
    requires
        i <= s@.len(),
    ensures
        r as nat == line_end(s@, i as nat),
    decreases s@.len() - i,
{
    if i >= s.len() {
        s.len()
    } else if s[i] == '\n' {
        i + 1
    } else {
        scan_line_end(s, i + 1)
    }
}

/// Scans a block comment opened `depth` times starting at `i`.
fn scan_block_end(s: &Vec<char>, i: usize, depth: usize) -> (r: Option<usize>)
    requires
        1 <= depth <= i <= s@.len(),
    ensures
        match r {
            Some(j) => block_end(s@, i as nat, depth as nat) == Some(j as nat),
            None => block_end(s@, i as nat, depth as nat) is None,
        },
    decreases s@.len() - i,
{
    if i >= s.len() {
        None
    } else if i + 1 < s.len() && s[i] == '|' && s[i + 1] == '#' {
        if depth <= 1 {
            Some(i + 2)
        } else {
            scan_block_end(s, i + 2, depth - 1)
        }
    } else if i + 1 < s.len() && s[i] == '#' && s[i + 1] == '|' {
        scan_block_end(s, i + 2, depth + 1)
    } else {
        scan_block_end(s, i + 1, depth)
    }
}

/// Skips trivia starting at `i`; `None` when a block comment never closes.
fn scan_trivia(s: &Vec<char>, i: usize) -> (r: Option<usize>)
    requires
        i <= s@.len(),
    ensures
        match r {
            Some(j) => skip_trivia(s@, i as nat) == Some(j as nat) && i <= j <= s@.len(),
            None => skip_trivia(s@, i as nat) is None,
        },
    decreases s@.len() - i,
{
    proof {
        lemma_skip_trivia(s@, i as nat);
    }
    if i >= s.len() {
        Some(i)
    } else {
        let c = s[i];
        if c == ' ' || c == '\t' || c == '\n' || c == '\r' {
            scan_trivia(s, i + 1)
        } else if c == ';' {
            proof {
                lemma_line_end(s@, (i + 1) as nat);
            }
            let j = scan_line_end(s, i + 1);
            scan_trivia(s, j)
        } else if c == '#' && i + 1 < s.len() && s[i + 1] == '|' {
            proof {
                lemma_block_end(s@, (i + 2) as nat, 1);
            }
            match scan_block_end(s, i + 2, 1) {
                Some(j) => scan_trivia(s, j),
                None => None,
            }
        } else {
            Some(i)
        }
    }
}

/// Scans a string literal body starting just after the opening quote.
fn scan_string_end(s: &Vec<char>, i: usize) -> (r: Option<usize>)
    requires
        i <= s@.len(),
    ensures
        match r {
            Some(k) => string_end(s@, i as nat) == Some(k as nat) && i < k <= s@.len(),
            None => string_end(s@, i as nat) is None,
        },
    decreases s@.len() - i,
{
    proof {
        lemma_string_end(s@, i as nat);
    }
    if i >= s.len() {
        None
    } else if s[i] == '"' {
        Some(i + 1)
    } else if s[i] == '\\' {
        if i + 1 < s.len() {
            scan_string_end(s, i + 2)
        } else {
            None
        }
    } else {
        scan_string_end(s, i + 1)
    }
}

/// Whether a character may stand inside a token run.
fn token_char(c: char) -> (r: bool)
    ensures
        r == is_token_char(c),
{
    !(c == ' ' || c == '\t' || c == '\n' || c == '\r' || c == '(' || c == '[' || c == '{'
        || c == ')' || c == ']' || c == '}' || c == '\'' || c == '`' || c == ',' || c == '"'
        || c == ';')
}

/// The end of the maximal token run starting at `i`.
fn scan_run_end(s: &Vec<char>, i: usize) -> (r: usize)
    requires
        i <= s@.len(),
    ensures
        r as nat == run_end(s@, i as nat),
        i <= r <= s@.len(),
    decreases s@.len() - i,
{
    proof {
        lemma_run_end(s@, i as nat);
    }
    if i >= s.len() {
        i
    } else if token_char(s[i]) {
        scan_run_end(s, i + 1)
    } else {
        i
    }
}

/// The 1-based line and column of position `p`.
fn line_col(s: &Vec<char>, p: usize) -> (r: (usize, usize))
    requires
        p <= s@.len() < usize::MAX,
    ensures
        r.0 as nat == line_of(s@, p as nat),
        r.1 as nat == col_of(s@, p as nat),
{
    let mut line: usize = 1;
    let mut col: usize = 1;
    let mut k: usize = 0;
    while k < p
        invariant
            k <= p <= s@.len() < usize::MAX,
            line as nat == line_of(s@, k as nat),
            col as nat == col_of(s@, k as nat),
            line <= k + 1,
            col <= k + 1,
        decreases p - k,
    {
        if s[k] == '\n' {
            line = line + 1;
            col = 1;
        } else {
            col = col + 1;
        }
        k = k + 1;
    }
    (line, col)
}

/// Builds the diagnostic decoration for the token spanning `a..b`.
fn tok_info(s: &Vec<char>, a: usize, b: usize) -> (t: TokInfo)
    requires
        a <= b <= s@.len() < usize::MAX,
    ensures
        t.string@ == s@.subrange(a as int, b as int),
        t.start.0 as nat == line_of(s@, a as nat),
        t.start.1 as nat == col_of(s@, a as nat),
        t.end.0 as nat == line_of(s@, b as nat),
        t.end.1 as nat == col_of(s@, b as nat),
{
    let string = chars_to_string(s, a, b);
    let start = line_col(s, a);
    let end = line_col(s, b);
    TokInfo { string, start, end }
}

/// Whether every character of `s[a..b]` is a decimal digit.
fn check_all_digits(s: &Vec<char>, a: usize, b: usize) -> (r: bool)
    requires
        a <= b <= s@.len(),
    ensures
        r == all_digits(s@.subrange(a as int, b as int)),
{
    let ghost t = s@.subrange(a as int, b as int);
    let mut k = a;
    while k < b
        invariant
            a <= k <= b <= s@.len(),
            t == s@.subrange(a as int, b as int),
            forall|x: int| a <= x < k ==> is_digit(s@[x]),
        decreases b - k,
    {
        let u = s[k] as u32;
        if u < 48 || u > 57 {
            proof {
                assert(t[k - a] == s@[k as int]);
                assert(!is_digit(t[k - a]));
            }
            return false;
        }
        proof {
            assert(s@[k as int] as u32 == u);
            assert(is_digit(s@[k as int]));
        }
        k = k + 1;
    }
    proof {
        assert forall|x: int| 0 <= x < t.len() implies is_digit(t[x]) by {
            assert(t[x] == s@[a + x]);
        }
    }
    true
}

/// Whether a character is a hexadecimal digit.
fn hex_digit(c: char) -> (r: bool)
    ensures
        r == is_hex_digit(c),
{
    let u = c as u32;
    (48 <= u && u <= 57) || (65 <= u && u <= 70) || (97 <= u && u <= 102)
}

/// Whether every character of `s[a..b]` is a hexadecimal digit.
fn check_all_hex(s: &Vec<char>, a: usize, b: usize) -> (r: bool)
    requires
        a <= b <= s@.len(),
    ensures
        r == all_hex_digits(s@.subrange(a as int, b as int)),
{
    let ghost t = s@.subrange(a as int, b as int);
    let mut k = a;
    while k < b
        invariant
            a <= k <= b <= s@.len(),
            t == s@.subrange(a as int, b as int),
            forall|x: int| a <= x < k ==> is_hex_digit(s@[x]),
        decreases b - k,
    {
        if !hex_digit(s[k]) {
            proof {
                assert(t[k - a] == s@[k as int]);
                assert(!is_hex_digit(t[k - a]));
            }
            return false;
        }
        k = k + 1;
    }
    proof {
        assert forall|x: int| 0 <= x < t.len() implies is_hex_digit(t[x]) by {
            assert(t[x] == s@[a + x]);
        }
    }
    true
}

/// The value of the digit run `s[a..b]`, or `None` when it exceeds `limit`.
fn dec_run_value(s: &Vec<char>, a: usize, b: usize, limit: u64) -> (r: Option<u64>)
    requires
        a <= b <= s@.len(),
        all_digits(s@.subrange(a as int, b as int)),
    ensures
        match r {
            Some(v) => v as int == dec_val(s@.subrange(a as int, b as int)) && v <= limit,
            None => dec_val(s@.subrange(a as int, b as int)) > limit,
        },
{
    let ghost t = s@.subrange(a as int, b as int);
    let mut acc: u64 = 0;
    let mut k = a;
    proof {
        assert(s@.subrange(a as int, a as int) =~= Seq::<char>::empty());
    }
    while k < b
        invariant
            a <= k <= b <= s@.len(),
            t == s@.subrange(a as int, b as int),
            all_digits(t),
            acc <= limit,
            acc as int == dec_val(s@.subrange(a as int, k as int)),
        decreases b - k,
    {
        proof {
            assert(t[k - a] == s@[k as int]);
        }
        let u = s[k] as u32;
        let d: u64 = (u - 48) as u64;
        proof {
            assert(s@.subrange(a as int, k + 1).drop_last() =~= s@.subrange(a as int, k as int));
            assert(s@.subrange(a as int, k + 1).last() == s@[k as int]);
            assert(t.take(k + 1 - a) =~= s@.subrange(a as int, k + 1));
        }
        if acc > limit / 10 || (acc == limit / 10 && d > limit % 10) {
            proof {
                assert((acc as int) * 10 + (d as int) > limit as int) by (nonlinear_arith)
                    requires
                        acc as int > (limit as int) / 10 || (acc as int == (limit as int) / 10
                            && d as int > (limit as int) % 10),
                        0 <= d as int,
                        0 <= limit as int,
                        0 <= acc as int,
                ;
                lemma_dec_val_prefix(t, k + 1 - a);
            }
            return None;
        }
        proof {
            assert((acc as int) * 10 + (d as int) <= limit as int) by (nonlinear_arith)
                requires
                    acc as int <= (limit as int) / 10,
                    (acc as int == (limit as int) / 10) ==> (d as int <= (limit as int) % 10),
                    0 <= acc as int,
                    0 <= d as int,
                    d as int <= 9,
                    0 <= limit as int,
            ;
        }
        acc = acc * 10 + d;
        k = k + 1;
    }
    proof {
        assert(s@.subrange(a as int, b as int) == t);
    }
    Some(acc)
}

/// The value of the hex digit run `s[a..b]`, or `None` when it exceeds
/// `limit`.
fn hex_run_value(s: &Vec<char>, a: usize, b: usize, limit: u64) -> (r: Option<u64>)
    requires
        a <= b <= s@.len(),
        all_hex_digits(s@.subrange(a as int, b as int)),
    ensures
        match r {
            Some(v) => v as int == hex_val(s@.subrange(a as int, b as int)) && v <= limit,
            None => hex_val(s@.subrange(a as int, b as int)) > limit,
        },
{
    let ghost t = s@.subrange(a as int, b as int);
    let mut acc: u64 = 0;
    let mut k = a;
    proof {
        assert(s@.subrange(a as int, a as int) =~= Seq::<char>::empty());
    }
    while k < b
        invariant
            a <= k <= b <= s@.len(),
            t == s@.subrange(a as int, b as int),
            all_hex_digits(t),
            acc <= limit,
            acc as int == hex_val(s@.subrange(a as int, k as int)),
        decreases b - k,
    {
        proof {
            assert(t[k - a] == s@[k as int]);
        }
        let u = s[k] as u32;
        let d: u64 = if 48 <= u && u <= 57 {
            (u - 48) as u64
        } else if 65 <= u && u <= 70 {
            (u - 55) as u64
        } else {
            (u - 87) as u64
        };
        proof {
            assert(d as int == hex_digit_val(s@[k as int]));
            assert(s@.subrange(a as int, k + 1).drop_last() =~= s@.subrange(a as int, k as int));
            assert(s@.subrange(a as int, k + 1).last() == s@[k as int]);
            assert(t.take(k + 1 - a) =~= s@.subrange(a as int, k + 1));
        }
        if acc > limit / 16 || (acc == limit / 16 && d > limit % 16) {
            proof {
                assert((acc as int) * 16 + (d as int) > limit as int) by (nonlinear_arith)
                    requires
                        acc as int > (limit as int) / 16 || (acc as int == (limit as int) / 16
                            && d as int > (limit as int) % 16),
                        0 <= d as int,
                        0 <= limit as int,
                        0 <= acc as int,
                ;
                lemma_hex_val_prefix(t, k + 1 - a);
            }
            return None;
        }
        proof {
            assert((acc as int) * 16 + (d as int) <= limit as int) by (nonlinear_arith)
                requires
                    acc as int <= (limit as int) / 16,
                    (acc as int == (limit as int) / 16) ==> (d as int <= (limit as int) % 16),
                    0 <= acc as int,
                    0 <= d as int,
                    d as int <= 15,
                    0 <= limit as int,
            ;
        }
        acc = acc * 16 + d;
        k = k + 1;
    }
    proof {
        assert(s@.subrange(a as int, b as int) == t);
    }
    Some(acc)
}

/// Whether `s[a..b]` spells a true boolean literal.
fn check_bool_true(s: &Vec<char>, a: usize, b: usize) -> (r: bool)
    requires
        a <= b <= s@.len(),
    ensures
        r == is_bool_true_tok(s@.subrange(a as int, b as int)),
{
    let ghost t = s@.subrange(a as int, b as int);
    proof {
        assert(seq!['#', 't'].len() == 2);
        assert(seq!['#', 't', 'r', 'u', 'e'].len() == 5);
    }
    if b - a == 2 {
        let r = s[a] == '#' && s[a + 1] == 't';
        proof {
            assert(t[0] == s@[a as int]);
            assert(t[1] == s@[a + 1]);
            if r {
                assert(t =~= seq!['#', 't']);
            }
        }
        r
    } else if b - a == 5 {
        let r = s[a] == '#' && s[a + 1] == 't' && s[a + 2] == 'r' && s[a + 3] == 'u' && s[a + 4]
            == 'e';
        proof {
            assert(t[0] == s@[a as int]);
            assert(t[1] == s@[a + 1]);
            assert(t[2] == s@[a + 2]);
            assert(t[3] == s@[a + 3]);
            assert(t[4] == s@[a + 4]);
            if r {
                assert(t =~= seq!['#', 't', 'r', 'u', 'e']);
            }
        }
        r
    } else {
        false
    }
}

/// Whether `s[a..b]` spells a false boolean literal.
fn check_bool_false(s: &Vec<char>, a: usize, b: usize) -> (r: bool)
    requires
        a <= b <= s@.len(),
    ensures
        r == is_bool_false_tok(s@.subrange(a as int, b as int)),
{
    let ghost t = s@.subrange(a as int, b as int);
    proof {
        assert(seq!['#', 'f'].len() == 2);
        assert(seq!['#', 'f', 'a', 'l', 's', 'e'].len() == 6);
    }
    if b - a == 2 {
        let r = s[a] == '#' && s[a + 1] == 'f';
        proof {
            assert(t[0] == s@[a as int]);
            assert(t[1] == s@[a + 1]);
            if r {
                assert(t =~= seq!['#', 'f']);
            }
        }
        r
    } else if b - a == 6 {
        let r = s[a] == '#' && s[a + 1] == 'f' && s[a + 2] == 'a' && s[a + 3] == 'l' && s[a + 4]
            == 's' && s[a + 5] == 'e';
        proof {
            assert(t[0] == s@[a as int]);
            assert(t[1] == s@[a + 1]);
            assert(t[2] == s@[a + 2]);
            assert(t[3] == s@[a + 3]);
            assert(t[4] == s@[a + 4]);
            assert(t[5] == s@[a + 5]);
            if r {
                assert(t =~= seq!['#', 'f', 'a', 'l', 's', 'e']);
            }
        }
        r
    } else {
        false
    }
}

/// Whether `s[a..b]` is a dotted float literal: exactly one `.` among digits.
fn check_dotted_float(s: &Vec<char>, a: usize, b: usize) -> (r: bool)
    requires
        a <= b <= s@.len(),
    ensures
        r == is_dotted_float_tok(s@.subrange(a as int, b as int)),
{
    let ghost t = s@.subrange(a as int, b as int);
    if b - a < 2 {
        return false;
    }
    let mut dot: Option<usize> = None;
    let mut k = a;
    while k < b
        invariant
            a <= k <= b <= s@.len(),
            b - a >= 2,
            t == s@.subrange(a as int, b as int),
            match dot {
                Some(d) => a <= d < k && s@[d as int] == '.' && forall|x: int|
                    a <= x < k && x != d ==> is_digit(s@[x]),
                None => forall|x: int| a <= x < k ==> is_digit(s@[x]),
            },
        decreases b - k,
    {
        let c = s[k];
        if c == '.' {
            match dot {
                Some(d) => {
                    proof {
                        assert(t[d - a] == s@[d as int]);
                        assert(t[k - a] == s@[k as int]);
                        if is_dotted_float_tok(t) {
                            let k0 = choose|k0: int|
                                0 <= k0 < t.len() && t[k0] == '.' && (forall|x: int|
                                    0 <= x < t.len() && x != k0 ==> is_digit(t[x]));
                            if k0 == d - a {
                                assert(is_digit(t[k - a]));
                            } else {
                                assert(is_digit(t[d - a]));
                            }
                            assert(false);
                        }
                    }
                    return false;
                },
                None => {
                    dot = Some(k);
                },
            }
        } else {
            let u = c as u32;
            if u < 48 || u > 57 {
                proof {
                    assert(t[k - a] == s@[k as int]);
                    if is_dotted_float_tok(t) {
                        let k0 = choose|k0: int|
                            0 <= k0 < t.len() && t[k0] == '.' && (forall|x: int|
                                0 <= x < t.len() && x != k0 ==> is_digit(t[x]));
                        if k0 == k - a {
                            assert(t[k0] == '.');
                        } else {
                            assert(is_digit(t[k - a]));
                        }
                        assert(false);
                    }
                }
                return false;
            }
        }
        k = k + 1;
    }
    match dot {
        Some(d) => {
            proof {
                assert(t[d - a] == '.');
                assert forall|x: int| 0 <= x < t.len() && x != d - a implies is_digit(t[x]) by {
                    assert(t[x] == s@[a + x]);
                }
                assert(is_dotted_float_tok(t));
            }
            true
        },
        None => {
            proof {
                if is_dotted_float_tok(t) {
                    let k0 = choose|k0: int|
                        0 <= k0 < t.len() && t[k0] == '.' && (forall|x: int|
                            0 <= x < t.len() && x != k0 ==> is_digit(t[x]));
                    assert(t[k0] == s@[a + k0]);
                    assert(is_digit(t[k0]));
                    assert(false);
                }
            }
            false
        },
    }
}

/// Builds the atom denoted by the token run `s[j..e]`, or reports a numeric
/// literal whose value does not fit a signed 64-bit integer.
fn run_atom(s: &Vec<char>, j: usize, e: usize) -> (r: Result<Atom<TokInfo>, ParsingError>)
    requires
        j < e <= s@.len() < usize::MAX,
    ensures
        match atom_of_run(s@.subrange(j as int, e as int)) {
            TokAtom::Atom(a) => r matches Ok(at) && at@ == a,
            TokAtom::Bad => r matches Err(er) && er is InvalidSyntax,
        },
{
    let ghost t = s@.subrange(j as int, e as int);
    let tok = tok_info(s, j, e);
    if check_bool_true(s, j, e) {
        Ok(Atom::Boolean(true, tok))
    } else if check_bool_false(s, j, e) {
        Ok(Atom::Boolean(false, tok))
    } else if e - j > 2 && s[j] == '0' && s[j + 1] == 'x' && check_all_hex(s, j + 2, e) {
        proof {
            assert(t[0] == s@[j as int]);
            assert(t[1] == s@[j + 1]);
            assert(t.skip(2) =~= s@.subrange(j + 2, e as int));
            assert(is_hex_tok(t));
            lemma_hex_val_nonneg(t.skip(2));
        }
        match hex_run_value(s, j + 2, e, 9223372036854775807u64) {
            Some(v) => {
                proof {
                    assert(i64_fits(hex_val(t.skip(2))));
                }
                Ok(Atom::Integer(v as i64, tok))
            },
            None => Err(
                ParsingError::InvalidSyntax(
                    tok,
                    chars_to_string(s, j, e),
                    Some(
                        String::from_str(
                            "The given token was matched as an integer, but its value does not fit in 64 bits",
                        ),
                    ),
                ),
            ),
        }
    } else {
        proof {
            assert(t[0] == s@[j as int]);
            if e - j > 2 {
                assert(t[1] == s@[j + 1]);
                assert(t.skip(2) =~= s@.subrange(j + 2, e as int));
            }
            assert(!is_hex_tok(t));
        }
        let neg = s[j] == '-';
        let da = if neg {
            j + 1
        } else {
            j
        };
        if da < e && check_all_digits(s, da, e) {
            let ghost mag = s@.subrange(da as int, e as int);
            proof {
                if neg {
                    assert(t.skip(1) =~= mag);
                } else {
                    assert(t =~= mag);
                }
                assert(is_dec_int_tok(t));
                lemma_dec_val_nonneg(mag);
            }
            if neg {
                match dec_run_value(s, da, e, 9223372036854775808u64) {
                    Some(m) => {
                        let v: i64 = if m == 9223372036854775808u64 {
                            i64::MIN
                        } else {
                            -(m as i64)
                        };
                        proof {
                            assert(v as int == dec_int_val(t));
                            assert(i64_fits(dec_int_val(t)));
                        }
                        Ok(Atom::Integer(v, tok))
                    },
                    None => Err(
                        ParsingError::InvalidSyntax(
                            tok,
                            chars_to_string(s, j, e),
                            Some(
                                String::from_str(
                                    "The given token was matched as an integer, but its value does not fit in 64 bits",
                                ),
                            ),
                        ),
                    ),
                }
            } else {
                match dec_run_value(s, da, e, 9223372036854775807u64) {
                    Some(m) => {
                        proof {
                            assert(m as int == dec_int_val(t));
                            assert(i64_fits(dec_int_val(t)));
                        }
                        Ok(Atom::Integer(m as i64, tok))
                    },
                    None => Err(
                        ParsingError::InvalidSyntax(
                            tok,
                            chars_to_string(s, j, e),
                            Some(
                                String::from_str(
                                    "The given token was matched as an integer, but its value does not fit in 64 bits",
                                ),
                            ),
                        ),
                    ),
                }
            }
        } else {
            proof {
                if neg && j + 1 < e {
                    assert(t.skip(1) =~= s@.subrange(j + 1, e as int));
                }
                if !neg {
                    assert(t =~= s@.subrange(j as int, e as int));
                }
                assert(!is_dec_int_tok(t));
            }
            if check_dotted_float(s, j, e) {
                Ok(Atom::Float(chars_to_string(s, j, e), tok))
            } else if e - j >= 2 && s[e - 1] == 'f' && check_all_digits(s, j, e - 1) {
                proof {
                    assert(t.last() == s@[e - 1]);
                    assert(t.drop_last() =~= s@.subrange(j as int, e - 1));
                    assert(is_suffix_float_tok(t));
                    assert(t.drop_last() == s@.subrange(j as int, e - 1));
                }
                Ok(Atom::Float(chars_to_string(s, j, e - 1), tok))
            } else {
                proof {
                    if e - j >= 2 {
                        assert(t.last() == s@[e - 1]);
                        assert(t.drop_last() =~= s@.subrange(j as int, e - 1));
                    }
                    assert(!is_suffix_float_tok(t));
                }
                Ok(Atom::Symbol(chars_to_string(s, j, e), tok))
            }
        }
    }
}

/// The outcome of one step of the executable parser.
enum Step {
    Val(Sexpr<TokInfo>, usize),
    Skip(usize),
    Fail(ParsingError),
}

/// Parses one unit starting at `i`, mirroring `p_unit`.
fn parse_unit(s: &Vec<char>, i: usize) -> (r: Step)
    requires
        i <= s@.len() < usize::MAX,
    ensures
        match p_unit(s@, i as nat) {
            URes::Val(v, k) => r matches Step::Val(t, j) && t@ == v && j as nat == k,
            URes::Skip(k) => r matches Step::Skip(j) && j as nat == k,
            URes::FailTok(p) => r matches Step::Fail(e) && e is InvalidSyntax,
            URes::FailEof => r matches Step::Fail(e) && e is GrammarFailure,
        },
    decreases s@.len() - i, 0int,
{
    proof {
        lemma_skip_trivia(s@, i as nat);
    }
    match scan_trivia(s, i) {
        None => Step::Fail(
            ParsingError::GrammarFailure(String::from_str("unterminated block comment")),
        ),
        Some(j) => {
            if j >= s.len() {
                Step::Fail(
                    ParsingError::GrammarFailure(
                        String::from_str("unexpected end of input where an expression was expected"),
                    ),
                )
            } else {
                let c = s[j];
                if c == '(' || c == '[' || c == '{' {
                    let close = if c == '(' {
                        ')'
                    } else if c == '[' {
                        ']'
                    } else {
                        '}'
                    };
                    proof {
                        assert(close == closer_of(c));
                    }
                    match parse_items(s, j + 1, close) {
                        ItemsStep::Done(items, k) => {
                            proof {
                                lemma_p_items_progress(s@, (j + 1) as nat, close);
                            }
                            let tok = tok_info(s, j, k);
                            Step::Val(Sexpr::List(items, tok), k)
                        },
                        ItemsStep::Fail(e) => Step::Fail(e),
                    }
                } else if c == ')' || c == ']' || c == '}' {
                    let tok = tok_info(s, j, j + 1);
                    Step::Fail(
                        ParsingError::InvalidSyntax(
                            tok,
                            chars_to_string(s, j, j + 1),
                            Some(String::from_str("unexpected closing delimiter")),
                        ),
                    )
                } else if c == '\'' || c == '`' || c == ',' {
                    match parse_unit(s, j + 1) {
                        Step::Val(t, k) => {
                            proof {
                                lemma_p_unit_progress(s@, (j + 1) as nat);
                            }
                            let tok = tok_info(s, j, k);
                            let tok2 = tok_info(s, j, k);
                            let at = if c == '\'' {
                                Atom::Quoted(Box::new(t), tok)
                            } else if c == '`' {
                                Atom::QuasiQuoted(Box::new(t), tok)
                            } else {
                                Atom::Unquoted(Box::new(t), tok)
                            };
                            Step::Val(Sexpr::Atom(at, tok2), k)
                        },
                        Step::Skip(k) => Step::Skip(k),
                        Step::Fail(e) => Step::Fail(e),
                    }
                } else if c == '"' {
                    match scan_string_end(s, j + 1) {
                        Some(k) => {
                            let content = chars_to_string(s, j + 1, k - 1);
                            let tok = tok_info(s, j, k);
                            let tok2 = tok_info(s, j, k);
                            Step::Val(Sexpr::Atom(Atom::String(content, tok), tok2), k)
                        },
                        None => Step::Fail(
                            ParsingError::GrammarFailure(
                                String::from_str("unterminated string literal"),
                            ),
                        ),
                    }
                } else if c == '#' && j + 1 < s.len() && s[j + 1] == ';' {
                    match parse_unit(s, j + 2) {
                        Step::Val(_, k) => Step::Skip(k),
                        Step::Skip(k) => Step::Skip(k),
                        Step::Fail(e) => Step::Fail(e),
                    }
                } else {
                    proof {
                        assert(is_token_char(s@[j as int]));
                        lemma_run_end(s@, j as nat);
                    }
                    let e = scan_run_end(s, j);
                    match run_atom(s, j, e) {
                        Ok(at) => {
                            let tok = tok_info(s, j, e);
                            Step::Val(Sexpr::Atom(at, tok), e)
                        },
                        Err(er) => Step::Fail(er),
                    }
                }
            }
        },
    }
}

/// The outcome of parsing the items of one list.
enum ItemsStep {
    Done(Vec<Sexpr<TokInfo>>, usize),
    Fail(ParsingError),
}

/// Parses list items up to the closing delimiter `close`, mirroring
/// `p_items`.
fn parse_items(s: &Vec<char>, k: usize, close: char) -> (r: ItemsStep)
    requires
        k <= s@.len() < usize::MAX,
    ensures
        match p_items(s@, k as nat, close) {
            ItemsRes::Done(items, e) => r matches ItemsStep::Done(v, j) && views_of(v@) == items
                && j as nat == e,
            ItemsRes::FailTok(p) => r matches ItemsStep::Fail(er) && er is InvalidSyntax,
            ItemsRes::FailEof => r matches ItemsStep::Fail(er) && er is GrammarFailure,
        },
    decreases s@.len() - k, 1int,
{
    proof {
        lemma_skip_trivia(s@, k as nat);
    }
    match scan_trivia(s, k) {
        None => ItemsStep::Fail(
            ParsingError::GrammarFailure(String::from_str("unterminated block comment")),
        ),
        Some(j) => {
            if j >= s.len() {
                ItemsStep::Fail(
                    ParsingError::GrammarFailure(
                        String::from_str("unclosed list at end of input"),
                    ),
                )
            } else {
                let c = s[j];
                if c == ')' || c == ']' || c == '}' {
                    if c == close {
                        proof {
                            assert(views_of(Seq::<Sexpr<TokInfo>>::empty())
                                =~= Seq::<SpecSexpr>::empty());
                        }
                        ItemsStep::Done(Vec::new(), j + 1)
                    } else {
                        let tok = tok_info(s, j, j + 1);
                        ItemsStep::Fail(
                            ParsingError::InvalidSyntax(
                                tok,
                                chars_to_string(s, j, j + 1),
                                Some(
                                    String::from_str(
                                        "closing delimiter does not match the opening delimiter of the list",
                                    ),
                                ),
                            ),
                        )
                    }
                } else {
                    proof {
                        lemma_p_unit_progress(s@, j as nat);
                    }
                    match parse_unit(s, j) {
                        Step::Val(t, m) => {
                            match parse_items(s, m, close) {
                                ItemsStep::Done(rest, e2) => {
                                    let ghost rest_view = rest@;
                                    let mut v = rest;
                                    v.insert(0, t);
                                    proof {
                                        assert(v@[0] == t);
                                        assert(v@.drop_first() =~= rest_view);
                                    }
                                    ItemsStep::Done(v, e2)
                                },
                                ItemsStep::Fail(er) => ItemsStep::Fail(er),
                            }
                        },
                        Step::Skip(m) => parse_items(s, m, close),
                        Step::Fail(er) => ItemsStep::Fail(er),
                    }
                }
            }
        },
    }
}

/// Parses top-level units from `i` to the end of the text, mirroring
/// `p_program`.
fn parse_program(s: &Vec<char>, i: usize) -> (r: Result<Vec<Sexpr<TokInfo>>, ParsingError>)
    requires
        i <= s@.len() < usize::MAX,
    ensures
        match p_program(s@, i as nat) {
            ManyRes::Vals(vs) => r matches Ok(v) && views_of(v@) == vs,
            ManyRes::FailTok(p) => r matches Err(e) && e is InvalidSyntax,
            ManyRes::FailEof => r matches Err(e) && e is GrammarFailure,
        },
    decreases s@.len() - i, 2int,
{
    proof {
        lemma_skip_trivia(s@, i as nat);
    }
    match scan_trivia(s, i) {
        None => Err(ParsingError::GrammarFailure(String::from_str("unterminated block comment"))),
        Some(j) => {
            if j >= s.len() {
                let v: Vec<Sexpr<TokInfo>> = Vec::new();
                proof {
                    assert(views_of(v@) =~= Seq::<SpecSexpr>::empty());
                }
                Ok(v)
            } else {
                proof {
                    lemma_p_unit_progress(s@, j as nat);
                }
                match parse_unit(s, j) {
                    Step::Val(t, k) => {
                        match parse_program(s, k) {
                            Ok(rest) => {
                                let ghost rest_view = rest@;
                                let mut v = rest;
                                v.insert(0, t);
                                proof {
                                    assert(v@[0] == t);
                                    assert(v@.drop_first() =~= rest_view);
                                }
                                Ok(v)
                            },
                            Err(e2) => Err(e2),
                        }
                    },
                    Step::Skip(k) => parse_program(s, k),
                    Step::Fail(e2) => Err(e2),
                }
            }
        },
    }
}

/// The S-expression parser: source text in, decorated trees or a diagnostic
/// out.
///
/// Parsing recurses with call depth proportional to the nesting depth of the
/// input; no explicit nesting limit is imposed, so pathologically deep input
/// can exhaust the call stack. The entry points ask for an input shorter
/// than `usize::MAX` characters so that the 1-based line and column numbers
/// of the diagnostics can be computed without overflow.
pub struct SexprParser;

impl SexprParser {
    /// Parses the whole input as a sequence of top-level expressions; any
    /// unit that is only a datum comment is silently skipped, and any other
    /// error aborts the parse with no partial result.
    pub fn parse_all(input: &str) -> (r: Result<Vec<Sexpr<TokInfo>>, ParsingError>)
        requires
            input@.len() < usize::MAX,
        ensures
            match parse_many_model(input@) {
                ManyRes::Vals(vs) => r matches Ok(v) && views_of(v@) == vs,
                ManyRes::FailTok(p) => r matches Err(e) && e is InvalidSyntax,
                ManyRes::FailEof => r matches Err(e) && e is GrammarFailure,
            },
    {
        let s = to_chars(input);
        parse_program(&s, 0)
    }

    /// Parses the input as exactly one expression: trailing input is a
    /// syntax error, and an input holding only a datum comment reports the
    /// distinguished `NothingToParse` condition.
    pub fn parse_str(input: &str) -> (r: Result<Sexpr<TokInfo>, ParsingError>)
        requires
            input@.len() < usize::MAX,
        ensures
            match parse_one_model(input@) {
                OneRes::Val(v) => r matches Ok(t) && t@ == v,
                OneRes::Nothing => r matches Err(e) && e is NothingToParse,
                OneRes::FailTok(p) => r matches Err(e) && e is InvalidSyntax,
                OneRes::FailEof => r matches Err(e) && e is GrammarFailure,
            },
    {
        let s = to_chars(input);
        proof {
            lemma_p_unit_progress(s@, 0);
        }
        match parse_unit(&s, 0) {
            Step::Val(t, k) => {
                proof {
                    lemma_skip_trivia(s@, k as nat);
                }
                match scan_trivia(&s, k) {
                    None => Err(
                        ParsingError::GrammarFailure(
                            String::from_str("unterminated block comment"),
                        ),
                    ),
                    Some(j) => {
                        if j >= s.len() {
                            Ok(t)
                        } else {
                            let tok = tok_info(&s, j, j + 1);
                            Err(
                                ParsingError::InvalidSyntax(
                                    tok,
                                    chars_to_string(&s, j, j + 1),
                                    Some(
                                        String::from_str(
                                            "expected end of input after the expression",
                                        ),
                                    ),
                                ),
                            )
                        }
                    },
                }
            },
            Step::Skip(_) => Err(ParsingError::NothingToParse),
            Step::Fail(e) => Err(e),
        }
    }
}

/// Parsing is deterministic: the model assigns one erased tree to a text, so
/// any two successful parses of the same text, each proved against
/// `parse_one_model`, have structurally equal untagged trees.
pub proof fn lemma_parse_one_deterministic(s: Seq<char>, v1: SpecSexpr, v2: SpecSexpr)
    requires
        parse_one_model(s) == OneRes::Val(v1),
        parse_one_model(s) == OneRes::Val(v2),
    ensures
        v1 == v2,
{
}

} // verus!

