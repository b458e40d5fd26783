//! The language-declaration heuristic: find and strip the leading `#lang` or
//! `#reader` line of a source buffer and report the declared language.
//!
//! The model works on the buffer split into lines the way `str::lines` splits
//! it: at `\n`, with one trailing `\r` removed from each line. Trimming
//! recognizes the same whitespace characters as the parser.

use vstd::prelude::*;
use vstd::string::*;
use crate::grammar::is_ws;
use crate::text::{to_chars, chars_to_string, vec_range, push_char};

verus! {

/// Whether `t` begins with the prefix `p`.
pub open spec fn starts_with(t: Seq<char>, p: Seq<char>) -> bool {
    t.len() >= p.len() && t.take(p.len() as int) == p
}

/// The whitespace trimmed from the front of `t`.
pub open spec fn trim_start_ws(t: Seq<char>) -> Seq<char>
    decreases t.len(),
{
    if t.len() > 0 && is_ws(t[0]) {
        trim_start_ws(t.drop_first())
    } else {
        t
    }
}

/// The whitespace trimmed from the back of `t`.
pub open spec fn trim_end_ws(t: Seq<char>) -> Seq<char>
    decreases t.len(),
{
    if t.len() > 0 && is_ws(t.last()) {
        trim_end_ws(t.drop_last())
    } else {
        t
    }
}

/// The whitespace trimmed from both ends of `t`.
pub open spec fn trim_ws(t: Seq<char>) -> Seq<char> {
    trim_end_ws(trim_start_ws(t))
}

/// The double quotes trimmed from the front of `t`.
pub open spec fn trim_start_quotes(t: Seq<char>) -> Seq<char>
    decreases t.len(),
{
    if t.len() > 0 && t[0] == '"' {
        trim_start_quotes(t.drop_first())
    } else {
        t
    }
}

/// The double quotes trimmed from the back of `t`.
pub open spec fn trim_end_quotes(t: Seq<char>) -> Seq<char>
    decreases t.len(),
{
    if t.len() > 0 && t.last() == '"' {
        trim_end_quotes(t.drop_last())
    } else {
        t
    }
}

/// The double quotes trimmed from both ends of `t`.
pub open spec fn trim_quotes(t: Seq<char>) -> Seq<char> {
    trim_end_quotes(trim_start_quotes(t))
}

/// The index of the first `"` at or after `i`, if any.
pub open spec fn find_quote(t: Seq<char>, i: nat) -> Option<nat>
    decreases t.len() - i,
{
    if i >= t.len() {
        None
    } else if t[i as int] == '"' {
        Some(i)
    } else {
        find_quote(t, (i + 1) as nat)
    }
}

/// The language declared by one line: for a `#lang` line the trimmed
/// remainder of the line; for a `#reader(lib "..."` line the text up to the
/// closing quote of the library name, with the quotes trimmed; otherwise
/// nothing.
pub open spec fn hashlang_of_line(line: Seq<char>) -> Option<Seq<char>> {
    if starts_with(line, seq!['#', 'l', 'a', 'n', 'g']) {
        Some(trim_ws(line.skip(5)))
    } else if starts_with(line, seq!['#', 'r', 'e', 'a', 'd', 'e', 'r']) {
        if starts_with(line, seq!['#', 'r', 'e', 'a', 'd', 'e', 'r', '(', 'l', 'i', 'b', ' ']) {
            match find_quote(line, 13) {
                Some(idx) => Some(trim_quotes(line.subrange(12, idx as int))),
                None => None,
            }
        } else {
            None
        }
    } else {
        None
    }
}

/// The index of the next line break at or after `i`, or the text length.
pub open spec fn line_break(s: Seq<char>, i: nat) -> nat
    decreases s.len() - i,
{
    if i >= s.len() {
        s.len()
    } else if s[i as int] == '\n' {
        i
    } else {
        line_break(s, (i + 1) as nat)
    }
}

/// `line_break` stays within the text.
pub proof fn lemma_line_break(s: Seq<char>, i: nat)
    requires
        i <= s.len(),
    ensures
        i <= line_break(s, i) <= s.len(),
    decreases s.len() - i,
{
    if i < s.len() && s[i as int] != '\n' {
        lemma_line_break(s, (i + 1) as nat);
    }
}

/// The lines of the text from position `i` on, split the way `str::lines`
/// splits: at `\n`, one trailing `\r` removed from each line.
pub open spec fn spec_lines_from(s: Seq<char>, i: nat) -> Seq<Seq<char>>
    decreases s.len() - i,
{
    if i >= s.len() {
        Seq::empty()
    } else {
        let e = line_break(s, i);
        if e < i || e > s.len() {
            Seq::empty()
        } else {
            let raw = s.subrange(i as int, e as int);
            let line = if raw.len() > 0 && raw.last() == '\r' {
                raw.drop_last()
            } else {
                raw
            };
            if e == s.len() {
                seq![line]
            } else {
                seq![line] + spec_lines_from(s, (e + 1) as nat)
            }
        }
    }
}

/// The lines of the whole text.
pub open spec fn spec_lines(s: Seq<char>) -> Seq<Seq<char>> {
    spec_lines_from(s, 0)
}

/// The index of the first line that declares a language, if any.
pub open spec fn first_hashlang_idx(ls: Seq<Seq<char>>, i: nat) -> Option<nat>
    decreases ls.len() - i,
{
    if i >= ls.len() {
        None
    } else if hashlang_of_line(ls[i as int]) is Some {
        Some(i)
    } else {
        first_hashlang_idx(ls, (i + 1) as nat)
    }
}

/// A found declaration index lies within the line sequence.
pub proof fn lemma_first_hashlang_bounds(ls: Seq<Seq<char>>, i: nat)
    requires
        i <= ls.len(),
    ensures
        first_hashlang_idx(ls, i) matches Some(x) ==> i <= x < ls.len(),
    decreases ls.len() - i,
{
    if i < ls.len() && !(hashlang_of_line(ls[i as int]) is Some) {
        lemma_first_hashlang_bounds(ls, (i + 1) as nat);
    }
}

/// Lines joined back with a single `\n` between them.
pub open spec fn join_lines(ls: Seq<Seq<char>>) -> Seq<char>
    decreases ls.len(),
{
    if ls.len() == 0 {
        Seq::empty()
    } else if ls.len() == 1 {
        ls[0]
    } else {
        ls[0] + seq!['\n'] + join_lines(ls.drop_first())
    }
}

/// Whether a character counts as trimmable whitespace.
fn ws(c: char) -> (r: bool)
    ensures
        r == is_ws(c),
{
    c == ' ' || c == '\t' || c == '\n' || c == '\r'
}

/// Whether the line starts with `#lang`.
fn starts_lang(line: &Vec<char>) -> (r: bool)
    ensures
        r == starts_with(line@, seq!['#', 'l', 'a', 'n', 'g']),
{
    let r = line.len() >= 5 && line[0] == '#' && line[1] == 'l' && line[2] == 'a' && line[3]
        == 'n' && line[4] == 'g';
    proof {
        assert(seq!['#', 'l', 'a', 'n', 'g'].len() == 5);
        if line@.len() >= 5 {
            let p = line@.take(5);
            assert(p[0] == line@[0]);
            assert(p[1] == line@[1]);
            assert(p[2] == line@[2]);
            assert(p[3] == line@[3]);
            assert(p[4] == line@[4]);
            if r {
                assert(p =~= seq!['#', 'l', 'a', 'n', 'g']);
            }
        }
    }
    r
}

/// Whether the line starts with `#reader`.
fn starts_reader(line: &Vec<char>) -> (r: bool)
    ensures
        r == starts_with(line@, seq!['#', 'r', 'e', 'a', 'd', 'e', 'r']),
{
    let r = line.len() >= 7 && line[0] == '#' && line[1] == 'r' && line[2] == 'e' && line[3]
        == 'a' && line[4] == 'd' && line[5] == 'e' && line[6] == 'r';
    proof {
        assert(seq!['#', 'r', 'e', 'a', 'd', 'e', 'r'].len() == 7);
        if line@.len() >= 7 {
            let p = line@.take(7);
            assert(p[0] == line@[0]);
            assert(p[1] == line@[1]);
            assert(p[2] == line@[2]);
            assert(p[3] == line@[3]);
            assert(p[4] == line@[4]);
            assert(p[5] == line@[5]);
            assert(p[6] == line@[6]);
            if r {
                assert(p =~= seq!['#', 'r', 'e', 'a', 'd', 'e', 'r']);
            }
        }
    }
    r
}

/// Whether the line starts with `#reader(lib `.
fn starts_reader_lib(line: &Vec<char>) -> (r: bool)
    ensures
        r == starts_with(
            line@,
            seq!['#', 'r', 'e', 'a', 'd', 'e', 'r', '(', 'l', 'i', 'b', ' '],
        ),
{
    let r = line.len() >= 12 && line[0] == '#' && line[1] == 'r' && line[2] == 'e' && line[3]
        == 'a' && line[4] == 'd' && line[5] == 'e' && line[6] == 'r' && line[7] == '(' && line[8]
        == 'l' && line[9] == 'i' && line[10] == 'b' && line[11] == ' ';
    proof {
        assert(seq!['#', 'r', 'e', 'a', 'd', 'e', 'r', '(', 'l', 'i', 'b', ' '].len() == 12);
        if line@.len() >= 12 {
            let p = line@.take(12);
            assert(p[0] == line@[0]);
            assert(p[1] == line@[1]);
            assert(p[2] == line@[2]);
            assert(p[3] == line@[3]);
            assert(p[4] == line@[4]);
            assert(p[5] == line@[5]);
            assert(p[6] == line@[6]);
            assert(p[7] == line@[7]);
            assert(p[8] == line@[8]);
            assert(p[9] == line@[9]);
            assert(p[10] == line@[10]);
            assert(p[11] == line@[11]);
            if r {
                assert(p =~= seq!['#', 'r', 'e', 'a', 'd', 'e', 'r', '(', 'l', 'i', 'b', ' ']);
            }
        }
    }
    r
}

/// Where `find_quote` lands when the scan stopped at `k`.
proof fn lemma_find_quote_stop(t: Seq<char>, i: nat, k: nat)
    requires
        i <= k <= t.len(),
        forall|x: int| i <= x < k ==> t[x] != '"',
        k < t.len() ==> t[k as int] == '"',
    ensures
        find_quote(t, i) == if k < t.len() {
            Some(k)
        } else {
            None::<nat>
        },
    decreases k - i,
{
    if i < k {
        lemma_find_quote_stop(t, (i + 1) as nat, k);
    }
}

/// The language declared by one line held as characters.
fn hashlang_of_chars(line: &Vec<char>) -> (r: Option<String>)
    ensures
        match hashlang_of_line(line@) {
            Some(v) => r matches Some(l) && l@ == v,
            None => r is None,
        },
{
    if starts_lang(line) {
        let mut a: usize = 5;
        while a < line.len() && ws(line[a])
            invariant
                5 <= a <= line@.len(),
                trim_start_ws(line@.skip(5)) == trim_start_ws(line@.skip(a as int)),
            decreases line@.len() - a,
        {
            proof {
                assert(line@.skip(a as int)[0] == line@[a as int]);
                assert(line@.skip(a as int).drop_first() =~= line@.skip(a + 1 as int));
            }
            a = a + 1;
        }
        proof {
            if a < line@.len() {
                assert(line@.skip(a as int)[0] == line@[a as int]);
            }
            assert(trim_start_ws(line@.skip(a as int)) == line@.skip(a as int));
        }
        let mut b: usize = line.len();
        while b > a && ws(line[b - 1])
            invariant
                a <= b <= line@.len(),
                trim_end_ws(line@.subrange(a as int, line@.len() as int)) == trim_end_ws(
                    line@.subrange(a as int, b as int),
                ),
            decreases b,
        {
            proof {
                assert(line@.subrange(a as int, b as int).last() == line@[b - 1]);
                assert(line@.subrange(a as int, b as int).drop_last() =~= line@.subrange(
                    a as int,
                    b - 1,
                ));
            }
            b = b - 1;
        }
        proof {
            if b > a {
                assert(line@.subrange(a as int, b as int).last() == line@[b - 1]);
            }
            assert(trim_end_ws(line@.subrange(a as int, b as int)) == line@.subrange(
                a as int,
                b as int,
            ));
            assert(line@.skip(a as int) =~= line@.subrange(a as int, line@.len() as int));
        }
        Some(chars_to_string(line, a, b))
    } else if starts_reader(line) {
        if starts_reader_lib(line) {
            let mut k: usize = 13;
            while k < line.len() && line[k] != '"'
                invariant
                    13 <= k,
                    k <= line@.len() || k == 13,
                    forall|x: int| 13 <= x < k ==> line@[x] != '"',
                decreases line@.len() - k,
            {
                k = k + 1;
            }
            if k < line.len() {
                proof {
                    lemma_find_quote_stop(line@, 13, k as nat);
                }
                let cs: usize = if line[12] == '"' {
                    13
                } else {
                    12
                };
                proof {
                    let t = line@.subrange(12, k as int);
                    assert(t.len() == k - 12);
                    assert(t[0] == line@[12]);
                    if line@[12] == '"' {
                        assert(t.drop_first() =~= line@.subrange(13, k as int));
                        assert(trim_start_quotes(t) == trim_start_quotes(
                            line@.subrange(13, k as int),
                        ));
                        if k > 13 {
                            assert(line@.subrange(13, k as int)[0] == line@[13]);
                            assert(trim_start_quotes(line@.subrange(13, k as int))
                                == line@.subrange(13, k as int));
                        } else {
                            assert(line@.subrange(13, k as int).len() == 0);
                            assert(trim_start_quotes(line@.subrange(13, k as int))
                                == line@.subrange(13, k as int));
                        }
                        assert(trim_start_quotes(t) == line@.subrange(13, k as int));
                    } else {
                        assert(trim_start_quotes(t) == t);
                    }
                    let u = trim_start_quotes(t);
                    assert(u =~= line@.subrange(cs as int, k as int));
                    if u.len() > 0 {
                        assert(u.last() == line@[k - 1]);
                    }
                    assert(trim_end_quotes(u) == u);
                }
                Some(chars_to_string(line, cs, k))
            } else {
                proof {
                    if line@.len() >= 13 {
                        lemma_find_quote_stop(line@, 13, line@.len());
                    } else {
                        assert(find_quote(line@, 13) is None);
                    }
                }
                None
            }
        } else {
            None
        }
    } else {
        None
    }
}

/// Parses a single line's language declaration: the text after `#lang`, or
/// the library named by a `#reader(lib "..."` form.
pub fn parse_hashlang(line: &str) -> (r: Option<String>)
    ensures
        match hashlang_of_line(line@) {
            Some(v) => r matches Some(l) && l@ == v,
            None => r is None,
        },
{
    let chars = to_chars(line);
    hashlang_of_chars(&chars)
}

/// The index of the next line break at or after `i`.
fn scan_line_break(s: &Vec<char>, i: usize) -> (r: usize)
    requires
        i <= s@.len(),
    ensures
        r as nat == line_break(s@, i as nat),
        i <= r <= s@.len(),
    decreases s@.len() - i,
{
    proof {
        lemma_line_break(s@, i as nat);
    }
    if i >= s.len() {
        s.len()
    } else if s[i] == '\n' {
        i
    } else {
        scan_line_break(s, i + 1)
    }
}

/// Splits the text into lines, mirroring `spec_lines_from`.
fn split_lines_from(s: &Vec<char>, i: usize) -> (r: Vec<Vec<char>>)
    requires
        i <= s@.len(),
    ensures
        r@.len() == spec_lines_from(s@, i as nat).len(),
        forall|x: int| 0 <= x < r@.len() ==> r@[x]@ == spec_lines_from(s@, i as nat)[x],
    decreases s@.len() - i,
{
    proof {
        lemma_line_break(s@, i as nat);
    }
    if i >= s.len() {
        Vec::new()
    } else {
        let e = scan_line_break(s, i);
        let line: Vec<char> = if e > i && s[e - 1] == '\r' {
            vec_range(s, i, e - 1)
        } else {
            vec_range(s, i, e)
        };
        proof {
            let raw = s@.subrange(i as int, e as int);
            if e > i {
                assert(raw.last() == s@[e - 1]);
                assert(raw.drop_last() =~= s@.subrange(i as int, e - 1));
            }
        }
        if e >= s.len() {
            let mut r: Vec<Vec<char>> = Vec::new();
            r.push(line);
            r
        } else {
            let rest = split_lines_from(s, e + 1);
            let mut r = rest;
            r.insert(0, line);
            proof {
                assert(r@[0] == line);
                assert(r@.drop_first() =~= rest@);
                let ls = spec_lines_from(s@, i as nat);
                assert forall|x: int| 0 <= x < r@.len() implies r@[x]@ == ls[x] by {
                    if x > 0 {
                        assert(r@[x] == rest@[x - 1]);
                        assert(ls[x] == spec_lines_from(s@, (e + 1) as nat)[x - 1]);
                    }
                }
            }
            r
        }
    }
}

/// Finds the first line declaring a language, mirroring
/// `first_hashlang_idx`.
fn find_hashlang(lines: &Vec<Vec<char>>, i: usize, Ghost(ls): Ghost<Seq<Seq<char>>>) -> (r: Option<
    (usize, String),
>)
    requires
        i <= lines@.len(),
        lines@.len() == ls.len(),
        forall|x: int| 0 <= x < ls.len() ==> lines@[x]@ == ls[x],
    ensures
        match first_hashlang_idx(ls, i as nat) {
            Some(x) => r matches Some(p) && p.0 as nat == x && (hashlang_of_line(ls[x as int])
                matches Some(v) && p.1@ == v),
            None => r is None,
        },
    decreases lines@.len() - i,
{
    if i >= lines.len() {
        None
    } else {
        match hashlang_of_chars(&lines[i]) {
            Some(l) => Some((i, l)),
            None => find_hashlang(lines, i + 1, Ghost(ls)),
        }
    }
}

/// Joins the lines from index `i` on with `\n`, mirroring `join_lines`.
fn join_from(lines: &Vec<Vec<char>>, i: usize, Ghost(ls): Ghost<Seq<Seq<char>>>) -> (r: String)
    requires
        i <= lines@.len(),
        lines@.len() == ls.len(),
        forall|x: int| 0 <= x < ls.len() ==> lines@[x]@ == ls[x],
    ensures
        r@ == join_lines(ls.skip(i as int)),
    decreases lines@.len() - i,
{
    if i >= lines.len() {
        proof {
            assert(ls.skip(i as int) =~= Seq::<Seq<char>>::empty());
        }
        String::new()
    } else if i == lines.len() - 1 {
        let l = &lines[i];
        let r = chars_to_string(l, 0, l.len());
        proof {
            assert(l@.subrange(0, l@.len() as int) =~= l@);
            assert(ls.skip(i as int) =~= seq![ls[i as int]]);
        }
        r
    } else {
        let l = &lines[i];
        let mut r = chars_to_string(l, 0, l.len());
        push_char(&mut r, '\n');
        let rest = join_from(lines, i + 1, Ghost(ls));
        r.append(rest.as_str());
        proof {
            assert(l@.subrange(0, l@.len() as int) =~= l@);
            let v = ls.skip(i as int);
            assert(v.len() >= 2);
            assert(v[0] == ls[i as int]);
            assert(v.drop_first() =~= ls.skip(i + 1 as int));
            assert(r@ == ls[i as int] + seq!['\n'] + join_lines(ls.skip(i + 1 as int)));
        }
        r
    }
}

/// Finds the first `#lang`/`#reader` line of the buffer; when one exists,
/// removes that line, rejoins the remaining lines with `\n`, stores the
/// result back in the buffer, and returns the declared language. Otherwise
/// leaves the buffer unchanged.
pub fn strip_hashlang(buf: &mut String) -> (r: Option<String>)
    ensures
        match first_hashlang_idx(spec_lines(old(buf)@), 0) {
            Some(x) => r matches Some(l) && (hashlang_of_line(spec_lines(old(buf)@)[x as int])
                matches Some(v) && l@ == v) && final(buf)@ == join_lines(
                spec_lines(old(buf)@).remove(x as int),
            ),
            None => r is None && final(buf)@ == old(buf)@,
        },
{
    let chars = to_chars(buf.as_str());
    let lines = split_lines_from(&chars, 0);
    let ghost ls = spec_lines(old(buf)@);
    proof {
        lemma_first_hashlang_bounds(ls, 0);
    }
    match find_hashlang(&lines, 0, Ghost(ls)) {
        Some((idx, l)) => {
            let ghost entry = lines@;
            let mut lines2 = lines;
            lines2.remove(idx);
            proof {
                let ls2 = ls.remove(idx as int);
                ls.remove_ensures(idx as int);
                entry.remove_ensures(idx as int);
                assert(lines2@ == entry.remove(idx as int));
                assert forall|x: int| 0 <= x < ls2.len() implies lines2@[x]@ == ls2[x] by {
                    if x < idx {
                        assert(lines2@[x] == entry[x]);
                        assert(ls2[x] == ls[x]);
                    } else {
                        assert(lines2@[x] == entry[x + 1]);
                        assert(ls2[x] == ls[x + 1]);
                    }
                }
            }
            let joined = join_from(&lines2, 0, Ghost(ls.remove(idx as int)));
            proof {
                assert(ls.remove(idx as int).skip(0) =~= ls.remove(idx as int));
            }
            *buf = joined;
            Some(l)
        },
        None => None,
    }
}

} // verus!
