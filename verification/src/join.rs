//! Aggressive newline joining for minified bash output.
//!
//! All lines collapse onto as few physical lines as possible while
//! heredocs stay verbatim, `case` blocks keep the newlines bash demands,
//! multi-line arrays and quoted strings are stitched back together, and a
//! final per-line pass turns any accidental `then;`/`do;`/`else;` into
//! `then `/`do `/`else ` — skipping heredoc bodies, which must come
//! through byte for byte.  Nested `case` bodies are re-joined
//! recursively, bounded by an explicit fuel that starts at the input
//! length.

use vstd::prelude::*;

verus! {

use crate::text::{
    is_blank_char, is_space_char, is_word_char, run_len, lemma_run_len, match_at, matches_at,
    space_char, word_char, count_leading_blanks, leading_blanks, lemma_leading_blanks,
    trailing_spaces, lemma_trailing_spaces, count_trailing_spaces, trim_spec, trim_chars,
    str_to_chars, chars_to_string, subrange_chars, extend_chars, extend_str, space_run_at,
    strings_view, vecs_view, join_lines_spec,
};
use crate::strip::{heredoc_delim_spec, heredoc_delim, split_lines_spec, split_lines};
use crate::flatten::{rtrim, rtrim_chars};
use crate::quote::{open_quotes, QuoteTracker};

// -- Small classifiers -----------------------------------------------------------

/// Leading whitespace removed.
pub open spec fn lstrip(s: Seq<char>) -> Seq<char> {
    let a = run_len(s, 0, |c: char| is_space_char(c));
    if 0 <= a <= s.len() {
        s.subrange(a, s.len() as int)
    } else {
        s
    }
}

/// Executable `lstrip`.
pub fn lstrip_chars(v: &Vec<char>) -> (r: Vec<char>)
    ensures
        r@ == lstrip(v@),
{
    let a = space_run_at(v, 0);
    subrange_chars(v, a, v.len())
}

/// The line opens a `case` block: whitespace, `case`, then a boundary.
pub open spec fn is_case_start(s: Seq<char>) -> bool {
    let a = run_len(s, 0, |c: char| is_space_char(c));
    match_at(s, a, "case"@) && (a + 4 == s.len() || (0 <= a + 4 < s.len() && !is_word_char(
        s[a + 4],
    )))
}

/// Somewhere in the line: `esac` followed by whitespace, `;` or the end.
pub open spec fn has_esac(s: Seq<char>, k: int) -> bool
    decreases s.len() - k,
{
    if k < 0 || k + 4 > s.len() {
        false
    } else if match_at(s, k, "esac"@) && (k + 4 == s.len() || is_space_char(s[k + 4]) || s[k + 4]
        == ';') {
        true
    } else {
        has_esac(s, k + 1)
    }
}

/// A case pattern head: non-paren characters then `)`, then blanks, then
/// the rest of the line.
pub open spec fn case_pattern(s: Seq<char>) -> Option<(Seq<char>, Seq<char>)> {
    let k = run_len(s, 0, |c: char| c != '(' && c != ')');
    if k >= 1 && 0 <= k < s.len() && s[k] == ')' {
        let b = k + 1 + run_len(s, k + 1, |c: char| is_blank_char(c));
        if k + 1 <= b <= s.len() {
            Some((s.subrange(0, k + 1), s.subrange(b, s.len() as int)))
        } else {
            None
        }
    } else {
        None
    }
}

/// `=(` with no `)` after it.
pub open spec fn is_array_open(s: Seq<char>, k: int) -> bool
    decreases s.len() - k,
{
    if k < 0 || k + 1 >= s.len() {
        false
    } else if s[k] == '=' && s[k + 1] == '(' && !has_char(s, k + 2, ')') {
        true
    } else {
        is_array_open(s, k + 1)
    }
}

/// Some occurrence of `c` at or after `from`.
pub open spec fn has_char(s: Seq<char>, from: int, c: char) -> bool
    decreases s.len() - from,
{
    if from < 0 || from >= s.len() {
        false
    } else if s[from] == c {
        true
    } else {
        has_char(s, from + 1, c)
    }
}

/// A line of nothing but whitespace.
pub open spec fn is_all_space(s: Seq<char>) -> bool {
    run_len(s, 0, |c: char| is_space_char(c)) == s.len()
}

/// The rtrimmed line ends with one of the continuation operators.
pub open spec fn ends_with_operator(s: Seq<char>) -> bool {
    let t = rtrim(s);
    t.len() > 0 && (t[t.len() - 1] == '|' || t[t.len() - 1] == '&' || t[t.len() - 1] == '{'
        || t[t.len() - 1] == '(' || t[t.len() - 1] == ';')
}

/// The rtrimmed line ends with `then`, `do` or `else`.
pub open spec fn ends_with_keyword(s: Seq<char>) -> bool {
    let t = rtrim(s);
    ends_with(t, "then"@) || ends_with(t, "do"@) || ends_with(t, "else"@)
}

/// A keyword-ending line rejoined: the whitespace run before the trailing
/// `then`/`do`/`else` is removed and a single space follows the keyword.
pub open spec fn kw_rejoin(t: Seq<char>) -> Seq<char> {
    if ends_with(t, "then"@) {
        rtrim(t.subrange(0, t.len() - 4)) + "then"@ + seq![' ']
    } else if ends_with(t, "do"@) {
        rtrim(t.subrange(0, t.len() - 2)) + "do"@ + seq![' ']
    } else if ends_with(t, "else"@) {
        rtrim(t.subrange(0, t.len() - 4)) + "else"@ + seq![' ']
    } else {
        t + seq![' ']
    }
}

/// Sequence suffix test.
pub open spec fn ends_with(s: Seq<char>, w: Seq<char>) -> bool {
    s.len() >= w.len() && s.subrange(s.len() - w.len(), s.len() as int) == w
}

/// Executable suffix test.
pub fn ends_with_exec(v: &Vec<char>, w: &Vec<char>) -> (r: bool)
    ensures
        r == ends_with(v@, w@),
{
    if v.len() < w.len() {
        return false;
    }
    let r = matches_at(v, v.len() - w.len(), w);
    proof {
        assert(v@.subrange(v@.len() - w@.len(), v@.len() as int) =~= v@.subrange(
            (v@.len() - w@.len()) as int,
            v@.len() - w@.len() + w@.len() as int,
        ));
    }
    r
}

/// Executable `has_char`.
pub fn has_char_exec(v: &Vec<char>, from: usize, c: char) -> (r: bool)
    requires
        from <= v@.len(),
    ensures
        r == has_char(v@, from as int, c),
    decreases v@.len() - from,
{
    if from >= v.len() {
        return false;
    }
    if v[from] == c {
        return true;
    }
    has_char_exec(v, from + 1, c)
}

/// Executable `has_esac`.
fn has_esac_exec(v: &Vec<char>, k: usize) -> (r: bool)
    requires
        k <= v@.len(),
    ensures
        r == has_esac(v@, k as int),
    decreases v@.len() - k,
{
    proof {
        reveal_strlit("esac");
    }
    let n = v.len();
    if n - k < 4 {
        return false;
    }
    let kw = str_to_chars("esac");
    if matches_at(v, k, &kw) && (k + 4 == n || space_char(v[k + 4]) || v[k + 4] == ';') {
        return true;
    }
    has_esac_exec(v, k + 1)
}

/// Executable `is_array_open`.
fn is_array_open_exec(v: &Vec<char>, k: usize) -> (r: bool)
    requires
        k <= v@.len(),
    ensures
        r == is_array_open(v@, k as int),
    decreases v@.len() - k,
{
    let n = v.len();
    if n - k <= 1 {
        return false;
    }
    if v[k] == '=' && v[k + 1] == '(' && !has_char_exec(v, k + 2, ')') {
        return true;
    }
    is_array_open_exec(v, k + 1)
}

/// Executable `is_case_start`.
fn is_case_start_exec(v: &Vec<char>) -> (r: bool)
    ensures
        r == is_case_start(v@),
{
    proof {
        reveal_strlit("case");
    }
    let a = space_run_at(v, 0);
    let kw = str_to_chars("case");
    let n = v.len();
    matches_at(v, a, &kw) && (a + 4 == n || (a + 4 < n && !word_char(v[a + 4])))
}

/// Executable `case_pattern`.
fn case_pattern_exec(v: &Vec<char>) -> (r: Option<(Vec<char>, Vec<char>)>)
    ensures
        match r {
            Some(p) => case_pattern(v@) == Some((p.0@, p.1@)),
            None => case_pattern(v@) is None,
        },
{
    let n = v.len();
    let mut k: usize = 0;
    while k < n && v[k] != '(' && v[k] != ')'
        invariant
            k <= n == v@.len(),
            run_len(v@, 0, |c: char| c != '(' && c != ')') == k + run_len(
                v@,
                k as int,
                |c: char| c != '(' && c != ')',
            ),
        decreases n - k,
    {
        k += 1;
    }
    proof {
        assert(run_len(v@, k as int, |c: char| c != '(' && c != ')') == 0 || k == n);
        if k == n {
            lemma_run_len(v@, k as int, |c: char| c != '(' && c != ')');
        }
    }
    if k >= 1 && k < n && v[k] == ')' {
        let bl = crate::text::blank_run_at(v, k + 1);
        let b = k + 1 + bl;
        let head = subrange_chars(v, 0, k + 1);
        let rest = subrange_chars(v, b, n);
        Some((head, rest))
    } else {
        None
    }
}


// -- Double-semicolon trimming ------------------------------------------------------

/// Whether `;;` occurs at or after `k`.
pub open spec fn has_dsemi(s: Seq<char>, k: int) -> bool
    decreases s.len() - k,
{
    if k < 0 || k + 1 >= s.len() {
        false
    } else if s[k] == ';' && s[k + 1] == ';' {
        true
    } else {
        has_dsemi(s, k + 1)
    }
}

/// Executable `has_dsemi`.
fn has_dsemi_exec(v: &Vec<char>, k: usize) -> (r: bool)
    requires
        k <= v@.len(),
    ensures
        r == has_dsemi(v@, k as int),
    decreases v@.len() - k,
{
    let n = v.len();
    if n - k <= 1 {
        return false;
    }
    if v[k] == ';' && v[k + 1] == ';' {
        return true;
    }
    has_dsemi_exec(v, k + 1)
}

/// Remove a trailing `;;` together with the whitespace around it.
pub open spec fn strip_trailing_dsemi(s: Seq<char>) -> Seq<char> {
    let e = s.len() - trailing_spaces(s);
    if e >= 2 && s[e - 1] == ';' && s[e - 2] == ';' {
        rtrim(s.subrange(0, e - 2))
    } else {
        s
    }
}

/// Executable `strip_trailing_dsemi`.
fn strip_trailing_dsemi_exec(v: &Vec<char>) -> (r: Vec<char>)
    ensures
        r@ == strip_trailing_dsemi(v@),
{
    let t = count_trailing_spaces(v);
    let e = v.len() - t;
    if e >= 2 && v[e - 1] == ';' && v[e - 2] == ';' {
        let head = subrange_chars(v, 0, e - 2);
        rtrim_chars(&head)
    } else {
        let mut copy: Vec<char> = Vec::new();
        extend_chars(&mut copy, v);
        proof {
            assert(copy@ =~= v@);
        }
        copy
    }
}

/// Remove every trailing `;`.
pub open spec fn strip_trailing_semis(s: Seq<char>) -> Seq<char>
    decreases s.len(),
{
    if s.len() > 0 && s[s.len() - 1] == ';' {
        strip_trailing_semis(s.drop_last())
    } else {
        s
    }
}

/// Executable `strip_trailing_semis`.
fn strip_trailing_semis_exec(v: Vec<char>) -> (r: Vec<char>)
    ensures
        r@ == strip_trailing_semis(v@),
    decreases v@.len(),
{
    let mut v = v;
    if v.len() > 0 && v[v.len() - 1] == ';' {
        v.pop();
        return strip_trailing_semis_exec(v);
    }
    v
}

// -- The scan -----------------------------------------------------------------------

/// Copy heredoc lines verbatim up to and including the delimiter line.
pub open spec fn copy_heredoc(lines: Seq<Seq<char>>, i: int, d: Seq<char>) -> (Seq<char>, int)
    decreases lines.len() - i,
{
    if i < 0 || i >= lines.len() {
        (Seq::empty(), i)
    } else {
        let l = lines[i];
        if trim_spec(l) == d {
            (l + seq!['\n'], i + 1)
        } else {
            let rec = copy_heredoc(lines, i + 1, d);
            (l + seq!['\n'] + rec.0, rec.1)
        }
    }
}

/// Collect a case-pattern body until a line containing `;;`.
pub open spec fn collect_body(lines: Seq<Seq<char>>, i: int, acc: Seq<char>) -> (Seq<char>, int)
    decreases lines.len() - i,
{
    if i < 0 || i >= lines.len() {
        (acc, i)
    } else {
        let t = trim_spec(lines[i]);
        let acc2 = acc + seq!['\n'] + t;
        if has_dsemi(t, 0) {
            (acc2, i + 1)
        } else {
            collect_body(lines, i + 1, acc2)
        }
    }
}

/// The newline-concatenation idiom emitted between the pieces of a
/// multi-line quoted string: quote, `$'\n'`, quote.
pub open spec fn nl_idiom(q: char) -> Seq<char> {
    seq![q, '$', '\'', '\\', 'n', '\'', q]
}

/// Stitch the rest of a multi-line quoted string back together.
pub open spec fn copy_quoted(lines: Seq<Seq<char>>, i: int, q: char) -> (Seq<char>, int)
    decreases lines.len() - i,
{
    if i < 0 || i >= lines.len() {
        (Seq::empty(), i)
    } else {
        let l = lines[i];
        if has_char(l, 0, q) {
            (l, i + 1)
        } else {
            let rec = copy_quoted(lines, i + 1, q);
            (l + nl_idiom(q) + rec.0, rec.1)
        }
    }
}


/// The next scan index: past `i`, at most the line count.
pub open spec fn clamp_next(ni: int, i: int, len: int) -> int {
    if ni > len {
        len
    } else if ni > i {
        ni
    } else {
        i + 1
    }
}

/// One joined case block, pattern by pattern, until `esac` or the end.
pub open spec fn case_loop(lines: Seq<Seq<char>>, i: int, fuel: nat) -> (Seq<char>, int)
    decreases fuel, 0int, lines.len() - i,
{
    if i < 0 || i >= lines.len() {
        (Seq::empty(), i)
    } else {
        let l = trim_spec(lines[i]);
        if l.len() == 0 {
            let rec = case_loop(lines, i + 1, fuel);
            (rec.0, rec.1)
        } else if has_esac(l, 0) {
            (rtrim(l) + seq![';'], i + 1)
        } else {
            match case_pattern(l) {
                Some(pb) => {
                    let collected = if has_dsemi(pb.1, 0) {
                        (pb.1, i + 1)
                    } else {
                        collect_body(lines, i + 1, pb.1)
                    };
                    let body = strip_trailing_dsemi(collected.0);
                    let joined = if fuel > 0 {
                        strip_trailing_semis(join_str(body, (fuel - 1) as nat))
                    } else {
                        strip_trailing_semis(body)
                    };
                    let nj = clamp_next(collected.1, i, lines.len() as int);
                    let rec = case_loop(lines, nj, fuel);
                    (pb.0 + joined + seq![';', ';', '\n'] + rec.0, rec.1)
                },
                None => {
                    let rec = case_loop(lines, i + 1, fuel);
                    (rec.0, rec.1)
                },
            }
        }
    }
}

/// The main scan over the split lines.
pub open spec fn join_scan(lines: Seq<Seq<char>>, i: int, fuel: nat) -> Seq<char>
    decreases fuel, 0int, lines.len() - i,
{
    if i < 0 || i >= lines.len() {
        Seq::empty()
    } else {
        let l = lstrip(lines[i]);
        if heredoc_delim_spec(l) is Some {
            let hd = copy_heredoc(lines, i + 1, heredoc_delim_spec(l).unwrap());
            let nj = clamp_next(hd.1, i, lines.len() as int);
            rtrim(l) + seq!['\n'] + hd.0 + join_scan(lines, nj, fuel)
        } else if is_case_start(l) {
            let cl = case_loop(lines, i + 1, fuel);
            let nj = clamp_next(cl.1, i, lines.len() as int);
            rtrim(l) + seq!['\n'] + cl.0 + join_scan(lines, nj, fuel)
        } else if is_array_open(l, 0) {
            let ar = copy_array(lines, i + 1);
            let nj = clamp_next(ar.1, i, lines.len() as int);
            rtrim(l) + ar.0 + seq![';'] + join_scan(lines, nj, fuel)
        } else if is_all_space(l) {
            join_scan(lines, i + 1, fuel)
        } else if l.len() > 0 && l[l.len() - 1] == '\\' {
            l.drop_last() + join_scan(lines, i + 1, fuel)
        } else if ends_with_operator(l) {
            rtrim(l) + seq![' '] + join_scan(lines, i + 1, fuel)
        } else if l.len() > 0 && l[0] == ')' {
            rtrim(l) + seq![';'] + join_scan(lines, i + 1, fuel)
        } else if ends_with_keyword(l) {
            kw_rejoin(rtrim(l)) + join_scan(lines, i + 1, fuel)
        } else if open_quotes(l).0 || open_quotes(l).1 {
            let q = if open_quotes(l).0 {
                '\''
            } else {
                '"'
            };
            let cq = copy_quoted(lines, i + 1, q);
            let nj = clamp_next(cq.1, i, lines.len() as int);
            l + nl_idiom(q) + cq.0 + seq![';'] + join_scan(lines, nj, fuel)
        } else {
            rtrim(l) + seq![';'] + join_scan(lines, i + 1, fuel)
        }
    }
}

/// Join a multi-line array literal with single spaces.
pub open spec fn copy_array(lines: Seq<Seq<char>>, i: int) -> (Seq<char>, int)
    decreases lines.len() - i,
{
    if i < 0 || i >= lines.len() {
        (Seq::empty(), i)
    } else {
        let l = lines[i];
        let piece = seq![' '] + trim_spec(l);
        if ends_with(rtrim(l), seq![')']) {
            (piece, i + 1)
        } else {
            let rec = copy_array(lines, i + 1);
            (piece + rec.0, rec.1)
        }
    }
}

/// Join a whole text: split it and scan.
pub open spec fn join_str(s: Seq<char>, fuel: nat) -> Seq<char>
    decreases fuel, 1int, 0int,
{
    join_scan(split_lines_spec(s), 0, fuel)
}


// -- Executable scan ------------------------------------------------------------------

/// Executable `copy_heredoc`.
fn copy_heredoc_exec(lines: &Vec<Vec<char>>, i: usize, d: &Vec<char>) -> (r: (Vec<char>, usize))
    requires
        i <= lines@.len(),
    ensures
        copy_heredoc(vecs_view(lines@), i as int, d@) == (r.0@, r.1 as int),
        i <= r.1 <= lines@.len(),
    decreases lines@.len() - i,
{
    let n = lines.len();
    if i >= n {
        let out: Vec<char> = Vec::new();
        proof {
            assert(copy_heredoc(vecs_view(lines@), i as int, d@).0 =~= out@);
        }
        return (out, i);
    }
    proof {
        assert(vecs_view(lines@)[i as int] == lines@[i as int]@);
    }
    let l = &lines[i];
    let t = trim_chars(l);
    let eq = eq_chars_j(&t, d);
    let mut out: Vec<char> = Vec::new();
    extend_chars(&mut out, l);
    out.push('\n');
    if eq {
        proof {
            assert(out@ =~= lines@[i as int]@ + seq!['\n']);
        }
        return (out, i + 1);
    }
    let rec = copy_heredoc_exec(lines, i + 1, d);
    extend_chars(&mut out, &rec.0);
    proof {
        assert(out@ =~= lines@[i as int]@ + seq!['\n'] + rec.0@);
    }
    (out, rec.1)
}

/// Executable equality of two character vectors.
fn eq_chars_j(a: &Vec<char>, b: &Vec<char>) -> (r: bool)
    ensures
        r == (a@ == b@),
{
    if a.len() != b.len() {
        return false;
    }
    let r = matches_at(a, 0, b);
    proof {
        assert(a@.subrange(0, b@.len() as int) =~= a@);
        if r {
            assert(a@ == b@);
        } else {
            assert(a@ != b@);
        }
    }
    r
}

/// Executable `collect_body`.
fn collect_body_exec(lines: &Vec<Vec<char>>, i: usize, acc: Vec<char>) -> (r: (Vec<char>, usize))
    requires
        i <= lines@.len(),
    ensures
        collect_body(vecs_view(lines@), i as int, acc@) == (r.0@, r.1 as int),
        i <= r.1 <= lines@.len(),
    decreases lines@.len() - i,
{
    let n = lines.len();
    if i >= n {
        return (acc, i);
    }
    proof {
        assert(vecs_view(lines@)[i as int] == lines@[i as int]@);
    }
    let t = trim_chars(&lines[i]);
    let ghost acc0 = acc@;
    let mut acc2 = acc;
    acc2.push('\n');
    extend_chars(&mut acc2, &t);
    proof {
        assert(acc2@ =~= acc0 + seq!['\n'] + trim_spec(lines@[i as int]@));
    }
    if has_dsemi_exec(&t, 0) {
        return (acc2, i + 1);
    }
    collect_body_exec(lines, i + 1, acc2)
}

/// Executable `copy_quoted`.
fn copy_quoted_exec(lines: &Vec<Vec<char>>, i: usize, q: char) -> (r: (Vec<char>, usize))
    requires
        i <= lines@.len(),
    ensures
        copy_quoted(vecs_view(lines@), i as int, q) == (r.0@, r.1 as int),
        i <= r.1 <= lines@.len(),
    decreases lines@.len() - i,
{
    let n = lines.len();
    if i >= n {
        let out: Vec<char> = Vec::new();
        proof {
            assert(copy_quoted(vecs_view(lines@), i as int, q).0 =~= out@);
        }
        return (out, i);
    }
    proof {
        assert(vecs_view(lines@)[i as int] == lines@[i as int]@);
    }
    let l = &lines[i];
    if has_char_exec(l, 0, q) {
        let mut out: Vec<char> = Vec::new();
        extend_chars(&mut out, l);
        proof {
            assert(out@ =~= lines@[i as int]@);
        }
        return (out, i + 1);
    }
    let rec = copy_quoted_exec(lines, i + 1, q);
    let mut out: Vec<char> = Vec::new();
    extend_chars(&mut out, l);
    push_nl_idiom(&mut out, q);
    extend_chars(&mut out, &rec.0);
    proof {
        assert(out@ =~= lines@[i as int]@ + nl_idiom(q) + rec.0@);
    }
    (out, rec.1)
}

/// Append the quote / `$'\n'` / quote idiom.
fn push_nl_idiom(out: &mut Vec<char>, q: char)
    ensures
        final(out)@ == old(out)@ + nl_idiom(q),
{
    out.push(q);
    out.push('$');
    out.push('\'');
    out.push('\\');
    out.push('n');
    out.push('\'');
    out.push(q);
    proof {
        assert(out@ =~= old(out)@ + nl_idiom(q));
    }
}

/// Executable `copy_array`.
fn copy_array_exec(lines: &Vec<Vec<char>>, i: usize) -> (r: (Vec<char>, usize))
    requires
        i <= lines@.len(),
    ensures
        copy_array(vecs_view(lines@), i as int) == (r.0@, r.1 as int),
        i <= r.1 <= lines@.len(),
    decreases lines@.len() - i,
{
    let n = lines.len();
    if i >= n {
        let out: Vec<char> = Vec::new();
        proof {
            assert(copy_array(vecs_view(lines@), i as int).0 =~= out@);
        }
        return (out, i);
    }
    proof {
        assert(vecs_view(lines@)[i as int] == lines@[i as int]@);
    }
    let l = &lines[i];
    let t = trim_chars(l);
    let mut out: Vec<char> = Vec::new();
    out.push(' ');
    extend_chars(&mut out, &t);
    proof {
        assert(out@ =~= seq![' '] + trim_spec(lines@[i as int]@));
    }
    let rt = rtrim_chars(l);
    let close = close_paren_vec();
    if ends_with_exec(&rt, &close) {
        return (out, i + 1);
    }
    let rec = copy_array_exec(lines, i + 1);
    extend_chars(&mut out, &rec.0);
    proof {
        assert(out@ =~= (seq![' '] + trim_spec(lines@[i as int]@)) + rec.0@);
    }
    (out, rec.1)
}

/// A one-element vector holding `)`.
fn close_paren_vec() -> (r: Vec<char>)
    ensures
        r@ == seq![')'],
{
    let mut r: Vec<char> = Vec::new();
    r.push(')');
    proof {
        assert(r@ =~= seq![')']);
    }
    r
}

/// Executable `case_loop`.
fn case_loop_exec(lines: &Vec<Vec<char>>, i: usize, fuel: usize) -> (r: (Vec<char>, usize))
    requires
        i <= lines@.len(),
    ensures
        case_loop(vecs_view(lines@), i as int, fuel as nat) == (r.0@, r.1 as int),
        i <= r.1 <= lines@.len(),
    decreases fuel, 0int, lines@.len() - i,
{
    let n = lines.len();
    if i >= n {
        let out: Vec<char> = Vec::new();
        proof {
            assert(case_loop(vecs_view(lines@), i as int, fuel as nat).0 =~= out@);
        }
        return (out, i);
    }
    proof {
        assert(vecs_view(lines@)[i as int] == lines@[i as int]@);
    }
    let l = trim_chars(&lines[i]);
    if l.len() == 0 {
        return case_loop_exec(lines, i + 1, fuel);
    }
    if has_esac_exec(&l, 0) {
        let mut out = rtrim_chars(&l);
        out.push(';');
        proof {
            assert(out@ =~= rtrim(trim_spec(lines@[i as int]@)) + seq![';']);
        }
        return (out, i + 1);
    }
    match case_pattern_exec(&l) {
        Some((pat, body0)) => {
            let collected: (Vec<char>, usize) = if has_dsemi_exec(&body0, 0) {
                (body0, i + 1)
            } else {
                collect_body_exec(lines, i + 1, body0)
            };
            let body = strip_trailing_dsemi_exec(&collected.0);
            let joined = if fuel > 0 {
                let j = join_str_exec(&body, fuel - 1);
                strip_trailing_semis_exec(j)
            } else {
                strip_trailing_semis_exec(body)
            };
            let nj = if collected.1 > n {
                n
            } else if collected.1 > i {
                collected.1
            } else {
                i + 1
            };
            let rec = case_loop_exec(lines, nj, fuel);
            let mut out: Vec<char> = Vec::new();
            extend_chars(&mut out, &pat);
            extend_chars(&mut out, &joined);
            out.push(';');
            out.push(';');
            out.push('\n');
            extend_chars(&mut out, &rec.0);
            proof {
                assert(out@ =~= pat@ + joined@ + seq![';', ';', '\n'] + rec.0@);
            }
            (out, rec.1)
        },
        None => case_loop_exec(lines, i + 1, fuel),
    }
}

/// Executable `join_scan`.
fn join_scan_exec(lines: &Vec<Vec<char>>, i: usize, fuel: usize) -> (r: Vec<char>)
    requires
        i <= lines@.len(),
    ensures
        r@ == join_scan(vecs_view(lines@), i as int, fuel as nat),
    decreases fuel, 0int, lines@.len() - i,
{
    let n = lines.len();
    if i >= n {
        let out: Vec<char> = Vec::new();
        proof {
            assert(join_scan(vecs_view(lines@), i as int, fuel as nat) =~= out@);
        }
        return out;
    }
    proof {
        assert(vecs_view(lines@)[i as int] == lines@[i as int]@);
    }
    let l = lstrip_chars(&lines[i]);
    if let Some(d) = heredoc_delim(&l) {
        let hd = copy_heredoc_exec(lines, i + 1, &d);
        let nj = if hd.1 > i {
            hd.1
        } else {
            i + 1
        };
        let mut out = rtrim_chars(&l);
        out.push('\n');
        extend_chars(&mut out, &hd.0);
        let tail = join_scan_exec(lines, nj, fuel);
        extend_chars(&mut out, &tail);
        proof {
            assert(out@ =~= rtrim(lstrip(lines@[i as int]@)) + seq!['\n'] + hd.0@ + tail@);
        }
        return out;
    }
    if is_case_start_exec(&l) {
        let cl = case_loop_exec(lines, i + 1, fuel);
        let nj = if cl.1 > i {
            cl.1
        } else {
            i + 1
        };
        let mut out = rtrim_chars(&l);
        out.push('\n');
        extend_chars(&mut out, &cl.0);
        let tail = join_scan_exec(lines, nj, fuel);
        extend_chars(&mut out, &tail);
        proof {
            assert(out@ =~= rtrim(lstrip(lines@[i as int]@)) + seq!['\n'] + cl.0@ + tail@);
        }
        return out;
    }
    if is_array_open_exec(&l, 0) {
        let ar = copy_array_exec(lines, i + 1);
        let nj = if ar.1 > i {
            ar.1
        } else {
            i + 1
        };
        let mut out = rtrim_chars(&l);
        extend_chars(&mut out, &ar.0);
        out.push(';');
        let tail = join_scan_exec(lines, nj, fuel);
        extend_chars(&mut out, &tail);
        proof {
            assert(out@ =~= rtrim(lstrip(lines@[i as int]@)) + ar.0@ + seq![';'] + tail@);
        }
        return out;
    }
    let sp = space_run_at(&l, 0);
    if sp == l.len() {
        return join_scan_exec(lines, i + 1, fuel);
    }
    if l.len() > 0 && l[l.len() - 1] == '\\' {
        let mut out = subrange_chars(&l, 0, l.len() - 1);
        proof {
            assert(out@ =~= lstrip(lines@[i as int]@).drop_last());
        }
        let tail = join_scan_exec(lines, i + 1, fuel);
        extend_chars(&mut out, &tail);
        return out;
    }
    let rt = rtrim_chars(&l);
    if rt.len() > 0 && (rt[rt.len() - 1] == '|' || rt[rt.len() - 1] == '&' || rt[rt.len() - 1]
        == '{' || rt[rt.len() - 1] == '(' || rt[rt.len() - 1] == ';') {
        let mut out = rt;
        out.push(' ');
        let tail = join_scan_exec(lines, i + 1, fuel);
        extend_chars(&mut out, &tail);
        proof {
            assert(out@ =~= rtrim(lstrip(lines@[i as int]@)) + seq![' '] + tail@);
        }
        return out;
    }
    if l.len() > 0 && l[0] == ')' {
        let mut out = rt;
        out.push(';');
        let tail = join_scan_exec(lines, i + 1, fuel);
        extend_chars(&mut out, &tail);
        proof {
            assert(out@ =~= rtrim(lstrip(lines@[i as int]@)) + seq![';'] + tail@);
        }
        return out;
    }
    let then_kw = str_to_chars("then");
    let do_kw = str_to_chars("do");
    let else_kw = str_to_chars("else");
    proof {
        reveal_strlit("then");
        reveal_strlit("do");
        reveal_strlit("else");
    }
    let kw_hit: usize = if ends_with_exec(&rt, &then_kw) {
        4
    } else if ends_with_exec(&rt, &do_kw) {
        2
    } else if ends_with_exec(&rt, &else_kw) {
        5
    } else {
        0
    };
    if kw_hit > 0 {
        let kwlen: usize = if kw_hit == 5 {
            4
        } else {
            kw_hit
        };
        let head = subrange_chars(&rt, 0, rt.len() - kwlen);
        let mut out = rtrim_chars(&head);
        if kw_hit == 4 {
            extend_str(&mut out, "then");
        } else if kw_hit == 2 {
            extend_str(&mut out, "do");
        } else {
            extend_str(&mut out, "else");
        }
        out.push(' ');
        proof {
            let t = rtrim(lstrip(lines@[i as int]@));
            if kw_hit == 4 {
                assert(out@ =~= rtrim(t.subrange(0, t.len() - 4)) + "then"@ + seq![' ']);
            } else if kw_hit == 2 {
                assert(!ends_with(t, "then"@));
                assert(out@ =~= rtrim(t.subrange(0, t.len() - 2)) + "do"@ + seq![' ']);
            } else {
                assert(!ends_with(t, "then"@));
                assert(!ends_with(t, "do"@));
                assert(out@ =~= rtrim(t.subrange(0, t.len() - 4)) + "else"@ + seq![' ']);
            }
            assert(out@ =~= kw_rejoin(t));
        }
        let tail = join_scan_exec(lines, i + 1, fuel);
        extend_chars(&mut out, &tail);
        proof {
            assert(out@ =~= kw_rejoin(rtrim(lstrip(lines@[i as int]@))) + tail@);
        }
        return out;
    }
    let oq = QuoteTracker::chars_have_open_quote(&l);
    if oq.0 || oq.1 {
        let q: char = if oq.0 {
            '\''
        } else {
            '"'
        };
        let cq = copy_quoted_exec(lines, i + 1, q);
        let nj = if cq.1 > i {
            cq.1
        } else {
            i + 1
        };
        let mut out: Vec<char> = Vec::new();
        extend_chars(&mut out, &l);
        push_nl_idiom(&mut out, q);
        extend_chars(&mut out, &cq.0);
        out.push(';');
        let tail = join_scan_exec(lines, nj, fuel);
        extend_chars(&mut out, &tail);
        proof {
            assert(out@ =~= lstrip(lines@[i as int]@) + nl_idiom(q) + cq.0@ + seq![';'] + tail@);
        }
        return out;
    }
    let mut out = rt;
    out.push(';');
    let tail = join_scan_exec(lines, i + 1, fuel);
    extend_chars(&mut out, &tail);
    proof {
        assert(out@ =~= rtrim(lstrip(lines@[i as int]@)) + seq![';'] + tail@);
    }
    out
}

/// Executable `join_str`.
fn join_str_exec(s: &Vec<char>, fuel: usize) -> (r: Vec<char>)
    ensures
        r@ == join_str(s@, fuel as nat),
    decreases fuel, 1int, 0int,
{
    let lines = split_lines(s);
    join_scan_exec(&lines, 0, fuel)
}


// -- Keyword-semicolon fixup -----------------------------------------------------------

/// A `then;`/`do;`/`else;` occurrence at `m`, with a word boundary before it.
pub open spec fn kw_semi_at(s: Seq<char>, m: int, kw: Seq<char>) -> bool {
    &&& (m == 0 || (0 <= m - 1 < s.len() && !is_word_char(s[m - 1])))
    &&& match_at(s, m, kw)
    &&& 0 <= m + kw.len() < s.len() && s[m + kw.len() as int] == ';'
}

/// Any of the three keyword-semicolon shapes at `m`.
pub open spec fn any_kw_semi_at(s: Seq<char>, m: int) -> bool {
    ||| kw_semi_at(s, m, "then"@)
    ||| kw_semi_at(s, m, "do"@)
    ||| kw_semi_at(s, m, "else"@)
}

/// Turn each boundary-preceded `then;`/`do;`/`else;` into `then ` and so on,
/// scanning left to right.
pub open spec fn fix_scan(s: Seq<char>, k: int) -> Seq<char>
    decreases s.len() - k,
{
    if k < 0 || k >= s.len() {
        s
    } else if 0 <= k + 4 < s.len() && kw_semi_at(s, k, "then"@) {
        fix_scan(s.update(k + 4, ' '), k + 5)
    } else if 0 <= k + 2 < s.len() && kw_semi_at(s, k, "do"@) {
        fix_scan(s.update(k + 2, ' '), k + 3)
    } else if 0 <= k + 4 < s.len() && kw_semi_at(s, k, "else"@) {
        fix_scan(s.update(k + 4, ' '), k + 5)
    } else {
        fix_scan(s, k + 1)
    }
}

/// Executable `fix_scan`.
fn fix_scan_exec(v: Vec<char>, k: usize) -> (r: Vec<char>)
    ensures
        r@ == fix_scan(v@, k as int),
    decreases v@.len() - k,
{
    proof {
        reveal_strlit("then");
        reveal_strlit("do");
        reveal_strlit("else");
    }
    let n = v.len();
    if k >= n {
        return v;
    }
    let then_kw = str_to_chars("then");
    let do_kw = str_to_chars("do");
    let else_kw = str_to_chars("else");
    let bnd = k == 0 || !crate::text::word_char(v[k - 1]);
    if bnd && matches_at(&v, k, &then_kw) && n - k > 4 && v[k + 4] == ';' {
        let mut v2 = v;
        v2.set(k + 4, ' ');
        return fix_scan_exec(v2, k + 5);
    }
    if bnd && matches_at(&v, k, &do_kw) && n - k > 2 && v[k + 2] == ';' {
        let mut v2 = v;
        v2.set(k + 2, ' ');
        return fix_scan_exec(v2, k + 3);
    }
    if bnd && matches_at(&v, k, &else_kw) && n - k > 4 && v[k + 4] == ';' {
        let mut v2 = v;
        v2.set(k + 4, ' ');
        return fix_scan_exec(v2, k + 5);
    }
    proof {
        if kw_semi_at(v@, k as int, "then"@) {
            assert(false);
        }
        if kw_semi_at(v@, k as int, "do"@) {
            assert(false);
        }
        if kw_semi_at(v@, k as int, "else"@) {
            assert(false);
        }
    }
    fix_scan_exec(v, k + 1)
}

/// After the fixup no keyword-semicolon shape is left anywhere.
pub proof fn lemma_fix_scan_clean(s: Seq<char>, k: int)
    requires
        0 <= k <= s.len(),
        forall|m: int| 0 <= m < k ==> !any_kw_semi_at(s, m),
    ensures
        forall|m: int| 0 <= m ==> !any_kw_semi_at(fix_scan(s, k), m),
    decreases s.len() - k,
{
    reveal_strlit("then");
    reveal_strlit("do");
    reveal_strlit("else");
    if k >= s.len() {
        assert(fix_scan(s, k) == s);
        assert forall|m: int| 0 <= m implies !any_kw_semi_at(s, m) by {
            if m >= k && any_kw_semi_at(s, m) {
                assert(m + 2 < s.len());
                assert(false);
            }
        }
    } else {
        let hit_then = 0 <= k + 4 < s.len() && kw_semi_at(s, k, "then"@);
        let hit_do = !hit_then && 0 <= k + 2 < s.len() && kw_semi_at(s, k, "do"@);
        let hit_else = !hit_then && !hit_do && 0 <= k + 4 < s.len() && kw_semi_at(s, k, "else"@);
        if hit_then || hit_do || hit_else {
            let w: int = if hit_do {
                2
            } else {
                4
            };
            let s2 = s.update(k + w, ' ');
            assert forall|m: int| 0 <= m < k + w + 1 implies !any_kw_semi_at(s2, m) by {
                lemma_no_kw_after_update(s, k, w, m);
            }
            lemma_fix_scan_clean(s2, k + w + 1);
            assert(fix_scan(s, k) == fix_scan(s2, k + w + 1));
        } else {
            assert forall|m: int| 0 <= m < k + 1 implies !any_kw_semi_at(s, m) by {}
            lemma_fix_scan_clean(s, k + 1);
            assert(fix_scan(s, k) == fix_scan(s, k + 1));
        }
    }
}

/// Blanking the semicolon at `k + w` leaves no keyword-semicolon shape at
/// any position up to and including the end of the blanked shape.
proof fn lemma_no_kw_after_update(s: Seq<char>, k: int, w: int, m: int)
    requires
        0 <= k < s.len(),
        w == 4 || w == 2,
        0 <= k + w < s.len(),
        s[k + w] == ';',
        w == 4 ==> (s.subrange(k, k + 4) == "then"@ || s.subrange(k, k + 4) == "else"@),
        w == 2 ==> s.subrange(k, k + 2) == "do"@,
        forall|p: int| 0 <= p < k ==> !any_kw_semi_at(s, p),
        0 <= m < k + w + 1,
    ensures
        !any_kw_semi_at(s.update(k + w, ' '), m),
{
    reveal_strlit("then");
    reveal_strlit("do");
    reveal_strlit("else");
    let s2 = s.update(k + w, ' ');
    if any_kw_semi_at(s2, m) {
        let kwlen: int = if kw_semi_at(s2, m, "then"@) {
            4
        } else if kw_semi_at(s2, m, "do"@) {
            2
        } else {
            4
        };
        let sc = m + kwlen;
        assert(sc < s2.len() && s2[sc] == ';');
        if sc == k + w {
            assert(s2[sc] == ' ');
            assert(false);
        } else if sc < k {
            // the whole shape already stood in s before k
            assert(s2[m + kwlen] == s[m + kwlen]);
            if kw_semi_at(s2, m, "then"@) {
                assert(s.subrange(m, m + 4) =~= s2.subrange(m, m + 4));
                assert(kw_semi_at(s, m, "then"@));
            } else if kw_semi_at(s2, m, "do"@) {
                assert(s.subrange(m, m + 2) =~= s2.subrange(m, m + 2));
                assert(kw_semi_at(s, m, "do"@));
            } else {
                assert(s.subrange(m, m + 4) =~= s2.subrange(m, m + 4));
                assert(kw_semi_at(s, m, "else"@));
            }
            assert(any_kw_semi_at(s, m));
            assert(m < k);
            assert(false);
        } else if sc > k + w {
            // the blank landed inside the shape's own keyword letters
            assert(m <= k + w && k + w < sc);
            if kw_semi_at(s2, m, "then"@) {
                assert(s2.subrange(m, m + 4) == "then"@);
                assert(s2[k + w] == "then"@[k + w - m]);
            } else if kw_semi_at(s2, m, "do"@) {
                assert(s2.subrange(m, m + 2) == "do"@);
                assert(s2[k + w] == "do"@[k + w - m]);
            } else {
                assert(s2.subrange(m, m + 4) == "else"@);
                assert(s2[k + w] == "else"@[k + w - m]);
            }
            assert(s2[k + w] == ' ');
            assert(false);
        } else {
            // the shape's semicolon would sit inside the keyword letters
            assert(k <= sc < k + w);
            assert(s2[sc] == s[sc]);
            if w == 4 {
                if s.subrange(k, k + 4) == "then"@ {
                    assert(s[sc] == "then"@[sc - k]);
                } else {
                    assert(s[sc] == "else"@[sc - k]);
                }
            } else {
                assert(s[sc] == "do"@[sc - k]);
            }
            assert(s[sc] != ';');
            assert(false);
        }
    }
}

// -- Public entry ---------------------------------------------------------------------

/// Split on every `\n`, keeping empty pieces, so that rejoining with
/// `\n` restores the text byte for byte.
pub open spec fn split_keep(s: Seq<char>) -> Seq<Seq<char>>
    decreases s.len(),
{
    let k = run_len(s, 0, |c: char| c != '\n');
    if 0 <= k < s.len() {
        seq![s.subrange(0, k)] + split_keep(s.subrange(k + 1, s.len() as int))
    } else {
        seq![s]
    }
}

/// `split_keep` always yields at least one piece.
proof fn lemma_split_keep_nonempty(s: Seq<char>)
    ensures
        split_keep(s).len() >= 1,
{
}

/// Rejoining the kept split restores the text byte for byte, so the
/// per-line fixup changes nothing but the lines it fixes.
pub proof fn lemma_split_keep_join(s: Seq<char>)
    ensures
        join_lines_spec(split_keep(s)) == s,
    decreases s.len(),
{
    let k = run_len(s, 0, |c: char| c != '\n');
    lemma_run_len(s, 0, |c: char| c != '\n');
    if 0 <= k < s.len() {
        assert(s[k] == '\n');
        let rest = s.subrange(k + 1, s.len() as int);
        lemma_split_keep_join(rest);
        lemma_split_keep_nonempty(rest);
        let pieces = seq![s.subrange(0, k)] + split_keep(rest);
        assert(pieces.len() >= 2);
        assert(pieces[0] == s.subrange(0, k));
        assert(pieces.subrange(1, pieces.len() as int) =~= split_keep(rest));
        assert(join_lines_spec(pieces) == pieces[0] + seq!['\n'] + join_lines_spec(
            split_keep(rest),
        ));
        assert(s.subrange(0, k) + seq!['\n'] + rest =~= s);
    } else {
        assert(split_keep(s) =~= seq![s]);
    }
}

/// The keyword-semicolon fixup over the joined text's pieces: heredoc
/// bodies pass through byte for byte, every other piece is fixed; a piece
/// that opens a heredoc arms verbatim mode for the following pieces until
/// one equals the delimiter.
pub open spec fn fix_lines_scan(lines: Seq<Seq<char>>, hd: Option<Seq<char>>) -> Seq<Seq<char>>
    decreases lines.len(),
{
    if lines.len() == 0 {
        Seq::empty()
    } else {
        let l = lines[0];
        let rest = lines.subrange(1, lines.len() as int);
        match hd {
            Some(d) => seq![l] + fix_lines_scan(rest, if trim_spec(l) == d {
                None
            } else {
                Some(d)
            }),
            None => seq![fix_scan(l, 0)] + fix_lines_scan(rest, heredoc_delim_spec(l)),
        }
    }
}

/// Every piece the fixup touches comes back free of boundary-preceded
/// `then;`/`do;`/`else;`, and every other piece — a heredoc body — comes
/// back byte for byte.
pub proof fn lemma_fix_lines_clean(lines: Seq<Seq<char>>, hd: Option<Seq<char>>)
    ensures
        fix_lines_scan(lines, hd).len() == lines.len(),
        forall|k: int|
            0 <= k < lines.len() ==> (#[trigger] fix_lines_scan(lines, hd)[k] == lines[k]
                || forall|m: int| 0 <= m ==> !any_kw_semi_at(fix_lines_scan(lines, hd)[k], m)),
    decreases lines.len(),
{
    if lines.len() == 0 {
    } else {
        let l = lines[0];
        let rest = lines.subrange(1, lines.len() as int);
        let out = fix_lines_scan(lines, hd);
        match hd {
            Some(d) => {
                let hd2: Option<Seq<char>> = if trim_spec(l) == d {
                    None
                } else {
                    Some(d)
                };
                lemma_fix_lines_clean(rest, hd2);
                assert forall|k: int|
                    0 <= k < lines.len() implies (#[trigger] out[k] == lines[k] || forall|m: int|
                    0 <= m ==> !any_kw_semi_at(out[k], m)) by {
                    if k > 0 {
                        assert(out[k] == fix_lines_scan(rest, hd2)[k - 1]);
                        assert(lines[k] == rest[k - 1]);
                    }
                }
            },
            None => {
                lemma_fix_lines_clean(rest, heredoc_delim_spec(l));
                lemma_fix_scan_clean(l, 0);
                assert forall|k: int|
                    0 <= k < lines.len() implies (#[trigger] out[k] == lines[k] || forall|m: int|
                    0 <= m ==> !any_kw_semi_at(out[k], m)) by {
                    if k == 0 {
                        assert(out[0] == fix_scan(l, 0));
                    } else {
                        assert(out[k] == fix_lines_scan(rest, heredoc_delim_spec(l))[k - 1]);
                        assert(lines[k] == rest[k - 1]);
                    }
                }
            },
        }
    }
}

/// What joining does to a whole input text: the scan joins the split
/// lines, and the keyword fixup then runs over every physical line of
/// the result except heredoc bodies, which spec demands byte for byte.
pub open spec fn spec_join_newlines(s: Seq<char>) -> Seq<char> {
    join_lines_spec(fix_lines_scan(split_keep(join_str(s, s.len())), None))
}

/// Executable `split_keep`.
fn split_keep_exec(v: &Vec<char>) -> (r: Vec<Vec<char>>)
    ensures
        vecs_view(r@) == split_keep(v@),
    decreases v@.len(),
{
    let n = v.len();
    let mut k: usize = 0;
    while k < n && v[k] != '\n'
        invariant
            k <= n == v@.len(),
            run_len(v@, 0, |c: char| c != '\n') == k + run_len(v@, k as int, |c: char| c != '\n'),
        decreases n - k,
    {
        k += 1;
    }
    proof {
        assert(run_len(v@, k as int, |c: char| c != '\n') == 0 || k == n);
        if k == n {
            lemma_run_len(v@, k as int, |c: char| c != '\n');
        }
    }
    let mut out: Vec<Vec<char>> = Vec::new();
    if k == n {
        let piece = subrange_chars(v, 0, n);
        proof {
            assert(piece@ =~= v@);
        }
        out.push(piece);
        proof {
            assert(vecs_view(out@) =~= split_keep(v@));
        }
        return out;
    }
    let piece = subrange_chars(v, 0, k);
    let tail = subrange_chars(v, k + 1, n);
    let rest = split_keep_exec(&tail);
    out.push(piece);
    let rn = rest.len();
    let mut t: usize = 0;
    while t < rn
        invariant
            rn == rest@.len(),
            t <= rn,
            k == run_len(v@, 0, |c: char| c != '\n'),
            k < n == v@.len(),
            vecs_view(out@) =~= seq![v@.subrange(0, k as int)] + vecs_view(rest@).subrange(
                0,
                t as int,
            ),
        decreases rn - t,
    {
        let ghost before = out@;
        let item = rest[t].clone();
        proof {
            assert(item@ == rest@[t as int]@);
        }
        out.push(item);
        proof {
            assert(vecs_view(out@) =~= vecs_view(before).push(vecs_view(rest@)[t as int]));
            assert(vecs_view(rest@).subrange(0, t + 1) =~= vecs_view(rest@).subrange(
                0,
                t as int,
            ).push(vecs_view(rest@)[t as int]));
        }
        t += 1;
    }
    proof {
        assert(vecs_view(rest@).subrange(0, rn as int) =~= vecs_view(rest@));
        assert(tail@ =~= v@.subrange(k + 1, n as int));
        assert(vecs_view(out@) =~= split_keep(v@));
    }
    out
}

/// Executable heredoc-aware fixup over the pieces.
fn fix_lines_exec(pieces: Vec<Vec<char>>) -> (r: Vec<Vec<char>>)
    ensures
        vecs_view(r@) == fix_lines_scan(vecs_view(pieces@), None),
{
    let n = pieces.len();
    let mut out: Vec<Vec<char>> = Vec::new();
    let mut hd: Option<Vec<char>> = None;
    let mut i: usize = 0;
    proof {
        assert(vecs_view(pieces@).subrange(0, n as int) =~= vecs_view(pieces@));
        assert(vecs_view(out@) + fix_lines_scan(vecs_view(pieces@), None) =~= fix_lines_scan(
            vecs_view(pieces@),
            None,
        ));
    }
    while i < n
        invariant
            n == pieces@.len(),
            i <= n,
            vecs_view(out@) + fix_lines_scan(
                vecs_view(pieces@).subrange(i as int, n as int),
                match hd {
                    Some(d) => Some(d@),
                    None => None,
                },
            ) == fix_lines_scan(vecs_view(pieces@), None),
        decreases n - i,
    {
        let ghost rest = vecs_view(pieces@).subrange(i as int, n as int);
        proof {
            assert(rest[0] == pieces@[i as int]@);
            assert(rest.subrange(1, rest.len() as int) =~= vecs_view(pieces@).subrange(
                i + 1,
                n as int,
            ));
        }
        let line = &pieces[i];
        let mut done_with_hd = false;
        match &hd {
            Some(d) => {
                let ghost before = out@;
                let mut copy: Vec<char> = Vec::new();
                extend_chars(&mut copy, line);
                proof {
                    assert(copy@ =~= line@);
                }
                out.push(copy);
                proof {
                    assert(vecs_view(out@) =~= vecs_view(before).push(line@));
                }
                let t = trim_chars(line);
                let mut eq = t.len() == d.len();
                if eq {
                    eq = matches_at(&t, 0, d);
                    proof {
                        assert(t@.subrange(0, d@.len() as int) =~= t@);
                        if eq {
                            assert(t@ == d@);
                        } else {
                            assert(t@ != d@);
                        }
                    }
                } else {
                    proof {
                        assert(t@ != d@);
                    }
                }
                proof {
                    assert(eq == (trim_spec(pieces@[i as int]@) == d@));
                }
                if eq {
                    done_with_hd = true;
                }
            },
            None => {
                let nd = heredoc_delim(line);
                let mut work: Vec<char> = Vec::new();
                extend_chars(&mut work, line);
                proof {
                    assert(work@ =~= line@);
                }
                let fixed = fix_scan_exec(work, 0);
                let ghost before = out@;
                out.push(fixed);
                proof {
                    assert(vecs_view(out@) =~= vecs_view(before).push(
                        fix_scan(pieces@[i as int]@, 0),
                    ));
                }
                hd = match nd {
                    Some(d) => Some(d),
                    None => None,
                };
            },
        }
        if done_with_hd {
            hd = None;
        }
        proof {
            assert(vecs_view(out@) + fix_lines_scan(
                vecs_view(pieces@).subrange(i + 1, n as int),
                match hd {
                    Some(d) => Some(d@),
                    None => None,
                },
            ) =~= fix_lines_scan(vecs_view(pieces@), None));
        }
        i += 1;
    }
    proof {
        assert(fix_lines_scan(vecs_view(pieces@).subrange(n as int, n as int), match hd {
            Some(d) => Some(d@),
            None => None,
        }) =~= Seq::<Seq<char>>::empty());
        assert(vecs_view(out@) + Seq::<Seq<char>>::empty() =~= vecs_view(out@));
    }
    out
}

/// Rejoin pieces with newlines.
fn join_pieces(pieces: &Vec<Vec<char>>, from: usize) -> (r: Vec<char>)
    requires
        from <= pieces@.len(),
    ensures
        r@ == join_lines_spec(vecs_view(pieces@).subrange(from as int, pieces@.len() as int)),
    decreases pieces@.len() - from,
{
    let n = pieces.len();
    let ghost rest = vecs_view(pieces@).subrange(from as int, n as int);
    let mut out: Vec<char> = Vec::new();
    if from >= n {
        proof {
            assert(out@ =~= join_lines_spec(rest));
        }
        return out;
    }
    proof {
        assert(rest[0] == pieces@[from as int]@);
        assert(rest.subrange(1, rest.len() as int) =~= vecs_view(pieces@).subrange(
            from + 1,
            n as int,
        ));
    }
    extend_chars(&mut out, &pieces[from]);
    if from + 1 >= n {
        proof {
            assert(rest.len() == 1);
            assert(out@ =~= join_lines_spec(rest));
        }
        return out;
    }
    out.push('\n');
    let tail = join_pieces(pieces, from + 1);
    extend_chars(&mut out, &tail);
    proof {
        assert(out@ =~= pieces@[from as int]@ + seq!['\n'] + tail@);
        assert(out@ =~= join_lines_spec(rest));
    }
    out
}

/// Aggressively join newlines in bash source.  Every physical line of
/// the result except a heredoc body is free of boundary-preceded
/// `then;`/`do;`/`else;` (see `lemma_fix_lines_clean`); heredoc bodies
/// come through byte for byte.
pub fn join_newlines(input: &str) -> (r: String)
    ensures
        r@ == spec_join_newlines(input@),
{
    let raw = str_to_chars(input);
    let fuel = raw.len();
    let joined = join_str_exec(&raw, fuel);
    let pieces = split_keep_exec(&joined);
    let fixed = fix_lines_exec(pieces);
    let out = join_pieces(&fixed, 0);
    proof {
        assert(vecs_view(fixed@).subrange(0, fixed@.len() as int) =~= vecs_view(fixed@));
    }
    chars_to_string(&out)
}

} // verus!
