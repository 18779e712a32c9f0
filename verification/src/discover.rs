//! Local-variable discovery for bash scripts.
//!
//! Scans source lines for the binding forms bash offers — plain assignment,
//! `local`/`declare` declarations, `read`, `for`, array-subscript writes and
//! arithmetic pre/post increment — honouring the `# obfus ignore variable`
//! annotation and user-supplied ignore patterns, and returns the names
//! sorted by length descending, then alphabetically.

use vstd::prelude::*;

verus! {

use crate::text::{
    is_blank_char, is_space_char, is_word_char, is_lower_char, is_digit_char, leading_blanks,
    lemma_leading_blanks, run_len, lemma_run_len, match_at, matches_at, blank_char, space_char,
    word_char, count_leading_blanks, space_run_at, trim_spec, trim_chars, str_to_chars,
    chars_to_string, subrange_chars, strings_view, vecs_view,
};
use crate::strip::{is_comment_line, is_blank_line, split_lines_spec, split_lines};
use crate::pattern::{IgnorePattern, pattern_chars, regex_found, regex_valid};

// -- Character classes ---------------------------------------------------------

/// Characters allowed after the first letter of a discovered name.
pub open spec fn is_name_char(c: char) -> bool {
    is_lower_char(c) || is_digit_char(c) || c == '_'
}

/// Executable form of `is_name_char`.
pub fn name_char(c: char) -> (r: bool)
    ensures
        r == is_name_char(c),
{
    let u = c as u32;
    ('a' as u32 <= u && u <= 'z' as u32) || ('0' as u32 <= u && u <= '9' as u32) || c == '_'
}

/// Executable lower-case test.
pub fn lower_char(c: char) -> (r: bool)
    ensures
        r == is_lower_char(c),
{
    let u = c as u32;
    'a' as u32 <= u && u <= 'z' as u32
}

/// Executable run of name characters starting at `i`.
fn name_run_at(v: &Vec<char>, i: usize) -> (r: usize)
    requires
        i <= v@.len(),
    ensures
        r == run_len(v@, i as int, |c: char| is_name_char(c)),
        i + r <= v@.len(),
    decreases v@.len() - i,
{
    let n = v.len();
    if i >= n {
        return 0;
    }
    if !name_char(v[i]) {
        return 0;
    }
    let rest = name_run_at(v, i + 1);
    proof {
        lemma_run_len(v@, i + 1, |c: char| is_name_char(c));
    }
    1 + rest
}

// -- Splitting on unquoted semicolons -------------------------------------------

/// Split on `;` outside quotes, carrying a naive quote state.
pub open spec fn split_q(s: Seq<char>, i: int, start: int, in_s: bool, in_d: bool) -> Seq<
    Seq<char>,
>
    recommends
        0 <= start <= i <= s.len(),
    decreases s.len() - i,
{
    if i < 0 || start < 0 || start > i {
        Seq::empty()
    } else if i >= s.len() {
        seq![s.subrange(start, s.len() as int)]
    } else {
        let c = s[i];
        if c == '\'' && !in_d {
            split_q(s, i + 1, start, !in_s, in_d)
        } else if c == '"' && !in_s {
            split_q(s, i + 1, start, in_s, !in_d)
        } else if c == ';' && !in_s && !in_d {
            seq![s.subrange(start, i)] + split_q(s, i + 1, i + 1, in_s, in_d)
        } else {
            split_q(s, i + 1, start, in_s, in_d)
        }
    }
}

/// The semicolon split of a whole line.
pub open spec fn spec_split_outside_quotes(s: Seq<char>) -> Seq<Seq<char>> {
    split_q(s, 0, 0, false, false)
}

/// Executable mirror of `split_q`.
fn split_q_exec(v: &Vec<char>, i: usize, start: usize, in_s: bool, in_d: bool) -> (r: Vec<
    Vec<char>,
>)
    requires
        start <= i <= v@.len(),
    ensures
        vecs_view(r@) == split_q(v@, i as int, start as int, in_s, in_d),
    decreases v@.len() - i,
{
    let n = v.len();
    if i >= n {
        let seg = subrange_chars(v, start, n);
        let mut out: Vec<Vec<char>> = Vec::new();
        out.push(seg);
        proof {
            assert(vecs_view(out@) =~= split_q(v@, i as int, start as int, in_s, in_d));
        }
        return out;
    }
    let c = v[i];
    if c == '\'' && !in_d {
        split_q_exec(v, i + 1, start, !in_s, in_d)
    } else if c == '"' && !in_s {
        split_q_exec(v, i + 1, start, in_s, !in_d)
    } else if c == ';' && !in_s && !in_d {
        let seg = subrange_chars(v, start, i);
        let rest = split_q_exec(v, i + 1, i + 1, in_s, in_d);
        let mut out: Vec<Vec<char>> = Vec::new();
        out.push(seg);
        let rn = rest.len();
        let mut t: usize = 0;
        while t < rn
            invariant
                rn == rest@.len(),
                t <= rn,
                vecs_view(out@) =~= seq![v@.subrange(start as int, i as int)] + vecs_view(
                    rest@,
                ).subrange(0, t as int),
            decreases rn - t,
        {
            let ghost before = out@;
            let item = rest[t].clone();
            proof {
                assert(item@ == rest@[t as int]@);
            }
            out.push(item);
            proof {
                assert(vecs_view(out@) =~= vecs_view(before).push(rest@[t as int]@));
                assert(vecs_view(rest@).subrange(0, t + 1) =~= vecs_view(rest@).subrange(
                    0,
                    t as int,
                ).push(vecs_view(rest@)[t as int]));
            }
            t += 1;
        }
        proof {
            assert(vecs_view(rest@).subrange(0, rn as int) =~= vecs_view(rest@));
            assert(vecs_view(out@) =~= split_q(v@, i as int, start as int, in_s, in_d));
        }
        out
    } else {
        split_q_exec(v, i + 1, start, in_s, in_d)
    }
}

/// Split a line on semicolons, but only those outside single and double quotes.
pub fn split_outside_quotes(line: &str) -> (r: Vec<String>)
    ensures
        strings_view(r@) == spec_split_outside_quotes(line@),
{
    let v = str_to_chars(line);
    let segs = split_q_exec(&v, 0, 0, false, false);
    to_strings(&segs)
}

/// Convert a vector of character vectors into strings, view for view.
pub fn to_strings(v: &Vec<Vec<char>>) -> (r: Vec<String>)
    ensures
        strings_view(r@) == vecs_view(v@),
{
    let n = v.len();
    let mut out: Vec<String> = Vec::new();
    let mut i: usize = 0;
    while i < n
        invariant
            n == v@.len(),
            i <= n,
            strings_view(out@) =~= vecs_view(v@).subrange(0, i as int),
        decreases n - i,
    {
        let ghost before = out@;
        out.push(chars_to_string(&v[i]));
        proof {
            assert(strings_view(out@) =~= strings_view(before).push(v@[i as int]@));
            assert(vecs_view(v@).subrange(0, i + 1) =~= vecs_view(v@).subrange(0, i as int).push(
                vecs_view(v@)[i as int],
            ));
        }
        i += 1;
    }
    proof {
        assert(vecs_view(v@).subrange(0, n as int) =~= vecs_view(v@));
    }
    out
}

// -- First-index searches --------------------------------------------------------

/// First index at or after `i` whose character satisfies `f`.
pub open spec fn first_idx(s: Seq<char>, i: int, f: spec_fn(char) -> bool) -> Option<int>
    decreases s.len() - i,
{
    if i < 0 || i >= s.len() {
        None
    } else if f(s[i]) {
        Some(i)
    } else {
        first_idx(s, i + 1, f)
    }
}


// -- Binding forms ---------------------------------------------------------------

/// `name=` at the start of a (trimmed) segment.
pub open spec fn assign_name(s: Seq<char>) -> Option<Seq<char>> {
    let a = leading_blanks(s);
    if a < s.len() && is_lower_char(s[a]) {
        let w = 1 + run_len(s, a + 1, |c: char| is_name_char(c));
        if a + w < s.len() && s[a + w] == '=' {
            Some(s.subrange(a, a + w))
        } else {
            None
        }
    } else {
        None
    }
}

/// Executable mirror of `assign_name`.
fn assign_name_exec(v: &Vec<char>) -> (r: Option<Vec<char>>)
    ensures
        match r {
            Some(m) => assign_name(v@) == Some(m@),
            None => assign_name(v@) is None,
        },
{
    proof {
        lemma_leading_blanks(v@);
    }
    let a = count_leading_blanks(v);
    if a < v.len() && lower_char(v[a]) {
        let w = 1 + name_run_at(v, a + 1);
        if a + w < v.len() && v[a + w] == '=' {
            return Some(subrange_chars(v, a, a + w));
        }
    }
    None
}

/// End of the `([ \t]|-X)*` flag region that may follow `local`/`read`.
pub open spec fn flags_end(s: Seq<char>, p: int) -> int
    decreases s.len() - p,
{
    if p < 0 || p >= s.len() {
        p
    } else if is_blank_char(s[p]) {
        flags_end(s, p + 1)
    } else if s[p] == '-' && p + 1 < s.len() && is_word_char(s[p + 1]) {
        flags_end(s, p + 2)
    } else {
        p
    }
}

/// `flags_end` never moves backwards and stays in bounds.
pub proof fn lemma_flags_end(s: Seq<char>, p: int)
    requires
        0 <= p <= s.len(),
    ensures
        p <= flags_end(s, p) <= s.len(),
    decreases s.len() - p,
{
    if p < s.len() {
        if is_blank_char(s[p]) {
            lemma_flags_end(s, p + 1);
        } else if s[p] == '-' && p + 1 < s.len() && is_word_char(s[p + 1]) {
            if p + 2 <= s.len() {
                lemma_flags_end(s, p + 2);
            }
        }
    }
}

/// Executable mirror of `flags_end`.
fn flags_end_exec(v: &Vec<char>, p: usize) -> (r: usize)
    requires
        p <= v@.len(),
    ensures
        r == flags_end(v@, p as int),
        p <= r <= v@.len(),
    decreases v@.len() - p,
{
    let n = v.len();
    if p >= n {
        return p;
    }
    if blank_char(v[p]) {
        return flags_end_exec(v, p + 1);
    }
    if v[p] == '-' && p + 1 < n && word_char(v[p + 1]) {
        return flags_end_exec(v, p + 2);
    }
    p
}

/// A declaration keyword (`local` or `declare`) headed at `k`: word
/// boundary before, whitespace after, then flags and a well-formed first
/// name.  `kwlen` is the keyword length the head uses.
pub open spec fn decl_head_at(s: Seq<char>, k: int, kw: Seq<char>) -> bool {
    &&& match_at(s, k, kw)
    &&& (k == 0 || is_blank_char(s[k - 1]))
    &&& k + kw.len() < s.len() && is_space_char(s[k + kw.len() as int])
    &&& {
        let q = flags_end(s, k + kw.len() + 1);
        q < s.len() && is_lower_char(s[q]) && {
            let w = 1 + run_len(s, q + 1, |c: char| is_name_char(c));
            q + w == s.len() || s[q + w] == '=' || is_space_char(s[q + w])
        }
    }
}

/// First position with a `local` or `declare` head.
pub open spec fn first_decl_head(s: Seq<char>, i: int) -> Option<int>
    decreases s.len() - i,
{
    if i < 0 || i >= s.len() {
        None
    } else if decl_head_at(s, i, "local"@) || decl_head_at(s, i, "declare"@) {
        Some(i)
    } else {
        first_decl_head(s, i + 1)
    }
}

/// Executable mirror of `first_decl_head`.
fn first_decl_head_exec(v: &Vec<char>, i: usize) -> (r: bool)
    requires
        i <= v@.len(),
    ensures
        r == (first_decl_head(v@, i as int) is Some),
    decreases v@.len() - i,
{
    let n = v.len();
    if i >= n {
        return false;
    }
    if decl_head_exec(v, i, false) || decl_head_exec(v, i, true) {
        return true;
    }
    first_decl_head_exec(v, i + 1)
}

/// Executable mirror of `decl_head_at` for one of the two keywords.
fn decl_head_exec(v: &Vec<char>, k: usize, declare: bool) -> (r: bool)
    requires
        k < v@.len(),
    ensures
        r == decl_head_at(v@, k as int, if declare {
            "declare"@
        } else {
            "local"@
        }),
{
    proof {
        reveal_strlit("local");
        reveal_strlit("declare");
    }
    let n = v.len();
    let kw = if declare {
        str_to_chars("declare")
    } else {
        str_to_chars("local")
    };
    let kwlen = kw.len();
    if !matches_at(v, k, &kw) {
        return false;
    }
    if !(k == 0 || blank_char(v[k - 1])) {
        return false;
    }
    if !(n - k > kwlen && space_char(v[k + kwlen])) {
        return false;
    }
    let q = flags_end_exec(v, k + kwlen + 1);
    if !(q < n && lower_char(v[q])) {
        return false;
    }
    let w = 1 + name_run_at(v, q + 1);
    q + w == n || v[q + w] == '=' || space_char(v[q + w])
}

/// Last declaration keyword as the prefix stripper sees it (no boundary
/// demanded): the keyword position paired with where its flags begin.
pub open spec fn last_decl(s: Seq<char>, i: int) -> Option<(int, int)>
    decreases i + 1,
{
    if i < 0 {
        None
    } else if i < s.len() && match_at(s, i, "declare"@) && i + 7 < s.len() && is_space_char(
        s[i + 7],
    ) {
        Some((i, i + 8))
    } else if i < s.len() && match_at(s, i, "local"@) && i + 5 < s.len() && is_space_char(
        s[i + 5],
    ) {
        Some((i, i + 6))
    } else {
        last_decl(s, i - 1)
    }
}

/// Executable mirror of `last_decl`, scanning downward from `i`.
fn last_decl_exec(v: &Vec<char>, i: usize) -> (r: Option<(usize, usize)>)
    requires
        i <= v@.len(),
    ensures
        match r {
            Some(p) => last_decl(v@, i as int) == Some((p.0 as int, p.1 as int)) && p.1
                <= v@.len(),
            None => last_decl(v@, i as int) is None,
        },
    decreases i + 1,
{
    proof {
        reveal_strlit("local");
        reveal_strlit("declare");
    }
    let n = v.len();
    let local_kw = str_to_chars("local");
    let declare_kw = str_to_chars("declare");
    if i < n && matches_at(v, i, &declare_kw) && n - i > 7 && space_char(v[i + 7]) {
        return Some((i, i + 8));
    }
    if i < n && matches_at(v, i, &local_kw) && n - i > 5 && space_char(v[i + 5]) {
        return Some((i, i + 6));
    }
    if i == 0 {
        proof {
            assert(last_decl(v@, -1) is None);
        }
        return None;
    }
    last_decl_exec(v, i - 1)
}


// -- The declaration extraction chain -------------------------------------------

/// Cut everything up to and including the last declaration keyword and
/// its flags.
pub open spec fn strip_decl_prefix(s: Seq<char>) -> Seq<char> {
    match last_decl(s, s.len() - 1) {
        Some(p) => {
            let cut = flags_end(s, p.1);
            if 0 <= cut <= s.len() {
                s.subrange(cut, s.len() as int)
            } else {
                s
            }
        },
        None => s,
    }
}

/// Executable mirror of `strip_decl_prefix`.
fn strip_decl_prefix_exec(v: &Vec<char>) -> (r: Vec<char>)
    ensures
        r@ == strip_decl_prefix(v@),
{
    let n = v.len();
    if n == 0 {
        proof {
            assert(last_decl(v@, -1) is None);
        }
        return subrange_chars(v, 0, 0);
    }
    match last_decl_exec(v, n - 1) {
        Some((_k, fstart)) => {
            let cut = flags_end_exec(v, fstart);
            subrange_chars(v, cut, n)
        },
        None => subrange_chars(v, 0, n),
    }
}

/// Remove every shortest `(...)`/`{...}` group, left to right.
pub open spec fn remove_parens(s: Seq<char>) -> Seq<char>
    decreases s.len(),
{
    match first_idx(s, 0, |c: char| c == '(' || c == '{') {
        Some(i) => match first_idx(s, i + 1, |c: char| c == ')' || c == '}') {
            Some(j) => if 0 <= i < j < s.len() {
                s.subrange(0, i) + remove_parens(s.subrange(j + 1, s.len() as int))
            } else {
                s
            },
            None => s,
        },
        None => s,
    }
}

/// Executable search for the first of two characters.
fn first_of2(v: &Vec<char>, i: usize, a: char, b: char) -> (r: Option<usize>)
    requires
        i <= v@.len(),
    ensures
        ({
            let f = first_idx(v@, i as int, |c: char| c == a || c == b);
            match r {
                Some(k) => f == Some(k as int) && i <= k < v@.len(),
                None => f is None,
            }
        }),
    decreases v@.len() - i,
{
    let n = v.len();
    if i >= n {
        return None;
    }
    if v[i] == a || v[i] == b {
        return Some(i);
    }
    first_of2(v, i + 1, a, b)
}

/// Executable mirror of `remove_parens`.
fn remove_parens_exec(v: &Vec<char>) -> (r: Vec<char>)
    ensures
        r@ == remove_parens(v@),
    decreases v@.len(),
{
    let n = v.len();
    match first_of2(v, 0, '(', '{') {
        Some(i) => match first_of2(v, i + 1, ')', '}') {
            Some(j) => {
                let mut out = subrange_chars(v, 0, i);
                let tail = subrange_chars(v, j + 1, n);
                let cleaned = remove_parens_exec(&tail);
                crate::text::extend_chars(&mut out, &cleaned);
                out
            },
            None => subrange_chars(v, 0, n),
        },
        None => subrange_chars(v, 0, n),
    }
}

/// Remove every quoted span, trying `"…"` first at each position.
pub open spec fn remove_quoted(s: Seq<char>) -> Seq<char>
    decreases s.len(),
{
    match first_quote_span(s, 0) {
        Some((i, j)) => if 0 <= i < j < s.len() {
            s.subrange(0, i) + remove_quoted(s.subrange(j + 1, s.len() as int))
        } else {
            s
        },
        None => s,
    }
}

/// First complete quoted span at or after `i`.
pub open spec fn first_quote_span(s: Seq<char>, i: int) -> Option<(int, int)>
    decreases s.len() - i,
{
    if i < 0 || i >= s.len() {
        None
    } else if s[i] == '"' && first_idx(s, i + 1, |c: char| c == '"') is Some {
        Some((i, first_idx(s, i + 1, |c: char| c == '"').unwrap()))
    } else if s[i] == '\'' && first_idx(s, i + 1, |c: char| c == '\'') is Some {
        Some((i, first_idx(s, i + 1, |c: char| c == '\'').unwrap()))
    } else {
        first_quote_span(s, i + 1)
    }
}

/// Executable single-character search.
fn first_of1(v: &Vec<char>, i: usize, a: char) -> (r: Option<usize>)
    requires
        i <= v@.len(),
    ensures
        ({
            let f = first_idx(v@, i as int, |c: char| c == a);
            match r {
                Some(k) => f == Some(k as int) && i <= k < v@.len() && v@[k as int] == a,
                None => f is None,
            }
        }),
    decreases v@.len() - i,
{
    let n = v.len();
    if i >= n {
        return None;
    }
    if v[i] == a {
        return Some(i);
    }
    first_of1(v, i + 1, a)
}

/// Executable mirror of `first_quote_span`.
fn first_quote_span_exec(v: &Vec<char>, i: usize) -> (r: Option<(usize, usize)>)
    requires
        i <= v@.len(),
    ensures
        ({
            match r {
                Some(p) => first_quote_span(v@, i as int) == Some((p.0 as int, p.1 as int))
                    && i <= p.0 < p.1 < v@.len(),
                None => first_quote_span(v@, i as int) is None,
            }
        }),
    decreases v@.len() - i,
{
    let n = v.len();
    if i >= n {
        return None;
    }
    if v[i] == '"' {
        if let Some(j) = first_of1(v, i + 1, '"') {
            return Some((i, j));
        }
        return first_quote_span_exec(v, i + 1);
    }
    if v[i] == '\'' {
        if let Some(j) = first_of1(v, i + 1, '\'') {
            return Some((i, j));
        }
        return first_quote_span_exec(v, i + 1);
    }
    first_quote_span_exec(v, i + 1)
}

/// Executable mirror of `remove_quoted`.
fn remove_quoted_exec(v: &Vec<char>) -> (r: Vec<char>)
    ensures
        r@ == remove_quoted(v@),
    decreases v@.len(),
{
    let n = v.len();
    match first_quote_span_exec(v, 0) {
        Some((i, j)) => {
            let mut out = subrange_chars(v, 0, i);
            let tail = subrange_chars(v, j + 1, n);
            let cleaned = remove_quoted_exec(&tail);
            crate::text::extend_chars(&mut out, &cleaned);
            out
        },
        None => subrange_chars(v, 0, n),
    }
}

/// Remove `=` and the non-space run that follows it, everywhere.
pub open spec fn remove_eq_vals(s: Seq<char>) -> Seq<char>
    decreases s.len(),
{
    match first_idx(s, 0, |c: char| c == '=') {
        Some(k) => if 0 <= k < s.len() {
            let w = run_len(s, k + 1, |c: char| !is_space_char(c));
            if 0 <= w && k + 1 + w <= s.len() {
                s.subrange(0, k) + remove_eq_vals(s.subrange(k + 1 + w, s.len() as int))
            } else {
                s
            }
        } else {
            s
        },
        None => s,
    }
}

/// Executable run of non-space characters.
fn nonspace_run_at(v: &Vec<char>, i: usize) -> (r: usize)
    requires
        i <= v@.len(),
    ensures
        r == run_len(v@, i as int, |c: char| !is_space_char(c)),
        i + r <= v@.len(),
    decreases v@.len() - i,
{
    let n = v.len();
    if i >= n {
        return 0;
    }
    if space_char(v[i]) {
        return 0;
    }
    let rest = nonspace_run_at(v, i + 1);
    proof {
        lemma_run_len(v@, i + 1, |c: char| !is_space_char(c));
    }
    1 + rest
}

/// Executable mirror of `remove_eq_vals`.
fn remove_eq_vals_exec(v: &Vec<char>) -> (r: Vec<char>)
    ensures
        r@ == remove_eq_vals(v@),
    decreases v@.len(),
{
    let n = v.len();
    match first_of1(v, 0, '=') {
        Some(k) => {
            let w = nonspace_run_at(v, k + 1);
            let mut out = subrange_chars(v, 0, k);
            let tail = subrange_chars(v, k + 1 + w, n);
            let cleaned = remove_eq_vals_exec(&tail);
            crate::text::extend_chars(&mut out, &cleaned);
            out
        },
        None => subrange_chars(v, 0, n),
    }
}

/// A full word that is a well-formed variable name.
pub open spec fn is_valid_name(w: Seq<char>) -> bool {
    w.len() >= 1 && is_lower_char(w[0]) && run_len(w, 1, |c: char| is_name_char(c)) == w.len() - 1
}

/// Split on whitespace and keep the well-formed names.
pub open spec fn name_words(s: Seq<char>, i: int) -> Seq<Seq<char>>
    decreases s.len() - i,
{
    if i < 0 || i >= s.len() {
        Seq::empty()
    } else {
        let sp = run_len(s, i, |c: char| is_space_char(c));
        if sp < 0 || i + sp >= s.len() {
            Seq::empty()
        } else {
            let w = run_len(s, i + sp, |c: char| !is_space_char(c));
            let word = s.subrange(i + sp, i + sp + w);
            if w >= 1 && i + sp + w <= s.len() {
                if is_valid_name(word) {
                    seq![word] + name_words(s, i + sp + w)
                } else {
                    name_words(s, i + sp + w)
                }
            } else {
                Seq::empty()
            }
        }
    }
}

/// Executable name-validity test.
fn valid_name_exec(w: &Vec<char>) -> (r: bool)
    ensures
        r == is_valid_name(w@),
{
    if w.len() == 0 {
        return false;
    }
    if !lower_char(w[0]) {
        return false;
    }
    let run = name_run_at(w, 1);
    run == w.len() - 1
}

/// Executable mirror of `name_words`.
fn name_words_exec(v: &Vec<char>, i: usize) -> (r: Vec<Vec<char>>)
    requires
        i <= v@.len(),
    ensures
        vecs_view(r@) == name_words(v@, i as int),
    decreases v@.len() - i,
{
    let n = v.len();
    let empty: Vec<Vec<char>> = Vec::new();
    if i >= n {
        proof {
            assert(vecs_view(empty@) =~= name_words(v@, i as int));
        }
        return empty;
    }
    let sp = space_run_at(v, i);
    if i + sp >= n {
        proof {
            assert(vecs_view(empty@) =~= name_words(v@, i as int));
        }
        return empty;
    }
    let w = nonspace_run_at(v, i + sp);
    proof {
        lemma_run_len(v@, i as int, |c: char| is_space_char(c));
        lemma_run_len(v@, (i + sp) as int, |c: char| !is_space_char(c));
        lemma_run_len(v@, (i + sp + 1) as int, |c: char| !is_space_char(c));
        assert(!is_space_char(v@[(i + sp) as int]));
        assert(run_len(v@, (i + sp) as int, |c: char| !is_space_char(c)) >= 1);
    }
    let word = subrange_chars(v, i + sp, i + sp + w);
    let rest = name_words_exec(v, i + sp + w);
    if valid_name_exec(&word) {
        let mut out: Vec<Vec<char>> = Vec::new();
        out.push(word);
        let rn = rest.len();
        let mut t: usize = 0;
        while t < rn
            invariant
                rn == rest@.len(),
                t <= rn,
                vecs_view(out@) =~= seq![
                    v@.subrange((i + sp) as int, (i + sp + w) as int),
                ] + vecs_view(rest@).subrange(0, t as int),
            decreases rn - t,
        {
            let ghost before = out@;
            let item = rest[t].clone();
            proof {
                assert(item@ == rest@[t as int]@);
            }
            out.push(item);
            proof {
                assert(vecs_view(out@) =~= vecs_view(before).push(rest@[t as int]@));
                assert(vecs_view(rest@).subrange(0, t + 1) =~= vecs_view(rest@).subrange(
                    0,
                    t as int,
                ).push(vecs_view(rest@)[t as int]));
            }
            t += 1;
        }
        proof {
            assert(vecs_view(rest@).subrange(0, rn as int) =~= vecs_view(rest@));
            assert(vecs_view(out@) =~= name_words(v@, i as int));
        }
        out
    } else {
        rest
    }
}

/// All names a `local`/`declare` declaration binds.
pub open spec fn decl_names(s: Seq<char>) -> Seq<Seq<char>> {
    name_words(remove_eq_vals(remove_quoted(remove_parens(strip_decl_prefix(s)))), 0)
}

/// Executable mirror of `decl_names`.
fn decl_names_exec(v: &Vec<char>) -> (r: Vec<Vec<char>>)
    ensures
        vecs_view(r@) == decl_names(v@),
{
    let a = strip_decl_prefix_exec(v);
    let b = remove_parens_exec(&a);
    let c = remove_quoted_exec(&b);
    let d = remove_eq_vals_exec(&c);
    name_words_exec(&d, 0)
}


// -- read / for / array / arithmetic forms --------------------------------------

/// Flag region of a `read`: `(-X  )*` with at least one space after each flag.
pub open spec fn read_flags_end(s: Seq<char>, p: int) -> int
    decreases s.len() - p,
{
    if p < 0 || p + 1 >= s.len() {
        p
    } else if s[p] == '-' && is_word_char(s[p + 1]) && run_len(
        s,
        p + 2,
        |c: char| is_space_char(c),
    ) >= 1 && p + 2 + run_len(s, p + 2, |c: char| is_space_char(c)) <= s.len() {
        read_flags_end(s, p + 2 + run_len(s, p + 2, |c: char| is_space_char(c)))
    } else {
        p
    }
}

/// A parsable `read` head at `k`: `read`, whitespace, flags, then a name.
pub open spec fn read_name_at(s: Seq<char>, k: int) -> Option<Seq<char>> {
    if match_at(s, k, "read"@) && run_len(s, k + 4, |c: char| is_space_char(c)) >= 1 {
        let q = read_flags_end(s, k + 4 + run_len(s, k + 4, |c: char| is_space_char(c)));
        if 0 <= q < s.len() && is_lower_char(s[q]) {
            let w = 1 + run_len(s, q + 1, |c: char| is_name_char(c));
            if q + w <= s.len() {
                Some(s.subrange(q, q + w))
            } else {
                None
            }
        } else {
            None
        }
    } else {
        None
    }
}

/// First position whose `read` head parses.
pub open spec fn read_search(s: Seq<char>, i: int) -> Option<Seq<char>>
    decreases s.len() - i,
{
    if i < 0 || i >= s.len() {
        None
    } else if read_name_at(s, i) is Some {
        read_name_at(s, i)
    } else {
        read_search(s, i + 1)
    }
}

/// Executable mirror of `read_flags_end`.
fn read_flags_end_exec(v: &Vec<char>, p: usize) -> (r: usize)
    requires
        p <= v@.len(),
    ensures
        r == read_flags_end(v@, p as int),
        p <= r <= v@.len(),
    decreases v@.len() - p,
{
    let n = v.len();
    if n - p <= 1 {
        return p;
    }
    if v[p] == '-' && word_char(v[p + 1]) {
        let sp = space_run_at(v, p + 2);
        if sp >= 1 {
            return read_flags_end_exec(v, p + 2 + sp);
        }
    }
    p
}

/// Executable mirror of `read_name_at`.
fn read_name_at_exec(v: &Vec<char>, k: usize) -> (r: Option<Vec<char>>)
    requires
        k <= v@.len(),
    ensures
        match r {
            Some(m) => read_name_at(v@, k as int) == Some(m@),
            None => read_name_at(v@, k as int) is None,
        },
{
    proof {
        reveal_strlit("read");
    }
    let kw = str_to_chars("read");
    if !matches_at(v, k, &kw) {
        return None;
    }
    let n = v.len();
    let sp = space_run_at(v, if n - k >= 4 { k + 4 } else { n });
    proof {
        if k + 4 > v@.len() {
            assert(run_len(v@, k + 4, |c: char| is_space_char(c)) == 0);
        }
    }
    if sp < 1 {
        return None;
    }
    let q = read_flags_end_exec(v, k + 4 + sp);
    if q < n && lower_char(v[q]) {
        let w = 1 + name_run_at(v, q + 1);
        return Some(subrange_chars(v, q, q + w));
    }
    None
}

/// Executable mirror of `read_search`.
fn read_search_exec(v: &Vec<char>, i: usize) -> (r: Option<Vec<char>>)
    requires
        i <= v@.len(),
    ensures
        match r {
            Some(m) => read_search(v@, i as int) == Some(m@),
            None => read_search(v@, i as int) is None,
        },
    decreases v@.len() - i,
{
    let n = v.len();
    if i >= n {
        return None;
    }
    if let Some(m) = read_name_at_exec(v, i) {
        return Some(m);
    }
    read_search_exec(v, i + 1)
}

/// The loop variable of a leading `for`.
pub open spec fn for_name(s: Seq<char>) -> Option<Seq<char>> {
    let a = leading_blanks(s);
    let sp = run_len(s, a + 3, |c: char| is_space_char(c));
    if match_at(s, a, "for"@) && sp >= 1 {
        let q = a + 3 + sp;
        if q < s.len() && is_lower_char(s[q]) {
            let w = 1 + run_len(s, q + 1, |c: char| is_name_char(c));
            if q + w < s.len() && is_space_char(s[q + w]) {
                Some(s.subrange(q, q + w))
            } else {
                None
            }
        } else {
            None
        }
    } else {
        None
    }
}

/// Executable mirror of `for_name`.
fn for_name_exec(v: &Vec<char>) -> (r: Option<Vec<char>>)
    ensures
        match r {
            Some(m) => for_name(v@) == Some(m@),
            None => for_name(v@) is None,
        },
{
    proof {
        lemma_leading_blanks(v@);
        reveal_strlit("for");
    }
    let a = count_leading_blanks(v);
    let kw = str_to_chars("for");
    if !matches_at(v, a, &kw) {
        return None;
    }
    let n = v.len();
    let sp = space_run_at(v, if n - a >= 3 { a + 3 } else { n });
    proof {
        if a + 3 > v@.len() {
            assert(run_len(v@, a + 3, |c: char| is_space_char(c)) == 0);
        }
    }
    if sp < 1 {
        return None;
    }
    let q = a + 3 + sp;
    if q < n && lower_char(v[q]) {
        let w = 1 + name_run_at(v, q + 1);
        if q + w < n && space_char(v[q + w]) {
            return Some(subrange_chars(v, q, q + w));
        }
    }
    None
}

/// Somewhere at or after `from` there is a `]=`.
pub open spec fn has_close_eq(s: Seq<char>, from: int) -> bool
    decreases s.len() - from,
{
    if from < 0 || from + 1 >= s.len() {
        false
    } else if s[from] == ']' && s[from + 1] == '=' {
        true
    } else {
        has_close_eq(s, from + 1)
    }
}

/// Executable mirror of `has_close_eq`.
fn has_close_eq_exec(v: &Vec<char>, from: usize) -> (r: bool)
    requires
        from <= v@.len(),
    ensures
        r == has_close_eq(v@, from as int),
    decreases v@.len() - from,
{
    let n = v.len();
    if n - from <= 1 {
        return false;
    }
    if v[from] == ']' && v[from + 1] == '=' {
        return true;
    }
    has_close_eq_exec(v, from + 1)
}

/// An array-subscript write `name[…]=` heading the segment.
pub open spec fn array_name(s: Seq<char>) -> Option<Seq<char>> {
    let a = leading_blanks(s);
    if a < s.len() && is_lower_char(s[a]) {
        let w = 1 + run_len(s, a + 1, |c: char| is_name_char(c));
        if a + w < s.len() && s[a + w] == '[' && has_close_eq(s, a + w + 2) {
            Some(s.subrange(a, a + w))
        } else {
            None
        }
    } else {
        None
    }
}

/// Executable mirror of `array_name`.
fn array_name_exec(v: &Vec<char>) -> (r: Option<Vec<char>>)
    ensures
        match r {
            Some(m) => array_name(v@) == Some(m@),
            None => array_name(v@) is None,
        },
{
    proof {
        lemma_leading_blanks(v@);
    }
    let a = count_leading_blanks(v);
    let n = v.len();
    if a < n && lower_char(v[a]) {
        let w = 1 + name_run_at(v, a + 1);
        if a + w < n && v[a + w] == '[' {
            let hit = if n - (a + w) >= 2 {
                has_close_eq_exec(v, a + w + 2)
            } else {
                proof {
                    assert(!has_close_eq(v@, a + w + 2));
                }
                false
            };
            if hit {
                return Some(subrange_chars(v, a, a + w));
            }
        }
    }
    None
}

/// A sign character.
pub open spec fn is_sign_char(c: char) -> bool {
    c == '+' || c == '-'
}

/// `(( ++name … ))` (or `--`), whole-segment form.
pub open spec fn pre_incr_name(s: Seq<char>) -> Option<Seq<char>> {
    let a = leading_blanks(s);
    let sp = run_len(s, a + 2, |c: char| is_space_char(c));
    let p = a + 2 + sp;
    if match_at(s, a, "(("@) && p + 1 < s.len() && is_sign_char(s[p]) && is_sign_char(s[p + 1])
        && p + 2 < s.len() && is_lower_char(s[p + 2]) {
        let w = 1 + run_len(s, p + 3, |c: char| is_name_char(c));
        let q = p + 2 + w + run_len(s, p + 2 + w, |c: char| is_space_char(c));
        if match_at(s, q, "))"@) {
            Some(s.subrange(p + 2, p + 2 + w))
        } else {
            None
        }
    } else {
        None
    }
}

/// `(( name++ … ))` (or `--`), whole-segment form.
pub open spec fn post_incr_name(s: Seq<char>) -> Option<Seq<char>> {
    let a = leading_blanks(s);
    let sp = run_len(s, a + 2, |c: char| is_space_char(c));
    let p = a + 2 + sp;
    if match_at(s, a, "(("@) && p < s.len() && is_lower_char(s[p]) {
        let w = 1 + run_len(s, p + 1, |c: char| is_name_char(c));
        if p + w + 1 < s.len() && is_sign_char(s[p + w]) && is_sign_char(s[p + w + 1]) {
            let q = p + w + 2 + run_len(s, p + w + 2, |c: char| is_space_char(c));
            if match_at(s, q, "))"@) {
                Some(s.subrange(p, p + w))
            } else {
                None
            }
        } else {
            None
        }
    } else {
        None
    }
}

/// Executable sign test.
fn sign_char(c: char) -> (r: bool)
    ensures
        r == is_sign_char(c),
{
    c == '+' || c == '-'
}

/// Executable mirror of `pre_incr_name`.
fn pre_incr_exec(v: &Vec<char>) -> (r: Option<Vec<char>>)
    ensures
        match r {
            Some(m) => pre_incr_name(v@) == Some(m@),
            None => pre_incr_name(v@) is None,
        },
{
    proof {
        lemma_leading_blanks(v@);
        reveal_strlit("((");
        reveal_strlit("))");
    }
    let a = count_leading_blanks(v);
    let n = v.len();
    let open_kw = str_to_chars("((");
    let close_kw = str_to_chars("))");
    if !matches_at(v, a, &open_kw) {
        return None;
    }
    let sp = space_run_at(v, if n - a >= 2 { a + 2 } else { n });
    proof {
        if a + 2 > v@.len() {
            assert(run_len(v@, a + 2, |c: char| is_space_char(c)) == 0);
        }
    }
    let p = a + 2 + sp;
    if p < n && n - p > 1 && sign_char(v[p]) && sign_char(v[p + 1]) && n - p > 2 && lower_char(
        v[p + 2],
    ) {
        let w = 1 + name_run_at(v, p + 3);
        let sp2 = space_run_at(v, p + 2 + w);
        let q = p + 2 + w + sp2;
        if matches_at(v, q, &close_kw) {
            return Some(subrange_chars(v, p + 2, p + 2 + w));
        }
    }
    None
}

/// Executable mirror of `post_incr_name`.
fn post_incr_exec(v: &Vec<char>) -> (r: Option<Vec<char>>)
    ensures
        match r {
            Some(m) => post_incr_name(v@) == Some(m@),
            None => post_incr_name(v@) is None,
        },
{
    proof {
        lemma_leading_blanks(v@);
        reveal_strlit("((");
        reveal_strlit("))");
    }
    let a = count_leading_blanks(v);
    let n = v.len();
    let open_kw = str_to_chars("((");
    let close_kw = str_to_chars("))");
    if !matches_at(v, a, &open_kw) {
        return None;
    }
    let sp = space_run_at(v, if n - a >= 2 { a + 2 } else { n });
    proof {
        if a + 2 > v@.len() {
            assert(run_len(v@, a + 2, |c: char| is_space_char(c)) == 0);
        }
    }
    let p = a + 2 + sp;
    if p < n && lower_char(v[p]) {
        let w = 1 + name_run_at(v, p + 1);
        if n - (p + w) > 1 && sign_char(v[p + w]) && sign_char(v[p + w + 1]) {
            let sp2 = space_run_at(v, p + w + 2);
            let q = p + w + 2 + sp2;
            if matches_at(v, q, &close_kw) {
                return Some(subrange_chars(v, p, p + w));
            }
        }
    }
    None
}


// -- Per-segment classification ---------------------------------------------------

/// The names one (trimmed) segment binds, first matching form wins.
pub open spec fn seg_vars(s: Seq<char>) -> Seq<Seq<char>> {
    if assign_name(s) is Some {
        if assign_name(s).unwrap() == "IFS"@ {
            Seq::empty()
        } else {
            seq![assign_name(s).unwrap()]
        }
    } else if first_decl_head(s, 0) is Some {
        decl_names(s)
    } else if read_search(s, 0) is Some {
        seq![read_search(s, 0).unwrap()]
    } else if for_name(s) is Some {
        seq![for_name(s).unwrap()]
    } else if array_name(s) is Some {
        seq![array_name(s).unwrap()]
    } else if pre_incr_name(s) is Some {
        seq![pre_incr_name(s).unwrap()]
    } else if post_incr_name(s) is Some {
        seq![post_incr_name(s).unwrap()]
    } else {
        Seq::empty()
    }
}

/// Executable mirror of `seg_vars`.
fn seg_vars_exec(v: &Vec<char>) -> (r: Vec<Vec<char>>)
    ensures
        vecs_view(r@) == seg_vars(v@),
{
    proof {
        reveal_strlit("IFS");
    }
    let mut out: Vec<Vec<char>> = Vec::new();
    if let Some(m) = assign_name_exec(v) {
        let ifs = str_to_chars("IFS");
        let is_ifs = eq_chars(&m, &ifs);
        if !is_ifs {
            out.push(m);
        }
        proof {
            assert(vecs_view(out@) =~= seg_vars(v@));
        }
        return out;
    }
    if first_decl_head_exec(v, 0) {
        let names = decl_names_exec(v);
        proof {
            assert(vecs_view(names@) =~= seg_vars(v@));
        }
        return names;
    }
    if let Some(m) = read_search_exec(v, 0) {
        out.push(m);
        proof {
            assert(vecs_view(out@) =~= seg_vars(v@));
        }
        return out;
    }
    if let Some(m) = for_name_exec(v) {
        out.push(m);
        proof {
            assert(vecs_view(out@) =~= seg_vars(v@));
        }
        return out;
    }
    if let Some(m) = array_name_exec(v) {
        out.push(m);
        proof {
            assert(vecs_view(out@) =~= seg_vars(v@));
        }
        return out;
    }
    if let Some(m) = pre_incr_exec(v) {
        out.push(m);
        proof {
            assert(vecs_view(out@) =~= seg_vars(v@));
        }
        return out;
    }
    if let Some(m) = post_incr_exec(v) {
        out.push(m);
        proof {
            assert(vecs_view(out@) =~= seg_vars(v@));
        }
        return out;
    }
    proof {
        assert(vecs_view(out@) =~= seg_vars(v@));
    }
    out
}

// -- Collecting across lines -------------------------------------------------------

/// Add names to the accumulator, keeping first occurrences only.
pub open spec fn add_names(acc: Seq<Seq<char>>, names: Seq<Seq<char>>) -> Seq<Seq<char>>
    decreases names.len(),
{
    if names.len() == 0 {
        acc
    } else {
        let acc2 = if acc.contains(names[0]) {
            acc
        } else {
            acc.push(names[0])
        };
        add_names(acc2, names.subrange(1, names.len() as int))
    }
}

/// The trimmed, non-empty segments of a line, classified.
pub open spec fn line_vars(acc: Seq<Seq<char>>, segs: Seq<Seq<char>>) -> Seq<Seq<char>>
    decreases segs.len(),
{
    if segs.len() == 0 {
        acc
    } else {
        let t = trim_spec(segs[0]);
        let acc2 = if t.len() == 0 {
            acc
        } else {
            add_names(acc, seg_vars(t))
        };
        line_vars(acc2, segs.subrange(1, segs.len() as int))
    }
}

/// The ignore annotation line.
pub open spec fn is_ignore_annotation(s: Seq<char>) -> bool {
    match_at(s, leading_blanks(s), "# obfus ignore variable"@)
}

/// Scan all lines, honouring annotations and skipping comments and blanks.
pub open spec fn collect_lines(lines: Seq<Seq<char>>, skip: int, acc: Seq<Seq<char>>) -> Seq<
    Seq<char>,
>
    decreases lines.len(),
{
    if lines.len() == 0 {
        acc
    } else {
        let l = lines[0];
        let rest = lines.subrange(1, lines.len() as int);
        if is_ignore_annotation(l) {
            collect_lines(rest, skip + 1, acc)
        } else if skip > 0 {
            collect_lines(rest, skip - 1, acc)
        } else if is_comment_line(l) || is_blank_line(l) {
            collect_lines(rest, skip, acc)
        } else {
            collect_lines(rest, skip, line_vars(acc, spec_split_outside_quotes(l)))
        }
    }
}

// -- Ordering and sorting ------------------------------------------------------------

/// Lexicographic order on character sequences by code point.
pub open spec fn lex_lt(a: Seq<char>, b: Seq<char>) -> bool
    decreases a.len(),
{
    if b.len() == 0 {
        false
    } else if a.len() == 0 {
        true
    } else if (a[0] as u32) < (b[0] as u32) {
        true
    } else if (a[0] as u32) > (b[0] as u32) {
        false
    } else {
        lex_lt(a.subrange(1, a.len() as int), b.subrange(1, b.len() as int))
    }
}

/// The discovery order: longer names first, ties alphabetical.
pub open spec fn var_lt(a: Seq<char>, b: Seq<char>) -> bool {
    a.len() > b.len() || (a.len() == b.len() && lex_lt(a, b))
}

/// Insert into a list sorted by `var_lt`.
pub open spec fn insert_sorted(x: Seq<char>, l: Seq<Seq<char>>) -> Seq<Seq<char>>
    decreases l.len(),
{
    if l.len() == 0 {
        seq![x]
    } else if var_lt(x, l[0]) {
        seq![x] + l
    } else {
        seq![l[0]] + insert_sorted(x, l.subrange(1, l.len() as int))
    }
}

/// Sort by repeated insertion.
pub open spec fn sort_names(names: Seq<Seq<char>>, acc: Seq<Seq<char>>) -> Seq<Seq<char>>
    decreases names.len(),
{
    if names.len() == 0 {
        acc
    } else {
        sort_names(names.subrange(1, names.len() as int), insert_sorted(names[0], acc))
    }
}

/// Executable lexicographic comparison.
fn lex_lt_exec(a: &Vec<char>, b: &Vec<char>, i: usize) -> (r: bool)
    requires
        i <= a@.len(),
        i <= b@.len(),
    ensures
        r == lex_lt(a@.subrange(i as int, a@.len() as int), b@.subrange(i as int, b@.len() as int)),
    decreases a@.len() - i,
{
    let ghost sa = a@.subrange(i as int, a@.len() as int);
    let ghost sb = b@.subrange(i as int, b@.len() as int);
    if i >= b.len() {
        proof {
            assert(sb.len() == 0);
        }
        return false;
    }
    if i >= a.len() {
        proof {
            assert(sa.len() == 0 && sb.len() > 0);
        }
        return true;
    }
    proof {
        assert(sa[0] == a@[i as int]);
        assert(sb[0] == b@[i as int]);
    }
    let ca = a[i] as u32;
    let cb = b[i] as u32;
    if ca < cb {
        return true;
    }
    if ca > cb {
        return false;
    }
    let r = lex_lt_exec(a, b, i + 1);
    proof {
        assert(sa.subrange(1, sa.len() as int) =~= a@.subrange(i + 1, a@.len() as int));
        assert(sb.subrange(1, sb.len() as int) =~= b@.subrange(i + 1, b@.len() as int));
    }
    r
}

/// Executable discovery order.
fn var_lt_exec(a: &Vec<char>, b: &Vec<char>) -> (r: bool)
    ensures
        r == var_lt(a@, b@),
{
    if a.len() > b.len() {
        return true;
    }
    if a.len() == b.len() {
        proof {
            assert(a@.subrange(0, a@.len() as int) =~= a@);
            assert(b@.subrange(0, b@.len() as int) =~= b@);
        }
        return lex_lt_exec(a, b, 0);
    }
    false
}

/// Executable sorted insertion.
fn insert_sorted_exec(x: Vec<char>, l: Vec<Vec<char>>) -> (r: Vec<Vec<char>>)
    ensures
        vecs_view(r@) == insert_sorted(x@, vecs_view(l@)),
    decreases l@.len(),
{
    let mut out: Vec<Vec<char>> = Vec::new();
    if l.len() == 0 {
        out.push(x);
        proof {
            assert(vecs_view(out@) =~= insert_sorted(x@, vecs_view(l@)));
        }
        return out;
    }
    let mut idx: usize = 0;
    let n = l.len();
    proof {
        assert(vecs_view(l@).subrange(0, 0) =~= Seq::<Seq<char>>::empty());
        assert(vecs_view(l@).subrange(0, n as int) =~= vecs_view(l@));
        assert(Seq::<Seq<char>>::empty() + insert_sorted(x@, vecs_view(l@)) =~= insert_sorted(
            x@,
            vecs_view(l@),
        ));
    }
    while idx < n && !var_lt_exec(&x, &l[idx])
        invariant
            n == l@.len(),
            idx <= n,
            forall|m: int| 0 <= m < idx ==> !var_lt(x@, vecs_view(l@)[m]),
            vecs_view(out@) =~= vecs_view(l@).subrange(0, idx as int),
            insert_sorted(x@, vecs_view(l@)) == vecs_view(l@).subrange(0, idx as int)
                + insert_sorted(x@, vecs_view(l@).subrange(idx as int, n as int)),
        decreases n - idx,
    {
        let ghost before = out@;
        let ghost lv = vecs_view(l@);
        let item = l[idx].clone();
        proof {
            assert(item@ == l@[idx as int]@);
        }
        out.push(item);
        proof {
            assert(vecs_view(out@) =~= vecs_view(before).push(lv[idx as int]));
            assert(lv.subrange(0, idx + 1) =~= lv.subrange(0, idx as int).push(lv[idx as int]));
            let tail = lv.subrange(idx as int, n as int);
            assert(tail[0] == lv[idx as int]);
            assert(tail.subrange(1, tail.len() as int) =~= lv.subrange(idx + 1, n as int));
            assert(insert_sorted(x@, tail) == seq![tail[0]] + insert_sorted(
                x@,
                lv.subrange(idx + 1, n as int),
            ));
            assert(lv.subrange(0, idx as int) + insert_sorted(x@, tail) =~= lv.subrange(
                0,
                idx + 1,
            ) + insert_sorted(x@, lv.subrange(idx + 1, n as int)));
        }
        idx += 1;
    }
    let ghost lv = vecs_view(l@);
    out.push(x);
    let mut t: usize = idx;
    while t < n
        invariant
            n == l@.len(),
            idx <= t <= n,
            lv == vecs_view(l@),
            vecs_view(out@) =~= lv.subrange(0, idx as int).push(x@) + lv.subrange(
                idx as int,
                t as int,
            ),
        decreases n - t,
    {
        let ghost before = out@;
        let item = l[t].clone();
        proof {
            assert(item@ == l@[t as int]@);
        }
        out.push(item);
        proof {
            assert(vecs_view(out@) =~= vecs_view(before).push(lv[t as int]));
            assert(lv.subrange(idx as int, t + 1) =~= lv.subrange(idx as int, t as int).push(
                lv[t as int],
            ));
            assert(lv.subrange(0, idx as int).push(x@) + lv.subrange(idx as int, t as int).push(
                lv[t as int],
            ) =~= (lv.subrange(0, idx as int).push(x@) + lv.subrange(idx as int, t as int)).push(
                lv[t as int],
            ));
        }
        t += 1;
    }
    proof {
        let tail = lv.subrange(idx as int, n as int);
        if idx < n {
            assert(var_lt(x@, tail[0]));
            assert(insert_sorted(x@, tail) == seq![x@] + tail);
            assert(vecs_view(out@) =~= lv.subrange(0, idx as int) + (seq![x@] + tail));
        } else {
            assert(tail.len() == 0);
            assert(insert_sorted(x@, tail) == seq![x@]);
            assert(vecs_view(out@) =~= lv.subrange(0, idx as int) + seq![x@]);
        }
        assert(vecs_view(out@) =~= insert_sorted(x@, vecs_view(l@)));
    }
    out
}


// -- Public discovery API ------------------------------------------------------------

/// Executable equality of two character vectors.
fn eq_chars(a: &Vec<char>, b: &Vec<char>) -> (r: bool)
    ensures
        r == (a@ == b@),
{
    if a.len() != b.len() {
        return false;
    }
    let r = matches_at(a, 0, b);
    proof {
        assert(a@.subrange(0, b@.len() as int) =~= a@);
        if r {
            assert(a@ == b@);
        } else {
            assert(a@ != b@);
        }
    }
    r
}

/// Executable membership test.
fn contains_chars(acc: &Vec<Vec<char>>, x: &Vec<char>) -> (r: bool)
    ensures
        r == vecs_view(acc@).contains(x@),
{
    let n = acc.len();
    let mut i: usize = 0;
    while i < n
        invariant
            n == acc@.len(),
            i <= n,
            forall|m: int| 0 <= m < i ==> vecs_view(acc@)[m] != x@,
        decreases n - i,
    {
        if eq_chars(&acc[i], x) {
            proof {
                assert(vecs_view(acc@)[i as int] == x@);
            }
            return true;
        }
        i += 1;
    }
    proof {
        assert(forall|m: int| 0 <= m < vecs_view(acc@).len() ==> vecs_view(acc@)[m] != x@);
    }
    false
}

/// Executable mirror of `add_names`.
fn add_names_exec(acc: Vec<Vec<char>>, names: &Vec<Vec<char>>, from: usize) -> (r: Vec<Vec<char>>)
    requires
        from <= names@.len(),
    ensures
        vecs_view(r@) == add_names(
            vecs_view(acc@),
            vecs_view(names@).subrange(from as int, names@.len() as int),
        ),
    decreases names@.len() - from,
{
    let ghost rest = vecs_view(names@).subrange(from as int, names@.len() as int);
    if from >= names.len() {
        proof {
            assert(vecs_view(acc@) =~= add_names(vecs_view(acc@), rest));
        }
        return acc;
    }
    proof {
        assert(rest[0] == names@[from as int]@);
        assert(rest.subrange(1, rest.len() as int) =~= vecs_view(names@).subrange(
            from + 1,
            names@.len() as int,
        ));
    }
    let mut acc = acc;
    if !contains_chars(&acc, &names[from]) {
        let ghost before = acc@;
        acc.push(names[from].clone());
        proof {
            assert(vecs_view(acc@) =~= vecs_view(before).push(names@[from as int]@));
        }
    }
    add_names_exec(acc, names, from + 1)
}

/// Executable mirror of `line_vars`.
fn line_vars_exec(acc: Vec<Vec<char>>, segs: &Vec<Vec<char>>, from: usize) -> (r: Vec<Vec<char>>)
    requires
        from <= segs@.len(),
    ensures
        vecs_view(r@) == line_vars(
            vecs_view(acc@),
            vecs_view(segs@).subrange(from as int, segs@.len() as int),
        ),
    decreases segs@.len() - from,
{
    let ghost rest = vecs_view(segs@).subrange(from as int, segs@.len() as int);
    if from >= segs.len() {
        proof {
            assert(vecs_view(acc@) =~= line_vars(vecs_view(acc@), rest));
        }
        return acc;
    }
    proof {
        assert(rest[0] == segs@[from as int]@);
        assert(rest.subrange(1, rest.len() as int) =~= vecs_view(segs@).subrange(
            from + 1,
            segs@.len() as int,
        ));
    }
    let t = trim_chars(&segs[from]);
    let acc2 = if t.len() == 0 {
        acc
    } else {
        let names = seg_vars_exec(&t);
        proof {
            assert(vecs_view(names@).subrange(0, names@.len() as int) =~= vecs_view(names@));
        }
        add_names_exec(acc, &names, 0)
    };
    line_vars_exec(acc2, segs, from + 1)
}

/// The ignore-annotation test, executably.
fn is_annotation_exec(v: &Vec<char>) -> (r: bool)
    ensures
        r == is_ignore_annotation(v@),
{
    proof {
        lemma_leading_blanks(v@);
        reveal_strlit("# obfus ignore variable");
    }
    let a = count_leading_blanks(v);
    let kw = str_to_chars("# obfus ignore variable");
    matches_at(v, a, &kw)
}

/// Executable mirror of `collect_lines`.
fn collect_lines_exec(
    lines: &Vec<Vec<char>>,
    from: usize,
    skip: usize,
    acc: Vec<Vec<char>>,
) -> (r: Vec<Vec<char>>)
    requires
        from <= lines@.len(),
        skip <= from,
    ensures
        vecs_view(r@) == collect_lines(
            vecs_view(lines@).subrange(from as int, lines@.len() as int),
            skip as int,
            vecs_view(acc@),
        ),
    decreases lines@.len() - from,
{
    let ghost rest = vecs_view(lines@).subrange(from as int, lines@.len() as int);
    if from >= lines.len() {
        proof {
            assert(vecs_view(acc@) =~= collect_lines(rest, skip as int, vecs_view(acc@)));
        }
        return acc;
    }
    proof {
        assert(rest[0] == lines@[from as int]@);
        assert(rest.subrange(1, rest.len() as int) =~= vecs_view(lines@).subrange(
            from + 1,
            lines@.len() as int,
        ));
    }
    let l = &lines[from];
    if is_annotation_exec(l) {
        return collect_lines_exec(lines, from + 1, skip + 1, acc);
    }
    if skip > 0 {
        return collect_lines_exec(lines, from + 1, skip - 1, acc);
    }
    let mut is_skippable = false;
    proof {
        lemma_leading_blanks(l@);
    }
    let a = count_leading_blanks(l);
    if a == l.len() {
        is_skippable = true;
    } else if l[a] == '#' {
        is_skippable = true;
    }
    if is_skippable {
        return collect_lines_exec(lines, from + 1, skip, acc);
    }
    let segs = split_q_exec(l, 0, 0, false, false);
    proof {
        assert(vecs_view(segs@).subrange(0, segs@.len() as int) =~= vecs_view(segs@));
    }
    let acc2 = line_vars_exec(acc, &segs, 0);
    collect_lines_exec(lines, from + 1, skip, acc2)
}

/// Pattern views of a compiled ignore list.
pub open spec fn patterns_of(ps: Seq<IgnorePattern>) -> Seq<Seq<char>> {
    Seq::new(ps.len(), |i: int| pattern_chars(&ps[i]))
}

/// A name is ignored when any pattern matches somewhere in it.
pub open spec fn name_ignored(pats: Seq<Seq<char>>, name: Seq<char>) -> bool {
    exists|i: int| 0 <= i < pats.len() && regex_found(pats[i], name)
}

/// Drop the ignored names.
pub open spec fn filter_names(names: Seq<Seq<char>>, pats: Seq<Seq<char>>) -> Seq<Seq<char>>
    decreases names.len(),
{
    if names.len() == 0 {
        Seq::empty()
    } else {
        let rest = filter_names(names.subrange(1, names.len() as int), pats);
        if name_ignored(pats, names[0]) {
            rest
        } else {
            seq![names[0]] + rest
        }
    }
}

/// What discovery returns: collect, filter, then sort.
pub open spec fn spec_discover_variables(source: Seq<char>, pats: Seq<Seq<char>>) -> Seq<
    Seq<char>,
> {
    sort_names(
        filter_names(collect_lines(split_lines_spec(source), 0, Seq::empty()), pats),
        Seq::empty(),
    )
}

/// Executable filter by the compiled patterns.
fn filter_names_exec(names: &Vec<Vec<char>>, from: usize, pats: &Vec<IgnorePattern>) -> (r: Vec<
    Vec<char>,
>)
    requires
        from <= names@.len(),
    ensures
        vecs_view(r@) == filter_names(
            vecs_view(names@).subrange(from as int, names@.len() as int),
            patterns_of(pats@),
        ),
    decreases names@.len() - from,
{
    let ghost rest = vecs_view(names@).subrange(from as int, names@.len() as int);
    let mut out: Vec<Vec<char>> = Vec::new();
    if from >= names.len() {
        proof {
            assert(vecs_view(out@) =~= filter_names(rest, patterns_of(pats@)));
        }
        return out;
    }
    proof {
        assert(rest[0] == names@[from as int]@);
        assert(rest.subrange(1, rest.len() as int) =~= vecs_view(names@).subrange(
            from + 1,
            names@.len() as int,
        ));
    }
    let tail = filter_names_exec(names, from + 1, pats);
    let name_str = chars_to_string(&names[from]);
    let mut hit = false;
    let pn = pats.len();
    let mut pi: usize = 0;
    while pi < pn
        invariant
            pn == pats@.len(),
            pi <= pn,
            name_str@ == names@[from as int]@,
            hit ==> name_ignored(patterns_of(pats@), names@[from as int]@),
            !hit ==> forall|m: int|
                0 <= m < pi ==> !regex_found(patterns_of(pats@)[m], names@[from as int]@),
        decreases pn - pi,
    {
        if !hit && pats[pi].is_match(name_str.as_str()) {
            hit = true;
            proof {
                assert(regex_found(patterns_of(pats@)[pi as int], names@[from as int]@));
            }
        }
        pi += 1;
    }
    if hit {
        return tail;
    }
    out.push(names[from].clone());
    let tn = tail.len();
    let mut t: usize = 0;
    while t < tn
        invariant
            tn == tail@.len(),
            t <= tn,
            vecs_view(out@) =~= seq![names@[from as int]@] + vecs_view(tail@).subrange(
                0,
                t as int,
            ),
        decreases tn - t,
    {
        let ghost before = out@;
        let item = tail[t].clone();
        proof {
            assert(item@ == tail@[t as int]@);
        }
        out.push(item);
        proof {
            assert(vecs_view(out@) =~= vecs_view(before).push(vecs_view(tail@)[t as int]));
            assert(vecs_view(tail@).subrange(0, t + 1) =~= vecs_view(tail@).subrange(
                0,
                t as int,
            ).push(vecs_view(tail@)[t as int]));
        }
        t += 1;
    }
    proof {
        assert(vecs_view(tail@).subrange(0, tn as int) =~= vecs_view(tail@));
        assert(vecs_view(out@) =~= filter_names(rest, patterns_of(pats@)));
    }
    out
}

/// Discover all local variable names bound anywhere in `source`, drop the
/// ones an ignore pattern matches, and return them sorted by length
/// descending, then alphabetically.
pub fn discover_variables(source: &str, ignore_patterns: &Vec<IgnorePattern>) -> (r: Vec<String>)
    ensures
        strings_view(r@) == spec_discover_variables(source@, patterns_of(ignore_patterns@)),
{
    let raw = str_to_chars(source);
    let lines = split_lines(&raw);
    let empty_acc: Vec<Vec<char>> = Vec::new();
    let collected = collect_lines_exec(&lines, 0, 0, empty_acc);
    proof {
        assert(vecs_view(lines@).subrange(0, lines@.len() as int) =~= vecs_view(lines@));
        assert(vecs_view(Seq::<Vec<char>>::empty()) =~= Seq::<Seq<char>>::empty());
    }
    let kept = filter_names_exec(&collected, 0, ignore_patterns);
    proof {
        assert(vecs_view(collected@).subrange(0, collected@.len() as int) =~= vecs_view(
            collected@,
        ));
    }
    let mut sorted: Vec<Vec<char>> = Vec::new();
    let kn = kept.len();
    let mut i: usize = 0;
    proof {
        assert(vecs_view(sorted@) =~= Seq::<Seq<char>>::empty());
        assert(vecs_view(kept@).subrange(0, kn as int) =~= vecs_view(kept@));
    }
    while i < kn
        invariant
            kn == kept@.len(),
            i <= kn,
            sort_names(vecs_view(kept@).subrange(i as int, kn as int), vecs_view(sorted@))
                == sort_names(vecs_view(kept@), Seq::empty()),
        decreases kn - i,
    {
        let ghost rest = vecs_view(kept@).subrange(i as int, kn as int);
        proof {
            assert(rest[0] == kept@[i as int]@);
            assert(rest.subrange(1, rest.len() as int) =~= vecs_view(kept@).subrange(
                i + 1,
                kn as int,
            ));
        }
        sorted = insert_sorted_exec(kept[i].clone(), sorted);
        i += 1;
    }
    proof {
        assert(vecs_view(kept@).subrange(kn as int, kn as int) =~= Seq::<Seq<char>>::empty());
        assert(sort_names(Seq::<Seq<char>>::empty(), vecs_view(sorted@)) == vecs_view(sorted@));
    }
    to_strings(&sorted)
}

} // verus!
