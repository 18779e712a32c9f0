//! Per-line normalisation for bash minification.
//!
//! Each line loses its leading indentation, one trailing lone semicolon
//! (never the second half of a `;;` case terminator) and an end-of-line
//! comment whose `#` stands outside every quoted string between whitespace
//! on both sides.  Heredoc bodies pass through unchanged.

use vstd::prelude::*;

verus! {

use crate::text::{
    is_blank_char, is_space_char, leading_blanks, lemma_leading_blanks, run_len, lemma_run_len,
    trailing_spaces, lemma_trailing_spaces, count_trailing_spaces, count_leading_blanks,
    space_char, trim_spec, trim_chars, str_to_chars, chars_to_string, subrange_chars, matches_at,
    strings_view,
};
use crate::strip::{hd_search, heredoc_delim_spec};

// -- Quote scan with single-character escape look-back -------------------------

/// Quote state used by the comment stripper: a quote toggles unless the
/// directly preceding character is a backslash (inside single quotes the
/// backslash has no power).
pub open spec fn fl_state_at(s: Seq<char>, i: int) -> (bool, bool)
    decreases i,
{
    if i <= 0 || i > s.len() {
        (false, false)
    } else {
        let st = fl_state_at(s, i - 1);
        let c = s[i - 1];
        let prev_bs = i - 2 >= 0 && s[i - 2] == '\\';
        if c == '\'' && !st.1 && (st.0 || !prev_bs) {
            (!st.0, st.1)
        } else if c == '"' && !st.0 && !prev_bs {
            (st.0, !st.1)
        } else {
            st
        }
    }
}

/// Position of the first strippable end-of-line comment marker at or after `i`.
pub open spec fn eol_comment_pos(s: Seq<char>, i: int) -> Option<int>
    decreases s.len() - i,
{
    if i < 0 || i >= s.len() {
        None
    } else if s[i] == '#' && !fl_state_at(s, i).0 && !fl_state_at(s, i).1 && i > 0
        && is_space_char(s[i - 1]) && i + 1 < s.len() && is_space_char(s[i + 1]) {
        Some(i)
    } else {
        eol_comment_pos(s, i + 1)
    }
}

/// The marker search only ever stops outside both quote kinds.
proof fn lemma_eol_marker_outside_quotes(s: Seq<char>, k: int)
    requires
        0 <= k,
    ensures
        match eol_comment_pos(s, k) {
            Some(i) => k <= i < s.len() && !fl_state_at(s, i).0 && !fl_state_at(s, i).1,
            None => true,
        },
    decreases s.len() - k,
{
    if k < s.len() {
        if !(s[k] == '#' && !fl_state_at(s, k).0 && !fl_state_at(s, k).1 && k > 0
            && is_space_char(s[k - 1]) && k + 1 < s.len() && is_space_char(s[k + 1])) {
            lemma_eol_marker_outside_quotes(s, k + 1);
        }
    }
}

/// The quote-literal guarantee of comment stripping: the stripped `#`
/// marker always stands outside single and double quotes, and the kept
/// text is a whitespace-trimmed prefix of the line — so a quoted span is
/// never cut into.
pub proof fn lemma_flatten_comment_quote_safe(s: Seq<char>)
    ensures
        match eol_comment_pos(s, 0) {
            Some(i) => 0 <= i < s.len() && !fl_state_at(s, i).0 && !fl_state_at(s, i).1
                && spec_strip_eol_comment(s) == rtrim(s.subrange(0, i)) + seq![' '],
            None => spec_strip_eol_comment(s) == s,
        },
{
    lemma_eol_marker_outside_quotes(s, 0);
}

/// Remove trailing whitespace.
pub open spec fn rtrim(s: Seq<char>) -> Seq<char> {
    s.subrange(0, s.len() - trailing_spaces(s))
}

/// Strip an end-of-line comment, if one is found outside all quotes.
pub open spec fn spec_strip_eol_comment(s: Seq<char>) -> Seq<char> {
    match eol_comment_pos(s, 0) {
        Some(i) => rtrim(s.subrange(0, i)) + seq![' '],
        None => s,
    }
}

/// Flatten one line: drop indentation, one lone trailing `;`, and an
/// end-of-line comment.
pub open spec fn spec_flatten_line(s: Seq<char>) -> Seq<char> {
    let a = s.subrange(leading_blanks(s), s.len() as int);
    let b = if a.len() >= 2 && a[a.len() - 1] == ';' && a[a.len() - 2] != ';' {
        a.drop_last()
    } else {
        a
    };
    spec_strip_eol_comment(b)
}

/// Executable comment-marker search.
fn find_eol_comment(v: &Vec<char>) -> (r: Option<usize>)
    ensures
        match r {
            Some(i) => eol_comment_pos(v@, 0) == Some(i as int) && i < v@.len(),
            None => eol_comment_pos(v@, 0) is None,
        },
{
    let n = v.len();
    let mut in_single = false;
    let mut in_double = false;
    let mut i: usize = 0;
    while i < n
        invariant
            n == v@.len(),
            i <= n,
            (in_single, in_double) == fl_state_at(v@, i as int),
            eol_comment_pos(v@, 0) == eol_comment_pos(v@, i as int),
        decreases n - i,
    {
        let c = v[i];
        if c == '#' && !in_single && !in_double && i > 0 && space_char(v[i - 1]) && i + 1 < n
            && space_char(v[i + 1]) {
            return Some(i);
        }
        let prev_bs = i >= 1 && v[i - 1] == '\\';
        if c == '\'' && !in_double && (in_single || !prev_bs) {
            in_single = !in_single;
        } else if c == '"' && !in_single && !prev_bs {
            in_double = !in_double;
        }
        i += 1;
    }
    None
}

/// Remove trailing whitespace, executably.
pub fn rtrim_chars(v: &Vec<char>) -> (r: Vec<char>)
    ensures
        r@ == rtrim(v@),
{
    let t = count_trailing_spaces(v);
    subrange_chars(v, 0, v.len() - t)
}

/// Flatten a single line.
pub fn flatten_line(line: &str) -> (r: String)
    ensures
        r@ == spec_flatten_line(line@),
{
    let v = str_to_chars(line);
    let out = flatten_line_chars(&v);
    chars_to_string(&out)
}

/// Flatten a single line, on character vectors.
pub fn flatten_line_chars(v: &Vec<char>) -> (r: Vec<char>)
    ensures
        r@ == spec_flatten_line(v@),
{
    proof {
        lemma_leading_blanks(v@);
    }
    let lb = count_leading_blanks(v);
    let mut a = subrange_chars(v, lb, v.len());
    if a.len() >= 2 && a[a.len() - 1] == ';' && a[a.len() - 2] != ';' {
        a.pop();
        proof {
            assert(a@ =~= v@.subrange(leading_blanks(v@), v@.len() as int).drop_last());
        }
    }
    match find_eol_comment(&a) {
        Some(i) => {
            let prefix = subrange_chars(&a, 0, i);
            let mut out = rtrim_chars(&prefix);
            out.push(' ');
            proof {
                assert(out@ =~= rtrim(a@.subrange(0, i as int)) + seq![' ']);
            }
            out
        },
        None => a,
    }
}

// -- The heredoc-aware pass ----------------------------------------------------

/// The flatten pass over a line sequence: heredoc bodies verbatim, every
/// other line flattened; a heredoc opener (looked for anywhere in the line)
/// arms verbatim mode and is itself still flattened.
pub open spec fn flatten_scan(lines: Seq<Seq<char>>, hd: Option<Seq<char>>) -> Seq<Seq<char>>
    decreases lines.len(),
{
    if lines.len() == 0 {
        Seq::empty()
    } else {
        let l = lines[0];
        let rest = lines.subrange(1, lines.len() as int);
        match hd {
            Some(d) => seq![l] + flatten_scan(rest, if trim_spec(l) == d {
                None
            } else {
                Some(d)
            }),
            None => seq![spec_flatten_line(l)] + flatten_scan(rest, hd_search(l, 0)),
        }
    }
}

/// The whole flatten phase.
pub open spec fn spec_flatten_lines(lines: Seq<Seq<char>>) -> Seq<Seq<char>> {
    flatten_scan(lines, None)
}

/// Flatten all lines, preserving heredoc content verbatim.
pub fn flatten_lines(lines: &Vec<String>) -> (r: Vec<String>)
    ensures
        strings_view(r@) == spec_flatten_lines(strings_view(lines@)),
{
    let n = lines.len();
    let mut out: Vec<String> = Vec::new();
    let mut hd: Option<Vec<char>> = None;
    let mut i: usize = 0;
    proof {
        assert(strings_view(lines@).subrange(0, n as int) =~= strings_view(lines@));
        assert(strings_view(out@) + flatten_scan(strings_view(lines@), None)
            =~= spec_flatten_lines(strings_view(lines@)));
    }
    while i < n
        invariant
            n == lines@.len(),
            i <= n,
            strings_view(out@) + flatten_scan(
                strings_view(lines@).subrange(i as int, n as int),
                match hd {
                    Some(d) => Some(d@),
                    None => None,
                },
            ) == spec_flatten_lines(strings_view(lines@)),
        decreases n - i,
    {
        let ghost rest = strings_view(lines@).subrange(i as int, n as int);
        proof {
            assert(rest[0] == lines@[i as int]@);
            assert(rest.subrange(1, rest.len() as int) =~= strings_view(lines@).subrange(
                i + 1,
                n as int,
            ));
        }
        let line = str_to_chars(&lines[i]);
        let mut done_with_hd = false;
        match &hd {
            Some(d) => {
                let ghost before = out@;
                out.push(chars_to_string(&line));
                proof {
                    assert(strings_view(out@) =~= strings_view(before).push(line@));
                }
                let t = trim_chars(&line);
                let mut eq = t.len() == d.len();
                if eq {
                    eq = matches_at(&t, 0, d);
                    proof {
                        assert(t@.subrange(0, d@.len() as int) =~= t@);
                        if eq {
                            assert(t@ == d@);
                        } else {
                            assert(t@ != d@);
                        }
                    }
                } else {
                    proof {
                        assert(t@ != d@);
                    }
                }
                proof {
                    assert(eq == (trim_spec(lines@[i as int]@) == d@));
                }
                if eq {
                    done_with_hd = true;
                }
            },
            None => {
                let nd = heredoc_anywhere(&line);
                let flat = flatten_line_chars(&line);
                let ghost before = out@;
                out.push(chars_to_string(&flat));
                proof {
                    assert(strings_view(out@) =~= strings_view(before).push(
                        spec_flatten_line(line@),
                    ));
                }
                hd = nd;
            },
        }
        if done_with_hd {
            hd = None;
        }
        proof {
            assert(strings_view(out@) + flatten_scan(
                strings_view(lines@).subrange(i + 1, n as int),
                match hd {
                    Some(d) => Some(d@),
                    None => None,
                },
            ) =~= spec_flatten_lines(strings_view(lines@)));
        }
        i += 1;
    }
    proof {
        assert(flatten_scan(strings_view(lines@).subrange(n as int, n as int), match hd {
            Some(d) => Some(d@),
            None => None,
        }) =~= Seq::<Seq<char>>::empty());
        assert(strings_view(out@) + Seq::<Seq<char>>::empty() =~= strings_view(out@));
    }
    out
}

/// Quote-blind heredoc opener search over the whole line.
pub fn heredoc_anywhere(v: &Vec<char>) -> (r: Option<Vec<char>>)
    ensures
        match r {
            Some(d) => hd_search(v@, 0) == Some(d@),
            None => hd_search(v@, 0) is None,
        },
{
    crate::strip::hd_search_from(v, 0)
}

} // verus!
