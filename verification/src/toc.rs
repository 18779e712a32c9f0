//! Table-of-contents anchors and links for rendered markdown.

use vstd::prelude::*;

verus! {

use crate::text::{
    is_lower_char, is_digit_char, str_to_chars, chars_to_string, subrange_chars,
    extend_chars, extend_str, matches_at, match_at, space_char,
};

/// Lower-case an ASCII letter; other characters pass through.
pub open spec fn to_lower(c: char) -> char {
    if 'A' as u32 <= c as u32 && c as u32 <= 'Z' as u32 {
        ((c as u32 + 32) as u8) as char
    } else {
        c
    }
}

/// A character the anchor slug keeps: ASCII letters and digits, space,
/// hyphen.
pub open spec fn slug_keep(c: char) -> bool {
    is_lower_char(c) || is_digit_char(c) || c == ' ' || c == '-'
}

/// The anchor slug of a heading: lower-cased, everything but letters,
/// digits, spaces and hyphens removed, spaces turned into hyphens.
pub open spec fn slug_spec(s: Seq<char>) -> Seq<char>
    decreases s.len(),
{
    if s.len() == 0 {
        Seq::empty()
    } else {
        let c = to_lower(s[0]);
        let rest = slug_spec(s.subrange(1, s.len() as int));
        if c == ' ' {
            seq!['-'] + rest
        } else if slug_keep(c) {
            seq![c] + rest
        } else {
            rest
        }
    }
}

/// The anchor slug used in generated links.
pub fn github_slug(text: &str) -> (r: String)
    ensures
        r@ == slug_spec(text@),
{
    let v = str_to_chars(text);
    let n = v.len();
    let mut out: Vec<char> = Vec::new();
    let mut i: usize = 0;
    proof {
        assert(v@.subrange(0, n as int) =~= v@);
    }
    while i < n
        invariant
            n == v@.len(),
            i <= n,
            out@ + slug_spec(v@.subrange(i as int, n as int)) == slug_spec(v@),
        decreases n - i,
    {
        let ghost rest = v@.subrange(i as int, n as int);
        proof {
            assert(rest[0] == v@[i as int]);
            assert(rest.subrange(1, rest.len() as int) =~= v@.subrange(i + 1, n as int));
        }
        let c0 = v[i];
        let u = c0 as u32;
        let c: char = if 'A' as u32 <= u && u <= 'Z' as u32 {
            let l = u + 32;
            proof {
                assert(to_lower(v@[i as int]) == ((l as u8) as char));
            }
            (l as u8) as char
        } else {
            c0
        };
        proof {
            assert(c == to_lower(v@[i as int]));
        }
        if c == ' ' {
            out.push('-');
            proof {
                assert(out@ + slug_spec(v@.subrange(i + 1, n as int)) =~= slug_spec(v@));
            }
        } else {
            let keep = ('a' as u32 <= c as u32 && c as u32 <= 'z' as u32) || ('0' as u32 <= c
                as u32 && c as u32 <= '9' as u32) || c == '-';
            if keep {
                out.push(c);
                proof {
                    assert(out@ + slug_spec(v@.subrange(i + 1, n as int)) =~= slug_spec(v@));
                }
            }
        }
        i += 1;
    }
    proof {
        assert(slug_spec(v@.subrange(n as int, n as int)) =~= Seq::<char>::empty());
        assert(out@ + Seq::<char>::empty() =~= out@);
    }
    chars_to_string(&out)
}

/// First `]` at or after `k`.
pub open spec fn first_close(s: Seq<char>, k: int) -> Option<int>
    decreases s.len() - k,
{
    if k < 0 || k >= s.len() {
        None
    } else if s[k] == ']' {
        Some(k)
    } else {
        first_close(s, k + 1)
    }
}

/// A markdown link shape somewhere at or after `i`: a `[` whose first
/// following `]` is directly followed by `(`.
pub open spec fn has_md_link(s: Seq<char>, i: int) -> bool
    decreases s.len() - i,
{
    if i < 0 || i >= s.len() {
        false
    } else if s[i] == '[' && ({
        match first_close(s, i + 1) {
            Some(j) => j + 1 < s.len() && s[j + 1] == '(',
            None => false,
        }
    }) {
        true
    } else {
        has_md_link(s, i + 1)
    }
}

/// A bare URL marker `://` at or after `i` before any `](` was passed.
pub open spec fn has_bare_url(s: Seq<char>, i: int, seen: bool) -> bool
    decreases s.len() - i,
{
    if i < 0 || i >= s.len() {
        false
    } else if s.len() - i > 2 && s[i] == ':' && s[i + 1] == '/' && s[i + 2] == '/' {
        !seen
    } else if s.len() - i > 1 && s[i] == ']' && s[i + 1] == '(' {
        has_bare_url(s, i + 1, true)
    } else {
        has_bare_url(s, i + 1, seen)
    }
}

/// A relative path: leading `/`, `./` or `../`.
pub open spec fn is_relative_path(s: Seq<char>) -> bool {
    (s.len() >= 1 && s[0] == '/') || match_at(s, 0, "./"@) || match_at(s, 0, "../"@)
}

/// Executable first-`]` search.
fn first_close_exec(v: &Vec<char>, k: usize) -> (r: Option<usize>)
    requires
        k <= v@.len(),
    ensures
        match r {
            Some(j) => first_close(v@, k as int) == Some(j as int) && j < v@.len(),
            None => first_close(v@, k as int) is None,
        },
    decreases v@.len() - k,
{
    let n = v.len();
    if k >= n {
        return None;
    }
    if v[k] == ']' {
        return Some(k);
    }
    first_close_exec(v, k + 1)
}

/// Whether the text already holds a markdown link.
fn contains_markdown_link(v: &Vec<char>, i: usize) -> (r: bool)
    requires
        i <= v@.len(),
    ensures
        r == has_md_link(v@, i as int),
    decreases v@.len() - i,
{
    let n = v.len();
    if i >= n {
        return false;
    }
    if v[i] == '[' {
        if let Some(j) = first_close_exec(v, i + 1) {
            if j + 1 < n && v[j + 1] == '(' {
                return true;
            }
        }
    }
    contains_markdown_link(v, i + 1)
}

/// Whether the text holds a bare URL: `://` not already inside a link.
fn contains_bare_url(v: &Vec<char>, i: usize, seen: bool) -> (r: bool)
    requires
        i <= v@.len(),
    ensures
        r == has_bare_url(v@, i as int, seen),
    decreases v@.len() - i,
{
    let n = v.len();
    if i >= n {
        return false;
    }
    if n - i > 2 && v[i] == ':' && v[i + 1] == '/' && v[i + 2] == '/' {
        return !seen;
    }
    if n - i > 1 && v[i] == ']' && v[i + 1] == '(' {
        return contains_bare_url(v, i + 1, true);
    }
    contains_bare_url(v, i + 1, seen)
}

/// Wrap the first URL of each known scheme in markdown link syntax.
fn wrap_bare_urls(v: &Vec<char>) -> (r: Vec<char>)
{
    let mut cur: Vec<char> = Vec::new();
    extend_chars(&mut cur, v);
    let mut round: usize = 0;
    while round < 3
        invariant
            round <= 3,
        decreases 3 - round,
    {
        let scheme: &str = if round == 0 {
            "http://"
        } else if round == 1 {
            "https://"
        } else {
            "ftp://"
        };
        let pat = str_to_chars(scheme);
        let n = cur.len();
        let mut i: usize = 0;
        let mut hit: Option<usize> = None;
        while i < n
            invariant
                n == cur@.len(),
                i <= n,
                hit is Some ==> hit.unwrap() <= n,
            decreases n - i,
        {
            if hit.is_none() && matches_at(&cur, i, &pat) {
                hit = Some(i);
            }
            i += 1;
        }
        if let Some(start) = hit {
            let n2 = cur.len();
            let mut e: usize = start;
            while e < n2 && !space_char(cur[e])
                invariant
                    start <= e <= n2 == cur@.len(),
                decreases n2 - e,
            {
                e += 1;
            }
            let url = subrange_chars(&cur, start, e);
            let mut next = subrange_chars(&cur, 0, start);
            next.push('[');
            extend_chars(&mut next, &url);
            next.push(']');
            next.push('(');
            extend_chars(&mut next, &url);
            next.push(')');
            let tail = subrange_chars(&cur, e, n2);
            extend_chars(&mut next, &tail);
            cur = next;
        }
        round += 1;
    }
    cur
}

/// Generate a table-of-contents link for a function name: a relative
/// path links to itself, text with a markdown link passes through, a
/// bare URL is wrapped, and everything else links to its anchor slug.
pub fn render_toc_link(text: &str) -> (r: String)
    ensures
        is_relative_path(text@) ==> r@ == "["@ + text@ + "]("@ + text@ + ")"@,
        !is_relative_path(text@) && has_md_link(text@, 0) ==> r@ == text@,
        !is_relative_path(text@) && !has_md_link(text@, 0) && !has_bare_url(text@, 0, false)
            ==> r@ == "["@ + text@ + "](#"@ + slug_spec(text@) + ")"@,
{
    proof {
        reveal_strlit("/");
        reveal_strlit("./");
        reveal_strlit("../");
        reveal_strlit("[");
        reveal_strlit("](");
        reveal_strlit(")");
        reveal_strlit("](#");
    }
    let v = str_to_chars(text);
    let slash = str_to_chars("/");
    let dot_slash = str_to_chars("./");
    let dotdot_slash = str_to_chars("../");
    let relative = matches_at(&v, 0, &slash) || matches_at(&v, 0, &dot_slash) || matches_at(
        &v,
        0,
        &dotdot_slash,
    );
    proof {
        if v@.len() >= 1 && v@[0] == '/' {
            assert(v@.subrange(0, 1) =~= "/"@);
        }
        if match_at(v@, 0, "/"@) {
            assert(v@.subrange(0, 1)[0] == v@[0]);
        }
        assert(relative == is_relative_path(text@));
    }
    if relative {
        let mut out: Vec<char> = Vec::new();
        out.push('[');
        extend_chars(&mut out, &v);
        out.push(']');
        out.push('(');
        extend_chars(&mut out, &v);
        out.push(')');
        proof {
            assert(out@ =~= "["@ + text@ + "]("@ + text@ + ")"@);
        }
        return chars_to_string(&out);
    }
    if contains_markdown_link(&v, 0) {
        return chars_to_string(&v);
    }
    if contains_bare_url(&v, 0, false) {
        let wrapped = wrap_bare_urls(&v);
        return chars_to_string(&wrapped);
    }
    let slug = github_slug(text);
    let slug_chars = str_to_chars(slug.as_str());
    let mut out: Vec<char> = Vec::new();
    out.push('[');
    extend_chars(&mut out, &v);
    out.push(']');
    out.push('(');
    out.push('#');
    extend_chars(&mut out, &slug_chars);
    out.push(')');
    proof {
        assert(out@ =~= "["@ + text@ + "](#"@ + slug_spec(text@) + ")"@);
    }
    chars_to_string(&out)
}

/// Generate a table-of-contents list item.
pub fn render_toc_item(title: &str) -> (r: String)
{
    let link = render_toc_link(title);
    let mut out: Vec<char> = Vec::new();
    out.push('*');
    out.push(' ');
    extend_str(&mut out, link.as_str());
    chars_to_string(&out)
}

} // verus!
