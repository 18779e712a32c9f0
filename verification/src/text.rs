//! Conversions between `str`/`String` and character vectors.
//!
//! Every transformation in this crate works on `Vec<char>`, whose view is
//! the same `Seq<char>` as the view of the string it came from.

use vstd::prelude::*;

verus! {

use vstd::string::StrSliceExecFns;
use vstd::string::StringExecFns;

/// Collect the characters of a string slice into a vector with the same view.
pub fn str_to_chars(s: &str) -> (r: Vec<char>)
    ensures
        r@ == s@,
{
    let n: usize = s.unicode_len();
    let mut r: Vec<char> = Vec::new();
    let mut i: usize = 0;
    while i < n
        invariant
            n == s@.len(),
            i <= n,
            r@ == s@.subrange(0, i as int),
        decreases n - i,
    {
        r.push(s.get_char(i));
        i += 1;
    }
    proof {
        assert(r@ =~= s@);
    }
    r
}

/// Relies on String's FromIterator impl: collecting chars yields a string
/// whose view is exactly the input sequence.
#[verifier::external_body]
pub fn chars_to_string(v: &Vec<char>) -> (s: String)
    ensures
        s@ == v@,
{
    v.iter().collect()
}

/// Append the characters of `src` to `dst`.
pub fn extend_chars(dst: &mut Vec<char>, src: &Vec<char>)
    ensures
        final(dst)@ == old(dst)@ + src@,
{
    let n = src.len();
    let mut i: usize = 0;
    while i < n
        invariant
            n == src@.len(),
            i <= n,
            dst@ == old(dst)@ + src@.subrange(0, i as int),
        decreases n - i,
    {
        dst.push(src[i]);
        i += 1;
    }
    proof {
        assert(dst@ =~= old(dst)@ + src@);
    }
}

/// Append the characters of a string slice to `dst`.
pub fn extend_str(dst: &mut Vec<char>, src: &str)
    ensures
        final(dst)@ == old(dst)@ + src@,
{
    let v = str_to_chars(src);
    extend_chars(dst, &v);
}

/// The characters of a sub-range, as a fresh vector.
pub fn subrange_chars(v: &Vec<char>, from: usize, to: usize) -> (r: Vec<char>)
    requires
        from <= to <= v@.len(),
    ensures
        r@ == v@.subrange(from as int, to as int),
{
    let mut r: Vec<char> = Vec::new();
    let mut i: usize = from;
    while i < to
        invariant
            from <= i <= to <= v@.len(),
            r@ == v@.subrange(from as int, i as int),
        decreases to - i,
    {
        r.push(v[i]);
        i += 1;
    }
    proof {
        assert(r@ =~= v@.subrange(from as int, to as int));
    }
    r
}

/// Make a `String` out of a sequence of character-vector lines joined by `\n`.
pub open spec fn join_lines_spec(lines: Seq<Seq<char>>) -> Seq<char>
    decreases lines.len(),
{
    if lines.len() == 0 {
        Seq::empty()
    } else if lines.len() == 1 {
        lines[0]
    } else {
        lines[0] + seq!['\n'] + join_lines_spec(lines.subrange(1, lines.len() as int))
    }
}

} // verus!

verus! {

/// Space or tab: the horizontal whitespace the line grammar cares about.
pub open spec fn is_blank_char(c: char) -> bool {
    c == ' ' || c == '\t'
}

/// Whitespace as the line rules use it (a line never holds a raw newline,
/// except the sentinel some passes append).
pub open spec fn is_space_char(c: char) -> bool {
    c == ' ' || c == '\t' || c == '\n' || c == '\r'
}

/// A bash identifier character.
pub open spec fn is_word_char(c: char) -> bool {
    ('a' as u32 <= c as u32 && c as u32 <= 'z' as u32)
        || ('A' as u32 <= c as u32 && c as u32 <= 'Z' as u32)
        || ('0' as u32 <= c as u32 && c as u32 <= '9' as u32)
        || c == '_'
}

/// A lower-case letter.
pub open spec fn is_lower_char(c: char) -> bool {
    'a' as u32 <= c as u32 && c as u32 <= 'z' as u32
}

/// A digit.
pub open spec fn is_digit_char(c: char) -> bool {
    '0' as u32 <= c as u32 && c as u32 <= '9' as u32
}

/// Executable check mirroring `is_blank_char`.
pub fn blank_char(c: char) -> (r: bool)
    ensures
        r == is_blank_char(c),
{
    c == ' ' || c == '\t'
}

/// Executable check mirroring `is_space_char`.
pub fn space_char(c: char) -> (r: bool)
    ensures
        r == is_space_char(c),
{
    c == ' ' || c == '\t' || c == '\n' || c == '\r'
}

/// Executable check mirroring `is_word_char`.
pub fn word_char(c: char) -> (r: bool)
    ensures
        r == is_word_char(c),
{
    let u = c as u32;
    ('a' as u32 <= u && u <= 'z' as u32)
        || ('A' as u32 <= u && u <= 'Z' as u32)
        || ('0' as u32 <= u && u <= '9' as u32)
        || c == '_'
}

/// Number of leading blank (space/tab) characters.
pub open spec fn leading_blanks(s: Seq<char>) -> int
    decreases s.len(),
{
    if s.len() == 0 || !is_blank_char(s[0]) {
        0
    } else {
        1 + leading_blanks(s.subrange(1, s.len() as int))
    }
}

/// `leading_blanks` is at most the length, and everything before it is blank.
pub proof fn lemma_leading_blanks(s: Seq<char>)
    ensures
        0 <= leading_blanks(s) <= s.len(),
        forall|k: int| 0 <= k < leading_blanks(s) ==> is_blank_char(s[k]),
        leading_blanks(s) < s.len() ==> !is_blank_char(s[leading_blanks(s)]),
    decreases s.len(),
{
    if s.len() == 0 || !is_blank_char(s[0]) {
    } else {
        lemma_leading_blanks(s.subrange(1, s.len() as int));
        assert forall|k: int| 0 <= k < leading_blanks(s) implies is_blank_char(s[k]) by {
            if k > 0 {
                assert(s.subrange(1, s.len() as int)[k - 1] == s[k]);
            }
        }
        if leading_blanks(s) < s.len() {
            assert(s.subrange(1, s.len() as int)[leading_blanks(s) - 1] == s[leading_blanks(s)]);
        }
    }
}

/// Executable count of leading blanks.
pub fn count_leading_blanks(v: &Vec<char>) -> (r: usize)
    ensures
        r == leading_blanks(v@),
{
    let n = v.len();
    let mut i: usize = 0;
    proof {
        assert(v@.subrange(0, n as int) =~= v@);
    }
    while i < n && blank_char(v[i])
        invariant
            n == v@.len(),
            i <= n,
            leading_blanks(v@) == i + leading_blanks(v@.subrange(i as int, n as int)),
        decreases n - i,
    {
        proof {
            let rest = v@.subrange(i as int, n as int);
            assert(rest[0] == v@[i as int]);
            assert(rest.subrange(1, rest.len() as int)
                =~= v@.subrange(i + 1, n as int));
        }
        i += 1;
    }
    proof {
        let rest = v@.subrange(i as int, n as int);
        if i < n {
            assert(rest[0] == v@[i as int]);
        }
        assert(leading_blanks(rest) == 0);
    }
    i
}

} // verus!

verus! {

/// Length of the run of characters satisfying `f` that starts at index `i`.
pub open spec fn run_len(s: Seq<char>, i: int, f: spec_fn(char) -> bool) -> int
    decreases s.len() - i,
{
    if i < 0 || i >= s.len() || !f(s[i]) {
        0
    } else {
        1 + run_len(s, i + 1, f)
    }
}

/// Bounds and content of a run.
pub proof fn lemma_run_len(s: Seq<char>, i: int, f: spec_fn(char) -> bool)
    requires
        0 <= i <= s.len(),
    ensures
        0 <= run_len(s, i, f),
        i + run_len(s, i, f) <= s.len(),
        forall|k: int| i <= k < i + run_len(s, i, f) ==> f(s[k]),
        i + run_len(s, i, f) < s.len() ==> !f(s[i + run_len(s, i, f)]),
    decreases s.len() - i,
{
    if i < s.len() && f(s[i]) {
        lemma_run_len(s, i + 1, f);
    }
}

/// The word `w` occurs in `s` starting at index `i`.
pub open spec fn match_at(s: Seq<char>, i: int, w: Seq<char>) -> bool {
    0 <= i && i + w.len() <= s.len() && s.subrange(i, i + w.len() as int) == w
}

/// Executable run of blanks (space/tab) starting at `i`.
pub fn blank_run_at(v: &Vec<char>, i: usize) -> (r: usize)
    requires
        i <= v@.len(),
    ensures
        r == run_len(v@, i as int, |c: char| is_blank_char(c)),
        i + r <= v@.len(),
{
    let n = v.len();
    let mut j: usize = i;
    while j < n && blank_char(v[j])
        invariant
            i <= j <= n == v@.len(),
            run_len(v@, i as int, |c: char| is_blank_char(c))
                == (j - i) + run_len(v@, j as int, |c: char| is_blank_char(c)),
        decreases n - j,
    {
        j += 1;
    }
    j - i
}

/// Executable run of whitespace starting at `i`.
pub fn space_run_at(v: &Vec<char>, i: usize) -> (r: usize)
    requires
        i <= v@.len(),
    ensures
        r == run_len(v@, i as int, |c: char| is_space_char(c)),
        i + r <= v@.len(),
{
    let n = v.len();
    let mut j: usize = i;
    while j < n && space_char(v[j])
        invariant
            i <= j <= n == v@.len(),
            run_len(v@, i as int, |c: char| is_space_char(c))
                == (j - i) + run_len(v@, j as int, |c: char| is_space_char(c)),
        decreases n - j,
    {
        j += 1;
    }
    j - i
}

/// Executable run of identifier characters starting at `i`.
pub fn word_run_at(v: &Vec<char>, i: usize) -> (r: usize)
    requires
        i <= v@.len(),
    ensures
        r == run_len(v@, i as int, |c: char| is_word_char(c)),
        i + r <= v@.len(),
{
    let n = v.len();
    let mut j: usize = i;
    while j < n && word_char(v[j])
        invariant
            i <= j <= n == v@.len(),
            run_len(v@, i as int, |c: char| is_word_char(c))
                == (j - i) + run_len(v@, j as int, |c: char| is_word_char(c)),
        decreases n - j,
    {
        j += 1;
    }
    j - i
}

/// Executable test that `w` occurs in `v` at index `i`.
pub fn matches_at(v: &Vec<char>, i: usize, w: &Vec<char>) -> (r: bool)
    ensures
        r == match_at(v@, i as int, w@),
{
    let wn = w.len();
    if i > v.len() || v.len() - i < wn {
        proof {
            assert(!match_at(v@, i as int, w@));
        }
        return false;
    }
    let mut k: usize = 0;
    while k < wn
        invariant
            k <= wn == w@.len(),
            i + wn <= v@.len(),
            i + wn <= usize::MAX,
            forall|m: int| 0 <= m < k ==> v@[i + m] == w@[m],
        decreases wn - k,
    {
        if v[i + k] != w[k] {
            proof {
                assert(v@.subrange(i as int, i + wn as int)[k as int] != w@[k as int]);
            }
            return false;
        }
        k += 1;
    }
    proof {
        assert(v@.subrange(i as int, i + wn as int) =~= w@);
    }
    true
}

/// Number of trailing whitespace characters.
pub open spec fn trailing_spaces(s: Seq<char>) -> int
    decreases s.len(),
{
    if s.len() == 0 || !is_space_char(s[s.len() - 1]) {
        0
    } else {
        1 + trailing_spaces(s.drop_last())
    }
}

/// Bounds and content of the trailing-space run.
pub proof fn lemma_trailing_spaces(s: Seq<char>)
    ensures
        0 <= trailing_spaces(s) <= s.len(),
        forall|k: int| s.len() - trailing_spaces(s) <= k < s.len() ==> is_space_char(s[k]),
        trailing_spaces(s) < s.len() ==> !is_space_char(s[s.len() - trailing_spaces(s) - 1]),
    decreases s.len(),
{
    if s.len() > 0 && is_space_char(s[s.len() - 1]) {
        lemma_trailing_spaces(s.drop_last());
        assert forall|k: int| s.len() - trailing_spaces(s) <= k < s.len() implies is_space_char(
            s[k],
        ) by {
            if k < s.len() - 1 {
                assert(s.drop_last()[k] == s[k]);
            }
        }
        if trailing_spaces(s) < s.len() {
            assert(s.drop_last()[s.len() - trailing_spaces(s) - 1]
                == s[s.len() - trailing_spaces(s) - 1]);
        }
    }
}

/// Executable count of trailing whitespace.
pub fn count_trailing_spaces(v: &Vec<char>) -> (r: usize)
    ensures
        r == trailing_spaces(v@),
        r <= v@.len(),
{
    let n = v.len();
    let mut j: usize = n;
    proof {
        assert(v@.subrange(0, n as int) =~= v@);
    }
    while j > 0 && space_char(v[j - 1])
        invariant
            j <= n == v@.len(),
            trailing_spaces(v@) == (n - j) + trailing_spaces(v@.subrange(0, j as int)),
        decreases j,
    {
        proof {
            let pre = v@.subrange(0, j as int);
            assert(pre[pre.len() - 1] == v@[j - 1]);
            assert(pre.drop_last() =~= v@.subrange(0, j - 1));
        }
        j -= 1;
    }
    proof {
        let pre = v@.subrange(0, j as int);
        if j > 0 {
            assert(pre[pre.len() - 1] == v@[j - 1]);
        }
        assert(trailing_spaces(pre) == 0);
    }
    n - j
}

/// A line with its surrounding whitespace removed.
pub open spec fn trim_spec(s: Seq<char>) -> Seq<char> {
    let a = run_len(s, 0, |c: char| is_space_char(c));
    if a == s.len() {
        Seq::empty()
    } else {
        s.subrange(a, s.len() - trailing_spaces(s))
    }
}

/// Executable trim of leading and trailing whitespace.
pub fn trim_chars(v: &Vec<char>) -> (r: Vec<char>)
    ensures
        r@ == trim_spec(v@),
{
    let a = space_run_at(v, 0);
    proof {
        lemma_run_len(v@, 0, |c: char| is_space_char(c));
        lemma_trailing_spaces(v@);
    }
    if a == v.len() {
        let r: Vec<char> = Vec::new();
        proof {
            assert(r@ =~= trim_spec(v@));
        }
        return r;
    }
    let t = count_trailing_spaces(v);
    proof {
        if v@.len() - t <= a {
            assert(is_space_char(v@[a as int]));
            assert(false);
        }
    }
    subrange_chars(v, a, v.len() - t)
}

} // verus!

verus! {

/// Element views of a sequence of character vectors.
pub open spec fn vecs_view(v: Seq<Vec<char>>) -> Seq<Seq<char>> {
    Seq::new(v.len(), |i: int| v[i]@)
}

/// Element views of a sequence of strings.
pub open spec fn strings_view(v: Seq<String>) -> Seq<Seq<char>> {
    Seq::new(v.len(), |i: int| v[i]@)
}

} // verus!
