//! Line-level stripping for bash minification.
//!
//! Removes whole lines that contribute nothing at runtime: full-line
//! comments, blank lines, bare `import word` calls, single-line `import()`
//! definitions and the `set -euo pipefail` safety line.  Heredoc bodies are
//! passed through verbatim, and a shebang glued to the end of another line
//! (the product of naive file concatenation) is first split onto its own
//! line so it can be stripped.

use vstd::prelude::*;

verus! {

use crate::text::{
    is_blank_char, is_space_char, is_word_char, leading_blanks, lemma_leading_blanks, run_len,
    lemma_run_len, match_at, matches_at, blank_char, space_char, word_char, count_leading_blanks,
    space_run_at, word_run_at, blank_run_at, trailing_spaces, lemma_trailing_spaces,
    count_trailing_spaces, trim_spec, trim_chars, str_to_chars, chars_to_string, subrange_chars,
    vecs_view, strings_view,
};

// -- Line classification ------------------------------------------------------

/// Full-line comment: optional blanks then `#`.
pub open spec fn is_comment_line(s: Seq<char>) -> bool {
    leading_blanks(s) < s.len() && s[leading_blanks(s)] == '#'
}

/// Blank line: spaces and tabs only.
pub open spec fn is_blank_line(s: Seq<char>) -> bool {
    leading_blanks(s) == s.len()
}

/// Bare import call: blanks, `import`, whitespace, one word, trailing whitespace.
pub open spec fn is_import_call(s: Seq<char>) -> bool {
    let a = leading_blanks(s);
    let sp = run_len(s, a + 6, |c: char| is_space_char(c));
    let w = run_len(s, a + 6 + sp, |c: char| is_word_char(c));
    let tail = run_len(s, a + 6 + sp + w, |c: char| is_space_char(c));
    &&& match_at(s, a, "import"@)
    &&& sp >= 1
    &&& w >= 1
    &&& a + 6 + sp + w + tail == s.len()
}

/// Single-line import function definition: `import() { ... }` with the
/// closing brace as the last non-whitespace character.
pub open spec fn is_import_def(s: Seq<char>) -> bool {
    let a = leading_blanks(s);
    let sp = run_len(s, a + 8, |c: char| is_space_char(c));
    let brace = a + 8 + sp;
    let end = s.len() - trailing_spaces(s);
    &&& match_at(s, a, "import()"@)
    &&& brace < s.len() && s[brace] == '{'
    &&& end - 1 > brace + 1
    &&& s[end - 1] == '}'
}

/// The fixed safety-flag line.
pub open spec fn is_set_pipefail(s: Seq<char>) -> bool {
    match_at(s, leading_blanks(s), "set -euo pipefail"@)
}

/// A line is stripped when any of the five classifications holds.
pub open spec fn spec_should_strip(s: Seq<char>) -> bool {
    ||| is_comment_line(s)
    ||| is_blank_line(s)
    ||| is_import_call(s)
    ||| is_import_def(s)
    ||| is_set_pipefail(s)
}

/// Executable classification of one line.
pub fn should_strip_chars(v: &Vec<char>) -> (r: bool)
    ensures
        r == spec_should_strip(v@),
{
    proof {
        lemma_leading_blanks(v@);
        reveal_strlit("import");
        reveal_strlit("import()");
        reveal_strlit("set -euo pipefail");
    }
    let a = count_leading_blanks(v);
    if a == v.len() {
        return true;
    }
    if v[a] == '#' {
        return true;
    }
    let import_kw = str_to_chars("import");
    if matches_at(v, a, &import_kw) {
        let sp = space_run_at(v, a + 6);
        if sp >= 1 {
            let w = word_run_at(v, a + 6 + sp);
            if w >= 1 {
                let tail = space_run_at(v, a + 6 + sp + w);
                if a + 6 + sp + w + tail == v.len() {
                    return true;
                }
            }
        }
    }
    let import_def_kw = str_to_chars("import()");
    if matches_at(v, a, &import_def_kw) {
        let sp = space_run_at(v, a + 8);
        let brace = a + 8 + sp;
        if brace < v.len() && v[brace] == '{' {
            let t = count_trailing_spaces(v);
            let end = v.len() - t;
            if end >= 1 && end - 1 > brace + 1 && v[end - 1] == '}' {
                return true;
            }
            proof {
                lemma_trailing_spaces(v@);
            }
        }
    }
    let pipefail_kw = str_to_chars("set -euo pipefail");
    if matches_at(v, a, &pipefail_kw) {
        return true;
    }
    proof {
        lemma_trailing_spaces(v@);
        if is_import_def(v@) {
            assert(v@.subrange(a as int, a + 8)[0] == v@[a as int]);
        }
    }
    false
}

/// Returns true if the line should be stripped (removed entirely).
pub fn should_strip(line: &str) -> (r: bool)
    ensures
        r == spec_should_strip(line@),
{
    let v = str_to_chars(line);
    should_strip_chars(&v)
}

// -- Heredoc detection --------------------------------------------------------

/// Parse a heredoc opener at index `k` (which must hold `<<`): optional `-`,
/// whitespace, an optional quote and then the delimiter word.
pub open spec fn hd_parse(s: Seq<char>, k: int) -> Option<Seq<char>> {
    let p0 = k + 2;
    let p1 = if p0 < s.len() && s[p0] == '-' {
        p0 + 1
    } else {
        p0
    };
    let p2 = p1 + run_len(s, p1, |c: char| is_space_char(c));
    let p3 = if p2 < s.len() && (s[p2] == '\'' || s[p2] == '"') {
        p2 + 1
    } else {
        p2
    };
    let w = run_len(s, p3, |c: char| is_word_char(c));
    if w >= 1 {
        Some(s.subrange(p3, p3 + w))
    } else {
        None
    }
}

/// First heredoc opener found at or after index `k`.
pub open spec fn hd_search(s: Seq<char>, k: int) -> Option<Seq<char>>
    decreases s.len() - k,
{
    if k < 0 || k + 1 >= s.len() {
        None
    } else if s[k] == '<' && s[k + 1] == '<' && hd_parse(s, k) is Some {
        hd_parse(s, k)
    } else {
        hd_search(s, k + 1)
    }
}

/// Quote scan without escape handling, as the heredoc detector uses it.
pub open spec fn naive_state_at(s: Seq<char>, i: int) -> (bool, bool)
    decreases i,
{
    if i <= 0 || i > s.len() {
        (false, false)
    } else {
        let st = naive_state_at(s, i - 1);
        let c = s[i - 1];
        if c == '\'' && !st.1 {
            (!st.0, st.1)
        } else if c == '"' && !st.0 {
            (st.0, !st.1)
        } else {
            st
        }
    }
}

/// Index of the first `<<` that sits outside quotes (naive scan), looking at
/// positions `i` with `i + 1 < s.len() - ...` as the scan does.
pub open spec fn first_outside_lt(s: Seq<char>, i: int) -> Option<int>
    decreases s.len() - i,
{
    if i < 0 || i + 1 >= s.len() {
        None
    } else if s[i] == '<' && s[i + 1] == '<' && !naive_state_at(s, i).0 && !naive_state_at(
        s,
        i,
    ).1 {
        Some(i)
    } else {
        first_outside_lt(s, i + 1)
    }
}

/// The heredoc delimiter a line opens, if its first unquoted `<<` is
/// followed by a well-formed delimiter anywhere to its right.
pub open spec fn heredoc_delim_spec(s: Seq<char>) -> Option<Seq<char>> {
    match first_outside_lt(s, 0) {
        Some(i) => hd_search(s, i),
        None => None,
    }
}

/// Executable heredoc-opener parse at `k`.
fn hd_parse_exec(v: &Vec<char>, k: usize) -> (r: Option<Vec<char>>)
    requires
        k + 1 < v@.len(),
    ensures
        match r {
            Some(d) => hd_parse(v@, k as int) == Some(d@),
            None => hd_parse(v@, k as int) is None,
        },
{
    let n = v.len();
    let p0 = k + 2;
    let p1 = if p0 < n && v[p0] == '-' {
        p0 + 1
    } else {
        p0
    };
    let sp = space_run_at(v, if p1 <= n {
        p1
    } else {
        n
    });
    proof {
        if p1 > v@.len() {
            assert(run_len(v@, p1 as int, |c: char| is_space_char(c)) == 0);
        }
    }
    let p2 = p1 + sp;
    let p3 = if p2 < n && (v[p2] == '\'' || v[p2] == '"') {
        p2 + 1
    } else {
        p2
    };
    proof {
        lemma_run_len(v@, p1 as int, |c: char| is_space_char(c));
    }
    let w = word_run_at(v, p3);
    if w >= 1 {
        Some(subrange_chars(v, p3, p3 + w))
    } else {
        None
    }
}

/// Executable heredoc search over a whole line.
pub fn heredoc_delim(v: &Vec<char>) -> (r: Option<Vec<char>>)
    ensures
        match r {
            Some(d) => heredoc_delim_spec(v@) == Some(d@),
            None => heredoc_delim_spec(v@) is None,
        },
{
    let n = v.len();
    let mut in_single = false;
    let mut in_double = false;
    let mut i: usize = 0;
    while n > 0 && i < n - 1
        invariant
            n == v@.len(),
            i <= n,
            (in_single, in_double) == naive_state_at(v@, i as int),
            first_outside_lt(v@, 0) == first_outside_lt(v@, i as int),
        decreases n - i,
    {
        let c = v[i];
        if c == '<' && v[i + 1] == '<' && !in_single && !in_double {
            // search for the delimiter from here
            return hd_search_from(v, i);
        }
        if c == '\'' && !in_double {
            in_single = !in_single;
        } else if c == '"' && !in_single {
            in_double = !in_double;
        }
        i += 1;
    }
    None
}

/// Executable scan for the first parsable `<<` opener at or after `k`.
pub fn hd_search_from(v: &Vec<char>, k: usize) -> (r: Option<Vec<char>>)
    requires
        k <= v@.len(),
    ensures
        match r {
            Some(d) => hd_search(v@, k as int) == Some(d@),
            None => hd_search(v@, k as int) is None,
        },
{
    let n = v.len();
    let mut i: usize = k;
    while n > 0 && i < n - 1
        invariant
            n == v@.len(),
            k <= i,
            i <= n,
            hd_search(v@, k as int) == hd_search(v@, i as int),
        decreases n - i,
    {
        if v[i] == '<' && v[i + 1] == '<' {
            let p = hd_parse_exec(v, i);
            if p.is_some() {
                return p;
            }
        }
        i += 1;
    }
    None
}

// -- Mid-line shebang normalisation ------------------------------------------

/// Split every `X#!/` (X any character but a newline) onto two lines.
pub open spec fn normalize_shebang(s: Seq<char>) -> Seq<char>
    decreases s.len(),
{
    if s.len() < 4 {
        s
    } else if s[0] != '\n' && s.subrange(1, 4) == "#!/"@ {
        seq![s[0], '\n'] + "#!/"@ + normalize_shebang(s.subrange(4, s.len() as int))
    } else {
        seq![s[0]] + normalize_shebang(s.subrange(1, s.len() as int))
    }
}

/// Executable shebang splitter.
pub fn normalize_shebang_exec(v: &Vec<char>) -> (r: Vec<char>)
    ensures
        r@ == normalize_shebang(v@),
{
    proof {
        reveal_strlit("#!/");
        assert("#!/"@ =~= seq!['#', '!', '/']);
    }
    let shebang = str_to_chars("#!/");
    let n = v.len();
    let mut out: Vec<char> = Vec::new();
    let mut i: usize = 0;
    proof {
        assert(v@.subrange(0, n as int) =~= v@);
    }
    while i < n
        invariant
            n == v@.len(),
            i <= n,
            shebang@ == "#!/"@,
            "#!/"@ =~= seq!['#', '!', '/'],
            out@ + normalize_shebang(v@.subrange(i as int, n as int)) == normalize_shebang(v@),
        decreases n - i,
    {
        let ghost rest = v@.subrange(i as int, n as int);
        proof {
            assert(rest[0] == v@[i as int]);
        }
        let hit = n - i >= 4 && v[i] != '\n' && matches_at(v, i + 1, &shebang);
        if hit {
            proof {
                assert(rest.len() >= 4);
                assert(v@.subrange(i + 1, i + 1 + 3) == "#!/"@);
                assert(rest.subrange(1, 4) =~= v@.subrange(i + 1, i + 4));
                assert(v@.subrange(i + 1, i + 4) =~= v@.subrange(i + 1, i + 1 + 3));
                assert(rest.subrange(1, 4) == "#!/"@);
                assert(rest.subrange(4, rest.len() as int) =~= v@.subrange(i + 4, n as int));
                assert(normalize_shebang(rest) == seq![rest[0], '\n'] + "#!/"@
                    + normalize_shebang(v@.subrange(i + 4, n as int)));
                assert(seq![rest[0], '\n'] + "#!/"@ =~= seq![v@[i as int], '\n', '#', '!', '/']);
            }
            out.push(v[i]);
            out.push('\n');
            out.push('#');
            out.push('!');
            out.push('/');
            proof {
                assert(out@ + normalize_shebang(v@.subrange(i + 4, n as int))
                    =~= normalize_shebang(v@));
            }
            i += 4;
        } else {
            proof {
                if rest.len() >= 4 && rest[0] != '\n' {
                    assert(rest.subrange(1, 4) =~= v@.subrange(i + 1, i + 4));
                    assert(v@.subrange(i + 1, i + 4) =~= v@.subrange(i + 1, i + 1 + 3));
                    assert(rest.subrange(1, 4) != "#!/"@);
                }
                assert(normalize_shebang(rest) == seq![rest[0]] + normalize_shebang(
                    rest.subrange(1, rest.len() as int),
                ));
                assert(rest.subrange(1, rest.len() as int) =~= v@.subrange(i + 1, n as int));
            }
            out.push(v[i]);
            proof {
                assert(out@ + normalize_shebang(v@.subrange(i + 1, n as int))
                    =~= normalize_shebang(v@));
            }
            i += 1;
        }
    }
    proof {
        assert(normalize_shebang(v@.subrange(n as int, n as int)) =~= Seq::<char>::empty());
        assert(out@ + Seq::<char>::empty() =~= out@);
    }
    out
}

// -- Splitting into lines ------------------------------------------------------

/// Drop one trailing carriage return.
pub open spec fn strip_cr(s: Seq<char>) -> Seq<char> {
    if s.len() > 0 && s[s.len() - 1] == '\r' {
        s.drop_last()
    } else {
        s
    }
}

/// Split on `\n`; a trailing newline does not create an empty final
/// line, and a `\r` directly before a `\n` is dropped with it.  An
/// unterminated final line keeps any trailing `\r`.
pub open spec fn split_lines_spec(s: Seq<char>) -> Seq<Seq<char>>
    decreases s.len(),
{
    if s.len() == 0 {
        Seq::empty()
    } else {
        let k = run_len(s, 0, |c: char| c != '\n');
        if 0 <= k < s.len() {
            seq![strip_cr(s.subrange(0, k))] + split_lines_spec(
                s.subrange(k + 1, s.len() as int),
            )
        } else {
            seq![s]
        }
    }
}

/// Executable run of non-newline characters starting at `i`.
fn notnl_run_at(v: &Vec<char>, i: usize) -> (r: usize)
    requires
        i <= v@.len(),
    ensures
        r == run_len(v@, i as int, |c: char| c != '\n'),
        i + r <= v@.len(),
{
    let n = v.len();
    let mut j: usize = i;
    while j < n && v[j] != '\n'
        invariant
            i <= j <= n == v@.len(),
            run_len(v@, i as int, |c: char| c != '\n') == (j - i) + run_len(
                v@,
                j as int,
                |c: char| c != '\n',
            ),
        decreases n - j,
    {
        j += 1;
    }
    j - i
}

/// Executable line splitter.
pub fn split_lines(v: &Vec<char>) -> (r: Vec<Vec<char>>)
    ensures
        vecs_view(r@) == split_lines_spec(v@),
    decreases v@.len(),
{
    let n = v.len();
    let mut out: Vec<Vec<char>> = Vec::new();
    if n == 0 {
        proof {
            assert(vecs_view(out@) =~= split_lines_spec(v@));
        }
        return out;
    }
    let k = notnl_run_at(v, 0);
    if k == n {
        let line = subrange_chars(v, 0, n);
        proof {
            assert(line@ =~= v@);
        }
        out.push(line);
        proof {
            assert(vecs_view(out@) =~= seq![v@]);
            assert(vecs_view(out@) =~= split_lines_spec(v@));
        }
        return out;
    }
    let mut line = subrange_chars(v, 0, k);
    if line.len() > 0 && line[line.len() - 1] == '\r' {
        line.pop();
    }
    proof {
        assert(line@ =~= strip_cr(v@.subrange(0, k as int)));
    }
    let rest = subrange_chars(v, k + 1, n);
    let tail = split_lines(&rest);
    out.push(line);
    let tn = tail.len();
    let mut t: usize = 0;
    while t < tn
        invariant
            tn == tail@.len(),
            t <= tn,
            k == run_len(v@, 0, |c: char| c != '\n'),
            k < n == v@.len(),
            vecs_view(out@) =~= seq![
                strip_cr(v@.subrange(0, run_len(v@, 0, |c: char| c != '\n'))),
            ] + vecs_view(tail@).subrange(0, t as int),
        decreases tn - t,
    {
        let ghost before = out@;
        let item = tail[t].clone();
        proof {
            assert(item@ == tail@[t as int]@);
        }
        out.push(item);
        proof {
            assert(vecs_view(out@) =~= vecs_view(before).push(tail@[t as int]@));
            assert(vecs_view(tail@).subrange(0, t + 1) =~= vecs_view(tail@).subrange(
                0,
                t as int,
            ).push(vecs_view(tail@)[t as int]));
        }
        t += 1;
    }
    proof {
        assert(vecs_view(tail@).subrange(0, tn as int) =~= vecs_view(tail@));
        assert(rest@ =~= v@.subrange(k + 1, n as int));
        assert(vecs_view(out@) =~= split_lines_spec(v@));
    }
    out
}

// -- The scan ------------------------------------------------------------------

/// One pass over the split lines: heredoc bodies verbatim, everything else
/// filtered by `spec_should_strip`, heredoc openers arming the verbatim mode.
pub open spec fn strip_scan(lines: Seq<Seq<char>>, hd: Option<Seq<char>>) -> Seq<Seq<char>>
    decreases lines.len(),
{
    if lines.len() == 0 {
        Seq::empty()
    } else {
        let l = lines[0];
        let rest = lines.subrange(1, lines.len() as int);
        match hd {
            Some(d) => seq![l] + strip_scan(rest, if trim_spec(l) == d {
                None
            } else {
                Some(d)
            }),
            None => {
                let nd = heredoc_delim_spec(l);
                if spec_should_strip(l) {
                    strip_scan(rest, nd)
                } else {
                    seq![l] + strip_scan(rest, nd)
                }
            },
        }
    }
}

/// The whole strip phase over raw input text.
pub open spec fn spec_strip_lines(s: Seq<char>) -> Seq<Seq<char>> {
    strip_scan(split_lines_spec(normalize_shebang(s)), None)
}

/// Strip lines from input, returning only the lines that survive.
pub fn strip_lines(input: &str) -> (r: Vec<String>)
    ensures
        strings_view(r@) == spec_strip_lines(input@),
{
    let raw = str_to_chars(input);
    let normalized = normalize_shebang_exec(&raw);
    let lines = split_lines(&normalized);
    let n = lines.len();
    let mut out: Vec<String> = Vec::new();
    let mut hd: Option<Vec<char>> = None;
    let mut i: usize = 0;
    proof {
        assert(vecs_view(lines@).subrange(0, n as int) =~= vecs_view(lines@));
        assert(strings_view(out@) + strip_scan(vecs_view(lines@), None)
            =~= spec_strip_lines(input@));
    }
    while i < n
        invariant
            n == lines@.len(),
            i <= n,
            strings_view(out@) + strip_scan(
                vecs_view(lines@).subrange(i as int, n as int),
                match hd {
                    Some(d) => Some(d@),
                    None => None,
                },
            ) == spec_strip_lines(input@),
        decreases n - i,
    {
        let ghost rest = vecs_view(lines@).subrange(i as int, n as int);
        proof {
            assert(rest[0] == lines@[i as int]@);
            assert(rest.subrange(1, rest.len() as int) =~= vecs_view(lines@).subrange(
                i + 1,
                n as int,
            ));
        }
        let line = &lines[i];
        let mut done_with_hd = false;
        match &hd {
            Some(d) => {
                let ghost before = out@;
                out.push(chars_to_string(line));
                proof {
                    assert(strings_view(out@) =~= strings_view(before).push(line@));
                }
                let t = trim_chars(line);
                let mut eq = t.len() == d.len();
                if eq {
                    eq = matches_at(&t, 0, d);
                    proof {
                        assert(t@.subrange(0, d@.len() as int) =~= t@);
                        if eq {
                            assert(t@ == d@);
                        } else {
                            assert(t@ != d@);
                        }
                    }
                } else {
                    proof {
                        assert(t@ != d@);
                    }
                }
                proof {
                    assert(eq == (trim_spec(line@) == d@));
                }
                if eq {
                    done_with_hd = true;
                }
            },
            None => {
                let nd = heredoc_delim(line);
                if !should_strip_chars(line) {
                    let ghost before = out@;
                    out.push(chars_to_string(line));
                    proof {
                        assert(strings_view(out@) =~= strings_view(before).push(line@));
                    }
                }
                hd = match nd {
                    Some(d) => Some(d),
                    None => None,
                };
            },
        }
        if done_with_hd {
            hd = None;
        }
        proof {
            assert(strings_view(out@) + strip_scan(
                vecs_view(lines@).subrange(i + 1, n as int),
                match hd {
                    Some(d) => Some(d@),
                    None => None,
                },
            ) =~= spec_strip_lines(input@));
        }
        i += 1;
    }
    proof {
        assert(strip_scan(vecs_view(lines@).subrange(n as int, n as int), match hd {
            Some(d) => Some(d@),
            None => None,
        }) =~= Seq::<Seq<char>>::empty());
        assert(strings_view(out@) + Seq::<Seq<char>>::empty() =~= strings_view(out@));
    }
    out
}


// -- Idempotence of the filter --------------------------------------------------------

/// Every line the scan keeps from heredoc-free input is itself unstrippable
/// and heredoc-free.
proof fn lemma_scan_output_clean(lines: Seq<Seq<char>>)
    requires
        forall|i: int|
            0 <= i < lines.len() ==> heredoc_delim_spec(#[trigger] lines[i]) is None,
    ensures
        ({
            let out = strip_scan(lines, None);
            forall|k: int|
                0 <= k < out.len() ==> !spec_should_strip(#[trigger] out[k]) && heredoc_delim_spec(
                    out[k],
                ) is None
        }),
    decreases lines.len(),
{
    if lines.len() == 0 {
    } else {
        let l = lines[0];
        let rest = lines.subrange(1, lines.len() as int);
        assert(forall|i: int|
            0 <= i < rest.len() ==> heredoc_delim_spec(#[trigger] rest[i]) is None) by {
            assert(forall|i: int| 0 <= i < rest.len() ==> rest[i] == lines[i + 1]);
        }
        lemma_scan_output_clean(rest);
        let out = strip_scan(lines, None);
        let out_rest = strip_scan(rest, None);
        if spec_should_strip(l) {
            assert(out == out_rest);
        } else {
            assert(out == seq![l] + out_rest);
            assert forall|k: int|
                0 <= k < out.len() implies !spec_should_strip(#[trigger] out[k])
                && heredoc_delim_spec(out[k]) is None by {
                if k == 0 {
                    assert(out[0] == l);
                } else {
                    assert(out[k] == out_rest[k - 1]);
                }
            }
        }
    }
}

/// The scan leaves a list of unstrippable, heredoc-free lines untouched.
proof fn lemma_scan_clean_identity(lines: Seq<Seq<char>>)
    requires
        forall|i: int|
            0 <= i < lines.len() ==> !spec_should_strip(#[trigger] lines[i]) && heredoc_delim_spec(
                lines[i],
            ) is None,
    ensures
        strip_scan(lines, None) == lines,
    decreases lines.len(),
{
    if lines.len() == 0 {
        assert(strip_scan(lines, None) =~= lines);
    } else {
        let l = lines[0];
        let rest = lines.subrange(1, lines.len() as int);
        assert(forall|i: int|
            0 <= i < rest.len() ==> !spec_should_strip(#[trigger] rest[i]) && heredoc_delim_spec(
                rest[i],
            ) is None) by {
            assert(forall|i: int| 0 <= i < rest.len() ==> rest[i] == lines[i + 1]);
        }
        lemma_scan_clean_identity(rest);
        assert(strip_scan(lines, None) == seq![l] + rest);
        assert(seq![l] + rest =~= lines);
    }
}

/// Stripping is idempotent on heredoc-free sources: the scan of its own
/// output is that output.  A heredoc opener defeats the law when the
/// opening line is itself stripped (a comment that opens a heredoc arms
/// verbatim mode, and its body lines survive the first pass only), so the
/// law is stated for line lists in which no line opens a heredoc.
pub proof fn lemma_strip_idempotent(lines: Seq<Seq<char>>)
    requires
        forall|i: int|
            0 <= i < lines.len() ==> heredoc_delim_spec(#[trigger] lines[i]) is None,
    ensures
        strip_scan(strip_scan(lines, None), None) == strip_scan(lines, None),
{
    lemma_scan_output_clean(lines);
    lemma_scan_clean_identity(strip_scan(lines, None));
}

} // verus!
