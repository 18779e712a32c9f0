//! The minification pipeline: strip, flatten, optionally discover and
//! rename variables, then join.

use vstd::prelude::*;

verus! {

use vstd::string::StringExecFns;

use crate::text::{join_lines_spec, strings_view, str_to_chars, chars_to_string, extend_chars};
use crate::strip::{strip_lines, spec_strip_lines};
use crate::flatten::{flatten_lines, spec_flatten_lines};
use crate::discover::{discover_variables, spec_discover_variables, patterns_of};
use crate::obfuscate::{
    build_rename_map, Obfuscator, spec_obfuscate_line, spec_rename_map, lookup_rep, pairs_view,
};
use crate::join::{join_newlines, spec_join_newlines};
use crate::pattern::{IgnorePattern, pattern_chars, regex_valid};

// -- Ignore patterns --------------------------------------------------------------

/// Split on every comma.
pub open spec fn split_commas(s: Seq<char>, i: int, start: int) -> Seq<Seq<char>>
    recommends
        0 <= start <= i <= s.len(),
    decreases s.len() - i,
{
    if i < 0 || start < 0 || start > i {
        Seq::empty()
    } else if i >= s.len() {
        seq![s.subrange(start, s.len() as int)]
    } else if s[i] == ',' {
        seq![s.subrange(start, i)] + split_commas(s, i + 1, i + 1)
    } else {
        split_commas(s, i + 1, start)
    }
}

/// Anchor a pattern to the whole name unless the user anchored it already.
pub open spec fn anchored(seg: Seq<char>) -> Seq<char> {
    if seg.len() > 0 && (seg[0] == '^' || seg[seg.len() - 1] == '$') {
        seg
    } else {
        "^(?:"@ + seg + ")$"@
    }
}

/// Drop empty segments and anchor the rest.
pub open spec fn anchor_all(segs: Seq<Seq<char>>) -> Seq<Seq<char>>
    decreases segs.len(),
{
    if segs.len() == 0 {
        Seq::empty()
    } else {
        let rest = anchor_all(segs.subrange(1, segs.len() as int));
        if segs[0].len() == 0 {
            rest
        } else {
            seq![anchored(segs[0])] + rest
        }
    }
}

/// The pattern texts an ignore string names: `*` means everything,
/// otherwise its comma-separated pieces, anchored.
pub open spec fn spec_ignore_sources(s: Seq<char>) -> Seq<Seq<char>> {
    if s == "*"@ {
        seq![".*"@]
    } else {
        anchor_all(split_commas(s, 0, 0))
    }
}

/// Every pattern in the list compiles.
pub open spec fn all_valid(pats: Seq<Seq<char>>) -> bool
    decreases pats.len(),
{
    if pats.len() == 0 {
        true
    } else {
        regex_valid(pats[0]) && all_valid(pats.subrange(1, pats.len() as int))
    }
}

/// Why minification failed.
#[derive(Debug)]
pub enum MinifyError {
    /// An ignore pattern did not compile; the pattern text is carried.
    BadIgnorePattern(String),
}

impl MinifyError {
    /// A one-line description carrying the offending pattern text.
    pub fn message(&self) -> (r: String)
        ensures
            self matches MinifyError::BadIgnorePattern(p) ==> r@ == "invalid ignore pattern: "@
                + p@,
    {
        let MinifyError::BadIgnorePattern(p) = self;
        let mut out = str_to_chars("invalid ignore pattern: ");
        let pv = str_to_chars(p.as_str());
        extend_chars(&mut out, &pv);
        chars_to_string(&out)
    }
}

/// Parse the comma-separated ignore patterns, anchoring each to the whole
/// variable name; `*` ignores every variable.  Fails exactly when one of
/// the anchored patterns is not a valid regular expression.
pub fn parse_ignore_patterns(pattern: &str) -> (r: Result<Vec<IgnorePattern>, MinifyError>)
    ensures
        r is Ok ==> patterns_of(r.unwrap()@) == spec_ignore_sources(pattern@),
        r is Ok <==> all_valid(spec_ignore_sources(pattern@)),
{
    proof {
        reveal_strlit("*");
        reveal_strlit(".*");
        reveal_strlit("^(?:");
        reveal_strlit(")$");
    }
    let v = str_to_chars(pattern);
    let star = str_to_chars("*");
    let mut is_star = v.len() == star.len();
    if is_star {
        is_star = crate::text::matches_at(&v, 0, &star);
        proof {
            assert(v@.subrange(0, star@.len() as int) =~= v@);
            if is_star {
                assert(v@ == "*"@);
            } else {
                assert(v@ != "*"@);
            }
        }
    } else {
        proof {
            assert(v@ != "*"@);
        }
    }
    if is_star {
        match IgnorePattern::compile(".*") {
            Some(p) => {
                let mut out: Vec<IgnorePattern> = Vec::new();
                out.push(p);
                proof {
                    assert(patterns_of(out@) =~= spec_ignore_sources(pattern@));
                    let srcs = spec_ignore_sources(pattern@);
                    assert(srcs[0] == ".*"@);
                    assert(srcs.subrange(1, 1) =~= Seq::<Seq<char>>::empty());
                    assert(all_valid(srcs.subrange(1, srcs.len() as int)));
                    assert(all_valid(srcs));
                }
                return Ok(out);
            },
            None => {
                return Err(MinifyError::BadIgnorePattern(String::from_str(".*")));
            },
        }
    }
    let segs = split_commas_exec(&v, 0, 0);
    let mut out: Vec<IgnorePattern> = Vec::new();
    let n = segs.len();
    let mut i: usize = 0;
    proof {
        let segsv = crate::text::vecs_view(segs@);
        assert(segsv.subrange(0, n as int) =~= segsv);
        assert(segsv.subrange(0, 0) =~= Seq::<Seq<char>>::empty());
        assert(anchor_all(Seq::<Seq<char>>::empty()) =~= Seq::<Seq<char>>::empty());
        assert(anchor_all(segsv) =~= Seq::<Seq<char>>::empty() + anchor_all(
            segsv.subrange(0, n as int),
        ));
        assert(patterns_of(out@) =~= Seq::<Seq<char>>::empty());
        reveal_strlit("^(?:");
        reveal_strlit(")$");
        assert("^(?:"@ + Seq::<char>::empty() + ")$"@ =~= "^(?:"@ + ")$"@);
    }
    while i < n
        invariant
            n == segs@.len(),
            i <= n,
            pattern@ != "*"@,
            crate::text::vecs_view(segs@) == split_commas(pattern@, 0, 0),
            patterns_of(out@) =~= anchor_all(
                crate::text::vecs_view(segs@).subrange(0, i as int),
            ),
            all_valid(anchor_all(crate::text::vecs_view(segs@).subrange(0, i as int))),
            anchor_all(crate::text::vecs_view(segs@)) == anchor_all(
                crate::text::vecs_view(segs@).subrange(0, i as int),
            ) + anchor_all(crate::text::vecs_view(segs@).subrange(i as int, n as int)),
            "^(?:"@ + Seq::<char>::empty() + ")$"@ == "^(?:"@ + ")$"@,
        decreases n - i,
    {
        let ghost segsv = crate::text::vecs_view(segs@);
        let ghost rest = segsv.subrange(i as int, n as int);
        proof {
            assert(rest[0] == segs@[i as int]@);
            assert(rest.subrange(1, rest.len() as int) =~= segsv.subrange(i + 1, n as int));
        }
        let seg = &segs[i];
        if seg.len() == 0 {
            proof {
                assert(anchor_all(rest) =~= anchor_all(segsv.subrange(i + 1, n as int)));
                assert(segsv.subrange(0, i + 1) =~= segsv.subrange(0, i as int).push(
                    segsv[i as int],
                ));
                lemma_anchor_all_snoc(segsv.subrange(0, i as int), segsv[i as int]);
                assert(anchor_all(segsv.subrange(0, i + 1)) =~= anchor_all(
                    segsv.subrange(0, i as int),
                ) + Seq::<Seq<char>>::empty());
                assert(anchor_all(segsv.subrange(0, i + 1)) =~= anchor_all(
                    segsv.subrange(0, i as int),
                ));
            }
            i += 1;
            continue;
        }
        let mut anchored_pat: Vec<char>;
        if seg[0] == '^' || seg[seg.len() - 1] == '$' {
            anchored_pat = Vec::new();
            extend_chars(&mut anchored_pat, seg);
            proof {
                assert(anchored_pat@ =~= anchored(segs@[i as int]@));
            }
        } else {
            anchored_pat = str_to_chars("^(?:");
            extend_chars(&mut anchored_pat, seg);
            let suffix = str_to_chars(")$");
            extend_chars(&mut anchored_pat, &suffix);
            proof {
                assert(anchored_pat@ =~= anchored(segs@[i as int]@));
            }
        }
        let pat_str = chars_to_string(&anchored_pat);
        match IgnorePattern::compile(pat_str.as_str()) {
            Some(p) => {
                let ghost before = out@;
                out.push(p);
                proof {
                    assert(patterns_of(out@) =~= patterns_of(before).push(
                        anchored(segs@[i as int]@),
                    ));
                    assert(segsv.subrange(0, i + 1) =~= segsv.subrange(0, i as int).push(
                        segsv[i as int],
                    ));
                    lemma_anchor_all_snoc(segsv.subrange(0, i as int), segsv[i as int]);
                    let single = seq![anchored(segsv[i as int])];
                    assert(regex_valid(single[0]));
                    assert(single.subrange(1, 1) =~= Seq::<Seq<char>>::empty());
                    assert(all_valid(Seq::<Seq<char>>::empty()));
                    assert(all_valid(single.subrange(1, single.len() as int)));
                    assert(all_valid(single));
                    lemma_all_valid_concat(anchor_all(segsv.subrange(0, i as int)), single);
                    assert(all_valid(anchor_all(segsv.subrange(0, i + 1))));
                }
            },
            None => {
                proof {
                    assert(!regex_valid(anchored(segs@[i as int]@)));
                    assert(anchor_all(rest) =~= seq![anchored(segsv[i as int])] + anchor_all(
                        segsv.subrange(i + 1, n as int),
                    ));
                    assert(anchor_all(rest)[0] == anchored(segsv[i as int]));
                    assert(anchor_all(rest).len() >= 1);
                    assert(!all_valid(anchor_all(rest)));
                    lemma_all_valid_concat(
                        anchor_all(segsv.subrange(0, i as int)),
                        anchor_all(rest),
                    );
                    assert(!all_valid(anchor_all(segsv)));
                    assert(pattern@ != "*"@);
                    assert(segsv == split_commas(pattern@, 0, 0));
                    assert(spec_ignore_sources(pattern@) == anchor_all(segsv));
                }
                return Err(MinifyError::BadIgnorePattern(pat_str));
            },
        }
        i += 1;
    }
    proof {
        let segsv = crate::text::vecs_view(segs@);
        assert(segsv.subrange(n as int, n as int) =~= Seq::<Seq<char>>::empty());
        assert(anchor_all(segsv.subrange(n as int, n as int)) =~= Seq::<Seq<char>>::empty());
        assert(anchor_all(segsv) =~= anchor_all(segsv.subrange(0, n as int)) + Seq::<
            Seq<char>,
        >::empty());
        assert(anchor_all(segsv) =~= anchor_all(segsv.subrange(0, n as int)));
        assert(anchor_all(segsv) =~= patterns_of(out@));
        assert(pattern@ != "*"@);
        assert(segsv == split_commas(pattern@, 0, 0));
        assert(spec_ignore_sources(pattern@) == anchor_all(segsv));
        assert(all_valid(anchor_all(segsv.subrange(0, n as int))));
        assert(all_valid(spec_ignore_sources(pattern@)));
    }
    Ok(out)
}

/// Appending one segment extends the anchored list accordingly.
proof fn lemma_anchor_all_snoc(segs: Seq<Seq<char>>, x: Seq<char>)
    ensures
        anchor_all(segs.push(x)) =~= anchor_all(segs) + if x.len() == 0 {
            Seq::<Seq<char>>::empty()
        } else {
            seq![anchored(x)]
        },
    decreases segs.len(),
{
    let pushed = segs.push(x);
    assert(anchor_all(Seq::<Seq<char>>::empty()) =~= Seq::<Seq<char>>::empty());
    if segs.len() == 0 {
        assert(pushed.len() == 1);
        assert(pushed[0] == x);
        assert(pushed.subrange(1, 1) =~= Seq::<Seq<char>>::empty());
        assert(anchor_all(pushed.subrange(1, pushed.len() as int)) =~= Seq::<Seq<char>>::empty());
        if x.len() == 0 {
            assert(anchor_all(pushed) =~= Seq::<Seq<char>>::empty());
            assert(anchor_all(segs) =~= Seq::<Seq<char>>::empty());
        } else {
            assert(anchor_all(pushed) =~= seq![anchored(x)] + Seq::<Seq<char>>::empty());
            assert(seq![anchored(x)] + Seq::<Seq<char>>::empty() =~= seq![anchored(x)]);
        }
    } else {
        assert(pushed[0] == segs[0]);
        assert(pushed.subrange(1, pushed.len() as int) =~= segs.subrange(
            1,
            segs.len() as int,
        ).push(x));
        lemma_anchor_all_snoc(segs.subrange(1, segs.len() as int), x);
        let tail = if x.len() == 0 {
            Seq::<Seq<char>>::empty()
        } else {
            seq![anchored(x)]
        };
        assert(anchor_all(segs.subrange(1, segs.len() as int).push(x)) =~= anchor_all(
            segs.subrange(1, segs.len() as int),
        ) + tail);
        if segs[0].len() == 0 {
            assert(anchor_all(pushed) =~= anchor_all(segs) + tail);
        } else {
            assert(anchor_all(pushed) =~= seq![anchored(segs[0])] + (anchor_all(
                segs.subrange(1, segs.len() as int),
            ) + tail));
            assert(seq![anchored(segs[0])] + (anchor_all(segs.subrange(1, segs.len() as int))
                + tail) =~= (seq![anchored(segs[0])] + anchor_all(
                segs.subrange(1, segs.len() as int),
            )) + tail);
        }
    }
}

/// Validity of a concatenation splits into both halves.
proof fn lemma_all_valid_concat(a: Seq<Seq<char>>, b: Seq<Seq<char>>)
    ensures
        all_valid(a + b) == (all_valid(a) && all_valid(b)),
    decreases a.len(),
{
    if a.len() == 0 {
        assert(a + b =~= b);
    } else {
        assert((a + b)[0] == a[0]);
        assert((a + b).subrange(1, (a + b).len() as int) =~= a.subrange(1, a.len() as int) + b);
        lemma_all_valid_concat(a.subrange(1, a.len() as int), b);
    }
}

/// Executable mirror of `split_commas`.
fn split_commas_exec(v: &Vec<char>, i: usize, start: usize) -> (r: Vec<Vec<char>>)
    requires
        start <= i <= v@.len(),
    ensures
        crate::text::vecs_view(r@) == split_commas(v@, i as int, start as int),
    decreases v@.len() - i,
{
    let n = v.len();
    if i >= n {
        let seg = crate::text::subrange_chars(v, start, n);
        let mut out: Vec<Vec<char>> = Vec::new();
        out.push(seg);
        proof {
            assert(crate::text::vecs_view(out@) =~= split_commas(v@, i as int, start as int));
        }
        return out;
    }
    if v[i] == ',' {
        let seg = crate::text::subrange_chars(v, start, i);
        let rest = split_commas_exec(v, i + 1, i + 1);
        let mut out: Vec<Vec<char>> = Vec::new();
        out.push(seg);
        let rn = rest.len();
        let mut t: usize = 0;
        while t < rn
            invariant
                rn == rest@.len(),
                t <= rn,
                crate::text::vecs_view(out@) =~= seq![v@.subrange(start as int, i as int)]
                    + crate::text::vecs_view(rest@).subrange(0, t as int),
            decreases rn - t,
        {
            let ghost before = out@;
            let item = rest[t].clone();
            proof {
                assert(item@ == rest@[t as int]@);
            }
            out.push(item);
            proof {
                assert(crate::text::vecs_view(out@) =~= crate::text::vecs_view(before).push(
                    rest@[t as int]@,
                ));
                assert(crate::text::vecs_view(rest@).subrange(0, t + 1)
                    =~= crate::text::vecs_view(rest@).subrange(0, t as int).push(
                    crate::text::vecs_view(rest@)[t as int],
                ));
            }
            t += 1;
        }
        proof {
            assert(crate::text::vecs_view(rest@).subrange(0, rn as int)
                =~= crate::text::vecs_view(rest@));
            assert(crate::text::vecs_view(out@) =~= split_commas(v@, i as int, start as int));
        }
        out
    } else {
        split_commas_exec(v, i + 1, start)
    }
}


// -- The pipeline -------------------------------------------------------------------

/// Pipeline configuration for `minify`.
pub struct MinifyConfig {
    /// Run discovery and renaming.
    pub do_obfuscate: bool,
    /// Prefix of the generated names.
    pub var_prefix: String,
    /// Comma-separated ignore patterns, or `*`.
    pub ignore_vars: String,
}

/// The replacements minification uses for a variable list.
pub open spec fn reps_of(vars: Seq<Seq<char>>, prefix: Seq<char>) -> Seq<Seq<char>> {
    Seq::new(vars.len(), |i: int| lookup_rep(spec_rename_map(vars, prefix), vars[i]))
}

/// The obfuscation step over all lines.
pub open spec fn spec_obfuscate_all(
    lines: Seq<Seq<char>>,
    vars: Seq<Seq<char>>,
    reps: Seq<Seq<char>>,
) -> Seq<Seq<char>> {
    Seq::new(lines.len(), |i: int| spec_obfuscate_line(lines[i], vars, reps))
}

/// The whole pipeline on one source text.
pub open spec fn spec_minify(
    src: Seq<char>,
    do_obfuscate: bool,
    prefix: Seq<char>,
    ignore: Seq<char>,
) -> Seq<char> {
    let lines = spec_flatten_lines(spec_strip_lines(src));
    let lines2 = if do_obfuscate {
        let vars = spec_discover_variables(src, spec_ignore_sources(ignore));
        spec_obfuscate_all(lines, vars, reps_of(vars, prefix))
    } else {
        lines
    };
    spec_join_newlines(join_lines_spec(lines2))
}

/// Join lines with newlines, executably.
fn join_with_nl(lines: &Vec<String>) -> (r: Vec<char>)
    ensures
        r@ == join_lines_spec(strings_view(lines@)),
    decreases lines@.len(),
{
    let mut out: Vec<char> = Vec::new();
    let n = lines.len();
    let mut i: usize = 0;
    while i < n
        invariant
            n == lines@.len(),
            i <= n,
            out@ == join_prefix(strings_view(lines@), i as int),
        decreases n - i,
    {
        if i > 0 {
            out.push('\n');
        }
        let v = str_to_chars(lines[i].as_str());
        extend_chars(&mut out, &v);
        proof {
            lemma_join_prefix_step(strings_view(lines@), i as int);
        }
        i += 1;
    }
    proof {
        lemma_join_prefix_full(strings_view(lines@));
    }
    out
}

/// The first `i` lines joined with newlines.
pub open spec fn join_prefix(lines: Seq<Seq<char>>, i: int) -> Seq<char>
    decreases i,
{
    if i <= 0 || i > lines.len() {
        Seq::empty()
    } else if i == 1 {
        lines[0]
    } else {
        join_prefix(lines, i - 1) + seq!['\n'] + lines[i - 1]
    }
}

/// One more line extends the joined prefix.
proof fn lemma_join_prefix_step(lines: Seq<Seq<char>>, i: int)
    requires
        0 <= i < lines.len(),
    ensures
        i == 0 ==> join_prefix(lines, 1) == join_prefix(lines, 0) + lines[0],
        i > 0 ==> join_prefix(lines, i + 1) == join_prefix(lines, i) + seq!['\n'] + lines[i],
{
    if i == 0 {
        assert(join_prefix(lines, 1) == lines[0]);
        assert(join_prefix(lines, 0) + lines[0] =~= lines[0]);
    }
}

/// The full prefix equals the newline join.
proof fn lemma_join_prefix_full(lines: Seq<Seq<char>>)
    ensures
        join_prefix(lines, lines.len() as int) == join_lines_spec(lines),
    decreases lines.len(),
{
    if lines.len() == 0 {
    } else if lines.len() == 1 {
    } else {
        let rest = lines.subrange(1, lines.len() as int);
        lemma_join_prefix_full(rest);
        lemma_join_shift(lines, lines.len() as int);
    }
}

/// Prefixes of the tail relate to prefixes of the whole.
proof fn lemma_join_shift(lines: Seq<Seq<char>>, i: int)
    requires
        2 <= i <= lines.len(),
    ensures
        join_prefix(lines, i) == lines[0] + seq!['\n'] + join_prefix(
            lines.subrange(1, lines.len() as int),
            i - 1,
        ),
    decreases i,
{
    let rest = lines.subrange(1, lines.len() as int);
    if i == 2 {
        assert(join_prefix(lines, 1) == lines[0]);
        assert(join_prefix(lines, 2) =~= lines[0] + seq!['\n'] + lines[1]);
        assert(join_prefix(rest, 1) == rest[0]);
        assert(rest[0] == lines[1]);
        assert(lines[0] + seq!['\n'] + join_prefix(rest, 1) =~= join_prefix(lines, 2));
    } else {
        lemma_join_shift(lines, i - 1);
        assert(join_prefix(rest, i - 1) == join_prefix(rest, i - 2) + seq!['\n'] + rest[i - 2]);
        assert(rest[i - 2] == lines[i - 1]);
        assert(lines[0] + seq!['\n'] + (join_prefix(rest, i - 2) + seq!['\n'] + rest[i - 2])
            =~= (lines[0] + seq!['\n'] + join_prefix(rest, i - 2)) + seq!['\n'] + lines[i - 1]);
    }
}

/// Run the minification pipeline: strip, flatten, optionally rename every
/// discovered variable, then join.  Fails exactly when renaming is on and
/// an ignore pattern does not compile.
pub fn minify(source: &str, config: &MinifyConfig) -> (r: Result<String, MinifyError>)
    ensures
        r is Ok ==> r.unwrap()@ == spec_minify(
            source@,
            config.do_obfuscate,
            config.var_prefix@,
            config.ignore_vars@,
        ),
        r is Ok <==> (!config.do_obfuscate || all_valid(spec_ignore_sources(config.ignore_vars@))),
{
    let lines = strip_lines(source);
    let lines = flatten_lines(&lines);
    let lines = if config.do_obfuscate {
        let pats = match parse_ignore_patterns(config.ignore_vars.as_str()) {
            Ok(p) => p,
            Err(e) => {
                return Err(e);
            },
        };
        let sorted = discover_variables(source, &pats);
        let map = build_rename_map(&sorted, config.var_prefix.as_str());
        let ob = Obfuscator::new(&sorted, &map);
        let out = ob.obfuscate_lines(&lines);
        proof {
            let vars = spec_discover_variables(source@, spec_ignore_sources(config.ignore_vars@));
            assert(strings_view(sorted@) == vars);
            assert(pairs_view(map@) == spec_rename_map(vars, config.var_prefix@));
            assert(ob.vars_view() == vars);
            assert forall|i: int| 0 <= i < vars.len() implies ob.reps_view()[i] == reps_of(
                vars,
                config.var_prefix@,
            )[i] by {}
            assert(ob.reps_view() =~= reps_of(vars, config.var_prefix@));
            assert(strings_view(out@) =~= spec_obfuscate_all(
                spec_flatten_lines(spec_strip_lines(source@)),
                vars,
                reps_of(vars, config.var_prefix@),
            ));
        }
        out
    } else {
        lines
    };
    let combined = join_with_nl(&lines);
    let combined_str = chars_to_string(&combined);
    Ok(join_newlines(combined_str.as_str()))
}

} // verus!
