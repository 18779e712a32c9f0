//! Helpers around command-line argument arrays: edit distance for
//! suggestions and required-flag checking.

use vstd::prelude::*;

verus! {

use crate::field::{parse_field, spec_field_name, spec_field_mods};
use crate::text::{str_to_chars, chars_to_string, subrange_chars, matches_at, strings_view, run_len, lemma_run_len};
use vstd::string::StringExecFns;

/// The smaller of two values.
pub open spec fn min2(x: int, y: int) -> int {
    if x < y {
        x
    } else {
        y
    }
}

/// The edit distance of the first `i` characters of `a` and the first
/// `j` characters of `b`: minimum insertions, deletions and
/// substitutions.
pub open spec fn lev(a: Seq<char>, b: Seq<char>, i: int, j: int) -> int
    decreases i + j,
{
    if i <= 0 {
        if j <= 0 {
            0
        } else {
            j
        }
    } else if j <= 0 {
        i
    } else {
        let cost: int = if a[i - 1] == b[j - 1] {
            0
        } else {
            1
        };
        min2(min2(lev(a, b, i - 1, j) + 1, lev(a, b, i, j - 1) + 1), lev(a, b, i - 1, j - 1) + cost)
    }
}

/// The edit distance lies between the length difference and the longer
/// length.
pub proof fn lemma_lev_bounds(a: Seq<char>, b: Seq<char>, i: int, j: int)
    requires
        0 <= i,
        0 <= j,
    ensures
        lev(a, b, i, j) >= i - j,
        lev(a, b, i, j) >= j - i,
        lev(a, b, i, j) <= if i > j {
            i
        } else {
            j
        },
        lev(a, b, i, j) >= 0,
    decreases i + j,
{
    if i > 0 && j > 0 {
        lemma_lev_bounds(a, b, i - 1, j);
        lemma_lev_bounds(a, b, i, j - 1);
        lemma_lev_bounds(a, b, i - 1, j - 1);
    }
}

/// What `levenshtein` returns: the edit distance, except that inputs at
/// or past the (unreachable) size guard fall back to the longer length.
pub open spec fn spec_edit_distance(a: Seq<char>, b: Seq<char>) -> int {
    if a.len() < usize::MAX as int / 4 && b.len() < usize::MAX as int / 4 {
        lev(a, b, a.len() as int, b.len() as int)
    } else if a.len() > b.len() {
        a.len() as int
    } else {
        b.len() as int
    }
}

/// Compute the edit distance between the character sequences of two
/// strings with a single-row dynamic program.  The result equals the
/// edit distance for every input below the (unreachable) size guard, and
/// always lies between the length difference and the longer length.
pub fn levenshtein(a: &str, b: &str) -> (r: usize)
    ensures
        r == spec_edit_distance(a@, b@),
        a@.len() == 0 ==> r == b@.len(),
        b@.len() == 0 ==> r == a@.len(),
        r >= a@.len() - b@.len() && r >= b@.len() - a@.len(),
        r <= if a@.len() > b@.len() {
            a@.len()
        } else {
            b@.len()
        },
{
    proof {
        lemma_lev_bounds(a@, b@, a@.len() as int, b@.len() as int);
    }
    let av = str_to_chars(a);
    let bv = str_to_chars(b);
    let a_len = av.len();
    let b_len = bv.len();
    if a_len == 0 {
        return b_len;
    }
    if b_len == 0 {
        return a_len;
    }
    // guards the additive bounds below; no real string reaches it
    if b_len >= usize::MAX / 4 || a_len >= usize::MAX / 4 {
        return if a_len > b_len {
            a_len
        } else {
            b_len
        };
    }
    let mut prev: Vec<usize> = Vec::new();
    let mut j: usize = 0;
    while j <= b_len
        invariant
            j <= b_len + 1,
            b_len < usize::MAX / 4,
            b_len == bv@.len(),
            bv@ == b@,
            av@ == a@,
            prev@.len() == j,
            forall|m: int| 0 <= m < j ==> prev@[m] == lev(a@, b@, 0, m),
        decreases b_len + 1 - j,
    {
        prev.push(j);
        j += 1;
    }
    let mut i: usize = 1;
    while i <= a_len
        invariant
            1 <= i <= a_len + 1,
            a_len < usize::MAX / 4,
            b_len < usize::MAX / 4,
            a_len == av@.len(),
            b_len == bv@.len(),
            av@ == a@,
            bv@ == b@,
            prev@.len() == b_len + 1,
            forall|m: int| 0 <= m <= b_len ==> prev@[m] == lev(a@, b@, i - 1, m),
        decreases a_len + 1 - i,
    {
        let mut corner = prev[0];
        prev.set(0, i);
        proof {
            lemma_lev_bounds(a@, b@, i as int, 0);
        }
        let mut k: usize = 1;
        while k <= b_len
            invariant
                1 <= k <= b_len + 1,
                1 <= i <= a_len,
                a_len < usize::MAX / 4,
                b_len < usize::MAX / 4,
                a_len == av@.len(),
                b_len == bv@.len(),
                av@ == a@,
                bv@ == b@,
                prev@.len() == b_len + 1,
                corner == lev(a@, b@, i - 1, k - 1),
                forall|m: int| 0 <= m < k ==> prev@[m] == lev(a@, b@, i as int, m),
                forall|m: int| k <= m <= b_len ==> prev@[m] == lev(a@, b@, i - 1, m),
            decreases b_len + 1 - k,
        {
            proof {
                lemma_lev_bounds(a@, b@, i - 1, k - 1);
                lemma_lev_bounds(a@, b@, i - 1, k as int);
                lemma_lev_bounds(a@, b@, i as int, k - 1);
                lemma_lev_bounds(a@, b@, i as int, k as int);
            }
            let cost: usize = if av[i - 1] == bv[k - 1] {
                0
            } else {
                1
            };
            let mut best = corner + cost;
            if prev[k] + 1 < best {
                best = prev[k] + 1;
            }
            if prev[k - 1] + 1 < best {
                best = prev[k - 1] + 1;
            }
            proof {
                assert(best as int == lev(a@, b@, i as int, k as int));
            }
            corner = prev[k];
            prev.set(k, best);
            k += 1;
        }
        i += 1;
    }
    proof {
        lemma_lev_bounds(a@, b@, a_len as int, b_len as int);
    }
    prev[b_len]
}

/// Split on every `|`, empty pieces included.
pub open spec fn pipe_split(s: Seq<char>, st: int) -> Seq<Seq<char>>
    decreases s.len() + 1 - st,
{
    if st < 0 || st > s.len() {
        Seq::empty()
    } else {
        let w = run_len(s, st, |c: char| c != '|');
        if w < 0 || st + w > s.len() {
            Seq::empty()
        } else {
            let piece = s.subrange(st, st + w);
            if st + w >= s.len() {
                seq![piece]
            } else {
                seq![piece] + pipe_split(s, st + w + 1)
            }
        }
    }
}

/// The alias list of one usage entry: the text before the first `:`,
/// a leading `#` removed, split on `|`.
pub open spec fn entry_aliases(e: Seq<char>) -> Seq<Seq<char>> {
    let cut = run_len(e, 0, |c: char| c != ':');
    let part = if 0 <= cut <= e.len() {
        e.subrange(0, cut)
    } else {
        e
    };
    let clean = if part.len() > 0 && part[0] == '#' {
        part.subrange(1, part.len() as int)
    } else {
        part
    };
    pipe_split(clean, 0)
}

/// All aliases over the even usage positions, in order.
pub open spec fn usage_aliases(args: Seq<Seq<char>>, i: int) -> Seq<Seq<char>>
    decreases args.len() + 2 - i,
{
    if i < 0 || i >= args.len() {
        Seq::empty()
    } else {
        entry_aliases(args[i]) + usage_aliases(args, i + 2)
    }
}

/// One fold step: take the alias when it strictly improves the distance
/// (or when nothing was taken yet).
pub open spec fn best_step(
    input: Seq<char>,
    cur: Option<(Seq<char>, int)>,
    alias: Seq<char>,
) -> Option<(Seq<char>, int)> {
    let d = spec_edit_distance(input, alias);
    match cur {
        None => Some((alias, d)),
        Some(c) => if d < c.1 {
            Some((alias, d))
        } else {
            cur
        },
    }
}

/// The first alias reaching the minimum distance, folded left to right.
pub open spec fn best_alias(
    input: Seq<char>,
    aliases: Seq<Seq<char>>,
    cur: Option<(Seq<char>, int)>,
) -> Option<(Seq<char>, int)>
    decreases aliases.len(),
{
    if aliases.len() == 0 {
        cur
    } else {
        best_alias(input, aliases.subrange(1, aliases.len() as int), best_step(input, cur, aliases[0]))
    }
}

/// The suggestion thresholds: a positive distance of at most two that is
/// at most forty percent of the longer length (with the executable
/// overflow guard mirrored).
pub open spec fn suggest_ok(input: Seq<char>, nm: Seq<char>, d: int) -> bool {
    let mx: int = if input.len() > nm.len() {
        input.len() as int
    } else {
        nm.len() as int
    };
    0 < d <= 2 && mx < usize::MAX as int / 100 && d * 100 <= 40 * mx
}

/// Folding a concatenation folds the halves in order.
proof fn lemma_best_concat(
    input: Seq<char>,
    a: Seq<Seq<char>>,
    b: Seq<Seq<char>>,
    cur: Option<(Seq<char>, int)>,
)
    ensures
        best_alias(input, a + b, cur) == best_alias(input, b, best_alias(input, a, cur)),
    decreases a.len(),
{
    if a.len() == 0 {
        assert(a + b =~= b);
    } else {
        assert((a + b)[0] == a[0]);
        assert((a + b).subrange(1, (a + b).len() as int) =~= a.subrange(1, a.len() as int) + b);
        lemma_best_concat(input, a.subrange(1, a.len() as int), b, best_step(input, cur, a[0]));
    }
}

/// Suggest the closest command name from usage pairs: the first alias
/// (over the even entries, cut at `:`, `#` stripped, split on `|`)
/// reaching the minimum edit distance, kept only when that distance is
/// positive, at most two, and at most forty percent of the longer name.
pub fn suggest_command(input: &str, usage_arr: &Vec<String>) -> (r: Option<String>)
    ensures
        ({
            let best = best_alias(input@, usage_aliases(strings_view(usage_arr@), 0), None);
            match r {
                Some(name) => best matches Some(c) && name@ == c.0 && suggest_ok(
                    input@,
                    c.0,
                    c.1,
                ),
                None => match best {
                    Some(c) => !suggest_ok(input@, c.0, c.1),
                    None => true,
                },
            }
        }),
{
    let ghost argsv = strings_view(usage_arr@);
    let ghost all = usage_aliases(argsv, 0);
    let mut best_name: Option<String> = None;
    let mut best_dist: usize = usize::MAX;
    let n = usage_arr.len();
    let mut i: usize = 0;
    while i < n
        invariant_except_break
            best_alias(input@, all, None) == best_alias(input@, usage_aliases(argsv, i as int), ({
                match best_name {
                    None => None,
                    Some(nm) => Some((nm@, best_dist as int)),
                }
            })),
        invariant
            i <= n + 1,
            n == usage_arr@.len(),
            argsv == strings_view(usage_arr@),
            all == usage_aliases(argsv, 0),
            best_name is None ==> best_dist == usize::MAX,
        ensures
            best_alias(input@, all, None) == ({
                match best_name {
                    None => None,
                    Some(nm) => Some((nm@, best_dist as int)),
                }
            }),
            best_name is None ==> best_dist == usize::MAX,
        decreases n - i,
    {
        let ghost cur0: Option<(Seq<char>, int)> = match &best_name {
            None => None,
            Some(nm) => Some((nm@, best_dist as int)),
        };
        let entry = str_to_chars(usage_arr[i].as_str());
        // the text before the first `:`
        let en = entry.len();
        let mut cut: usize = 0;
        while cut < en && entry[cut] != ':'
            invariant
                cut <= en == entry@.len(),
                run_len(entry@, 0, |c: char| c != ':') == cut + run_len(
                    entry@,
                    cut as int,
                    |c: char| c != ':',
                ),
            decreases en - cut,
        {
            cut += 1;
        }
        proof {
            if cut < en {
                assert(run_len(entry@, cut as int, |c: char| c != ':') == 0);
            } else {
                lemma_run_len(entry@, cut as int, |c: char| c != ':');
            }
            assert(cut == run_len(entry@, 0, |c: char| c != ':'));
        }
        let part = subrange_chars(&entry, 0, cut);
        let start: usize = if part.len() > 0 && part[0] == '#' {
            1
        } else {
            0
        };
        let clean = subrange_chars(&part, start, part.len());
        proof {
            assert(clean@ =~= ({
                let p2 = entry@.subrange(0, cut as int);
                if p2.len() > 0 && p2[0] == '#' {
                    p2.subrange(1, p2.len() as int)
                } else {
                    p2
                }
            }));
            assert(usage_aliases(argsv, i as int) == entry_aliases(argsv[i as int])
                + usage_aliases(argsv, i + 2));
            assert(entry_aliases(argsv[i as int]) == pipe_split(clean@, 0));
        }
        // walk the |-separated aliases
        let cn = clean.len();
        let mut seg_start: usize = 0;
        let mut p: usize = 0;
        loop
            invariant_except_break
                best_alias(input@, all, None) == best_alias(
                    input@,
                    pipe_split(clean@, seg_start as int) + usage_aliases(argsv, i + 2),
                    ({
                        match best_name {
                            None => None,
                            Some(nm) => Some((nm@, best_dist as int)),
                        }
                    }),
                ),
                run_len(clean@, seg_start as int, |c: char| c != '|') == (p - seg_start) + run_len(
                    clean@,
                    p as int,
                    |c: char| c != '|',
                ),
            invariant
                seg_start <= p <= cn,
                cn == clean@.len(),
                i < argsv.len(),
                argsv == strings_view(usage_arr@),
                all == usage_aliases(argsv, 0),
                best_name is None ==> best_dist == usize::MAX,
            ensures
                best_alias(input@, all, None) == best_alias(
                    input@,
                    usage_aliases(argsv, i + 2),
                    ({
                        match best_name {
                            None => None,
                            Some(nm) => Some((nm@, best_dist as int)),
                        }
                    }),
                ),
                best_name is None ==> best_dist == usize::MAX,
            decreases cn - p,
        {
            if p == cn || clean[p] == '|' {
                proof {
                    if p < cn {
                        assert(run_len(clean@, p as int, |c: char| c != '|') == 0);
                    } else {
                        lemma_run_len(clean@, p as int, |c: char| c != '|');
                    }
                    assert(p - seg_start == run_len(clean@, seg_start as int, |c: char| c != '|'));
                }
                let alias = subrange_chars(&clean, seg_start, p);
                let ghost rem = pipe_split(clean@, seg_start as int);
                let ghost cur_in: Option<(Seq<char>, int)> = match &best_name {
                    None => None,
                    Some(nm) => Some((nm@, best_dist as int)),
                };
                proof {
                    assert(rem[0] == alias@);
                    if p < cn {
                        assert(rem.subrange(1, rem.len() as int) =~= pipe_split(clean@, p + 1));
                    } else {
                        assert(rem =~= seq![alias@]);
                        assert(rem.subrange(1, rem.len() as int) =~= Seq::<Seq<char>>::empty());
                        assert(pipe_split(clean@, seg_start as int).subrange(1, 1) + usage_aliases(
                            argsv,
                            i + 2,
                        ) =~= usage_aliases(argsv, i + 2));
                    }
                    assert((rem + usage_aliases(argsv, i + 2))[0] == alias@);
                    assert((rem + usage_aliases(argsv, i + 2)).subrange(
                        1,
                        (rem + usage_aliases(argsv, i + 2)).len() as int,
                    ) =~= rem.subrange(1, rem.len() as int) + usage_aliases(argsv, i + 2));
                }
                let alias_s = chars_to_string(&alias);
                let dist = levenshtein(input, alias_s.as_str());
                proof {
                    assert(dist as int == spec_edit_distance(input@, alias@));
                }
                if best_name.is_none() || dist < best_dist {
                    best_dist = dist;
                    best_name = Some(alias_s);
                }
                proof {
                    assert(({
                        match best_name {
                            None => None,
                            Some(nm) => Some((nm@, best_dist as int)),
                        }
                    }) == best_step(input@, cur_in, alias@));
                }
                if p == cn {
                    break;
                }
                seg_start = p + 1;
            }
            p += 1;
        }
        if n - i <= 2 {
            proof {
                assert(usage_aliases(argsv, i + 2) =~= Seq::<Seq<char>>::empty());
            }
            break;
        }
        i += 2;
    }
    proof {
        assert(usage_aliases(argsv, n as int) =~= Seq::<Seq<char>>::empty());
    }
    match best_name {
        Some(name) => {
            let input_chars = str_to_chars(input);
            let name_chars = str_to_chars(name.as_str());
            let in_len = input_chars.len();
            let nm_len = name_chars.len();
            let max_len = if in_len > nm_len {
                in_len
            } else {
                nm_len
            };
            if best_dist > 0 && best_dist <= 2 && max_len < usize::MAX / 100 && best_dist * 100
                <= max_len * 40 {
                Some(name)
            } else {
                None
            }
        },
        None => None,
    }
}

/// The first alias of a field definition: its text before the first `|`.
pub open spec fn first_alias(e: Seq<char>) -> Seq<char> {
    let w = run_len(e, 0, |c: char| c != '|');
    if 0 <= w <= e.len() {
        e.subrange(0, w)
    } else {
        e
    }
}

/// The required-flag scan over the even positions: group separators and
/// positionals pass; an unmatched boolean flag contributes a (`name`,
/// `0`) default; the first unmatched required flag stops the scan with
/// its first alias.
pub open spec fn req_scan(
    args: Seq<Seq<char>>,
    matched: Seq<Seq<char>>,
    i: int,
    acc: Seq<(Seq<char>, Seq<char>)>,
) -> Result<Seq<(Seq<char>, Seq<char>)>, Seq<char>>
    decreases args.len() + 2 - i,
{
    if i < 0 || i >= args.len() {
        Ok(acc)
    } else {
        let e = args[i];
        if e == "-"@ || !crate::join::has_char(e, 0, '|') {
            req_scan(args, matched, i + 2, acc)
        } else {
            let was = matched.contains(e);
            let acc2 = if spec_field_mods(e).0 && !was {
                acc.push((spec_field_name(e, true), "0"@))
            } else {
                acc
            };
            if spec_field_mods(e).2 && !was {
                Err(first_alias(e))
            } else {
                req_scan(args, matched, i + 2, acc2)
            }
        }
    }
}

/// Check required flags over the even positions of the args array:
/// returns the boolean defaults to set (`name`, `0`) or the first missing
/// required flag's first alias.
pub fn check_required_flags(args_arr: &Vec<String>, matched: &Vec<String>) -> (r: Result<
    Vec<(String, String)>,
    String,
>)
    ensures
        ({
            let spec_r = req_scan(strings_view(args_arr@), strings_view(matched@), 0, Seq::empty());
            match r {
                Ok(sets) => spec_r == Ok::<Seq<(Seq<char>, Seq<char>)>, Seq<char>>(
                    crate::obfuscate::pairs_view(sets@),
                ),
                Err(d) => spec_r == Err::<Seq<(Seq<char>, Seq<char>)>, Seq<char>>(d@),
            }
        }),
{
    proof {
        reveal_strlit("-");
        reveal_strlit("0");
    }
    let ghost argsv = strings_view(args_arr@);
    let ghost matchedv = strings_view(matched@);
    let mut sets: Vec<(String, String)> = Vec::new();
    let n = args_arr.len();
    let mut i: usize = 0;
    proof {
        assert(crate::obfuscate::pairs_view(sets@) =~= Seq::<(Seq<char>, Seq<char>)>::empty());
    }
    while i < n
        invariant
            i <= n + 1,
            n == args_arr@.len(),
            argsv == strings_view(args_arr@),
            matchedv == strings_view(matched@),
            req_scan(argsv, matchedv, 0, Seq::empty()) == req_scan(
                argsv,
                matchedv,
                i as int,
                crate::obfuscate::pairs_view(sets@),
            ),
        ensures
            req_scan(argsv, matchedv, 0, Seq::empty()) == Ok::<
                Seq<(Seq<char>, Seq<char>)>,
                Seq<char>,
            >(crate::obfuscate::pairs_view(sets@)),
        decreases n - i,
    {
        let ghost pv0 = crate::obfuscate::pairs_view(sets@);
        let field_str = args_arr[i].as_str();
        let fv = str_to_chars(field_str);
        let is_dash = fv.len() == 1 && fv[0] == '-';
        proof {
            reveal_strlit("-");
            reveal_strlit("0");
            if is_dash {
                assert(fv@ =~= "-"@);
            } else {
                assert(fv@ != "-"@);
            }
        }
        if !is_dash {
            let def = parse_field(field_str);
            if !def.is_positional {
                let was_matched = contains_str(matched, field_str);
                if def.is_boolean && !def.has_default && !was_matched {
                    let ghost before = sets@;
                    sets.push((def.name.clone(), String::from_str("0")));
                    proof {
                        assert(crate::obfuscate::pairs_view(sets@)
                            =~= crate::obfuscate::pairs_view(before).push(
                            (spec_field_name(argsv[i as int], true), "0"@),
                        ));
                    }
                }
                if def.required && !was_matched {
                    // report the first alias of the definition
                    let mut e: usize = 0;
                    let fn2 = fv.len();
                    while e < fn2 && fv[e] != '|'
                        invariant
                            e <= fn2 == fv@.len(),
                            run_len(fv@, 0, |c: char| c != '|') == e + run_len(
                                fv@,
                                e as int,
                                |c: char| c != '|',
                            ),
                        decreases fn2 - e,
                    {
                        e += 1;
                    }
                    proof {
                        if e < fn2 {
                            assert(run_len(fv@, e as int, |c: char| c != '|') == 0);
                        } else {
                            lemma_run_len(fv@, e as int, |c: char| c != '|');
                        }
                        assert(e == run_len(fv@, 0, |c: char| c != '|'));
                    }
                    let display = subrange_chars(&fv, 0, e);
                    proof {
                        assert(display@ == first_alias(argsv[i as int]));
                    }
                    return Err(chars_to_string(&display));
                }
            }
        }
        proof {
            assert(req_scan(argsv, matchedv, i as int, pv0) == req_scan(
                argsv,
                matchedv,
                i + 2,
                crate::obfuscate::pairs_view(sets@),
            ));
        }
        if n - i <= 2 {
            proof {
                assert(req_scan(argsv, matchedv, i + 2, crate::obfuscate::pairs_view(sets@))
                    == Ok::<Seq<(Seq<char>, Seq<char>)>, Seq<char>>(
                    crate::obfuscate::pairs_view(sets@),
                ));
                assert(req_scan(argsv, matchedv, n as int, crate::obfuscate::pairs_view(sets@))
                    == Ok::<Seq<(Seq<char>, Seq<char>)>, Seq<char>>(
                    crate::obfuscate::pairs_view(sets@),
                ));
            }
            i = n;
            break;
        }
        i += 2;
    }
    Ok(sets)
}

/// Membership of a string in a string list.
fn contains_str(list: &Vec<String>, x: &str) -> (r: bool)
    ensures
        r == strings_view(list@).contains(x@),
{
    let xv = str_to_chars(x);
    let n = list.len();
    let mut i: usize = 0;
    while i < n
        invariant
            i <= n == list@.len(),
            xv@ == x@,
            forall|m: int| 0 <= m < i ==> strings_view(list@)[m] != x@,
        decreases n - i,
    {
        let lv = str_to_chars(list[i].as_str());
        if lv.len() == xv.len() && matches_at(&lv, 0, &xv) {
            proof {
                assert(lv@.subrange(0, xv@.len() as int) =~= lv@);
                assert(strings_view(list@)[i as int] == x@);
            }
            return true;
        }
        proof {
            if lv@.len() == xv@.len() {
                assert(lv@.subrange(0, xv@.len() as int) =~= lv@);
            }
            assert(strings_view(list@)[i as int] != x@);
        }
        i += 1;
    }
    proof {
        assert(forall|m: int|
            0 <= m < strings_view(list@).len() ==> strings_view(list@)[m] != x@);
    }
    false
}

} // verus!
