//! Field definitions for command-line argument arrays: `name|short:mods`
//! entries with boolean, typed, required and hidden markers.

use vstd::prelude::*;

verus! {

use crate::text::{
    str_to_chars, chars_to_string, subrange_chars, extend_chars, extend_str, matches_at,
    blank_char, space_char, trim_chars, run_len, lemma_run_len, strings_view,
};
use vstd::string::StringExecFns;

/// A parsed field definition.
pub struct FieldDef {
    /// Variable name, dashes turned into underscores.
    pub name: String,
    /// Original name, dashes kept.
    pub display_name: String,
    /// The short flag name, when present.
    pub short: Option<String>,
    /// A boolean flag (`:+`).
    pub is_boolean: bool,
    /// The value kind (`:~kind`), `string` when unspecified.
    pub kind_name: String,
    /// Required (`:!`).
    pub required: bool,
    /// A positional field (no `|`).
    pub is_positional: bool,
    /// Hidden (`#` prefix).
    pub is_hidden: bool,
    /// Declared as an array in the surrounding shell; the parser itself
    /// cannot know this and leaves it off.
    pub is_array: bool,
    /// Already initialised in the surrounding shell; left off here.
    pub has_default: bool,
    /// Collects multiple values; left off here.
    pub is_multiple: bool,
    /// The raw field definition text.
    pub raw: String,
}

/// The name a field definition binds: the text before the first `|` or
/// `:`, without a `#` prefix; with `asref`, dashes map to underscores.
pub open spec fn spec_field_name(s: Seq<char>, asref: bool) -> Seq<char> {
    let cut = run_len(s, 0, |c: char| c != '|' && c != ':');
    let head = if 0 <= cut <= s.len() {
        s.subrange(0, cut)
    } else {
        s
    };
    let body = if head.len() > 0 && head[0] == '#' {
        head.subrange(1, head.len() as int)
    } else {
        head
    };
    Seq::new(
        body.len(),
        |i: int|
            if asref && body[i] == '-' {
                '_'
            } else {
                body[i]
            },
    )
}

/// The first `|` or `:` position.
fn first_sep(v: &Vec<char>) -> (r: usize)
    ensures
        r <= v@.len(),
        r == run_len(v@, 0, |c: char| c != '|' && c != ':'),
{
    let n = v.len();
    let mut i: usize = 0;
    while i < n
        invariant
            i <= n == v@.len(),
            run_len(v@, 0, |c: char| c != '|' && c != ':') == i + run_len(
                v@,
                i as int,
                |c: char| c != '|' && c != ':',
            ),
        decreases n - i,
    {
        if v[i] == '|' || v[i] == ':' {
            return i;
        }
        i += 1;
    }
    proof {
        lemma_run_len(v@, n as int, |c: char| c != '|' && c != ':');
    }
    n
}

/// Extract the variable name from a field definition: the text before the
/// first `|` or `:`, without a `#` prefix; with `asref`, dashes become
/// underscores.
pub fn field_name(field: &str, asref: bool) -> (r: String)
    ensures
        r@ == spec_field_name(field@, asref),
{
    let v = str_to_chars(field);
    let cut = first_sep(&v);
    let head = subrange_chars(&v, 0, cut);
    let start: usize = if head.len() > 0 && head[0] == '#' {
        1
    } else {
        0
    };
    let ghost body = if start == 1 {
        head@.subrange(1, head@.len() as int)
    } else {
        head@
    };
    let n = head.len();
    let mut out: Vec<char> = Vec::new();
    let mut i = start;
    while i < n
        invariant
            start <= i <= n == head@.len(),
            start == 0 || start == 1,
            body == if start == 1 {
                head@.subrange(1, head@.len() as int)
            } else {
                head@
            },
            out@.len() == i - start,
            forall|m: int|
                0 <= m < out@.len() ==> out@[m] == (if asref && body[m] == '-' {
                    '_'
                } else {
                    body[m]
                }),
        decreases n - i,
    {
        let c = head[i];
        proof {
            assert(body[i - start] == head@[i as int]);
        }
        if asref && c == '-' {
            out.push('_');
        } else {
            out.push(c);
        }
        i += 1;
    }
    proof {
        assert(out@ =~= spec_field_name(field@, asref));
    }
    chars_to_string(&out)
}

/// The modifier state after scanning from `i`: `+` sets the boolean
/// flag, `~` collects the kind text up to the next modifier, `!` sets
/// required, anything else is skipped.
pub open spec fn mods_scan(
    s: Seq<char>,
    i: int,
    b: bool,
    k: Seq<char>,
    req: bool,
) -> (bool, Seq<char>, bool)
    decreases s.len() - i,
{
    if i < 0 || i >= s.len() {
        (b, k, req)
    } else {
        let c = s[i];
        if c == '+' {
            mods_scan(s, i + 1, true, k, req)
        } else if c == '~' {
            let w = run_len(s, i + 1, |c: char| c != '+' && c != '~' && c != '!');
            if 0 <= w && i + 1 + w <= s.len() {
                mods_scan(s, i + 1 + w, b, s.subrange(i + 1, i + 1 + w), req)
            } else {
                (b, k, req)
            }
        } else if c == '!' {
            mods_scan(s, i + 1, b, k, true)
        } else {
            mods_scan(s, i + 1, b, k, req)
        }
    }
}

/// The short name of a flag field: the text between the first `|` and
/// the next `|` or the modifier colon, when nonempty.
pub open spec fn spec_field_short(s: Seq<char>) -> Option<Seq<char>> {
    let colon = run_len(s, 0, |c: char| c != ':');
    let p = run_len(s, 0, |c: char| c != '|');
    if p < colon {
        let w = run_len(s, p + 1, |c: char| c != '|');
        let e = if p + 1 + w < colon {
            p + 1 + w
        } else {
            colon
        };
        if e > p + 1 && p + 1 <= e <= s.len() {
            Some(s.subrange(p + 1, e))
        } else {
            None
        }
    } else {
        None
    }
}

/// The boolean flag, kind text and required flag a field's modifier
/// suffix yields; the kind defaults to `string` for a non-boolean field
/// that names none.
pub open spec fn spec_field_mods(s: Seq<char>) -> (bool, Seq<char>, bool) {
    let colon = run_len(s, 0, |c: char| c != ':');
    let m = if 0 <= colon < s.len() {
        mods_scan(s, colon + 1, false, Seq::empty(), false)
    } else {
        (false, Seq::<char>::empty(), false)
    };
    if m.1.len() == 0 && !m.0 {
        (m.0, "string"@, m.2)
    } else {
        m
    }
}

/// Parse a field definition string.  The shell-state fields (`is_array`,
/// `has_default`, `is_multiple`) stay off: only the surrounding
/// interpreter can know them, and callers that do may set them.
pub fn parse_field(field: &str) -> (r: FieldDef)
    ensures
        r.raw@ == field@,
        r.name@ == spec_field_name(field@, true),
        r.display_name@ == spec_field_name(field@, false),
        r.is_hidden == (field@.len() > 0 && field@[0] == '#'),
        r.is_positional == (!crate::join::has_char(field@, 0, '|') && field@ != "-"@),
        r.is_positional ==> r.short is None,
        !r.is_positional ==> (match r.short {
            Some(sh) => spec_field_short(field@) == Some(sh@),
            None => spec_field_short(field@) is None,
        }),
        r.is_boolean == spec_field_mods(field@).0,
        r.kind_name@ == spec_field_mods(field@).1,
        r.required == spec_field_mods(field@).2,
        !r.is_array && !r.has_default && !r.is_multiple,
{
    proof {
        reveal_strlit("-");
        reveal_strlit("string");
    }
    let v = str_to_chars(field);
    let n = v.len();
    let name = field_name(field, true);
    let display_name = field_name(field, false);
    let is_hidden = n > 0 && v[0] == '#';
    let has_pipe = crate::join::has_char_exec(&v, 0, '|');
    let is_dash_only = v.len() == 1 && v[0] == '-';
    proof {
        if is_dash_only {
            assert(v@ =~= "-"@);
        } else {
            assert(v@ != "-"@);
        }
    }
    let is_positional = !has_pipe && !is_dash_only;
    // the short name: the second |-separated part before any ':'
    let mut short: Option<String> = None;
    if !is_positional {
        let colon = first_colon_pos(&v);
        let mut p: usize = 0;
        while p < colon && v[p] != '|'
            invariant
                p <= colon <= v@.len(),
                colon == run_len(v@, 0, |c: char| c != ':'),
                run_len(v@, 0, |c: char| c != '|') == p + run_len(
                    v@,
                    p as int,
                    |c: char| c != '|',
                ),
            decreases colon - p,
        {
            p += 1;
        }
        if p < colon {
            proof {
                assert(run_len(v@, p as int, |c: char| c != '|') == 0);
                assert(run_len(v@, 0, |c: char| c != '|') == p);
            }
            let mut e = p + 1;
            while e < colon && v[e] != '|'
                invariant
                    p < e <= colon <= v@.len(),
                    colon == run_len(v@, 0, |c: char| c != ':'),
                    run_len(v@, p + 1, |c: char| c != '|') == (e - p - 1) + run_len(
                        v@,
                        e as int,
                        |c: char| c != '|',
                    ),
                decreases colon - e,
            {
                e += 1;
            }
            proof {
                let w = run_len(v@, p + 1, |c: char| c != '|');
                if e < colon {
                    assert(run_len(v@, e as int, |c: char| c != '|') == 0);
                    assert(e == p + 1 + w && p + 1 + w < colon);
                } else {
                    lemma_run_len(v@, e as int, |c: char| c != '|');
                    assert(w >= colon - p - 1);
                }
            }
            if e > p + 1 {
                let sh = subrange_chars(&v, p + 1, e);
                short = Some(chars_to_string(&sh));
            }
        } else {
            proof {
                lemma_run_len(v@, p as int, |c: char| c != '|');
                assert(run_len(v@, 0, |c: char| c != '|') >= colon);
            }
        }
    }
    // modifiers after the first ':'
    let mut is_boolean = false;
    let mut kind: Vec<char> = Vec::new();
    let mut required = false;
    let colon = first_colon_pos(&v);
    let ghost m = if 0 <= colon < v@.len() {
        mods_scan(v@, colon + 1, false, Seq::empty(), false)
    } else {
        (false, Seq::<char>::empty(), false)
    };
    if colon < n {
        let mut i = colon + 1;
        proof {
            assert(kind@ =~= Seq::<char>::empty());
        }
        while i < n
            invariant
                i <= n,
                n == v@.len(),
                mods_scan(v@, i as int, is_boolean, kind@, required) == m,
            decreases n - i,
        {
            let c = v[i];
            if c == '+' {
                is_boolean = true;
                i += 1;
            } else if c == '~' {
                i += 1;
                let start_k = i;
                let mut t: Vec<char> = Vec::new();
                while i < n && v[i] != '+' && v[i] != '~' && v[i] != '!'
                    invariant
                        start_k <= i,
                        i <= n,
                        n == v@.len(),
                        t@ == v@.subrange(start_k as int, i as int),
                        run_len(v@, start_k as int, |c: char| c != '+' && c != '~' && c != '!')
                            == (i - start_k) + run_len(
                            v@,
                            i as int,
                            |c: char| c != '+' && c != '~' && c != '!',
                        ),
                    decreases n - i,
                {
                    proof {
                        assert(v@.subrange(start_k as int, i + 1) =~= v@.subrange(
                            start_k as int,
                            i as int,
                        ).push(v@[i as int]));
                    }
                    t.push(v[i]);
                    i += 1;
                }
                proof {
                    if i < n {
                        assert(run_len(
                            v@,
                            i as int,
                            |c: char| c != '+' && c != '~' && c != '!',
                        ) == 0);
                    } else {
                        lemma_run_len(v@, i as int, |c: char| c != '+' && c != '~' && c != '!');
                    }
                    assert(i - start_k == run_len(
                        v@,
                        start_k as int,
                        |c: char| c != '+' && c != '~' && c != '!',
                    ));
                }
                kind = t;
            } else if c == '!' {
                required = true;
                i += 1;
            } else {
                i += 1;
            }
        }
    }
    proof {
        assert((is_boolean, kind@, required) == m);
    }
    if kind.len() == 0 && !is_boolean {
        kind = str_to_chars("string");
        proof {
            assert(kind@ == spec_field_mods(field@).1);
        }
    }
    FieldDef {
        name,
        display_name,
        short,
        is_boolean,
        kind_name: chars_to_string(&kind),
        required,
        is_positional,
        is_hidden,
        is_array: false,
        has_default: false,
        is_multiple: false,
        raw: String::from_str(field),
    }
}

/// The first `:` position, or the length.
fn first_colon_pos(v: &Vec<char>) -> (r: usize)
    ensures
        r <= v@.len(),
        r == run_len(v@, 0, |c: char| c != ':'),
{
    let n = v.len();
    let mut i: usize = 0;
    while i < n
        invariant
            i <= n == v@.len(),
            run_len(v@, 0, |c: char| c != ':') == i + run_len(v@, i as int, |c: char| c != ':'),
        decreases n - i,
    {
        if v[i] == ':' {
            return i;
        }
        i += 1;
    }
    proof {
        lemma_run_len(v@, n as int, |c: char| c != ':');
    }
    n
}

/// What the help line for a field holds: positionals as `name kind`,
/// flags as `   -s, --name kind` with a `!` marker when required and
/// `...` for a multi-valued flag.
pub open spec fn spec_format_field(def: FieldDef) -> Seq<char> {
    if def.is_positional {
        def.display_name@ + " "@ + def.kind_name@
    } else {
        (if def.required {
            " ! "@
        } else {
            "   "@
        }) + (match def.short {
            Some(sh) => "-"@ + sh@ + ", --"@ + def.display_name@,
            None => "    --"@ + def.display_name@,
        }) + " "@ + (if def.is_multiple {
            "..."@
        } else {
            Seq::<char>::empty()
        }) + def.kind_name@
    }
}

/// Format a field for help-text display.  The rendered line never
/// carries a default-value suffix: the shell state that would supply the
/// displayed value lives outside this crate, and `spec_format_field`
/// pins the whole result without one.
pub fn format_field(def: &FieldDef) -> (r: String)
    ensures
        r@ == spec_format_field(*def),
{
    proof {
        reveal_strlit(" ");
        reveal_strlit(" ! ");
        reveal_strlit("   ");
        reveal_strlit("-");
        reveal_strlit(", --");
        reveal_strlit("    --");
        reveal_strlit("...");
    }
    let mut out: Vec<char> = Vec::new();
    if def.is_positional {
        extend_str(&mut out, def.display_name.as_str());
        out.push(' ');
        extend_str(&mut out, def.kind_name.as_str());
        proof {
            assert(out@ =~= spec_format_field(*def));
        }
        return chars_to_string(&out);
    }
    if def.required {
        extend_str(&mut out, " ! ");
    } else {
        extend_str(&mut out, "   ");
    }
    match &def.short {
        Some(sh) => {
            out.push('-');
            extend_str(&mut out, sh.as_str());
            extend_str(&mut out, ", --");
            extend_str(&mut out, def.display_name.as_str());
        },
        None => {
            extend_str(&mut out, "    --");
            extend_str(&mut out, def.display_name.as_str());
        },
    }
    out.push(' ');
    if def.is_multiple {
        extend_str(&mut out, "...");
    }
    extend_str(&mut out, def.kind_name.as_str());
    proof {
        assert(out@ =~= spec_format_field(*def));
    }
    chars_to_string(&out)
}

/// Whether a pipe-separated piece of `h` at or after `st` equals `flag`.
pub open spec fn seg_contains(h: Seq<char>, st: int, flag: Seq<char>) -> bool
    decreases h.len() + 1 - st,
{
    if st < 0 || st > h.len() {
        false
    } else {
        let w = run_len(h, st, |c: char| c != '|');
        if w < 0 || st + w > h.len() {
            false
        } else {
            let piece = h.subrange(st, st + w);
            if piece == flag {
                true
            } else if st + w >= h.len() {
                false
            } else {
                seg_contains(h, st + w + 1, flag)
            }
        }
    }
}

/// Whether a field definition names `flag` as one of its aliases: the
/// text before the first `:`, without a `#` prefix, split on `|`.
pub open spec fn entry_matches(e: Seq<char>, flag: Seq<char>) -> bool {
    let colon = run_len(e, 0, |c: char| c != ':');
    let head = if 0 <= colon <= e.len() {
        e.subrange(0, colon)
    } else {
        e
    };
    let start: int = if head.len() > 0 && head[0] == '#' {
        1
    } else {
        0
    };
    seg_contains(head, start, flag)
}

/// The smallest even index whose definition names the flag.
pub open spec fn lookup_scan(args: Seq<Seq<char>>, i: int, flag: Seq<char>) -> Option<int>
    decreases args.len() + 2 - i,
{
    if i < 0 || i >= args.len() {
        None
    } else if entry_matches(args[i], flag) {
        Some(i)
    } else {
        lookup_scan(args, i + 2, flag)
    }
}

/// Look a flag up by its long or short name over the even positions of
/// the args array; returns the index of the first matching definition.
pub fn field_lookup(flag: &str, args: &Vec<String>) -> (r: Option<usize>)
    ensures
        match r {
            Some(i) => lookup_scan(strings_view(args@), 0, flag@) == Some(i as int) && i
                < args@.len() && i % 2 == 0,
            None => lookup_scan(strings_view(args@), 0, flag@) is None,
        },
{
    let ghost argsv = strings_view(args@);
    let fv = str_to_chars(flag);
    let n = args.len();
    let mut i: usize = 0;
    while i < n
        invariant_except_break
            lookup_scan(argsv, 0, flag@) == lookup_scan(argsv, i as int, flag@),
        invariant
            i <= n + 1,
            n == args@.len(),
            argsv == strings_view(args@),
            fv@ == flag@,
            i % 2 == 0,
        ensures
            lookup_scan(argsv, 0, flag@) is None,
        decreases n - i,
    {
        let def = str_to_chars(args[i].as_str());
        let colon = first_colon_pos(&def);
        let head = subrange_chars(&def, 0, colon);
        let start: usize = if head.len() > 0 && head[0] == '#' {
            1
        } else {
            0
        };
        // compare each |-separated part with the flag
        let hn = head.len();
        let mut p = start;
        let mut seg_start = start;
        loop
            invariant_except_break
                seg_contains(head@, start as int, flag@) == seg_contains(
                    head@,
                    seg_start as int,
                    flag@,
                ),
                run_len(head@, seg_start as int, |c: char| c != '|') == (p - seg_start) + run_len(
                    head@,
                    p as int,
                    |c: char| c != '|',
                ),
            invariant
                start <= seg_start <= p <= hn,
                hn == head@.len(),
                fv@ == flag@,
                i < args@.len(),
                i % 2 == 0,
                argsv == strings_view(args@),
                lookup_scan(argsv, 0, flag@) == lookup_scan(argsv, i as int, flag@),
                head@ == ({
                    let colon2 = run_len(argsv[i as int], 0, |c: char| c != ':');
                    argsv[i as int].subrange(0, colon2)
                }),
                start as int == ({
                    if head@.len() > 0 && head@[0] == '#' {
                        1int
                    } else {
                        0int
                    }
                }),
            ensures
                !entry_matches(argsv[i as int], flag@),
            decreases hn - p,
        {
            if p == hn || head[p] == '|' {
                proof {
                    if p < hn {
                        assert(run_len(head@, p as int, |c: char| c != '|') == 0);
                    } else {
                        lemma_run_len(head@, p as int, |c: char| c != '|');
                    }
                    assert(p - seg_start == run_len(head@, seg_start as int, |c: char| c != '|'));
                }
                let part = subrange_chars(&head, seg_start, p);
                if eq_chars_f(&part, &fv) {
                    proof {
                        lemma_run_len(head@, seg_start as int, |c: char| c != '|');
                        lemma_run_len(argsv[i as int], 0, |c: char| c != ':');
                        assert(seg_contains(head@, seg_start as int, flag@));
                        assert(entry_matches(argsv[i as int], flag@));
                        assert(lookup_scan(argsv, i as int, flag@) == Some(i as int));
                    }
                    return Some(i);
                }
                if p == hn {
                    proof {
                        lemma_run_len(head@, seg_start as int, |c: char| c != '|');
                        lemma_run_len(argsv[i as int], 0, |c: char| c != ':');
                        assert(!seg_contains(head@, seg_start as int, flag@));
                        assert(!entry_matches(argsv[i as int], flag@));
                    }
                    break;
                }
                proof {
                    lemma_run_len(head@, seg_start as int, |c: char| c != '|');
                    assert(seg_contains(head@, seg_start as int, flag@) == seg_contains(
                        head@,
                        p + 1,
                        flag@,
                    ));
                }
                seg_start = p + 1;
            }
            p += 1;
        }
        proof {
            assert(lookup_scan(argsv, i as int, flag@) == lookup_scan(argsv, i + 2, flag@));
        }
        if n - i <= 2 {
            proof {
                assert(lookup_scan(argsv, i + 2, flag@) is None);
            }
            break;
        }
        i += 2;
    }
    None
}

/// A positional entry: no pipe and not the group separator.
pub open spec fn is_positional_entry(e: Seq<char>) -> bool {
    !crate::join::has_char(e, 0, '|') && e != "-"@
}

/// The index of the `pos`-th positional entry over the even positions,
/// counting from one.
pub open spec fn pos_scan(args: Seq<Seq<char>>, i: int, pos: int) -> Option<int>
    decreases args.len() + 2 - i,
{
    if i < 0 || i >= args.len() {
        None
    } else if is_positional_entry(args[i]) {
        if pos == 1 {
            Some(i)
        } else {
            pos_scan(args, i + 2, pos - 1)
        }
    } else {
        pos_scan(args, i + 2, pos)
    }
}

/// Find the nth positional field over the even positions.  Only the
/// definition text is consulted; the shell-declared-array catch-all the
/// surrounding interpreter may apply lives outside this crate.
pub fn field_positional(position: usize, args: &Vec<String>) -> (r: Option<usize>)
    requires
        position >= 1,
    ensures
        match r {
            Some(i) => pos_scan(strings_view(args@), 0, position as int) == Some(i as int) && i
                < args@.len() && i % 2 == 0,
            None => pos_scan(strings_view(args@), 0, position as int) is None,
        },
{
    let ghost argsv = strings_view(args@);
    let mut pos = position;
    let n = args.len();
    let mut i: usize = 0;
    while i < n
        invariant_except_break
            pos_scan(argsv, 0, position as int) == pos_scan(argsv, i as int, pos as int),
        invariant
            i <= n + 1,
            n == args@.len(),
            argsv == strings_view(args@),
            pos >= 1,
            i % 2 == 0,
        ensures
            pos_scan(argsv, 0, position as int) is None,
        decreases n - i,
    {
        let def = str_to_chars(args[i].as_str());
        let has_pipe = crate::join::has_char_exec(&def, 0, '|');
        let is_dash_only = def.len() == 1 && def[0] == '-';
        proof {
            reveal_strlit("-");
            if is_dash_only {
                assert(def@ =~= "-"@);
            } else {
                assert(def@ != "-"@);
            }
        }
        if !has_pipe && !is_dash_only {
            if pos == 1 {
                return Some(i);
            }
            pos -= 1;
        }
        if n - i <= 2 {
            proof {
                assert(pos_scan(argsv, i + 2, pos as int) is None);
            }
            break;
        }
        i += 2;
    }
    None
}

/// Executable equality of character vectors.
fn eq_chars_f(a: &Vec<char>, b: &Vec<char>) -> (r: bool)
    ensures
        r == (a@ == b@),
{
    if a.len() != b.len() {
        return false;
    }
    let r = matches_at(a, 0, b);
    proof {
        assert(a@.subrange(0, b@.len() as int) =~= a@);
        if r {
            assert(a@ == b@);
        } else {
            assert(a@ != b@);
        }
    }
    r
}

} // verus!
