//! Flat JSON helpers: escaping, tool-schema fragments and a parser for
//! one-level JSON objects of strings, numbers, booleans and null.

use vstd::prelude::*;

verus! {

use crate::field::{parse_field, spec_field_name, spec_field_short, spec_field_mods};
use crate::text::{
    str_to_chars, chars_to_string, subrange_chars, extend_str, matches_at,
    space_char, is_word_char, word_char, strings_view, run_len, lemma_run_len, match_at,
};
use vstd::string::StringExecFns;

/// What escaping does to one character.
pub open spec fn esc_char(c: char) -> Seq<char> {
    if c == '\\' {
        seq!['\\', '\\']
    } else if c == '"' {
        seq!['\\', '"']
    } else if c == '\n' {
        seq!['\\', 'n']
    } else if c == '\r' {
        seq!['\\', 'r']
    } else if c == '\t' {
        seq!['\\', 't']
    } else {
        seq![c]
    }
}

/// The JSON escape of a whole text.
pub open spec fn spec_json_escape(s: Seq<char>) -> Seq<char>
    decreases s.len(),
{
    if s.len() == 0 {
        Seq::empty()
    } else {
        esc_char(s[0]) + spec_json_escape(s.subrange(1, s.len() as int))
    }
}

/// Escape a string for JSON string output.
pub fn json_escape(s: &str) -> (r: String)
    ensures
        r@ == spec_json_escape(s@),
{
    let v = str_to_chars(s);
    let n = v.len();
    let mut out: Vec<char> = Vec::new();
    let mut i: usize = 0;
    proof {
        assert(v@.subrange(0, n as int) =~= v@);
    }
    while i < n
        invariant
            i <= n == v@.len(),
            out@ + spec_json_escape(v@.subrange(i as int, n as int)) == spec_json_escape(v@),
        decreases n - i,
    {
        let ghost rest = v@.subrange(i as int, n as int);
        proof {
            assert(rest[0] == v@[i as int]);
            assert(rest.subrange(1, rest.len() as int) =~= v@.subrange(i + 1, n as int));
        }
        let c = v[i];
        if c == '\\' {
            out.push('\\');
            out.push('\\');
        } else if c == '"' {
            out.push('\\');
            out.push('"');
        } else if c == '\n' {
            out.push('\\');
            out.push('n');
        } else if c == '\r' {
            out.push('\\');
            out.push('r');
        } else if c == '\t' {
            out.push('\\');
            out.push('t');
        } else {
            out.push(c);
        }
        proof {
            assert(out@ + spec_json_escape(v@.subrange(i + 1, n as int)) =~= spec_json_escape(
                v@,
            ));
        }
        i += 1;
    }
    proof {
        assert(spec_json_escape(v@.subrange(n as int, n as int)) =~= Seq::<char>::empty());
        assert(out@ + Seq::<char>::empty() =~= out@);
    }
    chars_to_string(&out)
}

/// What sanitising does to one character: identifier characters and `-`
/// stay, everything else becomes `_`.
pub open spec fn san_char(c: char) -> char {
    if is_word_char(c) || c == '-' {
        c
    } else {
        '_'
    }
}

/// Sanitize a string for use as a tool name.
pub fn sanitize_tool_name(s: &str) -> (r: String)
    ensures
        r@.len() == s@.len(),
        forall|i: int| 0 <= i < s@.len() ==> r@[i] == san_char(s@[i]),
{
    let v = str_to_chars(s);
    let n = v.len();
    let mut out: Vec<char> = Vec::new();
    let mut i: usize = 0;
    while i < n
        invariant
            i <= n == v@.len(),
            out@.len() == i,
            forall|m: int| 0 <= m < i ==> out@[m] == san_char(v@[m]),
        decreases n - i,
    {
        let c = v[i];
        if word_char(c) || c == '-' {
            out.push(c);
        } else {
            out.push('_');
        }
        i += 1;
    }
    chars_to_string(&out)
}

/// Map a field kind to a JSON-schema base type: booleans first, then
/// `int` and `float`, and everything else is a string.
pub fn argsh_type_to_json(kind_name: &str, is_boolean: bool) -> (r: String)
    ensures
        is_boolean ==> r@ == "boolean"@,
        !is_boolean && kind_name@ == "int"@ ==> r@ == "integer"@,
        !is_boolean && kind_name@ == "float"@ ==> r@ == "number"@,
        !is_boolean && kind_name@ != "int"@ && kind_name@ != "float"@ ==> r@ == "string"@,
{
    proof {
        reveal_strlit("int");
        reveal_strlit("float");
    }
    if is_boolean {
        return String::from_str("boolean");
    }
    let v = str_to_chars(kind_name);
    let int_kw = str_to_chars("int");
    let float_kw = str_to_chars("float");
    if v.len() == 3 && matches_at(&v, 0, &int_kw) {
        proof {
            assert(v@.subrange(0, 3) =~= v@);
        }
        return String::from_str("integer");
    }
    if v.len() == 5 && matches_at(&v, 0, &float_kw) {
        proof {
            assert(v@.subrange(0, 5) =~= v@);
        }
        return String::from_str("number");
    }
    proof {
        if v@ == "int"@ {
            assert(v@.subrange(0, 3) =~= v@);
            assert(false);
        }
        if v@ == "float"@ {
            assert(v@.subrange(0, 5) =~= v@);
            assert(false);
        }
    }
    String::from_str("string")
}

/// Extracted subcommand info from usage pairs.
pub struct SubCmd {
    /// The visible command name.
    pub name: String,
    /// Its description.
    pub desc: String,
}

/// Extracted flag info from an args array.
pub struct FlagInfo {
    /// The display name.
    pub name: String,
    /// The short name, when present.
    pub short: Option<String>,
    /// The description.
    pub desc: String,
    /// A boolean flag.
    pub is_boolean: bool,
    /// The value kind.
    pub kind_name: String,
    /// Required.
    pub required: bool,
}

/// The visible name of a usage entry: its text before the first `|` or
/// `:`.
pub open spec fn first_cmd_name(e: Seq<char>) -> Seq<char> {
    let w = run_len(e, 0, |c: char| c != '|' && c != ':');
    if 0 <= w <= e.len() {
        e.subrange(0, w)
    } else {
        e
    }
}

/// The records of a subcommand list: name and description.
pub open spec fn subs_view(v: Seq<SubCmd>) -> Seq<(Seq<char>, Seq<char>)> {
    Seq::new(v.len(), |i: int| (v[i].name@, v[i].desc@))
}

/// The subcommand scan over the even positions: hidden entries (leading
/// `#`) and the group separator contribute nothing; everything else
/// yields its first alias paired with the following description (empty
/// when absent).
pub open spec fn sub_scan(
    args: Seq<Seq<char>>,
    i: int,
    acc: Seq<(Seq<char>, Seq<char>)>,
) -> Seq<(Seq<char>, Seq<char>)>
    decreases args.len() + 2 - i,
{
    if i < 0 || i >= args.len() {
        acc
    } else {
        let e = args[i];
        let desc = if i + 1 < args.len() {
            args[i + 1]
        } else {
            Seq::empty()
        };
        let keep = !(e.len() > 0 && e[0] == '#') && e != "-"@;
        let acc2 = if keep {
            acc.push((first_cmd_name(e), desc))
        } else {
            acc
        };
        sub_scan(args, i + 2, acc2)
    }
}

/// Extract the visible subcommands from usage pairs: hidden entries and
/// group separators are skipped; the name is the first alias.
pub fn extract_subcommands(usage_pairs: &Vec<String>) -> (r: Vec<SubCmd>)
    ensures
        subs_view(r@) == sub_scan(strings_view(usage_pairs@), 0, Seq::empty()),
{
    let ghost argsv = strings_view(usage_pairs@);
    let mut cmds: Vec<SubCmd> = Vec::new();
    let n = usage_pairs.len();
    let mut i: usize = 0;
    proof {
        assert(subs_view(cmds@) =~= Seq::<(Seq<char>, Seq<char>)>::empty());
    }
    while i < n
        invariant_except_break
            sub_scan(argsv, 0, Seq::empty()) == sub_scan(argsv, i as int, subs_view(cmds@)),
        invariant
            i <= n + 1,
            n == usage_pairs@.len(),
            argsv == strings_view(usage_pairs@),
        ensures
            sub_scan(argsv, 0, Seq::empty()) == subs_view(cmds@),
        decreases n - i,
    {
        let ghost pv0 = subs_view(cmds@);
        let entry = str_to_chars(usage_pairs[i].as_str());
        let desc: String = if i + 1 < n {
            usage_pairs[i + 1].clone()
        } else {
            String::new()
        };
        let hidden = entry.len() > 0 && entry[0] == '#';
        let dash = entry.len() == 1 && entry[0] == '-';
        proof {
            reveal_strlit("-");
            if dash {
                assert(entry@ =~= "-"@);
            } else {
                assert(entry@ != "-"@);
            }
        }
        if !hidden && !dash {
            let en = entry.len();
            let mut e: usize = 0;
            while e < en && entry[e] != '|' && entry[e] != ':'
                invariant
                    e <= en == entry@.len(),
                    run_len(entry@, 0, |c: char| c != '|' && c != ':') == e + run_len(
                        entry@,
                        e as int,
                        |c: char| c != '|' && c != ':',
                    ),
                decreases en - e,
            {
                e += 1;
            }
            proof {
                if e < en {
                    assert(run_len(entry@, e as int, |c: char| c != '|' && c != ':') == 0);
                } else {
                    lemma_run_len(entry@, e as int, |c: char| c != '|' && c != ':');
                }
                assert(e == run_len(entry@, 0, |c: char| c != '|' && c != ':'));
            }
            let name = subrange_chars(&entry, 0, e);
            let ghost before = cmds@;
            cmds.push(SubCmd { name: chars_to_string(&name), desc });
            proof {
                assert(subs_view(cmds@) =~= subs_view(before).push(
                    (first_cmd_name(argsv[i as int]), ({
                        if i + 1 < argsv.len() {
                            argsv[i + 1]
                        } else {
                            Seq::<char>::empty()
                        }
                    })),
                ));
            }
        }
        proof {
            assert(sub_scan(argsv, i as int, pv0) == sub_scan(
                argsv,
                i + 2,
                subs_view(cmds@),
            ));
        }
        if n - i <= 2 {
            proof {
                assert(sub_scan(argsv, i + 2, subs_view(cmds@)) == subs_view(cmds@));
            }
            break;
        }
        i += 2;
    }
    cmds
}

/// Whether a flag record list already names `help`.
pub open spec fn has_help_flag(
    base: Seq<(Seq<char>, Option<Seq<char>>, Seq<char>, bool, Seq<char>, bool)>,
) -> bool {
    exists|j: int| 0 <= j < base.len() && (#[trigger] base[j]).0 == "help"@
}

/// The generated help record: boolean, short `h`, not required.
pub open spec fn help_record() -> (Seq<char>, Option<Seq<char>>, Seq<char>, bool, Seq<char>, bool) {
    ("help"@, Some("h"@), "Show this help message"@, true, Seq::<char>::empty(), false)
}

/// Extract the visible flags from an args array; a `help` flag record is
/// appended exactly when no extracted flag is named `help`, so the
/// result is never empty.
pub fn extract_flags(args_arr: &Vec<String>) -> (r: Vec<FlagInfo>)
    ensures
        ({
            let base = llm_scan(strings_view(args_arr@), 0, Seq::empty());
            if has_help_flag(base) {
                flags_view(r@) == base
            } else {
                flags_view(r@) == base.push(help_record())
            }
        }),
        r@.len() >= 1,
{
    proof {
        reveal_strlit("help");
        reveal_strlit("h");
        reveal_strlit("Show this help message");
    }
    let mut flags = extract_flags_for_llm(args_arr);
    let ghost base = llm_scan(strings_view(args_arr@), 0, Seq::empty());
    let mut has_help = false;
    let n = flags.len();
    let mut i: usize = 0;
    let help_kw = str_to_chars("help");
    while i < n
        invariant
            i <= n == flags@.len(),
            flags_view(flags@) == base,
            help_kw@ == "help"@ && help_kw@.len() == 4,
            has_help ==> has_help_flag(base),
            !has_help ==> forall|j: int| 0 <= j < i ==> (#[trigger] base[j]).0 != "help"@,
        decreases n - i,
    {
        let nv = str_to_chars(flags[i].name.as_str());
        proof {
            assert(base[i as int] == flag_view(flags@[i as int]));
        }
        let mut eq = nv.len() == 4;
        if eq {
            eq = matches_at(&nv, 0, &help_kw);
            proof {
                assert(nv@.subrange(0, 4) =~= nv@);
                if eq {
                    assert(nv@ == "help"@);
                } else {
                    assert(nv@ != "help"@);
                }
            }
        } else {
            proof {
                assert(nv@ != "help"@);
            }
        }
        if eq {
            has_help = true;
            proof {
                assert(base[i as int].0 == "help"@);
                assert(has_help_flag(base));
            }
        }
        i += 1;
    }
    proof {
        if !has_help {
            assert(forall|j: int| 0 <= j < base.len() ==> (#[trigger] base[j]).0 != "help"@);
            assert(!has_help_flag(base));
        }
    }
    if !has_help {
        let ghost before = flags@;
        flags.push(
            FlagInfo {
                name: String::from_str("help"),
                short: Some(String::from_str("h")),
                desc: String::from_str("Show this help message"),
                is_boolean: true,
                kind_name: String::new(),
                required: false,
            },
        );
        proof {
            assert(flags_view(flags@) =~= flags_view(before).push(help_record()));
        }
    }
    flags
}

/// The ghost record of one extracted flag: display name, short name,
/// description, boolean flag, kind and required flag.
pub open spec fn flag_view(f: FlagInfo) -> (
    Seq<char>,
    Option<Seq<char>>,
    Seq<char>,
    bool,
    Seq<char>,
    bool,
) {
    (
        f.name@,
        match f.short {
            Some(sh) => Some(sh@),
            None => None,
        },
        f.desc@,
        f.is_boolean,
        f.kind_name@,
        f.required,
    )
}

/// The records of a flag list.
pub open spec fn flags_view(v: Seq<FlagInfo>) -> Seq<
    (Seq<char>, Option<Seq<char>>, Seq<char>, bool, Seq<char>, bool),
> {
    Seq::new(v.len(), |i: int| flag_view(v[i]))
}

/// The flag scan over the even positions: an entry is kept when it has a
/// pipe and is neither hidden nor the group separator; its record pairs
/// the parsed field parts with the following description.
pub open spec fn llm_scan(
    args: Seq<Seq<char>>,
    i: int,
    acc: Seq<(Seq<char>, Option<Seq<char>>, Seq<char>, bool, Seq<char>, bool)>,
) -> Seq<(Seq<char>, Option<Seq<char>>, Seq<char>, bool, Seq<char>, bool)>
    decreases args.len() + 2 - i,
{
    if i < 0 || i >= args.len() {
        acc
    } else {
        let e = args[i];
        let desc = if i + 1 < args.len() {
            args[i + 1]
        } else {
            Seq::empty()
        };
        let keep = crate::join::has_char(e, 0, '|') && !(e.len() > 0 && e[0] == '#') && e
            != "-"@;
        let acc2 = if keep {
            acc.push(
                (
                    spec_field_name(e, false),
                    spec_field_short(e),
                    desc,
                    spec_field_mods(e).0,
                    spec_field_mods(e).1,
                    spec_field_mods(e).2,
                ),
            )
        } else {
            acc
        };
        llm_scan(args, i + 2, acc2)
    }
}

/// Extract the visible flags from an args array, without a generated
/// `help` entry.
pub fn extract_flags_for_llm(args_arr: &Vec<String>) -> (r: Vec<FlagInfo>)
    ensures
        flags_view(r@) == llm_scan(strings_view(args_arr@), 0, Seq::empty()),
{
    let ghost argsv = strings_view(args_arr@);
    let mut flags: Vec<FlagInfo> = Vec::new();
    let n = args_arr.len();
    let mut i: usize = 0;
    proof {
        assert(flags_view(flags@) =~= Seq::<
            (Seq<char>, Option<Seq<char>>, Seq<char>, bool, Seq<char>, bool),
        >::empty());
    }
    while i < n
        invariant_except_break
            llm_scan(argsv, 0, Seq::empty()) == llm_scan(argsv, i as int, flags_view(flags@)),
        invariant
            i <= n + 1,
            n == args_arr@.len(),
            argsv == strings_view(args_arr@),
        ensures
            llm_scan(argsv, 0, Seq::empty()) == flags_view(flags@),
        decreases n - i,
    {
        let ghost pv0 = flags_view(flags@);
        let entry = str_to_chars(args_arr[i].as_str());
        let desc: String = if i + 1 < n {
            args_arr[i + 1].clone()
        } else {
            String::new()
        };
        let has_pipe = crate::join::has_char_exec(&entry, 0, '|');
        let hidden = entry.len() > 0 && entry[0] == '#';
        let dash = entry.len() == 1 && entry[0] == '-';
        proof {
            reveal_strlit("-");
            if dash {
                assert(entry@ =~= "-"@);
            } else {
                assert(entry@ != "-"@);
            }
        }
        if has_pipe && !hidden && !dash {
            let def = parse_field(args_arr[i].as_str());
            let ghost before = flags@;
            let short = def.short;
            proof {
                assert(!def.is_positional);
            }
            flags.push(
                FlagInfo {
                    name: def.display_name,
                    short,
                    desc,
                    is_boolean: def.is_boolean,
                    kind_name: def.kind_name,
                    required: def.required,
                },
            );
            proof {
                assert(flags_view(flags@) =~= flags_view(before).push(
                    flag_view(flags@[flags@.len() - 1]),
                ));
            }
        }
        proof {
            assert(llm_scan(argsv, i as int, pv0) == llm_scan(
                argsv,
                i + 2,
                flags_view(flags@),
            ));
        }
        if n - i <= 2 {
            proof {
                assert(llm_scan(argsv, i + 2, flags_view(flags@)) == flags_view(flags@));
            }
            break;
        }
        i += 2;
    }
    flags
}

/// Write the JSON-schema `properties` and `required` fragments for a
/// flag list.
pub fn write_tool_properties(flags: &Vec<FlagInfo>, indent: &str) -> (r: String)
{
    let mut out: Vec<char> = Vec::new();
    extend_str(&mut out, indent);
    extend_str(&mut out, "\"properties\": {\n");
    let n = flags.len();
    let mut i: usize = 0;
    while i < n
        invariant
            i <= n == flags@.len(),
        decreases n - i,
    {
        let f = &flags[i];
        let jt = argsh_type_to_json(f.kind_name.as_str(), f.is_boolean);
        extend_str(&mut out, indent);
        extend_str(&mut out, "  \"");
        let en = json_escape(f.name.as_str());
        extend_str(&mut out, en.as_str());
        extend_str(&mut out, "\": {\n");
        extend_str(&mut out, indent);
        extend_str(&mut out, "    \"type\": \"");
        extend_str(&mut out, jt.as_str());
        extend_str(&mut out, "\",\n");
        extend_str(&mut out, indent);
        extend_str(&mut out, "    \"description\": \"");
        let ed = json_escape(f.desc.as_str());
        extend_str(&mut out, ed.as_str());
        extend_str(&mut out, "\"\n");
        extend_str(&mut out, indent);
        extend_str(&mut out, "  }");
        if i + 1 < n {
            out.push(',');
        }
        out.push('\n');
        i += 1;
    }
    extend_str(&mut out, indent);
    extend_str(&mut out, "},\n");
    extend_str(&mut out, indent);
    extend_str(&mut out, "\"required\": [");
    let mut first = true;
    let mut j: usize = 0;
    while j < n
        invariant
            j <= n == flags@.len(),
        decreases n - j,
    {
        if flags[j].required {
            if !first {
                extend_str(&mut out, ", ");
            }
            out.push('"');
            let en = json_escape(flags[j].name.as_str());
            extend_str(&mut out, en.as_str());
            out.push('"');
            first = false;
        }
        j += 1;
    }
    extend_str(&mut out, "]\n");
    chars_to_string(&out)
}

/// JSON value kinds for flat objects.
pub enum JsonValue {
    /// A string value, unescaped.
    Str(String),
    /// A numeric or other bare literal, kept as text.
    Number(String),
    /// A boolean.
    Bool(bool),
    /// A null.
    Null,
}

/// Position of the closing quote of a string body starting at `from`,
/// skipping backslash escapes.
pub open spec fn json_str_end(s: Seq<char>, from: int) -> Option<int>
    decreases s.len() - from,
{
    if from < 0 || from >= s.len() {
        None
    } else if s[from] == '\\' {
        if s.len() - from >= 2 {
            json_str_end(s, from + 2)
        } else {
            None
        }
    } else if s[from] == '"' {
        Some(from)
    } else {
        json_str_end(s, from + 1)
    }
}

/// The closing quote of a string whose body starts at `from`.
fn find_string_end(v: &Vec<char>, from: usize) -> (r: Option<usize>)
    requires
        from <= v@.len(),
    ensures
        match r {
            Some(e) => json_str_end(v@, from as int) == Some(e as int) && from <= e < v@.len(),
            None => json_str_end(v@, from as int) is None,
        },
    decreases v@.len() - from,
{
    let n = v.len();
    if from >= n {
        return None;
    }
    if v[from] == '\\' {
        if n - from >= 2 {
            return find_string_end(v, from + 2);
        }
        return None;
    }
    if v[from] == '"' {
        return Some(from);
    }
    find_string_end(v, from + 1)
}

/// What unescaping does to `s[from..to)`.
pub open spec fn spec_unescape(s: Seq<char>, from: int, to: int) -> Seq<char>
    decreases to - from,
{
    if from < 0 || from >= to || from >= s.len() {
        Seq::empty()
    } else if s[from] == '\\' && from + 1 < to && from + 1 < s.len() {
        let e = s[from + 1];
        let piece: Seq<char> = if e == '"' {
            seq!['"']
        } else if e == '\\' {
            seq!['\\']
        } else if e == 'n' {
            seq!['\n']
        } else if e == 'r' {
            seq!['\r']
        } else if e == 't' {
            seq!['\t']
        } else if e == '/' {
            seq!['/']
        } else {
            seq!['\\', e]
        };
        piece + spec_unescape(s, from + 2, to)
    } else {
        seq![s[from]] + spec_unescape(s, from + 1, to)
    }
}

/// Unescape a JSON string body.
fn unescape_json(v: &Vec<char>, from: usize, to: usize) -> (r: Vec<char>)
    requires
        from <= to <= v@.len(),
    ensures
        r@ == spec_unescape(v@, from as int, to as int),
    decreases to - from,
{
    let mut out: Vec<char> = Vec::new();
    let mut i = from;
    while i < to
        invariant
            from <= i <= to <= v@.len(),
            out@ + spec_unescape(v@, i as int, to as int) == spec_unescape(
                v@,
                from as int,
                to as int,
            ),
        decreases to - i,
    {
        let c = v[i];
        if c == '\\' && i + 1 < to {
            let e = v[i + 1];
            if e == '"' {
                out.push('"');
            } else if e == '\\' {
                out.push('\\');
            } else if e == 'n' {
                out.push('\n');
            } else if e == 'r' {
                out.push('\r');
            } else if e == 't' {
                out.push('\t');
            } else if e == '/' {
                out.push('/');
            } else {
                out.push('\\');
                out.push(e);
            }
            proof {
                assert(out@ + spec_unescape(v@, i + 2, to as int) =~= spec_unescape(
                    v@,
                    from as int,
                    to as int,
                ));
            }
            i += 2;
        } else {
            out.push(c);
            proof {
                assert(out@ + spec_unescape(v@, i + 1, to as int) =~= spec_unescape(
                    v@,
                    from as int,
                    to as int,
                ));
            }
            i += 1;
        }
    }
    proof {
        assert(spec_unescape(v@, to as int, to as int) =~= Seq::<char>::empty());
        assert(out@ + Seq::<char>::empty() =~= out@);
    }
    out
}

/// The ghost model of a parsed JSON value.
pub enum JsonModel {
    /// A string value, unescaped.
    MStr(Seq<char>),
    /// A bare literal kept as text.
    MNum(Seq<char>),
    /// A boolean.
    MBool(bool),
    /// A null.
    MNull,
}

/// The model of an executable JSON value.
pub open spec fn jv_view(v: JsonValue) -> JsonModel {
    match v {
        JsonValue::Str(s) => JsonModel::MStr(s@),
        JsonValue::Number(s) => JsonModel::MNum(s@),
        JsonValue::Bool(b) => JsonModel::MBool(b),
        JsonValue::Null => JsonModel::MNull,
    }
}

/// The models of a parsed pair list.
pub open spec fn jpairs_view(v: Seq<(String, JsonValue)>) -> Seq<(Seq<char>, JsonModel)> {
    Seq::new(v.len(), |i: int| (v[i].0@, jv_view(v[i].1)))
}

/// A separator between object members.
pub open spec fn is_json_sep(c: char) -> bool {
    c == ' ' || c == ',' || c == '\n' || c == '\r' || c == '\t'
}

/// A blank inside a member (between key, colon and value).
pub open spec fn is_json_blank(c: char) -> bool {
    c == ' ' || c == '\t'
}

/// A character that continues a bare literal value.
pub open spec fn is_json_lit(c: char) -> bool {
    c != ',' && c != '}' && c != ']' && !crate::text::is_space_char(c)
}

/// The member scan over the braces' inner text: separators pass, a
/// quoted key with a colon introduces a typed value (quoted string,
/// `true`/`false`/`null`, or a bare literal), and anything malformed
/// stops the scan.
pub open spec fn json_scan(
    s: Seq<char>,
    pos: int,
    acc: Seq<(Seq<char>, JsonModel)>,
) -> Seq<(Seq<char>, JsonModel)>
    decreases s.len() - pos,
{
    if pos < 0 || pos >= s.len() {
        acc
    } else if is_json_sep(s[pos]) {
        json_scan(s, pos + 1, acc)
    } else if s[pos] != '"' {
        acc
    } else {
        match json_str_end(s, pos + 1) {
            None => acc,
            Some(ke) => if !(pos + 1 <= ke < s.len()) {
                acc
            } else {
                let key = spec_unescape(s, pos + 1, ke);
                let sp1 = run_len(s, ke + 1, |c: char| is_json_blank(c));
                let p1 = ke + 1 + sp1;
                if sp1 < 0 || p1 >= s.len() || s[p1] != ':' {
                    acc
                } else {
                    let sp2 = run_len(s, p1 + 1, |c: char| is_json_blank(c));
                    let p = p1 + 1 + sp2;
                    if sp2 < 0 || p >= s.len() {
                        acc
                    } else if s[p] == '"' {
                        match json_str_end(s, p + 1) {
                            None => acc,
                            Some(e) => if p + 1 <= e < s.len() {
                                json_scan(
                                    s,
                                    e + 1,
                                    acc.push((key, JsonModel::MStr(spec_unescape(s, p + 1, e)))),
                                )
                            } else {
                                acc
                            },
                        }
                    } else if match_at(s, p, "true"@) && p + 4 <= s.len() {
                        json_scan(s, p + 4, acc.push((key, JsonModel::MBool(true))))
                    } else if match_at(s, p, "false"@) && p + 5 <= s.len() {
                        json_scan(s, p + 5, acc.push((key, JsonModel::MBool(false))))
                    } else if match_at(s, p, "null"@) && p + 4 <= s.len() {
                        json_scan(s, p + 4, acc.push((key, JsonModel::MNull)))
                    } else {
                        let w = run_len(s, p, |c: char| is_json_lit(c));
                        if w < 1 || p + w > s.len() {
                            acc
                        } else {
                            json_scan(
                                s,
                                p + w,
                                acc.push((key, JsonModel::MNum(s.subrange(p, p + w)))),
                            )
                        }
                    }
                }
            },
        }
    }
}

/// What the flat-object parser returns: nothing for text that is not
/// braced as an object after trimming, else the member scan of the inner
/// text.
pub open spec fn spec_parse_flat_json(s: Seq<char>) -> Seq<(Seq<char>, JsonModel)> {
    let t = crate::text::trim_spec(s);
    if t.len() < 2 || t[0] != '{' || t[t.len() - 1] != '}' {
        Seq::empty()
    } else {
        json_scan(t.subrange(1, t.len() - 1), 0, Seq::empty())
    }
}

/// Executable run of blanks (space/tab) starting at `i`.
fn json_blank_run(v: &Vec<char>, i: usize) -> (r: usize)
    requires
        i <= v@.len(),
    ensures
        r == run_len(v@, i as int, |c: char| is_json_blank(c)),
        i + r <= v@.len(),
    decreases v@.len() - i,
{
    let n = v.len();
    if i >= n {
        return 0;
    }
    if !(v[i] == ' ' || v[i] == '\t') {
        return 0;
    }
    let rest = json_blank_run(v, i + 1);
    proof {
        lemma_run_len(v@, i + 1, |c: char| is_json_blank(c));
    }
    1 + rest
}

/// Executable run of bare-literal characters starting at `i`.
fn json_lit_run(v: &Vec<char>, i: usize) -> (r: usize)
    requires
        i <= v@.len(),
    ensures
        r == run_len(v@, i as int, |c: char| is_json_lit(c)),
        i + r <= v@.len(),
    decreases v@.len() - i,
{
    let n = v.len();
    if i >= n {
        return 0;
    }
    if v[i] == ',' || v[i] == '}' || v[i] == ']' || space_char(v[i]) {
        return 0;
    }
    let rest = json_lit_run(v, i + 1);
    proof {
        lemma_run_len(v@, i + 1, |c: char| is_json_lit(c));
    }
    1 + rest
}

/// Parse a flat JSON object into key-value pairs; nested structure is
/// not interpreted.  Text that is not braced as an object after trimming
/// yields nothing.
pub fn parse_flat_json_object(json: &str) -> (r: Vec<(String, JsonValue)>)
    ensures
        jpairs_view(r@) == spec_parse_flat_json(json@),
{
    proof {
        reveal_strlit("true");
        reveal_strlit("false");
        reveal_strlit("null");
    }
    let true_kw = str_to_chars("true");
    let false_kw = str_to_chars("false");
    let null_kw = str_to_chars("null");
    let mut pairs: Vec<(String, JsonValue)> = Vec::new();
    let raw = str_to_chars(json);
    let t = crate::text::trim_chars(&raw);
    let tn = t.len();
    if tn < 2 || t[0] != '{' || t[tn - 1] != '}' {
        proof {
            assert(jpairs_view(pairs@) =~= spec_parse_flat_json(json@));
        }
        return pairs;
    }
    let inner = subrange_chars(&t, 1, tn - 1);
    let ghost innerv = inner@;
    let n = inner.len();
    let mut pos: usize = 0;
    proof {
        assert(jpairs_view(pairs@) =~= Seq::<(Seq<char>, JsonModel)>::empty());
    }
    while pos < n
        invariant_except_break
            json_scan(innerv, 0, Seq::empty()) == json_scan(
                innerv,
                pos as int,
                jpairs_view(pairs@),
            ),
        invariant
            pos <= n == inner@.len(),
            innerv == inner@,
            innerv == crate::text::trim_spec(json@).subrange(
                1,
                crate::text::trim_spec(json@).len() - 1,
            ),
            crate::text::trim_spec(json@).len() >= 2,
            crate::text::trim_spec(json@)[0] == '{',
            crate::text::trim_spec(json@)[crate::text::trim_spec(json@).len() - 1] == '}',
            true_kw@ == "true"@ && true_kw@.len() == 4,
            false_kw@ == "false"@ && false_kw@.len() == 5,
            null_kw@ == "null"@ && null_kw@.len() == 4,
        ensures
            json_scan(innerv, 0, Seq::empty()) == jpairs_view(pairs@),
        decreases n - pos,
    {
        let ghost acc0 = jpairs_view(pairs@);
        // separators and whitespace
        let c0 = inner[pos];
        if c0 == ' ' || c0 == ',' || c0 == '\n' || c0 == '\r' || c0 == '\t' {
            pos += 1;
            continue;
        }
        if c0 != '"' {
            proof {
                assert(json_scan(innerv, pos as int, acc0) == acc0);
            }
            break;
        }
        let key_end = match find_string_end(&inner, pos + 1) {
            Some(e) => e,
            None => {
                proof {
                    assert(json_scan(innerv, pos as int, acc0) == acc0);
                }
                break;
            },
        };
        let key = unescape_json(&inner, pos + 1, key_end);
        let sp1 = json_blank_run(&inner, key_end + 1);
        let p1 = key_end + 1 + sp1;
        if p1 >= n || inner[p1] != ':' {
            proof {
                assert(json_scan(innerv, pos as int, acc0) == acc0);
            }
            break;
        }
        let sp2 = json_blank_run(&inner, p1 + 1);
        let p = p1 + 1 + sp2;
        if p >= n {
            proof {
                assert(json_scan(innerv, pos as int, acc0) == acc0);
            }
            break;
        }
        let vc = inner[p];
        if vc == '"' {
            match find_string_end(&inner, p + 1) {
                Some(e) => {
                    let val = unescape_json(&inner, p + 1, e);
                    let ghost before = pairs@;
                    pairs.push(
                        (chars_to_string(&key), JsonValue::Str(chars_to_string(&val))),
                    );
                    proof {
                        assert(jpairs_view(pairs@) =~= jpairs_view(before).push(
                            (
                                spec_unescape(innerv, pos + 1, key_end as int),
                                JsonModel::MStr(spec_unescape(innerv, p + 1, e as int)),
                            ),
                        ));
                        assert(json_scan(innerv, pos as int, acc0) == json_scan(
                            innerv,
                            e + 1,
                            jpairs_view(pairs@),
                        ));
                    }
                    pos = e + 1;
                },
                None => {
                    proof {
                        assert(json_scan(innerv, pos as int, acc0) == acc0);
                    }
                    break;
                },
            }
        } else if matches_at(&inner, p, &true_kw) {
            let ghost before = pairs@;
            pairs.push((chars_to_string(&key), JsonValue::Bool(true)));
            proof {
                assert(jpairs_view(pairs@) =~= jpairs_view(before).push(
                    (spec_unescape(innerv, pos + 1, key_end as int), JsonModel::MBool(true)),
                ));
                assert(json_scan(innerv, pos as int, acc0) == json_scan(
                    innerv,
                    p + 4,
                    jpairs_view(pairs@),
                ));
            }
            pos = p + 4;
        } else if matches_at(&inner, p, &false_kw) {
            let ghost before = pairs@;
            pairs.push((chars_to_string(&key), JsonValue::Bool(false)));
            proof {
                assert(jpairs_view(pairs@) =~= jpairs_view(before).push(
                    (spec_unescape(innerv, pos + 1, key_end as int), JsonModel::MBool(false)),
                ));
                assert(json_scan(innerv, pos as int, acc0) == json_scan(
                    innerv,
                    p + 5,
                    jpairs_view(pairs@),
                ));
            }
            pos = p + 5;
        } else if matches_at(&inner, p, &null_kw) {
            let ghost before = pairs@;
            pairs.push((chars_to_string(&key), JsonValue::Null));
            proof {
                assert(jpairs_view(pairs@) =~= jpairs_view(before).push(
                    (spec_unescape(innerv, pos + 1, key_end as int), JsonModel::MNull),
                ));
                assert(json_scan(innerv, pos as int, acc0) == json_scan(
                    innerv,
                    p + 4,
                    jpairs_view(pairs@),
                ));
            }
            pos = p + 4;
        } else {
            let w = json_lit_run(&inner, p);
            if w == 0 {
                proof {
                    assert(json_scan(innerv, pos as int, acc0) == acc0);
                }
                break;
            }
            let rawv = subrange_chars(&inner, p, p + w);
            let ghost before = pairs@;
            pairs.push((chars_to_string(&key), JsonValue::Number(chars_to_string(&rawv))));
            proof {
                assert(jpairs_view(pairs@) =~= jpairs_view(before).push(
                    (
                        spec_unescape(innerv, pos + 1, key_end as int),
                        JsonModel::MNum(innerv.subrange(p as int, p + w)),
                    ),
                ));
                assert(json_scan(innerv, pos as int, acc0) == json_scan(
                    innerv,
                    p + w,
                    jpairs_view(pairs@),
                ));
            }
            pos = p + w;
        }
    }
    proof {
        assert(spec_parse_flat_json(json@) == json_scan(innerv, 0, Seq::empty()));
    }
    pairs
}

} // verus!
