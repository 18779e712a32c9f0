//! Annotation parser for bash sources: a line-by-line state machine that
//! collects `@`-tags into a document model.

use vstd::prelude::*;

verus! {

use crate::model::{Document, FileDoc, FunctionDoc, SectionInfo, ArgEntry, OptionEntry};
use crate::text::{
    str_to_chars, chars_to_string, subrange_chars, extend_chars, extend_str, matches_at,
    blank_char, space_char, word_char, trim_chars,
};
use crate::strip::split_lines;
use crate::flatten::rtrim_chars;
use vstd::string::StringExecFns;

// -- Small scanners ------------------------------------------------------------------

/// Length of the run of blanks (space/tab) from `i`.
fn blanks_from(v: &Vec<char>, i: usize) -> (r: usize)
    requires
        i <= v@.len(),
    ensures
        i + r <= v@.len(),
    decreases v@.len() - i,
{
    if i >= v.len() {
        return 0;
    }
    if !blank_char(v[i]) {
        return 0;
    }
    1 + blanks_from(v, i + 1)
}

/// Length of the run of whitespace from `i`.
fn spaces_from(v: &Vec<char>, i: usize) -> (r: usize)
    requires
        i <= v@.len(),
    ensures
        i + r <= v@.len(),
    decreases v@.len() - i,
{
    if i >= v.len() {
        return 0;
    }
    if !space_char(v[i]) {
        return 0;
    }
    1 + spaces_from(v, i + 1)
}

/// Match `ws* # ws+ @tag` and return the position right after the tag.
fn tag_head(v: &Vec<char>, tag: &Vec<char>) -> (r: Option<usize>)
    ensures
        match r {
            Some(p) => p <= v@.len(),
            None => true,
        },
{
    let a = spaces_from(v, 0);
    if a >= v.len() || v[a] != '#' {
        return None;
    }
    let sp = spaces_from(v, a + 1);
    if sp < 1 {
        return None;
    }
    let p = a + 1 + sp;
    if p >= v.len() || v[p] != '@' {
        return None;
    }
    if matches_at(v, p + 1, tag) {
        Some(p + 1 + tag.len())
    } else {
        None
    }
}

/// Like `tag_head`, but demands whitespace after the tag and captures the
/// rest of the line.
fn tag_capture(v: &Vec<char>, tag: &Vec<char>) -> (r: Option<Vec<char>>)
{
    let end = v.len();
    match tag_head(v, tag) {
        Some(p) => {
            let sp = spaces_from(v, p);
            if sp < 1 {
                return None;
            }
            Some(subrange_chars(v, p + sp, end))
        },
        None => None,
    }
}

/// A line of nothing but whitespace.
fn line_blank(v: &Vec<char>) -> (r: bool)
{
    let sp = spaces_from(v, 0);
    sp == v.len()
}

/// A line with no `#` anywhere.
fn line_non_comment(v: &Vec<char>) -> (r: bool)
{
    let n = v.len();
    let mut i: usize = 0;
    while i < n
        invariant
            n == v@.len(),
            i <= n,
        decreases n - i,
    {
        if v[i] == '#' {
            return false;
        }
        i += 1;
    }
    true
}

/// A function-name character.
fn fname_char(c: char) -> (r: bool)
{
    word_char(c) || c == ':' || c == '.' || c == '-'
}

/// Parse a function declaration: optional `function`, the name, optional
/// `()`, and whether a `{` follows on the same line.  Returns the name and
/// whether the body brace is present, or nothing.
fn parse_func_decl(v: &Vec<char>) -> (r: Option<(Vec<char>, bool)>)
{
    proof {
        reveal_strlit("function");
    }
    let n = v.len();
    let a = blanks_from(v, 0);
    let kw = str_to_chars("function");
    let mut p = a;
    if matches_at(v, a, &kw) {
        let sp = blanks_from(v, a + 8);
        if sp >= 1 {
            p = a + 8 + sp;
        }
    }
    let mut e = p;
    while e < n && fname_char(v[e])
        invariant
            p <= e <= n == v@.len(),
        decreases n - e,
    {
        e += 1;
    }
    if e == p {
        return None;
    }
    let name = subrange_chars(v, p, e);
    let mut q = e + blanks_from(v, e);
    if q < n && v[q] == '(' {
        let sp = blanks_from(v, q + 1);
        let close = q + 1 + sp;
        if close < n && v[close] == ')' {
            q = close + 1;
        } else {
            return None;
        }
    }
    let q2 = q + blanks_from(v, q);
    if q2 < n && v[q2] == '{' {
        return Some((name, true));
    }
    if q2 == n {
        return Some((name, false));
    }
    None
}


/// Split a character vector on one separator character.
fn split_char(v: &Vec<char>, from: usize, sep: char) -> (r: Vec<Vec<char>>)
    requires
        from <= v@.len(),
    decreases v@.len() - from,
{
    let n = v.len();
    let mut k: usize = from;
    while k < n && v[k] != sep
        invariant
            from <= k <= n == v@.len(),
        decreases n - k,
    {
        k += 1;
    }
    let piece = subrange_chars(v, from, k);
    let mut out: Vec<Vec<char>> = Vec::new();
    out.push(piece);
    if k < n {
        let mut rest = split_char(v, k + 1, sep);
        let mut rrev: Vec<Vec<char>> = Vec::new();
        loop
            invariant
                true,
            decreases rest@.len(),
        {
            match rest.pop() {
                Some(x) => {
                    rrev.push(x);
                },
                None => {
                    break;
                },
            }
        }
        loop
            invariant
                true,
            decreases rrev@.len(),
        {
            match rrev.pop() {
                Some(x) => {
                    out.push(x);
                },
                None => {
                    break;
                },
            }
        }
    }
    out
}

// -- Docblock state -------------------------------------------------------------------

struct Docblock {
    example: Option<String>,
    args: Vec<(String, String)>,
    noargs: bool,
    options: Vec<OptionEntry>,
    options_bad: Vec<String>,
    set_vars: Vec<String>,
    exit_codes: Vec<String>,
    stdin: Vec<String>,
    stdout: Vec<String>,
    stderr: Vec<String>,
    see_also: Vec<String>,
    tags: Vec<String>,
}

impl Docblock {
    fn empty() -> (r: Docblock)
    {
        Docblock {
            example: None,
            args: Vec::new(),
            noargs: false,
            options: Vec::new(),
            options_bad: Vec::new(),
            set_vars: Vec::new(),
            exit_codes: Vec::new(),
            stdin: Vec::new(),
            stdout: Vec::new(),
            stderr: Vec::new(),
            see_also: Vec::new(),
            tags: Vec::new(),
        }
    }

    fn is_empty(&self) -> (r: bool)
    {
        self.example.is_none() && self.args.len() == 0 && !self.noargs && self.options.len() == 0
            && self.options_bad.len() == 0 && self.set_vars.len() == 0 && self.exit_codes.len()
            == 0 && self.stdin.len() == 0 && self.stdout.len() == 0 && self.stderr.len() == 0
            && self.see_also.len() == 0
    }
}

struct ParserState {
    file_doc: FileDoc,
    functions: Vec<FunctionDoc>,
    docblock: Docblock,
    in_description: bool,
    in_example: bool,
    is_internal: bool,
    current_section: Option<String>,
    section_description: Option<String>,
    file_description_set: bool,
    multi_line_name: usize,
    multi_line_indent: Vec<char>,
    function_declaration: Option<String>,
    description: Vec<char>,
}

/// Three-digit zero-padded rendering of a small number.
fn pad3(n: usize) -> (r: Vec<char>)
{
    let digits = crate::obfuscate::usize_to_decimal(if n > 999 {
        999
    } else {
        n
    });
    let mut out: Vec<char> = Vec::new();
    if digits.len() < 3 {
        let mut fill = 3 - digits.len();
        while fill > 0
            invariant
                true,
            decreases fill,
        {
            out.push('0');
            fill -= 1;
        }
    }
    extend_chars(&mut out, &digits);
    out
}

/// Parse a decimal number, saturating at 999.
fn parse_small(v: &Vec<char>, from: usize, to: usize) -> (r: usize)
    requires
        from <= to <= v@.len(),
    decreases to - from,
{
    let mut acc: usize = 0;
    let mut i: usize = from;
    while i < to
        invariant
            from <= i <= to <= v@.len(),
            acc <= 999,
        decreases to - i,
    {
        let c = v[i];
        let u = c as u32;
        if '0' as u32 <= u && u <= '9' as u32 {
            let d = (u - '0' as u32) as usize;
            if acc < 100 {
                acc = acc * 10 + d;
            } else {
                acc = 999;
            }
        }
        i += 1;
    }
    acc
}

/// Handle accumulated description text: section first, then the file,
/// otherwise it stays for the next function.
fn handle_description(s: &mut ParserState)
{
    let t = trim_chars(&s.description);
    if t.len() == 0 {
        return;
    }
    let text = chars_to_string(&t);
    if s.current_section.is_some() && s.section_description.is_none() {
        s.section_description = Some(text);
        return;
    }
    if !s.file_description_set {
        s.file_doc.description = Some(text);
        s.file_description_set = true;
    }
}

/// Reset the docblock and the description accumulator.
fn reset_docblock(s: &mut ParserState)
{
    s.docblock = Docblock::empty();
    s.description = Vec::new();
}

/// Parse `@option` text: a leading `-x`/`--long` term list and then the
/// definition.  A text that does not start like an option is kept in the
/// malformed list.
fn process_at_option(s: &mut ParserState, text: &Vec<char>)
{
    let n = text.len();
    if n == 0 || text[0] != '-' {
        s.docblock.options_bad.push(chars_to_string(text));
        return;
    }
    // find where the definition starts: the first blank run followed by a
    // character that does not continue the term list
    let mut i: usize = 0;
    let mut term_end: usize = n;
    while i < n
        invariant
            n == text@.len(),
            i <= n,
            term_end <= n,
        decreases n - i,
    {
        if blank_char(text[i]) {
            let sp = blanks_from(text, i);
            let next = i + sp;
            if next < n && text[next] != '-' && text[next] != '|' && text[next] != '<'
                && text[next] != '=' {
                term_end = i;
                break;
            }
            i = next;
        } else {
            i += 1;
        }
    }
    let term_raw = subrange_chars(text, 0, term_end);
    let definition = if term_end < n {
        let sp = blanks_from(text, term_end);
        subrange_chars(text, term_end + sp, n)
    } else {
        Vec::new()
    };
    // normalise the pipes: split on |, trim, join with " | "
    let mut norm: Vec<char> = Vec::new();
    let mut first = true;
    let mut pieces = split_char(&term_raw, 0, '|');
    let mut prev: Vec<Vec<char>> = Vec::new();
    loop
        invariant
            true,
        decreases pieces@.len(),
    {
        match pieces.pop() {
            Some(x) => {
                prev.push(x);
            },
            None => {
                break;
            },
        }
    }
    loop
        invariant
            true,
        decreases prev@.len(),
    {
        match prev.pop() {
            Some(x) => {
                let trimmed = trim_chars(&x);
                if trimmed.len() > 0 {
                    if !first {
                        norm.push(' ');
                        norm.push('|');
                        norm.push(' ');
                    }
                    extend_chars(&mut norm, &trimmed);
                    first = false;
                }
            },
            None => {
                break;
            },
        }
    }
    let def_trimmed = trim_chars(&definition);
    s.docblock.options.push(
        OptionEntry { term: chars_to_string(&norm), definition: chars_to_string(&def_trimmed) },
    );
}

/// Close the pending docblock into a function record.
fn process_function(s: &mut ParserState, name: Vec<char>)
{
    if s.docblock.is_empty() && s.description.len() == 0 {
        return;
    }
    if s.in_example {
        return;
    }
    let internal = s.is_internal;
    s.is_internal = false;
    let section = match s.current_section.take() {
        Some(title) => Some(SectionInfo { title, description: s.section_description.take() }),
        None => None,
    };
    // sort the argument entries by their zero-padded keys
    let mut sorted: Vec<(String, String)> = Vec::new();
    let acount = s.docblock.args.len();
    let mut i: usize = 0;
    while i < acount
        invariant
            acount == s.docblock.args@.len(),
            i <= acount,
        decreases acount - i,
    {
        let key = s.docblock.args[i].0.clone();
        let raw = s.docblock.args[i].1.clone();
        let kv = str_to_chars(key.as_str());
        let mut at: usize = sorted.len();
        let mut j: usize = 0;
        let scount = sorted.len();
        while j < scount
            invariant
                scount == sorted@.len(),
                j <= scount,
                at <= scount,
            decreases scount - j,
        {
            let jv = str_to_chars(sorted[j].0.as_str());
            if at == scount && chars_lt(&kv, &jv) {
                at = j;
            }
            j += 1;
        }
        sorted.insert(at, (key, raw));
        i += 1;
    }
    let mut args: Vec<ArgEntry> = Vec::new();
    let mut srev: Vec<(String, String)> = Vec::new();
    loop
        invariant
            true,
        decreases sorted@.len(),
    {
        match sorted.pop() {
            Some(x) => {
                srev.push(x);
            },
            None => {
                break;
            },
        }
    }
    loop
        invariant
            true,
        decreases srev@.len(),
    {
        match srev.pop() {
            Some(x) => {
                args.push(ArgEntry { sort_key: x.0, raw: x.1 });
            },
            None => {
                break;
            },
        }
    }
    let desc = trim_chars(&s.description);
    let mut block = Docblock::empty();
    core::mem::swap(&mut block, &mut s.docblock);
    let func = FunctionDoc {
        name: chars_to_string(&name),
        description: if desc.len() == 0 {
            None
        } else {
            Some(chars_to_string(&desc))
        },
        section,
        example: block.example,
        is_internal: internal,
        args,
        noargs: block.noargs,
        options: block.options,
        options_bad: block.options_bad,
        set_vars: block.set_vars,
        exit_codes: block.exit_codes,
        stdin: block.stdin,
        stdout: block.stdout,
        stderr: block.stderr,
        see_also: block.see_also,
        tags: block.tags,
        implementations: Vec::new(),
    };
    s.functions.push(func);
    s.description = Vec::new();
}

/// Strict code-point order on character vectors.
fn chars_lt(a: &Vec<char>, b: &Vec<char>) -> (r: bool)
{
    let n = if a.len() < b.len() {
        a.len()
    } else {
        b.len()
    };
    let mut i: usize = 0;
    while i < n
        invariant
            i <= n,
            n <= a@.len(),
            n <= b@.len(),
        decreases n - i,
    {
        let x = a[i] as u32;
        let y = b[i] as u32;
        if x < y {
            return true;
        }
        if x > y {
            return false;
        }
        i += 1;
    }
    a.len() < b.len()
}


/// Append description text with a newline separator.
fn concat_desc(dest: &mut Vec<char>, text: &Vec<char>)
{
    if dest.len() == 0 {
        extend_chars(dest, text);
    } else {
        dest.push('\n');
        extend_chars(dest, text);
    }
}

/// Remove the comment prefix of a description continuation line.
fn strip_description_line(v: &Vec<char>) -> (r: Vec<char>)
{
    proof {
        reveal_strlit("# @description");
    }
    let a = spaces_from(v, 0);
    let t = subrange_chars(v, a, v.len());
    let full = str_to_chars("# @description");
    if matches_at(&t, 0, &full) {
        let b = spaces_from(&t, 14);
        return subrange_chars(&t, 14 + b, t.len());
    }
    if t.len() > 0 && t[0] == '#' {
        let b = spaces_from(&t, 1);
        return subrange_chars(&t, 1 + b, t.len());
    }
    t
}

/// Remove the `# ` prefix of a multi-line item continuation.
fn strip_comment_content(v: &Vec<char>) -> (r: Vec<char>)
{
    let a = spaces_from(v, 0);
    let t = subrange_chars(v, a, v.len());
    if t.len() >= 2 && t[0] == '#' && t[1] == ' ' {
        let rest = subrange_chars(&t, 2, t.len());
        return rtrim_chars(&rest);
    }
    if t.len() >= 1 && t[0] == '#' {
        let rest = subrange_chars(&t, 1, t.len());
        return trim_chars(&rest);
    }
    rtrim_chars(&t)
}

/// Exit condition of description mode.
fn should_exit_description(v: &Vec<char>) -> (r: bool)
{
    if line_blank(v) {
        return true;
    }
    let n = v.len();
    let a = spaces_from(v, 0);
    if a >= n || v[a] != '#' {
        return true;
    }
    if n - a > 3 && v[a + 1] == ' ' && v[a + 2] == '@' && v[a + 3] != 'd' {
        return true;
    }
    false
}

/// Process one source line against the parser state.
#[verifier::rlimit(60)]
#[verifier::spinoff_prover]
fn process_line(s: &mut ParserState, line: &Vec<char>)
{
    proof {
        reveal_strlit("internal");
        reveal_strlit("file");
        reveal_strlit("name");
        reveal_strlit("brief");
        reveal_strlit("tags");
        reveal_strlit("description");
        reveal_strlit("section");
        reveal_strlit("example");
        reveal_strlit("option");
        reveal_strlit("arg");
        reveal_strlit("noargs");
        reveal_strlit("set");
        reveal_strlit("exitcode");
        reveal_strlit("see");
        reveal_strlit("stdin");
        reveal_strlit("stdout");
        reveal_strlit("stderr");
    }
    let internal_tag = str_to_chars("internal");
    if tag_head(line, &internal_tag).is_some() {
        s.is_internal = true;
        return;
    }
    let file_tag = str_to_chars("file");
    let name_tag = str_to_chars("name");
    let cap_file = match tag_capture(line, &file_tag) {
        Some(c) => Some(c),
        None => tag_capture(line, &name_tag),
    };
    if let Some(c) = cap_file {
        s.file_doc.title = Some(chars_to_string(&c));
        return;
    }
    let brief_tag = str_to_chars("brief");
    if let Some(c) = tag_capture(line, &brief_tag) {
        s.file_doc.brief = Some(chars_to_string(&c));
        return;
    }
    let tags_tag = str_to_chars("tags");
    if let Some(c) = tag_capture(line, &tags_tag) {
        if s.functions.len() == 0 && s.docblock.is_empty() && s.description.len() == 0 {
            s.file_doc.tags = Some(chars_to_string(&c));
        } else {
            let mut parsed: Vec<String> = Vec::new();
            let mut pieces = split_char(&c, 0, ',');
            let mut prev: Vec<Vec<char>> = Vec::new();
            loop
                invariant
                    true,
                decreases pieces@.len(),
            {
                match pieces.pop() {
                    Some(x) => {
                        prev.push(x);
                    },
                    None => {
                        break;
                    },
                }
            }
            loop
                invariant
                    true,
                decreases prev@.len(),
            {
                match prev.pop() {
                    Some(x) => {
                        let t = trim_chars(&x);
                        if t.len() > 0 {
                            parsed.push(chars_to_string(&t));
                        }
                    },
                    None => {
                        break;
                    },
                }
            }
            s.docblock.tags = parsed;
        }
        return;
    }
    let desc_tag = str_to_chars("description");
    if let Some(p) = tag_head(line, &desc_tag) {
        s.in_description = true;
        s.in_example = false;
        handle_description(s);
        reset_docblock(s);
        let line_n = line.len();
        let sp = spaces_from(line, p);
        let rest = subrange_chars(line, p + sp, line_n);
        if rest.len() > 0 {
            s.description = rest;
        }
        return;
    }
    if s.in_description {
        if should_exit_description(line) {
            s.in_description = false;
            handle_description(s);
        } else {
            let text = strip_description_line(line);
            concat_desc(&mut s.description, &text);
            return;
        }
    }
    let section_tag = str_to_chars("section");
    if let Some(c) = tag_capture(line, &section_tag) {
        s.current_section = Some(chars_to_string(&c));
        return;
    }
    let example_tag = str_to_chars("example");
    if tag_head(line, &example_tag).is_some() {
        s.in_example = true;
        return;
    }
    if s.in_example {
        let a = spaces_from(line, 0);
        let line_n = line.len();
        let cont = a < line_n && line_n - a > 1 && line[a] == '#' && line[a + 1] == ' ';
        if !cont {
            s.in_example = false;
        } else {
            let text = subrange_chars(line, a + 1, line.len());
            match &mut s.docblock.example {
                Some(ex) => {
                    let mut cur = str_to_chars(ex.as_str());
                    cur.push('\n');
                    extend_chars(&mut cur, &text);
                    *ex = chars_to_string(&cur);
                },
                None => {
                    s.docblock.example = Some(chars_to_string(&text));
                },
            }
            return;
        }
    }
    let option_tag = str_to_chars("option");
    if let Some(c) = tag_capture(line, &option_tag) {
        let t = trim_chars(&c);
        if t.len() > 0 {
            process_at_option(s, &t);
            return;
        }
    }
    let arg_tag = str_to_chars("arg");
    if let Some(c) = tag_capture(line, &arg_tag) {
        let t = trim_chars(&c);
        if t.len() > 0 {
            // `$N …` or `$@ …` entries are arguments; anything else is an option
            let mut handled = false;
            if t.len() >= 3 && t[0] == '$' {
                if t[1] == '@' && space_char(t[2]) {
                    s.docblock.args.push(
                        (String::from_str("@"), chars_to_string(&t)),
                    );
                    handled = true;
                } else {
                    let mut e: usize = 1;
                    let tn = t.len();
                    while e < tn && '0' as u32 <= t[e] as u32 && t[e] as u32 <= '9' as u32
                        invariant
                            1 <= e <= tn == t@.len(),
                        decreases tn - e,
                    {
                        e += 1;
                    }
                    if e > 1 && e < tn && space_char(t[e]) {
                        let num = parse_small(&t, 1, e);
                        let key = pad3(num);
                        s.docblock.args.push((chars_to_string(&key), chars_to_string(&t)));
                        handled = true;
                    }
                }
            }
            if !handled {
                process_at_option(s, &t);
            }
            return;
        }
    }
    let noargs_tag = str_to_chars("noargs");
    if let Some(p) = tag_head(line, &noargs_tag) {
        let line_n = line.len();
        let sp = blanks_from(line, p);
        if p + sp == line_n {
            s.docblock.noargs = true;
            return;
        }
    }
    let set_tag = str_to_chars("set");
    if let Some(c) = tag_capture(line, &set_tag) {
        s.docblock.set_vars.push(chars_to_string(&c));
        return;
    }
    let exitcode_tag = str_to_chars("exitcode");
    if let Some(c) = tag_capture(line, &exitcode_tag) {
        s.docblock.exit_codes.push(chars_to_string(&c));
        return;
    }
    let see_tag = str_to_chars("see");
    if let Some(c) = tag_capture(line, &see_tag) {
        s.docblock.see_also.push(chars_to_string(&c));
        return;
    }
    if s.multi_line_name > 0 {
        let line_n = line.len();
        let ind_len = s.multi_line_indent.len();
        let ind = &s.multi_line_indent;
        let cont = matches_at(line, 0, ind) && ind_len <= line_n && {
            let b = blanks_from(line, ind_len);
            b >= 1 && ind_len + b < line_n
        };
        if cont {
            let text = strip_comment_content(line);
            let text_s = chars_to_string(&text);
            let which = s.multi_line_name;
            let list: &mut Vec<String> = if which == 1 {
                &mut s.docblock.stdin
            } else if which == 2 {
                &mut s.docblock.stdout
            } else {
                &mut s.docblock.stderr
            };
            let llen = list.len();
            if llen > 0 {
                let mut cur = str_to_chars(list[llen - 1].as_str());
                cur.push('\n');
                extend_str(&mut cur, text_s.as_str());
                list[llen - 1] = chars_to_string(&cur);
            }
            return;
        }
        s.multi_line_name = 0;
        s.multi_line_indent = Vec::new();
    }
    // @stdin / @stdout / @stderr with captured indentation
    {
        let a = blanks_from(line, 0);
        if a < line.len() && line[a] == '#' {
            let sp = blanks_from(line, a + 1);
            let p = a + 1 + sp;
            if sp >= 1 && p < line.len() && line[p] == '@' {
                let stdin_tag = str_to_chars("stdin");
                let stdout_tag = str_to_chars("stdout");
                let stderr_tag = str_to_chars("stderr");
                let which: usize = if matches_at(line, p + 1, &stdin_tag) {
                    1
                } else if matches_at(line, p + 1, &stdout_tag) {
                    2
                } else if matches_at(line, p + 1, &stderr_tag) {
                    3
                } else {
                    0
                };
                if which > 0 {
                    let taglen: usize = if which == 1 {
                        5
                    } else {
                        6
                    };
                    let q = p + 1 + taglen;
                    let sp2 = blanks_from(line, q);
                    if sp2 >= 1 && q + sp2 < line.len() {
                        let text = subrange_chars(line, q + sp2, line.len());
                        let t = rtrim_chars(&text);
                        if t.len() > 0 {
                            let entry = chars_to_string(&t);
                            if which == 1 {
                                s.docblock.stdin.push(entry);
                            } else if which == 2 {
                                s.docblock.stdout.push(entry);
                            } else {
                                s.docblock.stderr.push(entry);
                            }
                            s.multi_line_name = which;
                            s.multi_line_indent = subrange_chars(line, 0, p);
                            return;
                        }
                    }
                }
            }
        }
    }
    // function declarations
    if let Some((name, has_brace)) = parse_func_decl(line) {
        if has_brace {
            process_function(s, name);
            return;
        }
        s.function_declaration = Some(chars_to_string(&name));
        return;
    }
    {
        let a = blanks_from(line, 0);
        if a < line.len() && line[a] == '{' {
            if let Some(decl) = s.function_declaration.take() {
                let name = str_to_chars(decl.as_str());
                process_function(s, name);
                return;
            }
        }
    }
    if line_blank(line) && s.function_declaration.is_some() {
        return;
    }
    if line_non_comment(line) {
        s.function_declaration = None;
        handle_description(s);
        reset_docblock(s);
    }
}

/// Parse a bash source with documentation annotations into a document.
pub fn parse(input: &str) -> (r: Document)
{
    let raw = str_to_chars(input);
    let lines = split_lines(&raw);
    let mut state = ParserState {
        file_doc: FileDoc::empty(),
        functions: Vec::new(),
        docblock: Docblock::empty(),
        in_description: false,
        in_example: false,
        is_internal: false,
        current_section: None,
        section_description: None,
        file_description_set: false,
        multi_line_name: 0,
        multi_line_indent: Vec::new(),
        function_declaration: None,
        description: Vec::new(),
    };
    let n = lines.len();
    let mut i: usize = 0;
    while i < n
        invariant
            n == lines@.len(),
            i <= n,
        decreases n - i,
    {
        process_line(&mut state, &lines[i]);
        i += 1;
    }
    Document { file: state.file_doc, functions: state.functions }
}

} // verus!
