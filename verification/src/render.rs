//! Renderers for parsed documents, plus file-name and filter helpers.

use vstd::prelude::*;

verus! {

use crate::model::{Document, FunctionDoc, ImplLang};
use crate::text::{
    str_to_chars, chars_to_string, subrange_chars, extend_chars, extend_str, matches_at,
    space_char,
};
use crate::toc::{render_toc_item, render_toc_link};
use vstd::string::StringExecFns;

/// A renderer turns a document into one output text and names its file
/// extension.
pub trait Renderer {
    /// Render the document.
    fn render(&self, doc: &Document) -> String;

    /// The output file extension.
    fn file_extension(&self) -> String;
}

/// The markdown renderer.
pub struct MarkdownRenderer;

/// The JSON renderer.
pub struct JsonRenderer;

/// The HTML renderer.
pub struct HtmlRenderer;

/// One of the three renderers, picked by name.
pub enum RendererKind {
    /// Markdown output.
    Markdown(MarkdownRenderer),
    /// JSON output.
    Json(JsonRenderer),
    /// HTML output.
    Html(HtmlRenderer),
}

/// Create a renderer for the given format name; unknown names fail with
/// the name echoed back.
pub fn create_renderer(format: &str) -> (r: Result<RendererKind, String>)
    ensures
        (format@ == "markdown"@ || format@ == "md"@) <==> r matches Ok(
            RendererKind::Markdown(_),
        ),
        format@ == "html"@ <==> r matches Ok(RendererKind::Html(_)),
        format@ == "json"@ <==> r matches Ok(RendererKind::Json(_)),
        r is Err <==> (format@ != "markdown"@ && format@ != "md"@ && format@ != "html"@
            && format@ != "json"@),
        r matches Err(m) ==> m@ == "unknown format: "@ + format@,
{
    proof {
        reveal_strlit("markdown");
        reveal_strlit("md");
        reveal_strlit("html");
        reveal_strlit("json");
    }
    if str_eq_r(format, "markdown") || str_eq_r(format, "md") {
        proof {
            assert("markdown"@.len() == 8);
            assert("md"@.len() == 2);
            assert("html"@.len() == 4);
            assert("json"@.len() == 4);
            assert(format@ != "html"@);
            assert(format@ != "json"@);
        }
        return Ok(RendererKind::Markdown(MarkdownRenderer));
    }
    if str_eq_r(format, "html") {
        proof {
            assert("html"@[0] == 'h' && "json"@[0] == 'j');
            assert(format@ != "json"@);
        }
        return Ok(RendererKind::Html(HtmlRenderer));
    }
    if str_eq_r(format, "json") {
        proof {
            assert("html"@[0] == 'h' && "json"@[0] == 'j');
            assert(format@ != "html"@);
        }
        return Ok(RendererKind::Json(JsonRenderer));
    }
    let mut msg = str_to_chars("unknown format: ");
    extend_str(&mut msg, format);
    proof {
        assert(msg@ =~= "unknown format: "@ + format@);
    }
    Err(chars_to_string(&msg))
}

impl Renderer for RendererKind {
    fn render(&self, doc: &Document) -> String {
        match self {
            RendererKind::Markdown(r) => r.render(doc),
            RendererKind::Json(r) => r.render(doc),
            RendererKind::Html(r) => r.render(doc),
        }
    }

    fn file_extension(&self) -> String {
        match self {
            RendererKind::Markdown(r) => r.file_extension(),
            RendererKind::Json(r) => r.file_extension(),
            RendererKind::Html(r) => r.file_extension(),
        }
    }
}

/// String equality through character views.
fn str_eq_r(a: &str, b: &str) -> (r: bool)
    ensures
        r == (a@ == b@),
{
    let av = str_to_chars(a);
    let bv = str_to_chars(b);
    if av.len() != bv.len() {
        proof {
            assert(a@ != b@);
        }
        return false;
    }
    let r = matches_at(&av, 0, &bv);
    proof {
        assert(av@.subrange(0, bv@.len() as int) =~= av@);
        if r {
            assert(a@ == b@);
        } else {
            assert(a@ != b@);
        }
    }
    r
}

// -- Markdown style transforms ---------------------------------------------------------

/// Render an argument entry: `$1 type text` becomes `**$1** (type): text`,
/// `$@ type text` becomes `**...** (type): text`.
pub fn render_arg(text: &str) -> (r: String)
{
    let v = str_to_chars(text);
    let n = v.len();
    if n >= 2 && v[0] == '$' {
        if v[1] == '@' {
            // `$@` then whitespace, a type word, whitespace, the rest
            let sp = spaces_at(&v, 2);
            if sp >= 1 {
                let t0 = 2 + sp;
                let tw = nonspaces_at(&v, t0);
                if tw >= 1 {
                    let sp2 = spaces_at(&v, t0 + tw);
                    if sp2 >= 1 {
                        let kind_name = subrange_chars(&v, t0, t0 + tw);
                        let rest = subrange_chars(&v, t0 + tw + sp2, n);
                        let mut out = str_to_chars("**...** (");
                        extend_chars(&mut out, &kind_name);
                        extend_str(&mut out, "): ");
                        extend_chars(&mut out, &rest);
                        return chars_to_string(&out);
                    }
                }
            }
        } else {
            let mut d: usize = 1;
            while d < n && '0' as u32 <= v[d] as u32 && v[d] as u32 <= '9' as u32
                invariant
                    1 <= d <= n == v@.len(),
                decreases n - d,
            {
                d += 1;
            }
            if d > 1 {
                let sp = spaces_at(&v, d);
                if sp >= 1 {
                    let t0 = d + sp;
                    let tw = nonspaces_at(&v, t0);
                    if tw >= 1 {
                        let sp2 = spaces_at(&v, t0 + tw);
                        if sp2 >= 1 {
                            let arg_name = subrange_chars(&v, 0, d);
                            let kind_name = subrange_chars(&v, t0, t0 + tw);
                            let rest = subrange_chars(&v, t0 + tw + sp2, n);
                            let mut out = str_to_chars("**");
                            extend_chars(&mut out, &arg_name);
                            extend_str(&mut out, "** (");
                            extend_chars(&mut out, &kind_name);
                            extend_str(&mut out, "): ");
                            extend_chars(&mut out, &rest);
                            return chars_to_string(&out);
                        }
                    }
                }
            }
        }
    }
    String::from_str(text)
}

/// Render a set-variable entry: `var type rest` becomes
/// `**var** (type): rest`.
pub fn render_set(text: &str) -> (r: String)
{
    let v = str_to_chars(text);
    let n = v.len();
    let w1 = nonspaces_at(&v, 0);
    if w1 >= 1 && w1 < n && v[w1] == ' ' {
        let t0 = w1 + 1;
        let w2 = nonspaces_at(&v, t0);
        if w2 >= 1 {
            let var = subrange_chars(&v, 0, w1);
            let kind_name = subrange_chars(&v, t0, t0 + w2);
            let rest_raw = subrange_chars(&v, t0 + w2, n);
            let sp = spaces_at(&rest_raw, 0);
            let rest = subrange_chars(&rest_raw, sp, rest_raw.len());
            let mut out = str_to_chars("**");
            extend_chars(&mut out, &var);
            extend_str(&mut out, "** (");
            extend_chars(&mut out, &kind_name);
            extend_str(&mut out, "): ");
            extend_chars(&mut out, &rest);
            return chars_to_string(&out);
        }
    }
    String::from_str(text)
}

/// Render an exit-code entry: `0 text` becomes `**0**: text`; a `>` or `!`
/// modifier in front of the code is kept.
pub fn render_exitcode(text: &str) -> (r: String)
{
    let v = str_to_chars(text);
    let n = v.len();
    let start: usize = if n > 0 && (v[0] == '>' || v[0] == '!') {
        1
    } else {
        0
    };
    let mut d = start;
    while d < n && '0' as u32 <= v[d] as u32 && v[d] as u32 <= '9' as u32 && d - start < 3
        invariant
            start <= d <= n == v@.len(),
        decreases n - d,
    {
        d += 1;
    }
    if d > start && d < n && v[d] == ' ' {
        let code = subrange_chars(&v, 0, d);
        let rest = subrange_chars(&v, d + 1, n);
        let mut out = str_to_chars("**");
        extend_chars(&mut out, &code);
        extend_str(&mut out, "**: ");
        extend_chars(&mut out, &rest);
        return chars_to_string(&out);
    }
    String::from_str(text)
}

/// Remove the common leading space indentation of a multi-line text,
/// dropping leading empty lines.
pub fn unindent(text: &str) -> (r: String)
{
    let raw = str_to_chars(text);
    let lines = split_text_lines(&raw);
    let n = lines.len();
    // first non-empty line
    let mut start: usize = 0;
    while start < n && lines[start].len() == 0
        invariant
            start <= n == lines@.len(),
        decreases n - start,
    {
        start += 1;
    }
    if start >= n {
        return String::from_str(text);
    }
    // smallest indentation over the non-empty lines
    let mut min_indent: usize = usize::MAX;
    let mut i = start;
    while i < n
        invariant
            start <= i <= n == lines@.len(),
        decreases n - i,
    {
        if lines[i].len() > 0 {
            let ind = leading_space_count(&lines[i]);
            if ind < min_indent {
                min_indent = ind;
            }
        }
        i += 1;
    }
    if min_indent == usize::MAX {
        min_indent = 0;
    }
    let mut out: Vec<char> = Vec::new();
    let mut j = start;
    while j < n
        invariant
            start <= j <= n == lines@.len(),
        decreases n - j,
    {
        if j > start {
            out.push('\n');
        }
        let l = &lines[j];
        if l.len() >= min_indent {
            let cut = subrange_chars(l, min_indent, l.len());
            extend_chars(&mut out, &cut);
        } else {
            extend_chars(&mut out, l);
        }
        j += 1;
    }
    chars_to_string(&out)
}

/// Count the leading spaces of a line.
fn leading_space_count(v: &Vec<char>) -> (r: usize)
    ensures
        r <= v@.len(),
{
    let n = v.len();
    let mut a: usize = 0;
    while a < n && v[a] == ' '
        invariant
            a <= n == v@.len(),
        decreases n - a,
    {
        a += 1;
    }
    a
}

/// Run of whitespace characters from `i`.
fn spaces_at(v: &Vec<char>, i: usize) -> (r: usize)
    requires
        i <= v@.len(),
    ensures
        i + r <= v@.len(),
    decreases v@.len() - i,
{
    if i >= v.len() || !space_char(v[i]) {
        return 0;
    }
    1 + spaces_at(v, i + 1)
}

/// Run of non-whitespace characters from `i`.
fn nonspaces_at(v: &Vec<char>, i: usize) -> (r: usize)
    requires
        i <= v@.len(),
    ensures
        i + r <= v@.len(),
    decreases v@.len() - i,
{
    if i >= v.len() || space_char(v[i]) {
        return 0;
    }
    1 + nonspaces_at(v, i + 1)
}

/// Split raw text on newlines (keeping empty lines).
fn split_text_lines(v: &Vec<char>) -> (r: Vec<Vec<char>>)
{
    let n = v.len();
    let mut out: Vec<Vec<char>> = Vec::new();
    let mut start: usize = 0;
    let mut i: usize = 0;
    while i < n
        invariant
            start <= i <= n == v@.len(),
        decreases n - i,
    {
        if v[i] == '\n' {
            out.push(subrange_chars(v, start, i));
            start = i + 1;
        }
        i += 1;
    }
    out.push(subrange_chars(v, start, n));
    out
}


// -- Markdown rendering -----------------------------------------------------------------

/// Badges for a function: mixed-language markers, internal, tags.
fn render_badges(func: &FunctionDoc) -> (r: Vec<char>)
{
    let mut badges: Vec<char> = Vec::new();
    let mut any = false;
    if func.implementations.len() > 0 {
        let mut has_bash = false;
        let mut has_rust = false;
        let icount = func.implementations.len();
        let mut i: usize = 0;
        while i < icount
            invariant
                icount == func.implementations@.len(),
                i <= icount,
            decreases icount - i,
        {
            if func.implementations[i].lang == ImplLang::Bash {
                has_bash = true;
            } else {
                has_rust = true;
            }
            i += 1;
        }
        if has_bash && has_rust {
            extend_str(&mut badges, "`bash` `rust`");
            any = true;
        } else if has_rust {
            extend_str(&mut badges, "`rust`");
            any = true;
        }
    }
    if func.is_internal {
        if any {
            badges.push(' ');
        }
        extend_str(&mut badges, "*`internal`*");
        any = true;
    }
    let tcount = func.tags.len();
    let mut t: usize = 0;
    while t < tcount
        invariant
            tcount == func.tags@.len(),
            t <= tcount,
        decreases tcount - t,
    {
        if any {
            badges.push(' ');
        }
        badges.push('`');
        extend_str(&mut badges, func.tags[t].as_str());
        badges.push('`');
        any = true;
        t += 1;
    }
    if !any {
        return badges;
    }
    let mut out = str_to_chars("> ");
    extend_chars(&mut out, &badges);
    out
}

/// A list section with a title and indented continuation lines.
fn push_list_section(out: &mut Vec<char>, items: &Vec<String>, title: &str)
{
    extend_str(out, "#### ");
    extend_str(out, title);
    extend_str(out, "\n\n");
    let n = items.len();
    let mut i: usize = 0;
    while i < n
        invariant
            n == items@.len(),
            i <= n,
        decreases n - i,
    {
        extend_str(out, "* ");
        let v = str_to_chars(items[i].as_str());
        let vn = v.len();
        let mut k: usize = 0;
        while k < vn
            invariant
                k <= vn == v@.len(),
            decreases vn - k,
        {
            let c = v[k];
            out.push(c);
            if c == '\n' {
                extend_str(out, "  ");
            }
            k += 1;
        }
        out.push('\n');
        i += 1;
    }
    out.push('\n');
}

/// Render one function's documentation block as markdown.
fn render_function(func: &FunctionDoc) -> (r: Vec<char>)
{
    let mut out: Vec<char> = Vec::new();
    if let Some(section) = &func.section {
        extend_str(&mut out, "## ");
        extend_str(&mut out, section.title.as_str());
        extend_str(&mut out, "\n\n");
        if let Some(d) = &section.description {
            extend_str(&mut out, d.as_str());
            extend_str(&mut out, "\n\n");
        }
    }
    extend_str(&mut out, "### ");
    extend_str(&mut out, func.name.as_str());
    extend_str(&mut out, "\n\n");
    let badges = render_badges(func);
    if badges.len() > 0 {
        extend_chars(&mut out, &badges);
        extend_str(&mut out, "\n\n");
    }
    if let Some(d) = &func.description {
        extend_str(&mut out, d.as_str());
        extend_str(&mut out, "\n\n");
    }
    if let Some(example) = &func.example {
        extend_str(&mut out, "#### Example\n\n```bash\n");
        let un = unindent(example.as_str());
        extend_str(&mut out, un.as_str());
        extend_str(&mut out, "\n```\n\n");
    }
    if func.options.len() > 0 || func.options_bad.len() > 0 {
        extend_str(&mut out, "#### Options\n\n");
        let ocount = func.options.len();
        let mut i: usize = 0;
        while i < ocount
            invariant
                ocount == func.options@.len(),
                i <= ocount,
            decreases ocount - i,
        {
            extend_str(&mut out, "* **");
            let term = str_to_chars(func.options[i].term.as_str());
            let tn = term.len();
            let mut k: usize = 0;
            while k < tn
                invariant
                    k <= tn == term@.len(),
                decreases tn - k,
            {
                let c = term[k];
                if c == '<' {
                    extend_str(&mut out, "\\<");
                } else if c == '>' {
                    extend_str(&mut out, "\\>");
                } else {
                    out.push(c);
                }
                k += 1;
            }
            extend_str(&mut out, "**\n\n");
            if func.options[i].definition.as_str().unicode_len() > 0 {
                extend_str(&mut out, "  ");
                extend_str(&mut out, func.options[i].definition.as_str());
                extend_str(&mut out, "\n\n");
            }
            i += 1;
        }
        let bcount = func.options_bad.len();
        let mut b: usize = 0;
        while b < bcount
            invariant
                bcount == func.options_bad@.len(),
                b <= bcount,
            decreases bcount - b,
        {
            extend_str(&mut out, "* ");
            extend_str(&mut out, func.options_bad[b].as_str());
            out.push('\n');
            b += 1;
        }
        out.push('\n');
    }
    if func.args.len() > 0 {
        extend_str(&mut out, "#### Arguments\n\n");
        let acount = func.args.len();
        let mut a: usize = 0;
        while a < acount
            invariant
                acount == func.args@.len(),
                a <= acount,
            decreases acount - a,
        {
            extend_str(&mut out, "* ");
            let rendered = render_arg(func.args[a].raw.as_str());
            extend_str(&mut out, rendered.as_str());
            out.push('\n');
            a += 1;
        }
        out.push('\n');
    }
    if func.noargs {
        extend_str(&mut out, "_Function has no arguments._\n\n");
    }
    if func.set_vars.len() > 0 {
        extend_str(&mut out, "#### Variables set\n\n");
        let vcount = func.set_vars.len();
        let mut sv: usize = 0;
        while sv < vcount
            invariant
                vcount == func.set_vars@.len(),
                sv <= vcount,
            decreases vcount - sv,
        {
            extend_str(&mut out, "* ");
            let rendered = render_set(func.set_vars[sv].as_str());
            extend_str(&mut out, rendered.as_str());
            out.push('\n');
            sv += 1;
        }
        out.push('\n');
    }
    if func.exit_codes.len() > 0 {
        extend_str(&mut out, "#### Exit codes\n\n");
        let ecount = func.exit_codes.len();
        let mut e: usize = 0;
        while e < ecount
            invariant
                ecount == func.exit_codes@.len(),
                e <= ecount,
            decreases ecount - e,
        {
            extend_str(&mut out, "* ");
            let rendered = render_exitcode(func.exit_codes[e].as_str());
            extend_str(&mut out, rendered.as_str());
            out.push('\n');
            e += 1;
        }
        out.push('\n');
    }
    if func.stdin.len() > 0 {
        push_list_section(&mut out, &func.stdin, "Input on stdin");
    }
    if func.stdout.len() > 0 {
        push_list_section(&mut out, &func.stdout, "Output on stdout");
    }
    if func.stderr.len() > 0 {
        push_list_section(&mut out, &func.stderr, "Output on stderr");
    }
    if func.see_also.len() > 0 {
        extend_str(&mut out, "#### See also\n\n");
        let scount = func.see_also.len();
        let mut sa: usize = 0;
        while sa < scount
            invariant
                scount == func.see_also@.len(),
                sa <= scount,
            decreases scount - sa,
        {
            extend_str(&mut out, "* ");
            let link = render_toc_link(func.see_also[sa].as_str());
            extend_str(&mut out, link.as_str());
            out.push('\n');
            sa += 1;
        }
        out.push('\n');
    }
    out
}

impl Renderer for MarkdownRenderer {
    fn render(&self, doc: &Document) -> String {
        let mut out: Vec<char> = Vec::new();
        if doc.file.title.is_some() {
            if let Some(desc) = &doc.file.description {
                extend_str(&mut out, desc.as_str());
                extend_str(&mut out, "\n\n");
            }
        }
        let n = doc.functions.len();
        let mut any = false;
        let mut i: usize = 0;
        while i < n
            invariant
                n == doc.functions@.len(),
                i <= n,
            decreases n - i,
        {
            if doc.functions[i].name.as_str().unicode_len() > 0 {
                any = true;
            }
            i += 1;
        }
        if any {
            extend_str(&mut out, "## Index\n\n");
            let mut j: usize = 0;
            while j < n
                invariant
                    n == doc.functions@.len(),
                    j <= n,
                decreases n - j,
            {
                if doc.functions[j].name.as_str().unicode_len() > 0 {
                    let item = render_toc_item(doc.functions[j].name.as_str());
                    extend_str(&mut out, item.as_str());
                    out.push('\n');
                }
                j += 1;
            }
            out.push('\n');
        }
        let mut k: usize = 0;
        while k < n
            invariant
                n == doc.functions@.len(),
                k <= n,
            decreases n - k,
        {
            if doc.functions[k].name.as_str().unicode_len() > 0 {
                let body = render_function(&doc.functions[k]);
                extend_chars(&mut out, &body);
                out.push('\n');
            }
            k += 1;
        }
        chars_to_string(&out)
    }

    fn file_extension(&self) -> String {
        String::from_str("mdx")
    }
}

// -- JSON rendering -------------------------------------------------------------------

/// Append a JSON-escaped string body.
fn push_json_escaped(out: &mut Vec<char>, text: &str)
{
    let v = str_to_chars(text);
    let n = v.len();
    let mut i: usize = 0;
    while i < n
        invariant
            i <= n == v@.len(),
        decreases n - i,
    {
        let c = v[i];
        if c == '\\' {
            extend_str(out, "\\\\");
        } else if c == '"' {
            extend_str(out, "\\\"");
        } else if c == '\n' {
            extend_str(out, "\\n");
        } else if c == '\r' {
            extend_str(out, "\\r");
        } else if c == '\t' {
            extend_str(out, "\\t");
        } else {
            out.push(c);
        }
        i += 1;
    }
}

/// Append `"name": "value"` or `"name": null`.
fn push_json_field(out: &mut Vec<char>, name: &str, value: &Option<String>, comma: bool)
{
    extend_str(out, "    \"");
    extend_str(out, name);
    extend_str(out, "\": ");
    match value {
        Some(vv) => {
            out.push('"');
            push_json_escaped(out, vv.as_str());
            out.push('"');
        },
        None => {
            extend_str(out, "null");
        },
    }
    if comma {
        out.push(',');
    }
    out.push('\n');
}

impl Renderer for JsonRenderer {
    fn render(&self, doc: &Document) -> String {
        let mut out: Vec<char> = Vec::new();
        extend_str(&mut out, "{\n  \"file\": {\n");
        push_json_field(&mut out, "title", &doc.file.title, true);
        push_json_field(&mut out, "brief", &doc.file.brief, true);
        push_json_field(&mut out, "description", &doc.file.description, true);
        push_json_field(&mut out, "tags", &doc.file.tags, false);
        extend_str(&mut out, "  },\n  \"functions\": [\n");
        let n = doc.functions.len();
        let mut i: usize = 0;
        while i < n
            invariant
                n == doc.functions@.len(),
                i <= n,
            decreases n - i,
        {
            let func = &doc.functions[i];
            extend_str(&mut out, "    { \"name\": \"");
            push_json_escaped(&mut out, func.name.as_str());
            out.push('"');
            if let Some(d) = &func.description {
                extend_str(&mut out, ", \"description\": \"");
                push_json_escaped(&mut out, d.as_str());
                out.push('"');
            }
            if func.noargs {
                extend_str(&mut out, ", \"noargs\": true");
            }
            extend_str(&mut out, " }");
            if i + 1 < n {
                out.push(',');
            }
            out.push('\n');
            i += 1;
        }
        extend_str(&mut out, "  ]\n}\n");
        chars_to_string(&out)
    }

    fn file_extension(&self) -> String {
        String::from_str("json")
    }
}

// -- HTML rendering ---------------------------------------------------------------------

/// Append an HTML-escaped text.
fn push_html_escaped(out: &mut Vec<char>, text: &str)
{
    let v = str_to_chars(text);
    let n = v.len();
    let mut i: usize = 0;
    while i < n
        invariant
            i <= n == v@.len(),
        decreases n - i,
    {
        let c = v[i];
        if c == '&' {
            extend_str(out, "&amp;");
        } else if c == '<' {
            extend_str(out, "&lt;");
        } else if c == '>' {
            extend_str(out, "&gt;");
        } else if c == '"' {
            extend_str(out, "&quot;");
        } else {
            out.push(c);
        }
        i += 1;
    }
}

impl Renderer for HtmlRenderer {
    fn render(&self, doc: &Document) -> String {
        let mut out: Vec<char> = Vec::new();
        extend_str(&mut out, "<!DOCTYPE html>\n<html>\n<head>\n<meta charset=\"utf-8\">\n");
        if let Some(title) = &doc.file.title {
            extend_str(&mut out, "<title>");
            push_html_escaped(&mut out, title.as_str());
            extend_str(&mut out, "</title>\n");
        }
        extend_str(&mut out, "</head>\n<body>\n");
        if let Some(desc) = &doc.file.description {
            extend_str(&mut out, "<p>");
            push_html_escaped(&mut out, desc.as_str());
            extend_str(&mut out, "</p>\n");
        }
        let n = doc.functions.len();
        let mut i: usize = 0;
        while i < n
            invariant
                n == doc.functions@.len(),
                i <= n,
            decreases n - i,
        {
            let func = &doc.functions[i];
            extend_str(&mut out, "<h3>");
            push_html_escaped(&mut out, func.name.as_str());
            extend_str(&mut out, "</h3>\n");
            if let Some(d) = &func.description {
                extend_str(&mut out, "<p>");
                push_html_escaped(&mut out, d.as_str());
                extend_str(&mut out, "</p>\n");
            }
            i += 1;
        }
        extend_str(&mut out, "</body>\n</html>\n");
        chars_to_string(&out)
    }

    fn file_extension(&self) -> String {
        String::from_str("html")
    }
}

// -- File naming, dispatch and filtering ---------------------------------------------------

/// Derive the output file name (without extension) from a source path.
pub fn derive_output_name(source: &str) -> (r: String)
{
    crate::doc_merge::derive_module_name(source)
}

/// Parse a source file by its extension: bash-like suffixes use the
/// annotation parser, `.rs` the native extractor, anything else fails
/// with the path echoed back.
pub fn parse_file(path: &str, content: &str) -> (r: Result<Document, String>)
{
    proof {
        reveal_strlit(".sh");
        reveal_strlit(".bash");
        reveal_strlit(".bats");
        reveal_strlit(".rs");
    }
    let v = str_to_chars(path);
    let sh = str_to_chars(".sh");
    let bash = str_to_chars(".bash");
    let bats = str_to_chars(".bats");
    let rs = str_to_chars(".rs");
    if crate::join::ends_with_exec(&v, &sh) || crate::join::ends_with_exec(&v, &bash)
        || crate::join::ends_with_exec(&v, &bats) {
        return Ok(crate::doc_bash::parse(content));
    }
    if crate::join::ends_with_exec(&v, &rs) {
        return Ok(crate::doc_rust::parse(content, path));
    }
    let mut msg = str_to_chars("unsupported file type: ");
    extend_str(&mut msg, path);
    Err(chars_to_string(&msg))
}

/// Filter functions by the internal flag and tag filters: internal
/// functions are dropped unless shown or explicitly included, exclusion
/// filters start with `!`, and inclusion filters demand their tag.
pub fn filter_functions(doc: &mut Document, show_internal: bool, filters: &Vec<String>)
{
    let mut kept: Vec<FunctionDoc> = Vec::new();
    let mut rev: Vec<FunctionDoc> = Vec::new();
    loop
        invariant
            true,
        decreases doc.functions@.len(),
    {
        match doc.functions.pop() {
            Some(x) => {
                rev.push(x);
            },
            None => {
                break;
            },
        }
    }
    loop
        invariant
            true,
        decreases rev@.len(),
    {
        let func = match rev.pop() {
            Some(x) => x,
            None => {
                break;
            },
        };
        if keep_function(&func, show_internal, filters) {
            kept.push(func);
        }
    }
    doc.functions = kept;
}

/// The filter decision for one function.
fn keep_function(func: &FunctionDoc, show_internal: bool, filters: &Vec<String>) -> (r: bool)
{
    proof {
        reveal_strlit("internal");
        reveal_strlit("!");
    }
    let internal_kw = "internal";
    if func.is_internal && !show_internal {
        let mut included = false;
        let n = filters.len();
        let mut i: usize = 0;
        while i < n
            invariant
                n == filters@.len(),
                i <= n,
            decreases n - i,
        {
            if str_eq_r(filters[i].as_str(), internal_kw) {
                included = true;
            }
            i += 1;
        }
        if !included {
            return false;
        }
    }
    let n = filters.len();
    let mut i: usize = 0;
    while i < n
        invariant
            n == filters@.len(),
            i <= n,
        decreases n - i,
    {
        let f = filters[i].as_str();
        if str_eq_r(f, internal_kw) {
            i += 1;
            continue;
        }
        let fv = str_to_chars(f);
        if fv.len() > 0 && fv[0] == '!' {
            let excluded = subrange_chars(&fv, 1, fv.len());
            let excluded_s = chars_to_string(&excluded);
            if str_eq_r(excluded_s.as_str(), internal_kw) {
                if func.is_internal {
                    return false;
                }
            } else if has_tag(func, excluded_s.as_str()) {
                return false;
            }
        } else {
            let matches = has_tag(func, f) || (str_eq_r(f, internal_kw) && func.is_internal);
            if !matches {
                return false;
            }
        }
        i += 1;
    }
    true
}

/// Whether a function carries a tag.
fn has_tag(func: &FunctionDoc, tag: &str) -> (r: bool)
{
    let n = func.tags.len();
    let mut i: usize = 0;
    while i < n
        invariant
            n == func.tags@.len(),
            i <= n,
        decreases n - i,
    {
        if str_eq_r(func.tags[i].as_str(), tag) {
            return true;
        }
        i += 1;
    }
    false
}

} // verus!
