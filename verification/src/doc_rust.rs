//! Documentation extractor for native sources: module docs, doc comments
//! and exported builtin registrations.

use vstd::prelude::*;

verus! {

use crate::model::{Document, FileDoc, FunctionDoc, Implementation, ImplLang};
use crate::text::{
    str_to_chars, chars_to_string, subrange_chars, extend_chars, matches_at, space_char,
    trim_chars,
};
use crate::strip::split_lines;
use vstd::string::StringExecFns;

/// Find the first occurrence of `pat` in `v` from `i`.
fn find_sub(v: &Vec<char>, i: usize, pat: &Vec<char>) -> (r: Option<usize>)
    requires
        i <= v@.len(),
    ensures
        match r {
            Some(k) => k + pat@.len() <= v@.len() && k < v@.len(),
            None => true,
        },
    decreases v@.len() - i,
{
    let n = v.len();
    if i >= n {
        return None;
    }
    if pat.len() == 0 {
        return Some(i);
    }
    if matches_at(v, i, pat) {
        return Some(i);
    }
    find_sub(v, i + 1, pat)
}

/// The text after a `//!` or `///` marker (one optional space eaten).
fn doc_text(v: &Vec<char>, marker: &Vec<char>) -> (r: Option<Vec<char>>)
{
    let t = trim_start(v);
    if matches_at(&t, 0, marker) {
        let m = marker.len();
        let tn = t.len();
        if m <= tn {
            let skip = if m < tn && t[m] == ' ' {
                m + 1
            } else {
                m
            };
            if skip <= tn {
                return Some(subrange_chars(&t, skip, tn));
            }
        }
    }
    None
}

/// Leading whitespace removed.
fn trim_start(v: &Vec<char>) -> (r: Vec<char>)
{
    let n = v.len();
    let mut a: usize = 0;
    while a < n && space_char(v[a])
        invariant
            a <= n == v@.len(),
        decreases n - a,
    {
        a += 1;
    }
    subrange_chars(v, a, n)
}

/// Extract text between the next two double quotes after `from`.
fn quoted_after(v: &Vec<char>, from: usize) -> (r: Option<Vec<char>>)
    requires
        from <= v@.len(),
{
    let vn = v.len();
    let q: Vec<char> = {
        let mut t: Vec<char> = Vec::new();
        t.push('"');
        t
    };
    match find_sub(v, from, &q) {
        Some(a) => {
            match find_sub(v, a + 1, &q) {
                Some(b) => {
                    if a + 1 <= b {
                        Some(subrange_chars(v, a + 1, b))
                    } else {
                        None
                    }
                },
                None => None,
            }
        },
        None => None,
    }
}

/// Parse a native source file into a document.
pub fn parse(input: &str, path: &str) -> (r: Document)
{
    proof {
        reveal_strlit("//!");
        reveal_strlit("///");
        reveal_strlit("Mirrors:");
        reveal_strlit("#[export_name");
        reveal_strlit("_struct");
        reveal_strlit("short_doc");
        reveal_strlit("pub fn ");
        reveal_strlit("pub extern ");
        reveal_strlit("BashBuiltin");
        reveal_strlit("};");
        reveal_strlit(".rs");
        reveal_strlit("//");
        reveal_strlit("#");
    }
    let raw = str_to_chars(input);
    let lines = split_lines(&raw);
    let mut file_doc = FileDoc::empty();
    let mut functions: Vec<FunctionDoc> = Vec::new();
    let source_file = String::from_str(path);

    let module_marker = str_to_chars("//!");
    let doc_marker = str_to_chars("///");
    let mirrors_kw = str_to_chars("Mirrors:");
    let export_kw = str_to_chars("#[export_name");
    let struct_suffix = str_to_chars("_struct");
    let short_doc_kw = str_to_chars("short_doc");
    let pub_fn_kw = str_to_chars("pub fn ");
    let pub_extern_kw = str_to_chars("pub extern ");
    let builtin_kw = str_to_chars("BashBuiltin");
    let close_kw = str_to_chars("};");

    let n = lines.len();
    let mut i: usize = 0;
    // module-level docs
    let mut module_desc: Vec<char> = Vec::new();
    let mut mirrors: Option<String> = None;
    while i < n
        invariant
            n == lines@.len(),
            i <= n,
            mirrors_kw@ == "Mirrors:"@,
            mirrors_kw@.len() == 8,
        decreases n - i,
    {
        match doc_text(&lines[i], &module_marker) {
            Some(text) => {
                let text_n = text.len();
                match find_sub(&text, 0, &mirrors_kw) {
                    Some(k) => {
                        proof {
                            assert(k + 8 <= text@.len());
                        }
                        let after = subrange_chars(&text, k + 8, text_n);
                        let t = trim_chars(&after);
                        // keep the path part only, up to the first whitespace
                        let tn = t.len();
                        let mut e: usize = 0;
                        while e < tn && !space_char(t[e])
                            invariant
                                e <= tn == t@.len(),
                            decreases tn - e,
                        {
                            e += 1;
                        }
                        let word = subrange_chars(&t, 0, e);
                        mirrors = Some(chars_to_string(&word));
                    },
                    None => {
                        if module_desc.len() > 0 || text.len() > 0 {
                            if module_desc.len() > 0 {
                                module_desc.push('\n');
                            }
                            extend_chars(&mut module_desc, &text);
                        }
                    },
                }
                i += 1;
            },
            None => {
                break;
            },
        }
    }
    let md = trim_chars(&module_desc);
    if md.len() > 0 {
        file_doc.description = Some(chars_to_string(&md));
    }
    // the title is the file stem
    {
        let pv = str_to_chars(path);
        let pn = pv.len();
        let mut cut: usize = 0;
        let mut k: usize = 0;
        while k < pn
            invariant
                k <= pn == pv@.len(),
                cut <= k,
            decreases pn - k,
        {
            if pv[k] == '/' {
                cut = k + 1;
            }
            k += 1;
        }
        let base = subrange_chars(&pv, cut, pn);
        let rs = str_to_chars(".rs");
        let stem = if base.len() >= 3 && crate::join::ends_with_exec(&base, &rs) {
            subrange_chars(&base, 0, base.len() - 3)
        } else {
            base
        };
        file_doc.title = Some(chars_to_string(&stem));
    }
    file_doc.mirrors = mirrors;

    // exported builtins and documented functions
    let mut current_doc: Vec<char> = Vec::new();
    let mut current_export: Option<String> = None;
    while i < n
        invariant
            n == lines@.len(),
            i <= n,
        decreases n - i,
    {
        let line = trim_start(&lines[i]);
        if let Some(text) = doc_text(&line, &doc_marker) {
            if current_doc.len() > 0 {
                current_doc.push('\n');
            }
            extend_chars(&mut current_doc, &text);
            i += 1;
            continue;
        }
        if matches_at(&line, 0, &export_kw) {
            if let Some(q) = quoted_after(&line, 0) {
                let name = if q.len() >= 7 && crate::join::ends_with_exec(&q, &struct_suffix) {
                    subrange_chars(&q, 0, q.len() - 7)
                } else {
                    q
                };
                current_export = Some(chars_to_string(&name));
            }
            i += 1;
            continue;
        }
        let is_pub_fn = matches_at(&line, 0, &pub_fn_kw) || matches_at(&line, 0, &pub_extern_kw);
        if is_pub_fn {
            if let Some(export_name) = current_export.take() {
                let desc = trim_chars(&current_doc);
                let mut func = FunctionDoc::empty(export_name);
                if desc.len() > 0 {
                    func.description = Some(chars_to_string(&desc));
                }
                func.implementations.push(
                    Implementation { lang: ImplLang::Rust, source_file: source_file.clone() },
                );
                functions.push(func);
            }
            current_doc = Vec::new();
            current_export = None;
            i += 1;
            continue;
        }
        let has_builtin = find_sub(&line, 0, &builtin_kw).is_some();
        let has_brace = crate::join::has_char_exec(&line, 0, '{');
        if has_builtin && has_brace && current_export.is_some() {
            let builtin_name = match current_export.take() {
                Some(x) => x,
                None => String::new(),
            };
            let mut desc = trim_chars(&current_doc);
            let mut j = i + 1;
            loop
                invariant
                    n == lines@.len(),
                    i < j <= n,
                decreases n - j,
            {
                if j >= n {
                    break;
                }
                let t = trim_start(&lines[j]);
                if matches_at(&t, 0, &close_kw) {
                    break;
                }
                if matches_at(&t, 0, &short_doc_kw) && desc.len() == 0 {
                    if let Some(q) = quoted_after(&t, 0) {
                        desc = q;
                    }
                }
                j += 1;
            }
            let mut func = FunctionDoc::empty(builtin_name);
            if desc.len() > 0 {
                func.description = Some(chars_to_string(&desc));
            }
            func.implementations.push(
                Implementation { lang: ImplLang::Rust, source_file: source_file.clone() },
            );
            functions.push(func);
            current_doc = Vec::new();
            if j < n {
                i = j + 1;
            } else {
                i = n;
            }
            continue;
        }
        // a significant non-doc line clears the accumulator
        let slash2 = str_to_chars("//");
        let hash = str_to_chars("#");
        if line.len() > 0 && !matches_at(&line, 0, &slash2) && !matches_at(&line, 0, &hash) {
            current_doc = Vec::new();
            current_export = None;
        }
        i += 1;
    }
    Document { file: file_doc, functions }
}

} // verus!
