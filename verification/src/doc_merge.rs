//! Cross-match merge: combine documents that describe the same module.

use vstd::prelude::*;

verus! {

use crate::model::{Document, FileDoc, FunctionDoc, Implementation, ImplLang};
use crate::text::{str_to_chars, chars_to_string, subrange_chars, matches_at};
use crate::join::ends_with_exec;

/// Executable equality of two strings through their character views.
fn str_eq(a: &str, b: &str) -> (r: bool)
    ensures
        r == (a@ == b@),
{
    let av = str_to_chars(a);
    let bv = str_to_chars(b);
    if av.len() != bv.len() {
        proof {
            assert(a@ != b@);
        }
        return false;
    }
    let r = matches_at(&av, 0, &bv);
    proof {
        assert(av@.subrange(0, bv@.len() as int) =~= av@);
        if r {
            assert(a@ == b@);
        } else {
            assert(a@ != b@);
        }
    }
    r
}

/// Strip one of the source suffixes from a file name.
fn strip_source_suffix(name: &Vec<char>) -> (r: Vec<char>)
{
    proof {
        reveal_strlit(".sh");
        reveal_strlit(".bash");
        reveal_strlit(".bats");
        reveal_strlit(".rs");
    }
    let sh = str_to_chars(".sh");
    let bash = str_to_chars(".bash");
    let bats = str_to_chars(".bats");
    let rs = str_to_chars(".rs");
    if ends_with_exec(name, &sh) {
        return subrange_chars(name, 0, name.len() - 3);
    }
    if ends_with_exec(name, &bash) {
        return subrange_chars(name, 0, name.len() - 5);
    }
    if ends_with_exec(name, &bats) {
        return subrange_chars(name, 0, name.len() - 5);
    }
    if ends_with_exec(name, &rs) {
        return subrange_chars(name, 0, name.len() - 3);
    }
    subrange_chars(name, 0, name.len())
}

/// The file-name part after the last `/`.
fn basename(path: &Vec<char>) -> (r: Vec<char>)
{
    let n = path.len();
    let mut cut: usize = 0;
    let mut i: usize = 0;
    while i < n
        invariant
            n == path@.len(),
            i <= n,
            cut <= i,
        decreases n - i,
    {
        if path[i] == '/' {
            cut = i + 1;
        }
        i += 1;
    }
    subrange_chars(path, cut, n)
}

/// Derive a module name from a source file path: the base name with its
/// source suffix removed.
pub fn derive_module_name(path: &str) -> (r: String)
{
    let v = str_to_chars(path);
    let base = basename(&v);
    let stem = strip_source_suffix(&base);
    chars_to_string(&stem)
}

/// Canonical function name for matching across implementations: leading
/// colons are stripped.
pub fn canonical_name(name: &str) -> (r: String)
{
    let v = str_to_chars(name);
    let n = v.len();
    let mut k: usize = 0;
    while k < n && v[k] == ':'
        invariant
            k <= n == v@.len(),
        decreases n - k,
    {
        k += 1;
    }
    let rest = subrange_chars(&v, k, n);
    chars_to_string(&rest)
}

/// A bash source path.
fn is_bash_source(path: &str) -> (r: bool)
{
    proof {
        reveal_strlit(".sh");
        reveal_strlit(".bash");
        reveal_strlit(".bats");
    }
    let v = str_to_chars(path);
    let sh = str_to_chars(".sh");
    let bash = str_to_chars(".bash");
    let bats = str_to_chars(".bats");
    ends_with_exec(&v, &sh) || ends_with_exec(&v, &bash) || ends_with_exec(&v, &bats)
}

/// Merge one group of documents that share a module name: bash metadata
/// wins, functions are matched by canonical name, richer annotations
/// replace poorer ones, and implementations accumulate.
fn merge_group(docs: Vec<(String, Document)>) -> (r: Document)
{
    let mut file_doc = FileDoc::empty();
    let mut funcs: Vec<(String, FunctionDoc)> = Vec::new();
    let mut rev: Vec<(String, Document)> = Vec::new();
    let mut input = docs;
    loop
        invariant
            true,
        decreases input@.len(),
    {
        match input.pop() {
            Some(x) => {
                rev.push(x);
            },
            None => {
                break;
            },
        }
    }
    loop
        invariant
            true,
        decreases rev@.len(),
    {
        let item = match rev.pop() {
            Some(x) => x,
            None => {
                break;
            },
        };
        let (source_file, doc) = item;
        let from_bash = is_bash_source(source_file.as_str());
        let Document { file, functions } = doc;
        if from_bash {
            if file.title.is_some() {
                file_doc.title = file.title;
            }
            if file.brief.is_some() {
                file_doc.brief = file.brief;
            }
            if file.description.is_some() {
                file_doc.description = file.description;
            }
            if file.tags.is_some() {
                file_doc.tags = file.tags;
            }
        } else if file_doc.title.is_none() {
            file_doc.title = file.title;
            if file_doc.description.is_none() {
                file_doc.description = file.description;
            }
        }
        let mut frev: Vec<FunctionDoc> = Vec::new();
        let mut fin = functions;
        loop
            invariant
                true,
            decreases fin@.len(),
        {
            match fin.pop() {
                Some(x) => {
                    frev.push(x);
                },
                None => {
                    break;
                },
            }
        }
        loop
            invariant
                true,
            decreases frev@.len(),
        {
            let func = match frev.pop() {
                Some(x) => x,
                None => {
                    break;
                },
            };
            let canonical = canonical_name(func.name.as_str());
            let mut idx: Option<usize> = None;
            let fn_count = funcs.len();
            let mut j: usize = 0;
            while j < fn_count
                invariant
                    fn_count == funcs@.len(),
                    j <= fn_count,
                    idx is Some ==> idx.unwrap() < fn_count,
                decreases fn_count - j,
            {
                if idx.is_none() && str_eq(funcs[j].0.as_str(), canonical.as_str()) {
                    idx = Some(j);
                }
                j += 1;
            }
            match idx {
                Some(at) => {
                    let richer_new = func.is_richer();
                    let richer_old = funcs[at].1.is_richer();
                    if richer_new && !richer_old {
                        let mut merged = func;
                        let mut old_impls: Vec<Implementation> = Vec::new();
                        let prev_len = funcs[at].1.implementations.len();
                        let mut q: usize = 0;
                        while q < prev_len
                            invariant
                                at < funcs@.len(),
                                prev_len == funcs@[at as int].1.implementations@.len(),
                                q <= prev_len,
                            decreases prev_len - q,
                        {
                            let imp = Implementation {
                                lang: funcs[at].1.implementations[q].lang,
                                source_file: funcs[at].1.implementations[q].source_file.clone(),
                            };
                            old_impls.push(imp);
                            q += 1;
                        }
                        let new_impls = merged.implementations;
                        merged.implementations = old_impls;
                        let mut extra = new_impls;
                        loop
                            invariant
                                at < funcs@.len(),
                            decreases extra@.len(),
                        {
                            match extra.pop() {
                                Some(x) => {
                                    merged.implementations.push(x);
                                },
                                None => {
                                    break;
                                },
                            }
                        }
                        funcs[at].1 = merged;
                    } else {
                        let mut extra = func.implementations;
                        let mut extra2: Vec<Implementation> = Vec::new();
                        loop
                            invariant
                                true,
                            decreases extra@.len(),
                        {
                            match extra.pop() {
                                Some(x) => {
                                    extra2.push(x);
                                },
                                None => {
                                    break;
                                },
                            }
                        }
                        loop
                            invariant
                                at < funcs@.len(),
                            decreases extra2@.len(),
                        {
                            match extra2.pop() {
                                Some(x) => {
                                    funcs[at].1.implementations.push(x);
                                },
                                None => {
                                    break;
                                },
                            }
                        }
                        if funcs[at].1.description.is_none() && func.description.is_some() {
                            funcs[at].1.description = func.description;
                        }
                    }
                },
                None => {
                    funcs.push((canonical, func));
                },
            }
        }
    }
    let mut functions: Vec<FunctionDoc> = Vec::new();
    let mut frev: Vec<(String, FunctionDoc)> = Vec::new();
    loop
        invariant
            true,
        decreases funcs@.len(),
    {
        match funcs.pop() {
            Some(x) => {
                frev.push(x);
            },
            None => {
                break;
            },
        }
    }
    loop
        invariant
            true,
        decreases frev@.len(),
    {
        match frev.pop() {
            Some(x) => {
                functions.push(x.1);
            },
            None => {
                break;
            },
        }
    }
    Document { file: file_doc, functions }
}

/// Merge documents that share a module name; a document alone in its
/// group passes through unchanged.
pub fn merge(docs: Vec<(String, Document)>) -> (r: Vec<(String, Document)>)
{
    let mut groups: Vec<(String, Vec<(String, Document)>)> = Vec::new();
    let mut rev: Vec<(String, Document)> = Vec::new();
    let mut input = docs;
    loop
        invariant
            true,
        decreases input@.len(),
    {
        match input.pop() {
            Some(x) => {
                rev.push(x);
            },
            None => {
                break;
            },
        }
    }
    loop
        invariant
            true,
        decreases rev@.len(),
    {
        let item = match rev.pop() {
            Some(x) => x,
            None => {
                break;
            },
        };
        let module = match &item.1.file.mirrors {
            Some(m) => derive_module_name(m.as_str()),
            None => derive_module_name(item.0.as_str()),
        };
        let gcount = groups.len();
        let mut at: Option<usize> = None;
        let mut j: usize = 0;
        while j < gcount
            invariant
                gcount == groups@.len(),
                j <= gcount,
                at is Some ==> at.unwrap() < gcount,
            decreases gcount - j,
        {
            if at.is_none() && str_eq(groups[j].0.as_str(), module.as_str()) {
                at = Some(j);
            }
            j += 1;
        }
        match at {
            Some(g) => {
                groups[g].1.push(item);
            },
            None => {
                let mut v: Vec<(String, Document)> = Vec::new();
                v.push(item);
                groups.push((module, v));
            },
        }
    }
    let mut out: Vec<(String, Document)> = Vec::new();
    let mut grev: Vec<(String, Vec<(String, Document)>)> = Vec::new();
    loop
        invariant
            true,
        decreases groups@.len(),
    {
        match groups.pop() {
            Some(x) => {
                grev.push(x);
            },
            None => {
                break;
            },
        }
    }
    loop
        invariant
            true,
        decreases grev@.len(),
    {
        let (module, mut members) = match grev.pop() {
            Some(x) => x,
            None => {
                break;
            },
        };
        if members.len() == 1 {
            let only = match members.pop() {
                Some(x) => x,
                None => {
                    continue;
                },
            };
            out.push(only);
        } else {
            let merged = merge_group(members);
            out.push((module, merged));
        }
    }
    out
}

} // verus!
