//! Source-file bundling for bash scripts.
//!
//! `import <target>`, `source <path>` and `. <path>` directives are
//! resolved and recursively inlined.  File probing and reading cannot
//! happen here, so the bundler is a state machine: each `step` call
//! processes one line of the innermost open file (or closes it when it is
//! exhausted), suspends on a resolvable directive by returning its
//! candidate paths, and the caller answers with `found` (the read file's
//! content) or `not_found`.  Every transition is pinned by `walk_post`
//! and the ghost frame model.  A visited set deduplicates top-level
//! inlines, a `# minifier force source` annotation overrides the
//! deduplication, an import inside a function body (brace depth above
//! zero) always inlines, and nesting is capped at 64 levels, so cyclic
//! imports always end in either success or a depth error.

use vstd::prelude::*;

verus! {

use crate::text::{
    is_blank_char, is_space_char, is_word_char, run_len, lemma_run_len, match_at, matches_at,
    blank_char, space_char, word_char, count_leading_blanks, leading_blanks, lemma_leading_blanks,
    space_run_at, trim_spec, trim_chars, str_to_chars, chars_to_string, subrange_chars,
    extend_chars, extend_str, strings_view, vecs_view,
};
use crate::quote::{is_escaped, escaped_at, open_quotes, QuoteTracker};
use crate::join::has_char;
use vstd::string::StringExecFns;

/// Maximum inlining depth.
pub const MAX_DEPTH: usize = 64;

// -- Brace depth -----------------------------------------------------------------

/// The scan state after `i` characters: net block-brace change, open
/// parameter-expansion braces, and the two quote flags.
pub open spec fn bd_state_at(s: Seq<char>, i: int) -> (int, int, bool, bool)
    decreases i,
{
    if i <= 0 || i > s.len() {
        (0, 0, false, false)
    } else {
        let st = bd_state_at(s, i - 1);
        let delta = st.0;
        let param = st.1;
        let in_s = st.2;
        let in_d = st.3;
        let c = s[i - 1];
        let prev = if i - 2 >= 0 {
            s[i - 2]
        } else {
            ' '
        };
        let esc = !in_s && is_escaped(s, i - 1);
        if c == '\'' && !in_d && (in_s || !esc) {
            (delta, param, !in_s, in_d)
        } else if c == '"' && !in_s && !esc {
            (delta, param, in_s, !in_d)
        } else if c == '{' && !in_s {
            if prev == '$' && i - 2 >= 0 {
                (delta, param + 1, in_s, in_d)
            } else if param == 0 && !in_d {
                (delta + 1, param, in_s, in_d)
            } else {
                (delta, param, in_s, in_d)
            }
        } else if c == '}' && !in_s {
            if param > 0 {
                (delta, param - 1, in_s, in_d)
            } else if !in_d {
                (delta - 1, param, in_s, in_d)
            } else {
                (delta, param, in_s, in_d)
            }
        } else {
            (delta, param, in_s, in_d)
        }
    }
}

/// Net block-brace depth change of a whole line.
pub open spec fn spec_brace_delta(s: Seq<char>) -> int {
    bd_state_at(s, s.len() as int).0
}

/// Count the net brace depth change for a line, excluding `${…}`
/// expansions and quoted braces.
pub fn brace_depth_delta(line: &str) -> (r: i32)
    requires
        line@.len() < 0x7fffffff,
    ensures
        r == spec_brace_delta(line@),
{
    let chars = str_to_chars(line);
    let n = chars.len();
    let mut delta: i32 = 0;
    let mut param: i32 = 0;
    let mut in_s = false;
    let mut in_d = false;
    let mut i: usize = 0;
    while i < n
        invariant
            n == chars@.len(),
            n < 0x7fffffff,
            i <= n,
            (delta as int, param as int, in_s, in_d) == bd_state_at(chars@, i as int),
            -(i as int) <= delta as int <= i as int,
            0 <= param as int <= i as int,
        decreases n - i,
    {
        let c = chars[i];
        let prev = if i >= 1 {
            chars[i - 1]
        } else {
            ' '
        };
        let esc = if !in_s && (c == '\'' || c == '"') {
            escaped_at(&chars, i)
        } else {
            false
        };
        if c == '\'' && !in_d && (in_s || !esc) {
            in_s = !in_s;
        } else if c == '"' && !in_s && !esc {
            in_d = !in_d;
        } else if c == '{' && !in_s {
            if prev == '$' && i >= 1 {
                param += 1;
            } else if param == 0 && !in_d {
                delta += 1;
            }
        } else if c == '}' && !in_s {
            if param > 0 {
                param -= 1;
            } else if !in_d {
                delta -= 1;
            }
        }
        i += 1;
    }
    delta
}

// -- Directive parsing --------------------------------------------------------------

/// A character that ends an unquoted import target.
pub open spec fn is_target_end(c: char) -> bool {
    is_space_char(c) || c == ';' || c == '#'
}

/// A character that ends a quoted source/dot target.
pub open spec fn is_qtarget_end(c: char) -> bool {
    is_target_end(c) || c == '"' || c == '\''
}

/// `import <word>` covering the whole line.
pub open spec fn import_target(s: Seq<char>) -> Option<Seq<char>> {
    let a = leading_blanks(s);
    let sp = run_len(s, a + 6, |c: char| is_space_char(c));
    let w = run_len(s, a + 6 + sp, |c: char| !is_target_end(c));
    let tail = run_len(s, a + 6 + sp + w, |c: char| is_space_char(c));
    if match_at(s, a, "import"@) && sp >= 1 && w >= 1 && a + 6 + sp + w + tail == s.len() {
        Some(s.subrange(a + 6 + sp, a + 6 + sp + w))
    } else {
        None
    }
}

/// `source <path>` or `. <path>`, quotes optional.
pub open spec fn kw_target(s: Seq<char>, kw: Seq<char>) -> Option<Seq<char>> {
    let a = leading_blanks(s);
    let sp = run_len(s, a + kw.len(), |c: char| is_space_char(c));
    let p0 = a + kw.len() + sp;
    let p = if 0 <= p0 < s.len() && (s[p0] == '"' || s[p0] == '\'') {
        p0 + 1
    } else {
        p0
    };
    let w = run_len(s, p, |c: char| !is_qtarget_end(c));
    if match_at(s, a, kw) && sp >= 1 && w >= 1 && p + w <= s.len() {
        Some(s.subrange(p, p + w))
    } else {
        None
    }
}

/// The target of an import-like directive, unless it holds `$`.
pub open spec fn spec_extract_target(s: Seq<char>) -> Option<Seq<char>> {
    let t = if import_target(s) is Some {
        import_target(s)
    } else if kw_target(s, "source"@) is Some {
        kw_target(s, "source"@)
    } else {
        kw_target(s, "."@)
    };
    match t {
        Some(w) => if has_char(w, 0, '$') {
            None
        } else {
            Some(w)
        },
        None => None,
    }
}

/// Executable run of non-target-end characters.
fn target_run_at(v: &Vec<char>, i: usize) -> (r: usize)
    requires
        i <= v@.len(),
    ensures
        r == run_len(v@, i as int, |c: char| !is_target_end(c)),
        i + r <= v@.len(),
    decreases v@.len() - i,
{
    let n = v.len();
    if i >= n {
        return 0;
    }
    let c = v[i];
    if space_char(c) || c == ';' || c == '#' {
        return 0;
    }
    let rest = target_run_at(v, i + 1);
    proof {
        lemma_run_len(v@, i + 1, |c: char| !is_target_end(c));
    }
    1 + rest
}

/// Executable run of non-quoted-target-end characters.
fn qtarget_run_at(v: &Vec<char>, i: usize) -> (r: usize)
    requires
        i <= v@.len(),
    ensures
        r == run_len(v@, i as int, |c: char| !is_qtarget_end(c)),
        i + r <= v@.len(),
    decreases v@.len() - i,
{
    let n = v.len();
    if i >= n {
        return 0;
    }
    let c = v[i];
    if space_char(c) || c == ';' || c == '#' || c == '"' || c == '\'' {
        return 0;
    }
    let rest = qtarget_run_at(v, i + 1);
    proof {
        lemma_run_len(v@, i + 1, |c: char| !is_qtarget_end(c));
    }
    1 + rest
}

/// Executable mirror of `kw_target`.
fn kw_target_exec(v: &Vec<char>, kw: &Vec<char>) -> (r: Option<Vec<char>>)
    ensures
        match r {
            Some(m) => kw_target(v@, kw@) == Some(m@),
            None => kw_target(v@, kw@) is None,
        },
{
    proof {
        lemma_leading_blanks(v@);
    }
    let a = count_leading_blanks(v);
    if !matches_at(v, a, kw) {
        return None;
    }
    let n = v.len();
    let base = a + kw.len();
    let sp = space_run_at(v, if base <= n {
        base
    } else {
        n
    });
    proof {
        if base > v@.len() {
            assert(run_len(v@, base as int, |c: char| is_space_char(c)) == 0);
        }
    }
    if sp < 1 {
        return None;
    }
    let p0 = base + sp;
    let p = if p0 < n && (v[p0] == '"' || v[p0] == '\'') {
        p0 + 1
    } else {
        p0
    };
    if p > n {
        proof {
            assert(run_len(v@, p as int, |c: char| !is_qtarget_end(c)) == 0);
        }
        return None;
    }
    let w = qtarget_run_at(v, p);
    if w >= 1 {
        Some(subrange_chars(v, p, p + w))
    } else {
        None
    }
}

/// Extract the import target from a line, if it matches an import form and
/// does not depend on a variable expansion.
pub fn extract_target(line: &str) -> (r: Option<String>)
    ensures
        match r {
            Some(t) => spec_extract_target(line@) == Some(t@),
            None => spec_extract_target(line@) is None,
        },
{
    proof {
        reveal_strlit("import");
        reveal_strlit("source");
        reveal_strlit(".");
        lemma_leading_blanks(line@);
    }
    let v = str_to_chars(line);
    let mut t: Option<Vec<char>> = None;
    // import <word>
    let a = count_leading_blanks(&v);
    let import_kw = str_to_chars("import");
    let mut import_hit: Option<Vec<char>> = None;
    if matches_at(&v, a, &import_kw) {
        let n = v.len();
        let sp = space_run_at(&v, if a + 6 <= n {
            a + 6
        } else {
            n
        });
        proof {
            if a + 6 > v@.len() {
                assert(run_len(v@, a + 6, |c: char| is_space_char(c)) == 0);
            }
        }
        if sp >= 1 {
            let w = target_run_at(&v, a + 6 + sp);
            if w >= 1 {
                let tail = space_run_at(&v, a + 6 + sp + w);
                if a + 6 + sp + w + tail == n {
                    import_hit = Some(subrange_chars(&v, a + 6 + sp, a + 6 + sp + w));
                }
            }
        }
    }
    proof {
        if import_hit is None {
            assert(import_target(v@) is None);
        }
    }
    match import_hit {
        Some(m) => {
            t = Some(m);
        },
        None => {
            let source_kw = str_to_chars("source");
            match kw_target_exec(&v, &source_kw) {
                Some(m) => {
                    t = Some(m);
                },
                None => {
                    let dot_kw = str_to_chars(".");
                    match kw_target_exec(&v, &dot_kw) {
                        Some(m) => {
                            t = Some(m);
                        },
                        None => {
                            t = None;
                        },
                    }
                },
            }
        },
    }
    match t {
        Some(w) => {
            if has_char_pub(&w, '$') {
                None
            } else {
                Some(chars_to_string(&w))
            }
        },
        None => None,
    }
}

/// Executable dollar search.
fn has_char_pub(v: &Vec<char>, c: char) -> (r: bool)
    ensures
        r == has_char(v@, 0, c),
{
    crate::join::has_char_exec(v, 0, c)
}


// -- Path candidates ------------------------------------------------------------------

/// Strip a leading `@` or `~` from an import target.
pub open spec fn spec_strip_prefix(t: Seq<char>) -> Seq<char> {
    if t.len() > 0 && (t[0] == '@' || t[0] == '~') {
        t.subrange(1, t.len() as int)
    } else {
        t
    }
}

/// Contains `..` somewhere.
pub open spec fn has_dotdot(s: Seq<char>, k: int) -> bool
    decreases s.len() - k,
{
    if k < 0 || k + 1 >= s.len() {
        false
    } else if s[k] == '.' && s[k + 1] == '.' {
        true
    } else {
        has_dotdot(s, k + 1)
    }
}

/// A target the resolver refuses: path traversal or an absolute path.
pub open spec fn target_rejected(t: Seq<char>) -> bool {
    let st = spec_strip_prefix(t);
    has_dotdot(st, 0) || (st.len() > 0 && st[0] == '/')
}

/// Executable `..`-search.
fn has_dotdot_exec(v: &Vec<char>, k: usize) -> (r: bool)
    requires
        k <= v@.len(),
    ensures
        r == has_dotdot(v@, k as int),
    decreases v@.len() - k,
{
    let n = v.len();
    if n - k <= 1 {
        return false;
    }
    if v[k] == '.' && v[k + 1] == '.' {
        return true;
    }
    has_dotdot_exec(v, k + 1)
}

// -- The bundler state machine ---------------------------------------------------------

/// Configuration for the bundle phase.
pub struct BundleConfig {
    /// Directories to search for imports, in order, after the current
    /// file's own directory.
    pub search_paths: Vec<String>,
}

/// One file being walked.
struct Frame {
    lines: Vec<String>,
    pos: usize,
    dir: String,
    brace_depth: i32,
    force_next: bool,
    open_quote: Option<char>,
}

/// What the caller must do next.
pub enum BundleStep {
    /// One line was processed or one finished file was closed; call
    /// `step` again.
    Progress,
    /// Probe these paths in order; call `found` with the first that is a
    /// readable file (after canonicalising), or `not_found`.
    Resolve(Vec<String>, String),
    /// Every line has been processed; read the output.
    Done,
}

/// Why bundling failed.
#[derive(Debug)]
pub enum BundleError {
    /// More than `MAX_DEPTH` nested inlines.
    DepthExceeded,
}

impl BundleError {
    /// A one-line description naming the depth limit.
    pub fn message(&self) -> (r: String)
        ensures
            r@ == "bundle: maximum recursion depth (64) exceeded"@,
    {
        String::from_str("bundle: maximum recursion depth (64) exceeded")
    }
}

/// The ghost view of one open file: its lines, the walk position, the
/// directory its imports resolve against, and the per-file scan state.
pub struct FrameModel {
    /// The file's lines.
    pub lines: Seq<Seq<char>>,
    /// The next line to process.
    pub pos: int,
    /// The file's own directory.
    pub dir: Seq<char>,
    /// Net open block braces, clamped at zero.
    pub brace: int,
    /// A force annotation arms the next directive.
    pub force: bool,
    /// The quote character of an open multi-line string.
    pub quote: Option<char>,
}

/// The ghost view of one frame.
spec fn frame_model(f: Frame) -> FrameModel {
    FrameModel {
        lines: strings_view(f.lines@),
        pos: f.pos as int,
        dir: f.dir@,
        brace: f.brace_depth as int,
        force: f.force_next,
        quote: f.open_quote,
    }
}

/// The force annotation line.
pub open spec fn is_force_line(l: Seq<char>) -> bool {
    trim_spec(l) == "# minifier force source"@
}

/// A directive the walk suspends on: a static target that is not rejected.
pub open spec fn resolvable_directive(l: Seq<char>) -> bool {
    spec_extract_target(l) is Some && !target_rejected(spec_extract_target(l).unwrap())
}

/// The brace counter after adding a line's delta: clamped at zero, and
/// reset when the sum leaves the counter's range.
pub open spec fn clamp_brace(b: int, d: int) -> int {
    if b + d > 0x7fffffff {
        0
    } else if b + d < 0 {
        0
    } else {
        b + d
    }
}

/// The scan state after an ordinary emitted line: position advanced, the
/// force flag dropped, brace depth and open-quote state updated (a line
/// at the counter's size limit leaves those two untouched).
pub open spec fn scan_frame(f: FrameModel, l: Seq<char>) -> FrameModel {
    if l.len() >= 0x7fffffff {
        FrameModel {
            lines: f.lines,
            pos: f.pos + 1,
            dir: f.dir,
            brace: f.brace,
            force: false,
            quote: f.quote,
        }
    } else {
        FrameModel {
            lines: f.lines,
            pos: f.pos + 1,
            dir: f.dir,
            brace: clamp_brace(f.brace, spec_brace_delta(l)),
            force: false,
            quote: if open_quotes(l).0 {
                Some('\'')
            } else if open_quotes(l).1 {
                Some('"')
            } else {
                f.quote
            },
        }
    }
}

/// One `step` transition: from frames `fr` and output `out` to `fr2` and
/// `out2`; `suspended` exactly on a resolvable directive, `done` exactly
/// when no frame is open.  Inside an open multi-line string every line is
/// emitted verbatim; a force annotation is consumed without emission; any
/// other line — an unresolvable directive included — is emitted verbatim
/// and scanned for braces and quotes.
pub open spec fn walk_post(
    fr: Seq<FrameModel>,
    out: Seq<Seq<char>>,
    fr2: Seq<FrameModel>,
    out2: Seq<Seq<char>>,
    suspended: bool,
    done: bool,
) -> bool {
    if fr.len() == 0 {
        fr2 == fr && out2 == out && done && !suspended
    } else {
        let t = fr.len() - 1;
        let f = fr[t];
        if f.pos < 0 || f.pos >= f.lines.len() {
            fr2 == fr.drop_last() && out2 == out && !done && !suspended
        } else {
            let l = f.lines[f.pos];
            if f.quote is Some {
                &&& fr2 == fr.update(
                    t,
                    (FrameModel {
                        lines: f.lines,
                        pos: f.pos + 1,
                        dir: f.dir,
                        brace: f.brace,
                        force: f.force,
                        quote: if has_char(l, 0, f.quote.unwrap()) {
                            None
                        } else {
                            f.quote
                        },
                    }),
                )
                &&& out2 == out.push(l)
                &&& !done && !suspended
            } else if is_force_line(l) {
                &&& fr2 == fr.update(
                    t,
                    (FrameModel {
                        lines: f.lines,
                        pos: f.pos + 1,
                        dir: f.dir,
                        brace: f.brace,
                        force: true,
                        quote: f.quote,
                    }),
                )
                &&& out2 == out
                &&& !done && !suspended
            } else if resolvable_directive(l) {
                fr2 == fr && out2 == out && suspended && !done
            } else {
                &&& fr2 == fr.update(t, scan_frame(f, l))
                &&& out2 == out.push(l)
                &&& !done && !suspended
            }
        }
    }
}

/// The three candidate paths of one directory: the bare name, `.sh`,
/// `.bash`.
pub open spec fn cand_triple(dir: Seq<char>, st: Seq<char>) -> Seq<Seq<char>> {
    seq![dir + "/"@ + st, dir + "/"@ + st + ".sh"@, dir + "/"@ + st + ".bash"@]
}

/// The candidate paths over a directory list, in order.
pub open spec fn cand_list(dirs: Seq<Seq<char>>, st: Seq<char>) -> Seq<Seq<char>>
    decreases dirs.len(),
{
    if dirs.len() == 0 {
        Seq::empty()
    } else {
        cand_triple(dirs[0], st) + cand_list(dirs.subrange(1, dirs.len() as int), st)
    }
}

/// The candidates a directive's target resolves against: none for a
/// rejected target, otherwise the current directory and every search
/// path, each tried bare and with the two shell extensions.
pub open spec fn spec_candidates(
    target: Seq<char>,
    cur_dir: Seq<char>,
    search: Seq<Seq<char>>,
) -> Seq<Seq<char>> {
    if target_rejected(target) {
        Seq::empty()
    } else {
        cand_list(seq![cur_dir] + search, spec_strip_prefix(target))
    }
}

/// Appending one directory extends the candidate list by its triple.
proof fn lemma_cand_list_snoc(dirs: Seq<Seq<char>>, d: Seq<char>, st: Seq<char>)
    ensures
        cand_list(dirs.push(d), st) =~= cand_list(dirs, st) + cand_triple(d, st),
    decreases dirs.len(),
{
    let pushed = dirs.push(d);
    if dirs.len() == 0 {
        assert(pushed[0] == d);
        assert(pushed.subrange(1, 1) =~= Seq::<Seq<char>>::empty());
        assert(cand_list(pushed.subrange(1, pushed.len() as int), st) =~= Seq::<
            Seq<char>,
        >::empty());
        assert(cand_list(pushed, st) =~= cand_triple(d, st));
        assert(cand_list(dirs, st) + cand_triple(d, st) =~= cand_triple(d, st));
    } else {
        assert(pushed[0] == dirs[0]);
        assert(pushed.subrange(1, pushed.len() as int) =~= dirs.subrange(
            1,
            dirs.len() as int,
        ).push(d));
        lemma_cand_list_snoc(dirs.subrange(1, dirs.len() as int), d, st);
        assert(cand_triple(dirs[0], st) + (cand_list(dirs.subrange(1, dirs.len() as int), st)
            + cand_triple(d, st)) =~= (cand_triple(dirs[0], st) + cand_list(
            dirs.subrange(1, dirs.len() as int),
            st,
        )) + cand_triple(d, st));
    }
}

/// The import bundler: a state machine over a stack of open files.
pub struct Bundler {
    config: BundleConfig,
    frames: Vec<Frame>,
    seen: Vec<String>,
    out: Vec<String>,
}

impl Bundler {
    /// The stack never grows beyond the depth limit plus the root.
    pub closed spec fn wf(&self) -> bool {
        self.frames@.len() <= MAX_DEPTH + 1
    }

    /// How many files are open.
    pub closed spec fn depth(&self) -> int {
        self.frames@.len() as int
    }

    /// The ghost view of the open files, root first.
    pub closed spec fn frames_model(&self) -> Seq<FrameModel> {
        Seq::new(self.frames@.len(), |i: int| frame_model(self.frames@[i]))
    }

    /// The configured search directories.
    pub closed spec fn search_view(&self) -> Seq<Seq<char>> {
        strings_view(self.config.search_paths@)
    }

    /// The canonical paths already inlined.
    pub closed spec fn seen_view(&self) -> Seq<Seq<char>> {
        strings_view(self.seen@)
    }

    /// The emitted output lines.
    pub closed spec fn output_view(&self) -> Seq<Seq<char>> {
        strings_view(self.out@)
    }

    /// Whether the current file position is at top level (no open block
    /// brace).
    pub closed spec fn top_level(&self) -> bool {
        self.frames@.len() > 0 && self.frames@[self.frames@.len() - 1].brace_depth == 0
    }

    /// Whether a force annotation arms the next directive.
    pub closed spec fn forced(&self) -> bool {
        self.frames@.len() > 0 && self.frames@[self.frames@.len() - 1].force_next
    }

    /// Lines left to process over all open files.
    pub closed spec fn measure(&self) -> nat {
        frames_measure(self.frames@)
    }

    /// Whether the walk stands on an unconsumed line.
    pub closed spec fn resolving(&self) -> bool {
        self.frames@.len() > 0 && self.frames@[self.frames@.len() - 1].pos < self.frames@[
            self.frames@.len() - 1
        ].lines@.len()
    }

    /// A canonical path is already in the visited set.
    pub closed spec fn seen_has(&self, p: Seq<char>) -> bool {
        self.seen_view().contains(p)
    }

    /// Start bundling one source text rooted at `dir`: one open frame
    /// holding the source's split lines, nothing emitted, nothing seen.
    pub fn new(source: &str, dir: &str, config: BundleConfig) -> (r: Bundler)
        ensures
            r.wf(),
            r.depth() == 1,
            r.output_view().len() == 0,
            r.seen_view().len() == 0,
            r.search_view() == strings_view(config.search_paths@),
            r.frames_model() =~= seq![
                (FrameModel {
                    lines: crate::strip::split_lines_spec(source@),
                    pos: 0,
                    dir: dir@,
                    brace: 0,
                    force: false,
                    quote: None,
                }),
            ],
    {
        let raw = str_to_chars(source);
        let line_vecs = crate::strip::split_lines(&raw);
        let lines = crate::discover::to_strings(&line_vecs);
        proof {
            assert(strings_view(lines@) == crate::strip::split_lines_spec(source@));
        }
        let frame = Frame {
            lines,
            pos: 0,
            dir: String::from_str(dir),
            brace_depth: 0,
            force_next: false,
            open_quote: None,
        };
        let mut frames: Vec<Frame> = Vec::new();
        frames.push(frame);
        let r = Bundler { config, frames, seen: Vec::new(), out: Vec::new() };
        proof {
            assert(r.frames_model() =~= seq![frame_model(r.frames@[0])]);
        }
        r
    }

    /// Process one line (or close one finished file).  `Done` comes back
    /// exactly when every frame is consumed; `Resolve` exactly when the
    /// current line is a resolvable directive, carrying its candidate
    /// paths in probe order; otherwise one `Progress` transition of
    /// `walk_post` happened and the walk advanced.
    pub fn step(&mut self) -> (r: BundleStep)
        requires
            old(self).wf(),
        ensures
            final(self).wf(),
            final(self).depth() <= old(self).depth(),
            final(self).seen_view() == old(self).seen_view(),
            final(self).search_view() == old(self).search_view(),
            walk_post(
                old(self).frames_model(),
                old(self).output_view(),
                final(self).frames_model(),
                final(self).output_view(),
                r is Resolve,
                r is Done,
            ),
            r is Progress ==> final(self).measure() < old(self).measure(),
            r is Resolve ==> final(self).resolving(),
            match r {
                BundleStep::Resolve(c, tg) => {
                    let fr = old(self).frames_model();
                    let f = fr[fr.len() - 1];
                    let l = f.lines[f.pos];
                    &&& tg@ == spec_extract_target(l).unwrap()
                    &&& strings_view(c@) == spec_candidates(tg@, f.dir, old(self).search_view())
                },
                _ => true,
            },
    {
        let flen = self.frames.len();
        if flen == 0 {
            return BundleStep::Done;
        }
        let ghost fr0m = self.frames_model();
        let ghost out0 = self.output_view();
        let ghost m0 = self.measure();
        let top = flen - 1;
        if self.frames[top].pos >= self.frames[top].lines.len() {
            let ghost fr0 = self.frames@;
            self.frames.pop();
            proof {
                assert(self.frames@ =~= fr0.drop_last());
                assert(self.frames_model() =~= fr0m.drop_last());
                assert(frames_measure(fr0) == frames_measure(fr0.drop_last()) + (
                if fr0[fr0.len() - 1].pos <= fr0[fr0.len() - 1].lines@.len() {
                    (fr0[fr0.len() - 1].lines@.len() - fr0[fr0.len() - 1].pos) as nat
                } else {
                    0nat
                }) + 1);
                assert(self.measure() < m0);
            }
            return BundleStep::Progress;
        }
        let ghost fr0 = self.frames@;
        let ghost fm = fr0m[top as int];
        let pos = self.frames[top].pos;
        let line = self.frames[top].lines[pos].clone();
        let ghost lv = line@;
        proof {
            assert(fm.lines[fm.pos] == lv);
        }
        let chars = str_to_chars(line.as_str());
        // inside a multi-line quoted string: emit verbatim
        let oq = self.frames[top].open_quote;
        if let Some(q) = oq {
            self.out.push(line);
            if has_char_pub(&chars, q) {
                let f = &mut self.frames[top];
                f.open_quote = None;
            }
            let f = &mut self.frames[top];
            f.pos = pos + 1;
            proof {
                assert(self.output_view() =~= out0.push(lv));
                assert(self.frames_model() =~= fr0m.update(
                    top as int,
                    (FrameModel {
                        lines: fm.lines,
                        pos: fm.pos + 1,
                        dir: fm.dir,
                        brace: fm.brace,
                        force: fm.force,
                        quote: if has_char(lv, 0, fm.quote.unwrap()) {
                            None
                        } else {
                            fm.quote
                        },
                    }),
                ));
                lemma_measure_top_advance(fr0, self.frames@);
            }
            return BundleStep::Progress;
        }
        // the force annotation arms the next directive and is dropped
        let trimmed = trim_chars(&chars);
        let force_kw = str_to_chars("# minifier force source");
        if eq_chars_b(&trimmed, &force_kw) {
            let f = &mut self.frames[top];
            f.force_next = true;
            f.pos = pos + 1;
            proof {
                assert(is_force_line(lv));
                assert(self.frames_model() =~= fr0m.update(
                    top as int,
                    (FrameModel {
                        lines: fm.lines,
                        pos: fm.pos + 1,
                        dir: fm.dir,
                        brace: fm.brace,
                        force: true,
                        quote: fm.quote,
                    }),
                ));
                lemma_measure_top_advance(fr0, self.frames@);
            }
            return BundleStep::Progress;
        }
        // a resolvable directive suspends the walk
        let target_opt = extract_target(line.as_str());
        if let Some(target) = target_opt {
            let cands = self.candidates(target.as_str(), top);
            if cands.len() > 0 {
                proof {
                    assert(!target_rejected(target@));
                    assert(resolvable_directive(lv));
                    assert(self.frames_model() =~= fr0m);
                }
                return BundleStep::Resolve(cands, target);
            }
            proof {
                assert(target_rejected(target@));
                assert(!resolvable_directive(lv));
            }
        }
        proof {
            assert(!resolvable_directive(lv));
            assert(!is_force_line(lv));
        }
        // an ordinary line (an unresolvable directive included): emit and scan
        self.advance_ordinary(top, line, &chars);
        proof {
            assert(self.output_view() =~= out0.push(lv));
            assert(self.frames_model() =~= fr0m.update(top as int, scan_frame(fm, lv)));
        }
        BundleStep::Progress
    }

    /// Emit the current line verbatim and update the frame's scan state.
    fn advance_ordinary(&mut self, top: usize, line: String, chars: &Vec<char>)
        requires
            old(self).wf(),
            top + 1 == old(self).frames@.len(),
            old(self).resolving(),
            line@ == old(self).frames_model()[top as int].lines[old(self).frames_model()[
                top as int
            ].pos],
            chars@ == line@,
        ensures
            final(self).wf(),
            final(self).depth() == old(self).depth(),
            final(self).seen_view() == old(self).seen_view(),
            final(self).search_view() == old(self).search_view(),
            final(self).output_view() == old(self).output_view().push(line@),
            final(self).frames_model() == old(self).frames_model().update(
                top as int,
                scan_frame(old(self).frames_model()[top as int], line@),
            ),
            final(self).measure() < old(self).measure(),
    {
        let ghost fr0 = self.frames@;
        let ghost fr0m = self.frames_model();
        let ghost fm = fr0m[top as int];
        let ghost out0 = self.output_view();
        let pos = self.frames[top].pos;
        let bound = self.frames[top].lines.len();
        proof {
            assert(pos < bound);
        }
        self.out.push(line);
        let f = &mut self.frames[top];
        f.force_next = false;
        f.pos = pos + 1;
        if chars.len() < 0x7fffffff {
            let d = brace_depth_delta_chars(chars);
            let f = &mut self.frames[top];
            let nd = f.brace_depth.checked_add(d);
            f.brace_depth = match nd {
                Some(x) => if x < 0 {
                    0
                } else {
                    x
                },
                None => 0,
            };
            proof {
                assert(self.frames@[top as int].brace_depth as int == clamp_brace(
                    fm.brace,
                    spec_brace_delta(chars@),
                ));
            }
            let o = QuoteTracker::chars_have_open_quote(chars);
            let f = &mut self.frames[top];
            if o.0 {
                f.open_quote = Some('\'');
            } else if o.1 {
                f.open_quote = Some('"');
            }
        }
        proof {
            assert(self.output_view() =~= out0.push(line@));
            assert(self.frames_model() =~= fr0m.update(top as int, scan_frame(fm, line@)));
            lemma_measure_top_advance(fr0, self.frames@);
        }
    }

    /// The resolved file was read: decide between deduplication and
    /// inlining.  At top level, without a force annotation, an already
    /// visited target is skipped (the directive is consumed and nothing is
    /// emitted or opened); otherwise the directive is consumed and a new
    /// frame holding the read content's lines, rooted at `dir`, is opened
    /// — unless that would nest past the depth limit, which is the exact
    /// error case and leaves the state untouched.
    pub fn found(&mut self, canonical: &str, content: &str, dir: &str) -> (r: Result<
        bool,
        BundleError,
    >)
        requires
            old(self).wf(),
            old(self).resolving(),
        ensures
            final(self).wf(),
            final(self).search_view() == old(self).search_view(),
            ({
                let fr = old(self).frames_model();
                let t = fr.len() - 1;
                let f = fr[t];
                let stepped = fr.update(
                    t,
                    (FrameModel {
                        lines: f.lines,
                        pos: f.pos + 1,
                        dir: f.dir,
                        brace: f.brace,
                        force: false,
                        quote: f.quote,
                    }),
                );
                let dedup = old(self).top_level() && !old(self).forced() && old(self).seen_has(
                    canonical@,
                );
                &&& (r == Ok::<bool, BundleError>(false) <==> dedup)
                &&& (dedup ==> final(self).frames_model() == stepped && final(self).output_view()
                    == old(self).output_view() && final(self).seen_view() == old(self).seen_view())
                &&& (r == Ok::<bool, BundleError>(true) ==> final(self).frames_model() == stepped.push(
                    (FrameModel {
                        lines: crate::strip::split_lines_spec(content@),
                        pos: 0,
                        dir: dir@,
                        brace: 0,
                        force: false,
                        quote: None,
                    }),
                ) && final(self).seen_view() == old(self).seen_view().push(canonical@)
                    && final(self).output_view() == old(self).output_view())
                &&& (r is Err <==> !dedup && old(self).depth() > MAX_DEPTH as int)
                &&& (r is Err ==> final(self).frames_model() == fr && final(self).output_view()
                    == old(self).output_view() && final(self).seen_view() == old(self).seen_view())
            }),
    {
        let ghost fr0m = self.frames_model();
        let flen = self.frames.len();
        let top = flen - 1;
        let dedup_top = self.frames[top].brace_depth == 0;
        let dedup_force = self.frames[top].force_next;
        let canon_chars = str_to_chars(canonical);
        let already = self.seen_contains(&canon_chars);
        let dedup = dedup_top && !dedup_force && already;
        if dedup {
            let pos = self.frames[top].pos;
            let bound = self.frames[top].lines.len();
            proof {
                assert(pos < bound);
            }
            let f = &mut self.frames[top];
            f.pos = pos + 1;
            f.force_next = false;
            proof {
                let fm = fr0m[top as int];
                assert(self.frames_model() =~= fr0m.update(
                    top as int,
                    (FrameModel {
                        lines: fm.lines,
                        pos: fm.pos + 1,
                        dir: fm.dir,
                        brace: fm.brace,
                        force: false,
                        quote: fm.quote,
                    }),
                ));
            }
            return Ok(false);
        }
        if flen > MAX_DEPTH {
            proof {
                assert(self.frames_model() =~= fr0m);
            }
            return Err(BundleError::DepthExceeded);
        }
        self.seen.push(String::from_str(canonical));
        proof {
            assert(strings_view(self.seen@) =~= strings_view(old(self).seen@).push(canonical@));
            assert(strings_view(self.seen@)[strings_view(self.seen@).len() - 1] == canonical@);
            assert(strings_view(self.seen@).contains(canonical@));
        }
        let pos = self.frames[top].pos;
        let bound = self.frames[top].lines.len();
        proof {
            assert(pos < bound);
        }
        let f = &mut self.frames[top];
        f.pos = pos + 1;
        f.force_next = false;
        let raw = str_to_chars(content);
        let line_vecs = crate::strip::split_lines(&raw);
        let lines = crate::discover::to_strings(&line_vecs);
        proof {
            assert(strings_view(lines@) == crate::strip::split_lines_spec(content@));
        }
        let frame = Frame {
            lines,
            pos: 0,
            dir: String::from_str(dir),
            brace_depth: 0,
            force_next: false,
            open_quote: None,
        };
        self.frames.push(frame);
        proof {
            let fm = fr0m[top as int];
            let stepped = fr0m.update(
                top as int,
                (FrameModel {
                    lines: fm.lines,
                    pos: fm.pos + 1,
                    dir: fm.dir,
                    brace: fm.brace,
                    force: false,
                    quote: fm.quote,
                }),
            );
            assert(self.frames_model() =~= stepped.push(
                frame_model(self.frames@[self.frames@.len() - 1]),
            ));
        }
        Ok(true)
    }

    /// No candidate was a readable file: the directive line itself is
    /// emitted verbatim and scanned like any ordinary line, and the walk
    /// advances past it.
    pub fn not_found(&mut self)
        requires
            old(self).wf(),
            old(self).resolving(),
        ensures
            final(self).wf(),
            final(self).depth() == old(self).depth(),
            final(self).seen_view() == old(self).seen_view(),
            final(self).search_view() == old(self).search_view(),
            ({
                let fr = old(self).frames_model();
                let t = fr.len() - 1;
                let f = fr[t];
                let l = f.lines[f.pos];
                &&& final(self).output_view() == old(self).output_view().push(l)
                &&& final(self).frames_model() == fr.update(t, scan_frame(f, l))
            }),
            final(self).measure() < old(self).measure(),
    {
        let flen = self.frames.len();
        let top = flen - 1;
        let pos = self.frames[top].pos;
        let bound = self.frames[top].lines.len();
        proof {
            assert(pos < bound);
        }
        let line = self.frames[top].lines[pos].clone();
        let chars = str_to_chars(line.as_str());
        self.advance_ordinary(top, line, &chars);
    }

    /// The lines emitted so far.
    pub fn output_lines(&self) -> (r: Vec<String>)
        ensures
            strings_view(r@) == self.output_view(),
    {
        let n = self.out.len();
        let mut r: Vec<String> = Vec::new();
        let mut i: usize = 0;
        while i < n
            invariant
                n == self.out@.len(),
                i <= n,
                strings_view(r@) =~= strings_view(self.out@).subrange(0, i as int),
            decreases n - i,
        {
            let ghost before = r@;
            r.push(self.out[i].clone());
            proof {
                assert(strings_view(r@) =~= strings_view(before).push(self.out@[i as int]@));
                assert(strings_view(self.out@).subrange(0, i + 1) =~= strings_view(
                    self.out@,
                ).subrange(0, i as int).push(strings_view(self.out@)[i as int]));
            }
            i += 1;
        }
        proof {
            assert(strings_view(self.out@).subrange(0, n as int) =~= strings_view(self.out@));
        }
        r
    }

    /// Executable membership in the visited set.
    fn seen_contains(&self, p: &Vec<char>) -> (r: bool)
        ensures
            r == self.seen_has(p@),
    {
        let n = self.seen.len();
        let mut i: usize = 0;
        while i < n
            invariant
                n == self.seen@.len(),
                i <= n,
                forall|m: int| 0 <= m < i ==> strings_view(self.seen@)[m] != p@,
            decreases n - i,
        {
            let item = str_to_chars(self.seen[i].as_str());
            if eq_chars_b(&item, p) {
                proof {
                    assert(strings_view(self.seen@)[i as int] == p@);
                }
                return true;
            }
            i += 1;
        }
        proof {
            assert(forall|m: int|
                0 <= m < strings_view(self.seen@).len() ==> strings_view(self.seen@)[m] != p@);
        }
        false
    }

    /// The candidate paths for a directive in the frame at `top`.
    fn candidates(&self, target: &str, top: usize) -> (r: Vec<String>)
        requires
            top < self.frames_model().len(),
        ensures
            strings_view(r@) == spec_candidates(
                target@,
                self.frames_model()[top as int].dir,
                self.search_view(),
            ),
            (r@.len() == 0) == target_rejected(target@),
    {
        let t = str_to_chars(target);
        let st = if t.len() > 0 && (t[0] == '@' || t[0] == '~') {
            subrange_chars(&t, 1, t.len())
        } else {
            let mut c: Vec<char> = Vec::new();
            extend_chars(&mut c, &t);
            c
        };
        proof {
            if t@.len() > 0 && (t@[0] == '@' || t@[0] == '~') {
                assert(st@ =~= spec_strip_prefix(target@));
            } else {
                assert(st@ =~= spec_strip_prefix(target@));
            }
        }
        let mut out: Vec<String> = Vec::new();
        if has_dotdot_exec(&st, 0) {
            proof {
                assert(strings_view(out@) =~= spec_candidates(
                    target@,
                    self.frames_model()[top as int].dir,
                    self.search_view(),
                ));
            }
            return out;
        }
        if st.len() > 0 && st[0] == '/' {
            proof {
                assert(strings_view(out@) =~= spec_candidates(
                    target@,
                    self.frames_model()[top as int].dir,
                    self.search_view(),
                ));
            }
            return out;
        }
        let base_dir = str_to_chars(self.frames[top].dir.as_str());
        let ghost stv = st@;
        let ghost basev = base_dir@;
        push_candidates(&mut out, &base_dir, &st);
        proof {
            assert(strings_view(out@) =~= Seq::<Seq<char>>::empty() + cand_triple(basev, stv));
            assert(cand_list(Seq::<Seq<char>>::empty().push(basev), stv) =~= cand_triple(
                basev,
                stv,
            )) by {
                lemma_cand_list_snoc(Seq::<Seq<char>>::empty(), basev, stv);
                assert(cand_list(Seq::<Seq<char>>::empty(), stv) =~= Seq::<Seq<char>>::empty());
            }
        }
        let sn = self.config.search_paths.len();
        let mut i: usize = 0;
        proof {
            assert(seq![basev] =~= Seq::<Seq<char>>::empty().push(basev));
            assert(seq![basev] + self.search_view().subrange(0, 0) =~= seq![basev]);
            assert(strings_view(out@) =~= cand_list(
                seq![basev] + self.search_view().subrange(0, 0),
                stv,
            ));
        }
        while i < sn
            invariant
                sn == self.config.search_paths@.len(),
                i <= sn,
                stv == st@,
                basev == self.frames_model()[top as int].dir,
                top < self.frames_model().len(),
                strings_view(out@) =~= cand_list(
                    seq![basev] + self.search_view().subrange(0, i as int),
                    stv,
                ),
            decreases sn - i,
        {
            let d = str_to_chars(self.config.search_paths[i].as_str());
            push_candidates(&mut out, &d, &st);
            proof {
                let dirs_before = seq![basev] + self.search_view().subrange(0, i as int);
                lemma_cand_list_snoc(dirs_before, d@, stv);
                assert(dirs_before.push(d@) =~= seq![basev] + self.search_view().subrange(
                    0,
                    i + 1,
                ));
                assert(strings_view(out@) =~= cand_list(
                    seq![basev] + self.search_view().subrange(0, i + 1),
                    stv,
                ));
            }
            i += 1;
        }
        proof {
            assert(self.search_view().subrange(0, sn as int) =~= self.search_view());
            assert(strings_view(out@) =~= cand_list(seq![basev] + self.search_view(), stv));
            assert(strings_view(out@) =~= spec_candidates(
                target@,
                self.frames_model()[top as int].dir,
                self.search_view(),
            ));
            if !target_rejected(target@) {
                assert(cand_list(seq![basev] + self.search_view(), stv).len() >= 3) by {
                    let dirs = seq![basev] + self.search_view();
                    assert(dirs.len() >= 1);
                    assert(cand_list(dirs, stv) == cand_triple(dirs[0], stv) + cand_list(
                        dirs.subrange(1, dirs.len() as int),
                        stv,
                    ));
                }
            }
        }
        out
    }
}

/// Advancing the last frame's position by one shrinks the measure.
proof fn lemma_measure_top_advance(fr0: Seq<Frame>, fr1: Seq<Frame>)
    requires
        fr0.len() > 0,
        fr1.len() == fr0.len(),
        fr1.drop_last() =~= fr0.drop_last(),
        fr1[fr1.len() - 1].lines@.len() == fr0[fr0.len() - 1].lines@.len(),
        fr1[fr1.len() - 1].pos == fr0[fr0.len() - 1].pos + 1,
        fr0[fr0.len() - 1].pos < fr0[fr0.len() - 1].lines@.len(),
    ensures
        frames_measure(fr1) < frames_measure(fr0),
{
    assert(frames_measure(fr0) == frames_measure(fr0.drop_last()) + (
    (fr0[fr0.len() - 1].lines@.len() - fr0[fr0.len() - 1].pos) as nat) + 1);
    assert(frames_measure(fr1) == frames_measure(fr1.drop_last()) + (
    (fr1[fr1.len() - 1].lines@.len() - fr1[fr1.len() - 1].pos) as nat) + 1);
    assert(frames_measure(fr1.drop_last()) == frames_measure(fr0.drop_last()));
}

/// Total lines left over all frames.
spec fn frames_measure(frames: Seq<Frame>) -> nat
    decreases frames.len(),
{
    if frames.len() == 0 {
        0
    } else {
        let f = frames[frames.len() - 1];
        let left: nat = if f.pos <= f.lines@.len() {
            (f.lines@.len() - f.pos) as nat
        } else {
            0
        };
        frames_measure(frames.drop_last()) + left + 1
    }
}

/// Push the three extension candidates for one directory.
fn push_candidates(out: &mut Vec<String>, dir: &Vec<char>, name: &Vec<char>)
    ensures
        strings_view(final(out)@) == strings_view(old(out)@) + cand_triple(dir@, name@),
{
    proof {
        reveal_strlit("/");
        reveal_strlit(".sh");
        reveal_strlit(".bash");
    }
    let mut a: Vec<char> = Vec::new();
    extend_chars(&mut a, dir);
    a.push('/');
    extend_chars(&mut a, name);
    proof {
        assert(a@ =~= dir@ + "/"@ + name@);
    }
    let mut b: Vec<char> = Vec::new();
    extend_chars(&mut b, &a);
    extend_str(&mut b, ".sh");
    let mut c: Vec<char> = Vec::new();
    extend_chars(&mut c, &a);
    extend_str(&mut c, ".bash");
    let ghost before = out@;
    out.push(chars_to_string(&a));
    out.push(chars_to_string(&b));
    out.push(chars_to_string(&c));
    proof {
        assert(strings_view(out@) =~= strings_view(before) + cand_triple(dir@, name@));
    }
}

/// Executable equality of two character vectors.
fn eq_chars_b(a: &Vec<char>, b: &Vec<char>) -> (r: bool)
    ensures
        r == (a@ == b@),
{
    if a.len() != b.len() {
        return false;
    }
    let r = matches_at(a, 0, b);
    proof {
        assert(a@.subrange(0, b@.len() as int) =~= a@);
        if r {
            assert(a@ == b@);
        } else {
            assert(a@ != b@);
        }
    }
    r
}

/// `brace_depth_delta` on an already-split character vector.
fn brace_depth_delta_chars(chars: &Vec<char>) -> (r: i32)
    requires
        chars@.len() < 0x7fffffff,
    ensures
        r == spec_brace_delta(chars@),
{
    let n = chars.len();
    let mut delta: i32 = 0;
    let mut param: i32 = 0;
    let mut in_s = false;
    let mut in_d = false;
    let mut i: usize = 0;
    while i < n
        invariant
            n == chars@.len(),
            n < 0x7fffffff,
            i <= n,
            (delta as int, param as int, in_s, in_d) == bd_state_at(chars@, i as int),
            -(i as int) <= delta as int <= i as int,
            0 <= param as int <= i as int,
        decreases n - i,
    {
        let c = chars[i];
        let prev = if i >= 1 {
            chars[i - 1]
        } else {
            ' '
        };
        let esc = if !in_s && (c == '\'' || c == '"') {
            escaped_at(chars, i)
        } else {
            false
        };
        if c == '\'' && !in_d && (in_s || !esc) {
            in_s = !in_s;
        } else if c == '"' && !in_s && !esc {
            in_d = !in_d;
        } else if c == '{' && !in_s {
            if prev == '$' && i >= 1 {
                param += 1;
            } else if param == 0 && !in_d {
                delta += 1;
            }
        } else if c == '}' && !in_s {
            if param > 0 {
                param -= 1;
            } else if !in_d {
                delta -= 1;
            }
        }
        i += 1;
    }
    delta
}

} // verus!
