//! Variable renaming for bash scripts.
//!
//! Every discovered variable is renamed to a short generated identifier in
//! each syntactic context where bash reads or writes it: assignments,
//! `local`/`declare` declarations, `read`, `printf -v`/`mapfile -t`, `for`
//! loops, array writes and reads, `unset`, increments, parameter-expansion
//! modifiers, substring offsets, `$var`/`${var}` references outside single
//! quotes and arithmetic contexts.  Every rename demands an identifier
//! boundary on both sides, so a name never changes inside a longer name.

use vstd::prelude::*;

verus! {

use crate::text::{
    is_blank_char, is_space_char, is_word_char, leading_blanks, lemma_leading_blanks, run_len,
    lemma_run_len, match_at, matches_at, blank_char, space_char, word_char, count_leading_blanks,
    space_run_at, str_to_chars, chars_to_string, subrange_chars, extend_chars, strings_view,
    vecs_view,
};
use crate::strip::naive_state_at;

// -- Boundary -------------------------------------------------------------------

/// Identifier boundary on both sides of the occurrence `[i, j)`.
pub open spec fn boundary_ok(s: Seq<char>, i: int, j: int) -> bool {
    &&& (i == 0 || !is_word_char(s[i - 1]))
    &&& (j == s.len() || !is_word_char(s[j]))
}

// -- Context predicates -----------------------------------------------------------

/// `name=` (and `name+=`, `name-=` outside single quotes).
pub open spec fn ctx_assign(s: Seq<char>, i: int, j: int) -> bool {
    ||| (j < s.len() && s[j] == '=')
    ||| (j + 1 < s.len() && (s[j] == '+' || s[j] == '-') && s[j + 1] == '='
        && !naive_state_at(s, i).0)
}

/// A `local`/`declare` keyword before the occurrence with no `;` in between.
pub open spec fn decl_kw_search(s: Seq<char>, k: int, i: int) -> bool
    decreases i - k,
{
    if k < 0 || k >= i {
        false
    } else if s[k] == ';' {
        false
    } else if (match_at(s, k, "local"@) && k + 5 < s.len() && is_space_char(s[k + 5]))
        || (match_at(s, k, "declare"@) && k + 7 < s.len() && is_space_char(s[k + 7])) {
        no_semi(s, k, i)
    } else {
        decl_kw_search(s, k + 1, i)
    }
}

/// No semicolon in `s[k..i)`.
pub open spec fn no_semi(s: Seq<char>, k: int, i: int) -> bool
    decreases i - k,
{
    if k >= i || k < 0 || k >= s.len() {
        true
    } else if s[k] == ';' {
        false
    } else {
        no_semi(s, k + 1, i)
    }
}

/// Declaration context: whitespace right before the name, a declaration
/// keyword somewhere before it, and `=`/whitespace/end after it.
pub open spec fn ctx_decl(s: Seq<char>, i: int, j: int) -> bool {
    &&& i > 0 && is_space_char(s[i - 1])
    &&& (j == s.len() || s[j] == '=' || is_space_char(s[j]))
    &&& decl_kw_search(s, 0, i)
}

/// A `read` keyword followed by whitespace, ending at or before `i`.
pub open spec fn read_kw_search(s: Seq<char>, k: int, i: int) -> bool
    decreases i - k,
{
    if k < 0 || k + 5 > i {
        false
    } else if match_at(s, k, "read"@) && k + 4 < s.len() && is_space_char(s[k + 4]) {
        true
    } else {
        read_kw_search(s, k + 1, i)
    }
}

/// Read context: `read` before the name; after it one of ` ;}'"` or a newline.
pub open spec fn ctx_read(s: Seq<char>, i: int, j: int) -> bool {
    &&& j < s.len() && (s[j] == ' ' || s[j] == ';' || s[j] == '}' || s[j] == '\'' || s[j] == '"'
        || s[j] == '\n')
    &&& read_kw_search(s, 0, i)
}

/// `printf -v name` / `mapfile -t name` at the start of the line.
pub open spec fn ctx_printf(s: Seq<char>, i: int, j: int) -> bool {
    ||| kw_dash_head(s, i, "printf"@, 'v')
    ||| kw_dash_head(s, i, "mapfile"@, 't')
}

/// `kw` then whitespace then `-x` then whitespace, ending exactly at `i`.
pub open spec fn kw_dash_head(s: Seq<char>, i: int, kw: Seq<char>, flag: char) -> bool {
    let p = kw.len() as int;
    let sp1 = run_len(s, p, |c: char| is_space_char(c));
    let q = p + sp1;
    let sp2 = run_len(s, q + 2, |c: char| is_space_char(c));
    &&& match_at(s, 0, kw)
    &&& sp1 >= 1
    &&& q + 1 < s.len() && s[q] == '-' && s[q + 1] == flag
    &&& sp2 >= 1
    &&& i == q + 2 + sp2
}

/// `for` loop head: blanks, `for`, whitespace, then the name at `i`.
pub open spec fn ctx_for(s: Seq<char>, i: int, j: int) -> bool {
    let a = leading_blanks(s);
    let sp = run_len(s, a + 3, |c: char| is_space_char(c));
    &&& match_at(s, a, "for"@)
    &&& sp >= 1
    &&& i == a + 3 + sp
}

/// Array write: `name[` with `]=` later.
pub open spec fn has_close_eq_o(s: Seq<char>, from: int) -> bool
    decreases s.len() - from,
{
    if from < 0 || from + 1 >= s.len() {
        false
    } else if s[from] == ']' && s[from + 1] == '=' {
        true
    } else {
        has_close_eq_o(s, from + 1)
    }
}

/// Array-write context.
pub open spec fn ctx_array_write(s: Seq<char>, i: int, j: int) -> bool {
    j < s.len() && s[j] == '[' && has_close_eq_o(s, j + 2)
}

/// Array read: `${name[`.
pub open spec fn ctx_array_read(s: Seq<char>, i: int, j: int) -> bool {
    i >= 2 && s[i - 2] == '$' && s[i - 1] == '{' && j < s.len() && s[j] == '['
}

/// Run of whitespace ending just before `p`.
pub open spec fn back_space_run(s: Seq<char>, p: int) -> int
    decreases p,
{
    if p <= 0 || p > s.len() || !is_space_char(s[p - 1]) {
        0
    } else {
        1 + back_space_run(s, p - 1)
    }
}

/// `unset 'name[` / `unset "name[`.
pub open spec fn ctx_unset(s: Seq<char>, i: int, j: int) -> bool {
    let bs = back_space_run(s, i - 1);
    &&& i >= 1 && (s[i - 1] == '\'' || s[i - 1] == '"')
    &&& j < s.len() && s[j] == '['
    &&& bs >= 1
    &&& i - 1 - bs - 5 >= 0 && match_at(s, i - 1 - bs - 5, "unset"@)
}

/// `(( ++name` at the start of the line.
pub open spec fn ctx_pre_incr(s: Seq<char>, i: int, j: int) -> bool {
    let a = leading_blanks(s);
    let sp = run_len(s, a + 2, |c: char| is_space_char(c));
    let p = a + 2 + sp;
    &&& match_at(s, a, "(("@)
    &&& p + 1 < s.len() && (s[p] == '+' || s[p] == '-') && (s[p + 1] == '+' || s[p + 1] == '-')
    &&& i == p + 2
}

/// `(( name++` at the start of the line.
pub open spec fn ctx_post_incr(s: Seq<char>, i: int, j: int) -> bool {
    let a = leading_blanks(s);
    let sp = run_len(s, a + 2, |c: char| is_space_char(c));
    &&& match_at(s, a, "(("@)
    &&& i == a + 2 + sp
    &&& j + 1 < s.len() && (s[j] == '+' || s[j] == '-') && (s[j + 1] == '+' || s[j + 1] == '-')
}

/// Parameter-expansion modifier: one of `:+- ` before, one of `:}+` after.
pub open spec fn ctx_param_mod(s: Seq<char>, i: int, j: int) -> bool {
    &&& i > 0 && (s[i - 1] == ':' || s[i - 1] == '+' || s[i - 1] == '-' || s[i - 1] == ' ')
    &&& j < s.len() && (s[j] == ':' || s[j] == '}' || s[j] == '+')
}

/// Scan backwards for `${` without crossing `}`.
pub open spec fn brace_open_back(s: Seq<char>, q: int) -> Option<int>
    decreases q + 1,
{
    if q < 0 || q >= s.len() {
        None
    } else if s[q] == '}' {
        None
    } else if s[q] == '{' && q >= 1 && s[q - 1] == '$' {
        Some(q - 1)
    } else {
        brace_open_back(s, q - 1)
    }
}

/// Some `}` at or after `from`.
pub open spec fn has_brace_close(s: Seq<char>, from: int) -> bool
    decreases s.len() - from,
{
    if from < 0 || from >= s.len() {
        false
    } else if s[from] == '}' {
        true
    } else {
        has_brace_close(s, from + 1)
    }
}

/// Arithmetic inside `${…[…]…}`: `[`/`+`/`-` before, `]`/`+`/`-` after.
pub open spec fn ctx_brace_arith(s: Seq<char>, i: int, j: int) -> bool {
    &&& i > 0 && (s[i - 1] == '[' || s[i - 1] == '+' || s[i - 1] == '-')
    &&& j < s.len() && (s[j] == ']' || s[j] == '+' || s[j] == '-')
    &&& match brace_open_back(s, i - 2) {
        Some(p) => p + 3 <= i,
        None => false,
    }
    &&& has_brace_close(s, j + 1)
}

/// First `:` after a `${`, with nothing but clean name text in between.
pub open spec fn first_colon(s: Seq<char>, k: int) -> Option<int>
    decreases s.len() - k,
{
    if k < 0 || k >= s.len() {
        None
    } else if s[k] == ':' {
        Some(k)
    } else {
        first_colon(s, k + 1)
    }
}

/// Substring offset right after the first `:` of a `${…:…}`.
pub open spec fn ctx_substr_head(s: Seq<char>, i: int, j: int) -> bool {
    &&& i > 0 && s[i - 1] == ':'
    &&& match brace_open_back(s, i - 2) {
        Some(p) => p + 3 <= i && first_colon(s, p + 2) == Some(i - 1),
        None => false,
    }
    &&& has_brace_close(s, j)
}

/// Substring offset or length later inside a `${…:X…}` whose first `:` is
/// followed by an identifier character.
pub open spec fn ctx_substr_tail(s: Seq<char>, i: int, j: int) -> bool {
    &&& match brace_open_back(s, i - 1) {
        Some(p) => {
            &&& p + 3 <= i
            &&& match first_colon(s, p + 2) {
                Some(c) => c + 2 <= i && c + 1 < s.len() && is_word_char(s[c + 1]),
                None => false,
            }
        },
        None => false,
    }
    &&& has_brace_close(s, j)
}

/// `$name` outside single quotes.
pub open spec fn ctx_dollar(s: Seq<char>, i: int, j: int) -> bool {
    &&& i >= 1 && s[i - 1] == '$'
    &&& !naive_state_at(s, i).0
    &&& j < s.len() && !is_word_char(s[j])
}

/// `${name`, `${!name`, `${#name` outside single quotes.
pub open spec fn ctx_brace_ref(s: Seq<char>, i: int, j: int) -> bool {
    &&& ((i >= 2 && s[i - 2] == '$' && s[i - 1] == '{') || (i >= 3 && s[i - 3] == '$' && s[i - 2]
        == '{' && (s[i - 1] == '!' || s[i - 1] == '#')))
    &&& !naive_state_at(s, i).0
    &&& j < s.len() && !is_word_char(s[j])
}

/// Scan backwards for `((` without crossing `)`.
pub open spec fn arith_open_back(s: Seq<char>, q: int) -> bool
    decreases q + 1,
{
    if q < 0 || q >= s.len() {
        false
    } else if s[q] == ')' {
        false
    } else if s[q] == '(' && q >= 1 && s[q - 1] == '(' {
        true
    } else {
        arith_open_back(s, q - 1)
    }
}

/// A character that may border a name inside `(( … ))`.
pub open spec fn is_arith_edge(c: char) -> bool {
    c == '=' || c == '+' || c == '-' || c == ';' || c == '<' || c == '>' || c == '['
        || is_space_char(c)
}

/// Arithmetic context: inside `(( … ` with operator characters around.
pub open spec fn ctx_arith(s: Seq<char>, i: int, j: int) -> bool {
    &&& i > 0 && is_arith_edge(s[i - 1])
    &&& j < s.len() && (is_arith_edge(s[j]) || s[j] == ')' || s[j] == ']')
    &&& arith_open_back(s, i - 1)
}

/// Bare array subscript: `name[i]`, `name[i-1]`, directly after an
/// identifier's opening bracket.
pub open spec fn ctx_bare_subscript(s: Seq<char>, i: int, j: int) -> bool {
    &&& i >= 2 && s[i - 1] == '[' && is_word_char(s[i - 2])
    &&& j < s.len() && (s[j] == ']' || s[j] == '+' || s[j] == '-')
}

/// Any renaming context.
pub open spec fn ctx_any(s: Seq<char>, i: int, j: int) -> bool {
    ||| ctx_assign(s, i, j)
    ||| ctx_decl(s, i, j)
    ||| ctx_read(s, i, j)
    ||| ctx_printf(s, i, j)
    ||| ctx_for(s, i, j)
    ||| ctx_array_write(s, i, j)
    ||| ctx_array_read(s, i, j)
    ||| ctx_unset(s, i, j)
    ||| ctx_pre_incr(s, i, j)
    ||| ctx_post_incr(s, i, j)
    ||| ctx_param_mod(s, i, j)
    ||| ctx_bare_subscript(s, i, j)
    ||| ctx_brace_arith(s, i, j)
    ||| ctx_substr_head(s, i, j)
    ||| ctx_substr_tail(s, i, j)
    ||| ctx_dollar(s, i, j)
    ||| ctx_brace_ref(s, i, j)
    ||| ctx_arith(s, i, j)
}

/// The variable occurs at `i` with boundaries and a context, outside
/// every single-quoted literal: whatever the context, a name inside a
/// balanced single-quoted span is never renamed.  Double-quoted text is
/// renamed as usual.
pub open spec fn ren_match(s: Seq<char>, v: Seq<char>, i: int) -> bool {
    &&& 0 <= i && i + v.len() <= s.len()
    &&& s.subrange(i, i + v.len() as int) == v
    &&& !naive_state_at(s, i).0
    &&& boundary_ok(s, i, i + v.len() as int)
    &&& ctx_any(s, i, i + v.len() as int)
}


// -- Executable context checks ----------------------------------------------------

/// Single-quote state (naive scan) at index `i`.
fn naive_single_at(v: &Vec<char>, i: usize) -> (r: bool)
    requires
        i <= v@.len(),
    ensures
        r == naive_state_at(v@, i as int).0,
{
    let mut in_s = false;
    let mut in_d = false;
    let mut k: usize = 0;
    while k < i
        invariant
            k <= i <= v@.len(),
            (in_s, in_d) == naive_state_at(v@, k as int),
        decreases i - k,
    {
        let c = v[k];
        if c == '\'' && !in_d {
            in_s = !in_s;
        } else if c == '"' && !in_s {
            in_d = !in_d;
        }
        k += 1;
    }
    in_s
}

/// Executable mirror of `no_semi`.
fn no_semi_exec(v: &Vec<char>, k: usize, i: usize) -> (r: bool)
    requires
        i <= v@.len(),
    ensures
        r == no_semi(v@, k as int, i as int),
    decreases if i >= k { i - k } else { 0 },
{
    if k >= i || k >= v.len() {
        return true;
    }
    if v[k] == ';' {
        return false;
    }
    no_semi_exec(v, k + 1, i)
}

/// Executable mirror of `decl_kw_search`.
fn decl_kw_search_exec(v: &Vec<char>, k: usize, i: usize) -> (r: bool)
    requires
        i <= v@.len(),
    ensures
        r == decl_kw_search(v@, k as int, i as int),
    decreases if i >= k { i - k } else { 0 },
{
    proof {
        reveal_strlit("local");
        reveal_strlit("declare");
    }
    if k >= i {
        return false;
    }
    let n = v.len();
    if v[k] == ';' {
        return false;
    }
    let local_kw = str_to_chars("local");
    let declare_kw = str_to_chars("declare");
    let is_local = matches_at(v, k, &local_kw) && n - k > 5 && space_char(v[k + 5]);
    let is_declare = matches_at(v, k, &declare_kw) && n - k > 7 && space_char(v[k + 7]);
    if is_local || is_declare {
        return no_semi_exec(v, k, i);
    }
    decl_kw_search_exec(v, k + 1, i)
}

/// Executable mirror of `read_kw_search`.
fn read_kw_search_exec(v: &Vec<char>, k: usize, i: usize) -> (r: bool)
    requires
        i <= v@.len(),
    ensures
        r == read_kw_search(v@, k as int, i as int),
    decreases if i >= k { i - k } else { 0 },
{
    proof {
        reveal_strlit("read");
    }
    if k > i || i - k < 5 {
        return false;
    }
    let n = v.len();
    let kw = str_to_chars("read");
    if matches_at(v, k, &kw) && n - k > 4 && space_char(v[k + 4]) {
        return true;
    }
    read_kw_search_exec(v, k + 1, i)
}

/// Executable mirror of `has_close_eq_o`.
fn has_close_eq_o_exec(v: &Vec<char>, from: usize) -> (r: bool)
    requires
        from <= v@.len(),
    ensures
        r == has_close_eq_o(v@, from as int),
    decreases v@.len() - from,
{
    let n = v.len();
    if n - from <= 1 {
        return false;
    }
    if v[from] == ']' && v[from + 1] == '=' {
        return true;
    }
    has_close_eq_o_exec(v, from + 1)
}

/// Executable mirror of `back_space_run`.
fn back_space_run_exec(v: &Vec<char>, p: usize) -> (r: usize)
    requires
        p <= v@.len(),
    ensures
        r == back_space_run(v@, p as int),
        r <= p,
    decreases p,
{
    if p == 0 || !space_char(v[p - 1]) {
        return 0;
    }
    1 + back_space_run_exec(v, p - 1)
}

/// Executable mirror of `brace_open_back`; `q` may be one past a valid index.
fn brace_open_back_exec(v: &Vec<char>, q: usize, oob: bool) -> (r: Option<usize>)
    requires
        q <= v@.len(),
    ensures
        ({
            let qi = if oob { -1 } else { q as int };
            match r {
                Some(p) => brace_open_back(v@, qi) == Some(p as int) && p < v@.len(),
                None => brace_open_back(v@, qi) is None,
            }
        }),
    decreases q + 1,
{
    if oob || q >= v.len() {
        return None;
    }
    if v[q] == '}' {
        return None;
    }
    if v[q] == '{' && q >= 1 && v[q - 1] == '$' {
        return Some(q - 1);
    }
    if q == 0 {
        proof {
            assert(brace_open_back(v@, -1) is None);
        }
        return None;
    }
    brace_open_back_exec(v, q - 1, false)
}

/// Executable mirror of `has_brace_close`.
fn has_brace_close_exec(v: &Vec<char>, from: usize) -> (r: bool)
    requires
        from <= v@.len(),
    ensures
        r == has_brace_close(v@, from as int),
    decreases v@.len() - from,
{
    let n = v.len();
    if from >= n {
        return false;
    }
    if v[from] == '}' {
        return true;
    }
    has_brace_close_exec(v, from + 1)
}

/// Executable mirror of `first_colon`.
fn first_colon_exec(v: &Vec<char>, k: usize) -> (r: Option<usize>)
    requires
        k <= v@.len(),
    ensures
        match r {
            Some(c) => first_colon(v@, k as int) == Some(c as int) && c < v@.len(),
            None => first_colon(v@, k as int) is None,
        },
    decreases v@.len() - k,
{
    let n = v.len();
    if k >= n {
        return None;
    }
    if v[k] == ':' {
        return Some(k);
    }
    first_colon_exec(v, k + 1)
}

/// Executable mirror of `arith_open_back`; `q` may be one past a valid index.
fn arith_open_back_exec(v: &Vec<char>, q: usize, oob: bool) -> (r: bool)
    requires
        q <= v@.len(),
    ensures
        r == arith_open_back(v@, if oob { -1 } else { q as int }),
    decreases q + 1,
{
    if oob || q >= v.len() {
        return false;
    }
    if v[q] == ')' {
        return false;
    }
    if v[q] == '(' && q >= 1 && v[q - 1] == '(' {
        return true;
    }
    if q == 0 {
        proof {
            assert(!arith_open_back(v@, -1));
        }
        return false;
    }
    arith_open_back_exec(v, q - 1, false)
}

/// Executable arithmetic-edge test.
fn arith_edge(c: char) -> (r: bool)
    ensures
        r == is_arith_edge(c),
{
    c == '=' || c == '+' || c == '-' || c == ';' || c == '<' || c == '>' || c == '['
        || space_char(c)
}

/// Executable head check for `printf -v` / `mapfile -t`.
fn kw_dash_head_exec(v: &Vec<char>, i: usize, kw: &Vec<char>, flag: char) -> (r: bool)
    requires
        i <= v@.len(),
    ensures
        r == kw_dash_head(v@, i as int, kw@, flag),
{
    let n = v.len();
    let p = kw.len();
    if !matches_at(v, 0, kw) {
        return false;
    }
    let sp1 = space_run_at(v, if p <= n { p } else { n });
    proof {
        if p > v@.len() {
            assert(run_len(v@, p as int, |c: char| is_space_char(c)) == 0);
        }
    }
    if sp1 < 1 {
        return false;
    }
    let q = p + sp1;
    if !(q < n && n - q > 1 && v[q] == '-' && v[q + 1] == flag) {
        return false;
    }
    let sp2 = space_run_at(v, q + 2);
    if sp2 < 1 {
        return false;
    }
    i == q + 2 + sp2
}

/// Executable disjunction of every context.
#[verifier::rlimit(60)]
#[verifier::spinoff_prover]
fn ctx_any_exec(v: &Vec<char>, i: usize, j: usize) -> (r: bool)
    requires
        i <= j <= v@.len(),
    ensures
        r == ctx_any(v@, i as int, j as int),
{
    proof {
        reveal_strlit("for");
        reveal_strlit("((");
        reveal_strlit("unset");
        reveal_strlit("printf");
        reveal_strlit("mapfile");
        lemma_leading_blanks(v@);
    }
    let n = v.len();
    // assignment
    if j < n && v[j] == '=' {
        return true;
    }
    if n - j > 1 && (v[j] == '+' || v[j] == '-') && v[j + 1] == '=' && !naive_single_at(v, i) {
        return true;
    }
    // declaration
    if i > 0 && space_char(v[i - 1]) && (j == n || v[j] == '=' || space_char(v[j])) {
        if decl_kw_search_exec(v, 0, i) {
            return true;
        }
    }
    // read
    if j < n && (v[j] == ' ' || v[j] == ';' || v[j] == '}' || v[j] == '\'' || v[j] == '"'
        || v[j] == '\n') {
        if read_kw_search_exec(v, 0, i) {
            return true;
        }
    }
    // printf -v / mapfile -t
    let printf_kw = str_to_chars("printf");
    let mapfile_kw = str_to_chars("mapfile");
    if kw_dash_head_exec(v, i, &printf_kw, 'v') {
        return true;
    }
    if kw_dash_head_exec(v, i, &mapfile_kw, 't') {
        return true;
    }
    // for
    let a = count_leading_blanks(v);
    let for_kw = str_to_chars("for");
    if matches_at(v, a, &for_kw) {
        let sp = space_run_at(v, if n - a >= 3 { a + 3 } else { n });
        proof {
            if a + 3 > v@.len() {
                assert(run_len(v@, a + 3, |c: char| is_space_char(c)) == 0);
            }
        }
        if sp >= 1 && i == a + 3 + sp {
            return true;
        }
    }
    // array write
    if j < n && v[j] == '[' {
        if n - j >= 2 {
            if has_close_eq_o_exec(v, j + 2) {
                return true;
            }
        } else {
            proof {
                assert(!has_close_eq_o(v@, j + 2));
            }
        }
    }
    // array read
    if i >= 2 && v[i - 2] == '$' && v[i - 1] == '{' && j < n && v[j] == '[' {
        return true;
    }
    // unset
    if i >= 1 && (v[i - 1] == '\'' || v[i - 1] == '"') && j < n && v[j] == '[' {
        let bs = back_space_run_exec(v, i - 1);
        if bs >= 1 && i - 1 - bs >= 5 {
            let unset_kw = str_to_chars("unset");
            if matches_at(v, i - 1 - bs - 5, &unset_kw) {
                return true;
            }
        }
    }
    // (( ++name  /  (( name++
    let open_kw = str_to_chars("((");
    if matches_at(v, a, &open_kw) {
        let sp = space_run_at(v, if n - a >= 2 { a + 2 } else { n });
        proof {
            if a + 2 > v@.len() {
                assert(run_len(v@, a + 2, |c: char| is_space_char(c)) == 0);
            }
        }
        let p = a + 2 + sp;
        if p < n && n - p > 1 && (v[p] == '+' || v[p] == '-') && (v[p + 1] == '+' || v[p + 1]
            == '-') && i == p + 2 {
            return true;
        }
        if i == p && n - j > 1 && (v[j] == '+' || v[j] == '-') && (v[j + 1] == '+' || v[j + 1]
            == '-') {
            return true;
        }
    }
    // parameter-expansion modifier
    if i > 0 && (v[i - 1] == ':' || v[i - 1] == '+' || v[i - 1] == '-' || v[i - 1] == ' ') && j < n
        && (v[j] == ':' || v[j] == '}' || v[j] == '+') {
        return true;
    }
    // bare array subscript
    if i >= 2 && v[i - 1] == '[' && word_char(v[i - 2]) && j < n && (v[j] == ']' || v[j] == '+'
        || v[j] == '-') {
        return true;
    }
    // ${arr[name+1]} arithmetic
    if i > 0 && (v[i - 1] == '[' || v[i - 1] == '+' || v[i - 1] == '-') && j < n && (v[j] == ']'
        || v[j] == '+' || v[j] == '-') {
        let bo = if i >= 2 {
            brace_open_back_exec(v, i - 2, false)
        } else {
            brace_open_back_exec(v, 0, true)
        };
        if let Some(p) = bo {
            if i >= 3 && p <= i - 3 && has_brace_close_exec(v, j + 1) {
                return true;
            }
        }
    }
    // ${str:name…}
    if i > 0 && v[i - 1] == ':' {
        let bo = if i >= 2 {
            brace_open_back_exec(v, i - 2, false)
        } else {
            brace_open_back_exec(v, 0, true)
        };
        if let Some(p) = bo {
            if i >= 3 && p <= i - 3 {
                if let Some(c) = first_colon_exec(v, p + 2) {
                    if c == i - 1 && has_brace_close_exec(v, j) {
                        return true;
                    }
                }
            }
        }
    }
    // ${str:X…name…}
    {
        let bo = if i >= 1 {
            brace_open_back_exec(v, i - 1, false)
        } else {
            brace_open_back_exec(v, 0, true)
        };
        if let Some(p) = bo {
            if i >= 3 && p <= i - 3 {
                if let Some(c) = first_colon_exec(v, p + 2) {
                    if i >= 2 && c <= i - 2 && c + 1 < n && word_char(v[c + 1])
                        && has_brace_close_exec(v, j) {
                        return true;
                    }
                }
            }
        }
    }
    // $name
    if i >= 1 && v[i - 1] == '$' && j < n && !word_char(v[j]) && !naive_single_at(v, i) {
        return true;
    }
    // ${name  ${!name  ${#name
    if j < n && !word_char(v[j]) && !naive_single_at(v, i) {
        if (i >= 2 && v[i - 2] == '$' && v[i - 1] == '{') || (i >= 3 && v[i - 3] == '$' && v[i - 2]
            == '{' && (v[i - 1] == '!' || v[i - 1] == '#')) {
            return true;
        }
    }
    // arithmetic (( … ))
    if i > 0 && arith_edge(v[i - 1]) && j < n && (arith_edge(v[j]) || v[j] == ')' || v[j] == ']') {
        if arith_open_back_exec(v, i - 1, false) {
            return true;
        }
    }
    false
}

/// Executable boundary check.
fn boundary_exec(v: &Vec<char>, i: usize, j: usize) -> (r: bool)
    requires
        i <= j <= v@.len(),
    ensures
        r == boundary_ok(v@, i as int, j as int),
{
    let n = v.len();
    (i == 0 || !word_char(v[i - 1])) && (j == n || !word_char(v[j]))
}

/// Executable occurrence-with-context check.
fn ren_match_exec(v: &Vec<char>, var: &Vec<char>, i: usize) -> (r: bool)
    requires
        i <= v@.len(),
    ensures
        r == ren_match(v@, var@, i as int),
{
    let n = v.len();
    let wn = var.len();
    if n - i < wn {
        return false;
    }
    if !matches_at(v, i, var) {
        return false;
    }
    if naive_single_at(v, i) {
        return false;
    }
    if !boundary_exec(v, i, i + wn) {
        return false;
    }
    ctx_any_exec(v, i, i + wn)
}


// -- The renaming pass -------------------------------------------------------------

/// First renaming position at or after `k`.
pub open spec fn find_ren(s: Seq<char>, v: Seq<char>, k: int) -> Option<int>
    decreases s.len() - k,
{
    if k < 0 || v.len() < 1 || k + v.len() > s.len() {
        None
    } else if ren_match(s, v, k) {
        Some(k)
    } else {
        find_ren(s, v, k + 1)
    }
}

/// One whole pass for a single variable: replace every occurrence found
/// left to right, never rescanning inside a replacement.
pub open spec fn pass_var(s: Seq<char>, v: Seq<char>, rep: Seq<char>, k: int) -> Seq<char>
    decreases s.len() - k,
{
    if v.len() < 1 {
        s
    } else {
        match find_ren(s, v, k) {
            Some(i) => if k <= i && i + v.len() <= s.len() {
                pass_var(
                    s.subrange(0, i) + rep + s.subrange(i + v.len() as int, s.len() as int),
                    v,
                    rep,
                    i + rep.len() as int,
                )
            } else {
                s
            },
            None => s,
        }
    }
}

/// Executable search for the next renaming position.
fn find_ren_exec(line: &Vec<char>, var: &Vec<char>, k: usize) -> (r: Option<usize>)
    requires
        k <= line@.len(),
    ensures
        match r {
            Some(i) => find_ren(line@, var@, k as int) == Some(i as int) && k <= i && i
                + var@.len() <= line@.len(),
            None => find_ren(line@, var@, k as int) is None,
        },
    decreases line@.len() - k,
{
    let n = line.len();
    if var.len() < 1 || k > n || n - k < var.len() {
        return None;
    }
    if ren_match_exec(line, var, k) {
        return Some(k);
    }
    find_ren_exec(line, var, k + 1)
}

/// Executable renaming pass for one variable.
fn pass_var_exec(line: Vec<char>, var: &Vec<char>, rep: &Vec<char>, k: usize) -> (r: Vec<char>)
    requires
        k <= line@.len(),
    ensures
        r@ == pass_var(line@, var@, rep@, k as int),
    decreases line@.len() - k,
{
    if var.len() < 1 {
        return line;
    }
    let n = line.len();
    match find_ren_exec(&line, var, k) {
        Some(i) => {
            let mut next = subrange_chars(&line, 0, i);
            extend_chars(&mut next, rep);
            let tail = subrange_chars(&line, i + var.len(), n);
            extend_chars(&mut next, &tail);
            proof {
                assert(next@ =~= line@.subrange(0, i as int) + rep@ + line@.subrange(
                    i + var@.len() as int,
                    line@.len() as int,
                ));
            }
            let resume = if rep.len() <= next.len() - i {
                i + rep.len()
            } else {
                next.len()
            };
            proof {
                if i + rep@.len() > next@.len() {
                    // resuming past the end finds nothing either way
                    assert(find_ren(next@, var@, i + rep@.len() as int) is None);
                    assert(find_ren(next@, var@, next@.len() as int) is None) by {
                        lemma_find_none_at_end(next@, var@);
                    }
                    assert(pass_var(next@, var@, rep@, i + rep@.len() as int) == next@);
                    assert(pass_var(next@, var@, rep@, next@.len() as int) == next@);
                }
            }
            pass_var_exec(next, var, rep, resume)
        },
        None => line,
    }
}

/// Searching from the very end finds nothing (for a non-empty variable).
proof fn lemma_find_none_at_end(s: Seq<char>, v: Seq<char>)
    requires
        v.len() >= 1,
    ensures
        find_ren(s, v, s.len() as int) is None,
{
}

/// A pass over a variable list: longest first, each fully renamed before
/// the next variable runs.
pub open spec fn fold_vars(
    s: Seq<char>,
    vars: Seq<Seq<char>>,
    reps: Seq<Seq<char>>,
    idx: int,
) -> Seq<char>
    decreases vars.len() - idx,
{
    if idx < 0 || idx >= vars.len() || vars.len() != reps.len() {
        s
    } else {
        fold_vars(pass_var(s, vars[idx], reps[idx], 0), vars, reps, idx + 1)
    }
}

/// What obfuscation does to one line: a newline sentinel is appended so
/// end-of-line contexts match, every variable pass runs, and the sentinel
/// is removed again.
pub open spec fn spec_obfuscate_line(
    s: Seq<char>,
    vars: Seq<Seq<char>>,
    reps: Seq<Seq<char>>,
) -> Seq<char> {
    let t = fold_vars(s + seq!['\n'], vars, reps, 0);
    if t.len() > 0 && t[t.len() - 1] == '\n' {
        t.drop_last()
    } else {
        t
    }
}

// -- Rename map and obfuscator ------------------------------------------------------

/// The decimal digits of `n`.
pub open spec fn dec_digits(n: int) -> Seq<char>
    decreases n,
{
    if n < 0 {
        Seq::empty()
    } else if n < 10 {
        seq![digit_char(n)]
    } else {
        dec_digits(n / 10) + seq![digit_char(n % 10)]
    }
}

/// One decimal digit as a character.
pub open spec fn digit_char(d: int) -> char {
    if d == 0 { '0' }
    else if d == 1 { '1' }
    else if d == 2 { '2' }
    else if d == 3 { '3' }
    else if d == 4 { '4' }
    else if d == 5 { '5' }
    else if d == 6 { '6' }
    else if d == 7 { '7' }
    else if d == 8 { '8' }
    else if d == 9 { '9' }
    else { '?' }
}

/// Executable decimal rendering.
pub fn usize_to_decimal(n: usize) -> (r: Vec<char>)
    ensures
        r@ == dec_digits(n as int),
    decreases n,
{
    let d = n % 10;
    let c: char = if d == 0 { '0' }
    else if d == 1 { '1' }
    else if d == 2 { '2' }
    else if d == 3 { '3' }
    else if d == 4 { '4' }
    else if d == 5 { '5' }
    else if d == 6 { '6' }
    else if d == 7 { '7' }
    else if d == 8 { '8' }
    else { '9' };
    if n < 10 {
        let mut r: Vec<char> = Vec::new();
        r.push(c);
        proof {
            assert(r@ =~= dec_digits(n as int));
        }
        return r;
    }
    let mut r = usize_to_decimal(n / 10);
    r.push(c);
    proof {
        assert(r@ =~= dec_digits(n as int));
    }
    r
}

/// The generated names: `prefix` followed by the position, in list order.
pub open spec fn spec_rename_map(vars: Seq<Seq<char>>, prefix: Seq<char>) -> Seq<
    (Seq<char>, Seq<char>),
> {
    Seq::new(vars.len(), |i: int| (vars[i], prefix + dec_digits(i)))
}

/// Pair views of a rename map.
pub open spec fn pairs_view(m: Seq<(String, String)>) -> Seq<(Seq<char>, Seq<char>)> {
    Seq::new(m.len(), |i: int| (m[i].0@, m[i].1@))
}

/// Build the variable rename map: the name at position `i` maps to
/// `prefix` followed by `i`.
pub fn build_rename_map(sorted_vars: &Vec<String>, prefix: &str) -> (r: Vec<(String, String)>)
    ensures
        pairs_view(r@) == spec_rename_map(strings_view(sorted_vars@), prefix@),
{
    let n = sorted_vars.len();
    let mut out: Vec<(String, String)> = Vec::new();
    let mut i: usize = 0;
    while i < n
        invariant
            n == sorted_vars@.len(),
            i <= n,
            pairs_view(out@) =~= spec_rename_map(strings_view(sorted_vars@), prefix@).subrange(
                0,
                i as int,
            ),
        decreases n - i,
    {
        let ghost before = out@;
        let mut name = crate::text::str_to_chars(prefix);
        let digits = usize_to_decimal(i);
        extend_chars(&mut name, &digits);
        let entry = (sorted_vars[i].clone(), chars_to_string(&name));
        out.push(entry);
        proof {
            assert(pairs_view(out@) =~= pairs_view(before).push(
                (sorted_vars@[i as int]@, prefix@ + dec_digits(i as int)),
            ));
            assert(spec_rename_map(strings_view(sorted_vars@), prefix@).subrange(0, i + 1)
                =~= spec_rename_map(strings_view(sorted_vars@), prefix@).subrange(0, i as int).push(
                spec_rename_map(strings_view(sorted_vars@), prefix@)[i as int],
            ));
        }
        i += 1;
    }
    proof {
        assert(spec_rename_map(strings_view(sorted_vars@), prefix@).subrange(0, n as int)
            =~= spec_rename_map(strings_view(sorted_vars@), prefix@));
    }
    out
}

/// The replacement a rename map gives a variable (the variable itself when
/// no entry names it).
pub open spec fn lookup_rep(m: Seq<(Seq<char>, Seq<char>)>, var: Seq<char>) -> Seq<char>
    decreases m.len(),
{
    if m.len() == 0 {
        var
    } else if m[0].0 == var {
        m[0].1
    } else {
        lookup_rep(m.subrange(1, m.len() as int), var)
    }
}

/// Pre-compiled renaming state: the variables in order, and the
/// replacement each one maps to.
pub struct Obfuscator {
    vars: Vec<Vec<char>>,
    reps: Vec<Vec<char>>,
}

impl Obfuscator {
    /// The variable views, in processing order.
    pub closed spec fn vars_view(&self) -> Seq<Seq<char>> {
        vecs_view(self.vars@)
    }

    /// The replacement views, position for position.
    pub closed spec fn reps_view(&self) -> Seq<Seq<char>> {
        vecs_view(self.reps@)
    }

    /// The obfuscator is consistent with a variable list and rename map.
    pub open spec fn wf_for(&self, vars: Seq<Seq<char>>, m: Seq<(Seq<char>, Seq<char>)>) -> bool {
        &&& self.vars_view() == vars
        &&& self.reps_view().len() == vars.len()
        &&& forall|i: int| 0 <= i < vars.len() ==> self.reps_view()[i] == lookup_rep(m, vars[i])
    }

    /// Pre-compile the renaming state for all variables.
    pub fn new(sorted_vars: &Vec<String>, rename: &Vec<(String, String)>) -> (r: Obfuscator)
        ensures
            r.wf_for(strings_view(sorted_vars@), pairs_view(rename@)),
    {
        let n = sorted_vars.len();
        let mut vars: Vec<Vec<char>> = Vec::new();
        let mut reps: Vec<Vec<char>> = Vec::new();
        let mut i: usize = 0;
        while i < n
            invariant
                n == sorted_vars@.len(),
                i <= n,
                vecs_view(vars@) =~= strings_view(sorted_vars@).subrange(0, i as int),
                vecs_view(reps@).len() == i,
                forall|m: int| 0 <= m < i ==> vecs_view(reps@)[m] == lookup_rep(
                    pairs_view(rename@),
                    strings_view(sorted_vars@)[m],
                ),
            decreases n - i,
        {
            let ghost vb = vars@;
            let ghost rb = reps@;
            let var = crate::text::str_to_chars(sorted_vars[i].as_str());
            let rep = lookup_rep_exec(rename, &var);
            vars.push(var);
            reps.push(rep);
            proof {
                assert(vecs_view(vars@) =~= vecs_view(vb).push(sorted_vars@[i as int]@));
                assert(strings_view(sorted_vars@).subrange(0, i + 1) =~= strings_view(
                    sorted_vars@,
                ).subrange(0, i as int).push(strings_view(sorted_vars@)[i as int]));
                assert(vecs_view(reps@) =~= vecs_view(rb).push(
                    lookup_rep(pairs_view(rename@), strings_view(sorted_vars@)[i as int]),
                ));
            }
            i += 1;
        }
        proof {
            assert(strings_view(sorted_vars@).subrange(0, n as int) =~= strings_view(
                sorted_vars@,
            ));
        }
        Obfuscator { vars, reps }
    }

    /// Obfuscate a single line.
    pub fn obfuscate_line(&self, line: &str) -> (r: String)
        ensures
            r@ == spec_obfuscate_line(line@, self.vars_view(), self.reps_view()),
    {
        let mut work = crate::text::str_to_chars(line);
        work.push('\n');
        proof {
            assert(work@ =~= line@ + seq!['\n']);
        }
        let n = self.vars.len();
        let mut idx: usize = 0;
        if self.reps.len() != n {
            // unreachable by construction; the fold leaves the line as it is
            proof {
                assert(fold_vars(work@, self.vars_view(), self.reps_view(), 0) == work@);
            }
            let mut out = work;
            if out.len() > 0 && out[out.len() - 1] == '\n' {
                out.pop();
            }
            return chars_to_string(&out);
        }
        while idx < n
            invariant
                n == self.vars@.len(),
                n == self.reps@.len(),
                idx <= n,
                fold_vars(work@, self.vars_view(), self.reps_view(), idx as int) == fold_vars(
                    line@ + seq!['\n'],
                    self.vars_view(),
                    self.reps_view(),
                    0,
                ),
            decreases n - idx,
        {
            let var = self.vars[idx].clone();
            let rep = self.reps[idx].clone();
            proof {
                assert(var@ == self.vars_view()[idx as int]);
                assert(rep@ == self.reps_view()[idx as int]);
            }
            work = pass_var_exec(work, &var, &rep, 0);
            idx += 1;
        }
        let mut out = work;
        if out.len() > 0 && out[out.len() - 1] == '\n' {
            out.pop();
        }
        chars_to_string(&out)
    }

    /// Obfuscate all lines.
    pub fn obfuscate_lines(&self, lines: &Vec<String>) -> (r: Vec<String>)
        ensures
            r@.len() == lines@.len(),
            forall|i: int| 0 <= i < lines@.len() ==> r@[i]@ == spec_obfuscate_line(
                lines@[i]@,
                self.vars_view(),
                self.reps_view(),
            ),
    {
        let n = lines.len();
        let mut out: Vec<String> = Vec::new();
        let mut i: usize = 0;
        while i < n
            invariant
                n == lines@.len(),
                i <= n,
                out@.len() == i,
                forall|m: int| 0 <= m < i ==> out@[m]@ == spec_obfuscate_line(
                    lines@[m]@,
                    self.vars_view(),
                    self.reps_view(),
                ),
            decreases n - i,
        {
            let s = self.obfuscate_line(lines[i].as_str());
            out.push(s);
            i += 1;
        }
        out
    }
}

/// Executable lookup in the rename map.
fn lookup_rep_exec(rename: &Vec<(String, String)>, var: &Vec<char>) -> (r: Vec<char>)
    ensures
        r@ == lookup_rep(pairs_view(rename@), var@),
{
    let n = rename.len();
    let mut i: usize = 0;
    proof {
        assert(pairs_view(rename@).subrange(0, n as int) =~= pairs_view(rename@));
    }
    while i < n
        invariant
            n == rename@.len(),
            i <= n,
            lookup_rep(pairs_view(rename@), var@) == lookup_rep(
                pairs_view(rename@).subrange(i as int, n as int),
                var@,
            ),
        decreases n - i,
    {
        let ghost rest = pairs_view(rename@).subrange(i as int, n as int);
        proof {
            assert(rest[0] == (rename@[i as int].0@, rename@[i as int].1@));
            assert(rest.subrange(1, rest.len() as int) =~= pairs_view(rename@).subrange(
                i + 1,
                n as int,
            ));
        }
        let key = crate::text::str_to_chars(rename[i].0.as_str());
        let mut eq = key.len() == var.len();
        if eq {
            eq = matches_at(&key, 0, var);
            proof {
                assert(key@.subrange(0, var@.len() as int) =~= key@);
                if eq {
                    assert(key@ == var@);
                } else {
                    assert(key@ != var@);
                }
            }
        } else {
            proof {
                assert(key@ != var@);
            }
        }
        if eq {
            return crate::text::str_to_chars(rename[i].1.as_str());
        }
        i += 1;
    }
    proof {
        assert(pairs_view(rename@).subrange(n as int, n as int).len() == 0);
    }
    let mut copy: Vec<char> = Vec::new();
    extend_chars(&mut copy, var);
    proof {
        assert(copy@ =~= var@);
    }
    copy
}


// -- Quote and boundary laws -----------------------------------------------------------

/// Every renaming site carries an identifier boundary on both sides and
/// stands outside single-quoted literals: renaming one variable can
/// never alter an occurrence of a name it sits inside, nor a
/// single-quoted span.
pub proof fn lemma_ren_match_guards(s: Seq<char>, v: Seq<char>, i: int)
    ensures
        ren_match(s, v, i) ==> boundary_ok(s, i, i + v.len() as int) && !naive_state_at(s, i).0,
{
}

/// No renaming position exists when every occurrence of the variable
/// stands inside a single-quoted literal.
proof fn lemma_find_ren_none_quoted(s: Seq<char>, v: Seq<char>, k: int)
    requires
        0 <= k,
        forall|i: int|
            0 <= i && i + v.len() <= s.len() && #[trigger] s.subrange(i, i + v.len() as int) == v
                ==> naive_state_at(s, i).0,
    ensures
        find_ren(s, v, k) is None,
    decreases s.len() - k,
{
    if k < 0 || v.len() < 1 || k + v.len() > s.len() {
    } else if ren_match(s, v, k) {
        assert(s.subrange(k, k + v.len() as int) == v);
        assert(naive_state_at(s, k).0);
        assert(false);
    } else {
        lemma_find_ren_none_quoted(s, v, k + 1);
    }
}

/// The quote-literal law: renaming never alters a line in which the
/// variable's name occurs only inside single-quoted literals, whatever
/// replacement it maps to.
pub proof fn lemma_single_quoted_preserved(s: Seq<char>, v: Seq<char>, rep: Seq<char>, k: int)
    requires
        0 <= k,
        forall|i: int|
            0 <= i && i + v.len() <= s.len() && #[trigger] s.subrange(i, i + v.len() as int) == v
                ==> naive_state_at(s, i).0,
    ensures
        pass_var(s, v, rep, k) == s,
{
    if v.len() < 1 {
    } else {
        lemma_find_ren_none_quoted(s, v, k);
    }
}

/// The same law lifted to a whole line pass: a line in which every
/// occurrence of every listed variable lies inside single quotes comes
/// back unchanged.
pub proof fn lemma_single_quoted_line(
    s: Seq<char>,
    vars: Seq<Seq<char>>,
    reps: Seq<Seq<char>>,
    idx: int,
)
    requires
        0 <= idx,
        forall|j: int, i: int|
            0 <= j < vars.len() && 0 <= i && i + vars[j].len() <= s.len() && #[trigger] s.subrange(
                i,
                i + vars[j].len() as int,
            ) == vars[j] ==> naive_state_at(s, i).0,
    ensures
        fold_vars(s, vars, reps, idx) == s,
    decreases vars.len() - idx,
{
    if idx < 0 || idx >= vars.len() || vars.len() != reps.len() {
    } else {
        lemma_single_quoted_preserved(s, vars[idx], reps[idx], 0);
        lemma_single_quoted_line(s, vars, reps, idx + 1);
    }
}


/// No renaming position exists when every occurrence of the variable
/// lacks an identifier boundary.
proof fn lemma_find_ren_none(s: Seq<char>, v: Seq<char>, k: int)
    requires
        0 <= k,
        forall|i: int|
            0 <= i && i + v.len() <= s.len() && #[trigger] s.subrange(i, i + v.len() as int) == v
                ==> !boundary_ok(s, i, i + v.len() as int),
    ensures
        find_ren(s, v, k) is None,
    decreases s.len() - k,
{
    if k < 0 || v.len() < 1 || k + v.len() > s.len() {
    } else if ren_match(s, v, k) {
        assert(s.subrange(k, k + v.len() as int) == v);
        assert(!boundary_ok(s, k, k + v.len() as int));
        assert(false);
    } else {
        lemma_find_ren_none(s, v, k + 1);
    }
}

/// The word-boundary law: renaming a variable never alters a line in
/// which the variable's name appears only inside longer identifiers.
/// Every occurrence of `v` in `s` that touches an identifier character on
/// either side is left alone, so a name such as `path` never changes the
/// text `_path` or `path2`, whatever replacement it maps to.
pub proof fn lemma_word_boundary_preserves(s: Seq<char>, v: Seq<char>, rep: Seq<char>, k: int)
    requires
        0 <= k,
        forall|i: int|
            0 <= i && i + v.len() <= s.len() && #[trigger] s.subrange(i, i + v.len() as int) == v
                ==> !boundary_ok(s, i, i + v.len() as int),
    ensures
        pass_var(s, v, rep, k) == s,
{
    if v.len() < 1 {
    } else {
        lemma_find_ren_none(s, v, k);
    }
}

/// The same law lifted to a whole line pass: a line in which no listed
/// variable ever stands free of surrounding identifier characters comes
/// back unchanged but for the newline sentinel handling.
pub proof fn lemma_word_boundary_line(
    s: Seq<char>,
    vars: Seq<Seq<char>>,
    reps: Seq<Seq<char>>,
    idx: int,
)
    requires
        0 <= idx,
        forall|j: int, i: int|
            0 <= j < vars.len() && 0 <= i && i + vars[j].len() <= s.len() && #[trigger] s.subrange(
                i,
                i + vars[j].len() as int,
            ) == vars[j] ==> !boundary_ok(s, i, i + vars[j].len() as int),
    ensures
        fold_vars(s, vars, reps, idx) == s,
    decreases vars.len() - idx,
{
    if idx < 0 || idx >= vars.len() || vars.len() != reps.len() {
    } else {
        lemma_word_boundary_preserves(s, vars[idx], reps[idx], 0);
        lemma_word_boundary_line(s, vars, reps, idx + 1);
    }
}

} // verus!
