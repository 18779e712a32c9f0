//! Quote tracking for bash lines.
//!
//! Decides whether a line leaves a single or double quote open at its end,
//! honouring bash escaping rules: a quote character toggles its state only
//! when it is not inside the other quote kind and — outside single quotes —
//! when it is not escaped by an odd run of preceding backslashes.  Inside
//! single quotes a backslash has no escaping power.

use vstd::prelude::*;

verus! {

use crate::text::str_to_chars;

/// Length of the run of consecutive backslashes that ends just before index `i`.
pub open spec fn backslash_run(s: Seq<char>, i: int) -> nat
    decreases i,
{
    if i <= 0 || i > s.len() {
        0
    } else if s[i - 1] == '\\' {
        backslash_run(s, i - 1) + 1
    } else {
        0
    }
}

/// A character at index `i` is escaped when an odd number of backslashes
/// immediately precedes it.
pub open spec fn is_escaped(s: Seq<char>, i: int) -> bool {
    backslash_run(s, i) % 2 == 1
}

/// Quote state after scanning the first `i` characters of a line:
/// `(in_single, in_double)`.
pub open spec fn quote_state_at(s: Seq<char>, i: int) -> (bool, bool)
    decreases i,
{
    if i <= 0 || i > s.len() {
        (false, false)
    } else {
        let st = quote_state_at(s, i - 1);
        let in_single = st.0;
        let in_double = st.1;
        let c = s[i - 1];
        if c == '\'' && !in_double && (in_single || !is_escaped(s, i - 1)) {
            (!in_single, in_double)
        } else if c == '"' && !in_single && !is_escaped(s, i - 1) {
            (in_single, !in_double)
        } else {
            (in_single, in_double)
        }
    }
}

/// Quote state at the end of the line.
pub open spec fn open_quotes(s: Seq<char>) -> (bool, bool) {
    quote_state_at(s, s.len() as int)
}

/// Whether the character at index `i` is escaped, computed executably.
pub fn escaped_at(chars: &Vec<char>, i: usize) -> (r: bool)
    requires
        i < chars@.len(),
    ensures
        r == is_escaped(chars@, i as int),
{
    let mut j: usize = i;
    let mut count: usize = 0;
    while j > 0 && chars[j - 1] == '\\'
        invariant
            j <= i < chars@.len(),
            count == i - j,
            backslash_run(chars@, i as int) == backslash_run(chars@, j as int) + (i - j),
        decreases j,
    {
        j -= 1;
        count += 1;
    }
    proof {
        assert(backslash_run(chars@, j as int) == 0);
    }
    count % 2 == 1
}

/// Stateless quote analysis.
pub struct QuoteTracker;

impl QuoteTracker {
    /// Count unbalanced quotes in a line, respecting escapes and nesting.
    /// Returns `(single_open, double_open)`.
    pub fn line_has_open_quote(line: &str) -> (r: (bool, bool))
        ensures
            r == open_quotes(line@),
    {
        let chars = str_to_chars(line);
        Self::chars_have_open_quote(&chars)
    }

    /// The same scan over an already-split character vector.
    pub fn chars_have_open_quote(chars: &Vec<char>) -> (r: (bool, bool))
        ensures
            r == open_quotes(chars@),
    {
        let n = chars.len();
        let mut in_single = false;
        let mut in_double = false;
        let mut i: usize = 0;
        while i < n
            invariant
                n == chars@.len(),
                i <= n,
                (in_single, in_double) == quote_state_at(chars@, i as int),
            decreases n - i,
        {
            let c = chars[i];
            let esc = if !in_single && (c == '\'' || c == '"') {
                escaped_at(chars, i)
            } else {
                false
            };
            if c == '\'' && !in_double && (in_single || !esc) {
                in_single = !in_single;
            } else if c == '"' && !in_single && !esc {
                in_double = !in_double;
            }
            i += 1;
        }
        (in_single, in_double)
    }
}

} // verus!
