//! User-supplied ignore patterns, matched with the `regex` crate.
//!
//! A pattern's compiled form is opaque; what it matches is named by the
//! uninterpreted functions below, so every caller's contract speaks of the
//! pattern text alone.

use vstd::prelude::*;

verus! {

/// Whether `pattern` is a syntactically valid regular expression.
pub uninterp spec fn regex_valid(pattern: Seq<char>) -> bool;

/// Whether `pattern`, as a regular expression, matches somewhere in `text`.
pub uninterp spec fn regex_found(pattern: Seq<char>, text: Seq<char>) -> bool;

/// A compiled ignore pattern together with its source text.
#[verifier::external_body]
pub struct IgnorePattern {
    source: String,
    re: regex::Regex,
}

/// The pattern text an `IgnorePattern` was compiled from.
pub uninterp spec fn pattern_chars(p: &IgnorePattern) -> Seq<char>;

impl IgnorePattern {
    /// Relies on regex::Regex::new: compilation succeeds exactly on valid
    /// patterns, and the compiled value matches as its source text does.
    #[verifier::external_body]
    pub fn compile(pattern: &str) -> (r: Option<IgnorePattern>)
        ensures
            r is Some <==> regex_valid(pattern@),
            r is Some ==> pattern_chars(&r.unwrap()) == pattern@,
    {
        match regex::Regex::new(pattern) {
            Ok(re) => Some(IgnorePattern { source: pattern.to_string(), re }),
            Err(_) => None,
        }
    }

    /// Relies on regex::Regex::is_match: true exactly when the pattern
    /// matches somewhere in `text`; the result depends on the pattern and
    /// the text alone.
    #[verifier::external_body]
    pub fn is_match(&self, text: &str) -> (r: bool)
        ensures
            r == regex_found(pattern_chars(self), text@),
    {
        self.re.is_match(text)
    }
}

} // verus!
