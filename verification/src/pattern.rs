//! Command patterns for the `regex` switch, compiled by the `regex` crate.
use vstd::prelude::*;
use regex::Regex;

verus! {

#[verifier::external_type_specification]
#[verifier::external_body]
pub struct ExRegex(Regex);

/// What `regex::Regex::new(pattern)` reports: `None` when `pattern` compiles,
/// otherwise the text of the error it returns.
pub uninterp spec fn regex_compile_error(pattern: Seq<char>) -> Option<Seq<char>>;

/// Whether the expression compiled from `pattern` matches somewhere in `text`
/// (`regex::Regex::is_match`).
pub uninterp spec fn regex_is_match(pattern: Seq<char>, text: Seq<char>) -> bool;

/// A compiled pattern together with the text it was compiled from. Only
/// `compile_pattern` builds one, so `compiled` is always the expression of `source`.
pub struct Pattern {
    source: String,
    compiled: Regex,
}

impl View for Pattern {
    type V = Seq<char>;

    closed spec fn view(&self) -> Seq<char> {
        self.source@
    }
}

/// Compiles `pattern` with `regex::Regex::new`. The contract states that the
/// outcome is the one `regex_compile_error` names for `pattern`, and that a
/// compiled pattern remembers its source; it says nothing of which patterns
/// compile.
#[verifier::external_body]
pub(crate) fn compile_pattern(pattern: &str) -> (r: Result<Pattern, String>)
    ensures
        match r {
            Ok(p) => regex_compile_error(pattern@) is None && p@ == pattern@,
            Err(m) => regex_compile_error(pattern@) == Some(m@),
        },
{
    match Regex::new(pattern) {
        Ok(compiled) => Ok(Pattern { source: pattern.to_string(), compiled }),
        Err(e) => Err(e.to_string()),
    }
}

impl Pattern {
    /// Runs `regex::Regex::is_match` on `text`. The contract states that the
    /// answer is the one `regex_is_match` names for the pattern's source and
    /// `text`; it says nothing of which texts match.
    #[verifier::external_body]
    pub(crate) fn is_match(&self, text: &str) -> (r: bool)
        ensures
            r == regex_is_match(self@, text@),
    {
        self.compiled.is_match(text)
    }
}

} // verus!
