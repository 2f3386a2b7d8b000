//! The choice of the namespaces to generate, by a regular expression of
//! the `regex` crate.

use vstd::prelude::*;

verus! {

#[verifier::external_type_specification]
#[verifier::external_body]
pub struct ExRegex(regex::Regex);

/// Whether the regular expression compiled by `regex::Regex::new` from
/// `pattern` matches somewhere in `haystack`.
pub uninterp spec fn regex_matches(pattern: Seq<char>, haystack: Seq<char>) -> bool;

/// The message `regex::Error` gives for a pattern it refuses.
pub uninterp spec fn regex_error_text(pattern: Seq<char>) -> Seq<char>;

/// Calls `regex::Regex::new`, which compiles the pattern with the default
/// options. On `Err`, the result is the error's message (its `to_string`),
/// which depends on the pattern alone and is named. Which patterns are
/// accepted is not stated: the crate also refuses a pattern whose compiled
/// form passes a size limit, and that size differs between 32-bit and
/// 64-bit machines. Nothing is stated of the compiled value itself.
#[verifier::external_body]
fn compile_regex(pattern: &str) -> (res: Result<regex::Regex, String>)
    ensures
        res matches Err(m) ==> m@ == regex_error_text(pattern@),
{
    match regex::Regex::new(pattern) {
        Ok(r) => Ok(r),
        Err(e) => Err(e.to_string()),
    }
}

/// A pattern the `regex` crate refused, with its message.
#[derive(Debug)]
pub struct FilterError {
    pub message: String,
}

/// The namespaces to generate: those in which the regular expression
/// matches somewhere.
pub struct NamespaceFilter {
    pattern: String,
    regex: regex::Regex,
}

impl NamespaceFilter {
    /// The pattern the filter was compiled from.
    pub closed spec fn pattern(&self) -> Seq<char> {
        self.pattern@
    }

    /// The filter of the regular expression `pattern`, or the error of the
    /// `regex` crate for a pattern it refuses.
    pub fn new(pattern: &str) -> (res: Result<NamespaceFilter, FilterError>)
        ensures
            match res {
                Ok(f) => f.pattern() == pattern@,
                Err(e) => e.message@ == regex_error_text(pattern@),
            },
    {
        match compile_regex(pattern) {
            Ok(regex) => Ok(NamespaceFilter { pattern: pattern.to_string(), regex }),
            Err(message) => Err(FilterError { message }),
        }
    }

    /// Calls `regex::Regex::is_match` on the compiled expression. Every
    /// filter holds the value `regex::Regex::new` compiled from its
    /// pattern (the only way one is made), so the answer is the one that
    /// pattern gives for `text`.
    #[verifier::external_body]
    pub(crate) fn is_match(&self, text: &str) -> (res: bool)
        ensures
            res == regex_matches(self.pattern(), text@),
    {
        self.regex.is_match(text)
    }
}

} // verus!
