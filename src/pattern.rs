//! Compiled regular expressions, held behind the `regex` crate.

use vstd::prelude::*;

verus! {

#[verifier::external_type_specification]
#[verifier::external_body]
pub struct ExRegex(regex::Regex);

#[verifier::external_type_specification]
#[verifier::external_body]
pub struct ExRegexError(regex::Error);

/// Whether `pattern` compiles as a regular expression, with case-insensitive
/// matching switched on or off.
pub uninterp spec fn regex_compiles(pattern: Seq<char>, case_insensitive: bool) -> bool;

/// Whether the regular expression `pattern`, compiled with the given
/// case-insensitivity, matches somewhere within `haystack`.
pub uninterp spec fn regex_finds(pattern: Seq<char>, case_insensitive: bool, haystack: Seq<char>) -> bool;

/// Relies on regex::RegexBuilder (`new`, `case_insensitive`, `build`): the
/// build fails exactly when the pattern is invalid or over the default size
/// limits, which depends on the pattern and the flag alone.
#[verifier::external_body]
fn compile(pattern: &str, case_insensitive: bool) -> (r: Result<regex::Regex, regex::Error>)
    ensures
        r is Ok <==> regex_compiles(pattern@, case_insensitive),
{
    regex::RegexBuilder::new(pattern).case_insensitive(case_insensitive).build()
}

/// A regular expression compiled from `source`. Its fields are private: the
/// only way to make one is `Pattern::new`, so `compiled` is always what
/// `source` and `case_insensitive` compile to.
pub struct Pattern {
    source: String,
    case_insensitive: bool,
    compiled: regex::Regex,
}

impl Pattern {
    /// The text the pattern was compiled from.
    pub closed spec fn source(&self) -> Seq<char> {
        self.source@
    }

    /// Whether the pattern was compiled to ignore case.
    pub closed spec fn ignores_case(&self) -> bool {
        self.case_insensitive
    }

    /// Compiles `source`; `None` exactly when it is no valid regular expression.
    pub fn new(source: &str, case_insensitive: bool) -> (r: Option<Pattern>)
        ensures
            r is Some <==> regex_compiles(source@, case_insensitive),
            r matches Some(p) ==> p.source() == source@ && p.ignores_case() == case_insensitive,
    {
        match compile(source, case_insensitive) {
            Ok(compiled) => Some(Pattern { source: source.to_owned(), case_insensitive, compiled }),
            Err(_) => None,
        }
    }

    /// Whether the pattern matches somewhere within `line`.
    pub fn is_match(&self, line: &str) -> (r: bool)
        ensures
            r == regex_finds(self.source(), self.ignores_case(), line@),
    {
        finds(self, line)
    }
}

/// Relies on regex::Regex::is_match: whether the compiled expression matches
/// anywhere in the haystack. `p.compiled` was built from `p.source` and
/// `p.case_insensitive` (see `Pattern`).
#[verifier::external_body]
fn finds(p: &Pattern, line: &str) -> (r: bool)
    ensures
        r == regex_finds(p.source@, p.case_insensitive, line@),
{
    p.compiled.is_match(line)
}

} // verus!
