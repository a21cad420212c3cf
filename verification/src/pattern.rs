//! The compiled-pattern abstraction over the fancy-regex engine: a pattern is
//! compiled once at parse time and can then be tested against a word without
//! failing. What compiling and matching return is named, never restated: both
//! are functions of the pattern text (and the word) alone.

use vstd::prelude::*;

verus! {

#[verifier::external_type_specification]
#[verifier::external_body]
pub struct ExRegex(fancy_regex::Regex);

#[verifier::external_type_specification]
#[verifier::external_body]
pub struct ExRegexError(fancy_regex::Error);

/// Whether `fancy_regex::Regex::new`, with default options, accepts the
/// pattern text.
pub uninterp spec fn regex_compiles(pattern: Seq<char>) -> bool;

/// Whether the fancy-regex engine, with default options, finds a match for
/// the pattern anywhere in the word; a runtime backtracking overrun counts as
/// no match.
pub uninterp spec fn regex_matches(pattern: Seq<char>, word: Seq<char>) -> bool;

/// A pattern compiled by the fancy-regex engine, kept beside the text it was
/// compiled from; its view is that text.
#[derive(Debug)]
pub struct Pattern {
    regex: fancy_regex::Regex,
    source: String,
}

impl View for Pattern {
    type V = Seq<char>;

    closed spec fn view(&self) -> Seq<char> {
        self.source@
    }
}

impl Pattern {
    /// Relies on fancy_regex::Regex::new: with default options, whether a
    /// pattern text compiles is a function of that text alone.
    #[verifier::external_body]
    pub(crate) fn compile(text: &str) -> (r: Result<Pattern, fancy_regex::Error>)
        ensures
            (r is Ok) == regex_compiles(text@),
            r matches Ok(p) ==> p@ == text@,
    {
        match fancy_regex::Regex::new(text) {
            Ok(regex) => Ok(Pattern { regex, source: text.to_string() }),
            Err(e) => Err(e),
        }
    }

    /// Relies on fancy_regex::Regex::is_match: with default options the
    /// outcome is a function of the pattern text and the word alone; the
    /// engine's runtime error (a backtracking overrun) is taken as no match.
    #[verifier::external_body]
    pub(crate) fn is_match(&self, word: &str) -> (r: bool)
        ensures
            r == regex_matches(self@, word@),
    {
        match self.regex.is_match(word) {
            Ok(m) => m,
            Err(_) => false,
        }
    }
}

} // verus!
