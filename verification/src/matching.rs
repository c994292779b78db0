//! The regular-expression engine, as far as the lexer uses it.
//!
//! Nothing in this module is proved: the functions below call the `regex`
//! crate, and what they promise is taken from its documentation.
use regex::Regex;
use vstd::prelude::*;
use vstd::string::*;

verus! {

/// `regex::Regex`, a compiled expression. Nothing is known of what it holds
/// but through [`regex_source`].
#[verifier::external_type_specification]
#[verifier::external_body]
pub struct ExRegex(regex::Regex);

/// `regex::Error`, the engine's reason for refusing a pattern.
#[verifier::external_type_specification]
#[verifier::external_body]
pub struct ExRegexError(regex::Error);

/// The pattern text that fixes what the expression `re` matches. For an
/// expression that `Regex::new` built, it is the text it was built from.
///
/// This is not `Regex::as_str`: an expression that was built with other
/// settings than those of `Regex::new` matches differently from its text, and
/// nothing is said here of which text stands for it.
pub uninterp spec fn regex_source(re: &Regex) -> Seq<char>;

/// Whether `Regex::new` accepts the text `pattern`.
///
/// The engine refuses a text that is no expression, and one whose compiled
/// form is larger than a fixed limit. It measures that form in bytes, so for a
/// text near the limit the answer is that of the target the crate is built
/// for, as `usize::MAX` is.
pub uninterp spec fn pattern_accepted(pattern: Seq<char>) -> bool;

/// The words in which `Regex::new` refuses the text `pattern`: the `Display`
/// form of the error it returns.
pub uninterp spec fn refusal_words(pattern: Seq<char>) -> Seq<char>;

/// The leftmost match that an expression with the source `pattern` has in the
/// text with the UTF-8 bytes `haystack`: the byte offsets at which it starts
/// and ends, or `None` where the expression matches nowhere in the text.
pub uninterp spec fn pattern_find(pattern: Seq<char>, haystack: Seq<u8>) -> Option<(usize, usize)>;

/// The words in which the engine states the error `cause`.
pub uninterp spec fn error_words(cause: &regex::Error) -> Seq<char>;

/// `Regex::new`: compiles `pattern`, or says why it cannot.
///
/// Assumed: the answer depends on nothing but the text. Whether the text is
/// accepted, and in which words it is refused, are named, not stated. An
/// expression that comes back stands for the text that was handed in.
#[verifier::external_body]
pub(crate) fn compile(pattern: &str) -> (compiled: Result<Regex, regex::Error>)
    ensures
        compiled is Ok <==> pattern_accepted(pattern@),
        compiled matches Ok(re) ==> regex_source(&re) == pattern@,
        compiled matches Err(cause) ==> error_words(&cause) == refusal_words(pattern@),
{
    Regex::new(pattern)
}

/// `Regex::find`: the start and end of the leftmost match of `re` in
/// `haystack`, taken from the `Match` it returns.
///
/// Assumed: the result depends on nothing but the expression's source and the
/// text that is searched.
#[verifier::external_body]
pub(crate) fn find(re: &Regex, haystack: &str) -> (found: Option<(usize, usize)>)
    ensures
        found == pattern_find(regex_source(re), haystack.spec_bytes()),
{
    match re.find(haystack) {
        Some(m) => Some((m.start(), m.end())),
        None => None,
    }
}

/// The `Display` form of a `regex::Error`, as `to_string` gives it.
///
/// Assumed: the text depends on nothing but the error.
#[verifier::external_body]
pub(crate) fn describe(cause: &regex::Error) -> (words: String)
    ensures
        words@ == error_words(cause),
{
    cause.to_string()
}

} // verus!
