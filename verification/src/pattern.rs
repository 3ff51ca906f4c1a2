//! Regular expressions, through the `regex` crate.  What a pattern matches
//! is left to that crate: the contracts here name its answers.
use vstd::prelude::*;

verus! {

/// The `regex` crate's compiled regular expression.
#[verifier::external_type_specification]
#[verifier::external_body]
pub struct ExRegex(regex::Regex);

/// The `regex` crate's error for a pattern that does not compile.
#[verifier::external_type_specification]
#[verifier::external_body]
pub struct ExRegexError(regex::Error);

/// Whether `regex::Regex::new` accepts `pattern`.
pub uninterp spec fn regex_compiles(pattern: Seq<char>) -> bool;

/// What `regex::Regex::captures_iter` yields for the regular expression
/// compiled from `pattern` on `text`: for each successive non-overlapping
/// match, the text of each capture group in the order of the groups
/// (`None` for a group that took no part in the match).
pub uninterp spec fn regex_captures(pattern: Seq<char>, text: Seq<char>) -> Seq<
    Seq<Option<Seq<char>>>,
>;

/// A regular expression together with the pattern that it was compiled
/// from.  Only `compile` makes one.
pub struct Pattern {
    source: String,
    regex: regex::Regex,
}

impl Pattern {
    /// The pattern that this regular expression was compiled from.
    pub closed spec fn source(&self) -> Seq<char> {
        self.source@
    }
}

/// Compiles `source` with `regex::Regex::new`.  Claimed of it: the result is
/// `Ok` exactly when the crate accepts the pattern, and what is returned
/// holds the regular expression compiled from `source`.
#[verifier::external_body]
pub fn compile(source: String) -> (r: Result<Pattern, regex::Error>)
    ensures
        r is Ok <==> regex_compiles(source@),
        r matches Ok(p) ==> p.source() == source@,
{
    match regex::Regex::new(source.as_str()) {
        Ok(regex) => Ok(Pattern { source, regex }),
        Err(e) => Err(e),
    }
}

/// The capture groups of every match of `pattern` in `text`, from
/// `regex::Regex::captures_iter` and `regex::Captures::iter`.  Claimed of it:
/// the result is what `regex_captures` names for the pattern and the text.
#[verifier::external_body]
pub fn captures_all(pattern: &Pattern, text: &str) -> (r: Vec<Vec<Option<String>>>)
    ensures
        r.deep_view() == regex_captures(pattern.source(), text@),
{
    pattern.regex.captures_iter(text).map(
        |c| c.iter().map(|g| g.map(|m| m.as_str().to_string())).collect(),
    ).collect()
}

} // verus!
