//! Regular expressions, compiled by the `regex` crate and kept together with
//! their source pattern.
use vstd::prelude::*;

verus! {

#[verifier::external_type_specification]
#[verifier::external_body]
pub struct ExRegex(regex::Regex);

#[verifier::external_type_specification]
#[verifier::external_body]
pub struct ExRegexError(regex::Error);

/// A compiled regular expression and the pattern it was compiled from.
/// Only `compile_pattern` makes one, so the two always agree.
pub struct Pattern {
    source: String,
    compiled: regex::Regex,
}

impl View for Pattern {
    type V = Seq<char>;

    /// The source pattern.
    closed spec fn view(&self) -> Seq<char> {
        self.source@
    }
}

/// Whether `regex::Regex::new` accepts `pattern`. Named, not defined: it
/// depends on the pattern alone.
pub uninterp spec fn pattern_compiles(pattern: Seq<char>) -> bool;

/// What `regex::Regex::captures` finds when the compiled `pattern` searches
/// `haystack`: `None` without a match, else the text of each capture group
/// in order (group 0 first), `None` for a group that did not take part.
/// Named, not defined: it depends on the two arguments alone.
pub uninterp spec fn regex_captures(pattern: Seq<char>, haystack: Seq<char>) -> Option<
    Seq<Option<Seq<char>>>,
>;

/// The text of the capture groups, as mathematical values.
pub open spec fn groups_view(groups: Seq<Option<String>>) -> Seq<Option<Seq<char>>> {
    Seq::new(groups.len(), |i: int| match groups[i] {
        Some(s) => Some(s@),
        None => None,
    })
}

/// `Option` of capture groups, as mathematical values.
pub open spec fn captures_view(c: Option<Vec<Option<String>>>) -> Option<Seq<Option<Seq<char>>>> {
    match c {
        Some(g) => Some(groups_view(g@)),
        None => None,
    }
}

/// `regex::Regex::new`. Trusted: it succeeds exactly when
/// `pattern_compiles(pattern@)`, and the result keeps `pattern` as its
/// source.
#[verifier::external_body]
pub(crate) fn compile_pattern(pattern: &str) -> (res: Result<Pattern, regex::Error>)
    ensures
        res is Ok <==> pattern_compiles(pattern@),
        res matches Ok(p) ==> p@ == pattern@,
{
    match regex::Regex::new(pattern) {
        Ok(compiled) => Ok(Pattern { source: pattern.to_string(), compiled }),
        Err(e) => Err(e),
    }
}

/// `regex::Regex::captures`, each group's text copied out. Trusted: the
/// result is `regex_captures(p@, haystack@)`.
#[verifier::external_body]
pub(crate) fn captures(p: &Pattern, haystack: &str) -> (res: Option<Vec<Option<String>>>)
    ensures
        captures_view(res) == regex_captures(p@, haystack@),
{
    match p.compiled.captures(haystack) {
        Some(c) => Some(c.iter().map(|m| m.map(|m| m.as_str().to_string())).collect()),
        None => None,
    }
}

} // verus!
