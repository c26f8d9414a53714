//! Regular expressions, compiled once by the `regex` crate and matched
//! against log text.

use vstd::prelude::*;

verus! {

#[verifier::external_type_specification]
#[verifier::external_body]
pub struct ExRegex(regex::Regex);

/// What `regex::Regex::new(pattern)` followed by `captures(haystack)` gives for
/// the named group `group`: `None` when the expression does not match the
/// haystack (or does not compile), `Some(None)` when it matches but the group
/// took no part in the match, and `Some(Some(text))` when the group matched `text`.
pub uninterp spec fn regex_capture(pattern: Seq<char>, haystack: Seq<char>, group: Seq<char>) -> Option<Option<Seq<char>>>;

/// Whether `regex::Regex::new(pattern)` returns `Ok`: the pattern is valid
/// and within the crate's default size limit.
pub uninterp spec fn regex_compiles(pattern: Seq<char>) -> bool;

/// The view of an optional string.
pub open spec fn opt_view(o: Option<String>) -> Option<Seq<char>> {
    match o {
        Some(s) => Some(s@),
        None => None,
    }
}

/// A regular expression together with the text it was compiled from.
#[derive(Debug)]
pub struct Pattern {
    source: String,
    compiled: regex::Regex,
}

impl Pattern {
    /// The text this expression was compiled from.
    pub closed spec fn source(&self) -> Seq<char> {
        self.source@
    }

    /// Compiles `source`; `None` exactly when the `regex` crate refuses it.
    pub fn new(source: &str) -> (r: Option<Pattern>)
        ensures
            r is Some <==> regex_compiles(source@),
            r matches Some(p) ==> p.source() == source@,
    {
        match compile_regex(source) {
            Some(compiled) => Some(Pattern { source: source.to_owned(), compiled }),
            None => None,
        }
    }
}

/// Calls `regex::Regex::new`, turning its error into `None`. The contract
/// claims only that the result is `Some` exactly when `regex_compiles` holds of
/// the source; which patterns compile is left unsaid.
#[verifier::external_body]
fn compile_regex(source: &str) -> (r: Option<regex::Regex>)
    ensures
        r is Some <==> regex_compiles(source@),
{
    regex::Regex::new(source).ok()
}

/// Calls `regex::Regex::captures` on the expression of `pattern` and reads the
/// named groups `groups` with `Captures::name`. The contract claims that the
/// result is `regex_capture` of the pattern's source, the haystack and each
/// group name: `None` exactly when there is no match, otherwise one entry per
/// group. It holds because a `Pattern` is only ever built by `Pattern::new`
/// from its own source.
#[verifier::external_body]
pub(crate) fn capture_groups(pattern: &Pattern, haystack: &str, groups: &Vec<&str>) -> (r: Option<Vec<Option<String>>>)
    ensures
        match r {
            None => forall|i: int|
                0 <= i < groups@.len() ==> regex_capture(pattern.source(), haystack@, #[trigger] groups@[i]@) is None,
            Some(v) => v@.len() == groups@.len() && forall|i: int|
                0 <= i < groups@.len() ==> regex_capture(pattern.source(), haystack@, #[trigger] groups@[i]@) == Some(opt_view(v@[i])),
        },
{
    let caps = pattern.compiled.captures(haystack)?;
    let mut found = Vec::new();
    for group in groups.iter() {
        found.push(match caps.name(group) {
            Some(m) => Some(m.as_str().to_string()),
            None => None,
        });
    }
    Some(found)
}

} // verus!
