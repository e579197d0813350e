//! Regular expressions, which `regex` compiles and searches with.

use regex::Regex;
use vstd::prelude::*;

verus! {

/// `regex::Regex`: a compiled pattern.
#[verifier::external_type_specification]
#[verifier::external_body]
pub struct ExRegex(regex::Regex);

/// The pattern that a regular expression was compiled from.
pub uninterp spec fn pattern_of(re: Regex) -> Seq<char>;

/// The groups of the first match of `pattern` in `text`, the whole match first,
/// each with the text that it captured, if any; nothing where there is no match.
/// A pattern that does not compile matches nothing.
pub uninterp spec fn captured(pattern: Seq<char>, text: Seq<char>) -> Option<
    Seq<Option<Seq<char>>>,
>;

/// What a list of captured groups holds.
pub open spec fn group_texts(v: Seq<Option<String>>) -> Seq<Option<Seq<char>>> {
    v.map_values(
        |g: Option<String>|
            match g {
                Some(t) => Some(t@),
                None => None::<Seq<char>>,
            },
    )
}

/// `Regex::new`: the compiled pattern, or nothing where it does not compile. The
/// result depends on the pattern alone.
#[verifier::external_body]
pub(crate) fn compile(pattern: &str) -> (r: Option<Regex>)
    ensures
        r matches Some(re) ==> pattern_of(re) == pattern@,
        r is None ==> forall|text: Seq<char>| #[trigger] captured(pattern@, text) is None,
{
    Regex::new(pattern).ok()
}

/// `Regex::captures`: the groups of the leftmost match, each by the text that it
/// captured.
#[verifier::external_body]
pub(crate) fn captures(re: &Regex, text: &str) -> (r: Option<Vec<Option<String>>>)
    ensures
        match r {
            Some(groups) => captured(pattern_of(*re), text@) == Some(group_texts(groups@)),
            None => captured(pattern_of(*re), text@) is None,
        },
{
    let groups = re.captures(text)?;
    Some(groups.iter().map(|g| g.map(|m| m.as_str().to_string())).collect())
}

} // verus!
