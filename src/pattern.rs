//! Regular expressions, through the `regex` crate.

use vstd::prelude::*;

verus! {

#[verifier::external_type_specification]
#[verifier::external_body]
pub struct ExRegex(regex::Regex);

#[verifier::external_type_specification]
#[verifier::external_body]
pub struct ExRegexError(regex::Error);

/// Whether the `regex` crate accepts `p` as a pattern.
pub uninterp spec fn pattern_compiles(p: Seq<char>) -> bool;

/// Whether the pattern `p` finds a match somewhere in `text`.
pub uninterp spec fn pattern_matches(p: Seq<char>, text: Seq<char>) -> bool;

/// A compiled pattern together with the text it was compiled from. Only
/// `compile_pattern` builds one, so `compiled` is always the compilation of
/// `source`.
pub struct Pattern {
    source: String,
    compiled: regex::Regex,
}

impl Pattern {
    pub closed spec fn source(&self) -> Seq<char> {
        self.source@
    }
}

/// Relies on `regex::Regex::new`: it compiles `p`, or fails, depending on
/// the pattern alone. The compiled form is kept beside its source.
#[verifier::external_body]
pub(crate) fn compile_pattern(p: &String) -> (r: Result<Pattern, regex::Error>)
    ensures
        r is Ok <==> pattern_compiles(p@),
        r matches Ok(pt) ==> pt.source() == p@,
{
    regex::Regex::new(p).map(|re| Pattern { source: p.clone(), compiled: re })
}

/// Relies on `regex::Regex::is_match`: whether the compiled pattern finds a
/// match anywhere in `text`.
#[verifier::external_body]
pub(crate) fn pattern_is_match(pt: &Pattern, text: &str) -> (r: bool)
    ensures
        r == pattern_matches(pt.source(), text@),
{
    pt.compiled.is_match(text)
}

} // verus!
