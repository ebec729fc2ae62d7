//! Regular expressions over the bytes of a line.

use vstd::prelude::*;

verus! {

#[verifier::external_type_specification]
#[verifier::external_body]
pub struct ExRegex(regex::bytes::Regex);

/// What `regex::bytes::Regex::new` says of `pattern`: nothing where it compiles, else how its
/// error reads.
pub uninterp spec fn regex_error(pattern: Seq<char>) -> Option<Seq<char>>;

/// Whether the regex that `regex::bytes::Regex::new` makes of `pattern` has a match anywhere in
/// `text`.
pub uninterp spec fn regex_finds(pattern: Seq<char>, text: Seq<u8>) -> bool;

/// A compiled regular expression together with the pattern that it was made of, which is its
/// view. Only `compile` makes one.
pub struct LinePattern {
    regex: regex::bytes::Regex,
    source: String,
}

impl View for LinePattern {
    type V = Seq<char>;

    closed spec fn view(&self) -> Seq<char> {
        self.source@
    }
}

impl LinePattern {
    /// Calls `regex::bytes::Regex::new`. Claimed of it: whether the pattern compiles, and how the
    /// error reads where it does not, depends on the pattern alone.
    #[verifier::external_body]
    pub(crate) fn compile(pattern: &str) -> (r: Result<LinePattern, String>)
        ensures
            match r {
                Ok(p) => p@ == pattern@ && regex_error(pattern@) is None,
                Err(e) => regex_error(pattern@) == Some(e@),
            },
    {
        regex::bytes::Regex::new(pattern)
            .map(|regex| LinePattern { regex, source: pattern.to_string() })
            .map_err(|e| e.to_string())
    }

    /// Calls `regex::bytes::Regex::is_match`. Claimed of it: the answer depends on the pattern
    /// that the regex was compiled from and on the bytes alone.
    #[verifier::external_body]
    pub(crate) fn is_match(&self, text: &[u8]) -> (b: bool)
        ensures
            b == regex_finds(self@, text@),
    {
        self.regex.is_match(text)
    }
}

} // verus!
