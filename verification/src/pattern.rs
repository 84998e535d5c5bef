use vstd::prelude::*;

verus! {

#[verifier::external_type_specification]
#[verifier::external_body]
pub struct ExRegex(regex::Regex);

/// Whether the regex engine accepts a pattern: a function of the
/// pattern text alone.
pub uninterp spec fn regex_ok(pat: Seq<char>) -> bool;

/// What `Regex::is_match` answers for a pattern and a text: a function
/// of the two alone.
pub uninterp spec fn regex_match(pat: Seq<char>, text: Seq<char>) -> bool;

/// A compiled pattern that remembers its source text, so that match
/// results can be spoken of by that text.
pub struct Matcher {
    pattern: String,
    regex: regex::Regex,
}

impl Matcher {
    /// The pattern this matcher was compiled from.
    pub closed spec fn pat(&self) -> Seq<char> {
        self.pattern@
    }

    /// Relies on `regex::Regex::new`: compilation succeeds or fails on
    /// the pattern text alone.
    #[verifier::external_body]
    pub(crate) fn compile(pattern: String) -> (r: Option<Matcher>)
        ensures
            r is Some <==> regex_ok(pattern@),
            match r {
                Some(m) => m.pat() == pattern@,
                None => true,
            },
    {
        match regex::Regex::new(pattern.as_str()) {
            Ok(regex) => Some(Matcher { pattern, regex }),
            Err(_) => None,
        }
    }

    /// Relies on `regex::Regex::is_match`: the answer depends on the
    /// compiled pattern and the text alone.
    #[verifier::external_body]
    pub(crate) fn is_match(&self, text: &str) -> (r: bool)
        ensures
            r == regex_match(self.pat(), text@),
    {
        self.regex.is_match(text)
    }
}

} // verus!
