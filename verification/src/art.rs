//! The album-art filename pattern: a regular expression read from the
//! settings row and matched against bare entry names during a scan.

use vstd::prelude::*;

verus! {

#[verifier::external_type_specification]
#[verifier::external_body]
pub struct ExRegex(regex::Regex);

/// Whether `pattern` is a text that compiles as a regular expression.
/// Compilation succeeds or fails on the pattern text alone.
pub uninterp spec fn regex_compiles(pattern: Seq<char>) -> bool;

/// Whether the regular expression `pattern` matches anywhere inside
/// `text`. The answer depends on the two texts alone.
pub uninterp spec fn regex_matches(pattern: Seq<char>, text: Seq<char>) -> bool;

/// A compiled album-art pattern, kept together with its source text so
/// that contracts can speak of what it matches. `compile` is the only
/// constructor, so the stored expression is always the compiled form of
/// the stored text, which is what `is_match`'s contract relies on.
pub struct ArtPattern {
    regex: regex::Regex,
    pattern: String,
}

impl ArtPattern {
    /// The text the pattern was compiled from.
    pub closed spec fn text(&self) -> Seq<char> {
        self.pattern@
    }

    /// Relies on `regex::Regex::new`: it returns `Ok` exactly when the
    /// pattern text is a valid regular expression.
    #[verifier::external_body]
    pub fn compile(pattern: &str) -> (r: Option<ArtPattern>)
        ensures
            r is Some <==> regex_compiles(pattern@),
            r is Some ==> r.unwrap().text() == pattern@,
    {
        match regex::Regex::new(pattern) {
            Ok(regex) => Some(ArtPattern { regex, pattern: pattern.to_owned() }),
            Err(_) => None,
        }
    }

    /// Relies on `regex::Regex::is_match`: true exactly when the pattern
    /// this value was compiled from matches anywhere inside `text`.
    #[verifier::external_body]
    pub fn is_match(&self, text: &str) -> (r: bool)
        ensures
            r == regex_matches(self.text(), text@),
    {
        self.regex.is_match(text)
    }
}

} // verus!
