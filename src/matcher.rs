//! A compiled regular expression that remembers the pattern it came from.

use vstd::prelude::*;

use crate::highlight::marked;

verus! {

#[verifier::external_type_specification]
#[verifier::external_body]
pub struct ExRegex(regex::Regex);

#[verifier::external_type_specification]
#[verifier::external_body]
pub struct ExRegexError(regex::Error);

/// Whether `regex::Regex::new` accepts a pattern.
pub uninterp spec fn regex_compiles(pattern: Seq<char>) -> bool;

/// The texts of the successive non-overlapping matches of a pattern in a
/// haystack, as `regex::Regex::find_iter` yields them.
pub uninterp spec fn regex_found(pattern: Seq<char>, hay: Seq<char>) -> Seq<Seq<char>>;

/// The pieces of a haystack between the matches of a pattern, as
/// `regex::Regex::split` yields them.
pub uninterp spec fn regex_gaps(pattern: Seq<char>, hay: Seq<char>) -> Seq<Seq<char>>;

/// A compiled regular expression together with the pattern it was compiled
/// from. The fields are private and only `compile` builds one, so the two
/// always belong together.
pub struct Matcher {
    pattern: String,
    re: regex::Regex,
}

impl Matcher {
    /// The pattern this matcher was compiled from.
    pub closed spec fn pattern(&self) -> Seq<char> {
        self.pattern@
    }

    /// Relies on `regex::Regex::new`: whether a pattern compiles depends on
    /// the pattern alone; the matcher keeps the pattern it was given.
    #[verifier::external_body]
    pub fn compile(pattern: String) -> (r: Result<Matcher, regex::Error>)
        ensures
            r.is_ok() == regex_compiles(pattern@),
            r matches Ok(m) ==> m.pattern() == pattern@,
    {
        let re = regex::Regex::new(&pattern)?;
        Ok(Matcher { pattern, re })
    }

    /// Relies on `regex::Regex::find_iter`: the successive non-overlapping
    /// matches, left to right; each is taken as the text it covers.
    #[verifier::external_body]
    pub fn found(&self, hay: &str) -> (r: Vec<String>)
        ensures
            r@.map_values(|s: String| s@) == regex_found(self.pattern(), hay@),
    {
        self.re.find_iter(hay).map(|m| m.as_str().to_string()).collect()
    }

    /// Relies on `regex::Regex::split`: one piece before each match and one
    /// after the last, so that the pieces and the matches of `find_iter`,
    /// taken in turn, give back the haystack.
    #[verifier::external_body]
    pub fn gaps(&self, hay: &str) -> (r: Vec<String>)
        ensures
            r@.map_values(|s: String| s@) == regex_gaps(self.pattern(), hay@),
            r@.len() == regex_found(self.pattern(), hay@).len() + 1,
            marked(r@.map_values(|s: String| s@), regex_found(self.pattern(), hay@), seq![], seq![])
                == hay@,
    {
        self.re.split(hay).map(|s| s.to_string()).collect()
    }
}

} // verus!
