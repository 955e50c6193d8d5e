//! Regular-expression filters for visit and download policy.
//!
//! A `Filter` pairs a compiled regular expression with the pattern text
//! it was compiled from, so contracts can speak of matching as a pure
//! function of pattern and text.

use vstd::prelude::*;

verus! {

#[verifier::external_type_specification]
#[verifier::external_body]
pub struct ExRegex(::regex::Regex);

/// Whether `regex::Regex::new` accepts a pattern.
pub uninterp spec fn regex_ok(pattern: Seq<char>) -> bool;

/// What `regex::Regex::is_match` yields for a pattern and a text.
pub uninterp spec fn regex_match_of(pattern: Seq<char>, text: Seq<char>) -> bool;

/// The first capture group of the first match of a pattern in a text,
/// as `regex::Regex::captures` yields it.
pub uninterp spec fn regex_capture_of(pattern: Seq<char>, text: Seq<char>) -> Option<Seq<char>>;

/// A compiled pattern together with its text.
pub struct Filter {
    re: ::regex::Regex,
    pattern: String,
}

impl View for Filter {
    type V = Seq<char>;

    closed spec fn view(&self) -> Seq<char> {
        self.pattern@
    }
}

impl Filter {
    /// Relies on `regex::Regex::new`: whether a pattern compiles depends
    /// on the pattern text alone.
    #[verifier::external_body]
    pub fn compile(pattern: &str) -> (r: Option<Filter>)
        ensures
            r is Some <==> regex_ok(pattern@),
            r is Some ==> r.unwrap()@ == pattern@,
    {
        match ::regex::Regex::new(pattern) {
            Ok(re) => Some(Filter { re, pattern: pattern.to_string() }),
            Err(_) => None,
        }
    }

    /// Relies on `regex::Regex::is_match`: a pure function of the
    /// pattern and the text.
    #[verifier::external_body]
    pub fn is_match(&self, text: &str) -> (r: bool)
        ensures
            r == regex_match_of(self@, text@),
    {
        self.re.is_match(text)
    }

    /// Relies on `regex::Regex::captures`: the first match's first
    /// capture group is a pure function of the pattern and the text.
    #[verifier::external_body]
    pub fn first_capture(&self, text: &str) -> (r: Option<String>)
        ensures
            r.deep_view() == regex_capture_of(self@, text@),
    {
        match self.re.captures(text) {
            Some(c) => c.get(1).map(|m| m.as_str().to_string()),
            None => None,
        }
    }
}

} // verus!
