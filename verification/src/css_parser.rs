//! URL extraction from stylesheets.

use vstd::prelude::*;

verus! {

/// The unquoted `url(...)` token values of a stylesheet, in order.
pub uninterp spec fn css_urls_of(text: Seq<char>) -> Seq<Seq<char>>;

/// Relies on `cssparser::Parser::next` and its `UnquotedUrl` token: the
/// URL tokens of a stylesheet are a pure function of its text.
#[verifier::external_body]
fn css_urls(text: &str) -> (r: Vec<String>)
    ensures
        r.deep_view() == css_urls_of(text@),
{
    let mut input = ::cssparser::ParserInput::new(text);
    let mut parser = ::cssparser::Parser::new(&mut input);
    let mut out: Vec<String> = Vec::new();
    while let Ok(token) = parser.next() {
        if let ::cssparser::Token::UnquotedUrl(u) = token {
            out.push(u.to_string());
        }
    }
    out
}

/// A stylesheet scanner.
#[allow(non_camel_case_types)]
#[derive(PartialEq, Eq, Structural)]
pub struct css {}

impl css {
    /// Create a new scanner.
    pub fn new() -> (r: css)
        ensures
            r == (css {  }),
    {
        css {  }
    }

    /// All unquoted `url(...)` values of the stylesheet, in order.
    pub fn parse(&self, text: &str) -> (r: Vec<String>)
        ensures
            r.deep_view() == css_urls_of(text@),
    {
        css_urls(text)
    }
}

} // verus!
