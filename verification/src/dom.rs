//! The markup processor: a parsed HTML page with editable link slots.
//!
//! Parsing materializes the value of every link-bearing attribute (`src`,
//! else `href`) in document order; a slot can be rewritten by index, and
//! serialization renders the tree with the current slot values. Parsing
//! and rendering are done by `kuchiki`.

use vstd::prelude::*;

use ::kuchiki::traits::TendrilSink;

verus! {

/// The link-attribute values that parsing a text yields, in document
/// order: for each element carrying `src` or `href`, the `src` value if
/// present, else the `href` value.
pub uninterp spec fn html_links(text: Seq<char>) -> Seq<Seq<char>>;

/// The serialization of the tree parsed from `text` after its link slots
/// have been set to `links`, which must have one entry per slot.
pub uninterp spec fn html_serialized(text: Seq<char>, links: Seq<Seq<char>>) -> Seq<char>;

/// Relies on `kuchiki::parse_html` and `NodeRef::select`: the values of
/// the link-bearing attributes are a pure function of the text.
#[verifier::external_body]
fn parse_links(text: &str) -> (r: Vec<String>)
    ensures
        r.deep_view() == html_links(text@),
{
    let tree = ::kuchiki::parse_html().one(text);
    let mut out: Vec<String> = Vec::new();
    if let Ok(nodes) = tree.select("[src],[href]") {
        for node in nodes {
            let attrs = node.attributes.borrow();
            if let Some(v) = attrs.get("src").or_else(|| attrs.get("href")) {
                out.push(v.to_string());
            }
        }
    }
    out
}

/// Relies on `kuchiki::parse_html`, `NodeRef::select` and
/// `NodeRef::serialize`: rendering the tree parsed from `text` with its
/// link slots set to `links` is a pure function of the two.
#[verifier::external_body]
fn render_links(text: &str, links: &Vec<String>) -> (r: String)
    requires
        links.deep_view().len() == html_links(text@).len(),
    ensures
        r@ == html_serialized(text@, links.deep_view()),
{
    let tree = ::kuchiki::parse_html().one(text);
    let mut i: usize = 0;
    if let Ok(nodes) = tree.select("[src],[href]") {
        for node in nodes {
            let mut attrs = node.attributes.borrow_mut();
            let key = if attrs.contains("src") { "src" } else { "href" };
            if let (Some(v), true) = (attrs.get_mut(key), i < links.len()) {
                *v = links[i].clone();
                i += 1;
            }
        }
    }
    let mut bytes: Vec<u8> = Vec::new();
    tree.serialize(&mut bytes).expect("serializing to a buffer cannot fail");
    String::from_utf8_lossy(&bytes).into_owned()
}

/// A parsed page: the source text and the current link slot values.
pub struct Dom {
    source: String,
    links: Vec<String>,
}

impl Dom {
    /// The current link slot values.
    pub closed spec fn links_view(&self) -> Seq<Seq<char>> {
        self.links.deep_view()
    }

    /// The text the page was parsed from.
    pub closed spec fn source_view(&self) -> Seq<char> {
        self.source@
    }

    /// A page always holds one slot per link-bearing attribute.
    pub closed spec fn wf(&self) -> bool {
        self.links.deep_view().len() == html_links(self.source@).len()
    }

    /// Parse a page and materialize its link slots.
    pub fn new(text: &str) -> (d: Dom)
        ensures
            d.wf(),
            d.source_view() == text@,
            d.links_view() == html_links(text@),
    {
        let links = parse_links(text);
        Dom { source: String::from_str(text), links }
    }

    /// Number of link slots.
    pub fn link_count(&self) -> (n: usize)
        ensures
            n == self.links_view().len(),
    {
        self.links.len()
    }

    /// The current value of slot `i`.
    pub fn link_at(&self, i: usize) -> (r: &String)
        requires
            i < self.links_view().len(),
        ensures
            r@ == self.links_view()[i as int],
    {
        &self.links[i]
    }

    /// Overwrite slot `i`.
    pub fn set_link(&mut self, i: usize, value: String)
        requires
            i < old(self).links_view().len(),
        ensures
            final(self).links_view() == old(self).links_view().update(i as int, value@),
            final(self).source_view() == old(self).source_view(),
            old(self).wf() ==> final(self).wf(),
    {
        self.links.set(i, value);
        proof {
            assert(self.links.deep_view() =~= old(self).links.deep_view().update(
                i as int,
                value@,
            ));
        }
    }

    /// Copies of all current slot values, in document order.
    pub fn find_urls_as_strings(&self) -> (r: Vec<String>)
        ensures
            r.deep_view() == self.links_view(),
    {
        let mut out: Vec<String> = Vec::new();
        let n = self.links.len();
        let mut i: usize = 0;
        while i < n
            invariant
                n == self.links.len(),
                i <= n,
                out@.len() == i,
                forall|j: int| 0 <= j < i ==> #[trigger] out@[j]@ == self.links.deep_view()[j],
            decreases n - i,
        {
            let piece = self.links[i].clone();
            out.push(piece);
            i += 1;
        }
        proof {
            assert(out.deep_view() =~~= self.links.deep_view());
        }
        out
    }

    /// Render the page with the current slot values.
    pub fn serialize(&self) -> (r: String)
        requires
            self.wf(),
        ensures
            r@ == html_serialized(self.source_view(), self.links_view()),
    {
        render_links(self.source.as_str(), &self.links)
    }
}

} // verus!
