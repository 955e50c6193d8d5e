//! Link discovery over a raw page text.

use vstd::prelude::*;

use crate::dom::Dom;
use crate::dom::html_links;

verus! {

/// All link-attribute values of the page, in document order.
pub fn find_urls(text: String) -> (r: Vec<String>)
    ensures
        r.deep_view() == html_links(text@),
{
    let dom = Dom::new(text.as_str());
    dom.find_urls_as_strings()
}

} // verus!
