//! The result of one fetch, as the engine consumes it.

use vstd::prelude::*;

verus! {

/// Separates HTML responses from stylesheets and other content.
pub enum ResponseData {
    Html(Vec<u8>),
    Css(Vec<u8>),
    Other(Vec<u8>),
}

/// One fetched resource: its payload, a server-suggested file name, and
/// a charset declared by the transport headers.
pub struct Response {
    pub data: ResponseData,
    pub filename: Option<String>,
    pub charset: Option<String>,
}

impl Response {
    /// Create a new Response holding exactly the given parts.
    pub fn new(data: ResponseData, filename: Option<String>, charset: Option<String>) -> (r:
        Response)
        ensures
            r.data == data,
            r.filename == filename,
            r.charset == charset,
    {
        Response { data, filename, charset }
    }
}

} // verus!
