//! Character-set handling for fetched pages.
//!
//! A page is decoded from its declared or sniffed charset to text for
//! link work, and encoded back on output. A `Charset` pairs the engine
//! chosen by `encoding_rs` with the label it was looked up under, so
//! contracts can speak of conversion as a pure function of label and
//! input.

use vstd::prelude::*;

verus! {

#[verifier::external_type_specification]
#[verifier::external_body]
pub struct ExEncoding(::encoding_rs::Encoding);

/// Whether `encoding_rs::Encoding::for_label` knows a label.
pub uninterp spec fn charset_supported(label: Seq<char>) -> bool;

/// The text that decoding bytes under a charset label yields.
pub uninterp spec fn decode_of(label: Seq<char>, data: Seq<u8>) -> Seq<char>;

/// The bytes that encoding text under a charset label yields.
pub uninterp spec fn encode_of(label: Seq<char>, text: Seq<char>) -> Seq<u8>;

/// An encoding together with the label it was looked up under.
pub struct Charset {
    enc: &'static ::encoding_rs::Encoding,
    label: String,
}

impl View for Charset {
    type V = Seq<char>;

    closed spec fn view(&self) -> Seq<char> {
        self.label@
    }
}

impl Charset {
    /// Relies on `encoding_rs::Encoding::for_label`: which labels name an
    /// encoding depends on the label bytes alone.
    #[verifier::external_body]
    pub fn for_label(label: &str) -> (r: Option<Charset>)
        ensures
            r is Some <==> charset_supported(label@),
            r is Some ==> r.unwrap()@ == label@,
    {
        match ::encoding_rs::Encoding::for_label(label.as_bytes()) {
            Some(enc) => Some(Charset { enc, label: label.to_string() }),
            None => None,
        }
    }

    /// Relies on the `encoding_rs::UTF_8` static: it is the encoding the
    /// label `utf-8` names.
    #[verifier::external_body]
    pub fn utf8() -> (r: Charset)
        ensures
            r@ == "utf-8"@,
    {
        Charset { enc: ::encoding_rs::UTF_8, label: "utf-8".to_string() }
    }

    /// Relies on `encoding_rs::Encoding::decode`: the decoded text is a
    /// pure function of the encoding and the bytes.
    #[verifier::external_body]
    pub fn decode(&self, data: &[u8]) -> (r: String)
        ensures
            r@ == decode_of(self@, data@),
    {
        let (text, _, _) = self.enc.decode(data);
        text.into_owned()
    }

    /// Relies on `encoding_rs::Encoding::encode`: the encoded bytes are a
    /// pure function of the encoding and the text.
    #[verifier::external_body]
    pub fn encode(&self, text: &str) -> (r: Vec<u8>)
        ensures
            r@ == encode_of(self@, text@),
    {
        let (bytes, _, _) = self.enc.encode(text);
        bytes.into_owned()
    }
}

/// Re-encode bytes from one charset to another, through text.
pub fn charset_convert(data: &[u8], source: &Charset, dest: &Charset) -> (r: Vec<u8>)
    ensures
        r@ == encode_of(dest@, decode_of(source@, data@)),
{
    let text = source.decode(data);
    dest.encode(text.as_str())
}

} // verus!
