//! The library's model of a parsed absolute URL.
//!
//! Parsing and relative-reference resolution are done by the `url` crate;
//! the library keeps, as plain values, exactly the components its logic
//! reads: the serialization (the dedup key), scheme, host, domain, path,
//! query and fragment, and whether the URL can serve as a base.

use vstd::prelude::*;

use crate::strutil::starts_with;
use crate::strutil::trim_end_char;

verus! {

/// Ghost image of a parsed URL: the components as plain sequences.
pub ghost struct UrlSpec {
    pub serial: Seq<char>,
    pub scheme: Seq<char>,
    pub host: Option<Seq<char>>,
    pub domain: Option<Seq<char>>,
    pub path: Seq<char>,
    pub query: Option<Seq<char>>,
    pub fragment: Option<Seq<char>>,
    pub cannot_be_base: bool,
}

/// A parsed absolute URL, held as its components.
pub struct ParsedUrl {
    pub serial: String,
    pub scheme: String,
    pub host: Option<String>,
    pub domain: Option<String>,
    pub path: String,
    pub query: Option<String>,
    pub fragment: Option<String>,
    pub cannot_be_base: bool,
}

impl View for ParsedUrl {
    type V = UrlSpec;

    open spec fn view(&self) -> UrlSpec {
        UrlSpec {
            serial: self.serial@,
            scheme: self.scheme@,
            host: self.host.deep_view(),
            domain: self.domain.deep_view(),
            path: self.path@,
            query: self.query.deep_view(),
            fragment: self.fragment.deep_view(),
            cannot_be_base: self.cannot_be_base,
        }
    }
}

impl DeepView for ParsedUrl {
    type V = UrlSpec;

    open spec fn deep_view(&self) -> UrlSpec {
        self@
    }
}

/// A URL with an authority serializes as `scheme://...`, so the scheme
/// prefix of the serialization is exactly that long.
pub open spec fn url_wf(u: UrlSpec) -> bool {
    u.host is Some ==> starts_with(u.serial, u.scheme + seq![':', '/', '/'])
}

/// What `url::Url::parse` yields on a given text, projected to the
/// components the library reads; `None` when parsing fails.
pub uninterp spec fn url_parse_spec(s: Seq<char>) -> Option<UrlSpec>;

/// What resolving a (possibly relative) link text against a base URL with
/// the given serialization yields, after the fragment is dropped; `None`
/// when resolution fails.
pub uninterp spec fn url_resolve_spec(base: Seq<char>, rel: Seq<char>) -> Option<UrlSpec>;

/// Relies on `url::Url::parse` and the accessors `as_str`, `scheme`,
/// `host_str`, `domain`, `path`, `query`, `fragment` and
/// `cannot_be_a_base`: parsing is a pure function of the input text,
/// and a URL with a host serializes as `scheme://...`.
#[verifier::external_body]
pub fn parse_url(s: &str) -> (r: Option<ParsedUrl>)
    ensures
        r.deep_view() == url_parse_spec(s@),
        r is Some ==> url_wf(r.unwrap()@),
{
    match ::url::Url::parse(s) {
        Ok(u) => Some(ParsedUrl {
            serial: u.as_str().to_string(),
            scheme: u.scheme().to_string(),
            host: u.host_str().map(|h| h.to_string()),
            domain: u.domain().map(|d| d.to_string()),
            path: u.path().to_string(),
            query: u.query().map(|q| q.to_string()),
            fragment: u.fragment().map(|f| f.to_string()),
            cannot_be_base: u.cannot_be_a_base(),
        }),
        Err(_) => None,
    }
}

/// Relies on `url::Url::parse`, `Url::join` and `Url::set_fragment`:
/// resolving a link against a base URL and dropping the fragment is a
/// pure function of the two texts; the result carries no fragment, and
/// a URL with a host serializes as `scheme://...`.
#[verifier::external_body]
pub fn resolve_link(base: &str, rel: &str) -> (r: Option<ParsedUrl>)
    ensures
        r.deep_view() == url_resolve_spec(base@, rel@),
        r is Some ==> r.unwrap()@.fragment is None,
        r is Some ==> url_wf(r.unwrap()@),
{
    let b = match ::url::Url::parse(base) { Ok(u) => u, Err(_) => return None };
    let mut u = match b.join(rel) { Ok(u) => u, Err(_) => return None };
    u.set_fragment(None);
    Some(ParsedUrl {
        serial: u.as_str().to_string(),
        scheme: u.scheme().to_string(),
        host: u.host_str().map(|h| h.to_string()),
        domain: u.domain().map(|d| d.to_string()),
        path: u.path().to_string(),
        query: u.query().map(|q| q.to_string()),
        fragment: None,
        cannot_be_base: u.cannot_be_a_base(),
    })
}

/// Characters replaced by percent-encoding before parsing loose input:
/// ASCII controls and `?`.
pub open spec fn needs_escape(c: char) -> bool {
    c < ' ' || c == '\u{7f}' || c == '?'
}

/// Uppercase hexadecimal digit for a value below 16.
pub open spec fn hex_digit(v: int) -> char {
    if v == 0 { '0' } else if v == 1 { '1' } else if v == 2 { '2' }
    else if v == 3 { '3' } else if v == 4 { '4' } else if v == 5 { '5' }
    else if v == 6 { '6' } else if v == 7 { '7' } else if v == 8 { '8' }
    else if v == 9 { '9' } else if v == 10 { 'A' } else if v == 11 { 'B' }
    else if v == 12 { 'C' } else if v == 13 { 'D' } else if v == 14 { 'E' }
    else { 'F' }
}

/// One character's percent-encoded image.
pub open spec fn escape_char(c: char) -> Seq<char> {
    if needs_escape(c) {
        seq!['%', hex_digit(c as int / 16), hex_digit(c as int % 16)]
    } else {
        seq![c]
    }
}

/// WHATWG-style percent-encoding of the controls-plus-`?` set: every
/// character in the set becomes `%XX`, every other character stays.
pub open spec fn percent_encode_spec(s: Seq<char>) -> Seq<char>
    decreases s.len(),
{
    if s.len() == 0 {
        Seq::empty()
    } else {
        escape_char(s[0]) + percent_encode_spec(s.skip(1))
    }
}

proof fn lemma_pe_take_snoc(s: Seq<char>, k: int)
    requires
        0 <= k < s.len(),
    ensures
        percent_encode_spec(s.take(k + 1)) == percent_encode_spec(s.take(k)) + escape_char(s[k]),
    decreases k,
{
    if k == 0 {
        assert(s.take(1)[0] == s[0]);
        assert(s.take(1).skip(1) =~= Seq::<char>::empty());
        assert(s.take(0) =~= Seq::<char>::empty());
        assert(percent_encode_spec(s.take(1)) =~= escape_char(s[0]));
    } else {
        lemma_pe_take_snoc(s.skip(1), k - 1);
        assert(s.take(k + 1)[0] == s[0]);
        assert(s.take(k + 1).skip(1) =~= s.skip(1).take(k));
        assert(s.take(k)[0] == s[0]);
        assert(s.take(k).skip(1) =~= s.skip(1).take(k - 1));
        assert(s.skip(1)[k - 1] == s[k]);
        assert(percent_encode_spec(s.take(k + 1)) == escape_char(s[0]) + percent_encode_spec(
            s.skip(1).take(k),
        ));
    }
}

fn hex_digit_exec(v: u32) -> (r: char)
    requires
        v < 16,
    ensures
        r == hex_digit(v as int),
{
    if v == 0 { '0' } else if v == 1 { '1' } else if v == 2 { '2' }
    else if v == 3 { '3' } else if v == 4 { '4' } else if v == 5 { '5' }
    else if v == 6 { '6' } else if v == 7 { '7' } else if v == 8 { '8' }
    else if v == 9 { '9' } else if v == 10 { 'A' } else if v == 11 { 'B' }
    else if v == 12 { 'C' } else if v == 13 { 'D' } else if v == 14 { 'E' }
    else { 'F' }
}

/// Percent-encode ASCII controls and `?`; all other characters pass
/// through unchanged.
pub fn str_percent_encode(path: &str) -> (r: String)
    ensures
        r@ == percent_encode_spec(path@),
{
    let n = path.unicode_len();
    let mut out = String::new();
    let mut i: usize = 0;
    while i < n
        invariant
            n == path@.len(),
            i <= n,
            out@ == percent_encode_spec(path@.take(i as int)),
        decreases n - i,
    {
        let c = path.get_char(i);
        if c < ' ' || c == '\u{7f}' || c == '?' {
            let code = c as u32;
            assert(code < 128) by {
                assert(c <= '\u{7f}');
            };
            crate::strutil::string_push(&mut out, '%');
            crate::strutil::string_push(&mut out, hex_digit_exec(code / 16));
            crate::strutil::string_push(&mut out, hex_digit_exec(code % 16));
        } else {
            crate::strutil::string_push(&mut out, c);
        }
        proof {
            lemma_pe_take_snoc(path@, i as int);
        }
        i += 1;
    }
    proof {
        assert(path@.take(n as int) =~= path@);
    }
    out
}

/// Failure to parse a text as an absolute URL.
#[derive(Debug)]
pub struct UrlParseError {}

/// Percent-encode loose input, then parse it as an absolute URL.
pub fn str_to_url(path: &str) -> (r: Result<ParsedUrl, UrlParseError>)
    ensures
        match r {
            Ok(u) => url_parse_spec(percent_encode_spec(path@)) == Some(u@) && url_wf(u@),
            Err(_) => url_parse_spec(percent_encode_spec(path@)) is None,
        },
{
    let enc = str_percent_encode(path);
    match parse_url(enc.as_str()) {
        Some(u) => Ok(u),
        None => Err(UrlParseError {  }),
    }
}

/// `/` or `.` becomes `_`; every other character stays.
pub open spec fn underscore(c: char) -> char {
    if c == '/' || c == '.' { '_' } else { c }
}

/// Flat single-component file name for a URL: the serialization without
/// its scheme prefix, `/` and `.` replaced by `_`, cut to the longest
/// file name a file system accepts, trailing `_` trimmed.
pub open spec fn url_to_path_spec(u: UrlSpec) -> Seq<char> {
    let replaced = Seq::new(u.serial.len(), |i: int| underscore(u.serial[i]));
    let stripped = replaced.skip(u.scheme.len() + 3 as int);
    let cut = if stripped.len() >= FILE_NAME_MAX_LENGTH as int {
        stripped.take(FILE_NAME_MAX_LENGTH as int)
    } else {
        stripped
    };
    crate::strutil::trim_end_spec(cut, '_')
}

/// Longest file name component the target file systems accept.
pub const FILE_NAME_MAX_LENGTH: usize = 255;

/// Flat file name for a URL, per `url_to_path_spec`.
pub fn url_to_path(url: &ParsedUrl) -> (r: String)
    requires
        url@.host is Some,
        url_wf(url@),
    ensures
        r@ == url_to_path_spec(url@),
{
    let s = url.serial.as_str();
    let n = s.unicode_len();
    let scheme_len = url.scheme.as_str().unicode_len();
    proof {
        assert((url@.scheme + seq![':', '/', '/']).len() <= url@.serial.len());
    }
    let start = scheme_len + 3;
    let stop = if n - start >= FILE_NAME_MAX_LENGTH {
        start + FILE_NAME_MAX_LENGTH
    } else {
        n
    };
    let mut out = String::new();
    let mut i: usize = start;
    while i < stop
        invariant
            n == s@.len(),
            start <= i <= stop <= n,
            out@.len() == i - start,
            forall|j: int| 0 <= j < out@.len() ==> out@[j] == underscore(s@[start + j]),
        decreases stop - i,
    {
        let c = s.get_char(i);
        if c == '/' || c == '.' {
            crate::strutil::string_push(&mut out, '_');
        } else {
            crate::strutil::string_push(&mut out, c);
        }
        i += 1;
    }
    proof {
        let u = url@;
        let replaced = Seq::new(u.serial.len(), |j: int| underscore(u.serial[j]));
        let stripped = replaced.skip(u.scheme.len() + 3 as int);
        let cut = if stripped.len() >= FILE_NAME_MAX_LENGTH as int {
            stripped.take(FILE_NAME_MAX_LENGTH as int)
        } else {
            stripped
        };
        assert(out@ =~= cut);
    }
    trim_end_char(out.as_str(), '_')
}

/// A copy of an optional string with the same view.
pub fn clone_opt_string(o: &Option<String>) -> (r: Option<String>)
    ensures
        r.deep_view() == o.deep_view(),
{
    match o {
        Some(s) => Some(s.clone()),
        None => None,
    }
}

impl ParsedUrl {
    /// A field-for-field copy with the same view.
    pub fn duplicate(&self) -> (r: ParsedUrl)
        ensures
            r@ == self@,
    {
        ParsedUrl {
            serial: self.serial.clone(),
            scheme: self.scheme.clone(),
            host: clone_opt_string(&self.host),
            domain: clone_opt_string(&self.domain),
            path: self.path.clone(),
            query: clone_opt_string(&self.query),
            fragment: clone_opt_string(&self.fragment),
            cannot_be_base: self.cannot_be_base,
        }
    }
}

} // verus!
