//! Fetch policy: retry count, per-host credentials, and classification
//! of a response from its transport headers.
//!
//! The transport itself lives outside the library; it hands over the
//! `content-type` and `content-disposition` header values and the body
//! bytes, and takes back a classified `Response`.

use vstd::prelude::*;

use crate::filters::Filter;
use crate::filters::regex_ok;
use crate::filters::regex_capture_of;
use crate::response::Response;
use crate::response::ResponseData;
use crate::strutil::contains_seq;
use crate::strutil::str_contains_seq;
use crate::strutil::first_index_of;
use crate::strutil::lemma_first_index_at;
use crate::strutil::lemma_first_index_none;
use crate::strutil::find_char;
use crate::strutil::lower_of;
use crate::strutil::lowercase;
use crate::urls::ParsedUrl;

verus! {

/// Pattern extracting the media type from a `content-type` value.
pub const DATA_TYPE_PATTERN: &'static str = "^.*(\\b[a-z]+/[a-z-+\\.]+).*$";

/// Pattern extracting the `charset=` parameter from a `content-type`
/// value.
pub const CHARSET_PATTERN: &'static str = "^.*charset\\s*=\\s*\"?([^\"\\s;]+).*$";

/// The error text for unusable credential arguments.
pub const AUTH_ERROR: &'static str = "Invalid arguments supplied to auth";

/// Views of a sequence of strings.
pub open spec fn strs_view(s: Seq<String>) -> Seq<Seq<char>> {
    Seq::new(s.len(), |i: int| s[i]@)
}

/// An empty credential argument stands for "not given".
pub open spec fn conv(s: Seq<char>) -> Option<Seq<char>> {
    if s.len() == 0 {
        None
    } else {
        Some(s)
    }
}

/// One credential triple `(username, password, host)` parsed from up to
/// three arguments, the origin's host standing in for a missing host.
pub open spec fn parse_auth_spec(a: Seq<Seq<char>>, oh: Option<Seq<char>>) -> Result<
    (Seq<char>, Option<Seq<char>>, Seq<char>),
    (),
> {
    if a.len() == 1 && conv(a[0]) is Some && oh is Some {
        Ok((a[0], None, oh.unwrap()))
    } else if a.len() == 2 && conv(a[0]) is Some && oh is Some {
        Ok((a[0], conv(a[1]), oh.unwrap()))
    } else if a.len() >= 3 && conv(a[0]) is Some && conv(a[2]) is None && oh is Some {
        Ok((a[0], conv(a[1]), oh.unwrap()))
    } else if a.len() >= 3 && conv(a[0]) is Some && conv(a[2]) is Some {
        Ok((a[0], conv(a[1]), a[2]))
    } else {
        Err(())
    }
}

fn opt_of(s: &String) -> (r: Option<String>)
    ensures
        r.deep_view() == conv(s@),
{
    if s.as_str().is_empty() {
        None
    } else {
        Some(s.clone())
    }
}

/// Parse HTTP authentication credentials from string arguments.
pub fn parse_auth(auth: &[String], origin: &ParsedUrl) -> (r: Result<
    (String, Option<String>, String),
    String,
>)
    ensures
        match r {
            Ok(t) => parse_auth_spec(strs_view(auth@), origin@.host) == Ok::<_, ()>(
                (t.0@, t.1.deep_view(), t.2@),
            ),
            Err(m) => parse_auth_spec(strs_view(auth@), origin@.host) is Err && m@ == AUTH_ERROR@,
        },
{
    let n = auth.len();
    if n == 0 || auth[0].as_str().is_empty() {
        return Err(AUTH_ERROR.to_owned());
    }
    if n == 1 {
        return match &origin.host {
            Some(oh) => Ok((auth[0].clone(), None, oh.clone())),
            None => Err(AUTH_ERROR.to_owned()),
        };
    }
    if n == 2 {
        return match &origin.host {
            Some(oh) => Ok((auth[0].clone(), opt_of(&auth[1]), oh.clone())),
            None => Err(AUTH_ERROR.to_owned()),
        };
    }
    if auth[2].as_str().is_empty() {
        match &origin.host {
            Some(oh) => Ok((auth[0].clone(), opt_of(&auth[1]), oh.clone())),
            None => Err(AUTH_ERROR.to_owned()),
        }
    } else {
        Ok((auth[0].clone(), opt_of(&auth[1]), auth[2].clone()))
    }
}

/// The credential table built from arguments taken three at a time:
/// entries are `(host, username, password)`.
pub open spec fn build_auth_spec(a: Seq<Seq<char>>, oh: Option<Seq<char>>) -> Result<
    Seq<(Seq<char>, Seq<char>, Option<Seq<char>>)>,
    (),
>
    decreases a.len(),
{
    if a.len() == 0 {
        Ok(Seq::empty())
    } else {
        let k: int = if a.len() < 3 {
            a.len() as int
        } else {
            3
        };
        match parse_auth_spec(a.take(k), oh) {
            Ok(t) => match build_auth_spec(a.skip(k), oh) {
                Ok(rest) => Ok(seq![(t.2, t.0, t.1)] + rest),
                Err(e) => Err(e),
            },
            Err(e) => Err(e),
        }
    }
}

/// The last credential entry for a host, if any.
pub open spec fn lookup_auth(
    m: Seq<(Seq<char>, Seq<char>, Option<Seq<char>>)>,
    host: Seq<char>,
) -> Option<(Seq<char>, Option<Seq<char>>)>
    decreases m.len(),
{
    if m.len() == 0 {
        None
    } else if m.last().0 == host {
        Some((m.last().1, m.last().2))
    } else {
        lookup_auth(m.drop_last(), host)
    }
}

proof fn lemma_lookup_untouched_tail(
    m: Seq<(Seq<char>, Seq<char>, Option<Seq<char>>)>,
    host: Seq<char>,
    i: int,
)
    requires
        0 <= i <= m.len(),
        forall|j: int| i <= j < m.len() ==> #[trigger] m[j].0 != host,
    ensures
        lookup_auth(m, host) == lookup_auth(m.take(i), host),
    decreases m.len() - i,
{
    if i == m.len() {
        assert(m.take(i) =~= m);
    } else {
        assert(m.last().0 != host);
        assert(m.drop_last() =~= m.take(m.len() - 1));
        lemma_lookup_untouched_tail(m.take(m.len() - 1), host, i);
        assert(m.take(m.len() - 1).take(i) =~= m.take(i));
    }
}

/// Retry count, per-host credentials and the compiled header patterns
/// of the fetcher.
pub struct Downloader {
    tries: usize,
    auth_map: Vec<(String, String, Option<String>)>,
    data_type_re: Filter,
    charset_re: Filter,
}

/// Views of a credential vector.
pub open spec fn triples_view(m: Seq<(String, String, Option<String>)>) -> Seq<
    (Seq<char>, Seq<char>, Option<Seq<char>>),
> {
    Seq::new(m.len(), |i: int| (m[i].0@, m[i].1@, m[i].2.deep_view()))
}

impl Downloader {
    /// The configured number of attempts per fetch.
    pub closed spec fn tries_view(&self) -> int {
        self.tries as int
    }

    /// The credential table: `(host, username, password)` entries.
    pub closed spec fn auth_view(&self) -> Seq<(Seq<char>, Seq<char>, Option<Seq<char>>)> {
        triples_view(self.auth_map@)
    }

    /// The header patterns are the ones above.
    pub closed spec fn wf(&self) -> bool {
        self.data_type_re@ == DATA_TYPE_PATTERN@ && self.charset_re@ == CHARSET_PATTERN@
    }

    /// Build a fetch policy: credentials taken from the arguments three
    /// at a time, header patterns compiled.
    pub fn new(tries: usize, auth: &[String], origin: &ParsedUrl) -> (r: Result<
        Downloader,
        String,
    >)
        ensures
            match r {
                Ok(d) => d.wf() && d.tries_view() == tries && build_auth_spec(
                    strs_view(auth@),
                    origin@.host,
                ) == Ok::<_, ()>(d.auth_view()),
                Err(_) => build_auth_spec(strs_view(auth@), origin@.host) is Err || !regex_ok(
                    DATA_TYPE_PATTERN@,
                ) || !regex_ok(CHARSET_PATTERN@),
            },
    {
        let ghost av = strs_view(auth@);
        let ghost oh = origin@.host;
        let n = auth.len();
        let mut map: Vec<(String, String, Option<String>)> = Vec::new();
        let mut i: usize = 0;
        proof {
            assert(av.skip(0) =~= av);
            assert(triples_view(map@) =~= Seq::empty());
        }
        while i < n
            invariant
                n == auth@.len(),
                n == av.len(),
                av == strs_view(auth@),
                oh == origin@.host,
                i <= n,
                build_auth_spec(av, oh) == (match build_auth_spec(av.skip(i as int), oh) {
                    Ok(rest) => Ok::<_, ()>(triples_view(map@) + rest),
                    Err(e) => Err(e),
                }),
            decreases n - i,
        {
            let j = if n - i < 3 {
                n
            } else {
                i + 3
            };
            let chunk: &[String] = &auth[i..j];
            proof {
                let tail = av.skip(i as int);
                let k: int = if tail.len() < 3 {
                    tail.len() as int
                } else {
                    3
                };
                assert(k == j - i);
                assert(strs_view(chunk@) =~= tail.take(k));
                assert(tail.skip(k) =~= av.skip(j as int));
            }
            match parse_auth(chunk, origin) {
                Ok(t) => {
                    let ghost pre = triples_view(map@);
                    map.push((t.2, t.0, t.1));
                    proof {
                        assert(triples_view(map@) =~= pre.push(
                            (t.2@, t.0@, t.1.deep_view()),
                        ));
                        assert(pre.push((t.2@, t.0@, t.1.deep_view())) + rest_of(
                            build_auth_spec(av.skip(j as int), oh),
                        ) =~= pre + (seq![(t.2@, t.0@, t.1.deep_view())] + rest_of(
                            build_auth_spec(av.skip(j as int), oh),
                        ))) by {
                        }
                    }
                },
                Err(m) => {
                    return Err(m);
                },
            }
            i = j;
        }
        proof {
            assert(av.skip(n as int) =~= Seq::<Seq<char>>::empty());
            assert(triples_view(map@) + Seq::empty() =~= triples_view(map@));
        }
        let data_type_re = match Filter::compile(DATA_TYPE_PATTERN) {
            Some(f) => f,
            None => {
                return Err("header pattern did not compile".to_owned());
            },
        };
        let charset_re = match Filter::compile(CHARSET_PATTERN) {
            Some(f) => f,
            None => {
                return Err("header pattern did not compile".to_owned());
            },
        };
        Ok(Downloader { tries, auth_map: map, data_type_re, charset_re })
    }

    /// The configured number of attempts per fetch.
    pub fn tries(&self) -> (r: usize)
        ensures
            r as int == self.tries_view(),
    {
        self.tries
    }

    /// Whether one more fetch attempt is allowed after `attempt`
    /// failures.
    pub fn should_retry(&self, attempt: usize) -> (r: bool)
        ensures
            r == ((attempt as int) < self.tries_view()),
    {
        attempt < self.tries
    }

    /// Credentials for a URL: the entry whose host equals the URL's host
    /// exactly; none otherwise, so credentials never leak to another
    /// host.
    pub fn get_auth(&self, url: &ParsedUrl) -> (r: Option<(String, Option<String>)>)
        ensures
            match url@.host {
                None => r is None,
                Some(h) => match r {
                    Some(t) => lookup_auth(self.auth_view(), h) == Some(
                        (t.0@, t.1.deep_view()),
                    ),
                    None => lookup_auth(self.auth_view(), h) is None,
                },
            },
    {
        match &url.host {
            None => None,
            Some(host) => {
                let n = self.auth_map.len();
                let mut i: usize = n;
                while i > 0
                    invariant
                        n == self.auth_map@.len(),
                        i <= n,
                        url@.host == Some(host@),
                        forall|j: int|
                            i <= j < n ==> #[trigger] self.auth_view()[j].0 != host@,
                    decreases i,
                {
                    i -= 1;
                    let entry = &self.auth_map[i];
                    if crate::strutil::str_eq(entry.0.as_str(), host.as_str()) {
                        proof {
                            lemma_lookup_untouched_tail(self.auth_view(), host@, i + 1);
                            assert(self.auth_view().take(i + 1).last() == self.auth_view()[
                                i as int
                            ]);
                            assert(self.auth_view().take(i + 1).drop_last()
                                =~= self.auth_view().take(i as int));
                        }
                        return Some((entry.1.clone(), crate::urls::clone_opt_string(&entry.2)));
                    }
                }
                proof {
                    lemma_lookup_untouched_tail(self.auth_view(), host@, 0);
                    assert(self.auth_view().take(0) =~= Seq::empty());
                }
                None
            },
        }
    }

    /// A `content-type` denotes HTML when it mentions `text/html`.
    pub fn is_html(content_type: &str) -> (r: bool)
        ensures
            r == is_html_spec(content_type@),
    {
        str_contains_seq(content_type, "text/html")
    }

    /// The file name a `content-disposition` value suggests: everything
    /// after its first `=`, or nothing when it carries none.
    pub fn get_filename(content_disposition: Option<&str>) -> (r: Option<String>)
        ensures
            r.deep_view() == filename_spec(content_disposition.deep_view()),
    {
        let s = match content_disposition {
            Some(s) => s,
            None => {
                return None;
            },
        };
        match find_char(s, '=') {
            Some(i) => {
                proof {
                    lemma_first_index_at(s@, '=', i as int);
                }
                let n = s.unicode_len();
                Some(s.substring_char(i + 1, n).to_owned())
            },
            None => {
                proof {
                    lemma_first_index_none(s@, '=');
                }
                None
            },
        }
    }

    /// Classify a response from its header values: the media type and
    /// charset are read from `content-type`, a suggested file name from
    /// `content-disposition` for non-HTML content, and the body is
    /// tagged HTML or other.
    pub fn classify(&self, content_type: Option<&str>, content_disposition: Option<&str>,
        body: Vec<u8>) -> (r: Response)
        requires
            self.wf(),
        ensures
            r.charset.deep_view() == http_charset_spec(content_type.deep_view()),
            r.filename.deep_view() == (if is_html_spec(data_type_spec(content_type.deep_view())) {
                None::<Seq<char>>
            } else {
                filename_spec(content_disposition.deep_view())
            }),
            match r.data {
                ResponseData::Html(b) => is_html_spec(data_type_spec(content_type.deep_view()))
                    && b@ == body@,
                ResponseData::Other(b) => !is_html_spec(data_type_spec(content_type.deep_view()))
                    && b@ == body@,
                ResponseData::Css(_) => false,
            },
    {
        let data_type: String = match content_type {
            Some(ct) => match self.data_type_re.first_capture(ct) {
                Some(c) => lowercase(c.as_str()),
                None => "text/html".to_owned(),
            },
            None => "text/html".to_owned(),
        };
        let html = Self::is_html(data_type.as_str());
        let charset: Option<String> = match content_type {
            Some(ct) => match self.charset_re.first_capture(ct) {
                Some(c) => Some(lowercase(c.as_str())),
                None => None,
            },
            None => None,
        };
        let filename = if !html {
            Self::get_filename(content_disposition)
        } else {
            None
        };
        let data = if html {
            ResponseData::Html(body)
        } else {
            ResponseData::Other(body)
        };
        Response::new(data, filename, charset)
    }
}

/// A `content-type` text denotes HTML when it mentions `text/html`.
pub open spec fn is_html_spec(ct: Seq<char>) -> bool {
    contains_seq(ct, "text/html"@)
}

/// The suggested file name in a `content-disposition` value: the text
/// after the first `=`.
pub open spec fn filename_spec(cd: Option<Seq<char>>) -> Option<Seq<char>> {
    match cd {
        None => None,
        Some(s) => {
            let i = first_index_of(s, '=');
            if i < 0 {
                None
            } else {
                Some(s.skip(i + 1))
            }
        },
    }
}

/// The media type of a `content-type` value, lowercased; `text/html`
/// when the header is missing or yields no match.
pub open spec fn data_type_spec(ct: Option<Seq<char>>) -> Seq<char> {
    match ct {
        None => "text/html"@,
        Some(s) => match regex_capture_of(DATA_TYPE_PATTERN@, s) {
            Some(c) => lower_of(c),
            None => "text/html"@,
        },
    }
}

/// The charset parameter of a `content-type` value, lowercased, if any.
pub open spec fn http_charset_spec(ct: Option<Seq<char>>) -> Option<Seq<char>> {
    match ct {
        None => None,
        Some(s) => match regex_capture_of(CHARSET_PATTERN@, s) {
            Some(c) => Some(lower_of(c)),
            None => None,
        },
    }
}

/// Helper for `build_auth_spec` reasoning: the entries of an `Ok`.
pub open spec fn rest_of(r: Result<Seq<(Seq<char>, Seq<char>, Option<Seq<char>>)>, ()>) -> Seq<
    (Seq<char>, Seq<char>, Option<Seq<char>>),
> {
    match r {
        Ok(s) => s,
        Err(_) => Seq::empty(),
    }
}

} // verus!
