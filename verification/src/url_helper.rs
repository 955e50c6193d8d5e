//! Mapping a URL to its on-disk relative path.
//!
//! The host is the top path segment and the URL path supplies the rest; a
//! directory-like URL or one without a file extension gets a synthesized
//! document name, a query string is folded into the file name behind a
//! sentinel, and an overlong file name is replaced by a fixed-width
//! digest so the result is always a valid file name.

use vstd::prelude::*;

use crate::strutil::trim_end_spec;
use crate::strutil::trim_end_char;
use crate::strutil::rfind_char;
use crate::strutil::string_push;
use crate::urls::ParsedUrl;
use crate::urls::UrlSpec;
use crate::urls::FILE_NAME_MAX_LENGTH;

verus! {

/// The URL path with the query string, if any, appended behind the
/// sentinel separator.
pub open spec fn pq_spec(u: UrlSpec) -> Seq<char> {
    match u.query {
        Some(q) => u.path + "__querystring__"@ + q,
        None => u.path,
    }
}

/// Index of the last `/` in `s`, or `-1` if there is none.
pub open spec fn last_slash(s: Seq<char>) -> int
    decreases s.len(),
{
    if s.len() == 0 {
        -1
    } else if s.last() == '/' {
        s.len() - 1
    } else {
        last_slash(s.drop_last())
    }
}

/// The segment after the last `/` (the whole of `s` if there is none).
pub open spec fn last_segment(s: Seq<char>) -> Seq<char> {
    s.skip(last_slash(s) + 1)
}

/// A file name has an extension when a `.` occurs past its first
/// character.
pub open spec fn has_extension(name: Seq<char>) -> bool {
    exists|i: int| 1 <= i < name.len() && name[i] == '.'
}

/// The path-and-query ends in `/`: the URL denotes a directory.
pub open spec fn dir_like(u: UrlSpec) -> bool {
    pq_spec(u).len() > 0 && pq_spec(u).last() == '/'
}

/// Not directory-like, but the final segment has no extension.
pub open spec fn extensionless(u: UrlSpec) -> bool {
    !dir_like(u) && !has_extension(last_segment(pq_spec(u)))
}

/// Parent directory part of the mapped path.
pub open spec fn mapped_parent(u: UrlSpec) -> Seq<char> {
    let pq = pq_spec(u);
    if dir_like(u) || extensionless(u) {
        trim_end_spec(pq, '/')
    } else if last_slash(pq) < 0 {
        Seq::empty()
    } else if last_slash(pq) == 0 {
        seq!['/']
    } else {
        pq.take(last_slash(pq))
    }
}

/// File name part of the mapped path, before the overlength check.
pub open spec fn mapped_file_raw(u: UrlSpec) -> Seq<char> {
    if dir_like(u) {
        "index.html"@
    } else if extensionless(u) {
        "index_no_slash.html"@
    } else {
        last_segment(pq_spec(u))
    }
}

/// What `md5::compute` followed by lowercase-hex rendering yields on the
/// text's bytes.
pub uninterp spec fn md5_hex_of(s: Seq<char>) -> Seq<char>;

/// File name part of the mapped path: an overlong name is replaced by
/// the fixed-width digest of itself with a stable extension.
pub open spec fn mapped_file(u: UrlSpec) -> Seq<char> {
    let raw = mapped_file_raw(u);
    if raw.len() > FILE_NAME_MAX_LENGTH as int {
        md5_hex_of(raw) + ".html"@
    } else {
        raw
    }
}

/// The mapped relative path of a URL: host, parent directories, then the
/// file name; the fragment is appended only when asked for.
pub open spec fn to_path_spec(u: UrlSpec, with_fragment: bool) -> Seq<char> {
    let base = u.host.unwrap() + mapped_parent(u) + seq!['/'] + mapped_file(u);
    match (u.fragment, with_fragment) {
        (Some(f), true) => base + seq!['#'] + f,
        _ => base,
    }
}

/// The directory part of a relative path: everything before the last
/// `/`; `/` alone when that is the first character, empty when there is
/// no `/` at all.
pub open spec fn parent_dir_spec(s: Seq<char>) -> Seq<char> {
    if last_slash(s) < 0 {
        Seq::empty()
    } else if last_slash(s) == 0 {
        seq!['/']
    } else {
        s.take(last_slash(s))
    }
}

/// The directory part of a relative path, executable form.
pub fn parent_dir(s: &str) -> (r: String)
    ensures
        r@ == parent_dir_spec(s@),
{
    match rfind_char(s, '/') {
        None => {
            proof {
                lemma_last_slash_none(s@);
            }
            String::new()
        },
        Some(i) => {
            proof {
                lemma_last_slash_at(s@, i as int);
            }
            if i == 0 {
                proof {
                    reveal_strlit("/");
                    assert("/"@ =~= seq!['/']);
                }
                "/".to_owned()
            } else {
                s.substring_char(0, i).to_owned()
            }
        },
    }
}

/// Relies on `md5::compute` and the `LowerHex` rendering of its digest:
/// the digest is a pure function of the input bytes, rendered as 32
/// lowercase hexadecimal characters.
#[verifier::external_body]
fn md5_hex(s: &str) -> (r: String)
    ensures
        r@ == md5_hex_of(s@),
        r@.len() == 32,
{
    format!("{:x}", ::md5::compute(s.as_bytes()))
}

proof fn lemma_last_slash_at(s: Seq<char>, i: int)
    requires
        0 <= i < s.len(),
        s[i] == '/',
        forall|j: int| i < j < s.len() ==> s[j] != '/',
    ensures
        last_slash(s) == i,
    decreases s.len(),
{
    if s.last() == '/' {
        assert(i == s.len() - 1);
    } else {
        assert(i < s.len() - 1);
        lemma_last_slash_at(s.drop_last(), i);
    }
}

proof fn lemma_last_slash_none(s: Seq<char>)
    requires
        forall|j: int| 0 <= j < s.len() ==> s[j] != '/',
    ensures
        last_slash(s) == -1,
    decreases s.len(),
{
    if s.len() > 0 {
        lemma_last_slash_none(s.drop_last());
    }
}

proof fn lemma_last_slash_bound(s: Seq<char>)
    ensures
        last_slash(s) >= -1,
        last_slash(s) < 0 ==> last_slash(s) == -1,
        last_slash(s) < 0 ==> forall|j: int| 0 <= j < s.len() ==> s[j] != '/',
        last_slash(s) >= 0 ==> last_slash(s) < s.len() && s[last_slash(s)] == '/' && forall|
            j: int,
        | last_slash(s) < j < s.len() ==> s[j] != '/',
    decreases s.len(),
{
    if s.len() == 0 {
    } else if s.last() == '/' {
    } else {
        lemma_last_slash_bound(s.drop_last());
        let ls = last_slash(s);
        assert(ls == last_slash(s.drop_last()));
        if ls >= 0 {
            assert(s.drop_last()[ls] == '/');
            assert(s[ls] == s.drop_last()[ls]);
            assert forall|j: int| ls < j < s.len() implies s[j] != '/' by {
                if j == s.len() - 1 {
                    assert(s[j] == s.last());
                } else {
                    assert(s.drop_last()[j] != '/');
                    assert(s[j] == s.drop_last()[j]);
                }
            }
        } else {
            assert forall|j: int| 0 <= j < s.len() implies s[j] != '/' by {
                if j == s.len() - 1 {
                    assert(s[j] == s.last());
                } else {
                    assert(s.drop_last()[j] != '/');
                    assert(s[j] == s.drop_last()[j]);
                }
            }
        }
    }
}

proof fn lemma_mid_cancel(a: Seq<char>, x: Seq<char>, y: Seq<char>, b: Seq<char>)
    requires
        a + x + b == a + y + b,
    ensures
        x == y,
{
    assert((a + x + b).len() == a.len() + x.len() + b.len());
    assert((a + y + b).len() == a.len() + y.len() + b.len());
    assert(x.len() == y.len());
    assert forall|j: int| 0 <= j < x.len() implies x[j] == y[j] by {
        assert((a + x + b)[a.len() + j] == x[j]);
        assert((a + y + b)[a.len() + j] == y[j]);
    }
    assert(x =~= y);
}

/// Path-mapping injectivity on query strings: two URLs sharing host and
/// path whose slash-free query strings differ map to distinct paths, as
/// long as neither file name overflows into the digest form.
pub proof fn lemma_to_path_query_injective(u1: UrlSpec, u2: UrlSpec)
    requires
        u1.host == u2.host,
        u1.host is Some,
        u1.path == u2.path,
        u1.query is Some,
        u2.query is Some,
        u1.query != u2.query,
        forall|j: int| 0 <= j < u1.query.unwrap().len() ==> u1.query.unwrap()[j] != '/',
        forall|j: int| 0 <= j < u2.query.unwrap().len() ==> u2.query.unwrap()[j] != '/',
        mapped_file_raw(u1).len() <= FILE_NAME_MAX_LENGTH as int,
        mapped_file_raw(u2).len() <= FILE_NAME_MAX_LENGTH as int,
    ensures
        to_path_spec(u1, false) != to_path_spec(u2, false),
{
    reveal_strlit("__querystring__");
    reveal_strlit("index_no_slash.html");
    let host = u1.host.unwrap();
    let pp = u1.path;
    let qsep = "__querystring__"@;
    let q1 = u1.query.unwrap();
    let q2 = u2.query.unwrap();
    let pq1 = pq_spec(u1);
    let pq2 = pq_spec(u2);
    assert(qsep.len() == 15 && qsep[0] == '_' && qsep[1] == '_' && qsep.last() == '_');
    assert(pq1 == pp + qsep + q1 && pq2 == pp + qsep + q2);
    assert(q1 != q2);

    // Neither path-and-query is directory-like.
    lemma_pq_shape(pp, qsep, q1);
    lemma_pq_shape(pp, qsep, q2);
    assert(!dir_like(u1) && !dir_like(u2));

    // The last slash of both lies in the shared path part.
    let mp = last_slash(pp);
    lemma_last_slash_bound(pp);
    lemma_last_slash_composite(pp, qsep, q1);
    lemma_last_slash_composite(pp, qsep, q2);
    assert(last_slash(pq1) == mp && last_slash(pq2) == mp);
    let tt = pp.skip(mp + 1);
    assert(last_segment(pq1) =~= tt + qsep + q1);
    assert(last_segment(pq2) =~= tt + qsep + q2);

    let r1 = to_path_spec(u1, false);
    let r2 = to_path_spec(u2, false);
    if r1 == r2 {
        if extensionless(u1) && extensionless(u2) {
            assert(trim_end_spec(pq1, '/') == pq1 && trim_end_spec(pq2, '/') == pq2);
            assert(r1 == host + pq1 + seq!['/'] + "index_no_slash.html"@);
            assert(r2 == host + pq2 + seq!['/'] + "index_no_slash.html"@);
            let a = host + pp + qsep;
            let b = seq!['/'] + "index_no_slash.html"@;
            assert(a + q1 + b =~= r1);
            assert(a + q2 + b =~= r2);
            lemma_mid_cancel(a, q1, q2, b);
        } else if !extensionless(u1) && !extensionless(u2) {
            let parent = mapped_parent(u1);
            assert(mapped_parent(u2) == parent);
            assert(mapped_file(u1) == last_segment(pq1) && mapped_file(u2) == last_segment(pq2));
            let a = host + parent + seq!['/'] + (tt + qsep);
            assert(a + q1 =~= r1);
            assert(a + q2 =~= r2);
            lemma_mid_cancel(a, q1, q2, Seq::empty());
            assert(a + q1 + Seq::empty() =~= a + q1);
            assert(a + q2 + Seq::empty() =~= a + q2);
        } else {
            // One side got the synthesized name, the other its own
            // final segment: the segments after the last slash of the
            // two results would have to agree, yet one carries the
            // sentinel's doubled underscore and the other never does.
            let (ue, un, qe) = if extensionless(u2) {
                (u1, u2, q1)
            } else {
                (u2, u1, q2)
            };
            let pqe = pq_spec(ue);
            let pqn = pq_spec(un);
            let re = to_path_spec(ue, false);
            let rn = to_path_spec(un, false);
            assert(re == rn);
            let file_e = tt + qsep + qe;
            assert(mapped_file(ue) == file_e);
            let parent_e = mapped_parent(ue);
            assert(re == host + parent_e + seq!['/'] + file_e);
            assert(rn == host + pqn + seq!['/'] + "index_no_slash.html"@);
            let ke = host.len() + parent_e.len();
            let kn = host.len() + pqn.len();
            assert(re[ke as int] == '/');
            assert forall|j: int| ke < j < re.len() implies re[j] != '/' by {
                assert(re[j] == file_e[j - ke - 1]);
                if j - ke - 1 < tt.len() {
                    assert(file_e[j - ke - 1] == tt[j - ke - 1]);
                    assert(pp[mp + 1 + (j - ke - 1)] == tt[j - ke - 1]);
                } else if j - ke - 1 < tt.len() + 15 {
                    assert(file_e[j - ke - 1] == qsep[j - ke - 1 - tt.len()]);
                } else {
                    assert(file_e[j - ke - 1] == qe[j - ke - 1 - tt.len() - 15]);
                }
            }
            lemma_last_slash_at(re, ke as int);
            assert(rn[kn as int] == '/');
            assert forall|j: int| kn < j < rn.len() implies rn[j] != '/' by {
                assert(rn[j] == "index_no_slash.html"@[j - kn - 1]);
            }
            lemma_last_slash_at(rn, kn as int);
            assert(ke == kn);
            assert(file_e =~= re.skip(ke + 1 as int));
            assert("index_no_slash.html"@ =~= rn.skip(kn + 1 as int));
            assert(file_e == "index_no_slash.html"@);
            let t = tt.len() as int;
            assert(file_e[t] == qsep[0] && file_e[t + 1] == qsep[1]);
            assert(0 <= t && t + 1 < 19);
            assert(!("index_no_slash.html"@[t] == '_' && "index_no_slash.html"@[t + 1] == '_'));
            assert(false);
        }
    }
}

proof fn lemma_pq_shape(pp: Seq<char>, qsep: Seq<char>, q: Seq<char>)
    requires
        qsep.len() == 15,
        qsep.last() == '_',
        forall|j: int| 0 <= j < q.len() ==> q[j] != '/',
    ensures
        (pp + qsep + q).len() > 0,
        (pp + qsep + q).last() != '/',
{
    let pq = pp + qsep + q;
    if q.len() > 0 {
        assert(pq.last() == q.last());
    } else {
        assert(pq.last() == qsep.last());
    }
}

#[verifier::rlimit(60)]
proof fn lemma_last_slash_composite(pp: Seq<char>, qsep: Seq<char>, q: Seq<char>)
    requires
        qsep.len() == 15,
        forall|j: int| 0 <= j < qsep.len() ==> qsep[j] != '/',
        forall|j: int| 0 <= j < q.len() ==> q[j] != '/',
    ensures
        last_slash(pp + qsep + q) == last_slash(pp),
{
    let pq = pp + qsep + q;
    let mp = last_slash(pp);
    assert(last_slash(pq) == mp) by {
        lemma_last_slash_bound(pp);
        if mp >= 0 {
            assert(pq[mp] == pp[mp]);
            assert forall|j: int| mp < j < pq.len() implies pq[j] != '/' by {
                if j < pp.len() {
                    assert(pq[j] == pp[j]);
                } else if j < pp.len() + 15 {
                    assert(pq[j] == qsep[j - pp.len()]);
                } else {
                    assert(pq[j] == q[j - pp.len() - 15]);
                }
            }
            lemma_last_slash_at(pq, mp);
        } else {
            assert forall|j: int| 0 <= j < pq.len() implies pq[j] != '/' by {
                if j < pp.len() {
                    assert(pq[j] == pp[j]);
                } else if j < pp.len() + 15 {
                    assert(pq[j] == qsep[j - pp.len()]);
                } else {
                    assert(pq[j] == q[j - pp.len() - 15]);
                }
            }
            lemma_last_slash_none(pq);
        }
    }
}

/// Whether `name` has a `.` past its first character, executable form.
fn has_extension_exec(name: &str) -> (r: bool)
    ensures
        r == has_extension(name@),
{
    let n = name.unicode_len();
    let mut i: usize = 1;
    while i < n
        invariant
            n == name@.len(),
            1 <= i,
            forall|j: int| 1 <= j < i ==> name@[j] != '.',
        decreases n - i,
    {
        if name.get_char(i) == '.' {
            return true;
        }
        i += 1;
    }
    false
}

/// Convert a URL to the corresponding on-disk relative path.
#[verifier::rlimit(60)]
pub fn to_path(url: &ParsedUrl, with_fragment: bool) -> (r: String)
    requires
        url@.host is Some,
    ensures
        r@ == to_path_spec(url@, with_fragment),
        mapped_file_raw(url@).len() > FILE_NAME_MAX_LENGTH as int ==> mapped_file(url@).len()
            == 37,
{
    let mut pq: String = url.path.clone();
    match &url.query {
        Some(q) => {
            pq.append("__querystring__");
            pq.append(q.as_str());
        },
        None => {},
    }
    let pq_len = pq.as_str().unicode_len();
    proof {
        assert(pq@ == pq_spec(url@));
    }

    let mut parent: String;
    let mut file: String;
    if pq_len > 0 && pq.as_str().get_char(pq_len - 1) == '/' {
        parent = trim_end_char(pq.as_str(), '/');
        file = "index.html".to_owned();
        proof {
            assert(dir_like(url@));
        }
    } else {
        let ls = rfind_char(pq.as_str(), '/');
        proof {
            match ls {
                Some(i) => lemma_last_slash_at(pq@, i as int),
                None => lemma_last_slash_none(pq@),
            }
        }
        let seg_start = match ls {
            Some(i) => i + 1,
            None => 0,
        };
        let seg = pq.as_str().substring_char(seg_start, pq_len);
        proof {
            assert(seg@ == last_segment(pq_spec(url@)));
        }
        if !has_extension_exec(seg) {
            parent = trim_end_char(pq.as_str(), '/');
            file = "index_no_slash.html".to_owned();
            proof {
                assert(extensionless(url@));
            }
        } else {
            parent = match ls {
                Some(i) => {
                    if i == 0 {
                        proof {
                            reveal_strlit("/");
                            assert("/"@ =~= seq!['/']);
                        }
                        "/".to_owned()
                    } else {
                        pq.as_str().substring_char(0, i).to_owned()
                    }
                },
                None => String::new(),
            };
            file = seg.to_owned();
            proof {
                assert(!dir_like(url@) && !extensionless(url@));
                assert(parent@ == mapped_parent(url@));
                assert(pq@.take(last_slash(pq@)) =~= parent@ || last_slash(pq@) <= 0);
            }
        }
    }
    proof {
        assert(parent@ == mapped_parent(url@));
        assert(file@ == mapped_file_raw(url@));
    }

    if file.as_str().unicode_len() > FILE_NAME_MAX_LENGTH {
        let digest = md5_hex(file.as_str());
        file = digest;
        file.append(".html");
        proof {
            reveal_strlit(".html");
        }
    }
    proof {
        assert(file@ == mapped_file(url@));
        assert(mapped_file_raw(url@).len() > FILE_NAME_MAX_LENGTH as int ==> mapped_file(
            url@,
        ).len() == 37);
    }

    let host: &String = match &url.host {
        Some(h) => h,
        None => unreached(),
    };
    let mut out: String = host.clone();
    out.append(parent.as_str());
    string_push(&mut out, '/');
    out.append(file.as_str());
    match (&url.fragment, with_fragment) {
        (Some(f), true) => {
            string_push(&mut out, '#');
            out.append(f.as_str());
        },
        _ => {},
    }
    out
}

} // verus!
