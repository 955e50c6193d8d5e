//! The crawl engine: work queue, dedup table, link processing and the
//! depth, domain and filter policy.
//!
//! The engine is a state machine over plain values. Fetching, disk
//! writes and thread plumbing happen outside the library: a driver
//! dequeues a work item, fetches it, hands the outcome back to
//! `handle_url`, and performs the save plan the engine returns.

use vstd::prelude::*;

use vstd::multiset::Multiset;
use vstd::utf8::encode_utf8;

use crate::charset::Charset;
use crate::table::PathTable;
use crate::table::VisitedSet;
use crate::charset::charset_convert;
use crate::charset::charset_supported;
use crate::charset::decode_of;
use crate::charset::encode_of;
use crate::dom::Dom;
use crate::dom::html_links;
use crate::dom::html_serialized;
use crate::filters::Filter;
use crate::filters::regex_ok;
use crate::filters::regex_match_of;
use crate::filters::regex_capture_of;
use crate::relpath::rel_path_spec;
use crate::relpath::relative_path;
use crate::response::Response;
use crate::response::ResponseData;
use crate::strutil::starts_with;
use crate::strutil::str_starts_with;
use crate::strutil::str_eq;
use crate::strutil::append_range;
use crate::strutil::lower_of;
use crate::strutil::lowercase;
use crate::strutil::utf8_lossy;
use crate::strutil::utf8_lossy_of;
use crate::url_helper::to_path;
use crate::url_helper::to_path_spec;
use crate::url_helper::parent_dir;
use crate::url_helper::parent_dir_spec;
use crate::urls::ParsedUrl;
use crate::urls::UrlSpec;
use crate::urls::parse_url;
use crate::urls::resolve_link;
use crate::urls::url_parse_spec;
use crate::urls::url_resolve_spec;

verus! {

broadcast use vstd::multiset::group_multiset_axioms;

/// A depth limit of `-1` means unbounded.
pub const INFINITE_DEPTH: i32 = -1;

/// Pattern sniffing a `<meta charset=...>` declaration from markup.
pub const META_CHARSET_PATTERN: &'static str = "<meta.*charset\\s*=\\s*\"?([^\"\\s;>]+).*>";

/// One unit of work: a URL with its hop counts from the origin.
pub struct WorkItem {
    pub url: ParsedUrl,
    pub depth: i32,
    pub ext_depth: i32,
}

/// Ghost image of a work item.
pub ghost struct ItemSpec {
    pub url: UrlSpec,
    pub depth: int,
    pub ext_depth: int,
}

impl View for WorkItem {
    type V = ItemSpec;

    open spec fn view(&self) -> ItemSpec {
        ItemSpec { url: self.url@, depth: self.depth as int, ext_depth: self.ext_depth as int }
    }
}

impl DeepView for WorkItem {
    type V = ItemSpec;

    open spec fn deep_view(&self) -> ItemSpec {
        self@
    }
}

/// Read-only crawl configuration.
pub struct CrawlPolicy {
    pub depth: i32,
    pub ext_depth: i32,
    pub visit_allow: Filter,
    pub visit_deny: Filter,
    pub down_allow: Filter,
    pub down_deny: Filter,
    pub continue_on_error: bool,
    pub dry_run: bool,
    pub verbose: bool,
    pub delay: u64,
    pub random_range: u64,
}

/// Ghost image of the configuration: filters as their pattern texts.
pub ghost struct PolicySpec {
    pub depth: int,
    pub ext_depth: int,
    pub visit_allow: Seq<char>,
    pub visit_deny: Seq<char>,
    pub down_allow: Seq<char>,
    pub down_deny: Seq<char>,
    pub continue_on_error: bool,
    pub dry_run: bool,
    pub verbose: bool,
    pub delay: int,
    pub random_range: int,
}

impl View for CrawlPolicy {
    type V = PolicySpec;

    open spec fn view(&self) -> PolicySpec {
        PolicySpec {
            depth: self.depth as int,
            ext_depth: self.ext_depth as int,
            visit_allow: self.visit_allow@,
            visit_deny: self.visit_deny@,
            down_allow: self.down_allow@,
            down_deny: self.down_deny@,
            continue_on_error: self.continue_on_error,
            dry_run: self.dry_run,
            verbose: self.verbose,
            delay: self.delay as int,
            random_range: self.random_range as int,
        }
    }
}

impl CrawlPolicy {
    /// Compile a configuration from its pattern texts. When the visit
    /// filter is declared to be the download filter, the download
    /// patterns are compiled in its place.
    pub fn new(
        depth: i32,
        ext_depth: i32,
        visit_allow_pat: &str,
        visit_deny_pat: &str,
        down_allow_pat: &str,
        down_deny_pat: &str,
        visit_filter_is_download_filter: bool,
        continue_on_error: bool,
        dry_run: bool,
        verbose: bool,
        delay: u64,
        random_range: u64,
    ) -> (r: Result<CrawlPolicy, String>)
        ensures
            match r {
                Ok(p) => {
                    &&& p@.depth == depth as int
                    &&& p@.ext_depth == ext_depth as int
                    &&& p@.visit_allow == (if visit_filter_is_download_filter {
                        down_allow_pat@
                    } else {
                        visit_allow_pat@
                    })
                    &&& p@.visit_deny == (if visit_filter_is_download_filter {
                        down_deny_pat@
                    } else {
                        visit_deny_pat@
                    })
                    &&& p@.down_allow == down_allow_pat@
                    &&& p@.down_deny == down_deny_pat@
                    &&& p@.continue_on_error == continue_on_error
                    &&& p@.dry_run == dry_run
                    &&& p@.verbose == verbose
                    &&& p@.delay == delay as int
                    &&& p@.random_range == random_range as int
                },
                Err(_) => !regex_ok(visit_allow_pat@) || !regex_ok(visit_deny_pat@) || !regex_ok(
                    down_allow_pat@,
                ) || !regex_ok(down_deny_pat@),
            },
    {
        let down_allow = match Filter::compile(down_allow_pat) {
            Some(f) => f,
            None => {
                return Err("download filter pattern did not compile".to_owned());
            },
        };
        let down_deny = match Filter::compile(down_deny_pat) {
            Some(f) => f,
            None => {
                return Err("download filter pattern did not compile".to_owned());
            },
        };
        let visit_allow = if visit_filter_is_download_filter {
            match Filter::compile(down_allow_pat) {
                Some(f) => f,
                None => {
                    return Err("download filter pattern did not compile".to_owned());
                },
            }
        } else {
            match Filter::compile(visit_allow_pat) {
                Some(f) => f,
                None => {
                    return Err("visit filter pattern did not compile".to_owned());
                },
            }
        };
        let visit_deny = if visit_filter_is_download_filter {
            match Filter::compile(down_deny_pat) {
                Some(f) => f,
                None => {
                    return Err("download filter pattern did not compile".to_owned());
                },
            }
        } else {
            match Filter::compile(visit_deny_pat) {
                Some(f) => f,
                None => {
                    return Err("visit filter pattern did not compile".to_owned());
                },
            }
        };
        Ok(
            CrawlPolicy {
                depth,
                ext_depth,
                visit_allow,
                visit_deny,
                down_allow,
                down_deny,
                continue_on_error,
                dry_run,
                verbose,
                delay,
                random_range,
            },
        )
    }

    /// Whether a URL's children may be enqueued under the visit filter.
    pub fn visit_allowed(&self, serial: &str) -> (r: bool)
        ensures
            r == visit_allowed_spec(self@, serial@),
    {
        self.visit_allow.is_match(serial) && !self.visit_deny.is_match(serial)
    }

    /// Whether a URL's content may be persisted under the download
    /// filter.
    pub fn download_allowed(&self, serial: &str) -> (r: bool)
        ensures
            r == download_allowed_spec(self@, serial@),
    {
        self.down_allow.is_match(serial) && !self.down_deny.is_match(serial)
    }
}

/// The visit filter: the allow pattern matches and the deny pattern
/// does not.
pub open spec fn visit_allowed_spec(p: PolicySpec, serial: Seq<char>) -> bool {
    regex_match_of(p.visit_allow, serial) && !regex_match_of(p.visit_deny, serial)
}

/// The download filter: the allow pattern matches and the deny pattern
/// does not.
pub open spec fn download_allowed_spec(p: PolicySpec, serial: Seq<char>) -> bool {
    regex_match_of(p.down_allow, serial) && !regex_match_of(p.down_deny, serial)
}

/// Filter independence, download side: the download decision reads only
/// the download patterns, so two configurations that agree on them
/// decide saving alike whatever their visit patterns say.
pub proof fn lemma_download_filter_independent(p1: PolicySpec, p2: PolicySpec, serial: Seq<char>)
    requires
        p1.down_allow == p2.down_allow,
        p1.down_deny == p2.down_deny,
    ensures
        download_allowed_spec(p1, serial) == download_allowed_spec(p2, serial),
{
}

/// Filter independence, visit side: the visit decision reads only the
/// visit patterns, so a page excluded from downloading can still have
/// its children enqueued.
pub proof fn lemma_visit_filter_independent(p1: PolicySpec, p2: PolicySpec, serial: Seq<char>)
    requires
        p1.visit_allow == p2.visit_allow,
        p1.visit_deny == p2.visit_deny,
    ensures
        visit_allowed_spec(p1, serial) == visit_allowed_spec(p2, serial),
{
}

/// If a URL should be visited at all: pseudo-links (`mailto:`,
/// `javascript:` and the like) parse on their own but have no host or
/// cannot be a base; an unparseable candidate is kept, since it will be
/// resolved against the page.
pub open spec fn should_visit_spec(candidate: Seq<char>) -> bool {
    match url_parse_spec(candidate) {
        Some(u) => u.host is Some && !u.cannot_be_base,
        None => true,
    }
}

/// Executable form of `should_visit_spec`.
pub fn should_visit(url: &str) -> (r: bool)
    ensures
        r == should_visit_spec(url@),
{
    match parse_url(url) {
        Some(u) => u.host.is_some() && !u.cannot_be_base,
        None => true,
    }
}

/// `///` collapses to `//`, and `//` expands to `https://`, so that
/// protocol-relative and malformed triple-slash links resolve instead
/// of crashing resolution.
pub open spec fn normalize_spec(u: Seq<char>) -> Seq<char> {
    if starts_with(u, "///"@) {
        "https://"@ + u.skip(3)
    } else if starts_with(u, "//"@) {
        "https://"@ + u.skip(2)
    } else {
        u
    }
}

/// Executable form of `normalize_spec`.
pub fn normalize_url(url: String) -> (r: String)
    ensures
        r@ == normalize_spec(url@),
{
    if str_starts_with(url.as_str(), "///") {
        let mut out: String = "https://".to_owned();
        let n = url.as_str().unicode_len();
        proof {
            reveal_strlit("///");
        }
        append_range(&mut out, url.as_str(), 3, n);
        proof {
            assert(url@.subrange(3, n as int) =~= url@.skip(3));
        }
        out
    } else if str_starts_with(url.as_str(), "//") {
        let mut out: String = "https://".to_owned();
        let n = url.as_str().unicode_len();
        proof {
            reveal_strlit("//");
        }
        append_range(&mut out, url.as_str(), 2, n);
        proof {
            assert(url@.subrange(2, n as int) =~= url@.skip(2));
        }
        out
    } else {
        url
    }
}

/// Whether a candidate link, normalized, parses to a URL on a different
/// domain than the page it was found on; an unparseable candidate is
/// relative and stays on the page's domain.
pub open spec fn on_other_domain_spec(candidate: Seq<char>, base: UrlSpec) -> bool {
    match url_parse_spec(normalize_spec(candidate)) {
        Some(u) => u.domain != base.domain,
        None => false,
    }
}

fn opt_str_eq(a: &Option<String>, b: &Option<String>) -> (r: bool)
    ensures
        r == (a.deep_view() == b.deep_view()),
{
    match (a, b) {
        (None, None) => true,
        (Some(x), Some(y)) => str_eq(x.as_str(), y.as_str()),
        _ => false,
    }
}

/// Executable form of `on_other_domain_spec`.
pub fn is_on_another_domain(url: &str, base: &ParsedUrl) -> (r: bool)
    ensures
        r == on_other_domain_spec(url@, base@),
{
    let norm = normalize_url(String::from_str(url));
    match parse_url(norm.as_str()) {
        Some(u) => !opt_str_eq(&u.domain, &base.domain),
        None => false,
    }
}

/// Whether a fresh URL is enqueued, and as what: the visit filter must
/// pass; an external link needs room under the external depth limit and
/// advances only the external hop count; an internal link needs room
/// under the internal limit and advances only the internal hop count.
pub open spec fn enqueue_decision(
    p: PolicySpec,
    page: UrlSpec,
    cand: Seq<char>,
    ru: UrlSpec,
    depth: int,
    ext_depth: int,
) -> Option<ItemSpec> {
    if !visit_allowed_spec(p, ru.serial) {
        None
    } else if on_other_domain_spec(cand, page) {
        if (p.ext_depth == INFINITE_DEPTH as int && ext_depth < i32::MAX as int) || ext_depth
            < p.ext_depth {
            Some(ItemSpec { url: ru, depth: depth, ext_depth: ext_depth + 1 })
        } else {
            None
        }
    } else {
        if (p.depth == INFINITE_DEPTH as int && depth < i32::MAX as int) || depth < p.depth {
            Some(ItemSpec { url: ru, depth: depth + 1, ext_depth: ext_depth })
        } else {
            None
        }
    }
}

/// Depth monotonicity: an enqueued child advances exactly one hop
/// count by exactly one, and only within the configured limit (or under
/// an unbounded limit).
pub proof fn lemma_depth_monotonic(
    p: PolicySpec,
    page: UrlSpec,
    cand: Seq<char>,
    ru: UrlSpec,
    depth: int,
    ext_depth: int,
)
    ensures
        match enqueue_decision(p, page, cand, ru, depth, ext_depth) {
            Some(child) => {
                &&& child.url == ru
                &&& if on_other_domain_spec(cand, page) {
                    child.depth == depth && child.ext_depth == ext_depth + 1 && (p.ext_depth
                        == INFINITE_DEPTH as int || ext_depth < p.ext_depth)
                } else {
                    child.depth == depth + 1 && child.ext_depth == ext_depth && (p.depth
                        == INFINITE_DEPTH as int || depth < p.depth)
                }
            },
            None => true,
        },
{
}

/// A fatal condition the driver must end the run on.
#[derive(Debug, PartialEq, Eq, Structural)]
pub enum EngineError {
    /// A discovered link could not be resolved against its page.
    LinkResolve,
    /// A fetch failed after all retries and the run does not continue
    /// on errors.
    Fetch,
}

/// What the driver should do with a processed page's bytes.
#[derive(Debug, PartialEq, Eq)]
pub enum SavePlan {
    /// Nothing is persisted.
    Skip,
    /// Write the bytes at the mapped path.
    Save { path: String },
    /// Write the bytes under the server-suggested file name and link
    /// the mapped path to it.
    SaveAs { filename: String, link_path: String },
}

/// Ghost image of the engine's shared state: the URL-to-path table,
/// the queue, and the multiset of every URL ever enqueued.
pub ghost struct EngSt {
    pub table: Map<Seq<char>, Seq<char>>,
    pub queue: Seq<ItemSpec>,
    pub enqueued: Multiset<Seq<char>>,
}

/// One discovered link's effect: pseudo-links pass through untouched;
/// otherwise the link is normalized and resolved (`None` on failure, a
/// fatal condition), path-mapped and dedup-inserted, possibly enqueued,
/// and its rewritten value is the relative path from the page's
/// directory to the target's mapped path.
pub open spec fn link_step(
    st: EngSt,
    p: PolicySpec,
    page: UrlSpec,
    src_parent: Seq<char>,
    depth: int,
    ext_depth: int,
    cand: Seq<char>,
) -> Option<(EngSt, Seq<char>)> {
    if !should_visit_spec(cand) {
        Some((st, cand))
    } else {
        match url_resolve_spec(page.serial, normalize_spec(cand)) {
            None => None,
            Some(ru) => {
                if ru.host is None {
                    None
                } else {
                    let path = to_path_spec(ru, false);
                    let st2 = if st.table.contains_key(ru.serial) {
                        st
                    } else {
                        let t2 = st.table.insert(ru.serial, path);
                        match enqueue_decision(p, page, cand, ru, depth, ext_depth) {
                            Some(child) => EngSt {
                                table: t2,
                                queue: st.queue.push(child),
                                enqueued: st.enqueued.insert(ru.serial),
                            },
                            None => EngSt { table: t2, queue: st.queue, enqueued: st.enqueued },
                        }
                    };
                    Some((st2, rel_path_spec(path, src_parent)))
                }
            },
        }
    }
}

/// The outcome of processing a page's links in order.
pub ghost struct LinksOut {
    pub st: EngSt,
    pub vals: Seq<Seq<char>>,
    pub ok: bool,
}

/// Folding `link_step` over the candidates: on the first failure the
/// remaining values stay as they were and the run is marked failed.
pub open spec fn links_fold(
    st: EngSt,
    p: PolicySpec,
    page: UrlSpec,
    src_parent: Seq<char>,
    depth: int,
    ext_depth: int,
    cands: Seq<Seq<char>>,
) -> LinksOut
    decreases cands.len(),
{
    if cands.len() == 0 {
        LinksOut { st, vals: Seq::empty(), ok: true }
    } else {
        match link_step(st, p, page, src_parent, depth, ext_depth, cands[0]) {
            None => LinksOut { st, vals: cands, ok: false },
            Some(sv) => {
                let rest = links_fold(sv.0, p, page, src_parent, depth, ext_depth, cands.skip(1));
                LinksOut { st: rest.st, vals: seq![sv.1] + rest.vals, ok: rest.ok }
            },
        }
    }
}

/// The dedup invariant over the shared state: no URL is ever enqueued
/// twice, and every enqueued URL has a path in the table.
pub open spec fn st_inv(st: EngSt) -> bool {
    &&& forall|s: Seq<char>| #[trigger] st.enqueued.count(s) <= 1
    &&& forall|s: Seq<char>| #[trigger] st.enqueued.count(s) >= 1 ==> st.table.contains_key(s)
}

/// One link step preserves the dedup invariant: a URL is enqueued only
/// when its path is inserted for the first time, and the table never
/// forgets an entry.
pub proof fn lemma_link_step_dedup(
    st: EngSt,
    p: PolicySpec,
    page: UrlSpec,
    src_parent: Seq<char>,
    depth: int,
    ext_depth: int,
    cand: Seq<char>,
)
    requires
        st_inv(st),
    ensures
        match link_step(st, p, page, src_parent, depth, ext_depth, cand) {
            Some(sv) => st_inv(sv.0),
            None => true,
        },
{
    if should_visit_spec(cand) {
        match url_resolve_spec(page.serial, normalize_spec(cand)) {
            Some(ru) => {
                if ru.host is Some && !st.table.contains_key(ru.serial) {
                    let path = to_path_spec(ru, false);
                    match enqueue_decision(p, page, cand, ru, depth, ext_depth) {
                        Some(child) => {
                            lemma_inv_insert(
                                st.enqueued,
                                st.table,
                                ru.serial,
                                path,
                                st.enqueued.insert(ru.serial),
                                st.table.insert(ru.serial, path),
                            );
                        },
                        None => {
                            lemma_inv_grow(
                                st.enqueued,
                                st.table,
                                ru.serial,
                                path,
                                st.enqueued,
                                st.table.insert(ru.serial, path),
                            );
                        },
                    }
                }
            },
            None => {},
        }
    }
}

/// Dedup law over a whole page: folding the link steps over any
/// candidate list preserves the invariant, so however often and through
/// whatever spellings a URL is discovered, it is enqueued — and hence
/// fetched — at most once.
pub proof fn lemma_links_fold_dedup(
    st: EngSt,
    p: PolicySpec,
    page: UrlSpec,
    src_parent: Seq<char>,
    depth: int,
    ext_depth: int,
    cands: Seq<Seq<char>>,
)
    requires
        st_inv(st),
    ensures
        st_inv(links_fold(st, p, page, src_parent, depth, ext_depth, cands).st),
    decreases cands.len(),
{
    if cands.len() > 0 {
        lemma_link_step_dedup(st, p, page, src_parent, depth, ext_depth, cands[0]);
        match link_step(st, p, page, src_parent, depth, ext_depth, cands[0]) {
            Some(sv) => {
                lemma_links_fold_dedup(sv.0, p, page, src_parent, depth, ext_depth, cands.skip(1));
            },
            None => {},
        }
    }
}

/// The charset a page declares: sniffed from the markup first, else
/// the transport's, else none.
pub open spec fn sniff_charset_spec(data: Seq<u8>, http: Option<Seq<char>>) -> Option<Seq<char>> {
    match regex_capture_of(META_CHARSET_PATTERN@, utf8_lossy_of(data)) {
        Some(c) => Some(lower_of(c)),
        None => http,
    }
}

/// The charset a page is handled under: the declared one, `utf-8` when
/// none is declared.
pub open spec fn page_charset_spec(data: Seq<u8>, http: Option<Seq<char>>) -> Seq<char> {
    match sniff_charset_spec(data, http) {
        Some(c) => c,
        None => "utf-8"@,
    }
}

/// The label conversion actually runs under: an unsupported label falls
/// back to `utf-8`.
pub open spec fn effective_label(label: Seq<char>) -> Seq<char> {
    if charset_supported(label) {
        label
    } else {
        "utf-8"@
    }
}

/// The text a page's bytes decode to: converted through its declared
/// charset when that is not `utf-8`, read as UTF-8 otherwise.
pub open spec fn page_text_spec(data: Seq<u8>, http: Option<Seq<char>>) -> Seq<char> {
    let sniffed = page_charset_spec(data, http);
    if sniffed != "utf-8"@ {
        utf8_lossy_of(encode_of("utf-8"@, decode_of(effective_label(sniffed), data)))
    } else {
        utf8_lossy_of(data)
    }
}

/// The bytes a rewritten page serializes to: converted back to the
/// declared charset when that is not `utf-8`.
pub open spec fn page_out_spec(data: Seq<u8>, http: Option<Seq<char>>, serialized: Seq<char>) -> Seq<
    u8,
> {
    let sniffed = page_charset_spec(data, http);
    if sniffed != "utf-8"@ {
        encode_of(effective_label(sniffed), decode_of("utf-8"@, encode_utf8(serialized)))
    } else {
        encode_utf8(serialized)
    }
}

/// The save decision for a fetched page: nothing on a dry run or when
/// the download filter excludes it; under a server-suggested file name
/// with a link from the mapped path when one was suggested; at the
/// mapped path otherwise.
pub open spec fn plan_matches(
    plan: SavePlan,
    p: PolicySpec,
    serial: Seq<char>,
    path: Seq<char>,
    filename: Option<Seq<char>>,
) -> bool {
    if !p.dry_run && download_allowed_spec(p, serial) {
        match filename {
            Some(f) => match plan {
                SavePlan::SaveAs { filename: ff, link_path: lp } => ff@ == f && lp@ == path,
                _ => false,
            },
            None => match plan {
                SavePlan::Save { path: pp } => pp@ == path,
                _ => false,
            },
        }
    } else {
        plan is Skip
    }
}

proof fn lemma_inv_same(
    enq_old: Multiset<Seq<char>>,
    t_old: Map<Seq<char>, Seq<char>>,
    enq_new: Multiset<Seq<char>>,
    t_new: Map<Seq<char>, Seq<char>>,
)
    requires
        enq_new == enq_old,
        t_new == t_old,
        forall|s: Seq<char>| #[trigger] enq_old.count(s) <= 1,
        forall|s: Seq<char>| #[trigger] enq_old.count(s) >= 1 ==> t_old.contains_key(s),
    ensures
        forall|s: Seq<char>| #[trigger] enq_new.count(s) <= 1,
        forall|s: Seq<char>| #[trigger] enq_new.count(s) >= 1 ==> t_new.contains_key(s),
{
    assert forall|s: Seq<char>| #[trigger] enq_new.count(s) <= 1 by {
        assert(enq_old.count(s) <= 1);
    }
    assert forall|s: Seq<char>| #[trigger] enq_new.count(s) >= 1 implies t_new.contains_key(
        s,
    ) by {
        assert(enq_old.count(s) >= 1 ==> t_old.contains_key(s));
    }
}

proof fn lemma_inv_insert(
    enq_old: Multiset<Seq<char>>,
    t_old: Map<Seq<char>, Seq<char>>,
    serial: Seq<char>,
    path: Seq<char>,
    enq_new: Multiset<Seq<char>>,
    t_new: Map<Seq<char>, Seq<char>>,
)
    requires
        enq_new == enq_old.insert(serial),
        t_new == t_old.insert(serial, path),
        !t_old.contains_key(serial),
        forall|s: Seq<char>| #[trigger] enq_old.count(s) <= 1,
        forall|s: Seq<char>| #[trigger] enq_old.count(s) >= 1 ==> t_old.contains_key(s),
    ensures
        forall|s: Seq<char>| #[trigger] enq_new.count(s) <= 1,
        forall|s: Seq<char>| #[trigger] enq_new.count(s) >= 1 ==> t_new.contains_key(s),
{
    assert(enq_old.count(serial) >= 1 ==> t_old.contains_key(serial));
    assert(enq_old.count(serial) == 0);
    assert forall|s: Seq<char>| #[trigger] enq_new.count(s) <= 1 by {
        assert(enq_old.count(s) <= 1);
        if s == serial {
            assert(enq_new.count(s) == enq_old.count(s) + 1);
        } else {
            assert(enq_new.count(s) == enq_old.count(s));
        }
    }
    assert forall|s: Seq<char>| #[trigger] enq_new.count(s) >= 1 implies t_new.contains_key(
        s,
    ) by {
        if s != serial {
            assert(enq_new.count(s) == enq_old.count(s));
            assert(enq_old.count(s) >= 1 ==> t_old.contains_key(s));
        }
    }
}

/// Grow the table without enqueueing: the invariant survives any new
/// table entry.
proof fn lemma_inv_grow(
    enq_old: Multiset<Seq<char>>,
    t_old: Map<Seq<char>, Seq<char>>,
    serial: Seq<char>,
    path: Seq<char>,
    enq_new: Multiset<Seq<char>>,
    t_new: Map<Seq<char>, Seq<char>>,
)
    requires
        enq_new == enq_old,
        t_new == t_old.insert(serial, path),
        forall|s: Seq<char>| #[trigger] enq_old.count(s) <= 1,
        forall|s: Seq<char>| #[trigger] enq_old.count(s) >= 1 ==> t_old.contains_key(s),
    ensures
        forall|s: Seq<char>| #[trigger] enq_new.count(s) <= 1,
        forall|s: Seq<char>| #[trigger] enq_new.count(s) >= 1 ==> t_new.contains_key(s),
{
    assert forall|s: Seq<char>| #[trigger] enq_new.count(s) <= 1 by {
        assert(enq_old.count(s) <= 1);
    }
    assert forall|s: Seq<char>| #[trigger] enq_new.count(s) >= 1 implies t_new.contains_key(
        s,
    ) by {
        assert(enq_old.count(s) >= 1 ==> t_old.contains_key(s));
    }
}

/// The crawl engine's state: policy, work queue, dedup table and
/// bookkeeping.
pub struct Scraper {
    policy: CrawlPolicy,
    meta_charset_re: Filter,
    queue: Vec<WorkItem>,
    in_flight: usize,
    visited_urls: VisitedSet,
    path_map: PathTable,
    enqueued: Ghost<Multiset<Seq<char>>>,
}

impl Scraper {
    /// The configuration.
    pub closed spec fn policy_view(&self) -> PolicySpec {
        self.policy@
    }

    /// The pending work items, in order.
    pub closed spec fn queue_view(&self) -> Seq<ItemSpec> {
        self.queue.deep_view()
    }

    /// The URL-to-path table.
    pub closed spec fn table_view(&self) -> Map<Seq<char>, Seq<char>> {
        self.path_map@
    }

    /// The URLs whose fetch attempt has completed.
    pub closed spec fn visited_view(&self) -> Set<Seq<char>> {
        self.visited_urls@
    }

    /// Every URL ever enqueued, with multiplicity.
    pub closed spec fn enqueued_view(&self) -> Multiset<Seq<char>> {
        self.enqueued@
    }

    /// Dequeued items not yet reported finished.
    pub closed spec fn in_flight_view(&self) -> int {
        self.in_flight as int
    }

    /// The shared state as one value.
    pub open spec fn st(&self) -> EngSt {
        EngSt {
            table: self.table_view(),
            queue: self.queue_view(),
            enqueued: self.enqueued_view(),
        }
    }

    /// The engine's invariant: no URL is ever enqueued twice, and every
    /// enqueued URL has its path in the table.
    pub closed spec fn inv(&self) -> bool {
        &&& forall|s: Seq<char>| #[trigger] self.enqueued_view().count(s) <= 1
        &&& forall|s: Seq<char>|
            #[trigger] self.enqueued_view().count(s) >= 1 ==> self.table_view().contains_key(s)
        &&& self.meta_charset_re@ == META_CHARSET_PATTERN@
    }

    /// Dedup law: the engine's operations preserve the invariant that
    /// bounds every URL's lifetime enqueue count by one, so each URL is
    /// fetched at most once however often and from wherever it is
    /// discovered.
    pub proof fn lemma_dedup(&self)
        requires
            self.inv(),
        ensures
            forall|s: Seq<char>| #[trigger] self.enqueued_view().count(s) <= 1,
    {
    }

    /// A fresh engine: empty queue, empty table, nothing enqueued.
    pub fn new(policy: CrawlPolicy) -> (r: Result<Scraper, String>)
        ensures
            match r {
                Ok(s) => {
                    &&& s.inv()
                    &&& s.policy_view() == policy@
                    &&& s.queue_view() == Seq::<ItemSpec>::empty()
                    &&& s.table_view() == Map::<Seq<char>, Seq<char>>::empty()
                    &&& s.visited_view() == Set::<Seq<char>>::empty()
                    &&& s.enqueued_view() == Multiset::<Seq<char>>::empty()
                    &&& s.in_flight_view() == 0
                },
                Err(_) => !regex_ok(META_CHARSET_PATTERN@),
            },
    {
        let meta = match Filter::compile(META_CHARSET_PATTERN) {
            Some(f) => f,
            None => {
                return Err("charset pattern did not compile".to_owned());
            },
        };
        let s = Scraper {
            policy,
            meta_charset_re: meta,
            queue: Vec::new(),
            in_flight: 0,
            visited_urls: VisitedSet::new(),
            path_map: PathTable::new(),
            enqueued: Ghost(Multiset::empty()),
        };
        proof {
            assert(s.queue.deep_view() =~= Seq::<ItemSpec>::empty());
        }
        Ok(s)
    }

    /// Seed the crawl: map the origin's path and enqueue it at depth
    /// zero, when it is new.
    pub fn start(&mut self, origin: &ParsedUrl)
        requires
            old(self).inv(),
            origin@.host is Some,
        ensures
            final(self).inv(),
            final(self).policy_view() == old(self).policy_view(),
            final(self).visited_view() == old(self).visited_view(),
            final(self).in_flight_view() == old(self).in_flight_view(),
            if old(self).table_view().contains_key(origin@.serial) {
                final(self).st() == old(self).st()
            } else {
                &&& final(self).table_view() == old(self).table_view().insert(
                    origin@.serial,
                    to_path_spec(origin@, false),
                )
                &&& final(self).queue_view() == old(self).queue_view().push(
                    ItemSpec { url: origin@, depth: 0, ext_depth: 0 },
                )
                &&& final(self).enqueued_view() == old(self).enqueued_view().insert(origin@.serial)
            },
    {
        let path = to_path(origin, false);
        let inserted = self.path_map.insert_if_absent(&origin.serial, path);
        if inserted {
            let ghost pre = self.queue.deep_view();
            self.queue.push(WorkItem { url: origin.duplicate(), depth: 0, ext_depth: 0 });
            proof {
                self.enqueued@ = self.enqueued@.insert(origin@.serial);
                assert(self.queue.deep_view() =~= pre.push(
                    ItemSpec { url: origin@, depth: 0, ext_depth: 0 },
                ));
                lemma_inv_insert(
                    old(self).enqueued_view(),
                    old(self).table_view(),
                    origin@.serial,
                    to_path_spec(origin@, false),
                    self.enqueued_view(),
                    self.table_view(),
                );
            }
        } else {
            proof {
                lemma_inv_same(
                    old(self).enqueued_view(),
                    old(self).table_view(),
                    self.enqueued_view(),
                    self.table_view(),
                );
            }
        }
    }

    /// Hand out the oldest pending item, counting it in flight.
    pub fn dequeue(&mut self) -> (r: Option<WorkItem>)
        requires
            old(self).inv(),
            old(self).in_flight_view() < usize::MAX as int,
        ensures
            final(self).inv(),
            final(self).policy_view() == old(self).policy_view(),
            final(self).table_view() == old(self).table_view(),
            final(self).visited_view() == old(self).visited_view(),
            final(self).enqueued_view() == old(self).enqueued_view(),
            match r {
                None => {
                    &&& old(self).queue_view().len() == 0
                    &&& final(self).queue_view() == old(self).queue_view()
                    &&& final(self).in_flight_view() == old(self).in_flight_view()
                },
                Some(it) => {
                    &&& old(self).queue_view().len() > 0
                    &&& it@ == old(self).queue_view()[0]
                    &&& final(self).queue_view() == old(self).queue_view().skip(1)
                    &&& final(self).in_flight_view() == old(self).in_flight_view() + 1
                },
            },
    {
        if self.queue.len() == 0 {
            return None;
        }
        let it = self.queue.remove(0);
        self.in_flight += 1;
        proof {
            assert(self.queue.deep_view() =~= old(self).queue.deep_view().skip(1));
            lemma_inv_same(
                old(self).enqueued_view(),
                old(self).table_view(),
                self.enqueued_view(),
                self.table_view(),
            );
        }
        Some(it)
    }

    /// Report a dequeued item fully processed.
    pub fn finish_item(&mut self)
        requires
            old(self).inv(),
            old(self).in_flight_view() > 0,
        ensures
            final(self).inv(),
            final(self).policy_view() == old(self).policy_view(),
            final(self).st() == old(self).st(),
            final(self).visited_view() == old(self).visited_view(),
            final(self).in_flight_view() == old(self).in_flight_view() - 1,
    {
        self.in_flight -= 1;
        proof {
            lemma_inv_same(
                old(self).enqueued_view(),
                old(self).table_view(),
                self.enqueued_view(),
                self.table_view(),
            );
        }
    }

    /// The run is complete: no pending and no in-flight work.
    pub fn is_done(&self) -> (r: bool)
        ensures
            r == (self.queue_view().len() == 0 && self.in_flight_view() == 0),
    {
        self.queue.len() == 0 && self.in_flight == 0
    }

    /// The seconds a worker should pause after a fetch, given the extra
    /// seconds drawn at random: none when both delay knobs are zero,
    /// the base delay plus the extra otherwise, saturating.
    pub fn sleep_seconds(&self, extra: u64) -> (r: Option<u64>)
        ensures
            match r {
                None => self.policy_view().delay == 0 && self.policy_view().random_range == 0,
                Some(s) => (self.policy_view().delay != 0 || self.policy_view().random_range != 0)
                    && s == (if self.policy_view().delay + extra > u64::MAX as int {
                    u64::MAX as int
                } else {
                    self.policy_view().delay + extra
                }),
            },
    {
        if self.policy.delay == 0 && self.policy.random_range == 0 {
            return None;
        }
        if extra > u64::MAX - self.policy.delay {
            Some(u64::MAX)
        } else {
            Some(self.policy.delay + extra)
        }
    }

    /// Process one discovered link: skip pseudo-links, normalize and
    /// resolve the candidate, assign it a path on first sight, enqueue
    /// it when policy allows, and return the link's rewritten value.
    fn step_link(
        &mut self,
        page: &ParsedUrl,
        source_parent: &String,
        depth: i32,
        ext_depth: i32,
        cand: &String,
    ) -> (r: Result<String, EngineError>)
        requires
            old(self).inv(),
        ensures
            final(self).inv(),
            final(self).policy_view() == old(self).policy_view(),
            final(self).visited_view() == old(self).visited_view(),
            final(self).in_flight_view() == old(self).in_flight_view(),
            match link_step(
                old(self).st(),
                old(self).policy_view(),
                page@,
                source_parent@,
                depth as int,
                ext_depth as int,
                cand@,
            ) {
                Some(sv) => r is Ok && r.unwrap()@ == sv.1 && final(self).st() == sv.0,
                None => r == Err::<String, EngineError>(EngineError::LinkResolve)
                    && final(self).st() == old(self).st(),
            },
    {
        if !should_visit(cand.as_str()) {
            return Ok(cand.clone());
        }
        let norm = normalize_url(cand.clone());
        let ru = match resolve_link(page.serial.as_str(), norm.as_str()) {
            Some(u) => u,
            None => {
                return Err(EngineError::LinkResolve);
            },
        };
        if ru.host.is_none() {
            return Err(EngineError::LinkResolve);
        }
        let ghost gru = ru@;
        let path = to_path(&ru, false);
        let inserted = self.path_map.insert_if_absent(&ru.serial, path.clone());
        if inserted {
            let enqueue: Option<WorkItem> = if !self.policy.visit_allowed(ru.serial.as_str()) {
                None
            } else if is_on_another_domain(cand.as_str(), page) {
                if (self.policy.ext_depth == INFINITE_DEPTH && ext_depth < i32::MAX) || ext_depth
                    < self.policy.ext_depth {
                    Some(WorkItem { url: ru, depth, ext_depth: ext_depth + 1 })
                } else {
                    None
                }
            } else {
                if (self.policy.depth == INFINITE_DEPTH && depth < i32::MAX) || depth
                    < self.policy.depth {
                    Some(WorkItem { url: ru, depth: depth + 1, ext_depth })
                } else {
                    None
                }
            };
            match enqueue {
                Some(item) => {
                    let ghost preq = self.queue.deep_view();
                    let ghost itemv = item@;
                    self.queue.push(item);
                    proof {
                        self.enqueued@ = self.enqueued@.insert(gru.serial);
                        assert(self.queue.deep_view() =~= preq.push(itemv));
                        lemma_inv_insert(
                            old(self).enqueued_view(),
                            old(self).table_view(),
                            gru.serial,
                            to_path_spec(gru, false),
                            self.enqueued_view(),
                            self.table_view(),
                        );
                    }
                },
                None => {
                    proof {
                        lemma_inv_grow(
                            old(self).enqueued_view(),
                            old(self).table_view(),
                            gru.serial,
                            to_path_spec(gru, false),
                            self.enqueued_view(),
                            self.table_view(),
                        );
                    }
                },
            }
        } else {
            proof {
                lemma_inv_same(
                    old(self).enqueued_view(),
                    old(self).table_view(),
                    self.enqueued_view(),
                    self.table_view(),
                );
            }
        }
        Ok(relative_path(path.as_str(), source_parent.as_str()))
    }

    /// Process an HTML page: decode it under its declared charset,
    /// discover its links, rewrite each to the relative path of its
    /// target, enqueue the admissible fresh ones, and return the page
    /// re-encoded for persistence.
    pub fn handle_html(
        &mut self,
        url: &ParsedUrl,
        depth: i32,
        ext_depth: i32,
        data: &[u8],
        http_charset: Option<String>,
    ) -> (r: Result<Vec<u8>, EngineError>)
        requires
            old(self).inv(),
            old(self).table_view().contains_key(url@.serial),
        ensures
            final(self).inv(),
            final(self).policy_view() == old(self).policy_view(),
            final(self).visited_view() == old(self).visited_view(),
            final(self).in_flight_view() == old(self).in_flight_view(),
            ({
                let text = page_text_spec(data@, http_charset.deep_view());
                let out = links_fold(
                    old(self).st(),
                    old(self).policy_view(),
                    url@,
                    parent_dir_spec(old(self).table_view()[url@.serial]),
                    depth as int,
                    ext_depth as int,
                    html_links(text),
                );
                &&& final(self).st() == out.st
                &&& match r {
                    Ok(bytes) => out.ok && bytes@ == page_out_spec(
                        data@,
                        http_charset.deep_view(),
                        html_serialized(text, out.vals),
                    ),
                    Err(e) => !out.ok && e == EngineError::LinkResolve,
                }
            }),
    {
        let ghost hview = http_charset.deep_view();
        let sniffed: String = match self.find_charset(data, crate::urls::clone_opt_string(&http_charset)) {
            Some(c) => c,
            None => "utf-8".to_owned(),
        };
        proof {
            assert(sniffed@ == page_charset_spec(data@, hview));
        }
        let conv = !str_eq(sniffed.as_str(), "utf-8");
        let cs: Charset = match Charset::for_label(sniffed.as_str()) {
            Some(c) => c,
            None => Charset::utf8(),
        };
        proof {
            assert(cs@ == effective_label(sniffed@));
        }
        let text: String = if conv {
            let utf8cs = Charset::utf8();
            let b = charset_convert(data, &cs, &utf8cs);
            utf8_lossy(b.as_slice())
        } else {
            utf8_lossy(data)
        };
        proof {
            assert(text@ == page_text_spec(data@, hview));
        }

        let mut dom = Dom::new(text.as_str());
        let source_path: String = match self.path_map.get(&url.serial) {
            Some(p) => p.clone(),
            None => unreached(),
        };
        let parent: String = parent_dir(source_path.as_str());
        proof {
            assert(source_path@ == old(self).table_view()[url@.serial]);
            assert(parent@ == parent_dir_spec(old(self).table_view()[url@.serial]));
        }
        let n = dom.link_count();
        let ghost p = self.policy_view();
        let ghost sp = parent@;
        let ghost cands = dom.links_view();
        let ghost st0 = self.st();
        let mut i: usize = 0;
        proof {
            assert(cands.skip(0) =~= cands);
            let rest0 = links_fold(self.st(), p, url@, sp, depth as int, ext_depth as int, cands);
            assert(dom.links_view().take(0) + rest0.vals =~= rest0.vals);
        }
        while i < n
            invariant
                self.inv(),
                i <= n,
                n == cands.len(),
                cands == html_links(text@),
                text@ == page_text_spec(data@, hview),
                dom.wf(),
                dom.source_view() == text@,
                dom.links_view().len() == n,
                dom.links_view().skip(i as int) == cands.skip(i as int),
                self.policy_view() == old(self).policy_view(),
                self.visited_view() == old(self).visited_view(),
                self.in_flight_view() == old(self).in_flight_view(),
                p == old(self).policy_view(),
                st0 == old(self).st(),
                sp == parent_dir_spec(old(self).table_view()[url@.serial]),
                sp == parent@,
                hview == http_charset.deep_view(),
                links_fold(st0, p, url@, sp, depth as int, ext_depth as int, cands) == ({
                    let rest = links_fold(
                        self.st(),
                        p,
                        url@,
                        sp,
                        depth as int,
                        ext_depth as int,
                        cands.skip(i as int),
                    );
                    LinksOut {
                        st: rest.st,
                        vals: dom.links_view().take(i as int) + rest.vals,
                        ok: rest.ok,
                    }
                }),
            decreases n - i,
        {
            let cand: String = dom.link_at(i).clone();
            proof {
                assert(cands.skip(i as int)[0] == cands[i as int]);
                assert(cand@ == cands[i as int]);
            }
            let ghost st_i = self.st();
            let step = self.step_link(url, &parent, depth, ext_depth, &cand);
            match step {
                Ok(v) => {
                    let ghost vv = v@;
                    let ghost pre_links = dom.links_view();
                    dom.set_link(i, v);
                    proof {
                        let tail = cands.skip(i as int);
                        assert(tail.len() > 0);
                        assert(tail[0] == cand@);
                        let stepres = link_step(
                            st_i,
                            p,
                            url@,
                            sp,
                            depth as int,
                            ext_depth as int,
                            cand@,
                        );
                        assert(stepres is Some);
                        assert(stepres.unwrap().0 == self.st());
                        assert(stepres.unwrap().1 == vv);
                        assert(tail.skip(1) =~= cands.skip(i + 1));
                        let rest_next = links_fold(
                            self.st(),
                            p,
                            url@,
                            sp,
                            depth as int,
                            ext_depth as int,
                            cands.skip(i + 1),
                        );
                        let rest_i = links_fold(
                            st_i,
                            p,
                            url@,
                            sp,
                            depth as int,
                            ext_depth as int,
                            tail,
                        );
                        assert(rest_i.st == rest_next.st);
                        assert(rest_i.vals == seq![vv] + rest_next.vals);
                        assert(rest_i.ok == rest_next.ok);
                        assert(dom.links_view().skip(i + 1) =~= cands.skip(i + 1));
                        assert(dom.links_view().take(i + 1) =~= pre_links.take(i as int).push(
                            vv,
                        ));
                        assert(pre_links.take(i as int).push(vv) + rest_next.vals
                            =~= pre_links.take(i as int) + (seq![vv] + rest_next.vals));
                    }
                },
                Err(e) => {
                    proof {
                        let tail = cands.skip(i as int);
                        assert(tail.len() > 0);
                        assert(tail[0] == cand@);
                        let stepres = link_step(
                            st_i,
                            p,
                            url@,
                            sp,
                            depth as int,
                            ext_depth as int,
                            cand@,
                        );
                        assert(stepres is None);
                        let rest_i = links_fold(
                            st_i,
                            p,
                            url@,
                            sp,
                            depth as int,
                            ext_depth as int,
                            tail,
                        );
                        assert(rest_i.st == st_i && rest_i.vals == tail && !rest_i.ok);
                        assert(dom.links_view().take(i as int) + tail =~= dom.links_view());
                    }
                    return Err(e);
                },
            }
            i += 1;
        }
        proof {
            assert(cands.skip(n as int) =~= Seq::<Seq<char>>::empty());
            assert(dom.links_view().take(n as int) =~= dom.links_view());
            assert(dom.links_view().take(n as int) + Seq::<Seq<char>>::empty() =~= dom.links_view());
        }
        let ser: String = dom.serialize();
        if conv {
            let utf8cs = Charset::utf8();
            let ser_bytes = ser.as_str().as_bytes_vec();
            Ok(charset_convert(ser_bytes.as_slice(), &utf8cs, &cs))
        } else {
            Ok(ser.as_str().as_bytes_vec())
        }
    }

    /// Process one fetched unit of work. An HTML payload goes through
    /// link discovery and rewriting; any other payload passes through
    /// unchanged. The save plan applies the download filter to the
    /// page's URL. A fetch that failed after all retries is fatal
    /// unless the run continues on errors, in which case the page is
    /// only recorded as visited.
    pub fn handle_url(
        &mut self,
        url: &ParsedUrl,
        depth: i32,
        ext_depth: i32,
        outcome: Option<Response>,
    ) -> (r: Result<(Option<Vec<u8>>, SavePlan), EngineError>)
        requires
            old(self).inv(),
            old(self).table_view().contains_key(url@.serial),
        ensures
            final(self).inv(),
            final(self).policy_view() == old(self).policy_view(),
            final(self).in_flight_view() == old(self).in_flight_view(),
            match outcome {
                None => if old(self).policy_view().continue_on_error {
                    &&& r is Ok
                    &&& r.unwrap().0 is None
                    &&& r.unwrap().1 is Skip
                    &&& final(self).st() == old(self).st()
                    &&& final(self).visited_view() == old(self).visited_view().insert(url@.serial)
                } else {
                    &&& r == Err::<(Option<Vec<u8>>, SavePlan), EngineError>(EngineError::Fetch)
                    &&& final(self).st() == old(self).st()
                    &&& final(self).visited_view() == old(self).visited_view()
                },
                Some(resp) => match resp.data {
                    ResponseData::Html(d) => ({
                        let text = page_text_spec(d@, resp.charset.deep_view());
                        let out = links_fold(
                            old(self).st(),
                            old(self).policy_view(),
                            url@,
                            parent_dir_spec(old(self).table_view()[url@.serial]),
                            depth as int,
                            ext_depth as int,
                            html_links(text),
                        );
                        &&& final(self).st() == out.st
                        &&& if out.ok {
                            &&& r is Ok
                            &&& r.unwrap().0 is Some
                            &&& r.unwrap().0.unwrap()@ == page_out_spec(
                                d@,
                                resp.charset.deep_view(),
                                html_serialized(text, out.vals),
                            )
                            &&& plan_matches(
                                r.unwrap().1,
                                old(self).policy_view(),
                                url@.serial,
                                old(self).table_view()[url@.serial],
                                resp.filename.deep_view(),
                            )
                            &&& final(self).visited_view() == old(self).visited_view().insert(
                                url@.serial,
                            )
                        } else {
                            &&& r == Err::<(Option<Vec<u8>>, SavePlan), EngineError>(
                                EngineError::LinkResolve,
                            )
                            &&& final(self).visited_view() == old(self).visited_view()
                        }
                    }),
                    ResponseData::Css(d) => ({
                        &&& final(self).st() == old(self).st()
                        &&& r is Ok
                        &&& r.unwrap().0 is Some
                        &&& r.unwrap().0.unwrap()@ == d@
                        &&& plan_matches(
                            r.unwrap().1,
                            old(self).policy_view(),
                            url@.serial,
                            old(self).table_view()[url@.serial],
                            resp.filename.deep_view(),
                        )
                        &&& final(self).visited_view() == old(self).visited_view().insert(
                            url@.serial,
                        )
                    }),
                    ResponseData::Other(d) => ({
                        &&& final(self).st() == old(self).st()
                        &&& r is Ok
                        &&& r.unwrap().0 is Some
                        &&& r.unwrap().0.unwrap()@ == d@
                        &&& plan_matches(
                            r.unwrap().1,
                            old(self).policy_view(),
                            url@.serial,
                            old(self).table_view()[url@.serial],
                            resp.filename.deep_view(),
                        )
                        &&& final(self).visited_view() == old(self).visited_view().insert(
                            url@.serial,
                        )
                    }),
                },
            },
    {
        let resp = match outcome {
            Some(resp) => resp,
            None => {
                if self.policy.continue_on_error {
                    self.visited_urls.insert(url.serial.clone());
                    proof {
                        lemma_inv_same(
                            old(self).enqueued_view(),
                            old(self).table_view(),
                            self.enqueued_view(),
                            self.table_view(),
                        );
                    }
                    return Ok((None, SavePlan::Skip));
                } else {
                    return Err(EngineError::Fetch);
                }
            },
        };
        let path: String = match self.path_map.get(&url.serial) {
            Some(p) => p.clone(),
            None => unreached(),
        };
        let Response { data, filename, charset } = resp;
        let bytes: Vec<u8> = match data {
            ResponseData::Html(d) => {
                match self.handle_html(url, depth, ext_depth, d.as_slice(), charset) {
                    Ok(b) => b,
                    Err(e) => {
                        return Err(e);
                    },
                }
            },
            ResponseData::Css(d) => d,
            ResponseData::Other(d) => d,
        };
        let plan: SavePlan = if !self.policy.dry_run && self.policy.download_allowed(
            url.serial.as_str(),
        ) {
            match filename {
                Some(f) => SavePlan::SaveAs { filename: f, link_path: path },
                None => SavePlan::Save { path },
            }
        } else {
            SavePlan::Skip
        };
        let ghost mid_enq = self.enqueued_view();
        let ghost mid_t = self.table_view();
        self.visited_urls.insert(url.serial.clone());
        proof {
            lemma_inv_same(mid_enq, mid_t, self.enqueued_view(), self.table_view());
        }
        Ok((Some(bytes), plan))
    }

    /// The path mapped for a URL serialization, if one was assigned.
    pub fn get_mapped_path(&self, serial: &String) -> (r: Option<&String>)
        ensures
            match r {
                Some(v) => self.table_view().contains_key(serial@) && v@ == self.table_view()[
                    serial@
                ],
                None => !self.table_view().contains_key(serial@),
            },
    {
        self.path_map.get(serial)
    }

    /// Whether a URL's fetch attempt has completed.
    pub fn was_visited(&self, serial: &String) -> (r: bool)
        ensures
            r == self.visited_view().contains(serial@),
    {
        self.visited_urls.contains(serial)
    }

    /// Number of pending work items.
    pub fn pending(&self) -> (n: usize)
        ensures
            n == self.queue_view().len(),
    {
        self.queue.len()
    }

    /// Number of dequeued items not yet reported finished.
    pub fn current_in_flight(&self) -> (n: usize)
        ensures
            n as int == self.in_flight_view(),
    {
        self.in_flight
    }

    /// Find the charset of a page: a `<meta charset=...>` declaration
    /// in the markup first, else the transport's, lowercased.
    pub fn find_charset(&self, data: &[u8], http_charset: Option<String>) -> (r: Option<String>)
        requires
            self.inv(),
        ensures
            r.deep_view() == sniff_charset_spec(data@, http_charset.deep_view()),
    {
        let lossy = utf8_lossy(data);
        match self.meta_charset_re.first_capture(lossy.as_str()) {
            Some(c) => Some(lowercase(c.as_str())),
            None => http_charset,
        }
    }
}

} // verus!
