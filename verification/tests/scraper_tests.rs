use suckit::response::Response;
use suckit::response::ResponseData;
use suckit::scraper::CrawlPolicy;
use suckit::scraper::EngineError;
use suckit::scraper::SavePlan;
use suckit::scraper::Scraper;
use suckit::scraper::is_on_another_domain;
use suckit::scraper::normalize_url;
use suckit::scraper::should_visit;
use suckit::urls::parse_url;

fn policy(
    depth: i32,
    ext_depth: i32,
    down_allow: &str,
    down_deny: &str,
    continue_on_error: bool,
    delay: u64,
    random_range: u64,
) -> CrawlPolicy {
    CrawlPolicy::new(
        depth,
        ext_depth,
        ".*",
        "$^",
        down_allow,
        down_deny,
        false,
        continue_on_error,
        false,
        true,
        delay,
        random_range,
    )
    .unwrap()
}

#[test]
fn test_zero_delay_range() {
    let origin = parse_url("https://example.com/").unwrap();
    let _downloader = suckit::downloader::Downloader::new(1, &[], &origin).unwrap();
    let _ = Scraper::new(policy(5, 0, "jpg", "png", true, 0, 0)).unwrap();
}

#[test]
fn test_non_zero_delay_range() {
    let origin = parse_url("https://example.com/").unwrap();
    let _downloader = suckit::downloader::Downloader::new(1, &[], &origin).unwrap();
    let _ = Scraper::new(policy(5, 0, "jpg", "png", true, 2, 5)).unwrap();
}

fn html_response(body: &[u8]) -> Response {
    Response::new(ResponseData::Html(body.to_vec()), None, None)
}

// Origin linking to an internal file and an external site, run with
// internal depth 1 and external depth 0: the internal file is enqueued,
// the external URL is path-mapped but never enqueued.
#[test]
fn internal_followed_external_mapped_only() {
    let origin = parse_url("http://h/").unwrap();
    let mut s = Scraper::new(policy(1, 0, ".*", "$^", false, 0, 0)).unwrap();
    s.start(&origin);

    let item = s.dequeue().unwrap();
    assert_eq!(item.url.serial, "http://h/");
    assert_eq!((item.depth, item.ext_depth), (0, 0));

    let page = b"<html><body><a href=\"a_file\">x</a><a href=\"http://other/\">y</a></body></html>";
    let r = s
        .handle_url(&item.url, item.depth, item.ext_depth, Some(html_response(page)))
        .unwrap();

    // The internal link is the only enqueued child, one hop deeper.
    let child = s.dequeue().unwrap();
    assert_eq!(child.url.serial, "http://h/a_file");
    assert_eq!((child.depth, child.ext_depth), (1, 0));
    assert!(s.dequeue().is_none());

    // Both links were path-mapped, so both rewrite correctly.
    assert_eq!(
        s.get_mapped_path(&"http://h/a_file".to_string()).map(|p| p.clone()),
        Some("h/a_file/index_no_slash.html".to_string())
    );
    assert_eq!(
        s.get_mapped_path(&"http://other/".to_string()).map(|p| p.clone()),
        Some("other/index.html".to_string())
    );

    let (bytes, plan) = r;
    let out = String::from_utf8(bytes.unwrap()).unwrap();
    assert!(out.contains("a_file/index_no_slash.html"));
    assert!(out.contains("../other/index.html"));
    match plan {
        SavePlan::Save { path } => assert_eq!(path, "h/index.html"),
        _ => panic!("expected a plain save"),
    }
    assert!(s.was_visited(&"http://h/".to_string()));
}

// The same URL discovered twice, through different spellings, is
// enqueued only once.
#[test]
fn duplicate_links_enqueued_once() {
    let origin = parse_url("http://h/").unwrap();
    let mut s = Scraper::new(policy(-1, 0, ".*", "$^", false, 0, 0)).unwrap();
    s.start(&origin);
    let item = s.dequeue().unwrap();
    let page =
        b"<html><body><a href=\"a\">1</a><a href=\"./a\">2</a><a href=\"http://h/a\">3</a></body></html>";
    s.handle_url(&item.url, 0, 0, Some(html_response(page))).unwrap();
    let first = s.dequeue().unwrap();
    assert_eq!(first.url.serial, "http://h/a");
    assert!(s.dequeue().is_none());
}

// A page kept from being saved by the download filter still has its
// children discovered and enqueued.
#[test]
fn download_excluded_page_still_visits_children() {
    let origin = parse_url("http://h/").unwrap();
    let mut s = Scraper::new(policy(1, 0, "$^", "$^", false, 0, 0)).unwrap();
    s.start(&origin);
    let item = s.dequeue().unwrap();
    let page = b"<html><body><a href=\"child\">c</a></body></html>";
    let (_, plan) = s
        .handle_url(&item.url, 0, 0, Some(html_response(page)))
        .unwrap();
    assert!(matches!(plan, SavePlan::Skip));
    let child = s.dequeue().unwrap();
    assert_eq!(child.url.serial, "http://h/child");
}

// Transport failed on every attempt and the run does not continue on
// errors: the engine reports a fatal condition and plans no write.
#[test]
fn fetch_failure_is_fatal_without_continue() {
    let origin = parse_url("http://h/").unwrap();
    let mut s = Scraper::new(policy(1, 0, ".*", "$^", false, 0, 0)).unwrap();
    s.start(&origin);
    let item = s.dequeue().unwrap();
    let r = s.handle_url(&item.url, 0, 0, None);
    assert_eq!(r, Err(EngineError::Fetch));
    assert!(!s.was_visited(&"http://h/".to_string()));
}

#[test]
fn fetch_failure_continues_when_asked() {
    let origin = parse_url("http://h/").unwrap();
    let mut s = Scraper::new(policy(1, 0, ".*", "$^", true, 0, 0)).unwrap();
    s.start(&origin);
    let item = s.dequeue().unwrap();
    let r = s.handle_url(&item.url, 0, 0, None).unwrap();
    assert!(r.0.is_none());
    assert!(matches!(r.1, SavePlan::Skip));
    assert!(s.was_visited(&"http://h/".to_string()));
}

#[test]
fn depth_limit_stops_enqueueing() {
    let origin = parse_url("http://h/").unwrap();
    let mut s = Scraper::new(policy(0, 0, ".*", "$^", false, 0, 0)).unwrap();
    s.start(&origin);
    let item = s.dequeue().unwrap();
    let page = b"<html><body><a href=\"child\">c</a></body></html>";
    s.handle_url(&item.url, 0, 0, Some(html_response(page))).unwrap();
    assert!(s.dequeue().is_none());
    // Mapped all the same, so the link still rewrites.
    assert!(s.get_mapped_path(&"http://h/child".to_string()).is_some());
}

#[test]
fn non_html_passes_through() {
    let origin = parse_url("http://h/x.bin").unwrap();
    let mut s = Scraper::new(policy(1, 0, ".*", "$^", false, 0, 0)).unwrap();
    s.start(&origin);
    let item = s.dequeue().unwrap();
    let resp = Response::new(
        ResponseData::Other(vec![1u8, 2, 3]),
        Some("blob.bin".to_string()),
        None,
    );
    let (bytes, plan) = s.handle_url(&item.url, 0, 0, Some(resp)).unwrap();
    assert_eq!(bytes.unwrap(), vec![1u8, 2, 3]);
    match plan {
        SavePlan::SaveAs { filename, link_path } => {
            assert_eq!(filename, "blob.bin");
            assert_eq!(link_path, "h//x.bin");
        },
        _ => panic!("expected a save under the suggested name"),
    }
}

#[test]
fn sleep_decisions() {
    let s = Scraper::new(policy(1, 0, ".*", "$^", false, 0, 0)).unwrap();
    assert_eq!(s.sleep_seconds(0), None);
    let s2 = Scraper::new(policy(1, 0, ".*", "$^", false, 2, 5)).unwrap();
    assert_eq!(s2.sleep_seconds(3), Some(5));
}

#[test]
fn should_visit_skips_pseudo_links() {
    assert!(!should_visit("mailto:someone@example.com"));
    assert!(!should_visit("javascript:void(0)"));
    assert!(should_visit("https://example.com/x"));
    assert!(should_visit("relative/path.html"));
}

#[test]
fn normalize_protocol_relative() {
    assert_eq!(normalize_url("//cdn.example.com/x".to_string()), "https://cdn.example.com/x");
    assert_eq!(normalize_url("///cdn.example.com/x".to_string()), "https://cdn.example.com/x");
    assert_eq!(normalize_url("/plain".to_string()), "/plain");
}

// The visit filter decides which children enter the queue; everything
// is still path-mapped for rewriting.
#[test]
fn visit_filter_gates_enqueue() {
    let origin = parse_url("http://h/").unwrap();
    let p = CrawlPolicy::new(-1, 0, "mp3", "$^", ".*", "$^", false, false, false, false, 0, 0)
        .unwrap();
    let mut s = Scraper::new(p).unwrap();
    s.start(&origin);
    let item = s.dequeue().unwrap();
    let page = b"<html><body><a href=\"song.mp3\">s</a><a href=\"pic.jpg\">p</a></body></html>";
    s.handle_url(&item.url, 0, 0, Some(html_response(page))).unwrap();
    let child = s.dequeue().unwrap();
    assert_eq!(child.url.serial, "http://h/song.mp3");
    assert!(s.dequeue().is_none());
    assert!(s.get_mapped_path(&"http://h/pic.jpg".to_string()).is_some());
}

// Declaring the visit filter to be the download filter substitutes the
// download patterns at construction.
#[test]
fn visit_filter_is_download_filter_substitutes() {
    let p = CrawlPolicy::new(1, 0, "va", "vd", "da", "dd", true, false, false, false, 0, 0)
        .unwrap();
    assert!(p.visit_allow.is_match("--da--"));
    assert!(!p.visit_allow.is_match("--va--"));
    assert!(p.visit_deny.is_match("--dd--"));
}

#[test]
fn domain_comparison() {
    let base = parse_url("http://h/").unwrap();
    assert!(is_on_another_domain("http://other/", &base));
    assert!(!is_on_another_domain("http://h/deep", &base));
    assert!(!is_on_another_domain("relative", &base));
}
