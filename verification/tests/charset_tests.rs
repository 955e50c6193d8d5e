use suckit::charset::Charset;
use suckit::charset::charset_convert;
use suckit::dom::Dom;
use suckit::response::Response;
use suckit::response::ResponseData;
use suckit::scraper::CrawlPolicy;
use suckit::scraper::Scraper;
use suckit::urls::parse_url;

#[test]
fn lookup_labels() {
    assert!(Charset::for_label("utf-8").is_some());
    assert!(Charset::for_label("windows-1252").is_some());
    assert!(Charset::for_label("no-such-charset").is_none());
}

#[test]
fn convert_round_trip() {
    let win = Charset::for_label("windows-1252").unwrap();
    let utf8 = Charset::utf8();
    let original: Vec<u8> = vec![b'c', b'a', b'f', 0xE9];
    let as_utf8 = charset_convert(&original, &win, &utf8);
    assert_eq!(as_utf8, "caf\u{e9}".as_bytes().to_vec());
    let back = charset_convert(&as_utf8, &utf8, &win);
    assert_eq!(back, original);
}

// A page without a transport charset whose markup declares
// windows-1252: the engine decodes through that charset and encodes it
// back on output, so the persisted bytes equal the source bytes.
#[test]
fn declared_charset_round_trips_page() {
    let text = "<html><head><meta charset=\"windows-1252\"></head><body>caf\u{e9}</body></html>";
    // The serialized tree must reproduce the source for a byte-level
    // round trip to be observable.
    let fixed_point = Dom::new(text).serialize();
    assert_eq!(fixed_point, text);

    let win = Charset::for_label("windows-1252").unwrap();
    let data = win.encode(text);
    assert!(data.contains(&0xE9u8));

    let origin = parse_url("http://h/").unwrap();
    let policy = CrawlPolicy::new(0, 0, ".*", "$^", ".*", "$^", false, false, false, false, 0, 0)
        .unwrap();
    let mut s = Scraper::new(policy).unwrap();
    s.start(&origin);
    let item = s.dequeue().unwrap();
    let resp = Response::new(ResponseData::Html(data.clone()), None, None);
    let (bytes, _) = s.handle_url(&item.url, 0, 0, Some(resp)).unwrap();
    assert_eq!(bytes.unwrap(), data);
}

// No meta declaration in the markup: the transport's charset governs
// the conversion instead.
#[test]
fn transport_charset_used_without_meta() {
    let text = "<html><head></head><body>caf\u{e9}</body></html>";
    let fixed_point = Dom::new(text).serialize();
    assert_eq!(fixed_point, text);

    let win = Charset::for_label("windows-1252").unwrap();
    let data = win.encode(text);

    let origin = parse_url("http://h/").unwrap();
    let policy = CrawlPolicy::new(0, 0, ".*", "$^", ".*", "$^", false, false, false, false, 0, 0)
        .unwrap();
    let mut s = Scraper::new(policy).unwrap();
    s.start(&origin);
    let item = s.dequeue().unwrap();
    let resp = Response::new(
        ResponseData::Html(data.clone()),
        None,
        Some("windows-1252".to_string()),
    );
    let (bytes, _) = s.handle_url(&item.url, 0, 0, Some(resp)).unwrap();
    assert_eq!(bytes.unwrap(), data);
}

#[test]
fn unsupported_label_falls_back_to_utf8() {
    let utf8 = Charset::utf8();
    let text = "plain ascii";
    assert_eq!(utf8.encode(text), text.as_bytes().to_vec());
    assert_eq!(utf8.decode(text.as_bytes()), text);
}
