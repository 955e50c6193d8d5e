use suckit::filters::Filter;
use suckit::downloader::DATA_TYPE_PATTERN;
use suckit::downloader::CHARSET_PATTERN;

#[test]
fn compile_and_match() {
    let f = Filter::compile("mp[3-4]").unwrap();
    assert!(f.is_match("http://h/song.mp3"));
    assert!(!f.is_match("http://h/image.jpg"));
    assert!(Filter::compile("(").is_none());
}

#[test]
fn header_patterns_capture() {
    let dt = Filter::compile(DATA_TYPE_PATTERN).unwrap();
    assert_eq!(
        dt.first_capture("text/html; charset=utf-8"),
        Some("text/html".to_string())
    );
    let cs = Filter::compile(CHARSET_PATTERN).unwrap();
    assert_eq!(
        cs.first_capture("text/html; charset=\"ISO-8859-1\""),
        Some("ISO-8859-1".to_string())
    );
    assert_eq!(cs.first_capture("application/json"), None);
}
