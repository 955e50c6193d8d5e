use suckit::downloader::Downloader;
use suckit::downloader::parse_auth;
use suckit::response::ResponseData;
use suckit::urls::parse_url;

#[test]
fn test_parse_auth() {
    assert_eq!(
        parse_auth(
            &["".to_string(), "pw".to_string()],
            &parse_url("https://example.com/").unwrap(),
        ),
        Err("Invalid arguments supplied to auth".to_string())
    );
    assert_eq!(
        parse_auth(
            &["username".to_string()],
            &parse_url("https://example.com/").unwrap(),
        ),
        Ok(("username".to_string(), None, "example.com".to_string()))
    );
    assert_eq!(
        parse_auth(
            &[
                "un".to_string(),
                "pw".to_string(),
                "h".to_string(),
                "t".to_string()
            ],
            &parse_url("https://example.com/").unwrap(),
        ),
        Ok(("un".to_string(), Some("pw".to_string()), "h".to_string()))
    )
}

#[test]
fn auth_exact_host_only() {
    let origin = parse_url("https://example.com/").unwrap();
    let auth = vec![
        "user".to_string(),
        "pass".to_string(),
        "example.com".to_string(),
    ];
    let d = Downloader::new(3, &auth, &origin).unwrap();
    assert_eq!(d.tries(), 3);
    assert_eq!(
        d.get_auth(&parse_url("https://example.com/page").unwrap()),
        Some(("user".to_string(), Some("pass".to_string())))
    );
    assert_eq!(d.get_auth(&parse_url("https://other.com/").unwrap()), None);
    assert_eq!(d.get_auth(&parse_url("https://sub.example.com/").unwrap()), None);
}

#[test]
fn classify_html_with_charset() {
    let origin = parse_url("https://example.com/").unwrap();
    let d = Downloader::new(1, &[], &origin).unwrap();
    let r = d.classify(
        Some("text/HTML; charset=UTF-8"),
        None,
        b"<html></html>".to_vec(),
    );
    assert_eq!(r.charset.as_deref(), Some("utf-8"));
    assert!(r.filename.is_none());
    match r.data {
        ResponseData::Html(b) => assert_eq!(b, b"<html></html>".to_vec()),
        _ => panic!("expected an HTML payload"),
    }
}

#[test]
fn classify_other_with_filename() {
    let origin = parse_url("https://example.com/").unwrap();
    let d = Downloader::new(1, &[], &origin).unwrap();
    let r = d.classify(
        Some("application/pdf"),
        Some("attachment; filename=report.pdf"),
        b"%PDF".to_vec(),
    );
    assert_eq!(r.filename.as_deref(), Some("report.pdf"));
    assert!(r.charset.is_none());
    match r.data {
        ResponseData::Other(b) => assert_eq!(b, b"%PDF".to_vec()),
        _ => panic!("expected a non-HTML payload"),
    }
}

#[test]
fn classify_missing_header_defaults_to_html() {
    let origin = parse_url("https://example.com/").unwrap();
    let d = Downloader::new(1, &[], &origin).unwrap();
    let r = d.classify(None, Some("attachment; filename=x"), b"data".to_vec());
    assert!(matches!(r.data, ResponseData::Html(_)));
    assert!(r.filename.is_none());
}

#[test]
fn get_filename_without_equals() {
    assert_eq!(Downloader::get_filename(Some("attachment")), None);
    assert_eq!(Downloader::get_filename(None), None);
    assert_eq!(
        Downloader::get_filename(Some("name=a=b")),
        Some("a=b".to_string())
    );
}

#[test]
fn is_html_checks_media_type() {
    assert!(Downloader::is_html("text/html; charset=x"));
    assert!(!Downloader::is_html("application/json"));
}
