use suckit::css_parser::css;

#[test]
fn stylesheet_urls_extracted() {
    let scanner = css::new();
    let urls = scanner.parse("@import url(foo.png); background: url(bar.cur), auto;");
    assert_eq!(urls, vec!["foo.png".to_string(), "bar.cur".to_string()]);
    assert_eq!(scanner.parse("color: red;"), Vec::<String>::new());
}
