use suckit::parser::find_urls;

#[test]
fn test_find_urls() {
    let vec = find_urls(
        "<a href= \"https://lol.com\">
            <img src  = \"url2\">"
            .to_string(),
    );

    assert_eq!(vec, ["https://lol.com", "url2"]);
}
