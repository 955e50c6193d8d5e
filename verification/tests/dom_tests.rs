use suckit::dom::Dom;

#[test]
fn new() {
    let _dom = Dom::new("<html></html>");
}

#[test]
fn find_urls_as_strings() {
    let url1 = "https://upload.wikimedia.org/wikipedia/commons/thumb/3/34/Anser_anser_1_%28Piotr_Kuczynski%29.jpg/800px-Anser_anser_1_%28Piotr_Kuczynski%29.jpg";
    let url2 = "test";
    let dom = Dom::new("<img src=https://upload.wikimedia.org/wikipedia/commons/thumb/3/34/Anser_anser_1_%28Piotr_Kuczynski%29.jpg/800px-Anser_anser_1_%28Piotr_Kuczynski%29.jpg>
            <img src=test>");
    let vec = dom.find_urls_as_strings();

    assert_eq!(vec[0], url1);
    assert_eq!(vec[1], url2);
}

#[test]
fn set_link_rewrites_serialization() {
    let mut dom = Dom::new("<html><head></head><body><a href=\"old\">x</a></body></html>");
    assert_eq!(dom.link_count(), 1);
    assert_eq!(dom.link_at(0), "old");
    dom.set_link(0, "new/path.html".to_string());
    let out = dom.serialize();
    assert!(out.contains("new/path.html"));
    assert!(!out.contains("\"old\""));
}

#[test]
fn src_preferred_over_href() {
    let dom = Dom::new("<img src=\"a.png\" href=\"b.png\">");
    let vec = dom.find_urls_as_strings();
    assert_eq!(vec, ["a.png"]);
}
