use suckit::urls::parse_url;
use suckit::urls::str_percent_encode;
use suckit::urls::str_to_url;
use suckit::urls::url_to_path;

#[test]
fn disk_url_to_path() {
    let str = url_to_path(&parse_url("https://lwn.net/Kernel/").unwrap());

    assert_eq!(str, "lwn_net_Kernel");
}

#[test]
fn url_to_path_long() {
    let str = url_to_path(&parse_url("https://e8v0pez1lofdxoxgg5vwrnaqkjuvpowp9wtgc2eknlfpjdwmmfti8fcwyjzfdgys3nrgyqyeqjkulpyg9kfiqajza2bwxkinhhpohyrnnoy2bak374tcaxh1ycpboolmx8so9yq9kbcj5wu5cgymqndeqasdak0nvl0ijka6fkkmhhvt43l73bn38rewicd4h1ff2omhpni752jtqyzsjub5coh8dlnr3i35udmkzhxo4db3is9gnqmf3hl.comtest").unwrap());

    assert_eq!(str, "e8v0pez1lofdxoxgg5vwrnaqkjuvpowp9wtgc2eknlfpjdwmmfti8fcwyjzfdgys3nrgyqyeqjkulpyg9kfiqajza2bwxkinhhpohyrnnoy2bak374tcaxh1ycpboolmx8so9yq9kbcj5wu5cgymqndeqasdak0nvl0ijka6fkkmhhvt43l73bn38rewicd4h1ff2omhpni752jtqyzsjub5coh8dlnr3i35udmkzhxo4db3is9gnqmf3hl_com");
}

#[test]
fn percent_encode_question_mark() {
    assert_eq!(str_percent_encode("a?b"), "a%3Fb");
    assert_eq!(str_percent_encode("plain"), "plain");
    assert_eq!(str_percent_encode("tab\there"), "tab%09here");
}

#[test]
fn str_to_url_parses_after_escaping() {
    let u = str_to_url("https://example.com/a?b").unwrap();
    assert_eq!(u.serial, "https://example.com/a%3Fb");
    assert!(str_to_url("not a url").is_err());
}

#[test]
fn parse_url_components() {
    let u = parse_url("https://user.example.com/dir/file.txt?k=v#frag").unwrap();
    assert_eq!(u.scheme, "https");
    assert_eq!(u.host.as_deref(), Some("user.example.com"));
    assert_eq!(u.domain.as_deref(), Some("user.example.com"));
    assert_eq!(u.path, "/dir/file.txt");
    assert_eq!(u.query.as_deref(), Some("k=v"));
    assert_eq!(u.fragment.as_deref(), Some("frag"));
    assert!(!u.cannot_be_base);
    assert!(parse_url("mailto:a@b").unwrap().host.is_none());
    assert!(parse_url("relative/path").is_none());
}

#[test]
fn resolve_link_joins_and_drops_fragment() {
    let r = suckit::urls::resolve_link("http://h/dir/page.html", "../other.html#x").unwrap();
    assert_eq!(r.serial, "http://h/other.html");
    assert!(r.fragment.is_none());
    assert!(suckit::urls::resolve_link("not a base", "x").is_none());
}
