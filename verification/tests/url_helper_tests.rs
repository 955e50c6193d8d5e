use suckit::urls::parse_url;
use suckit::url_helper::to_path;

fn parsed(s: &str) -> suckit::urls::ParsedUrl {
    parse_url(s).unwrap()
}

#[test]
fn url_to_path_domain_only() {
    let str = to_path(&parsed("https://lwn.net/"), false);

    assert_eq!(str, "lwn.net/index.html");
}

#[test]
fn url_to_path_domain_only_no_slash() {
    let str = to_path(&parsed("https://lwn.net"), false);

    assert_eq!(str, "lwn.net/index.html");
}

#[test]
fn url_helper_url_to_path() {
    let str = to_path(&parsed("https://lwn.net/Kernel/index.html"), false);

    assert_eq!(str, "lwn.net/Kernel/index.html");
}

#[test]
fn url_to_path_index() {
    let str = to_path(&parsed("https://lwn.net/Kernel/"), false);

    assert_eq!(str, "lwn.net/Kernel/index.html");
}

#[test]
fn url_to_path_index_no_slash() {
    let str = to_path(&parsed("https://lwn.net/Kernel"), false);

    assert_eq!(str, "lwn.net/Kernel/index_no_slash.html");
}

#[test]
fn url_to_path_fragment() {
    let str = to_path(&parsed("https://lwn.net/Kernel/#fragment"), true);

    assert_eq!(str, "lwn.net/Kernel/index.html#fragment");
}

#[test]
fn url_to_path_no_fragment() {
    let str = to_path(&parsed("https://lwn.net/Kernel/#fragment"), false);

    assert_eq!(str, "lwn.net/Kernel/index.html");
}

#[test]
fn url_to_path_to_long_md5() {
    let str = to_path(&parsed("https://lwn.net/Kernel/aaaaaaaaaaaaaaaaaaaaaaaaaaaaaaaaaaaaaaaaaaaaaaaaaaaaaaaaaaaaaaaaaaaaaaaaaaaaaaaaaaaaaaaaaaaaaaaaaaaaaaaaaaaaaaaaaaaaaaaaaaaaaaaaaaaaaaaaaaaaaaaaaaaaaaaaaaaaaaaaaaaaaaaaaaaaaaaaaaaaaaaaaaaaaaaaaaaaaaaaaaaaaaaaaaaaaaaaaaaaaaaaaaaaaaaaaaaaaaaaaaaaaaaaaaaaaaaa.html"), false);

    assert_eq!(str, "lwn.net/Kernel/5ca82767de71fe8930587e82bb994903.html");
}

#[test]
fn url_to_path_querystrings() {
    let str = to_path(
        &parsed("https://google.com/foobar/platform-redirect/?next=/configuration/releases/"),
        false,
    );
    assert_eq!(str, "google.com/foobar/platform-redirect/__querystring__next=/configuration/releases/index.html");
}

#[test]
fn to_path_distinct_queries_distinct_paths() {
    let a = to_path(&parsed("https://h/p?x=1"), false);
    let b = to_path(&parsed("https://h/p?x=2"), false);
    assert_ne!(a, b);
}
