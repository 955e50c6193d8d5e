use suckit::strutil::find_char;
use suckit::strutil::lowercase;
use suckit::strutil::rfind_char;
use suckit::strutil::str_contains_seq;
use suckit::strutil::str_starts_with;
use suckit::strutil::trim_end_char;
use suckit::strutil::utf8_lossy;

#[test]
fn searching_and_trimming() {
    assert!(str_contains_seq("content: text/html; x", "text/html"));
    assert!(!str_contains_seq("content: text/plain", "text/html"));
    assert!(str_starts_with("//host", "//"));
    assert_eq!(find_char("a=b=c", '='), Some(1));
    assert_eq!(rfind_char("a/b/c", '/'), Some(3));
    assert_eq!(find_char("abc", 'x'), None);
    assert_eq!(trim_end_char("path///", '/'), "path");
}

#[test]
fn lowercase_and_lossy() {
    assert_eq!(lowercase("WINDOWS-1252"), "windows-1252");
    let b: Vec<u8> = vec![b'a', 0xFF, b'b'];
    assert_eq!(utf8_lossy(&b), "a\u{fffd}b");
}
