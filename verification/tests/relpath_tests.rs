use suckit::relpath::join_path;
use suckit::relpath::relative_path;
use suckit::relpath::split_path;

#[test]
fn relative_path_between_mapped_files() {
    assert_eq!(relative_path("h/b/c.png", "h/a"), "../b/c.png");
    assert_eq!(relative_path("h/a/x.html", "h/a"), "x.html");
    assert_eq!(relative_path("other/index.html", "h"), "../other/index.html");
}

#[test]
fn split_and_join_are_inverse() {
    let segs = split_path("h/a/b.html");
    let owned: Vec<String> = segs.clone();
    assert_eq!(owned, vec!["h", "a", "b.html"]);
    assert_eq!(join_path(&segs), "h/a/b.html");
}

// Resolving the rewritten link from the source page's directory lands
// exactly on the target's path.
#[test]
fn rewrite_round_trip() {
    let dest = "h/sub/dir/page.html";
    let base = "h/other/branch";
    let rel = relative_path(dest, base);
    let mut stack: Vec<&str> = base.split('/').collect();
    for seg in rel.split('/') {
        if seg == ".." {
            stack.pop();
        } else {
            stack.push(seg);
        }
    }
    assert_eq!(stack.join("/"), dest);
}
