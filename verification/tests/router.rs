use pandora_web::router::{Path, PathMatch};

fn tail(prefix: &str, path: &str) -> Option<String> {
    Path::new(prefix.as_bytes())
        .remove_prefix_from(path.as_bytes())
        .map(|tail| String::from_utf8(tail).unwrap())
}

#[test]
fn path_tails() {
    assert_eq!(tail("/path", "/path").as_deref(), Some("/"));
    assert_eq!(tail("/path", "/path/").as_deref(), Some("/"));
    assert_eq!(tail("/path", "/path/file.txt").as_deref(), Some("/file.txt"));
    assert_eq!(tail("/path/", "//path//file/").as_deref(), Some("//file/"));
    assert_eq!(tail("/path/sub", "/path/sub/x").as_deref(), Some("/x"));
    assert_eq!(tail("/", "/path").as_deref(), Some("/path"));
    assert_eq!(tail("", "").as_deref(), Some("/"));
    assert_eq!(tail("/path", "/pathology"), None);
    assert_eq!(tail("/path/sub", "/path"), None);
    assert_eq!(tail("/path", "/"), None);
}

#[test]
fn prefix_and_tail_make_up_the_path() {
    let path = "/a//bc/d/";
    for prefix in ["/", "/a", "/a/bc", "/a/bc/d"] {
        let tail = tail(prefix, path).unwrap();
        let joined = Path::new(format!("{prefix}{tail}").as_bytes());
        assert!(joined.is_same(&Path::new(path.as_bytes())));
        assert!(tail.starts_with('/'));
    }
}

#[test]
fn path_comparison() {
    let path = Path::new(b"/a/b");
    assert_eq!(path.depth(), 2);
    assert!(path.is_same(&Path::new(b"a//b/")));
    assert!(!path.is_same(&Path::new(b"/a/b/c")));
    assert!(path.is_prefix_of(&Path::new(b"/a/b/c")));
    assert!(!path.is_prefix_of(&Path::new(b"/a")));
    assert!(!path.is_prefix_of(&Path::new(b"/a/bc")));
    assert_eq!(Path::new(b"///").depth(), 0);
}

#[test]
fn pattern_selection() {
    let exact = PathMatch::new("/path");
    assert!(exact.exact);
    assert!(exact.matches(&Path::new(b"/path")));
    assert!(!exact.matches(&Path::new(b"/path/file")));

    let prefix = PathMatch::new("/path/*");
    assert!(!prefix.exact);
    assert!(prefix.matches(&Path::new(b"/path")));
    assert!(prefix.matches(&Path::new(b"/path/file")));
    assert!(!prefix.matches(&Path::new(b"/other")));

    assert!(PathMatch::new("/*").matches(&Path::new(b"/")));
    assert!(PathMatch::new("/path*").exact);
}

#[test]
fn pattern_precedence() {
    let exact = PathMatch::new("/path");
    let prefix = PathMatch::new("/path/*");
    let longer = PathMatch::new("/path/sub/*");
    assert!(exact.beats(&prefix));
    assert!(!prefix.beats(&exact));
    assert!(longer.beats(&exact));
    assert!(longer.beats(&prefix));
    assert!(!exact.beats(&PathMatch::new("/path")));
}

#[test]
fn pattern_order() {
    // More specific patterns come first, then it is up to the path.
    let patterns = ["/b/c", "/b/a/*", "/b/ab/*", "/x", "/a/*", "/aa/*", "/b/*", "/*"];
    for (i, a) in patterns.iter().enumerate() {
        for (j, b) in patterns.iter().enumerate() {
            let (a, b) = (PathMatch::new(a), PathMatch::new(b));
            assert_eq!(a.precedes(&b), i < j);
            assert_eq!(a == b, i == j);
        }
    }
    assert_eq!(PathMatch::new("/a//b/"), PathMatch::new("a/b"));
    assert_ne!(PathMatch::new("/a"), PathMatch::new("/a/*"));
    assert_eq!(Path::new(b"/a/b").clone(), Path::new(b"/a/b"));
    assert!(Path::new(b"/a").is_before(&Path::new(b"/a/b")));
    assert!(Path::new(b"/a/z").is_before(&Path::new(b"/b")));
    assert!(!Path::new(b"/a").is_before(&Path::new(b"/a")));
}
