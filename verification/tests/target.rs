use update_mapped::target::TargetDir;

#[test]
fn no_directory_stays_empty() {
    assert_eq!(TargetDir::new("").as_str(), "");
}

#[test]
fn root_stays_root() {
    assert_eq!(TargetDir::new("/").as_str(), "/");
}

#[test]
fn separator_is_added_where_missing() {
    assert_eq!(TargetDir::new("/a").as_str(), "/a/");
    assert_eq!(TargetDir::new("/a/b").as_str(), "/a/b/");
    assert_eq!(TargetDir::new("rel").as_str(), "rel/");
    assert_eq!(TargetDir::new("/d\u{00E9}p\u{00F4}t").as_str(), "/d\u{00E9}p\u{00F4}t/");
}

#[test]
fn separator_is_not_added_twice() {
    assert_eq!(TargetDir::new("/a/").as_str(), "/a/");
    assert_eq!(TargetDir::new("/a//").as_str(), "/a//");
    assert_eq!(TargetDir::new("//").as_str(), "//");
}

#[test]
fn unrestricted_is_none_or_root() {
    assert!(TargetDir::new("").is_unrestricted());
    assert!(TargetDir::new("/").is_unrestricted());
    assert!(!TargetDir::new("/a").is_unrestricted());
    assert!(!TargetDir::new("//").is_unrestricted());
    assert!(!TargetDir::new("a").is_unrestricted());
}

#[test]
fn directory_filter() {
    let dir = TargetDir::new("/a/");
    assert_eq!(dir.display_path("/a/b"), Some("b"));
    assert_eq!(dir.display_path("/c/d"), None);
}

#[test]
fn directory_filter_without_trailing_separator_given() {
    let dir = TargetDir::new("/a");
    assert_eq!(dir.display_path("/a/b"), Some("b"));
    assert_eq!(dir.display_path("/a/b/c.txt"), Some("b/c.txt"));
    assert_eq!(dir.display_path("/a/"), Some(""));
    assert_eq!(dir.display_path("/a"), None);
    assert_eq!(dir.display_path("/ab/c"), None);
    assert_eq!(dir.display_path("a/b"), None);
    assert_eq!(dir.display_path(""), None);
}

#[test]
fn root_target_is_a_no_op_filter() {
    let dir = TargetDir::new("/");
    assert_eq!(dir.display_path("/a/b"), Some("/a/b"));
    assert_eq!(dir.display_path("/"), Some("/"));
    assert_eq!(dir.display_path("relative/path"), Some("relative/path"));
    assert_eq!(dir.display_path(""), Some(""));
}

#[test]
fn no_target_is_a_no_op_filter() {
    let dir = TargetDir::new("");
    assert_eq!(dir.display_path("/a/b"), Some("/a/b"));
    assert_eq!(dir.display_path("relative/path"), Some("relative/path"));
    assert_eq!(dir.display_path(""), Some(""));
}
