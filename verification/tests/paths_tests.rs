use ci_transfer::paths::{basename, ends_with_separator, join_under, map_destination};

#[test]
fn map_single_source_verbatim() {
    assert_eq!(map_destination("a.txt", "d", false), "d");
    assert_eq!(map_destination("some/deep/path.bin", "/srv/target", false), "/srv/target");
}

#[test]
fn map_directory_style_destination() {
    assert_eq!(map_destination("f.txt", "d/", false), "d/f.txt");
    assert_eq!(map_destination("f.txt", "d/", true), "d/f.txt");
    assert_eq!(map_destination("x/f.txt", "/remote/out/", false), "/remote/out/f.txt");
}

#[test]
fn map_multi_source_bare_destination() {
    assert_eq!(map_destination("a.txt", "d", true), "d/a.txt");
    assert_eq!(map_destination("b.txt", "d", true), "d/b.txt");
}

#[test]
fn basename_cases() {
    assert_eq!(basename("a/b/c.txt"), "c.txt");
    assert_eq!(basename("dir/"), "dir");
    assert_eq!(basename("name"), "name");
    assert_eq!(basename("/"), "");
    assert_eq!(basename(""), "");
    assert_eq!(basename("/abs/path"), "path");
}

#[test]
fn join_under_cases() {
    assert_eq!(join_under("out", "a/b"), "out/a/b");
    assert_eq!(join_under("out/", "x"), "out/x");
    assert_eq!(join_under("", "x"), "x");
}

#[test]
fn separator_detection() {
    assert!(ends_with_separator("d/"));
    assert!(!ends_with_separator("d"));
    assert!(!ends_with_separator(""));
}
