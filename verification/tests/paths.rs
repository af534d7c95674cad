use tere::paths::{normalize_path, path_components};

#[test]
fn normalize_removes_dots() {
    assert_eq!(normalize_path("/a/./b/../c"), "/a/c");
    assert_eq!(normalize_path("a/b/../../.."), "");
    assert_eq!(normalize_path("/.."), "/");
    assert_eq!(normalize_path("./x//y/"), "x/y");
}

#[test]
fn normalized_path_has_no_dot_components() {
    for p in ["/a/./b/../c", "../x/./y/..", "/../../z", "a/b/c/../../d"] {
        let n = normalize_path(p);
        for c in path_components(&n) {
            assert!(c != "." && c != "..", "{p} gave {n}");
        }
    }
}

#[test]
fn normalize_is_idempotent() {
    for p in ["/a/./b/../c", "../x/./y/..", "/../../z", "a/b/c/../../d", "/", ""] {
        let once = normalize_path(p);
        assert_eq!(normalize_path(&once), once);
    }
}

#[test]
fn normalize_keeps_absolute_paths_absolute() {
    assert!(normalize_path("/../a/..").starts_with('/'));
}

#[test]
fn normalize_keeps_relative_paths_relative() {
    for p in ["a/../..", "../../x", "./y", "a/b"] {
        assert!(!normalize_path(p).starts_with('/'), "{p}");
    }
}
