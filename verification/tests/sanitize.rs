use addon_installer::paths::sanitize_path;

fn segs(parts: &[&str]) -> Vec<String> {
    parts.iter().map(|s| s.to_string()).collect()
}

#[test]
fn plain_relative_name_is_kept() {
    assert_eq!(sanitize_path("AddonA/init.lua"), segs(&["AddonA", "init.lua"]));
}

#[test]
fn nested_name_is_kept() {
    assert_eq!(
        sanitize_path("AddonA/sub/data.txt"),
        segs(&["AddonA", "sub", "data.txt"])
    );
}

#[test]
fn parent_refs_that_cancel_everything_leave_an_empty_path() {
    assert_eq!(sanitize_path("../.."), segs(&[]));
    assert_eq!(sanitize_path(".."), segs(&[]));
    assert_eq!(sanitize_path("a/.."), segs(&[]));
    assert_eq!(sanitize_path("a/b/../.."), segs(&[]));
}

#[test]
fn root_and_current_markers_are_dropped() {
    assert_eq!(sanitize_path("/"), segs(&[]));
    assert_eq!(sanitize_path("."), segs(&[]));
    assert_eq!(sanitize_path(""), segs(&[]));
    assert_eq!(sanitize_path("/abs/path"), segs(&["abs", "path"]));
    assert_eq!(sanitize_path("./a/./b"), segs(&["a", "b"]));
    assert_eq!(sanitize_path("a//b/"), segs(&["a", "b"]));
}

#[test]
fn leading_parent_refs_cannot_climb_above_the_root() {
    assert_eq!(sanitize_path("../../etc/passwd"), segs(&["etc", "passwd"]));
    assert_eq!(sanitize_path("a/../../b"), segs(&["b"]));
    assert_eq!(sanitize_path("../a/../../b/c"), segs(&["b", "c"]));
}

#[test]
fn backslash_separators_are_split_too() {
    assert_eq!(sanitize_path("AddonA\\init.lua"), segs(&["AddonA", "init.lua"]));
    assert_eq!(sanitize_path("a\\..\\x"), segs(&["x"]));
    assert_eq!(sanitize_path("..\\..\\boom"), segs(&["boom"]));
    assert_eq!(sanitize_path("a/mixed\\b/c"), segs(&["a", "mixed", "b", "c"]));
}

#[test]
fn drive_markers_are_dropped() {
    assert_eq!(
        sanitize_path("C:\\Windows\\evil.dll"),
        segs(&["Windows", "evil.dll"])
    );
    assert_eq!(sanitize_path("C:/x"), segs(&["x"]));
    assert_eq!(sanitize_path("weird:name/y"), segs(&["y"]));
    assert_eq!(sanitize_path("\\\\server\\share\\f"), segs(&["server", "share", "f"]));
}

#[test]
fn sanitized_paths_hold_only_normal_segments() {
    let nasty = [
        "../../etc/passwd",
        "/etc/../../../root/x",
        "a/./../b//c/..",
        "....//..//x",
        "..",
        "a/b/c/../../../../..",
        "..\\..\\x\\y",
        "C:\\..\\evil",
        "\\\\?\\C:\\x",
        "a\\b:c\\d",
    ];
    for name in nasty.iter() {
        for seg in sanitize_path(name) {
            assert!(!seg.is_empty());
            assert_ne!(seg, ".");
            assert_ne!(seg, "..");
            assert!(!seg.contains('/'));
            assert!(!seg.contains('\\'));
            assert!(!seg.contains(':'));
        }
    }
}
