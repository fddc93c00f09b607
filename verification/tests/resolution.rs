use live_server::paths::{resolve, ResolveError};
use live_server::watcher::strip_prefix;

#[test]
fn traversal_is_rejected() {
    assert!(matches!(
        resolve("/root", "/../etc/passwd"),
        Err(ResolveError::PathEscapesRoot)
    ));
    assert!(matches!(resolve("/root", "/.."), Err(ResolveError::PathEscapesRoot)));
    assert!(matches!(resolve("/root", "/a/../b"), Err(ResolveError::PathEscapesRoot)));
    assert!(matches!(resolve("/root", ".."), Err(ResolveError::PathEscapesRoot)));
    assert!(matches!(
        resolve("/root", "/sub/dir/../../../x"),
        Err(ResolveError::PathEscapesRoot)
    ));
}

#[test]
fn resolution_stays_under_root() {
    assert_eq!(resolve("/root", "/index.html").unwrap(), "/root/index.html");
    assert_eq!(resolve("/root", "/sub/dir/a.txt").unwrap(), "/root/sub/dir/a.txt");
    assert_eq!(resolve("/root", "/").unwrap(), "/root");
    assert_eq!(resolve("/root", "").unwrap(), "/root");
    // Doubled separators collapse, so an absolute-looking remainder cannot
    // replace the root.
    assert_eq!(resolve("/root", "//etc//passwd").unwrap(), "/root/etc/passwd");
    // `.` segments are dropped.
    assert_eq!(resolve("/root", "/./a/./b").unwrap(), "/root/a/b");
    // A trailing separator changes nothing.
    assert_eq!(resolve("/root", "/a/").unwrap(), "/root/a");
}

#[test]
fn resolved_paths_keep_root_prefix() {
    let cases = ["/x", "/a/b/c", "///x", "/. /q", "/name with space", "/déjà/vu"];
    for request in cases {
        let p = resolve("/served/root", request).unwrap();
        assert!(p.starts_with("/served/root"));
    }
}

#[test]
fn strip_prefix_drops_root_and_separator() {
    assert_eq!(strip_prefix("/root/sub/file", "/root"), "sub/file");
    assert_eq!(strip_prefix("/root", "/root"), "");
    assert_eq!(strip_prefix("/root/a", "/root/"), "a");
}
