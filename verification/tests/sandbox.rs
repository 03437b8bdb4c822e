use princess::contract::ErrorCode;
use princess::sandbox::{denied, is_truncated, join_checked, path_segments, temp_name, within_root, MAX_READ_BYTES};

#[test]
fn parent_dir_traversal_is_denied() {
    let err = join_checked("/work/proj", "../etc/passwd").unwrap_err();
    assert_eq!(err.code, ErrorCode::SandboxDenied);
    assert_eq!(err.code.as_str(), "E_SANDBOX_DENIED");
    assert_eq!(err.message, "path escapes the project root: ../etc/passwd");
    assert_eq!(
        err.detail,
        "resolved against /work/proj.  Pick a file inside the opened project, or open that project first."
    );
    assert!(join_checked("/work/proj", "src/../../x").is_err());
    assert!(join_checked("/work/proj", "/work/proj/../other").is_err());
}

#[test]
fn write_traversal_is_denied_and_leaves_no_temp_file() {
    let err = join_checked("/work/proj/sub", "../escaped.c").unwrap_err();
    assert_eq!(err.code, ErrorCode::SandboxDenied);
}

#[test]
fn relative_and_absolute_paths_are_joined_like_path_join() {
    assert_eq!(join_checked("/work/proj", "a.c").unwrap(), "/work/proj/a.c");
    assert_eq!(join_checked("/", "a.c").unwrap(), "/a.c");
    assert_eq!(join_checked("/work/proj", "/work/proj/b.c").unwrap(), "/work/proj/b.c");
    assert_eq!(join_checked("/work/proj", "..a/b..").unwrap(), "/work/proj/..a/b..");
}

#[test]
fn missing_arguments_are_invalid_config() {
    let err = join_checked("/work/proj", "   ").unwrap_err();
    assert_eq!(err.code, ErrorCode::InvalidConfig);
    assert_eq!(err.message, "path is required");
    assert_eq!(err.detail, "received an empty path");
}

#[test]
fn absolute_path_outside_the_root_is_denied() {
    assert!(!within_root("/etc/hostname", "/work/proj"));
    assert!(!within_root("/work/project2/a.c", "/work/proj"), "a sibling sharing a prefix is outside");
    assert!(within_root("/work/proj/src/a.c", "/work/proj"));
    assert!(within_root("/work/proj", "/work/proj"));
    assert!(within_root("/work//proj/a.c/", "/work/proj"));
    assert!(!within_root("work/proj/a.c", "/work/proj"));
    let failure = denied("/etc/hostname", "/work/proj");
    assert_eq!(failure.code, ErrorCode::SandboxDenied);
}

#[test]
fn segments_ignore_empty_pieces() {
    let segs: Vec<String> = path_segments("//a/b//c/").into_iter().map(|s| s.into_iter().collect()).collect();
    assert_eq!(segs, vec!["a", "b", "c"]);
}

#[test]
fn large_files_are_truncated_and_writes_go_through_a_sibling() {
    assert!(!is_truncated(MAX_READ_BYTES));
    assert!(is_truncated(MAX_READ_BYTES + 1));
    assert_eq!(temp_name("main.c", 4242), ".main.c.princesside-4242.tmp");
}
