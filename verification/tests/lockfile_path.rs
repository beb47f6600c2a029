use sandbox_ffi_layers::lockfile_path::{
    check_contained, check_lockfile_path, check_resolved_lockfile, read_failure_message, LockfileError,
    ReadFailure,
};

#[test]
fn missing_path_is_not_found() {
    let r = check_lockfile_path("/nonexistent/path/to/lockfile", false, false);
    assert_eq!(r, Err(LockfileError::NotFound("/nonexistent/path/to/lockfile".to_string())));
    assert!(r.unwrap_err().message().contains("does not exist"));
}

#[test]
fn directory_is_refused() {
    let r = check_lockfile_path("src", true, true);
    assert_eq!(r, Err(LockfileError::IsDirectory("src".to_string())));
    assert!(r.unwrap_err().message().contains("directory"));
}

#[test]
fn existing_file_passes() {
    assert_eq!(check_lockfile_path("Cargo.lock", true, false), Ok(()));
    assert_eq!(check_resolved_lockfile("/work/Cargo.lock", true), Ok(()));
}

#[test]
fn resolved_non_file_is_not_readable() {
    let r = check_resolved_lockfile("/dev/null", false);
    assert_eq!(r, Err(LockfileError::NotReadable("/dev/null".to_string())));
    assert_eq!(r.unwrap_err().message(), "lockfile path is not readable: /dev/null");
}

#[test]
fn error_messages() {
    assert_eq!(
        LockfileError::PathTraversal("../x".to_string()).message(),
        "lockfile path escapes the current directory: ../x"
    );
}

#[test]
fn read_failure_messages() {
    assert_eq!(
        read_failure_message(ReadFailure::NotFound, "/nonexistent/lockfile", "x"),
        "lockfile not found: /nonexistent/lockfile"
    );
    assert!(read_failure_message(ReadFailure::InvalidData, "/tmp/f", "x").contains("UTF-8"));
    assert_eq!(
        read_failure_message(ReadFailure::PermissionDenied, "/p", "x"),
        "permission denied reading lockfile: /p"
    );
    assert_eq!(
        read_failure_message(ReadFailure::Other, "/p", "boom"),
        "cannot read lockfile /p: boom"
    );
}

#[test]
fn parent_escape_is_refused() {
    let r = check_contained("../other/Cargo.lock", "/home/other/Cargo.lock", "/home/work");
    assert_eq!(r, Err(LockfileError::PathTraversal("/home/other/Cargo.lock".to_string())));
    assert!(r.unwrap_err().message().contains("escapes the current directory"));
}

#[test]
fn parent_component_inside_cwd_passes() {
    assert_eq!(check_contained("sub/../Cargo.lock", "/home/work/Cargo.lock", "/home/work"), Ok(()));
    assert_eq!(check_contained("../work/x/Cargo.lock", "/home/work/x/Cargo.lock", "/home/work"), Ok(()));
    assert_eq!(check_contained("../a/Cargo.lock", "/a/Cargo.lock", "/"), Ok(()));
}

#[test]
fn paths_without_parent_component_are_not_judged() {
    assert_eq!(check_contained("/etc/passwd", "/etc/passwd", "/home/work"), Ok(()));
    assert_eq!(check_contained("a..b/Cargo.lock", "/x/a..b/Cargo.lock", "/home/work"), Ok(()));
    assert!(check_contained("..", "/home", "/home/work").is_err());
    assert!(check_contained("/home/work/../workx/Cargo.lock", "/home/workx/Cargo.lock", "/home/work").is_err());
}
