use sudo_prompt::fileinfo::{FileInfo, FileKind};
use sudo_prompt::lockfile::check_lock_file;

fn file(kind: FileKind, uid: u32, mode: u32) -> FileInfo {
    FileInfo { kind, uid, mode }
}

#[test]
fn a_root_owned_private_file_is_accepted() {
    assert_eq!(check_lock_file(&file(FileKind::Regular, 0, 0o600), "/run/sudo-prompt.lock", 0), Ok(()));
}

#[test]
fn rejects_a_wrong_owner() {
    let err = check_lock_file(&file(FileKind::Regular, 1001, 0o600), "/l", 1000).unwrap_err();
    assert!(err.contains("owned by uid"), "{err}");
    assert_eq!(err, "lock file /l is owned by uid 1001, not 1000");
}

#[test]
fn rejects_group_writable() {
    let err = check_lock_file(&file(FileKind::Regular, 0, 0o660), "/l", 0).unwrap_err();
    assert!(err.contains("group or other writable"), "{err}");
    assert_eq!(err, "lock file /l is group or other writable");
}

#[test]
fn rejects_a_non_regular_file() {
    let err = check_lock_file(&file(FileKind::Directory, 0, 0o700), "/l", 0).unwrap_err();
    assert!(err.contains("cannot open lock file") || err.contains("not a regular file"), "{err}");
    assert_eq!(err, "lock file /l is not a regular file");
}
