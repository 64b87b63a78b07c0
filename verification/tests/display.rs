use sudo_prompt::display::{check_dir, check_peer, check_socket, lowest, no_socket, wayland_number};
use sudo_prompt::fileinfo::{FileInfo, FileKind};

#[test]
fn socket_name_matching() {
    assert_eq!(wayland_number(b"wayland-0"), Some(0));
    assert_eq!(wayland_number(b"wayland-1"), Some(1));
    assert_eq!(wayland_number(b"wayland-12"), Some(12));
    assert_eq!(wayland_number(b"wayland-"), None);
    assert_eq!(wayland_number(b"wayland-0.lock"), None);
    assert_eq!(wayland_number(b"wayland-root"), None);
    assert_eq!(wayland_number(b"wayland-1x"), None);
    assert_eq!(wayland_number(b"xwayland-1"), None);
    assert_eq!(wayland_number(b"pulse"), None);
}

#[test]
fn numbers_that_do_not_fit_are_not_sockets() {
    assert_eq!(wayland_number(b"wayland-4294967295"), Some(u32::MAX));
    assert_eq!(wayland_number(b"wayland-4294967296"), None);
    assert_eq!(wayland_number(b"wayland-+1"), None);
    assert_eq!(wayland_number(b"wayland-007"), Some(7));
}

fn names(items: &[&str]) -> Vec<Vec<u8>> {
    items.iter().map(|s| s.as_bytes().to_vec()).collect()
}

#[test]
fn the_lowest_numbered_socket_is_picked() {
    let n = names(&["wayland-3", "wayland-10", "wayland-1.lock", "pulse", "wayland-2"]);
    assert_eq!(lowest(&n), Some(4));
    // Equal numbers: the one listed first.
    assert_eq!(lowest(&names(&["wayland-01", "wayland-1"])), Some(0));
    assert_eq!(lowest(&names(&["pulse", "wayland-"])), None);
    assert_eq!(lowest(&Vec::new()), None);
}

fn dir(uid: u32, mode: u32) -> FileInfo {
    FileInfo { kind: FileKind::Directory, uid, mode }
}

#[test]
fn the_runtime_directory_checks() {
    assert_eq!(check_dir(&dir(0, 0o700), "/run/user/0", 0), Ok(()));
    assert_eq!(
        check_dir(&FileInfo { kind: FileKind::Symlink, uid: 0, mode: 0o777 }, "/r", 0).unwrap_err(),
        "/r is a symlink"
    );
    assert_eq!(
        check_dir(&FileInfo { kind: FileKind::Regular, uid: 0, mode: 0o600 }, "/r", 0).unwrap_err(),
        "/r is not a directory"
    );
    assert_eq!(check_dir(&dir(1000, 0o700), "/r", 0).unwrap_err(), "/r is owned by uid 1000, not 0");
    assert_eq!(check_dir(&dir(0, 0o775), "/r", 0).unwrap_err(), "/r is group or other writable");
    assert_eq!(check_dir(&dir(0, 0o702), "/r", 0).unwrap_err(), "/r is group or other writable");
    assert_eq!(check_dir(&dir(0, 0o755), "/r", 0), Ok(()));
}

#[test]
fn the_socket_checks() {
    let sock = FileInfo { kind: FileKind::Socket, uid: 0, mode: 0o777 };
    assert_eq!(check_socket(&sock, "/r/wayland-0", 0), Ok(()));
    assert_eq!(
        check_socket(&FileInfo { kind: FileKind::Symlink, ..sock }, "/r/wayland-0", 0).unwrap_err(),
        "/r/wayland-0 is a symlink"
    );
    assert_eq!(
        check_socket(&FileInfo { kind: FileKind::Regular, ..sock }, "/r/wayland-0", 0).unwrap_err(),
        "/r/wayland-0 is not a unix socket"
    );
    assert_eq!(
        check_socket(&FileInfo { uid: 5, ..sock }, "/r/wayland-0", 0).unwrap_err(),
        "/r/wayland-0 is owned by uid 5, not 0"
    );
    assert_eq!(check_peer(0, "/r/wayland-0", 0), Ok(()));
    assert_eq!(check_peer(1000, "/r/wayland-0", 0).unwrap_err(), "/r/wayland-0 peer is uid 1000, not 0");
}

#[test]
fn empty_directory_is_an_error() {
    let n: Vec<Vec<u8>> = Vec::new();
    assert_eq!(lowest(&n), None);
    let err = no_socket("/run/user/0");
    assert!(err.contains("no wayland-N socket"), "{err}");
}
