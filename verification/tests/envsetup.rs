use sudo_prompt::envsetup::{capture, display_env, is_passthrough, own_env};


#[test]
fn passthrough_membership() {
    assert!(is_passthrough(b"TERM"));
    assert!(is_passthrough(b"COLORTERM"));
    assert!(is_passthrough(b"LANG"));
    assert!(is_passthrough(b"LANGUAGE"));
    assert!(is_passthrough(b"LC_ALL"));
    assert!(is_passthrough(b"LC_TIME"));
    assert!(!is_passthrough(b"TERMINFO"));
    assert!(!is_passthrough(b"TERMCAP"));
    assert!(!is_passthrough(b"TERMPATH"));
    assert!(!is_passthrough(b"LD_PRELOAD"));
    assert!(!is_passthrough(b"DISPLAY"));
    assert!(!is_passthrough(b"XAUTHORITY"));
    assert!(!is_passthrough(b"LS_COLORS"));
    assert!(!is_passthrough(b"HOME"));
}

fn vars(items: &[(&str, &str)]) -> Vec<(Vec<u8>, Vec<u8>)> {
    items.iter().map(|(n, v)| (n.as_bytes().to_vec(), v.as_bytes().to_vec())).collect()
}

#[test]
fn capture_takes_provenance_and_passthrough_only() {
    let c = capture(&vars(&[
        ("SUDO_UID", "1006"),
        ("PATH", "/evil"),
        ("TERM", "xterm"),
        ("SUDO_GID", "1007"),
        ("LD_PRELOAD", "/tmp/x.so"),
        ("LC_ALL", "C"),
        ("SUDO_USER", "ai"),
    ]));
    assert_eq!(c.sudo_uid, Some(b"1006".to_vec()));
    assert_eq!(c.sudo_gid, Some(b"1007".to_vec()));
    assert_eq!(c.sudo_user, Some(b"ai".to_vec()));
    assert_eq!(
        c.passthrough,
        vec![(b"TERM".to_vec(), b"xterm".to_vec()), (b"LC_ALL".to_vec(), b"C".to_vec())]
    );
}

#[test]
fn capture_of_an_empty_environment_has_nothing() {
    let c = capture(&Vec::new());
    assert_eq!(c.sudo_uid, None);
    assert_eq!(c.sudo_gid, None);
    assert_eq!(c.sudo_user, None);
    assert!(c.passthrough.is_empty());
}

#[test]
fn the_own_environment_is_root_controlled() {
    let e = own_env();
    let names: Vec<&str> = e.iter().map(|(n, _)| n.as_str()).collect();
    assert_eq!(names, vec!["HOME", "PATH", "XDG_DATA_DIRS", "XDG_CONFIG_DIRS", "LANG"]);
    assert_eq!(e[0].1, "/root");
    assert_eq!(e[4].1, "C.UTF-8");
    assert_eq!(
        display_env("/run/user/0", 7),
        vec![
            ("XDG_RUNTIME_DIR".to_string(), "/run/user/0".to_string()),
            ("WAYLAND_SOCKET".to_string(), "7".to_string()),
        ]
    );
}
