use sudo_prompt::config::{check_privilege, display_root, lock_path, owner_uid, DISPLAY_ROOT, LOCK_PATH};
use sudo_prompt::sys::{errno_message, shell_or_default, with_context};

#[test]
fn compiled_in_locations() {
    assert_eq!(display_root(), "/run/user/0");
    assert_eq!(lock_path(), "/run/sudo-prompt.lock");
    assert_eq!(DISPLAY_ROOT, "/run/user/0");
    assert_eq!(LOCK_PATH, "/run/sudo-prompt.lock");
    assert_eq!(owner_uid(), 0);
}

#[test]
fn only_root_may_run_the_gate() {
    assert_eq!(check_privilege(0), Ok(()));
    assert_eq!(check_privilege(1006).unwrap_err(), "must run as root (euid 1006); invoke it through sudo");
}

#[test]
fn messages_name_their_context() {
    assert_eq!(with_context("socket()", "Permission denied"), "socket(): Permission denied");
    assert!(errno_message("fstat on the lock file").starts_with("fstat on the lock file: "));
}

#[test]
fn root_shell_defaults_to_bin_sh() {
    assert_eq!(shell_or_default(Some(b"/bin/zsh".to_vec())), b"/bin/zsh");
    assert_eq!(shell_or_default(Some(Vec::new())), b"/bin/sh");
    assert_eq!(shell_or_default(None), b"/bin/sh");
}
