use sudo_prompt::cli::{basename, parse, split_assignment, valid_name, Assignment, Request};


fn argv(items: &[&str]) -> Vec<Vec<u8>> {
    items.iter().map(|s| s.as_bytes().to_vec()).collect()
}

fn ok(items: &[&str]) -> Request {
    parse(&argv(items)).expect("should parse")
}

fn err(items: &[&str]) -> String {
    parse(&argv(items)).expect_err("should be rejected")
}

#[test]
fn cli_plain_command() {
    let r = ok(&["--", "/usr/bin/ls", "-l", "/tmp"]);
    assert!(r.assignments.is_empty());
    assert_eq!(r.command, b"/usr/bin/ls");
    assert_eq!(r.args, vec![b"-l".to_vec(), b"/tmp".to_vec()]);
}

#[test]
fn assignments_then_command() {
    let r = ok(&["--", "FOO=bar", "EMPTY=", "id", "-u"]);
    assert_eq!(r.assignments.len(), 2);
    assert_eq!(r.assignments[0], Assignment { name: b"FOO".to_vec(), value: b"bar".to_vec() });
    assert_eq!(r.assignments[1], Assignment { name: b"EMPTY".to_vec(), value: b"".to_vec() });
    assert_eq!(r.command, b"id");
}

#[test]
fn assignments_deduplicate_last_wins() {
    let r = ok(&["--", "A=1", "B=2", "A=3", "id"]);
    assert_eq!(r.assignments.len(), 2);
    assert_eq!(r.assignments[0].name, b"B");
    assert_eq!(r.assignments[1], Assignment { name: b"A".to_vec(), value: b"3".to_vec() });
}

#[test]
fn nothing_after_the_command_is_reinterpreted() {
    let r = ok(&["--", "env", "FOO=bar", "--", "-x"]);
    assert!(r.assignments.is_empty());
    assert_eq!(r.command, b"env");
    assert_eq!(r.args.len(), 3);
}

#[test]
fn dot_slash_a_equals_b_is_a_command() {
    let r = ok(&["--", "./a=b"]);
    assert!(r.assignments.is_empty());
    assert_eq!(r.command, b"./a=b");
}

#[test]
fn invalid_assignment_name_is_a_command() {
    let r = ok(&["--", "9A=b"]);
    assert_eq!(r.command, b"9A=b");
}

#[test]
fn rejections() {
    assert!(err(&[]).contains("empty argv"));
    assert!(err(&["id"]).contains("missing the `--`"));
    assert!(err(&["id", "--", "x"]).contains("before the `--`"));
    assert!(err(&["--"]).contains("nothing after"));
    assert!(err(&["--", "A=1"]).contains("only environment assignments"));
    assert!(err(&["--", ""]).contains("empty COMMAND"));
    assert!(err(&["--", "SUDO_UID=0", "id"]).contains("SUDO_*"));
    assert!(err(&["--", "SUDO_USER=root", "id"]).contains("SUDO_*"));
    assert!(err(&["--", "/usr/bin/sudoedit", "f"]).contains("sudoedit"));
    assert!(err(&["--", "sudoedit", "f"]).contains("sudoedit"));
}

#[test]
fn non_utf8_argv_survives_byte_for_byte() {
    let a = vec![b"--".to_vec(), b"/tmp/\xff\xfe".to_vec(), b"\x80".to_vec()];
    let r = parse(&a).unwrap();
    assert_eq!(r.command, b"/tmp/\xff\xfe");
    assert_eq!(r.args, vec![b"\x80".to_vec()]);
}

#[test]
fn sudo_command_string() {
    let r = ok(&["--", "FOO=bar", "/usr/bin/ls", "-l", "a b"]);
    assert_eq!(r.sudo_command(), b"/usr/bin/ls -l a b");
}

#[test]
fn basename_is_after_the_last_slash() {
    assert_eq!(basename(b"/usr/bin/sudo"), b"sudo");
    assert_eq!(basename(b"sudo"), b"sudo");
    assert_eq!(basename(b"/usr/bin/"), b"");
}

#[test]
fn split_assignment_follows_sudos_rule() {
    assert_eq!(split_assignment(b"FOO=bar"), Some((&b"FOO"[..], &b"bar"[..])));
    assert_eq!(split_assignment(b"A=b=c"), Some((&b"A"[..], &b"b=c"[..])));
    assert_eq!(split_assignment(b"./a=b"), None);
    assert_eq!(split_assignment(b"9A=b"), None);
    assert_eq!(split_assignment(b"=x"), None);
    assert_eq!(split_assignment(b"plain"), None);
}

#[test]
fn valid_names() {
    assert!(valid_name(b"_"));
    assert!(valid_name(b"A9_b"));
    assert!(!valid_name(b""));
    assert!(!valid_name(b"9A"));
    assert!(!valid_name(b"A-B"));
}

#[test]
fn exact_rejection_messages() {
    assert_eq!(err(&[]), "empty argv: expected `-- [NAME=value ...] COMMAND [ARGS...]`");
    assert_eq!(err(&["id"]), "missing the `--` delimiter");
    assert_eq!(err(&["id", "--", "x"]), "unexpected argument before the `--` delimiter");
    assert_eq!(err(&["--"]), "nothing after the `--` delimiter");
    assert_eq!(err(&["--", "A=1"]), "request contains only environment assignments, no command");
    assert_eq!(err(&["--", ""]), "empty COMMAND");
    assert_eq!(
        err(&["--", "FOO=1", "SUDO_UID=0", "id"]),
        "request assigns SUDO_UID: SUDO_* is set by sudo-prompt and cannot be requested"
    );
    assert_eq!(err(&["--", "sudoedit", "f"]), "sudoedit is not a supported request");
}

#[test]
fn a_request_built_by_hand_matches_the_parse() {
    let r = ok(&["--", "A=1", "/bin/echo", "x"]);
    let want = Request {
        assignments: vec![Assignment { name: b"A".to_vec(), value: b"1".to_vec() }],
        command: b"/bin/echo".to_vec(),
        args: vec![b"x".to_vec()],
    };
    assert_eq!(r, want);
}
