use sudo_prompt::classify::{classify, real_sudo, Decision, GATE, REAL_SUDO};
fn argv(items: &[&str]) -> Vec<Vec<u8>> {
    items.iter().map(|s| s.as_bytes().to_vec()).collect()
}

fn env(vars: &[(&str, &str)]) -> Vec<(Vec<u8>, Vec<u8>)> {
    vars.iter().map(|(n, v)| (n.as_bytes().to_vec(), v.as_bytes().to_vec())).collect()
}

fn classify_str(items: &[&str]) -> Decision {
    classify(1006, &argv(items), &Vec::new())
}

/// sudo-prompt argv as a readable vector, for byte-exact assertions.
fn gate(items: &[&str]) -> Vec<String> {
    match classify_str(items) {
        Decision::Gate(v) => v.iter().map(|s| String::from_utf8_lossy(s).into_owned()).collect(),
        Decision::PassThrough => panic!("expected Gate for {items:?}"),
    }
}

fn gate_with_env(items: &[&str], vars: &[(&str, &str)]) -> Vec<String> {
    match classify(1006, &argv(items), &env(vars)) {
        Decision::Gate(v) => v.iter().map(|s| String::from_utf8_lossy(s).into_owned()).collect(),
        Decision::PassThrough => panic!("expected Gate for {items:?}"),
    }
}

fn passes(items: &[&str]) {
    assert_eq!(classify_str(items), Decision::PassThrough, "{items:?}");
}

#[test]
fn root_and_empty_argv_pass_through() {
    assert_eq!(classify(0, &argv(&["id"]), &Vec::new()), Decision::PassThrough);
    assert_eq!(classify(1006, &Vec::new(), &Vec::new()), Decision::PassThrough);
}

#[test]
fn informational_flags_pass_through() {
    for flags in [
        &["-l"][..],
        &["-ll"],
        &["-V"],
        &["-v"],
        &["-k"],
        &["-K"],
        &["-h"],
        &["--help"],
        &["--version"],
        &["--list"],
        &["--list=id"],
        &["--validate"],
        &["--reset-timestamp"],
        &["--remove-timestamp"],
        &["-kK"],
        &["-k", "id"],
    ] {
        passes(flags);
    }
}

#[test]
fn unsupported_flags_pass_through() {
    for flags in [
        &["-e", "/etc/passwd"][..],
        &["--edit", "/etc/passwd"],
        &["--ed", "/etc/passwd"],
        &["-E", "id"],
        &["--preserve-env", "id"],
        &["-n", "id"],
        &["-b", "id"],
        &["--chdir=/tmp", "id"],
        &["-uff", "id"],
        &["--us=ff", "id"],
        &["-", "id"],
    ] {
        passes(flags);
    }
}

#[test]
fn classify_plain_command() {
    assert_eq!(gate(&["id"]), vec![GATE, "--", "id"]);
    assert_eq!(gate(&["/usr/bin/ls", "-l", "/tmp"]), vec![GATE, "--", "/usr/bin/ls", "-l", "/tmp"]);
}

#[test]
fn assignments_are_forwarded_as_gate_assignments() {
    assert_eq!(gate(&["FOO=bar", "id"]), vec![GATE, "--", "FOO=bar", "id"]);
    assert_eq!(
        gate(&["A=1", "B=2", "A=3", "id"]),
        vec![GATE, "--", "B=2", "A=3", "id"]
    );
}

#[test]
fn a_command_token_containing_equals_is_not_an_assignment() {
    assert_eq!(gate(&["./a=b"]), vec![GATE, "--", "./a=b"]);
    assert_eq!(gate(&["9A=b"]), vec![GATE, "--", "9A=b"]);
}

#[test]
fn double_dash_ends_the_options() {
    assert_eq!(gate(&["--", "-x"]), vec![GATE, "--", "-x"]);
    assert_eq!(gate(&["FOO=b", "--", "id"]), vec![GATE, "--", "FOO=b", "id"]);
    // Nothing after `--` and no shell flag: real sudo's usage error.
    passes(&["--"]);
}

#[test]
fn no_command_and_no_shell_flag_passes_through() {
    passes(&["FOO=bar"]);
    passes(&["-u", "ff"]);
    passes(&["-u"]);
    passes(&["--group"]);
}

#[test]
fn shell_flags_gate_with_no_command() {
    assert_eq!(gate(&["-i"]), vec![GATE, "--", REAL_SUDO, "-i"]);
    assert_eq!(gate(&["-s"]), vec![GATE, "--", REAL_SUDO, "-s"]);
}

#[test]
fn interpreter_flags_route_through_real_sudo_byte_for_byte() {
    for (input, expected_tail) in [
        (&["-u", "ff", "id"][..], &["-u", "ff", "id"][..]),
        (&["--user=ff", "id"], &["--user=ff", "id"]),
        (&["--user", "ff", "id"], &["--user", "ff", "id"]),
        (&["-g", "video", "id"], &["-g", "video", "id"]),
        (&["--group=video", "id"], &["--group=video", "id"]),
        (&["--group", "video", "id"], &["--group", "video", "id"]),
        (&["-u", "ff", "-i"], &["-u", "ff", "-i"]),
        (&["-i", "rm", "-rf", "/"], &["-i", "rm", "-rf", "/"]),
    ] {
        let mut expected = vec![GATE.to_string(), "--".to_string(), REAL_SUDO.to_string()];
        expected.extend(expected_tail.iter().map(|s| s.to_string()));
        assert_eq!(gate(input), expected, "{input:?}");
    }
}

#[test]
fn rawargv_starts_at_the_first_collected_token_not_the_first_flag() {
    // `FOO=bar` would otherwise be dropped entirely.
    assert_eq!(
        gate(&["FOO=bar", "-u", "ff", "id"]),
        vec![GATE, "--", REAL_SUDO, "FOO=bar", "-u", "ff", "id"]
    );
}

#[test]
fn preserve_env_becomes_gate_assignments_on_the_plain_path() {
    assert_eq!(
        gate_with_env(&["--preserve-env=DISPLAY,XAUTHORITY", "id"], &[
            ("DISPLAY", ":0"),
            ("XAUTHORITY", "/run/x"),
        ]),
        vec![GATE, "--", "DISPLAY=:0", "XAUTHORITY=/run/x", "id"]
    );
}

#[test]
fn preserve_env_skips_unset_and_invalid_names() {
    assert_eq!(
        gate_with_env(&["--preserve-env=SET,UNSET,9BAD,", "id"], &[("SET", "yes")]),
        vec![GATE, "--", "SET=yes", "id"]
    );
}

#[test]
fn preserve_env_expanding_to_nothing_leaves_a_plain_request() {
    assert_eq!(gate_with_env(&["--preserve-env=NOPE", "id"], &[]), vec![GATE, "--", "id"]);
}

#[test]
fn preserve_env_duplicate_names_collapse() {
    assert_eq!(
        gate_with_env(&["--preserve-env=A,A", "id"], &[("A", "1")]),
        vec![GATE, "--", "A=1", "id"]
    );
}

#[test]
fn a_later_assignment_beats_a_preserve_env_value() {
    assert_eq!(
        gate_with_env(&["--preserve-env=A", "A=explicit", "id"], &[("A", "inherited")]),
        vec![GATE, "--", "A=explicit", "id"]
    );
}

#[test]
fn preserve_env_is_substituted_in_place_on_the_interpreter_path() {
    assert_eq!(
        gate_with_env(&["--preserve-env=A,B", "-u", "ff", "id"], &[("A", "1"), ("B", "2")]),
        vec![GATE, "--", REAL_SUDO, "A=1", "B=2", "-u", "ff", "id"]
    );
    // The flag never appears in sudo-prompt argv, in any spelling.
    assert!(!gate_with_env(&["--preserve-env=A", "-u", "ff", "id"], &[("A", "1")])
        .iter()
        .any(|t| t.contains("preserve-env")));
}

#[test]
fn preserve_env_expanding_to_zero_names_removes_the_token_entirely() {
    assert_eq!(
        gate_with_env(&["--preserve-env=NOPE", "-u", "ff", "id"], &[]),
        vec![GATE, "--", REAL_SUDO, "-u", "ff", "id"]
    );
}

#[test]
fn preserve_env_after_the_flags_stays_where_it_stood() {
    assert_eq!(
        gate_with_env(&["-u", "ff", "--preserve-env=A", "id"], &[("A", "1")]),
        vec![GATE, "--", REAL_SUDO, "-u", "ff", "A=1", "id"]
    );
}

#[test]
fn non_utf8_argv_is_forwarded_byte_for_byte() {
    let a = vec![b"/tmp/\xff\xfe".to_vec(), b"\x80arg".to_vec()];
    match classify(1006, &a, &Vec::new()) {
        Decision::Gate(v) => {
            assert_eq!(v[2].as_slice(), b"/tmp/\xff\xfe");
            assert_eq!(v[3].as_slice(), b"\x80arg");
        }
        Decision::PassThrough => panic!("expected Gate"),
    }
}

#[test]
fn non_utf8_preserve_env_value_survives() {
    let vars = vec![(b"V".to_vec(), b"\xff\x00x".to_vec())];
    let a = argv(&["--preserve-env=V", "id"]);
    match classify(1006, &a, &vars) {
        Decision::Gate(v) => assert_eq!(v[2].as_slice(), b"V=\xff\x00x"),
        Decision::PassThrough => panic!("expected Gate"),
    }
}

#[test]
fn the_shim_always_execs_the_real_sudo() {
    assert_eq!(real_sudo(), REAL_SUDO);
    assert_eq!(REAL_SUDO, "/usr/bin/sudo");
    assert_eq!(GATE, "/usr/local/bin/sudo-prompt");
}
