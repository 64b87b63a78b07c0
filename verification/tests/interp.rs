use sudo_prompt::cli::Request;
use sudo_prompt::interp::{is_interpreter, prose, scan, Interpreter};


fn toks(items: &[&str]) -> Vec<Vec<u8>> {
    items.iter().map(|s| s.as_bytes().to_vec()).collect()
}

fn ok(items: &[&str]) -> Interpreter {
    scan(&toks(items)).expect("should be accepted")
}

fn denied(items: &[&str]) -> String {
    scan(&toks(items)).expect_err("should be denied")
}

#[test]
fn detects_interpreter_requests_by_basename() {
    let mk = |c: &str| Request {
        assignments: vec![],
        command: c.as_bytes().to_vec(),
        args: vec![],
    };
    assert!(is_interpreter(&mk("/usr/bin/sudo")));
    assert!(is_interpreter(&mk("sudo")));
    assert!(!is_interpreter(&mk("/usr/bin/sudoku")));
    assert!(!is_interpreter(&mk("/usr/bin/ls")));
}

#[test]
fn accepted_spellings() {
    assert_eq!(ok(&["-i"]), Interpreter { shell: true, ..Default::default() });
    assert_eq!(ok(&["-s"]), Interpreter { shell: true, ..Default::default() });
    for spelling in [
        &["-u", "ff", "id"][..],
        &["--user=ff", "id"][..],
        &["--user", "ff", "id"][..],
        &["-g", "video", "id"][..],
        &["--group=video", "id"][..],
        &["--group", "video", "id"][..],
    ] {
        assert_eq!(
            ok(spelling),
            Interpreter { as_other_user: true, shell: false, inner_command: true },
            "{spelling:?}"
        );
    }
}

#[test]
fn assignments_are_accepted_in_the_option_region() {
    assert_eq!(
        ok(&["FOO=bar", "-u", "ff", "BAZ=qux", "id"]),
        Interpreter { as_other_user: true, shell: false, inner_command: true }
    );
}

#[test]
fn double_dash_ends_the_scan() {
    assert_eq!(
        ok(&["-u", "ff", "--", "-e", "/etc/passwd"]),
        Interpreter { as_other_user: true, shell: false, inner_command: true }
    );
    assert_eq!(ok(&["--"]), Interpreter::default());
}

#[test]
fn shell_with_trailing_tokens() {
    assert_eq!(
        ok(&["-i", "rm", "-rf", "/"]),
        Interpreter { as_other_user: false, shell: true, inner_command: true }
    );
}

#[test]
fn edit_flags_and_their_abbreviations_are_denied() {
    for flag in ["-e", "--edit", "--ed", "--edi", "--e", "-eu", "-se", "-E"] {
        assert!(denied(&[flag]).contains("not permitted"), "{flag} should be denied");
    }
}

#[test]
fn preserve_env_in_every_spelling_is_denied() {
    // The shim expands --preserve-env into assignments and never forwards the flag, so a
    // request carrying it did not come from the shim.
    for flag in ["--preserve-env", "--preserve-env=DISPLAY", "--preserve", "--pres", "--p"] {
        assert!(denied(&[flag]).contains("not permitted"), "{flag} should be denied");
    }
}

#[test]
fn other_unrecognised_flags_are_denied() {
    for flag in ["-n", "-b", "--chdir=/tmp", "-uff", "--us=ff", "-l", "-V", "--help", "-"] {
        assert!(denied(&[flag]).contains("not permitted"), "{flag} should be denied");
    }
}

#[test]
fn missing_option_argument_is_denied() {
    assert!(denied(&["-u"]).contains("no argument"));
    assert!(denied(&["--group"]).contains("no argument"));
}

#[test]
fn option_arguments_are_consumed_even_when_flag_shaped() {
    // `-u -e` asks for a user named "-e"; the token is an argument, not an option.
    assert_eq!(
        ok(&["-u", "-e"]),
        Interpreter { as_other_user: true, shell: false, inner_command: false }
    );
}

#[test]
fn prose_is_picked_from_the_scan() {
    let shell_only = prose(&Interpreter { shell: true, ..Default::default() });
    assert_eq!(shell_only.len(), 2);
    assert!(shell_only[1].contains("interactive root shell"));

    let shell_args =
        prose(&Interpreter { shell: true, inner_command: true, ..Default::default() });
    assert!(shell_args.iter().any(|l| l.contains("shell code, not a command")));

    let as_user =
        prose(&Interpreter { as_other_user: true, inner_command: true, ..Default::default() });
    assert!(as_user.iter().any(|l| l.contains("as another user")));
    assert!(!as_user.iter().any(|l| l.contains("interactive root shell")));

    let both = prose(&Interpreter { as_other_user: true, shell: true, inner_command: false });
    assert!(both.iter().any(|l| l.contains("interactive root shell")));
    assert!(both.iter().any(|l| l.contains("runs as another user")));
}

#[test]
fn exact_denial_messages() {
    assert_eq!(denied(&["-u"]), "inner sudo option -u has no argument");
    assert_eq!(
        denied(&["-e"]),
        "inner sudo option -e is not permitted (only -i, -s, -u, -g, --user, --group, NAME=value and -- are)"
    );
}

#[test]
fn plain_prose_is_one_line() {
    assert_eq!(prose(&Interpreter::default()), vec!["Runs a second sudo as root."]);
}

#[test]
fn an_empty_scan_is_accepted() {
    assert_eq!(ok(&[]), Interpreter::default());
}
