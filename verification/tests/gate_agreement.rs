use sudo_prompt::classify::{classify, Decision, GATE};
use sudo_prompt::{cli, interp};

fn shim(items: &[&str], vars: &[(&str, &str)]) -> Decision {
    let argv: Vec<Vec<u8>> = items.iter().map(|s| s.as_bytes().to_vec()).collect();
    let vars: Vec<(Vec<u8>, Vec<u8>)> =
        vars.iter().map(|(n, v)| (n.as_bytes().to_vec(), v.as_bytes().to_vec())).collect();
    classify(1006, &argv, &vars)
}

/// One invocation: the argv the caller typed, and the environment the shim would look names up in.
type Case = (&'static [&'static str], &'static [(&'static str, &'static str)]);

/// Everything the shim can send to sudo-prompt, one entry per interesting shape.
const GATE_CASES: &[Case] = &[
    (&["id"], &[]),
    (&["/usr/bin/ls", "-l", "/tmp"], &[]),
    (&["FOO=bar", "id"], &[]),
    (&["A=1", "B=2", "A=3", "id"], &[]),
    (&["./a=b"], &[]),
    (&["--", "-x"], &[]),
    (&["FOO=b", "--", "id"], &[]),
    (&["-i"], &[]),
    (&["-s"], &[]),
    (&["-i", "rm", "-rf", "/"], &[]),
    (&["-u", "ff", "id"], &[]),
    (&["--user=ff", "id"], &[]),
    (&["--user", "ff", "id"], &[]),
    (&["-g", "video", "id"], &[]),
    (&["--group=video", "id"], &[]),
    (&["--group", "video", "id"], &[]),
    (&["-u", "ff", "-i"], &[]),
    (&["FOO=bar", "-u", "ff", "id"], &[]),
    (&["--preserve-env=DISPLAY", "id"], &[("DISPLAY", ":0")]),
    (&["--preserve-env=NOPE", "id"], &[]),
    (&["--preserve-env=DISPLAY", "-u", "ff", "id"], &[("DISPLAY", ":0")]),
    (&["--preserve-env=NOPE", "-u", "ff", "id"], &[]),
    (&["-u", "ff", "--preserve-env=A", "id"], &[("A", "1")]),
    (&["-u", "ff", "--", "-e", "/etc/passwd"], &[]),
];

#[test]
fn every_generated_request_is_one_the_gate_accepts() {
    for (items, vars) in GATE_CASES {
        let Decision::Gate(argv) = shim(items, vars) else {
            panic!("{items:?} should reach sudo-prompt");
        };
        assert_eq!(argv[0], GATE.as_bytes(), "{items:?}");

        // sudo-prompt sees everything after its own path.
        let req = cli::parse(&argv[1..].to_vec())
            .unwrap_or_else(|e| panic!("gate rejected the shim's output for {items:?}: {e}"));

        if interp::is_interpreter(&req) {
            interp::scan(&req.args).unwrap_or_else(|e| {
                panic!("sudo-prompt's interpreter whitelist rejected {items:?}: {e}")
            });
        }
    }
}

#[test]
fn the_gate_never_sees_preserve_env_in_any_spelling() {
    for (items, vars) in GATE_CASES {
        if let Decision::Gate(argv) = shim(items, vars) {
            for token in &argv {
                assert!(
                    !String::from_utf8_lossy(token).contains("preserve"),
                    "{items:?} leaked {token:?} to sudo-prompt"
                );
            }
        }
    }
}

#[test]
fn the_interpreter_path_carries_no_gate_assignments() {
    // Every assignment becomes a command-line variable for the inner sudo instead, which is the
    // only place it can be and still survive that sudo's env_reset.
    for (items, vars) in GATE_CASES {
        let Decision::Gate(argv) = shim(items, vars) else { continue };
        let req = cli::parse(&argv[1..].to_vec()).unwrap();
        if interp::is_interpreter(&req) {
            assert!(req.assignments.is_empty(), "{items:?} carried gate assignments");
        }
    }
}

#[test]
fn the_sudoers_pattern_shape_holds_for_every_request() {
    // `%sudo-prompt-users ALL=(root) NOPASSWD: /usr/local/bin/sudo-prompt -- *` needs the literal
    // `--` followed by at least one argument, joined with spaces.
    for (items, vars) in GATE_CASES {
        let Decision::Gate(argv) = shim(items, vars) else { continue };
        assert_eq!(argv[1], b"--", "{items:?}");
        assert!(argv.len() >= 3, "{items:?} would not match the sudoers pattern");
    }
}

#[test]
fn an_option_lacking_its_value_is_the_one_refusal_on_the_interpreter_path() {
    // `-i -u`: the shim routes it through the real sudo, and sudo-prompt's inner-sudo whitelist
    // refuses the dangling `-u`, which is what the real sudo would make of it too.
    let Decision::Gate(argv) = shim(&["-i", "-u"], &[]) else {
        panic!("-i -u should reach sudo-prompt");
    };
    let req = cli::parse(&argv[1..].to_vec()).unwrap();
    assert!(interp::is_interpreter(&req));
    assert!(req.assignments.is_empty());
    assert_eq!(interp::scan(&req.args).unwrap_err(), "inner sudo option -u has no argument");
    // With its value the same request passes.
    let Decision::Gate(argv) = shim(&["-i", "-u", "ff"], &[]) else {
        panic!("-i -u ff should reach sudo-prompt");
    };
    let req = cli::parse(&argv[1..].to_vec()).unwrap();
    assert!(interp::scan(&req.args).is_ok());
}

#[test]
fn a_direct_request_keeps_its_command_and_arguments() {
    let Decision::Gate(argv) = shim(&["A=1", "--preserve-env=B", "ls", "-l"], &[("B", "2")]) else {
        panic!("should reach sudo-prompt");
    };
    let req = cli::parse(&argv[1..].to_vec()).unwrap();
    assert_eq!(req.command, b"ls".to_vec());
    assert_eq!(req.args, vec![b"-l".to_vec()]);
    assert_eq!(req.assignments.len(), 2);
}

#[test]
fn a_trailing_option_as_the_commands_argument_is_accepted() {
    let Decision::Gate(argv) = shim(&["-i", "id", "-u"], &[]) else {
        panic!("-i id -u should reach sudo-prompt");
    };
    let req = cli::parse(&argv[1..].to_vec()).unwrap();
    assert!(interp::is_interpreter(&req));
    assert!(interp::scan(&req.args).is_ok());
}
