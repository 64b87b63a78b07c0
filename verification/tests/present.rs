use sudo_prompt::cli;
use sudo_prompt::cmdenv::Provenance;
use sudo_prompt::dialog::{Field, FieldKind};
use sudo_prompt::present::{abbreviate, build, Rendered};

fn prov() -> Provenance {
    Provenance {
        uid: 1006,
        gid: 1007,
        user: b"ai".to_vec(),
        home: Some(b"/home/ai".to_vec()),
    }
}

fn render(argv: &[&str]) -> Rendered {
    let req = cli::parse(&argv.iter().map(|s| s.as_bytes().to_vec()).collect::<Vec<_>>()).unwrap();
    let prov = prov();
    // A realistic capture: TERM is present on every request a real caller makes.
    let cap = sudo_prompt::envsetup::Captured {
        passthrough: vec![(b"TERM".to_vec(), b"xterm-256color".to_vec())],
        ..Default::default()
    };
    let env = sudo_prompt::cmdenv::build(&cap, &req, &prov, b"/bin/bash");
    let interp = if sudo_prompt::interp::is_interpreter(&req) {
        Some(sudo_prompt::interp::scan(&req.args).unwrap())
    } else {
        None
    };
    build(&req, interp.as_ref(), &prov, Some(&b"/home/ai/desktop-bits"[..]), &env)
}

fn field<'a>(r: &'a Rendered, label: &str) -> &'a Field {
    r.spec.fields.iter().find(|f| f.label == label).expect("field present")
}

/// The command: the one prominent field, and the one that expands.
fn command(r: &Rendered) -> &Field {
    r.spec.fields.iter().find(|f| f.prominent).expect("command field present")
}

/// The unlabelled line naming who asked and from where.
fn origin(r: &Rendered) -> &Field {
    r.spec
        .fields
        .iter()
        .find(|f| f.kind == FieldKind::Untrusted && f.label.is_empty() && !f.prominent)
        .expect("origin field present")
}

#[test]
fn every_caller_controlled_field_scrolls() {
    let r = render(&["--", "/usr/bin/ls", "-l"]);
    assert!(r.spec.fields.iter().all(|f| f.kind == FieldKind::Untrusted));
    assert_eq!(command(&r).label, "");
}

/// Nothing above the command: no icon, no heading, no subtitle.
#[test]
fn the_command_is_the_first_thing_on_screen() {
    let r = render(&["--", "/usr/bin/ls", "-l"]);
    assert_eq!(r.spec.heading, None);
    assert!(r.spec.subtitle.is_empty());
    assert!(std::ptr::eq(&r.spec.fields[0], command(&r)));
    assert!(command(&r).expand);
}

#[test]
fn the_requester_and_their_cwd_share_one_line() {
    let r = render(&["--", "id"]);
    assert_eq!(origin(&r).lines.len(), 1);
    assert_eq!(origin(&r).lines[0].as_str(), "ai | ~/desktop-bits");
}

#[test]
fn the_cwd_is_abbreviated_against_the_requesters_home_not_roots() {
    let home = Some(&b"/home/ai"[..]);
    assert_eq!(abbreviate(b"/home/ai", home), b"~");
    assert_eq!(abbreviate(b"/home/ai/src", home), b"~/src");
    assert_eq!(abbreviate(b"/root", home), b"/root");
    // A prefix that is not a path component boundary is not the home directory.
    assert_eq!(abbreviate(b"/home/aid", home), b"/home/aid");
    // No usable home: shown as it is, never abbreviated against `/`.
    assert_eq!(abbreviate(b"/etc", None), b"/etc");
    assert_eq!(abbreviate(b"/etc", Some(&b"/"[..])), b"/etc");
    assert_eq!(abbreviate(b"/etc", Some(&b""[..])), b"/etc");
}

#[test]
fn an_odd_cwd_is_quoted_but_a_tilde_alone_is_not() {
    let quoted = |cwd: &[u8]| {
        let req = cli::parse(&vec![b"--".to_vec(), b"id".to_vec()]).unwrap();
        let env = sudo_prompt::cmdenv::build(
            &sudo_prompt::envsetup::Captured::default(),
            &req,
            &prov(),
            b"/bin/sh",
        );
        let r = build(&req, None, &prov(), Some(cwd), &env);
        origin(&r).lines[0].as_str().to_string()
    };
    assert_eq!(quoted(b"/home/ai"), "ai | ~");
    assert_eq!(quoted(b"/home/ai/a b"), "ai | '~/a b'");
    assert_eq!(quoted(b"/tmp/x\ny"), "ai | '/tmp/x\\x0ay'");
}

#[test]
fn one_shell_quoted_token_per_line() {
    let r = render(&["--", "/usr/bin/rm", "-rf", "/tmp/a b", "x'y"]);
    let f = command(&r);
    assert_eq!(
        f.lines.iter().map(|l| l.as_str()).collect::<Vec<_>>(),
        vec!["/usr/bin/rm", "-rf", "'/tmp/a b'", "'x'\\''y'"]
    );
    assert_eq!(r.command_log, "/usr/bin/rm -rf '/tmp/a b' 'x'\\''y'");
}

#[test]
fn markup_and_mnemonics_stay_literal() {
    let r = render(&["--", "/bin/echo", "<b>Run a command as root?</b>", "_Approve"]);
    let f = command(&r);
    assert!(f.lines[1].as_str().contains("<b>Run a command as root?</b>"));
    assert!(f.lines[2].as_str().contains("_Approve"));
}

#[test]
fn control_bytes_in_argv_are_escaped_and_flagged() {
    let r = render(&["--", "/bin/echo", "a\u{1b}[31mred"]);
    let f = command(&r);
    assert!(f.lines[1].as_str().contains("\\x1b"));
    assert!(f.lines[1].was_escaped());
}

#[test]
fn assignments_show_in_the_environment_field_not_the_command_field() {
    let r = render(&["--", "LD_PRELOAD=/tmp/evil.so", "/bin/id"]);
    assert_eq!(command(&r).lines.len(), 1);
    let env = field(&r, "env");
    assert!(env.lines.iter().any(|l| l.as_str() == "LD_PRELOAD=/tmp/evil.so"));
}

/// The env field is for what the caller *asked* for. Inherited shell state arrives on every
/// request, so listing it taught the eye to skip the field that also carries `LD_PRELOAD=`.
#[test]
fn inherited_shell_state_is_not_listed() {
    // Nothing was asked for, so there is no env row at all — not an empty one.
    let r = render(&["--", "/bin/id"]);
    assert!(r.spec.fields.iter().all(|f| f.label != "env"));

    let r = render(&["--", "LD_PRELOAD=/tmp/evil.so", "/bin/id"]);
    let env = field(&r, "env");
    assert_eq!(
        env.lines.iter().map(|l| l.as_str()).collect::<Vec<_>>(),
        vec!["LD_PRELOAD=/tmp/evil.so"]
    );
    assert!(env.notes.is_empty());
}

/// An ordinary TERM is silent, but a malformed one is exactly the anomaly worth surfacing.
#[test]
fn a_dropped_passthrough_is_still_noted() {
    let req = cli::parse(&vec![b"--".to_vec(), b"id".to_vec()]).unwrap();
    let prov = Provenance { uid: 1, gid: 1, user: b"x".to_vec(), home: None };
    let cap = sudo_prompt::envsetup::Captured {
        passthrough: vec![(b"TERM".to_vec(), b"../../tmp/evil".to_vec())],
        ..Default::default()
    };
    let env = sudo_prompt::cmdenv::build(&cap, &req, &prov, b"/bin/sh");
    let r = build(&req, None, &prov, Some(&b"/home/x"[..]), &env);
    let f = field(&r, "env");
    assert!(f.lines.is_empty());
    assert_eq!(f.notes.len(), 1);
    assert!(f.notes[0].as_str().contains("dropped as invalid: TERM"));
}

#[test]
fn interpreter_requests_get_a_trusted_warning_under_the_command() {
    let r = render(&["--", "/usr/bin/sudo", "-u", "ff", "id"]);
    let w = &r.spec.fields[1];
    assert_eq!(w.kind, FieldKind::Warning);
    assert!(w.lines.iter().any(|l| l.as_str().contains("second sudo")));
    assert!(w.lines.iter().any(|l| l.as_str().contains("as another user")));
    // The path stays in the command field with the rest of the argv.
    assert_eq!(command(&r).lines[0].as_str(), "/usr/bin/sudo");
}

#[test]
fn plain_requests_get_no_warning_field() {
    let r = render(&["--", "/usr/bin/ls"]);
    assert!(r.spec.fields.iter().all(|f| f.kind != FieldKind::Warning));
}

#[test]
fn missing_cwd_is_named_rather_than_left_blank() {
    let req = cli::parse(&vec![b"--".to_vec(), b"id".to_vec()]).unwrap();
    let prov = Provenance { uid: 1, gid: 1, user: b"x".to_vec(), home: None };
    let env = sudo_prompt::cmdenv::build(&sudo_prompt::envsetup::Captured::default(), &req, &prov, b"/bin/sh");
    let r = build(&req, None, &prov, None, &env);
    assert_eq!(origin(&r).lines[0].as_str(), "x | (cwd unavailable)");
}

#[test]
fn the_gate_dialog_is_fixed_and_answers_with_a_response_box() {
    let r = render(&["--", "/usr/bin/ls", "-l"]);
    assert_eq!(r.spec.title, "Run a command as root?");
    assert_eq!(r.spec.approve, "Run as root");
    assert_eq!(r.spec.deny, "Cancel");
    assert!(r.spec.response);
    let chip = r.spec.chip.as_ref().expect("sudo-prompt can be minimized");
    assert_eq!(chip.command.as_str(), "/usr/bin/ls -l");
    assert_eq!(chip.user.as_str(), "ai");
}

#[test]
fn a_home_of_slash_or_nothing_abbreviates_nothing() {
    assert_eq!(abbreviate(b"/home/ai/x", Some(&b"/home/ai/"[..])), b"/home/ai/x");
    assert_eq!(abbreviate(b"/", Some(&b"/"[..])), b"/");
    assert_eq!(abbreviate(b"", Some(&b"/home/ai"[..])), b"");
}
