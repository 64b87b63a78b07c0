use sudo_prompt::dialog::{FieldKind, Style};
use sudo_prompt::generic::{
    dialog_spec, escape, exit_code, lines, Prose, APPROVE, DENY, DISCLAIMER, EXIT_APPROVED, EXIT_DENIED,
    EXIT_ERROR, HEADING,
};
use sudo_prompt::prompt::Verdict;

fn prose(title: Option<&str>, body: Option<&str>, details: &[&str], response: bool) -> Prose {
    Prose {
        title: title.map(|s| s.to_string()),
        body: body.map(|s| s.to_string()),
        details: details.iter().map(|s| s.to_string()).collect(),
        response,
    }
}

#[test]
fn the_response_box_is_off_unless_asked_for() {
    assert!(!dialog_spec(&prose(Some("x"), None, &[], false)).response);
    assert!(dialog_spec(&prose(Some("x"), None, &[], true)).response);
}

#[test]
fn the_presenter_says_what_it_is() {
    let d = dialog_spec(&prose(None, None, &[], false));
    assert_eq!(d.style, Style::Generic);
    assert_eq!(d.title, HEADING);
    assert_eq!(d.heading, Some("Permission requested"));
    assert_eq!(d.subtitle.len(), 1);
    assert_eq!(d.subtitle[0].as_str(), DISCLAIMER);
    assert_eq!((d.approve, d.deny), (APPROVE, DENY));
    assert_eq!((APPROVE, DENY), ("Allow", "Deny"));
    assert!(d.chip.is_none());
    assert!(d.fields.is_empty());
}

#[test]
fn caller_prose_is_quarantined() {
    let d = dialog_spec(&prose(Some("Install <b>x</b>?"), Some("line one\nline\ttwo"), &["a\nb", "c"], false));
    assert_eq!(d.fields.len(), 3);
    assert!(d.fields.iter().all(|f| f.kind == FieldKind::Untrusted && f.label.is_empty()));
    assert!(d.fields[0].prominent);
    assert_eq!(d.fields[0].lines[0].as_str(), "Install <b>x</b>?");
    assert!(d.fields[1].expand);
    let body: Vec<&str> = d.fields[1].lines.iter().map(|l| l.as_str()).collect();
    assert_eq!(body, vec!["line one", "line\\x09two"]);
    let details: Vec<&str> = d.fields[2].lines.iter().map(|l| l.as_str()).collect();
    assert_eq!(details, vec!["a", "b", "c"]);
}

#[test]
fn newlines_split_and_everything_else_is_escaped() {
    let ls = lines("a\n\nb\r");
    let text: Vec<&str> = ls.iter().map(|l| l.as_str()).collect();
    assert_eq!(text, vec!["a", "", "b\\x0d"]);
    assert_eq!(lines("").len(), 1);
    assert_eq!(escape("x\ny").as_str(), "x\\x0ay");
}

#[test]
fn exit_codes() {
    assert_eq!(exit_code(&Verdict::Approved), EXIT_APPROVED);
    assert_eq!(exit_code(&Verdict::Denied), EXIT_DENIED);
    assert_eq!(exit_code(&Verdict::DeniedSettleCap), EXIT_DENIED);
    assert_eq!(exit_code(&Verdict::DeniedSignal(1)), EXIT_DENIED);
    assert_eq!(exit_code(&Verdict::Error("x".to_string())), EXIT_ERROR);
    assert_eq!((EXIT_APPROVED, EXIT_DENIED, EXIT_ERROR), (0, 1, 3));
}
