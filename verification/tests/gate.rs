use sudo_prompt::cmdenv::Provenance;
use sudo_prompt::envsetup::Captured;
use sudo_prompt::gate::{
    log_record, outcome, parse_id, parse_u32, provenance, requester_ids, settle_answer, Account, Fail,
    DENIED_MESSAGE, EXIT_FAILURE,
};
use sudo_prompt::journal::datagram;
use sudo_prompt::prompt::{Answer, Verdict};

fn cap(uid: Option<&str>, gid: Option<&str>, user: Option<&str>) -> Captured {
    Captured {
        sudo_uid: uid.map(|s| s.as_bytes().to_vec()),
        sudo_gid: gid.map(|s| s.as_bytes().to_vec()),
        sudo_user: user.map(|s| s.as_bytes().to_vec()),
        ..Default::default()
    }
}

/// Whose request it is, given what passwd says of each uid: here, only 1006 (`ai`) exists.
fn attribute(c: &Captured) -> Result<Provenance, String> {
    let (uid, gid) = requester_ids(c)?;
    let account = if uid == 1006 {
        Some(Account { name: b"ai".to_vec(), home: Some(b"/home/ai".to_vec()) })
    } else {
        None
    };
    provenance(c, uid, gid, account)
}

#[test]
fn provenance_requires_sudo_uid() {
    let err = attribute(&cap(None, Some("0"), None)).unwrap_err();
    assert!(err.contains("SUDO_UID is not set"), "{err}");
}

#[test]
fn provenance_rejects_root_and_junk() {
    assert!(attribute(&cap(Some("0"), Some("0"), None)).unwrap_err().contains("is 0"));
    assert!(attribute(&cap(Some("x"), Some("0"), None)).unwrap_err().contains("not a number"));
    assert!(attribute(&cap(Some("-1"), Some("0"), None)).unwrap_err().contains("not a number"));
    assert!(attribute(&cap(Some("1"), None, None)).unwrap_err().contains("SUDO_GID"));
}

#[test]
fn provenance_resolves_our_own_uid_through_passwd() {
    let p = attribute(&cap(Some("1006"), Some("1"), None)).unwrap();
    assert_eq!(p.uid, 1006);
    assert_eq!(p.user, b"ai".to_vec());
    assert_eq!(p.home, Some(b"/home/ai".to_vec()));
}

#[test]
fn provenance_rejects_a_lying_sudo_user() {
    let err = attribute(&cap(Some("1006"), Some("1"), Some("definitely-not-me"))).unwrap_err();
    assert!(err.contains("inconsistent provenance"), "{err}");
    assert_eq!(err, "inconsistent provenance: SUDO_USER claims definitely-not-me but uid 1006 is ai");
}

#[test]
fn nonexistent_uid_has_no_passwd_entry() {
    let err = attribute(&cap(Some("4294967000"), Some("1"), None)).unwrap_err();
    assert!(err.contains("no passwd entry"), "{err}");
    assert_eq!(err, "uid 4294967000 has no passwd entry");
}

#[test]
fn a_truthful_sudo_user_is_accepted() {
    let p = attribute(&cap(Some("1006"), Some("1007"), Some("ai"))).unwrap();
    assert_eq!((p.uid, p.gid), (1006, 1007));
}

#[test]
fn ids_read_like_std_reads_them() {
    assert_eq!(parse_u32(b"0"), Some(0));
    assert_eq!(parse_u32(b"+17"), Some(17));
    assert_eq!(parse_u32(b"4294967295"), Some(u32::MAX));
    assert_eq!(parse_u32(b"4294967296"), None);
    assert_eq!(parse_u32(b"99999999999999999999"), None);
    assert_eq!(parse_u32(b""), None);
    assert_eq!(parse_u32(b"+"), None);
    assert_eq!(parse_u32(b"-0"), None);
    assert_eq!(parse_u32(b" 1"), None);
    assert_eq!(parse_u32(b"1x"), None);
    for s in ["0", "+5", "12345", "4294967295", "4294967296", "", "+", "-1", "1 ", "0x10"] {
        assert_eq!(parse_u32(s.as_bytes()), s.parse::<u32>().ok(), "{s:?}");
    }
}

#[test]
fn id_messages_name_the_variable() {
    assert_eq!(
        parse_id(None, "SUDO_GID").unwrap_err(),
        "SUDO_GID is not set; sudo-prompt must be invoked through sudo"
    );
    assert_eq!(parse_id(Some(b"a\xffb"), "SUDO_UID").unwrap_err(), "SUDO_UID is not a number: a\u{fffd}b");
    assert_eq!(parse_id(Some(b"42"), "SUDO_UID"), Ok(42));
}

#[test]
fn the_denial_contract() {
    assert_eq!(DENIED_MESSAGE, "User denied sudo :(");
    assert_eq!(EXIT_FAILURE, 125);
}

#[test]
fn each_verdict_has_its_exit() {
    let a = |v: Verdict| settle_answer(Answer { verdict: v, response: Some("why".to_string()) });
    assert_eq!(a(Verdict::Approved).unwrap(), Some("why".to_string()));
    match a(Verdict::Denied) {
        Err(Fail::Denied { response }) => assert_eq!(response, Some("why".to_string())),
        other => panic!("{other:?}"),
    }
    match a(Verdict::DeniedSettleCap) {
        Err(Fail::Error(e)) => {
            assert_eq!(e, "input kept arriving; the prompt never settled, so nothing was approved")
        }
        other => panic!("{other:?}"),
    }
    match a(Verdict::DeniedSignal(15)) {
        Err(Fail::Error(e)) => assert_eq!(e, "denied: received signal 15"),
        other => panic!("{other:?}"),
    }
    match a(Verdict::Error("no outputs".to_string())) {
        Err(Fail::Error(e)) => assert_eq!(e, "no outputs"),
        other => panic!("{other:?}"),
    }
}

#[test]
fn outcome_words() {
    assert_eq!(outcome(&Verdict::Approved), "approve");
    assert_eq!(outcome(&Verdict::Denied), "deny");
    assert_eq!(outcome(&Verdict::DeniedSettleCap), "deny(settle-cap)");
    assert_eq!(outcome(&Verdict::DeniedSignal(2)), "deny(signal 2)");
    assert_eq!(outcome(&Verdict::DeniedSignal(-3)), "deny(signal -3)");
    assert_eq!(outcome(&Verdict::Error("x".to_string())), "error");
}

fn prov() -> Provenance {
    Provenance { uid: 1006, gid: 1007, user: b"ai".to_vec(), home: None }
}

#[test]
fn the_decision_record() {
    let r = log_record(&prov(), "wayland-1", "/usr/bin/rm -rf '/tmp/a b'", "approve", None);
    assert_eq!(r.line, "approve: uid=1006 user=ai display=wayland-1 command=/usr/bin/rm -rf '/tmp/a b'");
    let names: Vec<&str> = r.fields.iter().map(|(n, _)| n.as_str()).collect();
    assert_eq!(
        names,
        vec![
            "MESSAGE",
            "SUDO_PROMPT_OUTCOME",
            "SUDO_PROMPT_UID",
            "SUDO_PROMPT_USER",
            "SUDO_PROMPT_DISPLAY",
            "SUDO_PROMPT_COMMAND",
            "SYSLOG_IDENTIFIER",
        ]
    );
    assert_eq!(r.fields[0].1, "sudo-prompt approve: /usr/bin/rm -rf '/tmp/a b'");
    assert_eq!(r.fields[2].1, "1006");
    assert_eq!(r.fields[6].1, "sudo-prompt");
}

#[test]
fn the_record_carries_an_escaped_response() {
    let why = "not now\nok".to_string();
    let r = log_record(&prov(), "wayland-1", "id", "deny", Some(&why));
    assert_eq!(r.line, "deny: uid=1006 user=ai display=wayland-1 command=id response=not now\\x0aok");
    assert_eq!(r.fields[6], ("SUDO_PROMPT_RESPONSE".to_string(), "not now\\x0aok".to_string()));
    let empty = String::new();
    let r = log_record(&prov(), "wayland-1", "id", "deny", Some(&empty));
    assert_eq!(r.fields.len(), 7);
    assert!(!r.line.contains("response="));
}

#[test]
fn the_record_fits_one_datagram() {
    let r = log_record(&prov(), "wayland-1", "id", "approve", None);
    let d = datagram(&r.fields).expect("small enough");
    assert!(d.starts_with(b"MESSAGE\n"));
    let huge = "x".repeat(100 * 1024);
    let r = log_record(&prov(), "wayland-1", &huge, "approve", None);
    assert_eq!(datagram(&r.fields), None);
}

#[test]
fn a_bad_id_is_shown_with_each_maximal_bad_subpart_replaced_once() {
    let shown = |raw: &[u8]| parse_id(Some(raw), "SUDO_UID").unwrap_err();
    // E0 needs A0..BF next: two separate bad bytes.
    assert_eq!(shown(b"\xe0\x80"), "SUDO_UID is not a number: \u{fffd}\u{fffd}");
    // A four-byte sequence cut short is one bad subpart.
    assert_eq!(shown(b"\xf0\x9f\x98"), "SUDO_UID is not a number: \u{fffd}");
    assert_eq!(shown(b"\xf0\x9f\x98A"), "SUDO_UID is not a number: \u{fffd}A");
    // An encoded surrogate is three bad bytes.
    assert_eq!(shown(b"\xed\xa0\x80"), "SUDO_UID is not a number: \u{fffd}\u{fffd}\u{fffd}");
    // Well-formed text comes through.
    assert_eq!(shown("caf\u{e9}".as_bytes()), "SUDO_UID is not a number: caf\u{e9}");
}
