//! sudo-prompt's decisions around the prompt: whose request this is, what a verdict means for the
//! exit, and the one record kept of each decision.

use vstd::prelude::*;
use vstd::slice::slice_to_vec;
use vstd::string::*;
use vstd::utf8::encode_utf8;

use crate::cmdenv::Provenance;
use crate::envsetup::{opt_view, Captured};
use crate::prompt::{answered, opt_str, Answer, Verdict};
use crate::untrusted::{escape_view, Escaped, Untrusted, MAX_TOKEN_CHARS};
use crate::journal::field_views;
use crate::text::{append, decimal, decimal_string, lossy, signed_decimal, signed_string, utf8_lossy};

verus! {

/// The one sentence a denial prints. Kept exact: callers grep for it.
pub const DENIED_MESSAGE: &'static str = "User denied sudo :(";

/// Denial, and every operational error, exit 125. On approval sudo-prompt exec()s, so the command's
/// own status or signal is the result.
pub const EXIT_FAILURE: i32 = 125;

#[derive(Debug)]
pub enum Fail {
    /// The human said no, and perhaps said why.
    Denied { response: Option<String> },
    /// A named check failed, or the prompt could not be trusted to have been answered.
    Error(String),
}

pub open spec fn is_digit_byte(b: u8) -> bool {
    0x30 <= b <= 0x39
}

/// The value of a run of decimal digits.
pub open spec fn digits_value(s: Seq<u8>) -> nat
    decreases s.len(),
{
    if s.len() == 0 {
        0
    } else {
        digits_value(s.drop_last()) * 10 + (s.last() - 0x30) as nat
    }
}

/// The text after an optional leading `+`.
pub open spec fn unsigned_part(b: Seq<u8>) -> Seq<u8> {
    if b.len() > 0 && b[0] == 0x2B {
        b.skip(1)
    } else {
        b
    }
}

pub open spec fn all_digits(d: Seq<u8>) -> bool {
    forall|i: int| 0 <= i < d.len() ==> is_digit_byte(#[trigger] d[i])
}

/// How std reads a `u32` from text: an optional `+`, then at least one decimal digit, and a value
/// that fits.
pub open spec fn spec_parse_u32(b: Seq<u8>) -> Option<u32> {
    let d = unsigned_part(b);
    if d.len() > 0 && all_digits(d) && digits_value(d) <= u32::MAX {
        Some(digits_value(d) as u32)
    } else {
        None
    }
}

proof fn lemma_digits_grow(d: Seq<u8>, i: int)
    requires
        0 <= i <= d.len(),
        forall|k: int| 0 <= k < d.len() ==> is_digit_byte(#[trigger] d[k]),
    ensures
        digits_value(d.take(i)) <= digits_value(d),
    decreases d.len() - i,
{
    if i < d.len() {
        lemma_digits_grow(d, i + 1);
        assert(d.take(i + 1).drop_last() =~= d.take(i));
    } else {
        assert(d.take(i) =~= d);
    }
}

/// A decimal `u32` as std's `str::parse` reads it.
pub fn parse_u32(b: &[u8]) -> (r: Option<u32>)
    ensures
        r == spec_parse_u32(b@),
{
    let start: usize = if b.len() > 0 && b[0] == 0x2B { 1 } else { 0 };
    let ghost d = unsigned_part(b@);
    assert(d =~= b@.skip(start as int));
    if start >= b.len() {
        return None;
    }
    let mut v: u64 = 0;
    let mut i: usize = start;
    while i < b.len()
        invariant
            start <= i <= b@.len(),
            start < b@.len(),
            d =~= b@.skip(start as int),
            d == unsigned_part(b@),
            forall|k: int| 0 <= k < i - start ==> is_digit_byte(#[trigger] d[k]),
            v == digits_value(d.take(i - start)),
            v <= u32::MAX,
        decreases b@.len() - i,
    {
        let c = b[i];
        let ghost k = i - start;
        assert(d[k] == c);
        if c < 0x30 || c > 0x39 {
            assert(!is_digit_byte(d[k]));
            assert(!all_digits(d));
            return None;
        }
        let ghost before = d.take(k);
        assert(d.take(k + 1).drop_last() =~= before);
        assert(d.take(k + 1).last() == c);
        v = v * 10 + (c - 0x30) as u64;
        i += 1;
        assert(v == digits_value(d.take(k + 1)));
        if v > 0xFFFF_FFFF {
            proof {
                if all_digits(d) {
                    lemma_digits_grow(d, i - start);
                }
            }
            return None;
        }
    }
    assert(d.take(i - start) =~= d);
    Some(v as u32)
}

/// `"{name} is not set; sudo-prompt must be invoked through sudo"`.
pub open spec fn not_set(name: Seq<char>) -> Seq<char> {
    name + " is not set; sudo-prompt must be invoked through sudo"@
}

/// `"{name} is not a number: {raw}"`.
pub open spec fn not_a_number(name: Seq<char>, raw: Seq<u8>) -> Seq<char> {
    name + " is not a number: "@ + utf8_lossy(raw)
}

pub open spec fn spec_parse_id(value: Option<Seq<u8>>, name: Seq<char>) -> Result<u32, Seq<char>> {
    match value {
        None => Err(not_set(name)),
        Some(raw) => match spec_parse_u32(raw) {
            Some(n) => Ok(n),
            None => Err(not_a_number(name, raw)),
        },
    }
}

pub open spec fn result_view(r: Result<u32, String>) -> Result<u32, Seq<char>> {
    match r {
        Ok(n) => Ok(n),
        Err(e) => Err(e@),
    }
}

/// A numeric id from the environment sudo set, named `name` in the message when it is missing or
/// not a number.
pub fn parse_id(value: Option<&[u8]>, name: &str) -> (r: Result<u32, String>)
    ensures
        result_view(r) == spec_parse_id(
            match value {
                Some(v) => Some(v@),
                None => None,
            },
            name@,
        ),
{
    let raw = match value {
        Some(raw) => raw,
        None => {
            let mut e = String::from_str(name);
            append(&mut e, " is not set; sudo-prompt must be invoked through sudo");
            return Err(e);
        },
    };
    match parse_u32(raw) {
        Some(n) => Ok(n),
        None => {
            let mut e = String::from_str(name);
            append(&mut e, " is not a number: ");
            let shown = lossy(raw);
            append(&mut e, shown.as_str());
            Err(e)
        },
    }
}

/// The requester's uid and gid, from SUDO_UID and SUDO_GID. A uid of 0 cannot be attributed to
/// anyone, so it is refused; SUDO_USER is not trusted for anything.
pub open spec fn spec_requester_ids(cap: crate::envsetup::CapturedView) -> Result<(u32, u32), Seq<char>> {
    match spec_parse_id(cap.sudo_uid, "SUDO_UID"@) {
        Err(e) => Err(e),
        Ok(uid) => if uid == 0 {
            Err("SUDO_UID is 0: sudo-prompt cannot attribute this request"@)
        } else {
            match spec_parse_id(cap.sudo_gid, "SUDO_GID"@) {
                Err(e) => Err(e),
                Ok(gid) => Ok((uid, gid)),
            }
        },
    }
}

pub open spec fn ids_view(r: Result<(u32, u32), String>) -> Result<(u32, u32), Seq<char>> {
    match r {
        Ok(p) => Ok(p),
        Err(e) => Err(e@),
    }
}

fn opt_slice(o: &Option<Vec<u8>>) -> (r: Option<&[u8]>)
    ensures
        match r {
            Some(s) => opt_view(*o) == Some(s@),
            None => opt_view(*o) is None,
        },
{
    match o {
        Some(v) => Some(v.as_slice()),
        None => None,
    }
}

pub fn requester_ids(cap: &Captured) -> (r: Result<(u32, u32), String>)
    ensures
        ids_view(r) == spec_requester_ids(cap@),
{
    let uid = match parse_id(opt_slice(&cap.sudo_uid), "SUDO_UID") {
        Ok(n) => n,
        Err(e) => return Err(e),
    };
    if uid == 0 {
        return Err(String::from_str("SUDO_UID is 0: sudo-prompt cannot attribute this request"));
    }
    let gid = match parse_id(opt_slice(&cap.sudo_gid), "SUDO_GID") {
        Ok(n) => n,
        Err(e) => return Err(e),
    };
    Ok((uid, gid))
}

/// What passwd says of a uid: its name and home directory.
pub struct Account {
    pub name: Vec<u8>,
    pub home: Option<Vec<u8>>,
}

/// `"uid {uid} has no passwd entry"`.
pub open spec fn no_entry(uid: u32) -> Seq<char> {
    "uid "@ + decimal(uid as nat) + " has no passwd entry"@
}

/// `"inconsistent provenance: SUDO_USER claims {claimed} but uid {uid} is {name}"`.
pub open spec fn inconsistent(claimed: Seq<u8>, uid: u32, name: Seq<u8>) -> Seq<char> {
    "inconsistent provenance: SUDO_USER claims "@ + utf8_lossy(claimed) + " but uid "@ + decimal(uid as nat)
        + " is "@ + utf8_lossy(name)
}

/// Whose request this is, from the ids sudo set and what passwd says of the uid. A uid with no
/// entry, or a SUDO_USER that names someone else, is refused rather than trusted.
pub fn provenance(cap: &Captured, uid: u32, gid: u32, account: Option<Account>) -> (r: Result<Provenance, String>)
    ensures
        match account {
            None => r matches Err(e) && e@ == no_entry(uid),
            Some(a) => match cap@.sudo_user {
                Some(claimed) if claimed != a.name@ => r matches Err(e) && e@ == inconsistent(claimed, uid, a.name@),
                _ => r matches Ok(p) && p.uid == uid && p.gid == gid && p.user@ == a.name@ && opt_view(p.home)
                    == opt_view(a.home),
            },
        },
{
    let a = match account {
        Some(a) => a,
        None => {
            let mut e = String::from_str("uid ");
            let n = decimal_string(uid as u64);
            append(&mut e, n.as_str());
            append(&mut e, " has no passwd entry");
            return Err(e);
        },
    };
    match &cap.sudo_user {
        Some(claimed) => {
            if !crate::bytes::bytes_eq(claimed.as_slice(), a.name.as_slice()) {
                let mut e = String::from_str("inconsistent provenance: SUDO_USER claims ");
                let c = lossy(claimed.as_slice());
                append(&mut e, c.as_str());
                append(&mut e, " but uid ");
                let n = decimal_string(uid as u64);
                append(&mut e, n.as_str());
                append(&mut e, " is ");
                let u = lossy(a.name.as_slice());
                append(&mut e, u.as_str());
                return Err(e);
            }
        },
        None => {},
    }
    Ok(Provenance { uid, gid, user: a.name, home: a.home })
}

/// `"denied: received signal {sig}"`.
pub open spec fn signal_message(sig: i32) -> Seq<char> {
    "denied: received signal "@ + signed_decimal(sig as int)
}

/// The message for a prompt that never settled.
pub open spec fn never_settled() -> Seq<char> {
    "input kept arriving; the prompt never settled, so nothing was approved"@
}

/// What sudo-prompt does with the prompt's answer: go on to run the command on approval, carrying
/// the response to print before the exec, and otherwise stop with the reason. Only a human's
/// answer carries a response.
pub fn settle_answer(a: Answer) -> (r: Result<Option<String>, Fail>)
    ensures
        match a.verdict {
            Verdict::Approved => r matches Ok(resp) && opt_str(resp) == opt_str(a.response),
            Verdict::Denied => r matches Err(Fail::Denied { response }) && opt_str(response) == opt_str(a.response),
            Verdict::DeniedSettleCap => r matches Err(Fail::Error(e)) && e@ == never_settled(),
            Verdict::DeniedSignal(sig) => r matches Err(Fail::Error(e)) && e@ == signal_message(sig),
            Verdict::Error(m) => r matches Err(Fail::Error(e)) && e@ == m@,
        },
{
    match a.verdict {
        Verdict::Approved => Ok(a.response),
        Verdict::Denied => Err(Fail::Denied { response: a.response }),
        Verdict::DeniedSettleCap => Err(Fail::Error(String::from_str(
            "input kept arriving; the prompt never settled, so nothing was approved",
        ))),
        Verdict::DeniedSignal(sig) => {
            let mut e = String::from_str("denied: received signal ");
            let n = signed_string(sig);
            append(&mut e, n.as_str());
            Err(Fail::Error(e))
        },
        Verdict::Error(m) => Err(Fail::Error(m)),
    }
}

/// The outcome word of the decision record.
pub open spec fn spec_outcome(v: Verdict) -> Seq<char> {
    match v {
        Verdict::Approved => "approve"@,
        Verdict::Denied => "deny"@,
        Verdict::DeniedSettleCap => "deny(settle-cap)"@,
        Verdict::DeniedSignal(sig) => "deny(signal "@ + signed_decimal(sig as int) + ")"@,
        Verdict::Error(_) => "error"@,
    }
}

pub fn outcome(v: &Verdict) -> (s: String)
    ensures
        s@ == spec_outcome(*v),
{
    match v {
        Verdict::Approved => String::from_str("approve"),
        Verdict::Denied => String::from_str("deny"),
        Verdict::DeniedSettleCap => String::from_str("deny(settle-cap)"),
        Verdict::DeniedSignal(sig) => {
            let mut s = String::from_str("deny(signal ");
            let n = signed_string(*sig);
            append(&mut s, n.as_str());
            append(&mut s, ")");
            s
        },
        Verdict::Error(_) => String::from_str("error"),
    }
}

/// The one record kept of a decision: a line for the log, and the journal's fields.
pub struct Record {
    pub line: String,
    pub fields: Vec<(String, String)>,
}

/// The response as the record shows it: escaped like the command, one line whatever was typed.
pub open spec fn shown_response(r: Seq<char>) -> Seq<char> {
    escape_view(encode_utf8(r), MAX_TOKEN_CHARS as int).0
}

/// `"{outcome}: uid={uid} user={user} display={display} command={command}"`, and the response
/// after it when there is one.
pub open spec fn spec_log_line(
    uid: u32,
    user: Seq<u8>,
    display: Seq<char>,
    command: Seq<char>,
    outcome: Seq<char>,
    response: Option<Seq<char>>,
) -> Seq<char> {
    outcome + ": uid="@ + decimal(uid as nat) + " user="@ + utf8_lossy(user) + " display="@ + display
        + " command="@ + command + match response {
        Some(r) if r.len() > 0 => " response="@ + shown_response(r),
        _ => seq![],
    }
}

/// The journal fields, in order. The response has a field only when one was typed.
pub open spec fn spec_journal_fields(
    uid: u32,
    user: Seq<u8>,
    display: Seq<char>,
    command: Seq<char>,
    outcome: Seq<char>,
    response: Option<Seq<char>>,
) -> Seq<(Seq<char>, Seq<char>)> {
    seq![
        ("MESSAGE"@, "sudo-prompt "@ + outcome + ": "@ + command),
        ("SUDO_PROMPT_OUTCOME"@, outcome),
        ("SUDO_PROMPT_UID"@, decimal(uid as nat)),
        ("SUDO_PROMPT_USER"@, utf8_lossy(user)),
        ("SUDO_PROMPT_DISPLAY"@, display),
        ("SUDO_PROMPT_COMMAND"@, command),
    ] + match response {
        Some(r) if r.len() > 0 => seq![("SUDO_PROMPT_RESPONSE"@, shown_response(r))],
        _ => seq![],
    } + seq![("SYSLOG_IDENTIFIER"@, "sudo-prompt"@)]
}

fn field(name: &str, value: String) -> (f: (String, String))
    ensures
        f.0@ == name@,
        f.1@ == value@,
{
    (String::from_str(name), value)
}

/// The decision record for a request from `prov`, shown on `display`.
pub fn log_record(prov: &Provenance, display: &str, command: &str, outcome: &str, response: Option<&String>) -> (r: Record)
    ensures
        r.line@ == spec_log_line(
            prov.uid,
            prov.user@,
            display@,
            command@,
            outcome@,
            match response {
                Some(t) => Some(t@),
                None => None,
            },
        ),
        field_views(r.fields@) == spec_journal_fields(
            prov.uid,
            prov.user@,
            display@,
            command@,
            outcome@,
            match response {
                Some(t) => Some(t@),
                None => None,
            },
        ),
{
    let user = lossy(prov.user.as_slice());
    let uid = decimal_string(prov.uid as u64);
    let shown: Option<String> = match response {
        Some(t) => if t.as_str().unicode_len() > 0 {
            let e = Escaped::of(&Untrusted::from_bytes(slice_to_vec(t.as_str().as_bytes())));
            Some(String::from_str(e.as_str()))
        } else {
            None
        },
        None => None,
    };
    let ghost rv: Option<Seq<char>> = match response {
        Some(t) => Some(t@),
        None => None,
    };

    let mut line = String::from_str(outcome);
    append(&mut line, ": uid=");
    append(&mut line, uid.as_str());
    append(&mut line, " user=");
    append(&mut line, user.as_str());
    append(&mut line, " display=");
    append(&mut line, display);
    append(&mut line, " command=");
    append(&mut line, command);
    match &shown {
        Some(e) => {
            append(&mut line, " response=");
            append(&mut line, e.as_str());
        },
        None => {},
    }

    let mut message = String::from_str("sudo-prompt ");
    append(&mut message, outcome);
    append(&mut message, ": ");
    append(&mut message, command);

    let mut fields: Vec<(String, String)> = Vec::new();
    fields.push(field("MESSAGE", message));
    fields.push(field("SUDO_PROMPT_OUTCOME", String::from_str(outcome)));
    fields.push(field("SUDO_PROMPT_UID", uid));
    fields.push(field("SUDO_PROMPT_USER", user));
    fields.push(field("SUDO_PROMPT_DISPLAY", String::from_str(display)));
    fields.push(field("SUDO_PROMPT_COMMAND", String::from_str(command)));
    let ghost base = field_views(fields@);
    match shown {
        Some(e) => fields.push(field("SUDO_PROMPT_RESPONSE", e)),
        None => {},
    }
    let ghost mid = field_views(fields@);
    fields.push(field("SYSLOG_IDENTIFIER", String::from_str("sudo-prompt")));
    proof {
        reveal_strlit(" response=");
        let want = spec_journal_fields(prov.uid, prov.user@, display@, command@, outcome@, rv);
        assert(field_views(fields@) =~= mid.push(("SYSLOG_IDENTIFIER"@, "sudo-prompt"@)));
        assert(field_views(fields@) =~= want);
    }
    Record { line, fields }
}

} // verus!
