//! The generic yes/no presenter's dialog. It never executes a command and is not an authorization
//! boundary: its caller owns its prose and interprets its exit status. The caller's prose is
//! visually quarantined, escaped through the same path and shown in the same bounded viewports as
//! sudo-prompt's caller-controlled fields.

use vstd::prelude::*;
use vstd::slice::slice_to_vec;
use vstd::string::*;
use vstd::utf8::encode_utf8;

use crate::bytes::{byte_views, split, split_on};
use crate::dialog::{field_view, field_views, DialogSpec, EView, Field, FieldKind, FieldView, Style};
use crate::prompt::Verdict;
use crate::untrusted::{escape_view, views, Escaped, Untrusted, MAX_TOKEN_CHARS};

verus! {

/// Exit codes. This is not a sudo wrapper, so no exit-status collision exists.
pub const EXIT_APPROVED: i32 = 0;
pub const EXIT_DENIED: i32 = 1;
pub const EXIT_ERROR: i32 = 3;

pub const HEADING: &'static str = "Permission requested";
pub const APPROVE: &'static str = "Allow";
pub const DENY: &'static str = "Deny";

/// Compiled-in, so the presenter can never be dressed up as the sudo gate or as a lock screen.
pub const DISCLAIMER: &'static str = "An application asked. Not a sudo prompt and not a lock screen: nothing here runs as root, and denying returns you to the desktop.";

/// What the caller asked to show.
pub struct Prose {
    /// Short caller-supplied title.
    pub title: Option<String>,
    /// Caller-supplied message.
    pub body: Option<String>,
    /// Extra caller-supplied lines.
    pub details: Vec<String>,
    /// Offer a one-line box for a response to carry back to the caller.
    pub response: bool,
}

/// Caller text, escaped as one line.
pub open spec fn escaped_text(s: Seq<char>) -> EView {
    escape_view(encode_utf8(s), MAX_TOKEN_CHARS as int)
}

pub fn escape(s: &str) -> (e: Escaped)
    ensures
        e@ == escaped_text(s@),
{
    Escaped::of(&Untrusted::from_bytes(slice_to_vec(s.as_bytes())))
}

/// Newlines in caller prose become separate rendered lines rather than escapes, since here the
/// caller is writing prose rather than argv tokens.
pub open spec fn spec_lines(s: Seq<char>) -> Seq<EView> {
    split_on(encode_utf8(s), 0x0Au8).map_values(|p: Seq<u8>| escape_view(p, MAX_TOKEN_CHARS as int))
}

pub fn lines(s: &str) -> (r: Vec<Escaped>)
    ensures
        views(r@) == spec_lines(s@),
{
    let pieces = split(s.as_bytes(), 0x0A);
    let ghost want = spec_lines(s@);
    let mut out: Vec<Escaped> = Vec::new();
    let n = pieces.len();
    for i in 0..n
        invariant
            n == pieces@.len(),
            byte_views(pieces@) == split_on(encode_utf8(s@), 0x0Au8),
            want == spec_lines(s@),
            views(out@) == want.take(i as int),
    {
        let e = Escaped::of(&Untrusted::from_bytes(slice_to_vec(pieces[i].as_slice())));
        let ghost before = views(out@);
        out.push(e);
        assert(byte_views(pieces@)[i as int] == pieces@[i as int]@);
        assert(views(out@) =~= before.push(e@));
        assert(want.take(i + 1) =~= want.take(i as int).push(want[i as int]));
    }
    assert(want.take(n as int) =~= want);
    out
}

/// The lines of every detail, one after another.
pub open spec fn spec_detail_lines(details: Seq<Seq<char>>) -> Seq<EView>
    decreases details.len(),
{
    if details.len() == 0 {
        seq![]
    } else {
        spec_detail_lines(details.drop_last()) + spec_lines(details.last())
    }
}

pub open spec fn strings(v: Seq<String>) -> Seq<Seq<char>> {
    v.map_values(|s: String| s@)
}

/// The fields for the caller's prose, top to bottom. No labels: the prose is the content, and the
/// viewports around it are what say it came from the caller.
pub open spec fn spec_prose_fields(title: Option<Seq<char>>, body: Option<Seq<char>>, details: Seq<Seq<char>>) -> Seq<FieldView> {
    let plain = FieldView {
        label: ""@,
        lines: seq![],
        kind: FieldKind::Untrusted,
        notes: seq![],
        expand: false,
        prominent: false,
        flat: false,
    };
    let t = match title {
        Some(t) => seq![FieldView { lines: seq![escaped_text(t)], prominent: true, ..plain }],
        None => seq![],
    };
    let b = match body {
        Some(b) => seq![FieldView { lines: spec_lines(b), expand: true, ..plain }],
        None => seq![],
    };
    let d = if details.len() > 0 {
        seq![FieldView { lines: spec_detail_lines(details), ..plain }]
    } else {
        seq![]
    };
    t + b + d
}

pub open spec fn opt_chars(o: Option<String>) -> Option<Seq<char>> {
    match o {
        Some(s) => Some(s@),
        None => None,
    }
}

/// The dialog the presenter shows for `prose`.
pub fn dialog_spec(prose: &Prose) -> (d: DialogSpec)
    ensures
        d.style == Style::Generic,
        d.title == HEADING,
        d.heading == Some(HEADING),
        views(d.subtitle@) == seq![(DISCLAIMER@, false, false)],
        field_views(d.fields@) == spec_prose_fields(opt_chars(prose.title), opt_chars(prose.body), strings(prose.details@)),
        d.approve == APPROVE,
        d.deny == DENY,
        d.response == prose.response,
        d.chip is None,
{
    proof {
        reveal_strlit("");
    }
    let mut fields: Vec<Field> = Vec::new();
    let ghost empty: Seq<FieldView> = seq![];
    assert(field_views(fields@) =~= empty);
    match &prose.title {
        Some(t) => {
            let f = Field::untrusted("", vec![escape(t.as_str())]).prominent();
            assert(views(f.lines@) =~= seq![escaped_text(t@)]);
            assert(views(f.notes@) =~= Seq::<EView>::empty());
            fields.push(f);
        },
        None => {},
    }
    let ghost f1 = field_views(fields@);
    match &prose.body {
        Some(b) => {
            let f = Field::untrusted("", lines(b.as_str())).expanding();
            assert(views(f.notes@) =~= Seq::<EView>::empty());
            fields.push(f);
            assert(field_views(fields@) =~= f1.push(field_view(f)));
        },
        None => {},
    }
    let ghost f2 = field_views(fields@);
    if prose.details.len() > 0 {
        let mut all: Vec<Escaped> = Vec::new();
        let n = prose.details.len();
        for i in 0..n
            invariant
                n == prose.details@.len(),
                views(all@) == spec_detail_lines(strings(prose.details@).take(i as int)),
        {
            let ls = lines(prose.details[i].as_str());
            let ghost before = views(all@);
            let mut k: usize = 0;
            while k < ls.len()
                invariant
                    k <= ls@.len(),
                    views(all@) == before + views(ls@).take(k as int),
                decreases ls@.len() - k,
            {
                let ghost a0 = views(all@);
                let e = ls[k].clone();
                all.push(e);
                assert(views(all@) =~= a0.push(e@));
                assert(views(ls@).take(k + 1) =~= views(ls@).take(k as int).push(ls@[k as int]@));
                k += 1;
            }
            proof {
                let d = strings(prose.details@);
                assert(d.take(i + 1).drop_last() =~= d.take(i as int));
                assert(views(ls@).take(k as int) =~= views(ls@));
            }
        }
        assert(strings(prose.details@).take(n as int) =~= strings(prose.details@));
        let f = Field::untrusted("", all);
        assert(views(f.notes@) =~= Seq::<EView>::empty());
        fields.push(f);
        assert(field_views(fields@) =~= f2.push(field_view(f)));
    }
    proof {
        let want = spec_prose_fields(opt_chars(prose.title), opt_chars(prose.body), strings(prose.details@));
        assert(field_views(fields@) =~= want);
    }
    let subtitle = vec![Escaped::literal(DISCLAIMER)];
    assert(views(subtitle@) =~= seq![(DISCLAIMER@, false, false)]);
    DialogSpec {
        style: Style::Generic,
        title: HEADING,
        heading: Some(HEADING),
        subtitle,
        fields,
        approve: APPROVE,
        deny: DENY,
        response: prose.response,
        chip: None,
    }
}

/// The exit status: approval, a denial of any kind, or an error.
pub fn exit_code(v: &Verdict) -> (c: i32)
    ensures
        c == match v {
            Verdict::Approved => EXIT_APPROVED,
            Verdict::Error(_) => EXIT_ERROR,
            _ => EXIT_DENIED,
        },
{
    match v {
        Verdict::Approved => EXIT_APPROVED,
        Verdict::Denied | Verdict::DeniedSettleCap | Verdict::DeniedSignal(_) => EXIT_DENIED,
        Verdict::Error(_) => EXIT_ERROR,
    }
}

/// Title, body and details each give their own field, whatever the others are: one field per
/// part given. The body, whenever given, is the one expanding field: untrusted, with no label, and
/// holding the escaped lines of its text, split at newlines.
pub proof fn each_part_gives_its_own_field(title: Option<Seq<char>>, body: Option<Seq<char>>, details: Seq<Seq<char>>)
    ensures
        ({
            let fs = spec_prose_fields(title, body, details);
            &&& fs.len() == (if title is Some { 1int } else { 0 }) + (if body is Some { 1int } else { 0 })
                + (if details.len() > 0 { 1int } else { 0 })
            &&& forall|j: int, k: int| 0 <= j < k < fs.len() ==> !(fs[j].expand && fs[k].expand)
            &&& body is None ==> forall|k: int| 0 <= k < fs.len() ==> !fs[k].expand
            &&& body matches Some(b) ==> exists|k: int| {
                &&& 0 <= k < fs.len()
                &&& fs[k].expand
                &&& fs[k].kind == FieldKind::Untrusted
                &&& fs[k].label == ""@
                &&& fs[k].lines == split_on(encode_utf8(b), 0x0Au8).map_values(
                    |p: Seq<u8>| escape_view(p, MAX_TOKEN_CHARS as int),
                )
            }
        }),
{
    let fs = spec_prose_fields(title, body, details);
    let nt: int = if title is Some { 1 } else { 0 };
    assert forall|k: int| 0 <= k < fs.len() && fs[k].expand implies k == nt && body is Some by {}
    if let Some(b) = body {
        assert(fs[nt].expand);
    }
}

} // verus!
