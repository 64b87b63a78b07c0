//! Turning a request into the fixed presentation. sudo-prompt constructs this in code; there is no
//! reusable options parser it could be steered with.

use vstd::prelude::*;
use vstd::slice::{slice_subrange, slice_to_vec};
use vstd::string::*;

use crate::bytes::{bytes_eq, has_prefix, starts_with};
use crate::classify::vpairs;
use crate::cli::{seqs, Pair, Request, RequestView};
use crate::cmdenv::{CommandEnv, Provenance};
use crate::dialog::{field_view, field_views, ChipSpec, DialogSpec, EView, Field, FieldKind, FieldView, Style};
use crate::interp::{prose, spec_prose, strs, Interpreter};
use crate::untrusted::{concat_views, escape_view, quoted_view, views, Escaped, Untrusted, MAX_TOKEN_CHARS};

verus! {

pub const TITLE: &'static str = "Run a command as root?";
pub const APPROVE: &'static str = "Run as root";
pub const DENY: &'static str = "Cancel";

pub struct Rendered {
    pub spec: DialogSpec,
    /// The escaped command line for the log record.
    pub command_log: String,
}

/// `~` for the *requesting* user's home directory — never root's, which is sudo-prompt's own HOME.
pub open spec fn spec_abbreviate(cwd: Seq<u8>, home: Option<Seq<u8>>) -> Seq<u8> {
    match home {
        Some(h) => if h.len() == 0 || h == seq![0x2Fu8] {
            cwd
        } else if cwd == h {
            seq![0x7Eu8]
        } else if has_prefix(cwd, h) && has_prefix(cwd.skip(h.len() as int), seq![0x2Fu8]) {
            seq![0x7Eu8] + cwd.skip(h.len() as int)
        } else {
            cwd
        },
        None => cwd,
    }
}

pub fn abbreviate(cwd: &[u8], home: Option<&[u8]>) -> (r: Vec<u8>)
    ensures
        r@ == spec_abbreviate(
            cwd@,
            match home {
                Some(h) => Some(h@),
                None => None,
            },
        ),
{
    let h = match home {
        Some(h) => h,
        None => return slice_to_vec(cwd),
    };
    let is_slash = h.len() == 1 && h[0] == 0x2F;
    proof {
        if is_slash {
            assert(h@ =~= seq![0x2Fu8]);
        } else if h@ == seq![0x2Fu8] {
            assert(h@[0] == 0x2F);
        }
    }
    if h.len() == 0 || is_slash {
        return slice_to_vec(cwd);
    }
    if bytes_eq(cwd, h) {
        let mut out: Vec<u8> = Vec::new();
        out.push(0x7E);
        assert(out@ =~= seq![0x7Eu8]);
        return out;
    }
    if starts_with(cwd, h) {
        let rest = slice_subrange(cwd, h.len(), cwd.len());
        assert(rest@ =~= cwd@.skip(h@.len() as int));
        if rest.len() > 0 && rest[0] == 0x2F {
            let mut out: Vec<u8> = Vec::new();
            out.push(0x7E);
            crate::bytes::extend(&mut out, rest);
            assert(rest@.take(1) =~= seq![0x2Fu8]);
            assert(out@ =~= seq![0x7Eu8] + rest@);
            return out;
        }
        proof {
            if rest@.len() > 0 {
                assert(rest@.take(1)[0] == rest@[0]);
            }
        }
        assert(!has_prefix(rest@, seq![0x2Fu8]));
    }
    slice_to_vec(cwd)
}

/// The command and its arguments, one shell-quoted token each.
pub open spec fn spec_tokens(req: RequestView) -> Seq<EView> {
    seq![quoted_view(req.command, false)] + req.args.map_values(|a: Seq<u8>| quoted_view(a, false))
}

/// Token texts joined with single spaces.
pub open spec fn spaced(ts: Seq<EView>) -> Seq<char>
    decreases ts.len(),
{
    if ts.len() == 0 {
        seq![]
    } else if ts.len() == 1 {
        ts[0].0
    } else {
        spaced(ts.drop_last()).push(' ') + ts.last().0
    }
}

/// Escaped texts interleaved with a separator.
pub open spec fn interleave(ts: Seq<EView>, sep: EView) -> Seq<EView>
    decreases ts.len(),
{
    if ts.len() <= 1 {
        ts
    } else {
        interleave(ts.drop_last(), sep).push(sep).push(ts.last())
    }
}

/// `user | cwd` on one line.
pub open spec fn spec_origin(user: Seq<u8>, cwd: Option<Seq<u8>>, home: Option<Seq<u8>>) -> EView {
    concat_views(seq![
        escape_view(user, MAX_TOKEN_CHARS as int),
        (" | "@, false, false),
        match cwd {
            Some(c) => quoted_view(spec_abbreviate(c, home), true),
            None => ("(cwd unavailable)"@, false, false),
        },
    ])
}

/// The `env` field's note naming the dropped passthrough variables.
pub open spec fn spec_dropped_note(names: Seq<Seq<u8>>) -> EView {
    concat_views(seq![("dropped as invalid: "@, false, false)] + interleave(
        names.map_values(|n: Seq<u8>| escape_view(n, MAX_TOKEN_CHARS as int)),
        (", "@, false, false),
    ))
}

/// The `env` field: what the request asked for, and a note on anything dropped.
pub open spec fn spec_env_field(assigned: Seq<Pair>, dropped: Seq<Seq<u8>>) -> FieldView {
    FieldView {
        label: "env"@,
        lines: assigned.map_values(|p: Pair| {
            let n = escape_view(p.0, MAX_TOKEN_CHARS as int);
            let v = escape_view(p.1, MAX_TOKEN_CHARS as int);
            (n.0 + "="@ + v.0, n.1 || v.1, n.2 || v.2)
        }),
        kind: FieldKind::Untrusted,
        notes: if dropped.len() > 0 { seq![spec_dropped_note(dropped)] } else { seq![] },
        expand: false,
        prominent: false,
        flat: false,
    }
}

/// The fields of sudo-prompt's dialog, top to bottom.
pub open spec fn spec_fields(
    req: RequestView,
    interp: Option<Interpreter>,
    user: Seq<u8>,
    home: Option<Seq<u8>>,
    cwd: Option<Seq<u8>>,
    assigned: Seq<Pair>,
    dropped: Seq<Seq<u8>>,
) -> Seq<FieldView> {
    let command = FieldView {
        label: ""@,
        lines: spec_tokens(req),
        kind: FieldKind::Untrusted,
        notes: seq![],
        expand: true,
        prominent: true,
        flat: false,
    };
    let warning = match interp {
        Some(i) => seq![
            FieldView {
                label: ""@,
                lines: spec_prose(i).map_values(|s: Seq<char>| (s, false, false)),
                kind: FieldKind::Warning,
                notes: seq![],
                expand: false,
                prominent: false,
                flat: false,
            },
        ],
        None => seq![],
    };
    let origin = FieldView {
        label: ""@,
        lines: seq![spec_origin(user, cwd, home)],
        kind: FieldKind::Untrusted,
        notes: seq![],
        expand: false,
        prominent: false,
        flat: true,
    };
    let env = if assigned.len() > 0 || dropped.len() > 0 {
        seq![spec_env_field(assigned, dropped)]
    } else {
        seq![]
    };
    seq![command] + warning + seq![origin] + env
}

fn tokens(req: &Request) -> (ts: Vec<Escaped>)
    ensures
        views(ts@) == spec_tokens(req@),
{
    let mut ts: Vec<Escaped> = Vec::new();
    ts.push(Escaped::shell_token(&Untrusted::from_bytes(slice_to_vec(req.command.as_slice()))));
    let n = req.args.len();
    for i in 0..n
        invariant
            n == req.args@.len(),
            views(ts@) == seq![quoted_view(req@.command, false)] + seqs(req.args@).take(i as int).map_values(
                |a: Seq<u8>| quoted_view(a, false),
            ),
    {
        let ghost before = views(ts@);
        ts.push(Escaped::shell_token(&Untrusted::from_bytes(slice_to_vec(req.args[i].as_slice()))));
        assert(views(ts@) =~= before.push(quoted_view(req.args@[i as int]@, false)));
        assert(seqs(req.args@).take(i + 1) =~= seqs(req.args@).take(i as int).push(req.args@[i as int]@));
        assert(seqs(req.args@).take(i + 1).map_values(|a: Seq<u8>| quoted_view(a, false)) =~= seqs(
            req.args@,
        ).take(i as int).map_values(|a: Seq<u8>| quoted_view(a, false)).push(quoted_view(req.args@[i as int]@, false)));
    }
    assert(seqs(req.args@).take(n as int) =~= seqs(req.args@));
    ts
}

/// The command line as one escaped text, tokens joined by single spaces.
fn command_line(ts: &Vec<Escaped>) -> (r: (String, Escaped))
    requires
        ts@.len() > 0,
    ensures
        r.0@ == spaced(views(ts@)),
        r.1@ == concat_views(interleave(views(ts@), (" "@, false, false))),
{
    let mut s = String::new();
    let mut parts: Vec<Escaped> = Vec::new();
    let n = ts.len();
    for i in 0..n
        invariant
            n == ts@.len(),
            s@ == spaced(views(ts@).take(i as int)),
            views(parts@) == interleave(views(ts@).take(i as int), (" "@, false, false)),
    {
        let ghost t = views(ts@).take(i + 1);
        assert(t.drop_last() =~= views(ts@).take(i as int));
        assert(t.last() == ts@[i as int]@);
        let ghost p0 = views(parts@);
        if i > 0 {
            s.append(" ");
            parts.push(Escaped::literal(" "));
            proof {
                reveal_strlit(" ");
            }
        }
        s.append(ts[i].as_str());
        parts.push(ts[i].clone());
        proof {
            if i == 0 {
                assert(views(parts@) =~= seq![ts@[0]@]);
                assert(s@ =~= ts@[0]@.0);
            } else {
                assert(views(parts@) =~= p0.push((" "@, false, false)).push(ts@[i as int]@));
                assert(s@ =~= spaced(views(ts@).take(i as int)).push(' ') + ts@[i as int]@.0);
            }
        }
    }
    assert(views(ts@).take(n as int) =~= views(ts@));
    let line = Escaped::concat(parts);
    (s, line)
}

/// The origin line: the requesting user and their working directory.
fn origin(prov: &Provenance, cwd: Option<&[u8]>) -> (e: Escaped)
    ensures
        e@ == spec_origin(
            prov.user@,
            match cwd {
                Some(c) => Some(c@),
                None => None,
            },
            crate::envsetup::opt_view(prov.home),
        ),
{
    let ghost cv: Option<Seq<u8>> = match cwd {
        Some(c) => Some(c@),
        None => None,
    };
    let ghost hv = crate::envsetup::opt_view(prov.home);
    let where_ = match cwd {
        Some(c) => {
            let home = match &prov.home {
                Some(h) => Some(h.as_slice()),
                None => None,
            };
            Escaped::path(&Untrusted::from_bytes(abbreviate(c, home)))
        },
        None => Escaped::literal("(cwd unavailable)"),
    };
    let ghost wv = match cv {
        Some(c) => quoted_view(spec_abbreviate(c, hv), true),
        None => ("(cwd unavailable)"@, false, false),
    };
    assert(where_@ == wv);
    let user = Escaped::of(&Untrusted::from_bytes(slice_to_vec(prov.user.as_slice())));
    let sep = Escaped::literal(" | ");
    let ghost u = user@;
    let ghost m = sep@;
    let parts = vec![user, sep, where_];
    let e = Escaped::concat(parts);
    proof {
        assert(views(parts@) =~= seq![u, m, wv]);
        reveal_with_fuel(concat_views, 4);
    }
    e
}

/// The note listing dropped passthrough names.
fn dropped_note(dropped: &Vec<Vec<u8>>) -> (e: Escaped)
    ensures
        e@ == spec_dropped_note(seqs(dropped@)),
{
    let mut parts: Vec<Escaped> = Vec::new();
    parts.push(Escaped::literal("dropped as invalid: "));
    let n = dropped.len();
    let ghost esc = seqs(dropped@).map_values(|n: Seq<u8>| escape_view(n, MAX_TOKEN_CHARS as int));
    for i in 0..n
        invariant
            n == dropped@.len(),
            esc == seqs(dropped@).map_values(|n: Seq<u8>| escape_view(n, MAX_TOKEN_CHARS as int)),
            views(parts@) == seq![("dropped as invalid: "@, false, false)] + interleave(
                esc.take(i as int),
                (", "@, false, false),
            ),
    {
        let ghost p0 = views(parts@);
        let ghost t = esc.take(i + 1);
        assert(t.drop_last() =~= esc.take(i as int));
        assert(t.last() == escape_view(dropped@[i as int]@, MAX_TOKEN_CHARS as int));
        if i > 0 {
            parts.push(Escaped::literal(", "));
        }
        parts.push(Escaped::of(&Untrusted::from_bytes(slice_to_vec(dropped[i].as_slice()))));
        proof {
            if i == 0 {
                assert(interleave(t, (", "@, false, false)) =~= t);
                assert(views(parts@) =~= p0.push(t.last()));
            } else {
                assert(views(parts@) =~= p0.push((", "@, false, false)).push(t.last()));
            }
        }
    }
    assert(esc.take(n as int) =~= esc);
    Escaped::concat(parts)
}

/// The `env` field, or `None` when there is nothing to say.
fn env_field(env: &CommandEnv) -> (f: Option<Field>)
    ensures
        match f {
            Some(f) => (env.assigned@.len() > 0 || env.dropped@.len() > 0) && field_view(f)
                == spec_env_field(vpairs(env.assigned@), seqs(env.dropped@)),
            None => env.assigned@.len() == 0 && env.dropped@.len() == 0,
        },
{
    proof {
        reveal_strlit("env");
    }
    let mut lines: Vec<Escaped> = Vec::new();
    let n = env.assigned.len();
    let ghost want = spec_env_field(vpairs(env.assigned@), seqs(env.dropped@)).lines;
    for i in 0..n
        invariant
            n == env.assigned@.len(),
            want == spec_env_field(vpairs(env.assigned@), seqs(env.dropped@)).lines,
            want.len() == n,
            views(lines@) == want.take(i as int),
    {
        let ghost l0 = views(lines@);
        let name = Untrusted::from_bytes(slice_to_vec(env.assigned[i].0.as_slice()));
        let value = Untrusted::from_bytes(slice_to_vec(env.assigned[i].1.as_slice()));
        let line = Escaped::assignment(&name, &value);
        proof {
            let p = vpairs(env.assigned@)[i as int];
            assert(p == (name@, value@));
            assert(want[i as int] == line@);
        }
        lines.push(line);
        assert(views(lines@) =~= l0.push(line@));
        assert(want.take(i + 1) =~= want.take(i as int).push(want[i as int]));
    }
    assert(want.take(n as int) =~= want);
    let mut f = Field::untrusted("env", lines);
    assert(views(f.notes@) =~= Seq::<EView>::empty());
    if env.dropped.len() > 0 {
        let note = dropped_note(&env.dropped);
        f = f.with_note(note);
        assert(views(f.notes@) =~= seq![note@]);
    }
    assert(field_view(f) =~= spec_env_field(vpairs(env.assigned@), seqs(env.dropped@)));
    if f.lines.len() == 0 && f.notes.len() == 0 {
        None
    } else {
        Some(f)
    }
}

pub fn build(
    req: &Request,
    interp: Option<&Interpreter>,
    prov: &Provenance,
    cwd: Option<&[u8]>,
    env: &CommandEnv,
) -> (r: Rendered)
    ensures
        field_views(r.spec.fields@) == spec_fields(
            req@,
            match interp {
                Some(i) => Some(*i),
                None => None,
            },
            prov.user@,
            crate::envsetup::opt_view(prov.home),
            match cwd {
                Some(c) => Some(c@),
                None => None,
            },
            vpairs(env.assigned@),
            seqs(env.dropped@),
        ),
        r.command_log@ == spaced(spec_tokens(req@)),
        r.spec.style == Style::Gate,
        r.spec.title == TITLE,
        r.spec.heading is None,
        r.spec.subtitle@.len() == 0,
        r.spec.approve == APPROVE,
        r.spec.deny == DENY,
        r.spec.response,
        r.spec.chip matches Some(c) && c.command@ == concat_views(
            interleave(spec_tokens(req@), (" "@, false, false)),
        ) && c.user@ == escape_view(prov.user@, MAX_TOKEN_CHARS as int),
{
    let mut fields: Vec<Field> = Vec::new();

    // Display argv exactly as requested: one shell-quoted token per line, no resolution.
    let ts = tokens(req);
    let (command_log, chip_line) = command_line(&ts);
    // First and loudest, with no heading above it: the command *is* the question.
    let ghost tv = views(ts@);
    let command = Field::untrusted("", ts).expanding().prominent();
    assert(views(command.notes@) =~= Seq::<EView>::empty());
    fields.push(command);
    let ghost f0 = field_views(fields@);
    assert(f0 =~= seq![field_view(command)]);

    // Directly under the command, because it changes what the command means.
    match interp {
        Some(i) => {
            let lines = prose(i);
            let mut ls: Vec<Escaped> = Vec::new();
            let n = lines.len();
            for k in 0..n
                invariant
                    n == lines@.len(),
                    views(ls@) == strs(lines@).take(k as int).map_values(|s: Seq<char>| (s, false, false)),
            {
                let ghost l0 = views(ls@);
                let e = Escaped::literal(lines[k]);
                ls.push(e);
                assert(views(ls@) =~= l0.push((lines@[k as int]@, false, false)));
                assert(strs(lines@).take(k + 1) =~= strs(lines@).take(k as int).push(lines@[k as int]@));
                assert(views(ls@) =~= strs(lines@).take(k + 1).map_values(|s: Seq<char>| (s, false, false)));
            }
            assert(strs(lines@).take(n as int) =~= strs(lines@));
            let w = Field::warning(ls);
            assert(views(w.notes@) =~= Seq::<EView>::empty());
            let ghost fb = field_views(fields@);
            fields.push(w);
            assert(field_views(fields@) =~= fb.push(field_view(w)));
        },
        None => {},
    }
    let ghost f1 = field_views(fields@);

    // Who asked and where from, on one line.
    let o = origin(prov, cwd);
    let lines_o = vec![o];
    assert(views(lines_o@) =~= seq![o@]);
    let of = Field::untrusted("", lines_o).flat();
    assert(views(of.notes@) =~= Seq::<EView>::empty());
    fields.push(of);
    assert(field_views(fields@) =~= f1.push(field_view(of)));
    let ghost f2 = field_views(fields@);

    // Only what the request asked for; omitted entirely when there is nothing to say.
    match env_field(env) {
        Some(f) => {
            fields.push(f);
            assert(field_views(fields@) =~= f2.push(field_view(f)));
        },
        None => {},
    }
    proof {
        reveal_strlit("");
        let want = spec_fields(
            req@,
            match interp {
                Some(i) => Some(*i),
                None => None,
            },
            prov.user@,
            crate::envsetup::opt_view(prov.home),
            match cwd {
                Some(c) => Some(c@),
                None => None,
            },
            vpairs(env.assigned@),
            seqs(env.dropped@),
        );
        assert(field_views(fields@) =~= want);
    }
    let chip = ChipSpec {
        command: chip_line,
        user: Escaped::of(&Untrusted::from_bytes(slice_to_vec(prov.user.as_slice()))),
    };
    Rendered {
        spec: DialogSpec {
            style: Style::Gate,
            title: TITLE,
            heading: None,
            subtitle: Vec::new(),
            fields,
            approve: APPROVE,
            deny: DENY,
            response: true,
            chip: Some(chip),
        },
        command_log,
    }
}

} // verus!
