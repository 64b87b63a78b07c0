//! The shim's classification: a pure function over argv and the shim's own environment.
//!
//! The shim is not a security boundary — it runs as the caller, and anything it gets wrong the
//! caller could have done by invoking /usr/bin/sudo directly. What it decides is whether an
//! invocation goes straight to real sudo, or is rewritten into a request for sudo-prompt.

use vstd::prelude::*;
use vstd::slice::{slice_subrange, slice_to_vec};
use vstd::string::*;

use crate::bytes::{ascii, ascii_of, bytes_eq, extend, has_prefix, position, starts_with};
use crate::cli::{last_wins, seqs, spec_split, spec_valid_name, split_assignment, valid_name, without_name, Pair};

verus! {

/// The real sudo.
pub const REAL_SUDO: &'static str = "/usr/bin/sudo";

/// Where the shim execs to: the real sudo, in every case.
pub fn real_sudo() -> (s: String)
    ensures
        s@ == REAL_SUDO@,
{
    String::from_str(REAL_SUDO)
}

/// sudo-prompt.
pub const GATE: &'static str = "/usr/local/bin/sudo-prompt";

#[derive(Debug, PartialEq, Eq)]
pub enum Decision {
    /// `exec /usr/bin/sudo "$@"` with the raw argv. Informational flags work normally; anything
    /// carrying a command is denied because no sudoers rule permits it.
    PassThrough,
    /// `exec /usr/bin/sudo <these>`, which start with sudo-prompt path and `--`.
    Gate(Vec<Vec<u8>>),
}

/// The pairs of a list of byte-vector pairs.
pub open spec fn vpairs(v: Seq<(Vec<u8>, Vec<u8>)>) -> Seq<Pair> {
    v.map_values(|p: (Vec<u8>, Vec<u8>)| (p.0@, p.1@))
}

/// The value of the first entry named `name`.
pub open spec fn env_get(env: Seq<Pair>, name: Seq<u8>) -> Option<Seq<u8>>
    decreases env.len(),
{
    if env.len() == 0 {
        None
    } else if env[0].0 == name {
        Some(env[0].1)
    } else {
        env_get(env.drop_first(), name)
    }
}

fn lookup(env: &Vec<(Vec<u8>, Vec<u8>)>, name: &[u8]) -> (r: Option<Vec<u8>>)
    ensures
        match r {
            Some(v) => env_get(vpairs(env@), name@) == Some(v@),
            None => env_get(vpairs(env@), name@) is None,
        },
{
    let ghost all = vpairs(env@);
    assert(all.skip(0) =~= all);
    let n = env.len();
    for k in 0..n
        invariant
            n == env@.len(),
            all == vpairs(env@),
            env_get(all, name@) == env_get(all.skip(k as int), name@),
    {
        let ghost rest = all.skip(k as int);
        assert(rest[0] == all[k as int]);
        assert(rest.drop_first() =~= all.skip(k + 1));
        if bytes_eq(env[k].0.as_slice(), name) {
            return Some(slice_to_vec(env[k].1.as_slice()));
        }
    }
    assert(all.skip(n as int) =~= Seq::<Pair>::empty());
    None
}

/// `NAME=value`.
pub open spec fn assignment_token(p: Pair) -> Seq<u8> {
    p.0.push(0x3D) + p.1
}

/// The pieces of `s` between commas, empty pieces included.
pub open spec fn split_commas(s: Seq<u8>) -> Seq<Seq<u8>>
    decreases s.len(),
{
    match crate::bytes::first_index(s, 0x2C) {
        Some(i) => if 0 <= i < s.len() {
            seq![s.take(i)] + split_commas(s.skip(i + 1))
        } else {
            seq![s]
        },
        None => seq![s],
    }
}

/// The pair a `--preserve-env` name contributes: a valid name that is set.
pub open spec fn preserved(name: Seq<u8>, env: Seq<Pair>) -> Option<Pair> {
    if spec_valid_name(name) && env_get(env, name) is Some {
        Some((name, env_get(env, name)->0))
    } else {
        None
    }
}

/// The pairs a `--preserve-env` list contributes, in order. Unset and invalid names are skipped,
/// matching sudo.
pub open spec fn preserved_all(names: Seq<Seq<u8>>, env: Seq<Pair>) -> Seq<Pair>
    decreases names.len(),
{
    if names.len() == 0 {
        seq![]
    } else {
        preserved_all(names.drop_last(), env) + match preserved(names.last(), env) {
            Some(p) => seq![p],
            None => seq![],
        }
    }
}

/// Applies assignments in order, the last of a name winning.
pub open spec fn apply_all(list: Seq<Pair>, ps: Seq<Pair>) -> Seq<Pair>
    decreases ps.len(),
{
    if ps.len() == 0 {
        list
    } else {
        last_wins(apply_all(list, ps.drop_last()), ps.last())
    }
}

/// What the scan of the leading tokens has collected.
pub struct ShimScan {
    /// Assignments, deduplicated with the last occurrence winning.
    pub assigns: Seq<Pair>,
    /// Index of the first collected token, flag or assignment.
    pub first: Option<int>,
    /// `--preserve-env=LIST` tokens by index, with what each expanded to.
    pub exps: Seq<(int, Seq<Seq<u8>>)>,
    pub interpreter: bool,
    pub shell: bool,
}

pub enum ScanEnd {
    /// An unsupported flag: real sudo decides.
    PassThrough,
    /// The scan stopped, at the command token if there is one.
    Stopped(ShimScan, Option<int>),
}

pub open spec fn collected(s: ShimScan, i: int) -> ShimScan {
    ShimScan { first: if s.first is None { Some(i) } else { s.first }, ..s }
}

/// `--preserve-env=`.
pub open spec fn preserve_prefix() -> Seq<u8> {
    ascii_of("--preserve-env="@)
}

pub open spec fn tok_is(tok: Seq<u8>, s: Seq<char>) -> bool {
    tok == ascii_of(s)
}

/// Scans the leading tokens of the shim's argv from `i`.
pub open spec fn scan_shim(toks: Seq<Seq<u8>>, env: Seq<Pair>, i: int, s: ShimScan) -> ScanEnd
    decreases toks.len() - i,
{
    if i < 0 || i >= toks.len() {
        ScanEnd::Stopped(s, None)
    } else {
        let tok = toks[i];
        if tok_is(tok, "--"@) {
            ScanEnd::Stopped(s, if i + 1 < toks.len() { Some(i + 1) } else { None })
        } else if spec_split(tok) is Some {
            let c = collected(s, i);
            scan_shim(toks, env, i + 1, ShimScan { assigns: last_wins(c.assigns, spec_split(tok)->0), ..c })
        } else if has_prefix(tok, preserve_prefix()) {
            let c = collected(s, i);
            let ps = preserved_all(split_commas(tok.skip(15)), env);
            scan_shim(
                toks,
                env,
                i + 1,
                ShimScan {
                    assigns: apply_all(c.assigns, ps),
                    exps: c.exps.push((i, ps.map_values(|p: Pair| assignment_token(p)))),
                    ..c
                },
            )
        } else if tok_is(tok, "-i"@) || tok_is(tok, "-s"@) {
            scan_shim(toks, env, i + 1, ShimScan { interpreter: true, shell: true, ..collected(s, i) })
        } else if tok_is(tok, "-u"@) || tok_is(tok, "-g"@) || tok_is(tok, "--user"@) || tok_is(tok, "--group"@) {
            let c = ShimScan { interpreter: true, ..collected(s, i) };
            if i + 1 >= toks.len() {
                ScanEnd::Stopped(c, None)
            } else {
                scan_shim(toks, env, i + 2, c)
            }
        } else if has_prefix(tok, ascii_of("--user="@)) || has_prefix(tok, ascii_of("--group="@)) {
            scan_shim(toks, env, i + 1, ShimScan { interpreter: true, ..collected(s, i) })
        } else if has_prefix(tok, ascii_of("-"@)) {
            ScanEnd::PassThrough
        } else {
            ScanEnd::Stopped(s, Some(i))
        }
    }
}

pub open spec fn scan_start() -> ShimScan {
    ShimScan { assigns: seq![], first: None, exps: seq![], interpreter: false, shell: false }
}

/// What a `--preserve-env` token at index `n` was replaced by, if it was one.
pub open spec fn expansion_at(exps: Seq<(int, Seq<Seq<u8>>)>, n: int) -> Option<Seq<Seq<u8>>>
    decreases exps.len(),
{
    if exps.len() == 0 {
        None
    } else if exps[0].0 == n {
        Some(exps[0].1)
    } else {
        expansion_at(exps.drop_first(), n)
    }
}

/// The tokens `toks[start..end]`, each `--preserve-env` token replaced in place by what it
/// expanded to.
pub open spec fn forwarded(toks: Seq<Seq<u8>>, exps: Seq<(int, Seq<Seq<u8>>)>, start: int, end: int) -> Seq<Seq<u8>>
    decreases end - start,
{
    if end <= start {
        seq![]
    } else {
        forwarded(toks, exps, start, end - 1) + match expansion_at(exps, end - 1) {
            Some(t) => t,
            None => seq![toks[end - 1]],
        }
    }
}

/// sudo-prompt argv an invocation becomes, or `None` for a pass-through.
pub open spec fn spec_classify(euid: u32, argv: Seq<Seq<u8>>, env: Seq<Pair>) -> Option<Seq<Seq<u8>>> {
    if euid == 0 || argv.len() == 0 {
        None
    } else {
        match scan_shim(argv, env, 0, scan_start()) {
            ScanEnd::PassThrough => None,
            ScanEnd::Stopped(s, cmd) => if cmd is None && !s.shell {
                None
            } else if s.interpreter {
                Some(seq![ascii_of(GATE@), ascii_of("--"@), ascii_of(REAL_SUDO@)] + forwarded(
                    argv,
                    s.exps,
                    s.first->0,
                    argv.len() as int,
                ))
            } else {
                Some(seq![ascii_of(GATE@), ascii_of("--"@)] + s.assigns.map_values(
                    |p: Pair| assignment_token(p),
                ) + argv.skip(cmd->0))
            },
        }
    }
}

/// The argv of a decision, `None` for a pass-through.
pub open spec fn decision_view(d: Decision) -> Option<Seq<Seq<u8>>> {
    match d {
        Decision::PassThrough => None,
        Decision::Gate(v) => Some(seqs(v@)),
    }
}

/// Deduplicated by name, last occurrence winning.
fn set_assignment(list: &mut Vec<(Vec<u8>, Vec<u8>)>, name: &[u8], value: &[u8])
    ensures
        vpairs(final(list)@) == last_wins(vpairs(old(list)@), (name@, value@)),
{
    let mut kept: Vec<(Vec<u8>, Vec<u8>)> = Vec::new();
    let ghost orig = vpairs(list@);
    while list.len() > 0
        invariant
            without_name(orig, name@) == without_name(vpairs(list@), name@) + vpairs(kept@).reverse(),
        decreases list@.len(),
    {
        let ghost before = vpairs(list@);
        let a = list.pop().unwrap();
        proof {
            assert(vpairs(list@) =~= before.drop_last());
            assert(before.last() == (a.0@, a.1@));
        }
        if !bytes_eq(a.0.as_slice(), name) {
            let ghost k0 = vpairs(kept@);
            kept.push(a);
            assert(vpairs(kept@) =~= k0.push(before.last()));
            assert(vpairs(kept@).reverse() =~= seq![before.last()] + k0.reverse());
            assert(without_name(before, name@) =~= without_name(vpairs(list@), name@).push(before.last()));
        }
    }
    assert(without_name(Seq::<Pair>::empty(), name@) =~= Seq::<Pair>::empty());
    while kept.len() > 0
        invariant
            without_name(orig, name@) == vpairs(list@) + vpairs(kept@).reverse(),
        decreases kept@.len(),
    {
        let ghost k0 = vpairs(kept@);
        let ghost l0 = vpairs(list@);
        let a = kept.pop().unwrap();
        list.push(a);
        assert(vpairs(kept@) =~= k0.drop_last());
        assert(vpairs(list@) =~= l0.push(k0.last()));
        assert(k0.reverse() =~= seq![k0.last()] + vpairs(kept@).reverse());
    }
    assert(vpairs(list@) + vpairs(kept@).reverse() =~= vpairs(list@));
    let ghost l1 = vpairs(list@);
    list.push((slice_to_vec(name), slice_to_vec(value)));
    assert(vpairs(list@) =~= l1.push((name@, value@)));
}

/// `NAME=value` as bytes.
fn token_of(name: &[u8], value: &[u8]) -> (t: Vec<u8>)
    ensures
        t@ == assignment_token((name@, value@)),
{
    let mut t = slice_to_vec(name);
    t.push(0x3D);
    extend(&mut t, value);
    t
}

/// Applies what one `--preserve-env` name contributes.
fn expand_one(
    name: &[u8],
    env: &Vec<(Vec<u8>, Vec<u8>)>,
    assigns: &mut Vec<(Vec<u8>, Vec<u8>)>,
    tokens: &mut Vec<Vec<u8>>,
)
    ensures
        match preserved(name@, vpairs(env@)) {
            Some(p) => vpairs(final(assigns)@) == last_wins(vpairs(old(assigns)@), p) && seqs(
                final(tokens)@,
            ) == seqs(old(tokens)@).push(assignment_token(p)),
            None => final(assigns)@ == old(assigns)@ && final(tokens)@ == old(tokens)@,
        },
{
    if valid_name(name) {
        match lookup(env, name) {
            Some(value) => {
                let ghost tk0 = seqs(tokens@);
                tokens.push(token_of(name, value.as_slice()));
                set_assignment(assigns, name, value.as_slice());
                assert(seqs(tokens@) =~= tk0.push(assignment_token((name@, value@))));
            },
            None => {},
        }
    }
}

proof fn lemma_preserved_push(done: Seq<Seq<u8>>, piece: Seq<u8>, env: Seq<Pair>)
    ensures
        preserved_all(done.push(piece), env) == preserved_all(done, env) + match preserved(piece, env) {
            Some(p) => seq![p],
            None => Seq::<Pair>::empty(),
        },
{
    assert(done.push(piece).drop_last() =~= done);
}

proof fn lemma_tokens_push(ps: Seq<Pair>, p: Pair)
    ensures
        ps.push(p).map_values(|q: Pair| assignment_token(q)) == ps.map_values(|q: Pair| assignment_token(q)).push(assignment_token(p)),
{
    assert(ps.push(p).map_values(|q: Pair| assignment_token(q)) =~= ps.map_values(|q: Pair| assignment_token(q)).push(assignment_token(p)));
}

proof fn lemma_apply_push(a: Seq<Pair>, ps: Seq<Pair>, p: Pair)
    ensures
        apply_all(a, ps.push(p)) == last_wins(apply_all(a, ps), p),
{
    assert(ps.push(p).drop_last() =~= ps);
}

/// Expands one `--preserve-env` list: applies what it contributes to `assigns`, and returns the
/// tokens it stands for.
fn expand(list: &[u8], env: &Vec<(Vec<u8>, Vec<u8>)>, assigns: &mut Vec<(Vec<u8>, Vec<u8>)>) -> (tokens: Vec<Vec<u8>>)
    ensures
        ({
            let ps = preserved_all(split_commas(list@), vpairs(env@));
            &&& vpairs(final(assigns)@) == apply_all(vpairs(old(assigns)@), ps)
            &&& seqs(tokens@) == ps.map_values(|p: Pair| assignment_token(p))
        }),
{
    let ghost envv = vpairs(env@);
    let ghost a0 = vpairs(assigns@);
    let mut tokens: Vec<Vec<u8>> = Vec::new();
    let mut rem: &[u8] = list;
    let ghost mut done: Seq<Seq<u8>> = seq![];
    let mut last = false;
    while !last
        invariant
            envv == vpairs(env@),
            split_commas(list@) == if last { done } else { done + split_commas(rem@) },
            vpairs(assigns@) == apply_all(a0, preserved_all(done, envv)),
            seqs(tokens@) == preserved_all(done, envv).map_values(|p: Pair| assignment_token(p)),
        decreases rem@.len() + (if last { 0int } else { 1 }),
    {
        let (piece, next): (&[u8], Option<&[u8]>) = match position(rem, 0x2C) {
            Some(i) => {
                let n = rem.len();
                assert(i < n);
                let p = slice_subrange(rem, 0, i);
                let r = slice_subrange(rem, i + 1, n);
                assert(p@ =~= rem@.take(i as int));
                assert(r@ =~= rem@.skip(i + 1));
                (p, Some(r))
            },
            None => (rem, None),
        };
        proof {
            match next {
                Some(r) => {
                    assert(split_commas(rem@) == seq![piece@] + split_commas(r@));
                },
                None => {
                    assert(split_commas(rem@) == seq![piece@]);
                },
            }
        }
        let ghost old_done = done;
        let ghost before = preserved_all(old_done, envv);
        proof {
            done = done.push(piece@);
            lemma_preserved_push(old_done, piece@, envv);
            match preserved(piece@, envv) {
                Some(p) => {
                    assert(before + seq![p] =~= before.push(p));
                    lemma_tokens_push(before, p);
                    lemma_apply_push(a0, before, p);
                },
                None => {
                    assert(before + Seq::<Pair>::empty() =~= before);
                },
            }
        }
        expand_one(piece, env, assigns, &mut tokens);
        match next {
            Some(r) => {
                assert(old_done + split_commas(rem@) =~= done + split_commas(r@));
                rem = r;
            },
            None => {
                assert(old_done + split_commas(rem@) =~= done);
                last = true;
            },
        }
    }
    tokens
}

/// The expansions collected so far, as plain sequences.
pub open spec fn exps_view(v: Seq<(usize, Vec<Vec<u8>>)>) -> Seq<(int, Seq<Seq<u8>>)> {
    v.map_values(|e: (usize, Vec<Vec<u8>>)| (e.0 as int, seqs(e.1@)))
}

pub open spec fn scan_view(
    assigns: Seq<(Vec<u8>, Vec<u8>)>,
    first: Option<usize>,
    exps: Seq<(usize, Vec<Vec<u8>>)>,
    interpreter: bool,
    shell: bool,
) -> ShimScan {
    ShimScan {
        assigns: vpairs(assigns),
        first: match first {
            Some(f) => Some(f as int),
            None => None,
        },
        exps: exps_view(exps),
        interpreter,
        shell,
    }
}

/// The expansion recorded for token `n`, if any.
fn find_expansion(exps: &Vec<(usize, Vec<Vec<u8>>)>, n: usize) -> (r: Option<usize>)
    ensures
        match r {
            Some(k) => k < exps@.len() && expansion_at(exps_view(exps@), n as int) == Some(
                exps_view(exps@)[k as int].1,
            ),
            None => expansion_at(exps_view(exps@), n as int) is None,
        },
{
    let ghost all = exps_view(exps@);
    assert(all.skip(0) =~= all);
    let m = exps.len();
    for k in 0..m
        invariant
            m == exps@.len(),
            all == exps_view(exps@),
            expansion_at(all, n as int) == expansion_at(all.skip(k as int), n as int),
    {
        let ghost rest = all.skip(k as int);
        assert(rest[0] == all[k as int]);
        assert(rest.drop_first() =~= all.skip(k + 1));
        if exps[k].0 == n {
            return Some(k);
        }
    }
    assert(all.skip(m as int) =~= Seq::<(int, Seq<Seq<u8>>)>::empty());
    None
}

/// Appends copies of `items` to `out`.
fn push_all(out: &mut Vec<Vec<u8>>, items: &Vec<Vec<u8>>)
    ensures
        seqs(final(out)@) == seqs(old(out)@) + seqs(items@),
{
    let m = items.len();
    for t in 0..m
        invariant
            m == items@.len(),
            seqs(out@) == seqs(old(out)@) + seqs(items@).take(t as int),
    {
        let ghost o = seqs(out@);
        out.push(slice_to_vec(items[t].as_slice()));
        assert(seqs(out@) =~= o.push(items@[t as int]@));
        assert(seqs(items@).take(t + 1) =~= seqs(items@).take(t as int).push(items@[t as int]@));
    }
    assert(seqs(items@).take(m as int) =~= seqs(items@));
}

/// `argv[start..]`, each `--preserve-env` token replaced in place by its expansion.
fn forward(argv: &Vec<Vec<u8>>, exps: &Vec<(usize, Vec<Vec<u8>>)>, start: usize, out: &mut Vec<Vec<u8>>)
    requires
        start <= argv@.len(),
    ensures
        seqs(final(out)@) == seqs(old(out)@) + forwarded(seqs(argv@), exps_view(exps@), start as int, argv@.len() as int),
{
    let n = argv.len();
    let mut j = start;
    while j < n
        invariant
            start <= j <= n,
            n == argv@.len(),
            seqs(out@) == seqs(old(out)@) + forwarded(seqs(argv@), exps_view(exps@), start as int, j as int),
        decreases n - j,
    {
        let ghost o0 = seqs(out@);
        match find_expansion(exps, j) {
            Some(k) => {
                push_all(out, &exps[k].1);
                assert(exps_view(exps@)[k as int].1 == seqs(exps@[k as int].1@));
            },
            None => {
                out.push(slice_to_vec(argv[j].as_slice()));
                assert(seqs(out@) =~= o0.push(argv@[j as int]@));
            },
        }
        assert(seqs(old(out)@) + forwarded(seqs(argv@), exps_view(exps@), start as int, j + 1) =~= seqs(out@));
        j = j + 1;
    }
}

/// The assignments as `NAME=value` tokens, appended to `out`.
fn push_assignments(out: &mut Vec<Vec<u8>>, assignments: &Vec<(Vec<u8>, Vec<u8>)>)
    ensures
        seqs(final(out)@) == seqs(old(out)@) + vpairs(assignments@).map_values(|p: Pair| assignment_token(p)),
{
    let m = assignments.len();
    for k in 0..m
        invariant
            m == assignments@.len(),
            seqs(out@) == seqs(old(out)@) + vpairs(assignments@).take(k as int).map_values(
                |p: Pair| assignment_token(p),
            ),
    {
        let ghost o = seqs(out@);
        let t = token_of(assignments[k].0.as_slice(), assignments[k].1.as_slice());
        out.push(t);
        assert(seqs(out@) =~= o.push(t@));
        assert(vpairs(assignments@).take(k + 1) =~= vpairs(assignments@).take(k as int).push(vpairs(assignments@)[k as int]));
        assert(vpairs(assignments@).take(k + 1).map_values(|p: Pair| assignment_token(p))
            =~= vpairs(assignments@).take(k as int).map_values(|p: Pair| assignment_token(p)).push(t@));
    }
    assert(vpairs(assignments@).take(m as int) =~= vpairs(assignments@));
}

/// `argv[start..]`, appended to `out`.
fn push_tail(out: &mut Vec<Vec<u8>>, argv: &Vec<Vec<u8>>, start: usize)
    requires
        start <= argv@.len(),
    ensures
        seqs(final(out)@) == seqs(old(out)@) + seqs(argv@).skip(start as int),
{
    let n = argv.len();
    let mut j = start;
    while j < n
        invariant
            start <= j <= n,
            n == argv@.len(),
            seqs(out@) == seqs(old(out)@) + seqs(argv@).subrange(start as int, j as int),
        decreases n - j,
    {
        let ghost o = seqs(out@);
        out.push(slice_to_vec(argv[j].as_slice()));
        assert(seqs(out@) =~= o.push(argv@[j as int]@));
        assert(seqs(argv@).subrange(start as int, j + 1) =~= seqs(argv@).subrange(start as int, j as int).push(argv@[j as int]@));
        j = j + 1;
    }
    assert(seqs(argv@).subrange(start as int, n as int) =~= seqs(argv@).skip(start as int));
}

/// What the scan has collected so far.
struct Collected {
    assignments: Vec<(Vec<u8>, Vec<u8>)>,
    first: Option<usize>,
    expansions: Vec<(usize, Vec<Vec<u8>>)>,
    interpreter: bool,
    shell: bool,
}

impl View for Collected {
    type V = ShimScan;

    closed spec fn view(&self) -> ShimScan {
        ShimScan {
            assigns: vpairs(self.assignments@),
            first: match self.first {
                Some(f) => Some(f as int),
                None => None,
            },
            exps: exps_view(self.expansions@),
            interpreter: self.interpreter,
            shell: self.shell,
        }
    }
}

impl Collected {
    fn collect(&mut self, i: usize)
        ensures
            final(self)@ == collected(old(self)@, i as int),
    {
        if self.first.is_none() {
            self.first = Some(i);
        }
    }
}

/// The literal tokens the scan compares against.
struct Spellings {
    dd: Vec<u8>,
    preserve: Vec<u8>,
    opt_i: Vec<u8>,
    opt_s: Vec<u8>,
    opt_u: Vec<u8>,
    opt_g: Vec<u8>,
    opt_user: Vec<u8>,
    opt_group: Vec<u8>,
    user_eq: Vec<u8>,
    group_eq: Vec<u8>,
    dash: Vec<u8>,
}

impl Spellings {
    spec fn wf(&self) -> bool {
        &&& self.dd@ == ascii_of("--"@)
        &&& self.preserve@ == preserve_prefix()
        &&& self.preserve@.len() == 15
        &&& self.opt_i@ == ascii_of("-i"@)
        &&& self.opt_s@ == ascii_of("-s"@)
        &&& self.opt_u@ == ascii_of("-u"@)
        &&& self.opt_g@ == ascii_of("-g"@)
        &&& self.opt_user@ == ascii_of("--user"@)
        &&& self.opt_group@ == ascii_of("--group"@)
        &&& self.user_eq@ == ascii_of("--user="@)
        &&& self.group_eq@ == ascii_of("--group="@)
        &&& self.dash@ == ascii_of("-"@)
    }

    fn new() -> (s: Self)
        ensures
            s.wf(),
    {
        proof {
            reveal_strlit("--");
            reveal_strlit("--preserve-env=");
            reveal_strlit("-i");
            reveal_strlit("-s");
            reveal_strlit("-u");
            reveal_strlit("-g");
            reveal_strlit("--user");
            reveal_strlit("--group");
            reveal_strlit("--user=");
            reveal_strlit("--group=");
            reveal_strlit("-");
        }
        Spellings {
            dd: ascii("--"),
            preserve: ascii("--preserve-env="),
            opt_i: ascii("-i"),
            opt_s: ascii("-s"),
            opt_u: ascii("-u"),
            opt_g: ascii("-g"),
            opt_user: ascii("--user"),
            opt_group: ascii("--group"),
            user_eq: ascii("--user="),
            group_eq: ascii("--group="),
            dash: ascii("-"),
        }
    }
}

/// What one step of the scan did.
enum Step {
    /// Go on at this index.
    Next(usize),
    /// The scan stopped, at the command token if there is one.
    Stop(Option<usize>),
    PassThrough,
}

/// One step of the scan at token `i`.
#[verifier::rlimit(60)]
fn scan_step(
    argv: &Vec<Vec<u8>>,
    env: &Vec<(Vec<u8>, Vec<u8>)>,
    sp: &Spellings,
    c: &mut Collected,
    i: usize,
) -> (r: Step)
    requires
        sp.wf(),
        i < argv@.len(),
        old(c).interpreter ==> old(c).first is Some,
        old(c).shell ==> old(c).interpreter,
        old(c).first matches Some(f) ==> f < argv@.len(),
    ensures
        final(c).shell ==> final(c).interpreter,
        match r {
            Step::Next(j) => i < j <= argv@.len() && scan_shim(seqs(argv@), vpairs(env@), i as int, old(c)@)
                == scan_shim(seqs(argv@), vpairs(env@), j as int, final(c)@),
            Step::Stop(cmd) => scan_shim(seqs(argv@), vpairs(env@), i as int, old(c)@) == ScanEnd::Stopped(
                final(c)@,
                match cmd {
                    Some(k) => Some(k as int),
                    None => None,
                },
            ) && (cmd matches Some(k) ==> k < argv@.len()),
            Step::PassThrough => scan_shim(seqs(argv@), vpairs(env@), i as int, old(c)@) == ScanEnd::PassThrough,
        },
        final(c).interpreter ==> final(c).first is Some,
        final(c).first matches Some(f) ==> f < argv@.len(),
{
    let ghost toks = seqs(argv@);
    let ghost envv = vpairs(env@);
    let n = argv.len();
    let tok = argv[i].as_slice();
    assert(tok@ == toks[i as int]);
    if bytes_eq(tok, sp.dd.as_slice()) {
        return Step::Stop(if i + 1 < n { Some(i + 1) } else { None });
    }
    match split_assignment(tok) {
        Some((name, value)) => {
            let ghost s0 = c@;
            c.collect(i);
            set_assignment(&mut c.assignments, name, value);
            return Step::Next(i + 1);
        },
        None => {},
    }
    if starts_with(tok, sp.preserve.as_slice()) {
        c.collect(i);
        let list = slice_subrange(tok, 15, tok.len());
        assert(list@ =~= toks[i as int].skip(15));
        let ghost e0 = exps_view(c.expansions@);
        let expanded = expand(list, env, &mut c.assignments);
        c.expansions.push((i, expanded));
        assert(exps_view(c.expansions@) =~= e0.push(
            (i as int, preserved_all(split_commas(list@), envv).map_values(|p: Pair| assignment_token(p))),
        ));
        return Step::Next(i + 1);
    }
    if bytes_eq(tok, sp.opt_i.as_slice()) || bytes_eq(tok, sp.opt_s.as_slice()) {
        c.collect(i);
        c.interpreter = true;
        c.shell = true;
        return Step::Next(i + 1);
    }
    if bytes_eq(tok, sp.opt_u.as_slice()) || bytes_eq(tok, sp.opt_g.as_slice()) || bytes_eq(
        tok,
        sp.opt_user.as_slice(),
    ) || bytes_eq(tok, sp.opt_group.as_slice()) {
        c.collect(i);
        c.interpreter = true;
        if i + 1 >= n {
            // No argument: real sudo prints its own usage error.
            return Step::Stop(None);
        }
        // Consumes the following token as its argument.
        return Step::Next(i + 2);
    }
    if starts_with(tok, sp.user_eq.as_slice()) || starts_with(tok, sp.group_eq.as_slice()) {
        c.collect(i);
        c.interpreter = true;
        return Step::Next(i + 1);
    }
    if starts_with(tok, sp.dash.as_slice()) {
        // Any other token starting with `-`, including sudo's unambiguous long-option
        // abbreviations (`--us=ff`, `--ed`) and compact forms (`-uff`).
        return Step::PassThrough;
    }
    Step::Stop(Some(i))
}

/// Classify one invocation. `env` is the shim's own environment, looked up by name with the
/// first entry winning.
#[verifier::rlimit(100)]
#[verifier::spinoff_prover]
pub fn classify(euid: u32, argv: &Vec<Vec<u8>>, env: &Vec<(Vec<u8>, Vec<u8>)>) -> (d: Decision)
    ensures
        decision_view(d) == spec_classify(euid, seqs(argv@), vpairs(env@)),
{
    // Inside a root shell euid is 0, the shim passes straight through, and root's own sudoers rule
    // needs no approval. An empty argv is real sudo's usage error to print.
    if euid == 0 || argv.len() == 0 {
        return Decision::PassThrough;
    }
    let sp = Spellings::new();
    let ghost toks = seqs(argv@);
    let ghost envv = vpairs(env@);
    let mut c = Collected {
        assignments: Vec::new(),
        first: None,
        expansions: Vec::new(),
        interpreter: false,
        shell: false,
    };
    let n = argv.len();
    let mut i: usize = 0;
    assert(vpairs(c.assignments@) =~= Seq::<Pair>::empty());
    assert(exps_view(c.expansions@) =~= Seq::<(int, Seq<Seq<u8>>)>::empty());
    assert(c@ =~= scan_start());
    let mut command_at: Option<usize> = None;
    loop
        invariant_except_break
            scan_shim(toks, envv, 0, scan_start()) == scan_shim(toks, envv, i as int, c@),
        invariant
            sp.wf(),
            n == argv@.len(),
            toks == seqs(argv@),
            envv == vpairs(env@),
            i <= n,
            c.interpreter ==> c.first is Some,
            c.shell ==> c.interpreter,
            c.first matches Some(f) ==> f < n,
        ensures
            scan_shim(toks, envv, 0, scan_start()) == ScanEnd::Stopped(
                c@,
                match command_at {
                    Some(k) => Some(k as int),
                    None => None,
                },
            ),
            command_at matches Some(k) ==> k < n,
        decreases n - i,
    {
        if i >= n {
            command_at = None;
            break;
        }
        match scan_step(argv, env, &sp, &mut c, i) {
            Step::Next(j) => {
                i = j;
            },
            Step::Stop(cmd) => {
                command_at = cmd;
                break;
            },
            Step::PassThrough => {
                return Decision::PassThrough;
            },
        }
    }
    if command_at.is_none() && !c.shell {
        return Decision::PassThrough;
    }
    proof {
        reveal_strlit("/usr/local/bin/sudo-prompt");
        reveal_strlit("/usr/bin/sudo");
        reveal_strlit("--");
    }
    let mut out: Vec<Vec<u8>> = Vec::new();
    out.push(ascii(GATE));
    out.push(ascii("--"));
    if c.interpreter {
        // The request runs through real sudo as the interpreter: every assignment becomes a
        // command-line variable for that inner sudo, so sudo-prompt's own list stays empty.
        out.push(ascii(REAL_SUDO));
        let start = match c.first {
            Some(f) => f,
            None => 0,
        };
        assert(seqs(out@) =~= seq![ascii_of(GATE@), ascii_of("--"@), ascii_of(REAL_SUDO@)]);
        forward(argv, &c.expansions, start, &mut out);
        assert(c@.exps == exps_view(c.expansions@));
        assert(c@.first->0 == start as int);
        assert(seqs(out@) == seq![ascii_of(GATE@), ascii_of("--"@), ascii_of(REAL_SUDO@)] + forwarded(
            toks, c@.exps, c@.first->0, toks.len() as int));
        assert(c@.interpreter);
        assert(scan_shim(toks, envv, 0, scan_start()) matches ScanEnd::Stopped(s, _) && s == c@);
        assert(spec_classify(euid, toks, envv) == Some(seqs(out@)));
    } else {
        // Applied by sudo-prompt itself after approval — there is no env(1) in the chain.
        assert(seqs(out@) =~= seq![ascii_of(GATE@), ascii_of("--"@)]);
        push_assignments(&mut out, &c.assignments);
        let start = match command_at {
            Some(k) => k,
            None => 0,
        };
        push_tail(&mut out, argv, start);
        assert(c@.assigns == vpairs(c.assignments@));
        assert(seqs(out@) == seq![ascii_of(GATE@), ascii_of("--"@)] + c@.assigns.map_values(
            |p: Pair| assignment_token(p)) + toks.skip(start as int));
    }
    let ghost cmdv = match command_at {
        Some(k) => Some(k as int),
        None => None,
    };
    assert(scan_shim(toks, envv, 0, scan_start()) == ScanEnd::Stopped(c@, cmdv));
    assert(!(cmdv is None && !c@.shell));
    assert(c@.interpreter == c.interpreter);
    assert(spec_classify(euid, toks, envv) == Some(seqs(out@)));
    let d = Decision::Gate(out);
    assert(decision_view(d) == Some(seqs(out@)));
    d
}

pub(crate) proof fn lemma_scan_shape(toks: Seq<Seq<u8>>, env: Seq<Pair>, i: int, s: ShimScan)
    requires
        s.shell ==> s.interpreter,
    ensures
        match scan_shim(toks, env, i, s) {
            ScanEnd::Stopped(t, c) => (t.shell ==> t.interpreter) && (c matches Some(k) ==> 0 <= k < toks.len()),
            ScanEnd::PassThrough => true,
        },
    decreases toks.len() - i,
{
    if 0 <= i < toks.len() {
        let tok = toks[i];
        if tok_is(tok, "--"@) {
        } else if spec_split(tok) is Some {
            let c = collected(s, i);
            lemma_scan_shape(toks, env, i + 1, ShimScan { assigns: last_wins(c.assigns, spec_split(tok)->0), ..c });
        } else if has_prefix(tok, preserve_prefix()) {
            let c = collected(s, i);
            let ps = preserved_all(split_commas(tok.skip(15)), env);
            lemma_scan_shape(
                toks,
                env,
                i + 1,
                ShimScan {
                    assigns: apply_all(c.assigns, ps),
                    exps: c.exps.push((i, ps.map_values(|p: Pair| assignment_token(p)))),
                    ..c
                },
            );
        } else if tok_is(tok, "-i"@) || tok_is(tok, "-s"@) {
            lemma_scan_shape(toks, env, i + 1, ShimScan { interpreter: true, shell: true, ..collected(s, i) });
        } else if tok_is(tok, "-u"@) || tok_is(tok, "-g"@) || tok_is(tok, "--user"@) || tok_is(tok, "--group"@) {
            let c = ShimScan { interpreter: true, ..collected(s, i) };
            if i + 1 < toks.len() {
                lemma_scan_shape(toks, env, i + 2, c);
            }
        } else if has_prefix(tok, ascii_of("--user="@)) || has_prefix(tok, ascii_of("--group="@)) {
            lemma_scan_shape(toks, env, i + 1, ShimScan { interpreter: true, ..collected(s, i) });
        }
    }
}

/// Every argv the shim sends to sudo-prompt fits the sudoers rule
/// `sudo-prompt -- *`: sudo-prompt's path, the literal `--`, and at least one argument after it.
pub proof fn gate_requests_fit_the_sudoers_rule(euid: u32, argv: Seq<Seq<u8>>, env: Seq<Pair>)
    ensures
        spec_classify(euid, argv, env) matches Some(g) ==> g.len() >= 3 && g[0] == ascii_of(GATE@) && g[1]
            == ascii_of("--"@),
{
    if euid != 0 && argv.len() > 0 {
        lemma_scan_shape(argv, env, 0, scan_start());
        match scan_shim(argv, env, 0, scan_start()) {
            ScanEnd::Stopped(s, cmd) => {
                if !(cmd is None && !s.shell) && !s.interpreter {
                    let k = cmd->0;
                    let g = spec_classify(euid, argv, env)->0;
                    let head = seq![ascii_of(GATE@), ascii_of("--"@)] + s.assigns.map_values(
                        |p: Pair| assignment_token(p),
                    );
                    assert(g == head + argv.skip(k));
                    assert(g[0] == head[0] && g[1] == head[1]);
                    assert(argv.skip(k).len() >= 1);
                }
            },
            ScanEnd::PassThrough => {},
        }
    }
}

/// sudo-prompt accepts the argv `g` (its own path first) and reads no assignments from it;
/// the command it sees is the real sudo.
pub open spec fn accepted_unassigned(g: Seq<Seq<u8>>) -> bool {
    let r = crate::cli::parsed(g.drop_first());
    &&& crate::cli::parse_error(g.drop_first()) is None
    &&& r.assignments.len() == 0
    &&& r.command == ascii_of(REAL_SUDO@)
}

/// A request the shim routes through the real sudo (an interpreter flag was given) reaches
/// sudo-prompt with no assignments of its own: every assignment went to the inner sudo's command
/// line instead, the only place it survives that sudo's env_reset. The command sudo-prompt sees is
/// the real sudo.
pub proof fn routed_requests_carry_no_assignments(euid: u32, argv: Seq<Seq<u8>>, env: Seq<Pair>)
    ensures
        spec_classify(euid, argv, env) matches Some(g) ==> (g[2] == ascii_of(REAL_SUDO@) ==> accepted_unassigned(g)),
{
    gate_requests_fit_the_sudoers_rule(euid, argv, env);
    if let Some(g) = spec_classify(euid, argv, env) {
        if g[2] == ascii_of(REAL_SUDO@) {
            reveal_strlit("/usr/bin/sudo");
            reveal_strlit("--");
            let a = g.drop_first();
            let rest = a.drop_first();
            let sudo = ascii_of(REAL_SUDO@);
            assert(rest[0] == sudo);
            assert forall|i: int| 0 <= i < sudo.len() implies sudo[i] != 0x3Du8 by {}
            assert(crate::bytes::first_index(sudo, 0x3D) is None);
            assert(crate::cli::spec_split(rest[0]) is None);
            assert(crate::cli::leading_assignments(rest) == 0);
            assert(rest.take(0) =~= Seq::<Seq<u8>>::empty());
            assert(crate::cli::split_all(rest.take(0)) =~= Seq::<Pair>::empty());
            reveal_strlit("sudoedit");
            let base = crate::cli::spec_basename(sudo);
            assert(a[0] == ascii_of("--"@));
            assert(a[0] =~= crate::cli::dash_dash());
            assert(sudo.len() > 0);
            assert(base != crate::cli::sudoedit()) by {
                assert(crate::cli::sudoedit().len() == 8);
                assert(sudo.len() == 13 && sudo[8] == 0x2Fu8);
                assert(forall|j: int| 8 < j < 13 ==> sudo[j] != 0x2Fu8);
                let i = choose|i: int|
                    0 <= i < sudo.len() && sudo[i] == 0x2F && forall|j: int| i < j < sudo.len() ==> sudo[j] != 0x2F;
                assert(i == 8);
                assert(base.len() == 4);
            }
        }
    }
}

} // verus!
