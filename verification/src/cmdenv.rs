//! The approved command's environment is constructed, not inherited.
//!
//! sudo cannot hand sudo-prompt a clean environment, so sudo-prompt ignores its inherited environment as
//! a source and builds the command's environment from exactly three things: a root-controlled base,
//! a single validated passthrough (TERM), and the request's assignments. Provenance is set last.

use vstd::prelude::*;
use vstd::slice::slice_to_vec;
use vstd::string::*;

use crate::bytes::{ascii, ascii_of, bytes_eq};
use crate::classify::vpairs;
use crate::cli::{pairs, seqs, space_joined, Pair, Request};
use crate::envsetup::Captured;
use crate::text::{decimal, decimal_bytes};

verus! {

/// The command's PATH, always, unless the request assigns one.
pub const COMMAND_PATH: &'static str = "/usr/local/sbin:/usr/local/bin:/usr/sbin:/usr/bin:/sbin:/bin";

/// The command's locale, always, unless the request assigns one.
pub const COMMAND_LANG: &'static str = "C.UTF-8";

/// Longest TERM accepted. Real terminal names run to about thirty bytes.
pub const MAX_TERM_LEN: usize = 64;

#[derive(Debug, Clone, PartialEq, Eq)]
pub struct Provenance {
    pub uid: u32,
    pub gid: u32,
    pub user: Vec<u8>,
    /// The requester's home directory from passwd, for abbreviating their cwd. Never used for the
    /// command's HOME, which is root's.
    pub home: Option<Vec<u8>>,
}

#[derive(Debug, Clone, PartialEq, Eq)]
pub struct CommandEnv {
    /// The final environment, in application order.
    pub vars: Vec<(Vec<u8>, Vec<u8>)>,
    /// What the request asked for, in request order. This is what the prompt's env field lists.
    pub assigned: Vec<(Vec<u8>, Vec<u8>)>,
    /// Inherited variables that survived validation. Ambient rather than requested, so
    /// deliberately not displayed.
    pub inherited: Vec<(Vec<u8>, Vec<u8>)>,
    /// Passthrough variables dropped for failing validation. Noted in the prompt.
    pub dropped: Vec<Vec<u8>>,
}

/// The value of the last variable named `name`.
pub open spec fn last_value(vars: Seq<Pair>, name: Seq<u8>) -> Option<Seq<u8>>
    decreases vars.len(),
{
    if vars.len() == 0 {
        None
    } else if vars.last().0 == name {
        Some(vars.last().1)
    } else {
        last_value(vars.drop_last(), name)
    }
}

/// `NAME=value` entries of a variable list, leaving out any that hold a NUL byte (which no
/// C environment entry can carry).
pub open spec fn envp_entries(vars: Seq<Pair>) -> Seq<Seq<u8>>
    decreases vars.len(),
{
    if vars.len() == 0 {
        seq![]
    } else {
        let e = vars.last().0.push(0x3D) + vars.last().1;
        envp_entries(vars.drop_last()) + if e.contains(0u8) {
            seq![]
        } else {
            seq![e]
        }
    }
}

impl CommandEnv {
    pub fn get(&self, name: &[u8]) -> (r: Option<&[u8]>)
        ensures
            match r {
                Some(v) => last_value(vpairs(self.vars@), name@) == Some(v@),
                None => last_value(vpairs(self.vars@), name@) is None,
            },
    {
        let ghost all = vpairs(self.vars@);
        let mut i = self.vars.len();
        assert(all.take(i as int) =~= all);
        while i > 0
            invariant
                i <= self.vars@.len(),
                all == vpairs(self.vars@),
                last_value(all, name@) == last_value(all.take(i as int), name@),
            decreases i,
        {
            let ghost t = all.take(i as int);
            assert(t.drop_last() =~= all.take(i - 1));
            assert(t.last() == all[i - 1]);
            i = i - 1;
            if bytes_eq(self.vars[i].0.as_slice(), name) {
                return Some(self.vars[i].1.as_slice());
            }
        }
        None
    }

    /// The entries of the environment as the command receives it, `NAME=value`.
    pub fn to_envp(&self) -> (r: Vec<Vec<u8>>)
        ensures
            seqs(r@) == envp_entries(vpairs(self.vars@)),
    {
        let mut out: Vec<Vec<u8>> = Vec::new();
        let n = self.vars.len();
        for i in 0..n
            invariant
                n == self.vars@.len(),
                seqs(out@) == envp_entries(vpairs(self.vars@).take(i as int)),
        {
            let mut buf = slice_to_vec(self.vars[i].0.as_slice());
            buf.push(0x3D);
            crate::bytes::extend(&mut buf, self.vars[i].1.as_slice());
            assert(vpairs(self.vars@).take(i + 1).drop_last() =~= vpairs(self.vars@).take(i as int));
            let ghost o = seqs(out@);
            if crate::bytes::position(buf.as_slice(), 0).is_none() {
                assert(!buf@.contains(0u8));
                out.push(buf);
                assert(seqs(out@) =~= o + seq![buf@]);
            } else {
                assert(buf@.contains(0u8));
                assert(o + Seq::<Seq<u8>>::empty() =~= o);
            }
        }
        assert(vpairs(self.vars@).take(n as int) =~= vpairs(self.vars@));
        out
    }
}

/// A terminfo entry name: leading letter, then letters, digits and `. _ + -`, at most
/// [`MAX_TERM_LEN`] bytes.
pub open spec fn spec_term_ok(v: Seq<u8>) -> bool {
    &&& 0 < v.len() <= MAX_TERM_LEN
    &&& crate::cli::is_alpha(v[0])
    &&& forall|i: int|
        0 <= i < v.len() ==> crate::cli::is_alpha(v[i]) || crate::cli::is_digit(v[i]) || v[i] == 0x2E
            || v[i] == 0x5F || v[i] == 0x2B || v[i] == 0x2D
}

/// The one passthrough candidate: TERM, with a terminal name's shape. Nothing else passes.
pub open spec fn spec_passthrough_ok(name: Seq<u8>, value: Seq<u8>) -> bool {
    name == ascii_of("TERM"@) && spec_term_ok(value)
}

/// Validation for one passthrough variable. A failing value is dropped, never sanitized.
pub fn passthrough_ok(name: &[u8], value: &[u8]) -> (r: bool)
    ensures
        r == spec_passthrough_ok(name@, value@),
{
    proof {
        reveal_strlit("TERM");
    }
    if bytes_eq(name, ascii("TERM").as_slice()) {
        term_ok(value)
    } else {
        false
    }
}

/// No `/` and no leading `.`, because TERM is used downstream as a path component; empty is
/// rejected too.
pub fn term_ok(value: &[u8]) -> (r: bool)
    ensures
        r == spec_term_ok(value@),
{
    if value.len() == 0 || value.len() > MAX_TERM_LEN {
        return false;
    }
    let b0 = value[0];
    if !((0x41 <= b0 && b0 <= 0x5A) || (0x61 <= b0 && b0 <= 0x7A)) {
        return false;
    }
    let n = value.len();
    for i in 0..n
        invariant
            n == value@.len(),
            forall|j: int|
                0 <= j < i ==> crate::cli::is_alpha(value@[j]) || crate::cli::is_digit(value@[j])
                    || value@[j] == 0x2E || value@[j] == 0x5F || value@[j] == 0x2B || value@[j] == 0x2D,
    {
        let b = value[i];
        if !((0x41 <= b && b <= 0x5A) || (0x61 <= b && b <= 0x7A) || (0x30 <= b && b <= 0x39) || b
            == 0x2E || b == 0x5F || b == 0x2B || b == 0x2D) {
            return false;
        }
    }
    true
}

/// Index of the first variable named `name`.
pub open spec fn first_named(vars: Seq<Pair>, name: Seq<u8>) -> Option<int> {
    if exists|i: int| 0 <= i < vars.len() && vars[i].0 == name {
        Some(choose|i: int| 0 <= i < vars.len() && vars[i].0 == name && forall|j: int| 0 <= j < i ==> vars[j].0 != name)
    } else {
        None
    }
}

/// Sets `name`: the first slot with that name takes the value, or a new one is appended.
pub open spec fn set_var(vars: Seq<Pair>, name: Seq<u8>, value: Seq<u8>) -> Seq<Pair> {
    match first_named(vars, name) {
        Some(i) => vars.update(i, (name, value)),
        None => vars.push((name, value)),
    }
}

/// Sets each pair in order.
pub open spec fn set_all(vars: Seq<Pair>, ps: Seq<Pair>) -> Seq<Pair>
    decreases ps.len(),
{
    if ps.len() == 0 {
        vars
    } else {
        let r = set_all(vars, ps.drop_last());
        set_var(r, ps.last().0, ps.last().1)
    }
}

/// The passthrough candidates that pass validation, in order.
pub open spec fn accepted(ps: Seq<Pair>) -> Seq<Pair>
    decreases ps.len(),
{
    if ps.len() == 0 {
        seq![]
    } else {
        accepted(ps.drop_last()) + if spec_passthrough_ok(ps.last().0, ps.last().1) {
            seq![ps.last()]
        } else {
            seq![]
        }
    }
}

/// The names of the passthrough candidates that fail validation, in order.
pub open spec fn rejected(ps: Seq<Pair>) -> Seq<Seq<u8>>
    decreases ps.len(),
{
    if ps.len() == 0 {
        seq![]
    } else {
        rejected(ps.drop_last()) + if spec_passthrough_ok(ps.last().0, ps.last().1) {
            seq![]
        } else {
            seq![ps.last().0]
        }
    }
}

/// The root-controlled base.
pub open spec fn base_vars(root_shell: Seq<u8>) -> Seq<Pair> {
    seq![
        (ascii_of("PATH"@), ascii_of(COMMAND_PATH@)),
        (ascii_of("HOME"@), ascii_of("/root"@)),
        (ascii_of("USER"@), ascii_of("root"@)),
        (ascii_of("LOGNAME"@), ascii_of("root"@)),
        (ascii_of("SHELL"@), root_shell),
        (ascii_of("LANG"@), ascii_of(COMMAND_LANG@)),
    ]
}

/// The provenance sudo-prompt sets after everything else.
pub open spec fn provenance_vars(uid: u32, gid: u32, user: Seq<u8>, command: Seq<u8>) -> Seq<Pair> {
    seq![
        (ascii_of("SUDO_UID"@), ascii_of(decimal(uid as nat))),
        (ascii_of("SUDO_GID"@), ascii_of(decimal(gid as nat))),
        (ascii_of("SUDO_USER"@), user),
        (ascii_of("SUDO_COMMAND"@), command),
    ]
}

/// The command's final environment.
pub open spec fn spec_vars(passthrough: Seq<Pair>, req: crate::cli::RequestView, uid: u32, gid: u32, user: Seq<u8>, root_shell: Seq<u8>) -> Seq<Pair> {
    set_all(
        set_all(set_all(base_vars(root_shell), accepted(passthrough)), req.assignments),
        provenance_vars(uid, gid, user, space_joined(req.command, req.args)),
    )
}

fn set(vars: &mut Vec<(Vec<u8>, Vec<u8>)>, name: &[u8], value: &[u8])
    ensures
        vpairs(final(vars)@) == set_var(vpairs(old(vars)@), name@, value@),
{
    let ghost all = vpairs(vars@);
    let n = vars.len();
    for i in 0..n
        invariant
            n == vars@.len(),
            all == vpairs(vars@),
            all == vpairs(old(vars)@),
            forall|j: int| 0 <= j < i ==> all[j].0 != name@,
    {
        if bytes_eq(vars[i].0.as_slice(), name) {
            proof {
                assert(all[i as int].0 == name@);
                assert(0 <= i < all.len() && all[i as int].0 == name@ && forall|j: int| 0 <= j < i ==> all[j].0 != name@);
                let w = choose|k: int| 0 <= k < all.len() && all[k].0 == name@ && forall|j: int| 0 <= j < k ==> all[j].0 != name@;
                if w < i {
                } else if w > i {
                    assert(all[i as int].0 != name@);
                }
            }
            vars.set(i, (slice_to_vec(name), slice_to_vec(value)));
            assert(vpairs(vars@) =~= all.update(i as int, (name@, value@)));
            assert(first_named(all, name@) == Some(i as int));
            return;
        }
    }
    vars.push((slice_to_vec(name), slice_to_vec(value)));
    assert(vpairs(vars@) =~= all.push((name@, value@)));
}

proof fn lemma_set_all_push(vars: Seq<Pair>, ps: Seq<Pair>, p: Pair)
    ensures
        set_all(vars, ps.push(p)) == set_var(set_all(vars, ps), p.0, p.1),
{
    assert(ps.push(p).drop_last() =~= ps);
}

pub fn build(cap: &Captured, req: &Request, prov: &Provenance, root_shell: &[u8]) -> (e: CommandEnv)
    ensures
        vpairs(e.vars@) == spec_vars(cap@.passthrough, req@, prov.uid, prov.gid, prov.user@, root_shell@),
        vpairs(e.assigned@) == req@.assignments,
        vpairs(e.inherited@) == accepted(cap@.passthrough),
        seqs(e.dropped@) == rejected(cap@.passthrough),
{
    proof {
        reveal_strlit("PATH");
        reveal_strlit("HOME");
        reveal_strlit("/root");
        reveal_strlit("USER");
        reveal_strlit("root");
        reveal_strlit("LOGNAME");
        reveal_strlit("SHELL");
        reveal_strlit("LANG");
        reveal_strlit("C.UTF-8");
        reveal_strlit("/usr/local/sbin:/usr/local/bin:/usr/sbin:/usr/bin:/sbin:/bin");
        reveal_strlit("SUDO_UID");
        reveal_strlit("SUDO_GID");
        reveal_strlit("SUDO_USER");
        reveal_strlit("SUDO_COMMAND");
    }
    // 1. Root-controlled base. None of it is caller data.
    let mut vars: Vec<(Vec<u8>, Vec<u8>)> = Vec::new();
    vars.push((ascii("PATH"), ascii(COMMAND_PATH)));
    vars.push((ascii("HOME"), ascii("/root")));
    vars.push((ascii("USER"), ascii("root")));
    vars.push((ascii("LOGNAME"), ascii("root")));
    vars.push((ascii("SHELL"), slice_to_vec(root_shell)));
    vars.push((ascii("LANG"), ascii(COMMAND_LANG)));
    assert(vpairs(vars@) =~= base_vars(root_shell@));

    // 2. The passthrough list: the only variables copied out of the inherited environment.
    let mut inherited: Vec<(Vec<u8>, Vec<u8>)> = Vec::new();
    let mut dropped: Vec<Vec<u8>> = Vec::new();
    let ghost pt = cap@.passthrough;
    let n = cap.passthrough.len();
    assert(vpairs(inherited@) =~= accepted(pt.take(0)));
    assert(seqs(dropped@) =~= rejected(pt.take(0)));
    for i in 0..n
        invariant
            n == cap.passthrough@.len(),
            pt == vpairs(cap.passthrough@),
            vpairs(vars@) == set_all(base_vars(root_shell@), accepted(pt.take(i as int))),
            vpairs(inherited@) == accepted(pt.take(i as int)),
            seqs(dropped@) == rejected(pt.take(i as int)),
    {
        let name = cap.passthrough[i].0.as_slice();
        let value = cap.passthrough[i].1.as_slice();
        assert(pt.take(i + 1).drop_last() =~= pt.take(i as int));
        assert(pt.take(i + 1).last() == (name@, value@));
        let ghost acc = accepted(pt.take(i as int));
        if passthrough_ok(name, value) {
            set(&mut vars, name, value);
            let ghost i0 = vpairs(inherited@);
            inherited.push((slice_to_vec(name), slice_to_vec(value)));
            proof {
                assert(vpairs(inherited@) =~= i0.push((name@, value@)));
                assert(accepted(pt.take(i + 1)) =~= acc.push((name@, value@)));
                lemma_set_all_push(base_vars(root_shell@), acc, (name@, value@));
                assert(rejected(pt.take(i + 1)) =~= rejected(pt.take(i as int)));
            }
        } else {
            let ghost d0 = seqs(dropped@);
            dropped.push(slice_to_vec(name));
            proof {
                assert(seqs(dropped@) =~= d0.push(name@));
                assert(accepted(pt.take(i + 1)) =~= acc);
                assert(rejected(pt.take(i + 1)) =~= rejected(pt.take(i as int)).push(name@));
            }
        }
    }
    assert(pt.take(n as int) =~= pt);

    // 3. The request's assignments, applied last so they override both. Deliberately unfiltered:
    // the prompt's env field, which lists exactly these, is the mitigation.
    let ghost mid = vpairs(vars@);
    let mut assigned: Vec<(Vec<u8>, Vec<u8>)> = Vec::new();
    let m = req.assignments.len();
    for k in 0..m
        invariant
            m == req.assignments@.len(),
            vpairs(vars@) == set_all(mid, pairs(req.assignments@).take(k as int)),
            vpairs(assigned@) == pairs(req.assignments@).take(k as int),
    {
        let a = &req.assignments[k];
        set(&mut vars, a.name.as_slice(), a.value.as_slice());
        let ghost a0 = vpairs(assigned@);
        assigned.push((slice_to_vec(a.name.as_slice()), slice_to_vec(a.value.as_slice())));
        proof {
            let ps = pairs(req.assignments@);
            assert(ps.take(k + 1) =~= ps.take(k as int).push((a.name@, a.value@)));
            lemma_set_all_push(mid, ps.take(k as int), (a.name@, a.value@));
            assert(vpairs(assigned@) =~= a0.push((a.name@, a.value@)));
        }
    }
    assert(pairs(req.assignments@).take(m as int) =~= pairs(req.assignments@));

    // sudo-prompt sets provenance itself, after the assignments, so it cannot be rewritten by the
    // request. Requests naming SUDO_* are rejected outright at parse time.
    let ghost mid2 = vpairs(vars@);
    let uid = decimal_bytes(prov.uid as u64);
    let gid = decimal_bytes(prov.gid as u64);
    let command = req.sudo_command();
    set(&mut vars, ascii("SUDO_UID").as_slice(), uid.as_slice());
    set(&mut vars, ascii("SUDO_GID").as_slice(), gid.as_slice());
    set(&mut vars, ascii("SUDO_USER").as_slice(), prov.user.as_slice());
    set(&mut vars, ascii("SUDO_COMMAND").as_slice(), command.as_slice());
    proof {
        let pv = provenance_vars(prov.uid, prov.gid, prov.user@, space_joined(req@.command, req@.args));
        assert(pv.take(0) =~= Seq::<Pair>::empty());
        assert(pv.take(1) =~= pv.take(0).push(pv[0]));
        assert(pv.take(2) =~= pv.take(1).push(pv[1]));
        assert(pv.take(3) =~= pv.take(2).push(pv[2]));
        assert(pv =~= pv.take(3).push(pv[3]));
        lemma_set_all_push(mid2, pv.take(0), pv[0]);
        lemma_set_all_push(mid2, pv.take(1), pv[1]);
        lemma_set_all_push(mid2, pv.take(2), pv[2]);
        lemma_set_all_push(mid2, pv.take(3), pv[3]);
    }
    CommandEnv { vars, assigned, inherited, dropped }
}

/// No two variables share a name.
pub open spec fn names_unique(vars: Seq<Pair>) -> bool {
    forall|i: int, j: int| 0 <= i < j < vars.len() ==> vars[i].0 != vars[j].0
}

proof fn lemma_first_exists(vars: Seq<Pair>, name: Seq<u8>, i: int)
    requires
        0 <= i < vars.len(),
        vars[i].0 == name,
    ensures
        exists|k: int| 0 <= k < vars.len() && vars[k].0 == name && forall|j: int| 0 <= j < k ==> vars[j].0 != name,
    decreases i,
{
    if exists|j: int| 0 <= j < i && vars[j].0 == name {
        let j = choose|j: int| 0 <= j < i && vars[j].0 == name;
        lemma_first_exists(vars, name, j);
    } else {
        assert(0 <= i < vars.len() && vars[i].0 == name && forall|j: int| 0 <= j < i ==> vars[j].0 != name);
    }
}

proof fn lemma_first_named(vars: Seq<Pair>, name: Seq<u8>)
    ensures
        match first_named(vars, name) {
            Some(i) => 0 <= i < vars.len() && vars[i].0 == name,
            None => forall|k: int| 0 <= k < vars.len() ==> vars[k].0 != name,
        },
{
    if exists|i: int| 0 <= i < vars.len() && vars[i].0 == name {
        let i = choose|i: int| 0 <= i < vars.len() && vars[i].0 == name;
        lemma_first_exists(vars, name, i);
    }
}

proof fn lemma_last_value_at(vars: Seq<Pair>, name: Seq<u8>, i: int)
    requires
        names_unique(vars),
        0 <= i < vars.len(),
        vars[i].0 == name,
    ensures
        last_value(vars, name) == Some(vars[i].1),
    decreases vars.len(),
{
    if i < vars.len() - 1 {
        assert(vars.last().0 != name);
        let d = vars.drop_last();
        assert(names_unique(d)) by {
            assert forall|a: int, b: int| 0 <= a < b < d.len() implies d[a].0 != d[b].0 by {
                assert(d[a] == vars[a] && d[b] == vars[b]);
            }
        }
        assert(d[i] == vars[i]);
        lemma_last_value_at(d, name, i);
    }
}

proof fn lemma_last_value_absent(vars: Seq<Pair>, name: Seq<u8>)
    requires
        forall|k: int| 0 <= k < vars.len() ==> vars[k].0 != name,
    ensures
        last_value(vars, name) is None,
    decreases vars.len(),
{
    if vars.len() > 0 {
        let d = vars.drop_last();
        assert forall|k: int| 0 <= k < d.len() implies d[k].0 != name by {
            assert(d[k] == vars[k]);
        }
        lemma_last_value_absent(d, name);
    }
}

/// In a list without repeated names, the value of `name` is that of its one slot.
proof fn lemma_last_value_unique(vars: Seq<Pair>, name: Seq<u8>)
    requires
        names_unique(vars),
    ensures
        last_value(vars, name) == match first_named(vars, name) {
            Some(i) => Some(vars[i].1),
            None => None,
        },
{
    lemma_first_named(vars, name);
    match first_named(vars, name) {
        Some(i) => lemma_last_value_at(vars, name, i),
        None => lemma_last_value_absent(vars, name),
    }
}

proof fn lemma_set_var(vars: Seq<Pair>, name: Seq<u8>, value: Seq<u8>, m: Seq<u8>)
    requires
        names_unique(vars),
    ensures
        names_unique(set_var(vars, name, value)),
        last_value(set_var(vars, name, value), m) == if m == name {
            Some(value)
        } else {
            last_value(vars, m)
        },
{
    lemma_first_named(vars, name);
    let r = set_var(vars, name, value);
    match first_named(vars, name) {
        Some(i) => {
            assert forall|a: int, b: int| 0 <= a < b < r.len() implies r[a].0 != r[b].0 by {
                assert(r[a].0 == vars[a].0);
                assert(r[b].0 == vars[b].0);
            }
        },
        None => {
            assert forall|a: int, b: int| 0 <= a < b < r.len() implies r[a].0 != r[b].0 by {
                if b == vars.len() {
                    assert(r[a] == vars[a]);
                } else {
                    assert(r[a] == vars[a] && r[b] == vars[b]);
                }
            }
        },
    }
    lemma_last_value_unique(r, m);
    lemma_last_value_unique(vars, m);
    lemma_first_named(r, m);
    lemma_first_named(vars, m);
    if m == name {
        match first_named(vars, name) {
            Some(i) => {
                assert(r[i].0 == name);
                lemma_last_value_at(r, m, i);
            },
            None => {
                assert(r[vars.len() as int].0 == name);
                lemma_last_value_at(r, m, vars.len() as int);
            },
        }
    } else {
        match first_named(vars, m) {
            Some(k) => {
                assert(r[k] == vars[k]);
                lemma_last_value_at(r, m, k);
            },
            None => {
                assert forall|k: int| 0 <= k < r.len() implies r[k].0 != m by {
                    if k < vars.len() {
                        assert(r[k].0 == vars[k].0 || r[k].0 == name);
                    }
                }
                lemma_last_value_absent(r, m);
            },
        }
    }
}

/// Setting a list of pairs: a name the list sets ends with its last value there; any other name
/// keeps the value it had.
proof fn lemma_set_all(vars: Seq<Pair>, ps: Seq<Pair>, m: Seq<u8>)
    requires
        names_unique(vars),
    ensures
        names_unique(set_all(vars, ps)),
        last_value(set_all(vars, ps), m) == match last_value(ps, m) {
            Some(x) => Some(x),
            None => last_value(vars, m),
        },
    decreases ps.len(),
{
    if ps.len() > 0 {
        lemma_set_all(vars, ps.drop_last(), m);
        lemma_set_var(set_all(vars, ps.drop_last()), ps.last().0, ps.last().1, m);
    }
}

proof fn lemma_accepted_are_term(ps: Seq<Pair>)
    ensures
        forall|k: int| 0 <= k < accepted(ps).len() ==> #[trigger] accepted(ps)[k].0 == ascii_of("TERM"@),
    decreases ps.len(),
{
    if ps.len() > 0 {
        lemma_accepted_are_term(ps.drop_last());
        let a = accepted(ps);
        let prev = accepted(ps.drop_last());
        assert forall|k: int| 0 <= k < a.len() implies #[trigger] a[k].0 == ascii_of("TERM"@) by {
            if k < prev.len() {
                assert(a[k] == prev[k]);
            }
        }
    }
}

proof fn lemma_base_unique(root_shell: Seq<u8>)
    ensures
        names_unique(base_vars(root_shell)),
        last_value(base_vars(root_shell), ascii_of("PATH"@)) == Some(ascii_of(COMMAND_PATH@)),
{
    reveal_strlit("PATH");
    reveal_strlit("HOME");
    reveal_strlit("USER");
    reveal_strlit("LOGNAME");
    reveal_strlit("SHELL");
    reveal_strlit("LANG");
    let b = base_vars(root_shell);
    let n = seq![
        ascii_of("PATH"@),
        ascii_of("HOME"@),
        ascii_of("USER"@),
        ascii_of("LOGNAME"@),
        ascii_of("SHELL"@),
        ascii_of("LANG"@),
    ];
    assert(n[0][0] == 0x50 && n[1][0] == 0x48 && n[2][0] == 0x55 && n[3][0] == 0x4C && n[4][0] == 0x53
        && n[5][0] == 0x4C);
    assert(n[3][1] == 0x4F && n[5][1] == 0x41);
    assert forall|i: int, j: int| 0 <= i < j < b.len() implies b[i].0 != b[j].0 by {
        assert(b[i].0 == n[i] && b[j].0 == n[j]);
        if i == 3 && j == 5 {
            assert(n[i][1] != n[j][1]);
        } else {
            assert(n[i][0] != n[j][0]);
        }
    }
    assert(b[0].0 == ascii_of("PATH"@));
    lemma_last_value_at(b, ascii_of("PATH"@), 0);
}

/// The four names sudo-prompt sets itself.
pub open spec fn provenance_names() -> Seq<Seq<u8>> {
    seq![ascii_of("SUDO_UID"@), ascii_of("SUDO_GID"@), ascii_of("SUDO_USER"@), ascii_of("SUDO_COMMAND"@)]
}

proof fn lemma_provenance_values(uid: u32, gid: u32, user: Seq<u8>, command: Seq<u8>, m: Seq<u8>)
    ensures
        last_value(provenance_vars(uid, gid, user, command), m) == if m == ascii_of("SUDO_UID"@) {
            Some(ascii_of(decimal(uid as nat)))
        } else if m == ascii_of("SUDO_GID"@) {
            Some(ascii_of(decimal(gid as nat)))
        } else if m == ascii_of("SUDO_USER"@) {
            Some(user)
        } else if m == ascii_of("SUDO_COMMAND"@) {
            Some(command)
        } else {
            None
        },
{
    reveal_strlit("SUDO_UID");
    reveal_strlit("SUDO_GID");
    reveal_strlit("SUDO_USER");
    reveal_strlit("SUDO_COMMAND");
    let pv = provenance_vars(uid, gid, user, command);
    let n = provenance_names();
    assert(n[0].len() == 8 && n[1].len() == 8 && n[2].len() == 9 && n[3].len() == 12);
    assert(n[0][5] == 0x55 && n[1][5] == 0x47);
    assert forall|i: int, j: int| 0 <= i < j < pv.len() implies pv[i].0 != pv[j].0 by {
        assert(pv[i].0 == n[i] && pv[j].0 == n[j]);
        if i == 0 && j == 1 {
            assert(n[i][5] != n[j][5]);
        } else {
            assert(n[i].len() != n[j].len());
        }
    }
    lemma_last_value_unique(pv, m);
    lemma_first_named(pv, m);
    if m == n[0] {
        lemma_last_value_at(pv, m, 0);
    } else if m == n[1] {
        lemma_last_value_at(pv, m, 1);
    } else if m == n[2] {
        lemma_last_value_at(pv, m, 2);
    } else if m == n[3] {
        lemma_last_value_at(pv, m, 3);
    } else {
        assert forall|k: int| 0 <= k < pv.len() implies pv[k].0 != m by {
            assert(pv[k].0 == n[k]);
        }
        lemma_last_value_absent(pv, m);
    }
}

/// Provenance is applied last and cannot be spoofed: whatever the request assigned and whatever
/// passed through, the command sees the requester's own uid, gid, name and command line.
pub proof fn provenance_is_unspoofable(
    passthrough: Seq<Pair>,
    req: crate::cli::RequestView,
    uid: u32,
    gid: u32,
    user: Seq<u8>,
    root_shell: Seq<u8>,
)
    ensures
        ({
            let vars = spec_vars(passthrough, req, uid, gid, user, root_shell);
            &&& names_unique(vars)
            &&& last_value(vars, ascii_of("SUDO_UID"@)) == Some(ascii_of(decimal(uid as nat)))
            &&& last_value(vars, ascii_of("SUDO_GID"@)) == Some(ascii_of(decimal(gid as nat)))
            &&& last_value(vars, ascii_of("SUDO_USER"@)) == Some(user)
            &&& last_value(vars, ascii_of("SUDO_COMMAND"@)) == Some(space_joined(req.command, req.args))
        }),
{
    let command = space_joined(req.command, req.args);
    let a = set_all(base_vars(root_shell), accepted(passthrough));
    let b = set_all(a, req.assignments);
    let pv = provenance_vars(uid, gid, user, command);
    lemma_base_unique(root_shell);
    lemma_set_all(base_vars(root_shell), accepted(passthrough), ascii_of("PATH"@));
    lemma_set_all(a, req.assignments, ascii_of("PATH"@));
    let n = provenance_names();
    reveal_strlit("SUDO_UID");
    reveal_strlit("SUDO_GID");
    reveal_strlit("SUDO_USER");
    reveal_strlit("SUDO_COMMAND");
    assert(n[0].len() == 8 && n[1].len() == 8 && n[2].len() == 9 && n[3].len() == 12);
    assert(n[0][5] == 0x55 && n[1][5] == 0x47);
    assert(n[0] != n[1]);
    lemma_set_all(b, pv, n[0]);
    lemma_provenance_values(uid, gid, user, command, n[0]);
    lemma_set_all(b, pv, n[1]);
    lemma_provenance_values(uid, gid, user, command, n[1]);
    lemma_set_all(b, pv, n[2]);
    lemma_provenance_values(uid, gid, user, command, n[2]);
    lemma_set_all(b, pv, n[3]);
    lemma_provenance_values(uid, gid, user, command, n[3]);
}

/// PATH is always root-controlled: the request's own `PATH=` assignment if it made one (the
/// prompt showed it), else sudo-prompt's fixed list. Never an inherited value.
pub proof fn path_is_root_controlled(
    passthrough: Seq<Pair>,
    req: crate::cli::RequestView,
    uid: u32,
    gid: u32,
    user: Seq<u8>,
    root_shell: Seq<u8>,
)
    ensures
        last_value(spec_vars(passthrough, req, uid, gid, user, root_shell), ascii_of("PATH"@)) == match last_value(
            req.assignments,
            ascii_of("PATH"@),
        ) {
            Some(v) => Some(v),
            None => Some(ascii_of(COMMAND_PATH@)),
        },
{
    reveal_strlit("PATH");
    reveal_strlit("TERM");
    let path = ascii_of("PATH"@);
    let command = space_joined(req.command, req.args);
    let acc = accepted(passthrough);
    let a = set_all(base_vars(root_shell), acc);
    let b = set_all(a, req.assignments);
    lemma_base_unique(root_shell);
    lemma_accepted_are_term(passthrough);
    assert(ascii_of("TERM"@)[0] != path[0]);
    assert forall|k: int| 0 <= k < acc.len() implies acc[k].0 != path by {
        assert(acc[k].0 == ascii_of("TERM"@));
    }
    lemma_last_value_absent(acc, path);
    lemma_set_all(base_vars(root_shell), acc, path);
    lemma_set_all(a, req.assignments, path);
    lemma_set_all(b, provenance_vars(uid, gid, user, command), path);
    lemma_provenance_values(uid, gid, user, command, path);
    reveal_strlit("SUDO_UID");
    reveal_strlit("SUDO_GID");
    reveal_strlit("SUDO_USER");
    reveal_strlit("SUDO_COMMAND");
    assert(path[0] != ascii_of("SUDO_UID"@)[0]);
    assert(path[0] != ascii_of("SUDO_GID"@)[0]);
    assert(path[0] != ascii_of("SUDO_USER"@)[0]);
    assert(path[0] != ascii_of("SUDO_COMMAND"@)[0]);
}

} // verus!
