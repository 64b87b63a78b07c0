//! The shim and sudo-prompt agree: what the shim sends is a request sudo-prompt accepts, and on
//! the interpreter path one its inner-sudo whitelist lets through.

use vstd::prelude::*;
use vstd::string::*;

use crate::bytes::{ascii_of, has_prefix};
use crate::classify::{
    apply_all, assignment_token, collected, expansion_at, forwarded, lemma_scan_shape, preserve_prefix,
    preserved, preserved_all, scan_shim, scan_start, spec_classify, split_commas, tok_is, ScanEnd,
    ShimScan, GATE, REAL_SUDO,
};
use crate::cli::{
    dash_dash, dedup, last_wins, leading_assignments, parse_error, parsed, spec_basename, spec_split,
    spec_valid_name, split_all, sudo_prefix, sudoedit, without_name, Pair,
};
use crate::interp::{is_one_of, no_flags, scan_from, spec_is_assignment, sudo_name, Interpreter};

verus! {

/// Whether a token is `-`-prefixed.
pub open spec fn dashed(tok: Seq<u8>) -> bool {
    has_prefix(tok, ascii_of("-"@))
}

/// A token that does not start with `-` is none of the inner-sudo options.
proof fn lemma_undashed(tok: Seq<u8>)
    requires
        !dashed(tok),
    ensures
        !is_one_of(tok, "-i"@, "-s"@),
        !is_one_of(tok, "-u"@, "-g"@),
        !is_one_of(tok, "--user"@, "--group"@),
        tok != ascii_of("--"@),
        !has_prefix(tok, ascii_of("--user="@)),
        !has_prefix(tok, ascii_of("--group="@)),
{
    reveal_strlit("-");
    reveal_strlit("-i");
    reveal_strlit("-s");
    reveal_strlit("-u");
    reveal_strlit("-g");
    reveal_strlit("--user");
    reveal_strlit("--group");
    reveal_strlit("--");
    reveal_strlit("--user=");
    reveal_strlit("--group=");
    let d = ascii_of("-"@);
    assert(d.len() == 1 && d[0] == 0x2Du8);
    if tok.len() > 0 && tok[0] == 0x2Du8 {
        assert(tok.take(1) =~= d);
    }
    assert(ascii_of("-i"@)[0] == 0x2Du8);
    assert(ascii_of("-s"@)[0] == 0x2Du8);
    assert(ascii_of("-u"@)[0] == 0x2Du8);
    assert(ascii_of("-g"@)[0] == 0x2Du8);
    assert(ascii_of("--user"@)[0] == 0x2Du8);
    assert(ascii_of("--group"@)[0] == 0x2Du8);
    assert(ascii_of("--"@)[0] == 0x2Du8);
    assert(ascii_of("--user="@)[0] == 0x2Du8);
    assert(ascii_of("--group="@)[0] == 0x2Du8);
    if has_prefix(tok, ascii_of("--user="@)) {
        assert(tok.take(7)[0] == tok[0]);
    }
    if has_prefix(tok, ascii_of("--group="@)) {
        assert(tok.take(8)[0] == tok[0]);
    }
}

/// A token that reads as an assignment starts with a name, so not with `-`.
proof fn lemma_assignment_undashed(tok: Seq<u8>)
    requires
        spec_split(tok) is Some,
    ensures
        !dashed(tok),
        spec_is_assignment(tok),
{
    crate::bytes::lemma_first_index(tok, 0x3D);
    let e = crate::bytes::first_index(tok, 0x3D)->0;
    assert(tok.take(e).len() > 0);
    assert(tok.take(e)[0] == tok[0]);
    reveal_strlit("-");
    if dashed(tok) {
        assert(tok.take(1)[0] == tok[0]);
    }
}

/// `NAME=value` for a valid name reads back as that assignment.
proof fn lemma_assignment_token(p: Pair)
    requires
        spec_valid_name(p.0),
    ensures
        spec_split(crate::classify::assignment_token(p)) == Some(p),
{
    let t = crate::classify::assignment_token(p);
    let n = p.0.len() as int;
    assert(t[n] == 0x3Du8);
    assert forall|j: int| 0 <= j < n implies t[j] != 0x3Du8 by {
        assert(t[j] == p.0[j]);
    }
    crate::bytes::lemma_first_index(t, 0x3D);
    let e = crate::bytes::first_index(t, 0x3D)->0;
    assert(crate::bytes::first_index(t, 0x3D) is Some);
    if e < n {
        assert(t[e] != 0x3Du8);
    }
    assert(e == n);
    assert(t.take(n) =~= p.0);
    assert(t.skip(n + 1) =~= p.1);
}

/// sudo-prompt's inner-sudo scan over tokens placed after others reads them as it would alone.
proof fn lemma_scan_shift(pre: Seq<Seq<u8>>, ys: Seq<Seq<u8>>, j: int, st: Interpreter)
    requires
        0 <= j,
    ensures
        scan_from(pre + ys, pre.len() + j, st) == scan_from(ys, j, st),
    decreases ys.len() - j,
{
    let xs = pre + ys;
    let i = pre.len() + j;
    if j < ys.len() {
        assert(xs[i] == ys[j]);
        lemma_scan_shift(pre, ys, j + 1, st);
        lemma_scan_shift(pre, ys, j + 1, Interpreter { shell: true, ..st });
        lemma_scan_shift(pre, ys, j + 1, Interpreter { as_other_user: true, ..st });
        if j + 1 < ys.len() {
            lemma_scan_shift(pre, ys, j + 2, Interpreter { as_other_user: true, ..st });
        }
    }
}

/// The scan passes over a block of assignment tokens with valid names.
proof fn lemma_scan_assignments(ps: Seq<Pair>, ys: Seq<Seq<u8>>, st: Interpreter)
    requires
        forall|k: int| 0 <= k < ps.len() ==> spec_valid_name(#[trigger] ps[k].0),
    ensures
        scan_from(ps.map_values(|p: Pair| crate::classify::assignment_token(p)) + ys, 0, st)
            == scan_from(ys, 0, st),
    decreases ps.len(),
{
    if ps.len() > 0 {
        let xs = ps.map_values(|p: Pair| crate::classify::assignment_token(p));
        let rest = ps.drop_first();
        let xr = rest.map_values(|p: Pair| crate::classify::assignment_token(p));
        let tok = xs[0];
        assert(spec_valid_name(ps[0].0));
        lemma_assignment_token(ps[0]);
        lemma_assignment_undashed(tok);
        lemma_undashed(tok);
        assert(xs + ys =~= seq![tok] + (xr + ys));
        lemma_scan_shift(seq![tok], xr + ys, 0, st);
        assert forall|k: int| 0 <= k < rest.len() implies spec_valid_name(#[trigger] rest[k].0) by {
            assert(rest[k] == ps[k + 1]);
        }
        lemma_scan_assignments(rest, ys, st);
    }
}

/// An index that no entry names has no expansion.
proof fn lemma_expansion_absent(exps: Seq<(int, Seq<Seq<u8>>)>, n: int)
    requires
        forall|k: int| 0 <= k < exps.len() ==> exps[k].0 != n,
    ensures
        expansion_at(exps, n) is None,
    decreases exps.len(),
{
    if exps.len() > 0 {
        assert forall|k: int| 0 <= k < exps.drop_first().len() implies exps.drop_first()[k].0 != n by {
            assert(exps.drop_first()[k] == exps[k + 1]);
        }
        lemma_expansion_absent(exps.drop_first(), n);
    }
}

/// The expansion of an index is that of the first entry naming it.
proof fn lemma_expansion_found(exps: Seq<(int, Seq<Seq<u8>>)>, n: int, m: int)
    requires
        0 <= m < exps.len(),
        exps[m].0 == n,
        forall|k: int| 0 <= k < m ==> exps[k].0 != n,
    ensures
        expansion_at(exps, n) == Some(exps[m].1),
    decreases m,
{
    if m > 0 {
        assert forall|k: int| 0 <= k < m - 1 implies exps.drop_first()[k].0 != n by {
            assert(exps.drop_first()[k] == exps[k + 1]);
        }
        lemma_expansion_found(exps.drop_first(), n, m - 1);
    }
}

/// What the token at `j` is forwarded as.
pub open spec fn forwarded_item(toks: Seq<Seq<u8>>, exps: Seq<(int, Seq<Seq<u8>>)>, j: int) -> Seq<Seq<u8>> {
    match expansion_at(exps, j) {
        Some(t) => t,
        None => seq![toks[j]],
    }
}

/// The forwarded tokens read from the front.
proof fn lemma_forwarded_front(toks: Seq<Seq<u8>>, exps: Seq<(int, Seq<Seq<u8>>)>, i: int, n: int)
    requires
        i < n,
    ensures
        forwarded(toks, exps, i, n) == forwarded_item(toks, exps, i) + forwarded(toks, exps, i + 1, n),
    decreases n - i,
{
    if i + 1 == n {
        assert(forwarded(toks, exps, i, i) == Seq::<Seq<u8>>::empty());
        assert(forwarded(toks, exps, i + 1, n) == Seq::<Seq<u8>>::empty());
        assert(forwarded(toks, exps, i, n) =~= forwarded_item(toks, exps, i) + forwarded(toks, exps, i + 1, n));
    } else {
        lemma_forwarded_front(toks, exps, i, n - 1);
        assert(forwarded(toks, exps, i, n) =~= forwarded_item(toks, exps, i) + forwarded(toks, exps, i + 1, n));
    }
}

/// `b` is `a` followed by entries that name indices at or after `i`.
pub open spec fn grows(a: Seq<(int, Seq<Seq<u8>>)>, b: Seq<(int, Seq<Seq<u8>>)>, i: int) -> bool {
    &&& b.len() >= a.len()
    &&& b.take(a.len() as int) == a
    &&& forall|k: int| a.len() <= k < b.len() ==> b[k].0 >= i
}

proof fn lemma_grows_push(a: Seq<(int, Seq<Seq<u8>>)>, e: (int, Seq<Seq<u8>>), b: Seq<(int, Seq<Seq<u8>>)>, i: int)
    requires
        grows(a.push(e), b, i + 1),
        e.0 == i,
    ensures
        grows(a, b, i),
{
    assert(b.take(a.len() + 1int) == a.push(e));
    assert(a.push(e).take(a.len() as int) =~= a);
    assert(b.take(a.len() as int) =~= b.take(a.len() + 1int).take(a.len() as int));
    assert(b.take(a.len() as int) == a);
    assert(b.len() >= a.len());
    assert(b[a.len() as int] == b.take(a.len() + 1int)[a.len() as int]);
    assert(b.take(a.len() + 1int)[a.len() as int] == a.push(e)[a.len() as int]);
    assert(a.push(e).len() == a.len() + 1);
    assert forall|k: int| a.len() <= k < b.len() implies b[k].0 >= i by {
        if k > a.len() {
            assert(a.push(e).len() <= k);
        }
    }
}

/// The entries the scan adds to the expansions from `i` on name indices at or after `i`, and the
/// ones it had are kept in front.
#[verifier::spinoff_prover]
#[verifier::rlimit(40)]
proof fn lemma_exps_grow(toks: Seq<Seq<u8>>, env: Seq<Pair>, i: int, s: ShimScan)
    requires
        0 <= i,
    ensures
        scan_shim(toks, env, i, s) matches ScanEnd::Stopped(fin, _) ==> grows(s.exps, fin.exps, i),
    decreases toks.len() - i,
{
    assert(s.exps.take(s.exps.len() as int) =~= s.exps);
    if i < toks.len() {
        let tok = toks[i];
        if tok_is(tok, "--"@) {
        } else if spec_split(tok) is Some {
            let c = collected(s, i);
            lemma_exps_grow(toks, env, i + 1, ShimScan { assigns: last_wins(c.assigns, spec_split(tok)->0), ..c });
        } else if has_prefix(tok, preserve_prefix()) {
            let c = collected(s, i);
            let ps = preserved_all(split_commas(tok.skip(15)), env);
            let e = (i, ps.map_values(|p: Pair| assignment_token(p)));
            let s2 = ShimScan { assigns: apply_all(c.assigns, ps), exps: c.exps.push(e), ..c };
            lemma_exps_grow(toks, env, i + 1, s2);
            if let ScanEnd::Stopped(fin, _) = scan_shim(toks, env, i + 1, s2) {
                lemma_grows_push(s.exps, e, fin.exps, i);
            }
        } else if tok_is(tok, "-i"@) || tok_is(tok, "-s"@) {
            lemma_exps_grow(toks, env, i + 1, ShimScan { interpreter: true, shell: true, ..collected(s, i) });
        } else if tok_is(tok, "-u"@) || tok_is(tok, "-g"@) || tok_is(tok, "--user"@) || tok_is(tok, "--group"@) {
            let c = ShimScan { interpreter: true, ..collected(s, i) };
            if i + 1 < toks.len() {
                lemma_exps_grow(toks, env, i + 2, c);
            }
        } else if has_prefix(tok, ascii_of("--user="@)) || has_prefix(tok, ascii_of("--group="@)) {
            lemma_exps_grow(toks, env, i + 1, ShimScan { interpreter: true, ..collected(s, i) });
        }
    }
}

/// The pairs a `--preserve-env` list contributes all have valid names.
proof fn lemma_preserved_valid(names: Seq<Seq<u8>>, env: Seq<Pair>)
    ensures
        forall|k: int| 0 <= k < preserved_all(names, env).len() ==> spec_valid_name(
            #[trigger] preserved_all(names, env)[k].0,
        ),
    decreases names.len(),
{
    if names.len() > 0 {
        lemma_preserved_valid(names.drop_last(), env);
        let a = preserved_all(names.drop_last(), env);
        let b = match preserved(names.last(), env) {
            Some(p) => seq![p],
            None => Seq::<Pair>::empty(),
        };
        assert forall|k: int| 0 <= k < (a + b).len() implies spec_valid_name(#[trigger] (a + b)[k].0) by {
            if k >= a.len() {
                assert((a + b)[k] == b[k - a.len()]);
            }
        }
        assert(preserved_all(names, env) == a + b);
    }
}

/// An option that the shim passes to the inner sudo together with the token after it.
pub open spec fn takes_value(tok: Seq<u8>) -> bool {
    tok_is(tok, "-u"@) || tok_is(tok, "-g"@) || tok_is(tok, "--user"@) || tok_is(tok, "--group"@)
}

/// The shim's scan from `i` stops at an option that takes a value with no token left for it:
/// the argv ends with that option, read as an option and not as an argument.
pub open spec fn stops_on_bare_option(toks: Seq<Seq<u8>>, env: Seq<Pair>, i: int, s: ShimScan) -> bool {
    &&& scan_shim(toks, env, i, s) matches ScanEnd::Stopped(_, None)
    &&& toks.len() > 0
    &&& takes_value(toks.last())
}

proof fn lemma_absent_between(a: Seq<(int, Seq<Seq<u8>>)>, b: Seq<(int, Seq<Seq<u8>>)>, j: int, lo: int)
    requires
        grows(a, b, lo),
        forall|k: int| 0 <= k < a.len() ==> a[k].0 < j,
        j < lo,
    ensures
        expansion_at(b, j) is None,
{
    assert forall|k: int| 0 <= k < b.len() implies b[k].0 != j by {
        if k < a.len() {
            assert(b[k] == b.take(a.len() as int)[k]);
        }
    }
    lemma_expansion_absent(b, j);
}

/// Along the shim's scan from `i`, what it forwards from `i` on passes sudo-prompt's inner-sudo
/// scan, whatever that scan found before, unless the shim's scan stops on an option lacking its
/// value.
#[verifier::spinoff_prover]
#[verifier::rlimit(40)]
proof fn lemma_interp_scan(toks: Seq<Seq<u8>>, env: Seq<Pair>, i: int, s: ShimScan, st: Interpreter)
    requires
        0 <= i,
        forall|k: int| 0 <= k < s.exps.len() ==> s.exps[k].0 < i,
    ensures
        scan_shim(toks, env, i, s) matches ScanEnd::Stopped(fin, _) ==> (scan_from(
            forwarded(toks, fin.exps, i, toks.len() as int),
            0,
            st,
        ) is Ok || stops_on_bare_option(toks, env, i, s)),
    decreases toks.len() - i,
{
    let n = toks.len() as int;
    if i >= n {
        return;
    }
    let tok = toks[i];
    lemma_exps_grow(toks, env, i, s);
    reveal_strlit("-");
    reveal_strlit("-i");
    reveal_strlit("-s");
    reveal_strlit("-u");
    reveal_strlit("-g");
    reveal_strlit("--user");
    reveal_strlit("--group");
    reveal_strlit("--");
    if let ScanEnd::Stopped(fin, _) = scan_shim(toks, env, i, s) {
        let e = fin.exps;
        lemma_forwarded_front(toks, e, i, n);
        let rest = forwarded(toks, e, i + 1, n);
        if tok_is(tok, "--"@) {
            lemma_absent_between(s.exps, e, i, i + 1);
            assert(forwarded(toks, e, i, n) == seq![tok] + rest);
            assert((seq![tok] + rest)[0] == tok);
            assert(ascii_of("--"@) != ascii_of("-i"@) && ascii_of("--"@) != ascii_of("-s"@)) by {
                assert(ascii_of("--"@)[1] != ascii_of("-i"@)[1]);
                assert(ascii_of("--"@)[1] != ascii_of("-s"@)[1]);
            }
            assert(ascii_of("--"@) != ascii_of("-u"@) && ascii_of("--"@) != ascii_of("-g"@)) by {
                assert(ascii_of("--"@)[1] != ascii_of("-u"@)[1]);
                assert(ascii_of("--"@)[1] != ascii_of("-g"@)[1]);
            }
            assert(ascii_of("--"@).len() != ascii_of("--user"@).len());
            assert(ascii_of("--"@).len() != ascii_of("--group"@).len());
        } else if spec_split(tok) is Some {
            let c = collected(s, i);
            let s2 = ShimScan { assigns: last_wins(c.assigns, spec_split(tok)->0), ..c };
            lemma_exps_grow(toks, env, i + 1, s2);
            lemma_absent_between(s.exps, e, i, i + 1);
            lemma_assignment_undashed(tok);
            lemma_undashed(tok);
            lemma_scan_shift(seq![tok], rest, 0, st);
            lemma_interp_scan(toks, env, i + 1, s2, st);
        } else if has_prefix(tok, preserve_prefix()) {
            let c = collected(s, i);
            let ps = preserved_all(split_commas(tok.skip(15)), env);
            let x = ps.map_values(|p: Pair| assignment_token(p));
            let s2 = ShimScan { assigns: apply_all(c.assigns, ps), exps: c.exps.push((i, x)), ..c };
            lemma_exps_grow(toks, env, i + 1, s2);
            let m = s.exps.len() as int;
            assert(e.take(m + 1) == s.exps.push((i, x)));
            assert(e[m] == e.take(m + 1)[m]);
            assert forall|k: int| 0 <= k < m implies e[k].0 != i by {
                assert(e[k] == e.take(m + 1)[k]);
            }
            lemma_expansion_found(e, i, m);
            lemma_preserved_valid(split_commas(tok.skip(15)), env);
            lemma_scan_assignments(ps, rest, st);
            lemma_interp_scan(toks, env, i + 1, s2, st);
        } else if tok_is(tok, "-i"@) || tok_is(tok, "-s"@) {
            let s2 = ShimScan { interpreter: true, shell: true, ..collected(s, i) };
            lemma_exps_grow(toks, env, i + 1, s2);
            lemma_absent_between(s.exps, e, i, i + 1);
            let st2 = Interpreter { shell: true, ..st };
            lemma_scan_shift(seq![tok], rest, 0, st2);
            lemma_interp_scan(toks, env, i + 1, s2, st2);
        } else if takes_value(tok) {
            let c = ShimScan { interpreter: true, ..collected(s, i) };
            assert(!is_one_of(tok, "-i"@, "-s"@)) by {
                assert(tok[1] != ascii_of("-i"@)[1] || tok.len() != 2);
                assert(tok[1] != ascii_of("-s"@)[1] || tok.len() != 2);
            }
            if i + 1 < n {
                lemma_exps_grow(toks, env, i + 2, c);
                lemma_absent_between(s.exps, e, i, i + 2);
                lemma_absent_between(s.exps, e, i + 1, i + 2);
                lemma_forwarded_front(toks, e, i + 1, n);
                let rest2 = forwarded(toks, e, i + 2, n);
                let two = seq![tok, toks[i + 1]];
                assert(forwarded(toks, e, i, n) =~= two + rest2);
                let st2 = Interpreter { as_other_user: true, ..st };
                lemma_scan_shift(two, rest2, 0, st2);
                lemma_interp_scan(toks, env, i + 2, c, st2);
            } else {
                assert(toks.last() == tok);
            }
        } else if has_prefix(tok, ascii_of("--user="@)) || has_prefix(tok, ascii_of("--group="@)) {
            let s2 = ShimScan { interpreter: true, ..collected(s, i) };
            lemma_exps_grow(toks, env, i + 1, s2);
            lemma_absent_between(s.exps, e, i, i + 1);
            reveal_strlit("--user=");
            reveal_strlit("--group=");
            assert(tok.len() >= 7);
            assert(!is_one_of(tok, "-i"@, "-s"@) && !is_one_of(tok, "-u"@, "-g"@));
            assert(!is_one_of(tok, "--user"@, "--group"@)) by {
                if tok.len() == 7 {
                    assert(tok[2] == tok.take(7)[2]);
                    assert(ascii_of("--group"@)[2] != ascii_of("--user="@)[2]);
                }
            }
            let st2 = Interpreter { as_other_user: true, ..st };
            lemma_scan_shift(seq![tok], rest, 0, st2);
            lemma_interp_scan(toks, env, i + 1, s2, st2);
        } else if dashed(tok) {
        } else {
            lemma_absent_between(s.exps, e, i, i + 1);
            lemma_undashed(tok);
        }
    }
}

pub open spec fn all_valid(ps: Seq<Pair>) -> bool {
    forall|k: int| 0 <= k < ps.len() ==> spec_valid_name(#[trigger] ps[k].0)
}

proof fn lemma_without_name_valid(list: Seq<Pair>, name: Seq<u8>)
    requires
        all_valid(list),
    ensures
        all_valid(without_name(list, name)),
    decreases list.len(),
{
    if list.len() > 0 {
        lemma_without_name_valid(list.drop_last(), name);
        let r = without_name(list.drop_last(), name);
        assert(list.last() == list[list.len() - 1]);
        assert(all_valid(r.push(list.last())));
    }
}

proof fn lemma_last_wins_valid(list: Seq<Pair>, a: Pair)
    requires
        all_valid(list),
        spec_valid_name(a.0),
    ensures
        all_valid(last_wins(list, a)),
{
    lemma_without_name_valid(list, a.0);
    assert(all_valid(without_name(list, a.0).push(a)));
}

proof fn lemma_apply_all_valid(list: Seq<Pair>, ps: Seq<Pair>)
    requires
        all_valid(list),
        all_valid(ps),
    ensures
        all_valid(apply_all(list, ps)),
    decreases ps.len(),
{
    if ps.len() > 0 {
        assert(all_valid(ps.drop_last()));
        lemma_apply_all_valid(list, ps.drop_last());
        assert(ps.last() == ps[ps.len() - 1]);
        lemma_last_wins_valid(apply_all(list, ps.drop_last()), ps.last());
    }
}

/// What the scan collects: assignments with valid names, and, once an interpreter option was
/// seen, a first collected token at index 0.
#[verifier::spinoff_prover]
#[verifier::rlimit(40)]
proof fn lemma_collected(toks: Seq<Seq<u8>>, env: Seq<Pair>, i: int, s: ShimScan)
    requires
        0 <= i,
        all_valid(s.assigns),
        s.first is None ==> i == 0 && !s.interpreter,
        s.first is Some ==> s.first == Some(0int),
    ensures
        scan_shim(toks, env, i, s) matches ScanEnd::Stopped(fin, _) ==> {
            &&& all_valid(fin.assigns)
            &&& fin.interpreter ==> fin.first == Some(0int)
        },
    decreases toks.len() - i,
{
    if i < toks.len() {
        let tok = toks[i];
        if tok_is(tok, "--"@) {
        } else if spec_split(tok) is Some {
            let c = collected(s, i);
            let p = spec_split(tok)->0;
            crate::bytes::lemma_first_index(tok, 0x3D);
            lemma_last_wins_valid(c.assigns, p);
            lemma_collected(toks, env, i + 1, ShimScan { assigns: last_wins(c.assigns, p), ..c });
        } else if has_prefix(tok, preserve_prefix()) {
            let c = collected(s, i);
            let ps = preserved_all(split_commas(tok.skip(15)), env);
            lemma_preserved_valid(split_commas(tok.skip(15)), env);
            lemma_apply_all_valid(c.assigns, ps);
            lemma_collected(
                toks,
                env,
                i + 1,
                ShimScan {
                    assigns: apply_all(c.assigns, ps),
                    exps: c.exps.push((i, ps.map_values(|p: Pair| assignment_token(p)))),
                    ..c
                },
            );
        } else if tok_is(tok, "-i"@) || tok_is(tok, "-s"@) {
            lemma_collected(toks, env, i + 1, ShimScan { interpreter: true, shell: true, ..collected(s, i) });
        } else if takes_value(tok) {
            let c = ShimScan { interpreter: true, ..collected(s, i) };
            if i + 1 < toks.len() {
                lemma_collected(toks, env, i + 2, c);
            }
        } else if has_prefix(tok, ascii_of("--user="@)) || has_prefix(tok, ascii_of("--group="@)) {
            lemma_collected(toks, env, i + 1, ShimScan { interpreter: true, ..collected(s, i) });
        }
    }
}

proof fn lemma_leading_block(xs: Seq<Seq<u8>>, ys: Seq<Seq<u8>>)
    requires
        forall|j: int| 0 <= j < xs.len() ==> (#[trigger] spec_split(xs[j])) is Some,
    ensures
        leading_assignments(xs + ys) == xs.len() + leading_assignments(ys),
    decreases xs.len(),
{
    if xs.len() > 0 {
        assert((xs + ys)[0] == xs[0]);
        assert((xs + ys).drop_first() =~= xs.drop_first() + ys);
        assert forall|j: int| 0 <= j < xs.drop_first().len() implies (#[trigger] spec_split(
            xs.drop_first()[j],
        )) is Some by {
            assert(xs.drop_first()[j] == xs[j + 1]);
        }
        lemma_leading_block(xs.drop_first(), ys);
    } else {
        assert(xs + ys =~= ys);
    }
}

/// The requests the shim forwards with their command as the caller typed it, which sudo-prompt
/// reads the same way and accepts: the command does not read as an assignment (as one typed after
/// `--` would), is not empty and is not sudoedit, no assignment names a `SUDO_*` variable, and a
/// command that is sudo itself comes with no assignments and options its interpreter whitelist
/// lets through. Requests on the interpreter path need nothing.
pub open spec fn direct_request_fits(argv: Seq<Seq<u8>>, env: Seq<Pair>) -> bool {
    match scan_shim(argv, env, 0, scan_start()) {
        ScanEnd::Stopped(s, Some(k)) => !s.interpreter ==> {
            let cmd = argv[k];
            &&& spec_split(cmd) is None
            &&& cmd.len() > 0
            &&& spec_basename(cmd) != sudoedit()
            &&& forall|j: int| 0 <= j < s.assigns.len() ==> !has_prefix(#[trigger] s.assigns[j].0, sudo_prefix())
            &&& spec_basename(cmd) == sudo_name() ==> s.assigns.len() == 0 && scan_from(
                argv.skip(k + 1),
                0,
                no_flags(),
            ) is Ok
        },
        _ => true,
    }
}

/// sudo-prompt's reading of `-- NAME=value... COMMAND ARGS...` with valid names and a command
/// that does not read as an assignment.
#[verifier::spinoff_prover]
#[verifier::rlimit(40)]
proof fn lemma_direct_parse(ps: Seq<Pair>, tail: Seq<Seq<u8>>)
    requires
        all_valid(ps),
        tail.len() > 0,
        spec_split(tail[0]) is None,
        tail[0].len() > 0,
        spec_basename(tail[0]) != sudoedit(),
        forall|j: int| 0 <= j < ps.len() ==> !has_prefix(#[trigger] ps[j].0, sudo_prefix()),
    ensures
        ({
            let a = seq![dash_dash()] + (ps.map_values(|p: Pair| assignment_token(p)) + tail);
            &&& parse_error(a) is None
            &&& parsed(a).assignments == dedup(ps)
            &&& parsed(a).command == tail[0]
            &&& parsed(a).args == tail.skip(1)
        }),
{
    let xs = ps.map_values(|p: Pair| assignment_token(p));
    let a = seq![dash_dash()] + (xs + tail);
    let rest = a.drop_first();
    assert(rest =~= xs + tail);
    assert forall|j: int| 0 <= j < xs.len() implies (#[trigger] spec_split(xs[j])) == Some(ps[j]) by {
        lemma_assignment_token(ps[j]);
    }
    lemma_leading_block(xs, tail);
    assert(leading_assignments(tail) == 0);
    let m = xs.len() as int;
    assert(leading_assignments(rest) == m);
    assert(rest.take(m) =~= xs);
    assert(split_all(rest.take(m)) =~= ps);
    assert(rest[m] == tail[0]);
    assert(rest.skip(m + 1) =~= tail.skip(1));
    assert(a[0] == dash_dash());
}

#[verifier::spinoff_prover]
#[verifier::rlimit(40)]
proof fn lemma_routed_path(euid: u32, argv: Seq<Seq<u8>>, env: Seq<Pair>)
    requires
        spec_classify(euid, argv, env) is Some,
        scan_shim(argv, env, 0, scan_start()) matches ScanEnd::Stopped(s, _) && s.interpreter,
    ensures
        ({
            let a = spec_classify(euid, argv, env)->0.drop_first();
            let r = parsed(a);
            &&& parse_error(a) is None
            &&& r.assignments.len() == 0
            &&& (scan_from(r.args, 0, no_flags()) is Ok || stops_on_bare_option(argv, env, 0, scan_start()))
        }),
{
    let g = spec_classify(euid, argv, env)->0;
    let n = argv.len() as int;
    lemma_collected(argv, env, 0, scan_start());
    let s = scan_shim(argv, env, 0, scan_start())->Stopped_0;
    let f = forwarded(argv, s.exps, 0, n);
    let sudo = ascii_of(REAL_SUDO@);
    assert(g == seq![ascii_of(GATE@), ascii_of("--"@), sudo] + f);
    assert(g[2] == sudo);
    crate::classify::routed_requests_carry_no_assignments(euid, argv, env);
    let a = g.drop_first();
    let rest = a.drop_first();
    assert(rest =~= seq![sudo] + f);
    reveal_strlit("/usr/bin/sudo");
    assert forall|j: int| 0 <= j < sudo.len() implies sudo[j] != 0x3Du8 by {}
    crate::bytes::lemma_first_index(sudo, 0x3D);
    assert(spec_split(rest[0]) is None);
    assert(leading_assignments(rest) == 0);
    assert(parsed(a).args =~= f);
    lemma_interp_scan(argv, env, 0, scan_start(), no_flags());
}

#[verifier::spinoff_prover]
#[verifier::rlimit(40)]
proof fn lemma_direct_path(euid: u32, argv: Seq<Seq<u8>>, env: Seq<Pair>)
    requires
        spec_classify(euid, argv, env) is Some,
        direct_request_fits(argv, env),
        scan_shim(argv, env, 0, scan_start()) matches ScanEnd::Stopped(s, _) && !s.interpreter,
    ensures
        scan_shim(argv, env, 0, scan_start()) matches ScanEnd::Stopped(s, Some(k)) && ({
            let a = spec_classify(euid, argv, env)->0.drop_first();
            let r = parsed(a);
            &&& parse_error(a) is None
            &&& r.command == argv[k]
            &&& r.args == argv.skip(k + 1)
            &&& spec_basename(r.command) == sudo_name() ==> r.assignments.len() == 0 && scan_from(
                r.args,
                0,
                no_flags(),
            ) is Ok
        }),
{
    let g = spec_classify(euid, argv, env)->0;
    lemma_scan_shape(argv, env, 0, scan_start());
    lemma_collected(argv, env, 0, scan_start());
    let s = scan_shim(argv, env, 0, scan_start())->Stopped_0;
    let k = scan_shim(argv, env, 0, scan_start())->Stopped_1->0;
    let xs = s.assigns.map_values(|p: Pair| assignment_token(p));
    let tail = argv.skip(k);
    reveal_strlit("--");
    assert(ascii_of("--"@) =~= dash_dash());
    assert(g == seq![ascii_of(GATE@), ascii_of("--"@)] + xs + tail);
    assert(g.drop_first() =~= seq![dash_dash()] + (xs + tail));
    assert(tail[0] == argv[k]);
    lemma_direct_parse(s.assigns, tail);
    assert(tail.skip(1) =~= argv.skip(k + 1));
    if spec_basename(argv[k]) == sudo_name() {
        assert(s.assigns =~= Seq::<Pair>::empty());
        assert(dedup(s.assigns) == Seq::<Pair>::empty());
    }
}

/// Every request the shim sends to sudo-prompt is one sudo-prompt accepts. A request forwarded as
/// typed is read with the command and arguments the shim saw, given what
/// [`direct_request_fits`] asks of it; one routed through the real sudo passes sudo-prompt's
/// interpreter whitelist too, unless the shim's scan stops on `-u`, `-g`, `--user` or `--group`
/// as the last token, an option with no value (`sudo -i -u`), which the whitelist refuses. An argv
/// that merely ends with such a token as an argument of the command (`sudo -i id -u`) is accepted.
#[verifier::spinoff_prover]
pub proof fn shim_requests_are_ones_sudo_prompt_accepts(euid: u32, argv: Seq<Seq<u8>>, env: Seq<Pair>)
    requires
        direct_request_fits(argv, env),
    ensures
        spec_classify(euid, argv, env) matches Some(g) ==> {
            let a = g.drop_first();
            let r = parsed(a);
            &&& parse_error(a) is None
            &&& spec_basename(r.command) == sudo_name() ==> r.assignments.len() == 0 && (scan_from(
                r.args,
                0,
                no_flags(),
            ) is Ok || stops_on_bare_option(argv, env, 0, scan_start()))
            &&& match scan_shim(argv, env, 0, scan_start()) {
                ScanEnd::Stopped(s, Some(k)) => !s.interpreter ==> r.command == argv[k] && r.args
                    == argv.skip(k + 1),
                _ => true,
            }
        },
{
    if spec_classify(euid, argv, env) is Some {
        if let ScanEnd::Stopped(s, _) = scan_shim(argv, env, 0, scan_start()) {
            if s.interpreter {
                lemma_routed_path(euid, argv, env);
            } else {
                lemma_direct_path(euid, argv, env);
            }
        }
    }
}

/// A leading `NAME=value` is read as an assignment, lowercase names included: sudo-prompt accepts
/// `-- NAME=value COMMAND ARGS...` for a NAME of letters, digits and underscores not starting with
/// a digit (and not naming a `SUDO_*` variable), and reads that one assignment, that command and
/// those arguments.
pub proof fn a_leading_assignment_is_read_as_one(name: Seq<u8>, value: Seq<u8>, command: Seq<u8>, args: Seq<Seq<u8>>)
    requires
        name.len() > 0,
        (0x41 <= name[0] <= 0x5A) || (0x61 <= name[0] <= 0x7A) || name[0] == 0x5F,
        forall|i: int| 0 <= i < name.len() ==> crate::cli::name_byte(#[trigger] name[i]),
        !has_prefix(name, sudo_prefix()),
        command.len() > 0,
        spec_split(command) is None,
        spec_basename(command) != sudoedit(),
    ensures
        ({
            let argv = seq![dash_dash(), name + seq![0x3Du8] + value, command] + args;
            &&& parse_error(argv) is None
            &&& parsed(argv).assignments == seq![(name, value)]
            &&& parsed(argv).command == command
            &&& parsed(argv).args == args
        }),
{
    crate::cli::names_are_letters_digits_and_underscores(name);
    let p: Pair = (name, value);
    let ps = seq![p];
    assert(all_valid(ps));
    let tail = seq![command] + args;
    lemma_direct_parse(ps, tail);
    let xs = ps.map_values(|q: Pair| assignment_token(q));
    assert(assignment_token(p) =~= name + seq![0x3Du8] + value);
    assert(xs[0] == assignment_token(p));
    assert(xs =~= seq![name + seq![0x3Du8] + value]);
    assert(seq![dash_dash(), name + seq![0x3Du8] + value, command] + args =~= seq![dash_dash()] + (xs + tail));
    assert(tail.skip(1) =~= args);
    assert(ps.drop_last() =~= Seq::<Pair>::empty());
    assert(dedup(Seq::<Pair>::empty()) == Seq::<Pair>::empty());
    assert(without_name(Seq::<Pair>::empty(), name) == Seq::<Pair>::empty());
    assert(dedup(ps) =~= seq![p]);
}

} // verus!
