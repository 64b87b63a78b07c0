//! sudo-prompt's complete production interface:
//!
//! ```text
//! sudo-prompt -- [NAME=value ...] COMMAND [ARGS...]
//! ```
//!
//! There are no other options. A sudoers-approved binary with prompt options would let a requester
//! disable the settle delay, pick a weaker surface, or narrate a privileged action as something
//! harmless.

use vstd::prelude::*;
use vstd::slice::{slice_subrange, slice_to_vec};
use vstd::string::*;

use crate::cmdenv::{last_value, names_unique};
use crate::bytes::{ascii, ascii_of, bytes_eq, has_prefix, position, rposition, starts_with};
use crate::text::{lossy, utf8_lossy};

verus! {

#[derive(Debug, Clone, PartialEq, Eq)]
pub struct Assignment {
    pub name: Vec<u8>,
    pub value: Vec<u8>,
}

#[derive(Debug, Clone, PartialEq, Eq)]
pub struct Request {
    /// Environment assignments for the command, deduplicated by name with the last winning.
    pub assignments: Vec<Assignment>,
    pub command: Vec<u8>,
    pub args: Vec<Vec<u8>>,
}

/// A name and a value.
pub type Pair = (Seq<u8>, Seq<u8>);

/// The byte strings of a list of byte vectors.
pub open spec fn seqs(v: Seq<Vec<u8>>) -> Seq<Seq<u8>> {
    v.map_values(|x: Vec<u8>| x@)
}

/// The name/value pairs of a list of assignments.
pub open spec fn pairs(v: Seq<Assignment>) -> Seq<Pair> {
    v.map_values(|a: Assignment| (a.name@, a.value@))
}

/// What a request says, as plain sequences.
pub struct RequestView {
    pub assignments: Seq<Pair>,
    pub command: Seq<u8>,
    pub args: Seq<Seq<u8>>,
}

impl View for Request {
    type V = RequestView;

    open spec fn view(&self) -> RequestView {
        RequestView {
            assignments: pairs(self.assignments@),
            command: self.command@,
            args: seqs(self.args@),
        }
    }
}

/// `parts` joined with single spaces.
pub open spec fn space_joined(first: Seq<u8>, rest: Seq<Seq<u8>>) -> Seq<u8>
    decreases rest.len(),
{
    if rest.len() == 0 {
        first
    } else {
        space_joined(first, rest.drop_last()).push(0x20) + rest.last()
    }
}

impl Request {
    /// The command line as stock sudo records it in SUDO_COMMAND: space joined, no assignments,
    /// raw bytes rather than the escaped display form.
    pub fn sudo_command(&self) -> (out: Vec<u8>)
        ensures
            out@ == space_joined(self.command@, seqs(self.args@)),
    {
        let mut out = slice_to_vec(self.command.as_slice());
        let n = self.args.len();
        for i in 0..n
            invariant
                n == self.args@.len(),
                out@ == space_joined(self.command@, seqs(self.args@).take(i as int)),
        {
            out.push(0x20);
            crate::bytes::extend(&mut out, self.args[i].as_slice());
            assert(seqs(self.args@).take(i + 1).drop_last() =~= seqs(self.args@).take(i as int));
        }
        assert(seqs(self.args@).take(n as int) =~= seqs(self.args@));
        out
    }
}

/// What follows the last `/` of `path`, or all of it.
pub open spec fn spec_basename(path: Seq<u8>) -> Seq<u8> {
    if exists|i: int| 0 <= i < path.len() && path[i] == 0x2F {
        let i = choose|i: int|
            0 <= i < path.len() && path[i] == 0x2F && forall|j: int| i < j < path.len() ==> path[j] != 0x2F;
        path.skip(i + 1)
    } else {
        path
    }
}

pub fn basename(path: &[u8]) -> (b: &[u8])
    ensures
        b@ == spec_basename(path@),
{
    let n = path.len();
    match rposition(path, 0x2F) {
        Some(i) => {
            assert(i < n);
            proof {
                let w = choose|k: int|
                    0 <= k < path@.len() && path@[k] == 0x2F && forall|j: int| k < j < path@.len() ==> path@[j] != 0x2F;
                assert(0 <= i < path@.len() && path@[i as int] == 0x2F);
                if w < i {
                    assert(path@[i as int] != 0x2F);
                } else if w > i {
                    assert(path@[w] != 0x2F);
                }
            }
            slice_subrange(path, i + 1, n)
        },
        None => path,
    }
}

pub open spec fn is_alpha(b: u8) -> bool {
    (0x41 <= b <= 0x5A) || (0x61 <= b <= 0x7A)
}

pub open spec fn is_digit(b: u8) -> bool {
    0x30 <= b <= 0x39
}

/// `[A-Za-z_][A-Za-z0-9_]*`.
pub open spec fn spec_valid_name(name: Seq<u8>) -> bool {
    &&& name.len() > 0
    &&& (is_alpha(name[0]) || name[0] == 0x5F)
    &&& forall|i: int| 0 <= i < name.len() ==> is_alpha(name[i]) || is_digit(name[i]) || name[i] == 0x5F
}

pub fn valid_name(name: &[u8]) -> (r: bool)
    ensures
        r == spec_valid_name(name@),
{
    if name.len() == 0 {
        return false;
    }
    let b0 = name[0];
    if !((0x41 <= b0 && b0 <= 0x5A) || (0x61 <= b0 && b0 <= 0x7A) || b0 == 0x5F) {
        return false;
    }
    let n = name.len();
    for i in 0..n
        invariant
            n == name@.len(),
            forall|j: int| 0 <= j < i ==> is_alpha(name@[j]) || is_digit(name@[j]) || name@[j] == 0x5F,
    {
        let b = name[i];
        if !((0x41 <= b && b <= 0x5A) || (0x61 <= b && b <= 0x7A) || (0x30 <= b && b <= 0x39)
            || b == 0x5F) {
            return false;
        }
    }
    true
}

/// Sudo's reading of a token as an environment assignment: a valid NAME followed by `=`, split at
/// the first `=`. So `./a=b` is a command and not a malformed assignment.
pub open spec fn spec_split(token: Seq<u8>) -> Option<Pair> {
    match crate::bytes::first_index(token, 0x3D) {
        Some(e) => if spec_valid_name(token.take(e)) {
            Some((token.take(e), token.skip(e + 1)))
        } else {
            None
        },
        None => None,
    }
}

pub fn split_assignment(token: &[u8]) -> (r: Option<(&[u8], &[u8])>)
    ensures
        match r {
            Some((n, v)) => spec_split(token@) == Some((n@, v@)),
            None => spec_split(token@) is None,
        },
{
    let eq = match position(token, 0x3D) {
        Some(e) => e,
        None => return None,
    };
    let n = token.len();
    assert(eq < n);
    let name = slice_subrange(token, 0, eq);
    if !valid_name(name) {
        return None;
    }
    let value = slice_subrange(token, eq + 1, n);
    assert(name@ =~= token@.take(eq as int));
    assert(value@ =~= token@.skip(eq + 1));
    Some((name, value))
}

/// `list` without the pairs named `name`, order kept.
pub open spec fn without_name(list: Seq<Pair>, name: Seq<u8>) -> Seq<Pair>
    decreases list.len(),
{
    if list.len() == 0 {
        seq![]
    } else {
        let r = without_name(list.drop_last(), name);
        if list.last().0 == name {
            r
        } else {
            r.push(list.last())
        }
    }
}

/// Applies one assignment: the last occurrence of a name wins, and takes the position of the last
/// occurrence.
pub open spec fn last_wins(list: Seq<Pair>, a: Pair) -> Seq<Pair> {
    without_name(list, a.0).push(a)
}

/// Applies a list of assignments in order to an empty list.
pub open spec fn dedup(assigns: Seq<Pair>) -> Seq<Pair>
    decreases assigns.len(),
{
    if assigns.len() == 0 {
        seq![]
    } else {
        last_wins(dedup(assigns.drop_last()), assigns.last())
    }
}

/// Number of leading tokens that read as assignments.
pub open spec fn leading_assignments(tokens: Seq<Seq<u8>>) -> nat
    decreases tokens.len(),
{
    if tokens.len() == 0 {
        0
    } else if spec_split(tokens[0]) is Some {
        1 + leading_assignments(tokens.drop_first())
    } else {
        0
    }
}

/// The pairs of the first `k` tokens, each of which reads as an assignment.
pub open spec fn split_all(tokens: Seq<Seq<u8>>) -> Seq<Pair> {
    tokens.map_values(|t: Seq<u8>| spec_split(t)->0)
}

pub open spec fn dash_dash() -> Seq<u8> {
    seq![0x2Du8, 0x2D]
}

/// `SUDO_`.
pub open spec fn sudo_prefix() -> Seq<u8> {
    ascii_of("SUDO_"@)
}

/// `sudoedit`.
pub open spec fn sudoedit() -> Seq<u8> {
    ascii_of("sudoedit"@)
}

/// Why sudo-prompt refuses an argv, if it does.
pub open spec fn parse_error(argv: Seq<Seq<u8>>) -> Option<Seq<char>> {
    let rest = argv.drop_first();
    let k = leading_assignments(rest);
    let assigns = split_all(rest.take(k as int));
    if argv.len() == 0 {
        Some("empty argv: expected `-- [NAME=value ...] COMMAND [ARGS...]`"@)
    } else if argv[0] != dash_dash() {
        if argv.contains(dash_dash()) {
            Some("unexpected argument before the `--` delimiter"@)
        } else {
            Some("missing the `--` delimiter"@)
        }
    } else if rest.len() == 0 {
        Some("nothing after the `--` delimiter"@)
    } else if exists|i: int| 0 <= i < k && has_prefix(assigns[i].0, sudo_prefix()) {
        let i = choose|i: int|
            0 <= i < k && has_prefix(assigns[i].0, sudo_prefix()) && forall|j: int|
                0 <= j < i ==> !has_prefix(assigns[j].0, sudo_prefix());
        Some("request assigns "@ + utf8_lossy(assigns[i].0)
            + ": SUDO_* is set by sudo-prompt and cannot be requested"@)
    } else if k == rest.len() {
        Some("request contains only environment assignments, no command"@)
    } else if rest[k as int].len() == 0 {
        Some("empty COMMAND"@)
    } else if spec_basename(rest[k as int]) == sudoedit() {
        Some("sudoedit is not a supported request"@)
    } else {
        None
    }
}

/// The request an accepted argv makes.
pub open spec fn parsed(argv: Seq<Seq<u8>>) -> RequestView {
    let rest = argv.drop_first();
    let k = leading_assignments(rest);
    RequestView {
        assignments: dedup(split_all(rest.take(k as int))),
        command: rest[k as int],
        args: rest.skip(k as int + 1),
    }
}

proof fn lemma_leading_step(tokens: Seq<Seq<u8>>, i: int)
    requires
        0 <= i <= leading_assignments(tokens),
    ensures
        leading_assignments(tokens) <= tokens.len(),
        forall|j: int| 0 <= j < leading_assignments(tokens) ==> spec_split(#[trigger] tokens[j]) is Some,
        i < tokens.len() && spec_split(tokens[i]) is None ==> leading_assignments(tokens) == i,
        i == tokens.len() ==> leading_assignments(tokens) == i,
        i < tokens.len() && spec_split(tokens[i]) is Some ==> i < leading_assignments(tokens),
    decreases tokens.len(),
{
    if tokens.len() > 0 && spec_split(tokens[0]) is Some {
        let t = tokens.drop_first();
        if i > 0 {
            lemma_leading_step(t, i - 1);
        } else {
            lemma_leading_step(t, 0);
        }
        assert forall|j: int| 0 <= j < leading_assignments(tokens) implies spec_split(#[trigger] tokens[j]) is Some by {
            if j > 0 {
                assert(tokens[j] == t[j - 1]);
            }
        }
    }
}

/// Removes every assignment named `name`, keeping the order of the rest.
fn remove_name(list: &mut Vec<Assignment>, name: &[u8])
    ensures
        pairs(final(list)@) == without_name(pairs(old(list)@), name@),
{
    let mut kept: Vec<Assignment> = Vec::new();
    let ghost orig = pairs(list@);
    while list.len() > 0
        invariant
            without_name(orig, name@) == without_name(pairs(list@), name@) + pairs(kept@).reverse(),
        decreases list@.len(),
    {
        let ghost before = pairs(list@);
        let a = list.pop().unwrap();
        proof {
            assert(pairs(list@) =~= before.drop_last());
            assert(before.last() == (a.name@, a.value@));
        }
        if !bytes_eq(a.name.as_slice(), name) {
            let ghost k0 = pairs(kept@);
            kept.push(a);
            assert(pairs(kept@) =~= k0.push(before.last()));
            assert(pairs(kept@).reverse() =~= seq![before.last()] + k0.reverse());
            assert(without_name(before, name@) =~= without_name(pairs(list@), name@).push(before.last()));
        }
    }
    assert(without_name(Seq::<Pair>::empty(), name@) =~= Seq::<Pair>::empty());
    while kept.len() > 0
        invariant
            without_name(orig, name@) == pairs(list@) + pairs(kept@).reverse(),
        decreases kept@.len(),
    {
        let ghost k0 = pairs(kept@);
        let ghost l0 = pairs(list@);
        let a = kept.pop().unwrap();
        list.push(a);
        assert(pairs(kept@) =~= k0.drop_last());
        assert(pairs(list@) =~= l0.push(k0.last()));
        assert(k0.reverse() =~= seq![k0.last()] + pairs(kept@).reverse());
    }
    assert(pairs(list@) + pairs(kept@).reverse() =~= pairs(list@));
}

/// Parse sudo-prompt's argv, excluding argv[0].
#[verifier::rlimit(40)]
pub fn parse(argv: &Vec<Vec<u8>>) -> (r: Result<Request, String>)
    ensures
        match r {
            Ok(req) => parse_error(seqs(argv@)) is None && req@ == parsed(seqs(argv@)),
            Err(e) => parse_error(seqs(argv@)) == Some(e@),
        },
{
    let ghost all = seqs(argv@);
    proof {
        reveal_strlit("--");
    }
    let dd = ascii("--");
    assert(dd@ =~= dash_dash());
    if argv.len() == 0 {
        return Err(String::from_str("empty argv: expected `-- [NAME=value ...] COMMAND [ARGS...]`"));
    }
    let first_is_dd = bytes_eq(argv[0].as_slice(), dd.as_slice());
    assert(all[0] == argv@[0]@);
    if !first_is_dd {
        let n = argv.len();
        for i in 0..n
            invariant
                n == argv@.len(),
                all == seqs(argv@),
                dd@ == dash_dash(),
                all[0] != dash_dash(),
                forall|j: int| 0 <= j < i ==> all[j] != dash_dash(),
        {
            if bytes_eq(argv[i].as_slice(), dd.as_slice()) {
                assert(all[i as int] == dash_dash());
                assert(all.contains(dash_dash()));
                assert(all[0] != dash_dash());
                return Err(String::from_str("unexpected argument before the `--` delimiter"));
            }
        }
        assert(!all.contains(dash_dash()));
        return Err(String::from_str("missing the `--` delimiter"));
    }
    let ghost rest = all.drop_first();
    if argv.len() == 1 {
        return Err(String::from_str("nothing after the `--` delimiter"));
    }
    proof {
        reveal_strlit("SUDO_");
    }
    let sudo = ascii("SUDO_");
    let mut assignments: Vec<Assignment> = Vec::new();
    let mut i: usize = 1;
    let ghost k = leading_assignments(rest);
    proof {
        lemma_leading_step(rest, 0);
    }
    while i < argv.len()
        invariant_except_break
            1 <= i <= argv@.len(),
            i - 1 <= k,
        invariant
            all == seqs(argv@),
            rest == all.drop_first(),
            all[0] == dash_dash(),
            all.len() == argv@.len(),
            k == leading_assignments(rest),
            sudo@ == sudo_prefix(),
            k <= rest.len(),
            forall|j: int| 0 <= j < k ==> spec_split(#[trigger] rest[j]) is Some,
            forall|j: int| 0 <= j < i - 1 && j < k ==> !has_prefix(split_all(rest.take(k as int))[j].0, sudo_prefix()),
            pairs(assignments@) == dedup(split_all(rest.take(i - 1))),
        ensures
            i - 1 == k,
            1 <= i <= argv@.len(),
        decreases argv@.len() - i,
    {
        proof {
            lemma_leading_step(rest, i - 1);
        }
        let (name, value) = match split_assignment(argv[i].as_slice()) {
            Some(p) => p,
            None => {
                break;
            },
        };
        assert(rest[i - 1] == all[i as int]);
        assert(split_all(rest.take(k as int))[i - 1] == (name@, value@));
        if starts_with(name, sudo.as_slice()) {
            let mut msg = String::from_str("request assigns ");
            let shown = lossy(name);
            msg.append(shown.as_str());
            msg.append(": SUDO_* is set by sudo-prompt and cannot be requested");
            proof {
                let assigns = split_all(rest.take(k as int));
                let w = choose|w: int|
                    0 <= w < k && has_prefix(assigns[w].0, sudo_prefix()) && forall|j: int|
                        0 <= j < w ==> !has_prefix(assigns[j].0, sudo_prefix());
                assert(0 <= i - 1 < k && has_prefix(assigns[i - 1].0, sudo_prefix()));
                if w < i - 1 {
                } else if w > i - 1 {
                    assert(!has_prefix(assigns[i - 1].0, sudo_prefix()));
                }
            }
            assert(all[0] == dash_dash());
            assert(rest.len() > 0);
            assert(msg@ == "request assigns "@ + utf8_lossy(name@)
                + ": SUDO_* is set by sudo-prompt and cannot be requested"@);
            return Err(msg);
        }
        let ghost before = pairs(assignments@);
        remove_name(&mut assignments, name);
        assignments.push(Assignment { name: slice_to_vec(name), value: slice_to_vec(value) });
        proof {
            let s = split_all(rest.take(i as int));
            assert(s.drop_last() =~= split_all(rest.take(i - 1)));
            assert(s.last() == (name@, value@));
            assert(pairs(assignments@) =~= without_name(before, name@).push((name@, value@)));
        }
        i = i + 1;
    }
    let ghost assigns = split_all(rest.take(k as int));
    assert(!(exists|j: int| 0 <= j < k && has_prefix(assigns[j].0, sudo_prefix())));
    if i == argv.len() {
        return Err(String::from_str("request contains only environment assignments, no command"));
    }
    let command = argv[i].as_slice();
    assert(command@ == rest[k as int]);
    if command.len() == 0 {
        return Err(String::from_str("empty COMMAND"));
    }
    proof {
        reveal_strlit("sudoedit");
    }
    let se = ascii("sudoedit");
    if bytes_eq(basename(command), se.as_slice()) {
        return Err(String::from_str("sudoedit is not a supported request"));
    }
    let mut args: Vec<Vec<u8>> = Vec::new();
    let mut j = i + 1;
    while j < argv.len()
        invariant
            i + 1 <= j <= argv@.len(),
            all == seqs(argv@),
            seqs(args@) =~= all.subrange(i + 1, j as int),
        decreases argv@.len() - j,
    {
        let ghost a0 = seqs(args@);
        args.push(slice_to_vec(argv[j].as_slice()));
        assert(seqs(args@) =~= a0.push(all[j as int]));
        j = j + 1;
    }
    assert(rest.skip(k as int + 1) =~= all.subrange(i + 1, argv@.len() as int));
    Ok(Request { assignments, command: slice_to_vec(command), args })
}

proof fn lemma_without_name(list: Seq<Pair>, name: Seq<u8>, m: Seq<u8>)
    ensures
        forall|k: int| 0 <= k < without_name(list, name).len() ==> (#[trigger] without_name(list, name)[k]).0 != name
            && list.contains(without_name(list, name)[k]),
        names_unique(list) ==> names_unique(without_name(list, name)),
        last_value(without_name(list, name), m) == if m == name {
            None
        } else {
            last_value(list, m)
        },
    decreases list.len(),
{
    if list.len() > 0 {
        let d = list.drop_last();
        lemma_without_name(d, name, m);
        let r = without_name(d, name);
        let w = without_name(list, name);
        if list.last().0 != name {
            assert(w.drop_last() =~= r);
            assert(w.last() == list.last());
        }
        assert forall|k: int| 0 <= k < w.len() implies (#[trigger] w[k]).0 != name && list.contains(w[k]) by {
            if k < r.len() {
                assert(w[k] == r[k]);
                assert(d.contains(r[k]));
                let x = choose|x: int| 0 <= x < d.len() && d[x] == r[k];
                assert(list[x] == d[x]);
            } else {
                assert(w[k] == list.last());
                assert(list[list.len() - 1] == list.last());
            }
        }
        if names_unique(list) {
            assert(names_unique(d)) by {
                assert forall|a: int, b: int| 0 <= a < b < d.len() implies d[a].0 != d[b].0 by {
                    assert(d[a] == list[a] && d[b] == list[b]);
                }
            }
            if list.last().0 != name {
                assert forall|a: int, b: int| 0 <= a < b < w.len() implies w[a].0 != w[b].0 by {
                    if b == w.len() - 1 {
                        assert(w[a] == r[a]);
                        assert(d.contains(r[a]));
                        let x = choose|x: int| 0 <= x < d.len() && d[x] == r[a];
                        assert(list[x] == d[x]);
                        assert(w[b] == list[list.len() - 1]);
                    } else {
                        assert(w[a] == r[a] && w[b] == r[b]);
                    }
                }
            }
        }
    }
}

/// Repeated assignments collapse: each name is set once, to the value its last occurrence gave,
/// and every name the request assigned is still there.
pub proof fn dedup_keeps_the_last_value(assigns: Seq<Pair>, m: Seq<u8>)
    ensures
        names_unique(dedup(assigns)),
        last_value(dedup(assigns), m) == last_value(assigns, m),
    decreases assigns.len(),
{
    if assigns.len() > 0 {
        let d = dedup(assigns.drop_last());
        let a = assigns.last();
        dedup_keeps_the_last_value(assigns.drop_last(), m);
        lemma_without_name(d, a.0, m);
        let w = without_name(d, a.0);
        let r = w.push(a);
        assert(r.drop_last() =~= w);
        assert forall|x: int, y: int| 0 <= x < y < r.len() implies r[x].0 != r[y].0 by {
            if y == r.len() - 1 {
                assert(r[x] == w[x]);
            } else {
                assert(r[x] == w[x] && r[y] == w[y]);
            }
        }
    }
}

/// A byte of a NAME after the first: `A`-`Z`, `a`-`z`, `0`-`9` or `_`.
pub open spec fn name_byte(b: u8) -> bool {
    (0x41 <= b <= 0x5A) || (0x61 <= b <= 0x7A) || (0x30 <= b <= 0x39) || b == 0x5F
}

/// NAMEs are `[A-Za-z_][A-Za-z0-9_]*`, upper and lower case alike: a non-empty run of letters,
/// digits and underscores that does not start with a digit.
pub proof fn names_are_letters_digits_and_underscores(name: Seq<u8>)
    ensures
        spec_valid_name(name) <==> {
            &&& name.len() > 0
            &&& (0x41 <= name[0] <= 0x5A) || (0x61 <= name[0] <= 0x7A) || name[0] == 0x5F
            &&& forall|i: int| 0 <= i < name.len() ==> name_byte(#[trigger] name[i])
        },
{
}

} // verus!
