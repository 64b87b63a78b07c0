//! Interpreter requests: when COMMAND's basename is `sudo`, this request runs a second sudo as
//! root, so sudo-prompt — not the shim — decides what that inner sudo may be asked to do.
//!
//! This is a whitelist, not a blacklist, because sudo accepts unambiguous long-option
//! abbreviations: a scan looking for `-e`/`--edit` misses `--ed`, `--edi` and `--e`, all of which
//! mean `--edit` and land on an editor running as root. The whitelist denies those and every
//! future option nobody has thought about.

use vstd::prelude::*;
use vstd::string::*;

use crate::bytes::{ascii, ascii_of, bytes_eq, has_prefix, position, starts_with};
use crate::cli::{basename, seqs, spec_basename, spec_valid_name, valid_name, Request};
use crate::text::{lossy, utf8_lossy};

verus! {

#[derive(Debug, Default, Clone, Copy, PartialEq, Eq)]
pub struct Interpreter {
    /// `-u`/`-g` in any accepted spelling.
    pub as_other_user: bool,
    /// `-i` or `-s`.
    pub shell: bool,
    /// A token follows the option region.
    pub inner_command: bool,
}

/// `sudo`.
pub open spec fn sudo_name() -> Seq<u8> {
    ascii_of("sudo"@)
}

/// Is this request an interpreter request at all?
pub fn is_interpreter(req: &Request) -> (r: bool)
    ensures
        r == (spec_basename(req.command@) == sudo_name()),
{
    proof {
        reveal_strlit("sudo");
    }
    let s = ascii("sudo");
    bytes_eq(basename(req.command.as_slice()), s.as_slice())
}

/// A token of the form `NAME=...` with a valid NAME before the first `=`.
pub open spec fn spec_is_assignment(tok: Seq<u8>) -> bool {
    match crate::bytes::first_index(tok, 0x3D) {
        Some(e) => spec_valid_name(tok.take(e)),
        None => false,
    }
}

fn is_assignment(tok: &[u8]) -> (r: bool)
    ensures
        r == spec_is_assignment(tok@),
{
    match position(tok, 0x3D) {
        Some(eq) => {
            let name = vstd::slice::slice_subrange(tok, 0, eq);
            assert(name@ =~= tok@.take(eq as int));
            valid_name(name)
        },
        None => false,
    }
}

pub open spec fn is_one_of(tok: Seq<u8>, a: Seq<char>, b: Seq<char>) -> bool {
    tok == ascii_of(a) || tok == ascii_of(b)
}

/// The option region of an inner sudo's argv, scanned from token `i` with `out` found so far.
pub open spec fn scan_from(args: Seq<Seq<u8>>, i: int, out: Interpreter) -> Result<Interpreter, Seq<char>>
    decreases args.len() - i,
{
    if i < 0 || i >= args.len() {
        Ok(out)
    } else {
        let tok = args[i];
        if is_one_of(tok, "-i"@, "-s"@) {
            scan_from(args, i + 1, Interpreter { shell: true, ..out })
        } else if is_one_of(tok, "-u"@, "-g"@) || is_one_of(tok, "--user"@, "--group"@) {
            if i + 1 >= args.len() {
                Err("inner sudo option "@ + utf8_lossy(tok) + " has no argument"@)
            } else {
                scan_from(args, i + 2, Interpreter { as_other_user: true, ..out })
            }
        } else if tok == ascii_of("--"@) {
            Ok(Interpreter { inner_command: i + 1 < args.len(), ..out })
        } else if has_prefix(tok, ascii_of("--user="@)) || has_prefix(tok, ascii_of("--group="@)) {
            scan_from(args, i + 1, Interpreter { as_other_user: true, ..out })
        } else if spec_is_assignment(tok) {
            scan_from(args, i + 1, out)
        } else if has_prefix(tok, ascii_of("-"@)) {
            Err("inner sudo option "@ + utf8_lossy(tok)
                + " is not permitted (only -i, -s, -u, -g, --user, --group, NAME=value and -- are)"@)
        } else {
            Ok(Interpreter { inner_command: true, ..out })
        }
    }
}

pub open spec fn no_flags() -> Interpreter {
    Interpreter { as_other_user: false, shell: false, inner_command: false }
}

/// Scan the tokens after COMMAND. Anything unrecognised is a denial, without prompting.
pub fn scan(args: &Vec<Vec<u8>>) -> (r: Result<Interpreter, String>)
    ensures
        match r {
            Ok(i) => scan_from(seqs(args@), 0, no_flags()) == Ok::<Interpreter, Seq<char>>(i),
            Err(e) => scan_from(seqs(args@), 0, no_flags()) == Err::<Interpreter, Seq<char>>(e@),
        },
{
    proof {
        reveal_strlit("-i");
        reveal_strlit("-s");
        reveal_strlit("-u");
        reveal_strlit("-g");
        reveal_strlit("--user");
        reveal_strlit("--group");
        reveal_strlit("--");
        reveal_strlit("--user=");
        reveal_strlit("--group=");
        reveal_strlit("-");
    }
    let opt_i = ascii("-i");
    let opt_s = ascii("-s");
    let opt_u = ascii("-u");
    let opt_g = ascii("-g");
    let opt_user = ascii("--user");
    let opt_group = ascii("--group");
    let dd = ascii("--");
    let user_eq = ascii("--user=");
    let group_eq = ascii("--group=");
    let dash = ascii("-");
    let ghost all = seqs(args@);
    let mut out = Interpreter { as_other_user: false, shell: false, inner_command: false };
    let mut i: usize = 0;
    let n = args.len();
    while i < n
        invariant
            n == args@.len(),
            all == seqs(args@),
            i <= n,
            opt_i@ == ascii_of("-i"@),
            opt_s@ == ascii_of("-s"@),
            opt_u@ == ascii_of("-u"@),
            opt_g@ == ascii_of("-g"@),
            opt_user@ == ascii_of("--user"@),
            opt_group@ == ascii_of("--group"@),
            dd@ == ascii_of("--"@),
            user_eq@ == ascii_of("--user="@),
            group_eq@ == ascii_of("--group="@),
            dash@ == ascii_of("-"@),
            scan_from(all, 0, no_flags()) == scan_from(all, i as int, out),
        decreases n - i,
    {
        let tok = args[i].as_slice();
        assert(tok@ == all[i as int]);
        if bytes_eq(tok, opt_i.as_slice()) || bytes_eq(tok, opt_s.as_slice()) {
            out.shell = true;
        } else if bytes_eq(tok, opt_u.as_slice()) || bytes_eq(tok, opt_g.as_slice()) || bytes_eq(
            tok,
            opt_user.as_slice(),
        ) || bytes_eq(tok, opt_group.as_slice()) {
            out.as_other_user = true;
            if i + 1 >= n {
                let mut msg = String::from_str("inner sudo option ");
                let shown = lossy(tok);
                msg.append(shown.as_str());
                msg.append(" has no argument");
                return Err(msg);
            }
            i = i + 1;
        } else if bytes_eq(tok, dd.as_slice()) {
            out.inner_command = i + 1 < n;
            return Ok(out);
        } else if starts_with(tok, user_eq.as_slice()) || starts_with(tok, group_eq.as_slice()) {
            out.as_other_user = true;
        } else if is_assignment(tok) {
        } else if starts_with(tok, dash.as_slice()) {
            let mut msg = String::from_str("inner sudo option ");
            let shown = lossy(tok);
            msg.append(shown.as_str());
            msg.append(
                " is not permitted (only -i, -s, -u, -g, --user, --group, NAME=value and -- are)",
            );
            return Err(msg);
        } else {
            out.inner_command = true;
            return Ok(out);
        }
        i = i + 1;
    }
    Ok(out)
}

/// The lines of the trusted warning for a scan result.
pub open spec fn spec_prose(i: Interpreter) -> Seq<Seq<char>> {
    let first = seq!["Runs a second sudo as root."@];
    if i.shell {
        first + seq!["Gives an interactive root shell: nothing it then runs will prompt again."@]
            + (if i.as_other_user {
            seq!["The shell runs as another user or group, and still never prompts again."@]
        } else {
            seq![]
        }) + (if i.inner_command {
            seq!["The arguments below are shell code, not a command."@]
        } else {
            seq![]
        })
    } else if i.as_other_user {
        first + seq!["Runs the command below as another user or group."@]
    } else {
        first
    }
}

/// The text of a list of string slices.
pub open spec fn strs(v: Seq<&'static str>) -> Seq<Seq<char>> {
    v.map_values(|s: &'static str| s@)
}

/// Fixed compiled-in prose for the trusted warning field, picked from the scan's own result and
/// never built out of the request text.
pub fn prose(i: &Interpreter) -> (r: Vec<&'static str>)
    ensures
        strs(r@) == spec_prose(*i),
{
    let mut out: Vec<&'static str> = vec!["Runs a second sudo as root."];
    if i.shell {
        out.push("Gives an interactive root shell: nothing it then runs will prompt again.");
        if i.as_other_user {
            out.push("The shell runs as another user or group, and still never prompts again.");
        }
        if i.inner_command {
            out.push("The arguments below are shell code, not a command.");
        }
    } else if i.as_other_user {
        out.push("Runs the command below as another user or group.");
    }
    assert(strs(out@) =~= spec_prose(*i));
    out
}

/// Each flag of an interpreter request adds its own warning line, independently of the others:
/// the warning always opens with the second sudo; a shell adds the shell line, and with it the
/// other-user line whenever `-u`/`-g` was given and the shell-code line whenever a command follows;
/// without a shell, `-u`/`-g` adds the command-as-another-user line. Nothing else is added.
pub proof fn each_flag_adds_its_own_warning(i: Interpreter)
    ensures
        spec_prose(i)[0] == "Runs a second sudo as root."@,
        spec_prose(i).len() == 1 + (if i.shell {
            1 + (if i.as_other_user { 1int } else { 0 }) + (if i.inner_command { 1int } else { 0 })
        } else if i.as_other_user {
            1int
        } else {
            0
        }),
        i.shell ==> spec_prose(i).contains(
            "Gives an interactive root shell: nothing it then runs will prompt again."@,
        ),
        i.shell && i.as_other_user ==> spec_prose(i).contains(
            "The shell runs as another user or group, and still never prompts again."@,
        ),
        i.shell && i.inner_command ==> spec_prose(i).contains(
            "The arguments below are shell code, not a command."@,
        ),
        !i.shell && i.as_other_user ==> spec_prose(i).contains(
            "Runs the command below as another user or group."@,
        ),
{
    let p = spec_prose(i);
    if i.shell {
        assert(p[1] == "Gives an interactive root shell: nothing it then runs will prompt again."@);
        if i.as_other_user {
            assert(p[2] == "The shell runs as another user or group, and still never prompts again."@);
        }
        if i.inner_command {
            let k: int = if i.as_other_user { 3 } else { 2 };
            assert(p[k] == "The arguments below are shell code, not a command."@);
        }
    } else if i.as_other_user {
        assert(p[1] == "Runs the command below as another user or group."@);
    }
}

} // verus!
