//! Resolving COMMAND against the PATH of the *final* environment: the request's `PATH=`
//! assignment if it carried one, else sudo-prompt's own root-controlled list. Never an inherited PATH.
//!
//! sudo-prompt resolves the command itself and then `execve`s with an explicit environment, rather
//! than letting `execvp` resolve against the live `environ`. Looking at the file system is the
//! caller's part: it probes the candidates in order and hands back what it found.

use vstd::prelude::*;
use vstd::slice::{slice_subrange, slice_to_vec};
use vstd::string::*;

use crate::bytes::{extend, first_index, position};
use crate::text::{append, lossy, utf8_lossy};

verus! {

/// What a probe of one candidate found.
#[derive(Clone, Copy, Debug, PartialEq, Eq)]
pub enum Probe {
    /// A regular file sudo-prompt may execute.
    Runnable,
    /// Nothing there, or not a regular file.
    Missing,
    /// There, but permission was refused.
    Denied,
}

/// A path element with a slash after it, unless it already ends in one.
pub open spec fn with_slash(e: Seq<u8>) -> Seq<u8> {
    if e.last() == 0x2Fu8 {
        e
    } else {
        e.push(0x2Fu8)
    }
}

/// The candidate one path element gives: none for an empty element, which is skipped rather than
/// read as the current directory (sudo's `ignore_dot` default).
pub open spec fn candidate_of(command: Seq<u8>, e: Seq<u8>) -> Seq<Seq<u8>> {
    if e.len() == 0 {
        seq![]
    } else {
        seq![with_slash(e) + command]
    }
}

/// The candidates for `command` along a colon-separated `path`, in order.
#[verifier::opaque]
pub open spec fn spec_candidates(command: Seq<u8>, path: Seq<u8>) -> Seq<Seq<u8>>
    decreases path.len(),
{
    match first_index(path, 0x3Au8) {
        None => candidate_of(command, path),
        Some(i) => if 0 <= i < path.len() {
            candidate_of(command, path.take(i)) + spec_candidates(command, path.skip(i + 1))
        } else {
            seq![]
        },
    }
}

proof fn lemma_candidates_split(command: Seq<u8>, path: Seq<u8>, i: int)
    requires
        first_index(path, 0x3Au8) == Some(i),
        0 <= i < path.len(),
    ensures
        spec_candidates(command, path) == candidate_of(command, path.take(i)) + spec_candidates(
            command,
            path.skip(i + 1),
        ),
{
    reveal(spec_candidates);
}

proof fn lemma_candidates_last(command: Seq<u8>, path: Seq<u8>)
    requires
        first_index(path, 0x3Au8) is None,
    ensures
        spec_candidates(command, path) == candidate_of(command, path),
{
    reveal(spec_candidates);
}

pub open spec fn vec_views(v: Seq<Vec<u8>>) -> Seq<Seq<u8>> {
    v.map_values(|x: Vec<u8>| x@)
}

fn push_candidate(out: &mut Vec<Vec<u8>>, command: &[u8], e: &[u8])
    ensures
        vec_views(final(out)@) == vec_views(old(out)@) + candidate_of(command@, e@),
{
    if e.len() == 0 {
        assert(vec_views(out@) =~= vec_views(out@) + candidate_of(command@, e@));
        return;
    }
    let mut c = slice_to_vec(e);
    if e[e.len() - 1] != 0x2F {
        c.push(0x2F);
    }
    assert(c@ == with_slash(e@));
    extend(&mut c, command);
    let ghost before = vec_views(out@);
    out.push(c);
    assert(vec_views(out@) =~= before + candidate_of(command@, e@));
}

/// The candidates for `command` along `path_var`, in the order they are tried.
pub fn candidates(command: &[u8], path_var: &[u8]) -> (r: Vec<Vec<u8>>)
    ensures
        vec_views(r@) == spec_candidates(command@, path_var@),
{
    let mut out: Vec<Vec<u8>> = Vec::new();
    let mut pos: usize = 0;
    assert(path_var@.skip(0) =~= path_var@);
    assert(vec_views(out@) =~= Seq::<Seq<u8>>::empty());
    loop
        invariant
            pos <= path_var@.len(),
            vec_views(out@) + spec_candidates(command@, path_var@.skip(pos as int)) == spec_candidates(
                command@,
                path_var@,
            ),
        decreases path_var@.len() - pos,
    {
        let rest = slice_subrange(path_var, pos, path_var.len());
        assert(rest@ =~= path_var@.skip(pos as int));
        let ghost before = vec_views(out@);
        let ghost whole = spec_candidates(command@, path_var@);
        match position(rest, 0x3A) {
            None => {
                proof {
                    lemma_candidates_last(command@, rest@);
                }
                push_candidate(&mut out, command, rest);
                assert(vec_views(out@) =~= whole);
                return out;
            },
            Some(i) => {
                let e = slice_subrange(rest, 0, i);
                assert(e@ =~= rest@.take(i as int));
                proof {
                    lemma_candidates_split(command@, rest@, i as int);
                }
                push_candidate(&mut out, command, e);
                assert(rest@.skip(i + 1) =~= path_var@.skip(pos + i + 1));
                let ghost tail = spec_candidates(command@, path_var@.skip(pos + i + 1));
                let ghost head = candidate_of(command@, rest@.take(i as int));
                assert(vec_views(out@) == before + head);
                assert(before + (head + tail) =~= (before + head) + tail);
                pos = pos + i + 1;
            },
        }
    }
}

pub open spec fn has_slash(command: Seq<u8>) -> bool {
    command.contains(0x2Fu8)
}

/// `"{command}: found on PATH but not executable"`.
pub open spec fn not_executable(command: Seq<u8>) -> Seq<char> {
    utf8_lossy(command) + ": found on PATH but not executable"@
}

/// `"{command}: command not found on PATH"`.
pub open spec fn not_found(command: Seq<u8>) -> Seq<char> {
    utf8_lossy(command) + ": command not found on PATH"@
}

/// What a resolution comes to, given the probes of the first candidates in order: the first
/// runnable candidate wins, and a later match wins over an earlier permission error. A command
/// with a slash in it is used as it is: the human approves whatever that path holds at exec time,
/// the same contract stock sudo offers.
pub open spec fn resolved(command: Seq<u8>, path: Seq<u8>, probes: Seq<Probe>, r: Result<Seq<u8>, Seq<char>>) -> bool {
    if has_slash(command) {
        r == Ok::<Seq<u8>, Seq<char>>(command)
    } else {
        let cs = spec_candidates(command, path);
        let k = if probes.len() < cs.len() { probes.len() } else { cs.len() };
        match r {
            Ok(c) => exists|i: int|
                0 <= i < k && probes[i] == Probe::Runnable && (forall|j: int| 0 <= j < i ==> probes[j] != Probe::Runnable)
                    && c == #[trigger] cs[i],
            Err(e) => (forall|j: int| 0 <= j < k ==> probes[j] != Probe::Runnable) && e == if exists|j: int|
                0 <= j < k && probes[j] == Probe::Denied {
                not_executable(command)
            } else {
                not_found(command)
            },
        }
    }
}

pub open spec fn resolution_view(r: Result<Vec<u8>, String>) -> Result<Seq<u8>, Seq<char>> {
    match r {
        Ok(c) => Ok(c@),
        Err(e) => Err(e@),
    }
}

/// Resolve `command` along `path_var`, given what probing the candidates (in the order
/// [`candidates`] lists them) found. Probes past the last candidate are ignored; a caller may stop
/// probing at the first runnable one.
pub fn resolve(command: &[u8], path_var: &[u8], probes: &Vec<Probe>) -> (r: Result<Vec<u8>, String>)
    ensures
        resolved(command@, path_var@, probes@, resolution_view(r)),
{
    if position(command, 0x2F).is_some() {
        return Ok(slice_to_vec(command));
    }
    let cs = candidates(command, path_var);
    let k = if probes.len() < cs.len() { probes.len() } else { cs.len() };
    let ghost cv = spec_candidates(command@, path_var@);
    let mut denied = false;
    for i in 0..k
        invariant
            k <= probes@.len(),
            k <= cs@.len(),
            vec_views(cs@) == cv,
            cv == spec_candidates(command@, path_var@),
            !has_slash(command@),
            forall|j: int| 0 <= j < i ==> probes@[j] != Probe::Runnable,
            denied == exists|j: int| 0 <= j < i && probes@[j] == Probe::Denied,
    {
        match probes[i] {
            Probe::Runnable => {
                let c = slice_to_vec(cs[i].as_slice());
                assert(c@ == cv[i as int]);
                return Ok(c);
            },
            Probe::Denied => {
                denied = true;
            },
            Probe::Missing => {},
        }
    }
    let mut e = lossy(command);
    if denied {
        append(&mut e, ": found on PATH but not executable");
    } else {
        append(&mut e, ": command not found on PATH");
    }
    Err(e)
}

} // verus!
