//! What a `stat` (or `lstat`) of a path said, as plain values, and the ownership checks sudo-prompt
//! makes on the directories, sockets and lock file it trusts.

use vstd::prelude::*;
use vstd::string::*;

use crate::text::{append, decimal, decimal_string};

verus! {

#[derive(Clone, Copy, Debug, PartialEq, Eq, Structural)]
pub enum FileKind {
    Regular,
    Directory,
    Socket,
    /// Seen through `lstat`, so the link itself rather than what it points to.
    Symlink,
    Other,
}

#[derive(Clone, Copy, Debug, PartialEq, Eq)]
pub struct FileInfo {
    pub kind: FileKind,
    /// Owner uid.
    pub uid: u32,
    /// Permission bits, as `st_mode` has them.
    pub mode: u32,
}

/// `S_IWGRP | S_IWOTH`.
pub const GROUP_OR_OTHER_WRITE: u32 = 0o022;

pub open spec fn group_or_other_writable(mode: u32) -> bool {
    mode & GROUP_OR_OTHER_WRITE != 0
}

pub fn writable_by_others(info: &FileInfo) -> (r: bool)
    ensures
        r == group_or_other_writable(info.mode),
{
    info.mode & GROUP_OR_OTHER_WRITE != 0
}

/// `"{path} is owned by uid {uid}, not {expect}"`.
pub open spec fn owned_by(path: Seq<char>, uid: u32, expect: u32) -> Seq<char> {
    path + " is owned by uid "@ + decimal(uid as nat) + ", not "@ + decimal(expect as nat)
}

pub fn owned_by_message(path: &str, uid: u32, expect: u32) -> (s: String)
    ensures
        s@ == owned_by(path@, uid, expect),
{
    let mut s = String::from_str(path);
    append(&mut s, " is owned by uid ");
    let u = decimal_string(uid as u64);
    append(&mut s, u.as_str());
    append(&mut s, ", not ");
    let e = decimal_string(expect as u64);
    append(&mut s, e.as_str());
    s
}

/// `path` followed by a fixed phrase.
pub fn path_message(path: &str, phrase: &str) -> (s: String)
    ensures
        s@ == path@ + phrase@,
{
    let mut s = String::from_str(path);
    append(&mut s, phrase);
    s
}

pub open spec fn unit_view(r: Result<(), String>) -> Result<(), Seq<char>> {
    match r {
        Ok(()) => Ok(()),
        Err(e) => Err(e@),
    }
}

} // verus!
