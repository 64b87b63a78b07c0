//! Display selection.
//!
//! Caller XDG_RUNTIME_DIR and WAYLAND_DISPLAY are ignored; there is no --auto-display. sudo-prompt
//! looks only in root's runtime directory, takes the lowest-numbered `wayland-N` socket in it, and
//! confirms the peer with SO_PEERCRED. Reading the directory and connecting are the caller's part;
//! the checks on what it found are here.

use vstd::prelude::*;
use vstd::string::*;

use crate::bytes::{ascii, ascii_of, has_prefix, starts_with};
use crate::fileinfo::{
    group_or_other_writable, owned_by, owned_by_message, path_message, unit_view, writable_by_others,
    FileInfo, FileKind,
};
use crate::gate::{all_digits, digits_value, parse_u32, unsigned_part};
use crate::text::{append, decimal, decimal_string};

verus! {

/// `wayland-N` where N is a decimal number that fits a `u32`.
pub open spec fn spec_wayland_number(name: Seq<u8>) -> Option<u32> {
    let prefix = ascii_of("wayland-"@);
    if has_prefix(name, prefix) {
        let rest = name.skip(prefix.len() as int);
        if rest.len() > 0 && all_digits(rest) && digits_value(rest) <= u32::MAX {
            Some(digits_value(rest) as u32)
        } else {
            None
        }
    } else {
        None
    }
}

pub fn wayland_number(name: &[u8]) -> (r: Option<u32>)
    ensures
        r == spec_wayland_number(name@),
{
    proof {
        reveal_strlit("wayland-");
    }
    let prefix = ascii("wayland-");
    if !starts_with(name, prefix.as_slice()) {
        return None;
    }
    let rest = vstd::slice::slice_subrange(name, prefix.len(), name.len());
    assert(rest@ =~= name@.skip(prefix@.len() as int));
    if rest.len() == 0 {
        return None;
    }
    // Every byte a digit: no sign, so std's reading is exactly the decimal value when it fits.
    let mut i: usize = 0;
    while i < rest.len()
        invariant
            i <= rest@.len(),
            rest@.len() > 0,
            prefix@ == ascii_of("wayland-"@),
            has_prefix(name@, prefix@),
            rest@ == name@.skip(prefix@.len() as int),
            forall|k: int| 0 <= k < i ==> crate::gate::is_digit_byte(#[trigger] rest@[k]),
        decreases rest@.len() - i,
    {
        if rest[i] < 0x30 || rest[i] > 0x39 {
            assert(!all_digits(rest@));
            return None;
        }
        i += 1;
    }
    assert(unsigned_part(rest@) == rest@);
    parse_u32(rest)
}

/// The index of the socket to use: the lowest `wayland-N`, and of equal numbers the one listed
/// first. The others are not probed: a stale socket from a dead compositor fails sudo-prompt until it
/// is removed, which is accepted deliberately.
pub open spec fn is_lowest(names: Seq<Seq<u8>>, i: int) -> bool {
    &&& 0 <= i < names.len()
    &&& spec_wayland_number(names[i]) is Some
    &&& forall|j: int|
        0 <= j < names.len() && (#[trigger] spec_wayland_number(names[j])) is Some ==> {
            let n = spec_wayland_number(names[i])->0;
            let m = spec_wayland_number(names[j])->0;
            n < m || (n == m && i <= j)
        }
}

pub open spec fn name_views(v: Seq<Vec<u8>>) -> Seq<Seq<u8>> {
    v.map_values(|x: Vec<u8>| x@)
}

pub fn lowest(names: &Vec<Vec<u8>>) -> (r: Option<usize>)
    ensures
        match r {
            Some(i) => is_lowest(name_views(names@), i as int),
            None => forall|j: int| 0 <= j < names@.len() ==> (#[trigger] spec_wayland_number(names@[j]@)) is None,
        },
{
    let ghost nv = name_views(names@);
    let mut best: Option<(usize, u32)> = None;
    let n = names.len();
    for k in 0..n
        invariant
            n == names@.len(),
            nv == name_views(names@),
            match best {
                Some((i, v)) => i < k && spec_wayland_number(nv[i as int]) == Some(v) && forall|j: int|
                    0 <= j < k && (#[trigger] spec_wayland_number(nv[j])) is Some ==> {
                        let m = spec_wayland_number(nv[j])->0;
                        v < m || (v == m && i <= j)
                    },
                None => forall|j: int| 0 <= j < k ==> (#[trigger] spec_wayland_number(nv[j])) is None,
            },
    {
        assert(nv[k as int] == names@[k as int]@);
        match wayland_number(names[k].as_slice()) {
            Some(m) => {
                match best {
                    Some((_, v)) => {
                        if m < v {
                            best = Some((k, m));
                        }
                    },
                    None => {
                        best = Some((k, m));
                    },
                }
            },
            None => {},
        }
    }
    match best {
        Some((i, _)) => Some(i),
        None => {
            assert forall|j: int| 0 <= j < names@.len() implies (#[trigger] spec_wayland_number(names@[j]@)) is None by {
                assert(nv[j] == names@[j]@);
            }
            None
        },
    }
}

/// `"no wayland-N socket in {dir}"`.
pub fn no_socket(dir: &str) -> (s: String)
    ensures
        s@ == "no wayland-N socket in "@ + dir@,
{
    let mut s = String::from_str("no wayland-N socket in ");
    append(&mut s, dir);
    s
}

/// The checks on the runtime directory, in order.
pub open spec fn spec_check_dir(info: FileInfo, path: Seq<char>, expect: u32) -> Result<(), Seq<char>> {
    if info.kind == FileKind::Symlink {
        Err(path + " is a symlink"@)
    } else if info.kind != FileKind::Directory {
        Err(path + " is not a directory"@)
    } else if info.uid != expect {
        Err(owned_by(path, info.uid, expect))
    } else if group_or_other_writable(info.mode) {
        Err(path + " is group or other writable"@)
    } else {
        Ok(())
    }
}

pub fn check_dir(info: &FileInfo, path: &str, expect: u32) -> (r: Result<(), String>)
    ensures
        unit_view(r) == spec_check_dir(*info, path@, expect),
{
    if info.kind == FileKind::Symlink {
        return Err(path_message(path, " is a symlink"));
    }
    if info.kind != FileKind::Directory {
        return Err(path_message(path, " is not a directory"));
    }
    if info.uid != expect {
        return Err(owned_by_message(path, info.uid, expect));
    }
    if writable_by_others(info) {
        return Err(path_message(path, " is group or other writable"));
    }
    Ok(())
}

/// The checks on the chosen socket, in order.
pub open spec fn spec_check_socket(info: FileInfo, path: Seq<char>, expect: u32) -> Result<(), Seq<char>> {
    if info.kind == FileKind::Symlink {
        Err(path + " is a symlink"@)
    } else if info.kind != FileKind::Socket {
        Err(path + " is not a unix socket"@)
    } else if info.uid != expect {
        Err(owned_by(path, info.uid, expect))
    } else {
        Ok(())
    }
}

pub fn check_socket(info: &FileInfo, path: &str, expect: u32) -> (r: Result<(), String>)
    ensures
        unit_view(r) == spec_check_socket(*info, path@, expect),
{
    if info.kind == FileKind::Symlink {
        return Err(path_message(path, " is a symlink"));
    }
    if info.kind != FileKind::Socket {
        return Err(path_message(path, " is not a unix socket"));
    }
    if info.uid != expect {
        return Err(owned_by_message(path, info.uid, expect));
    }
    Ok(())
}

/// The compositor behind the socket must be `expect`, as SO_PEERCRED reports it.
pub fn check_peer(peer: u32, path: &str, expect: u32) -> (r: Result<(), String>)
    ensures
        unit_view(r) == if peer == expect {
            Ok::<(), Seq<char>>(())
        } else {
            Err(path@ + " peer is uid "@ + decimal(peer as nat) + ", not "@ + decimal(expect as nat))
        },
{
    if peer == expect {
        return Ok(());
    }
    let mut s = String::from_str(path);
    append(&mut s, " peer is uid ");
    let p = decimal_string(peer as u64);
    append(&mut s, p.as_str());
    append(&mut s, ", not ");
    let e = decimal_string(expect as u64);
    append(&mut s, e.as_str());
    Err(s)
}

/// Where choosing the display socket stands.
pub enum Selecting {
    /// The runtime directory's metadata is awaited.
    Dir,
    /// Its entries are awaited.
    Listing,
    /// The metadata of the one socket that will be tried, named here, is awaited.
    Socket(Vec<u8>),
    /// The uid of the compositor behind that socket is awaited.
    Peer(Vec<u8>),
    /// A socket was chosen, or choosing failed; nothing more is done.
    Over,
}

pub ghost enum SelectingView {
    Dir,
    Listing,
    Socket(Seq<u8>),
    Peer(Seq<u8>),
    Over,
}

impl View for Selecting {
    type V = SelectingView;

    open spec fn view(&self) -> SelectingView {
        match self {
            Selecting::Dir => SelectingView::Dir,
            Selecting::Listing => SelectingView::Listing,
            Selecting::Socket(n) => SelectingView::Socket(n@),
            Selecting::Peer(n) => SelectingView::Peer(n@),
            Selecting::Over => SelectingView::Over,
        }
    }
}

/// What the caller found, in answer to the last action.
pub enum SelectEvent {
    /// The runtime directory's metadata.
    DirInfo(FileInfo),
    /// The names of its entries.
    Listed(Vec<Vec<u8>>),
    /// The chosen socket's metadata.
    SocketInfo(FileInfo),
    /// The uid SO_PEERCRED reports for the connection to the chosen socket.
    PeerUid(u32),
}

/// What the caller is to do next.
pub enum SelectAction {
    /// List the runtime directory.
    List,
    /// Read the metadata of the socket at this path, without following a symlink.
    CheckSocket(Vec<u8>),
    /// Connect to the socket at this path and report the peer's uid.
    Connect(Vec<u8>),
    /// Use the connection to the socket of this name.
    Use(Vec<u8>),
    /// Give up with this message; no other socket is tried.
    Fail(String),
    /// The event does not answer what was asked; nothing changes.
    Ignore,
}

/// The path of the entry `name` of the directory `dir`.
pub open spec fn socket_path(dir: &str, name: Seq<u8>) -> Seq<u8> {
    dir.spec_bytes() + seq![0x2Fu8] + name
}

fn path_of(dir: &str, name: &Vec<u8>) -> (p: Vec<u8>)
    ensures
        p@ == socket_path(dir, name@),
{
    let mut p = crate::bytes::slice_to_vec(dir.as_bytes(), 0, dir.as_bytes().len());
    p.push(0x2F);
    crate::bytes::extend(&mut p, name.as_slice());
    p
}

/// One step of choosing the display socket. The directory is checked first; of its entries only
/// the lowest `wayland-N` is ever tried, its metadata checked before connecting, and the peer
/// confirmed after; any failure ends the choice.
pub fn select_step(state: &Selecting, dir: &str, expect: u32, event: &SelectEvent) -> (r: (Selecting, SelectAction))
    ensures
        match (state@, event) {
            (SelectingView::Dir, SelectEvent::DirInfo(info)) => match spec_check_dir(*info, dir@, expect) {
                Ok(()) => r.0@ == SelectingView::Listing && (r.1 is List),
                Err(e) => r.0@ == SelectingView::Over && (r.1 matches SelectAction::Fail(m) && m@ == e),
            },
            (SelectingView::Listing, SelectEvent::Listed(names)) => match r.1 {
                SelectAction::CheckSocket(p) => exists|i: int|
                    is_lowest(name_views(names@), i) && r.0@ == SelectingView::Socket(names@[i]@) && p@
                        == socket_path(dir, names@[i]@),
                SelectAction::Fail(m) => r.0@ == SelectingView::Over && m@ == "no wayland-N socket in "@
                    + dir@ && forall|j: int|
                    0 <= j < names@.len() ==> (#[trigger] spec_wayland_number(names@[j]@)) is None,
                _ => false,
            },
            (SelectingView::Socket(n), SelectEvent::SocketInfo(info)) => match spec_check_socket(
                *info,
                crate::text::utf8_lossy(socket_path(dir, n)),
                expect,
            ) {
                Ok(()) => r.0@ == SelectingView::Peer(n) && (r.1 matches SelectAction::Connect(p) && p@
                    == socket_path(dir, n)),
                Err(e) => r.0@ == SelectingView::Over && (r.1 matches SelectAction::Fail(m) && m@ == e),
            },
            (SelectingView::Peer(n), SelectEvent::PeerUid(uid)) => r.0@ == SelectingView::Over && if *uid
                == expect {
                r.1 matches SelectAction::Use(u) && u@ == n
            } else {
                r.1 matches SelectAction::Fail(m) && m@ == crate::text::utf8_lossy(socket_path(dir, n))
                    + " peer is uid "@ + decimal(*uid as nat) + ", not "@ + decimal(expect as nat)
            },
            _ => r.0@ == state@ && r.1 is Ignore,
        },
{
    match (state, event) {
        (Selecting::Dir, SelectEvent::DirInfo(info)) => match check_dir(info, dir, expect) {
            Ok(()) => (Selecting::Listing, SelectAction::List),
            Err(e) => (Selecting::Over, SelectAction::Fail(e)),
        },
        (Selecting::Listing, SelectEvent::Listed(names)) => match lowest(names) {
            Some(i) => {
                let name = crate::bytes::slice_to_vec(names[i].as_slice(), 0, names[i].len());
                assert(name@ =~= names@[i as int]@);
                assert(name_views(names@)[i as int] == names@[i as int]@);
                let p = path_of(dir, &name);
                (Selecting::Socket(name), SelectAction::CheckSocket(p))
            },
            None => (Selecting::Over, SelectAction::Fail(no_socket(dir))),
        },
        (Selecting::Socket(n), SelectEvent::SocketInfo(info)) => {
            assert(n@.subrange(0, n@.len() as int) =~= n@);
            let p = path_of(dir, n);
            let shown = crate::text::lossy(p.as_slice());
            match check_socket(info, shown.as_str(), expect) {
                Ok(()) => (Selecting::Peer(crate::bytes::slice_to_vec(n.as_slice(), 0, n.len())), SelectAction::Connect(p)),
                Err(e) => (Selecting::Over, SelectAction::Fail(e)),
            }
        },
        (Selecting::Peer(n), SelectEvent::PeerUid(uid)) => {
            assert(n@.subrange(0, n@.len() as int) =~= n@);
            let p = path_of(dir, n);
            let shown = crate::text::lossy(p.as_slice());
            match check_peer(*uid, shown.as_str(), expect) {
                Ok(()) => (Selecting::Over, SelectAction::Use(crate::bytes::slice_to_vec(n.as_slice(), 0, n.len()))),
                Err(e) => (Selecting::Over, SelectAction::Fail(e)),
            }
        },
        (Selecting::Dir, _) => (Selecting::Dir, SelectAction::Ignore),
        (Selecting::Listing, _) => (Selecting::Listing, SelectAction::Ignore),
        (Selecting::Socket(n), _) => (Selecting::Socket({
            assert(n@.subrange(0, n@.len() as int) =~= n@);
            crate::bytes::slice_to_vec(n.as_slice(), 0, n.len())
        }), SelectAction::Ignore),
        (Selecting::Peer(n), _) => (Selecting::Peer({
            assert(n@.subrange(0, n@.len() as int) =~= n@);
            crate::bytes::slice_to_vec(n.as_slice(), 0, n.len())
        }), SelectAction::Ignore),
        (Selecting::Over, _) => (Selecting::Over, SelectAction::Ignore),
    }
}

} // verus!
