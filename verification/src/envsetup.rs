//! What sudo-prompt keeps of its own inherited environment.
//!
//! sudo's env_reset still hands sudo-prompt caller-influenced survivors (HOME, TERM, DISPLAY, LANG,
//! LS_COLORS, …), and nothing the caller said may steer root's GTK. So sudo-prompt captures the few
//! values it needs later, then clears the environment. This module decides what is captured; the
//! clearing itself is done by the binary.

use vstd::prelude::*;
use vstd::slice::slice_to_vec;
use vstd::string::*;

use crate::bytes::{ascii, ascii_of, bytes_eq, has_prefix, starts_with};
use crate::classify::vpairs;
use crate::cli::Pair;
use crate::text::{signed_decimal, signed_string};

verus! {

/// Fixed, root-controlled PATH for sudo-prompt itself. The command gets its own.
pub const GATE_PATH: &'static str = "/usr/local/sbin:/usr/local/bin:/usr/sbin:/usr/bin:/sbin:/bin";

/// Named passthrough candidates for the *command's* environment. TERM is here because without it
/// every interactive root command is unusable; its loader-dangerous relatives TERMINFO, TERMCAP
/// and TERMPATH are deliberately not.
pub open spec fn spec_is_passthrough(name: Seq<u8>) -> bool {
    name == ascii_of("TERM"@) || name == ascii_of("COLORTERM"@) || name == ascii_of("LANG"@) || name
        == ascii_of("LANGUAGE"@) || has_prefix(name, ascii_of("LC_"@))
}

pub fn is_passthrough(name: &[u8]) -> (r: bool)
    ensures
        r == spec_is_passthrough(name@),
{
    proof {
        reveal_strlit("TERM");
        reveal_strlit("COLORTERM");
        reveal_strlit("LANG");
        reveal_strlit("LANGUAGE");
        reveal_strlit("LC_");
    }
    bytes_eq(name, ascii("TERM").as_slice()) || bytes_eq(name, ascii("COLORTERM").as_slice())
        || bytes_eq(name, ascii("LANG").as_slice()) || bytes_eq(name, ascii("LANGUAGE").as_slice())
        || starts_with(name, ascii("LC_").as_slice())
}

/// Everything kept from the inherited environment. Not the whole environment.
///
/// PATH is deliberately absent: sudo's env_reset preserves the caller's PATH unless secure_path is
/// set, and sudo-prompt cannot tell the two apart, so it reads neither.
#[derive(Debug, Default, Clone)]
pub struct Captured {
    pub sudo_uid: Option<Vec<u8>>,
    pub sudo_gid: Option<Vec<u8>>,
    pub sudo_user: Option<Vec<u8>>,
    /// Passthrough candidates, in the order the environment listed them.
    pub passthrough: Vec<(Vec<u8>, Vec<u8>)>,
}

pub struct CapturedView {
    pub sudo_uid: Option<Seq<u8>>,
    pub sudo_gid: Option<Seq<u8>>,
    pub sudo_user: Option<Seq<u8>>,
    pub passthrough: Seq<Pair>,
}

pub open spec fn opt_view(o: Option<Vec<u8>>) -> Option<Seq<u8>> {
    match o {
        Some(v) => Some(v@),
        None => None,
    }
}

impl View for Captured {
    type V = CapturedView;

    open spec fn view(&self) -> CapturedView {
        CapturedView {
            sudo_uid: opt_view(self.sudo_uid),
            sudo_gid: opt_view(self.sudo_gid),
            sudo_user: opt_view(self.sudo_user),
            passthrough: vpairs(self.passthrough@),
        }
    }
}

/// One inherited variable, applied to what has been captured so far.
pub open spec fn capture_step(c: CapturedView, p: Pair) -> CapturedView {
    if p.0 == ascii_of("SUDO_UID"@) {
        CapturedView { sudo_uid: Some(p.1), ..c }
    } else if p.0 == ascii_of("SUDO_GID"@) {
        CapturedView { sudo_gid: Some(p.1), ..c }
    } else if p.0 == ascii_of("SUDO_USER"@) {
        CapturedView { sudo_user: Some(p.1), ..c }
    } else if spec_is_passthrough(p.0) {
        CapturedView { passthrough: c.passthrough.push(p), ..c }
    } else {
        c
    }
}

/// What is captured from an environment, variable by variable in its order.
pub open spec fn spec_capture(vars: Seq<Pair>) -> CapturedView
    decreases vars.len(),
{
    if vars.len() == 0 {
        CapturedView { sudo_uid: None, sudo_gid: None, sudo_user: None, passthrough: seq![] }
    } else {
        capture_step(spec_capture(vars.drop_last()), vars.last())
    }
}

/// Capture from the inherited environment, given as its list of variables.
pub fn capture(vars: &Vec<(Vec<u8>, Vec<u8>)>) -> (c: Captured)
    ensures
        c@ == spec_capture(vpairs(vars@)),
{
    proof {
        reveal_strlit("SUDO_UID");
        reveal_strlit("SUDO_GID");
        reveal_strlit("SUDO_USER");
    }
    let uid_name = ascii("SUDO_UID");
    let gid_name = ascii("SUDO_GID");
    let user_name = ascii("SUDO_USER");
    let mut cap = Captured { sudo_uid: None, sudo_gid: None, sudo_user: None, passthrough: Vec::new() };
    let n = vars.len();
    assert(vpairs(cap.passthrough@) =~= Seq::<Pair>::empty());
    for i in 0..n
        invariant
            n == vars@.len(),
            uid_name@ == ascii_of("SUDO_UID"@),
            gid_name@ == ascii_of("SUDO_GID"@),
            user_name@ == ascii_of("SUDO_USER"@),
            cap@ == spec_capture(vpairs(vars@).take(i as int)),
    {
        let name = vars[i].0.as_slice();
        let value = vars[i].1.as_slice();
        let ghost p = vpairs(vars@)[i as int];
        assert(p == (name@, value@));
        assert(vpairs(vars@).take(i + 1).drop_last() =~= vpairs(vars@).take(i as int));
        if bytes_eq(name, uid_name.as_slice()) {
            cap.sudo_uid = Some(slice_to_vec(value));
        } else if bytes_eq(name, gid_name.as_slice()) {
            cap.sudo_gid = Some(slice_to_vec(value));
        } else if bytes_eq(name, user_name.as_slice()) {
            cap.sudo_user = Some(slice_to_vec(value));
        } else if is_passthrough(name) {
            let ghost before = vpairs(cap.passthrough@);
            cap.passthrough.push((slice_to_vec(name), slice_to_vec(value)));
            assert(vpairs(cap.passthrough@) =~= before.push(p));
        }
    }
    assert(vpairs(vars@).take(n as int) =~= vpairs(vars@));
    cap
}

/// The only variables sudo-prompt's own process keeps once its inherited environment is cleared:
/// root-controlled prerequisites for GTK, set before GTK initialization or any thread exists.
/// Never anything that configures root's GTK from the caller.
pub open spec fn spec_own_env() -> Seq<(Seq<char>, Seq<char>)> {
    seq![
        ("HOME"@, "/root"@),
        ("PATH"@, GATE_PATH@),
        ("XDG_DATA_DIRS"@, "/usr/local/share:/usr/share"@),
        ("XDG_CONFIG_DIRS"@, "/etc/xdg"@),
        ("LANG"@, "C.UTF-8"@),
    ]
}

pub open spec fn string_pairs(v: Seq<(String, String)>) -> Seq<(Seq<char>, Seq<char>)> {
    v.map_values(|p: (String, String)| (p.0@, p.1@))
}

fn string_pair(name: &str, value: &str) -> (p: (String, String))
    ensures
        p.0@ == name@,
        p.1@ == value@,
{
    (String::from_str(name), String::from_str(value))
}

pub fn own_env() -> (v: Vec<(String, String)>)
    ensures
        string_pairs(v@) == spec_own_env(),
{
    let mut v: Vec<(String, String)> = Vec::new();
    v.push(string_pair("HOME", "/root"));
    v.push(string_pair("PATH", GATE_PATH));
    v.push(string_pair("XDG_DATA_DIRS", "/usr/local/share:/usr/share"));
    v.push(string_pair("XDG_CONFIG_DIRS", "/etc/xdg"));
    v.push(string_pair("LANG", "C.UTF-8"));
    assert(string_pairs(v@) =~= spec_own_env());
    v
}

/// The display variables, set only after display selection validated the runtime directory:
/// XDG_RUNTIME_DIR explicitly (GLib would otherwise fall back to a cache-directory runtime path),
/// and the validated socket's descriptor as WAYLAND_SOCKET. WAYLAND_DISPLAY is removed.
pub fn display_env(runtime_dir: &str, wayland_socket_fd: i32) -> (v: Vec<(String, String)>)
    ensures
        string_pairs(v@) == seq![
            ("XDG_RUNTIME_DIR"@, runtime_dir@),
            ("WAYLAND_SOCKET"@, signed_decimal(wayland_socket_fd as int)),
        ],
{
    let mut v: Vec<(String, String)> = Vec::new();
    v.push(string_pair("XDG_RUNTIME_DIR", runtime_dir));
    v.push((String::from_str("WAYLAND_SOCKET"), signed_string(wayland_socket_fd)));
    assert(string_pairs(v@) =~= seq![
        ("XDG_RUNTIME_DIR"@, runtime_dir@),
        ("WAYLAND_SOCKET"@, signed_decimal(wayland_socket_fd as int)),
    ]);
    v
}

/// The one display variable that must not survive: a caller-derived name.
pub const REMOVED_DISPLAY_VAR: &'static str = "WAYLAND_DISPLAY";

} // verus!
