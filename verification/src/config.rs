//! Compiled-in values. There is no production configuration file, environment override, test
//! display or alternate lock path.

use vstd::prelude::*;
use vstd::string::*;

use crate::text::{append, decimal, decimal_string};

verus! {

/// The only place sudo-prompt looks for a compositor socket.
pub const DISPLAY_ROOT: &'static str = "/run/user/0";

/// /run is tmpfs, so this will not exist after a boot; sudo-prompt creates it safely.
pub const LOCK_PATH: &'static str = "/run/sudo-prompt.lock";

pub fn display_root() -> (s: String)
    ensures
        s@ == DISPLAY_ROOT@,
{
    String::from_str(DISPLAY_ROOT)
}

pub fn lock_path() -> (s: String)
    ensures
        s@ == LOCK_PATH@,
{
    String::from_str(LOCK_PATH)
}

/// Everything sudo-prompt validates is expected to be owned by root.
pub fn owner_uid() -> (u: u32)
    ensures
        u == 0,
{
    0
}

/// `"must run as root (euid {euid}); invoke it through sudo"`.
pub open spec fn not_root(euid: u32) -> Seq<char> {
    "must run as root (euid "@ + decimal(euid as nat) + "); invoke it through sudo"@
}

/// sudo-prompt runs as root or not at all; `euid` is the effective uid it runs with.
pub fn check_privilege(euid: u32) -> (r: Result<(), String>)
    ensures
        match r {
            Ok(()) => euid == 0,
            Err(e) => euid != 0 && e@ == not_root(euid),
        },
{
    if euid != 0 {
        let mut e = String::from_str("must run as root (euid ");
        let n = decimal_string(euid as u64);
        append(&mut e, n.as_str());
        append(&mut e, "); invoke it through sudo");
        return Err(e);
    }
    Ok(())
}

} // verus!
