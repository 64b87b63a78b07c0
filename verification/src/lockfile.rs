//! One prompt at a time. The lock lives on an open file description, so the kernel releases it on
//! any exit including SIGKILL. Opening, `fstat` and `flock` are the caller's part; the checks on
//! what `fstat` said are here.

use vstd::prelude::*;
use vstd::string::*;

use crate::fileinfo::{
    group_or_other_writable, owned_by, owned_by_message, path_message, unit_view, writable_by_others,
    FileInfo, FileKind,
};
use crate::text::join2;

verus! {

/// The checks on the opened lock file, in order.
pub open spec fn spec_check_lock_file(info: FileInfo, path: Seq<char>, expect: u32) -> Result<(), Seq<char>> {
    if info.kind != FileKind::Regular {
        Err("lock file "@ + path + " is not a regular file"@)
    } else if info.uid != expect {
        Err("lock file "@ + owned_by(path, info.uid, expect))
    } else if group_or_other_writable(info.mode) {
        Err("lock file "@ + path + " is group or other writable"@)
    } else {
        Ok(())
    }
}

/// The lock file must be a root-owned regular file that only its owner can write.
pub fn check_lock_file(info: &FileInfo, path: &str, expect: u32) -> (r: Result<(), String>)
    ensures
        unit_view(r) == spec_check_lock_file(*info, path@, expect),
{
    let bad = if info.kind != FileKind::Regular {
        Some(path_message(path, " is not a regular file"))
    } else if info.uid != expect {
        Some(owned_by_message(path, info.uid, expect))
    } else if writable_by_others(info) {
        Some(path_message(path, " is group or other writable"))
    } else {
        None
    };
    match bad {
        Some(m) => {
            let e = join2("lock file ", m.as_str());
            proof {
                let want = spec_check_lock_file(*info, path@, expect);
                assert(want matches Err(w) && w =~= e@);
            }
            Err(e)
        },
        None => Ok(()),
    }
}

} // verus!
