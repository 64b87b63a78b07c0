//! What sudo-prompt makes of answers from the system: the last OS error as a message, and root's
//! login shell.

use vstd::prelude::*;
use vstd::string::*;

use crate::bytes::{ascii, ascii_of};
use crate::text::append;

verus! {

/// std's `io::Error::last_os_error()`, rendered. It depends on the thread's errno, so nothing is
/// claimed of the text.
#[verifier::external_body]
fn last_os_error_text() -> (s: String) {
    std::io::Error::last_os_error().to_string()
}

/// `"{context}: {error}"`.
pub fn with_context(context: &str, error: &str) -> (s: String)
    ensures
        s@ == context@ + ": "@ + error@,
{
    let mut s = String::from_str(context);
    append(&mut s, ": ");
    append(&mut s, error);
    s
}

/// The last OS error, named by what was being done. Whatever the error was, the message starts
/// with the context.
pub fn errno_message(context: &str) -> (s: String)
    ensures
        s@.len() >= context@.len() + 2,
        s@.take(context@.len() + 2int) == context@ + ": "@,
{
    let e = last_os_error_text();
    let s = with_context(context, e.as_str());
    proof {
        reveal_strlit(": ");
        assert(s@.take(context@.len() + 2int) =~= context@ + ": "@);
    }
    s
}

/// root's login shell for the command environment's SHELL: passwd's, unless it has none.
pub fn shell_or_default(shell: Option<Vec<u8>>) -> (s: Vec<u8>)
    ensures
        s@ == match shell {
            Some(v) if v@.len() > 0 => v@,
            _ => ascii_of("/bin/sh"@),
        },
{
    proof {
        reveal_strlit("/bin/sh");
    }
    match shell {
        Some(v) => if v.len() > 0 {
            v
        } else {
            ascii("/bin/sh")
        },
        None => ascii("/bin/sh"),
    }
}

} // verus!
