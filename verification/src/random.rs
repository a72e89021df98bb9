//! The system's source of random bytes.

use vstd::prelude::*;

verus! {

/// Calls `getrandom::getrandom`, which fills the buffer with random bytes from
/// the operating system and reports whether that succeeded. The buffer keeps
/// its length; nothing is claimed of its bytes.
#[verifier::external_body]
pub(crate) fn fill_random(buf: &mut Vec<u8>) -> (ok: bool)
    ensures
        final(buf)@.len() == old(buf)@.len(),
{
    getrandom::getrandom(buf.as_mut_slice()).is_ok()
}

} // verus!
