//! Randomness from the operating system.

use getrandom::SysRng;
use rand::rand_core::UnwrapErr;
use rand::RngExt;
use vstd::prelude::*;

verus! {

/// An index drawn below `len`.
///
/// Trusted: calls rand's `RngExt::random_range` over `0..len` on
/// `UnwrapErr(SysRng)` (getrandom's operating-system generator). rand
/// documents the result as lying in the range and asserts that the range is
/// not empty, which `requires` rules out. Which index comes back is left
/// unsaid: it rests on chance. `UnwrapErr` panics when the operating system
/// cannot supply random bytes; no input rules that out.
#[verifier::external_body]
pub(crate) fn random_index(len: usize) -> (i: usize)
    requires
        len > 0,
    ensures
        i < len,
{
    UnwrapErr(SysRng).random_range(0..len)
}

} // verus!

verus! {

/// `i` is a value that a draw below `len` returned: it comes out of a call
/// of the draw with `len`, not from anywhere else. Only code that makes the
/// call can establish it.
pub closed spec fn is_draw(len: usize, i: usize) -> bool {
    call_ensures(random_index, (len,), i)
}

/// A drawn value lies below the bound it was drawn with.
pub proof fn lemma_draw_in_range(len: usize, i: usize)
    requires
        is_draw(len, i),
    ensures
        i < len,
{
}

/// Draws an index below `len`, and records that it was drawn.
pub(crate) fn draw(len: usize) -> (i: usize)
    requires
        len > 0,
    ensures
        i < len,
        is_draw(len, i),
{
    random_index(len)
}

} // verus!
