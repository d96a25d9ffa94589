//! Early-exit plumbing: running a fallible closure as an expression, so a
//! chain of `?` can stop a computation without leaving its enclosing
//! function.

use vstd::prelude::*;

verus! {

/// Runs the closure and hands its result back unchanged.
pub fn err_stop<R, E, F: FnOnce() -> Result<R, E>>(f: F) -> (r: Result<R, E>)
    requires
        f.requires(()),
    ensures
        f.ensures((), r),
{
    f()
}

} // verus!
