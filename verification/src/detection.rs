//! Which implementation of the token API is in use: the compiler's own, or
//! this pure-Rust fallback.

use vstd::prelude::*;

verus! {

/// The implementation that token operations go to.
#[derive(Clone, Copy, PartialEq, Eq, Structural, Debug)]
pub enum Implementation {
    /// Not decided yet: the first use asks whether the compiler's is available.
    Undecided,
    /// This pure-Rust implementation.
    Fallback,
    /// The compiler's implementation.
    Compiler,
}

/// The implementation chosen once the availability of the compiler's is known.
pub open spec fn initialized(compiler_available: bool) -> Implementation {
    if compiler_available {
        Implementation::Compiler
    } else {
        Implementation::Fallback
    }
}

/// Forces the fallback implementation, even where the compiler's is available.
pub fn force(state: &mut Implementation)
    ensures
        *final(state) == Implementation::Fallback,
{
    *state = Implementation::Fallback;
}

/// Resumes using the compiler's implementation if it is available, the
/// fallback otherwise.
pub fn unforce(state: &mut Implementation, compiler_available: bool)
    ensures
        *final(state) == initialized(compiler_available),
{
    *state = if compiler_available {
        Implementation::Compiler
    } else {
        Implementation::Fallback
    };
}

} // verus!
