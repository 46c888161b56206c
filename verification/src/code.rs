//! Executable continuations.  Instead of a bytecode instruction set, work is
//! expressed as a closed set of native continuation kinds; a frame pairs one
//! continuation with the (module, function, arity) it implements.

use vstd::prelude::*;
use crate::term::ModuleFunctionArity;

verus! {

/// A native continuation: one executable unit of work.  Each invocation
/// reads its operands from the owning process's value stack, performs one
/// reduction, and either pops itself, replaces itself, or pushes further
/// frames.
#[derive(Clone, Copy, Debug, PartialEq, Eq, Structural)]
pub enum Native {
    /// Pops module, function and an argument list, then dispatches through
    /// the code table; a miss raises the canonical `undef` exit.
    Apply3,
    /// Pops a counter `n`; while `n > 0` it emits one output line and
    /// replaces itself with the continuation for `n - 1`; at zero it pops
    /// itself, completing normally.
    CountDown,
    /// Never completes: each invocation consumes one reduction and leaves
    /// the frame in place.
    Loop,
    /// Pops one value, emits it as an output line, and pops itself.
    Inspect,
    /// Suspends the process pending external input: pops itself and
    /// leaves the process Waiting until an external wake-up.
    Wait,
}

/// Where a newly placed frame goes relative to the current top of the code
/// stack.
#[derive(Clone, Copy, Debug, PartialEq, Eq, Structural)]
pub enum Placement {
    /// Push on top of the current frame.
    Push,
    /// Replace the current top frame (tail-call style).
    Replace,
}

/// One entry of a process's code stack: an executable continuation together
/// with the identity of the function it implements.
#[derive(Clone, Copy, Debug, PartialEq, Eq, Structural)]
pub struct Frame {
    pub module_function_arity: ModuleFunctionArity,
    pub native: Native,
}

impl Frame {
    pub fn new(module_function_arity: ModuleFunctionArity, native: Native) -> (f: Frame)
        ensures
            f == (Frame { module_function_arity, native }),
    {
        Frame { module_function_arity, native }
    }
}

} // verus!
