//! The bodies of the native continuations other than apply: counting down
//! by frame replacement, looping forever, inspecting a value, and
//! suspending.  Each continuation's exact effect on the process is a named
//! step predicate; the scheduler's run loop chains these predicates into
//! its quantum contract.

use vstd::prelude::*;
use crate::exception::{is_atom_error, Exception};
use crate::heap::Alloc;
use crate::proc::{Process, Status};
use crate::term::{Term, ATOM_BADARG};

verus! {

/// Exactly one reduction was accounted: both counters advanced, saturating
/// at the top.
pub open spec fn reduced_once(pre: Process, post: Process) -> bool {
    &&& post.run_reductions == if pre.run_reductions < u64::MAX {
        pre.run_reductions + 1
    } else {
        pre.run_reductions as int
    }
    &&& post.total_reductions == if pre.total_reductions < u64::MAX {
        pre.total_reductions + 1
    } else {
        pre.total_reductions as int
    }
}

/// The effect of one countdown reduction.  A positive counter on top of
/// the stack emits one output line and continues, under the same frame,
/// with the decremented counter; zero (or less) pops the frame; a missing
/// or non-integer counter is a `badarg` error.
pub open spec fn count_down_step(pre: Process, post: Process) -> bool {
    &&& post.same_identity(pre)
    &&& post.heap == pre.heap
    &&& reduced_once(pre, post)
    &&& ({
        let top = pre.stack@.last();
        if pre.stack@.len() > 0 && top is SmallInteger {
            if top->value > 0 {
                &&& post.stack@ == pre.stack@.drop_last().push(
                    (Term::SmallInteger { value: (top->value - 1) as i64 }),
                )
                &&& post.output@ == pre.output@.push(top)
                &&& post.frames@ == pre.frames@
                &&& post.status == pre.status
            } else {
                &&& post.stack@ == pre.stack@.drop_last()
                &&& post.output@ == pre.output@
                &&& post.frames@ == if pre.frames@.len() == 0 {
                    pre.frames@
                } else {
                    pre.frames@.drop_last()
                }
                &&& post.status == pre.status
            }
        } else {
            &&& (post.status matches Status::Exiting(e) && is_atom_error(
                e,
                ATOM_BADARG,
                "count_down",
                0,
                0,
            ))
            &&& post.stack@ == if pre.stack@.len() == 0 {
                pre.stack@
            } else {
                pre.stack@.drop_last()
            }
            &&& post.output@ == pre.output@
            &&& post.frames@ == pre.frames@
        }
    })
}

/// The effect of one looping reduction: only the counters move.
pub open spec fn loop_step(pre: Process, post: Process) -> bool {
    &&& post == (Process {
        run_reductions: post.run_reductions,
        total_reductions: post.total_reductions,
        ..pre
    })
    &&& reduced_once(pre, post)
}

/// The effect of one inspect reduction: the top of the stack becomes an
/// output line and the frame pops itself; an empty stack is a `badarg`
/// error.
pub open spec fn inspect_step(pre: Process, post: Process) -> bool {
    &&& post.same_identity(pre)
    &&& post.heap == pre.heap
    &&& reduced_once(pre, post)
    &&& if pre.stack@.len() > 0 {
        &&& post.stack@ == pre.stack@.drop_last()
        &&& post.output@ == pre.output@.push(pre.stack@.last())
        &&& post.frames@ == if pre.frames@.len() == 0 {
            pre.frames@
        } else {
            pre.frames@.drop_last()
        }
        &&& post.status == pre.status
    } else {
        &&& (post.status matches Status::Exiting(e) && is_atom_error(
            e,
            ATOM_BADARG,
            "inspect",
            0,
            0,
        ))
        &&& post.stack@ == pre.stack@
        &&& post.output@ == pre.output@
        &&& post.frames@ == pre.frames@
    }
}

/// The effect of one suspend reduction: the frame pops itself and the
/// process leaves Running for Waiting.
pub open spec fn wait_step(pre: Process, post: Process) -> bool {
    &&& post.same_identity(pre)
    &&& post.heap == pre.heap
    &&& reduced_once(pre, post)
    &&& post.status is Waiting
    &&& post.stack@ == pre.stack@
    &&& post.output@ == pre.output@
    &&& post.frames@ == if pre.frames@.len() == 0 {
        pre.frames@
    } else {
        pre.frames@.drop_last()
    }
}

/// One countdown step; see `count_down_step` for the exact effect.
pub fn count_down_code(process: &mut Process) -> (r: Result<(), Alloc>)
    requires
        old(process).wf(),
        old(process).run_reductions < u64::MAX,
    ensures
        final(process).wf(),
        r is Ok,
        count_down_step(*old(process), *final(process)),
{
    process.reduce();
    let top = process.stack_pop();
    match top {
        Some(Term::SmallInteger { value }) => {
            if value > 0 {
                self_output(process, Term::SmallInteger { value });
                match process.stack_push(Term::SmallInteger { value: value - 1 }) {
                    Ok(()) => Ok(()),
                    Err(e) => Err(e),
                }
            } else {
                process.remove_last_frame();
                Ok(())
            }
        },
        _ => {
            process.exception(Exception::badarg("count_down", 0, 0));
            Ok(())
        },
    }
}

/// One step of the non-terminating continuation; see `loop_step`.
pub fn loop_code(process: &mut Process) -> (r: Result<(), Alloc>)
    requires
        old(process).wf(),
        old(process).run_reductions < u64::MAX,
    ensures
        final(process).wf(),
        r is Ok,
        loop_step(*old(process), *final(process)),
{
    process.reduce();
    Ok(())
}

/// One inspect step; see `inspect_step`.
pub fn inspect_code(process: &mut Process) -> (r: Result<(), Alloc>)
    requires
        old(process).wf(),
        old(process).run_reductions < u64::MAX,
    ensures
        final(process).wf(),
        r is Ok,
        inspect_step(*old(process), *final(process)),
{
    process.reduce();
    match process.stack_pop() {
        Some(value) => {
            self_output(process, value);
            process.remove_last_frame();
            Ok(())
        },
        None => {
            process.exception(Exception::badarg("inspect", 0, 0));
            Ok(())
        },
    }
}

/// One suspend step; see `wait_step`.
pub fn wait_code(process: &mut Process) -> (r: Result<(), Alloc>)
    requires
        old(process).wf(),
        old(process).run_reductions < u64::MAX,
    ensures
        final(process).wf(),
        r is Ok,
        wait_step(*old(process), *final(process)),
{
    process.reduce();
    process.remove_last_frame();
    process.status = Status::Waiting;
    Ok(())
}

/// Emits one output line.
fn self_output(process: &mut Process, value: Term)
    ensures
        *final(process) == (Process { output: final(process).output, ..*old(process) }),
        final(process).output@ == old(process).output@.push(value),
{
    process.output.push(value);
}

} // verus!
