//! The apply-style entry point `erlang:apply/3`: a frame that pops module,
//! function and an argument list, resolves the triple through the code
//! table, and on a miss raises the canonical `undef` exit.

use vstd::prelude::*;
use crate::code::{Frame, Native, Placement};
use crate::exception::{is_atom_error, Exception, spec_atom, undef_stacktrace_built};
use crate::natives::reduced_once;
use crate::export::{ExportTable, export_entries};
use crate::heap::Alloc;
use crate::proc::{Process, Status};
use crate::term::{Atom, ModuleFunctionArity, Term, ATOM_APPLY, ATOM_BADARG, ATOM_ERLANG, ATOM_UNDEF};

verus! {

/// Whether the popped triple resolves through the code table: module and
/// function are atoms, the arguments form a proper list of at most 255
/// elements, and the table binds the triple.
pub open spec fn spec_dispatch(
    process: Process,
    table: ExportTable,
    module: Term,
    function: Term,
    arguments: Term,
) -> Option<(Seq<Term>, Native)> {
    if module is Atom && function is Atom {
        match process.heap.list_elements(arguments) {
            Some(es) => if es.len() <= 255 && export_entries(table).contains_key(
                (module->atom.id, function->atom.id, es.len() as u8),
            ) {
                Some(
                    (es, export_entries(table)[(module->atom.id, function->atom.id, es.len() as u8)]),
                )
            } else {
                None
            },
            None => None,
        }
    } else {
        None
    }
}

/// The effect of one apply reduction that resolves its triple: the apply
/// frame is replaced by the callee's frame and the argument list's
/// elements are pushed, first argument on top.
pub open spec fn apply_code_hit(table: ExportTable, pre: Process, post: Process) -> bool {
    &&& pre.stack@.len() >= 3
    &&& post.same_identity(pre)
    &&& reduced_once(pre, post)
    &&& ({
        let module = pre.stack@.last();
        let function = pre.stack@[pre.stack@.len() - 2];
        let arguments = pre.stack@[pre.stack@.len() - 3];
        let rest = pre.stack@.drop_last().drop_last().drop_last();
        &&& spec_dispatch(pre, table, module, function, arguments) matches Some(esn)
        &&& post.stack@ == rest + esn.0.reverse()
        &&& post.frames@ == if pre.frames@.len() == 0 {
            pre.frames@.push(
                (Frame {
                    module_function_arity: ModuleFunctionArity {
                        module: module->atom,
                        function: function->atom,
                        arity: esn.0.len() as u8,
                    },
                    native: esn.1,
                }),
            )
        } else {
            pre.frames@.drop_last().push(
                (Frame {
                    module_function_arity: ModuleFunctionArity {
                        module: module->atom,
                        function: function->atom,
                        arity: esn.0.len() as u8,
                    },
                    native: esn.1,
                }),
            )
        }
        &&& post.status == pre.status
        &&& post.heap == pre.heap
        &&& post.output@ == pre.output@
    })
}

/// The effect of one apply reduction whose triple does not resolve: the
/// operands are consumed and the process exits with the canonical `undef`,
/// its stacktrace's head frame exactly `{module, function, arguments, []}`.
pub open spec fn apply_code_miss(table: ExportTable, pre: Process, post: Process) -> bool {
    &&& pre.stack@.len() >= 3
    &&& post.same_identity(pre)
    &&& reduced_once(pre, post)
    &&& ({
        let module = pre.stack@.last();
        let function = pre.stack@[pre.stack@.len() - 2];
        let arguments = pre.stack@[pre.stack@.len() - 3];
        let rest = pre.stack@.drop_last().drop_last().drop_last();
        &&& spec_dispatch(pre, table, module, function, arguments) is None
        &&& post.stack@ == rest
        &&& post.frames@ == pre.frames@
        &&& post.output@ == pre.output@
        &&& post.heap.extends(pre.heap)
        &&& post.heap.used_words == pre.heap.used_words + 7
        &&& (post.status matches Status::Exiting(e) && e.class == crate::exception::Class::Exit
            && e.reason == spec_atom(ATOM_UNDEF) && undef_stacktrace_built(
            post.heap,
            pre.heap,
            module,
            function,
            arguments,
            Term::Nil,
        ) && e.stacktrace == Some(
            crate::heap::boxed(pre.heap.id, (pre.heap.cells@.len() + 1) as usize),
        ))
    })
}

/// The effect of an apply reduction that could not build its `undef`
/// exception: the heap could not hold the stacktrace (its ceiling is
/// exceeded by the seven words needed), the operands are consumed, and the
/// status is left for the scheduler to escalate.
pub open spec fn apply_code_failed(table: ExportTable, pre: Process, post: Process) -> bool {
    &&& pre.stack@.len() >= 3
    &&& post.same_identity(pre)
    &&& reduced_once(pre, post)
    &&& ({
        let module = pre.stack@.last();
        let function = pre.stack@[pre.stack@.len() - 2];
        let arguments = pre.stack@[pre.stack@.len() - 3];
        let rest = pre.stack@.drop_last().drop_last().drop_last();
        &&& spec_dispatch(pre, table, module, function, arguments) is None
        &&& post.stack@ == rest
        &&& post.frames@ == pre.frames@
        &&& post.output@ == pre.output@
        &&& post.status == pre.status
        &&& post.heap.extends(pre.heap)
        &&& pre.heap.used_words + 7 > pre.heap.max_words
    })
}

/// The effect of invoking an apply frame over fewer than three operands:
/// nothing is consumed and the process exits with `badarg`.
pub open spec fn apply_badarg_step(pre: Process, post: Process) -> bool {
    &&& pre.stack@.len() < 3
    &&& post.same_identity(pre)
    &&& reduced_once(pre, post)
    &&& post.stack@ == pre.stack@
    &&& post.frames@ == pre.frames@
    &&& post.output@ == pre.output@
    &&& post.heap == pre.heap
    &&& (post.status matches Status::Exiting(e) && is_atom_error(e, ATOM_BADARG, "apply_3", 0, 0))
}

/// The identity under which apply frames run.
pub fn module_function_arity() -> (r: ModuleFunctionArity)
    ensures
        r == (ModuleFunctionArity {
            module: Atom { id: ATOM_ERLANG },
            function: Atom { id: ATOM_APPLY },
            arity: 3,
        }),
{
    ModuleFunctionArity {
        module: Atom { id: ATOM_ERLANG },
        function: Atom { id: ATOM_APPLY },
        arity: 3,
    }
}

/// The function atom of the entry point.
pub fn function() -> (a: Atom)
    ensures
        a.id == ATOM_APPLY,
{
    Atom::from_id(ATOM_APPLY)
}

/// A fresh apply frame.
pub fn frame() -> (f: Frame)
    ensures
        f == (Frame {
            module_function_arity: ModuleFunctionArity {
                module: Atom { id: ATOM_ERLANG },
                function: Atom { id: ATOM_APPLY },
                arity: 3,
            },
            native: Native::Apply3,
        }),
{
    Frame::new(module_function_arity(), Native::Apply3)
}

/// Pushes the three operands and places an apply frame: the next reduction
/// of this process will dispatch `module:function(arguments)`.
pub fn place_frame_with_arguments(
    process: &mut Process,
    placement: Placement,
    module: Term,
    function: Term,
    arguments: Term,
) -> (r: Result<(), Alloc>)
    requires
        old(process).wf(),
        old(process).heap.valid_term(module),
        old(process).heap.valid_term(function),
        old(process).heap.valid_term(arguments),
    ensures
        final(process).wf(),
        final(process).same_identity(*old(process)),
        r is Ok,
        final(process).stack@ == old(process).stack@.push(arguments).push(function).push(module),
        match placement {
            Placement::Push => final(process).frames@ == old(process).frames@.push(
                (Frame {
                    module_function_arity: ModuleFunctionArity {
                        module: Atom { id: ATOM_ERLANG },
                        function: Atom { id: ATOM_APPLY },
                        arity: 3,
                    },
                    native: Native::Apply3,
                }),
            ),
            Placement::Replace => final(process).frames@ == if old(process).frames@.len() == 0 {
                old(process).frames@.push(
                    (Frame {
                        module_function_arity: ModuleFunctionArity {
                            module: Atom { id: ATOM_ERLANG },
                            function: Atom { id: ATOM_APPLY },
                            arity: 3,
                        },
                        native: Native::Apply3,
                    }),
                )
            } else {
                old(process).frames@.drop_last().push(
                    (Frame {
                        module_function_arity: ModuleFunctionArity {
                            module: Atom { id: ATOM_ERLANG },
                            function: Atom { id: ATOM_APPLY },
                            arity: 3,
                        },
                        native: Native::Apply3,
                    }),
                )
            },
        },
        final(process).heap == old(process).heap,
        final(process).status == old(process).status,
        final(process).output@ == old(process).output@,
        final(process).run_reductions == old(process).run_reductions,
        final(process).total_reductions == old(process).total_reductions,
{
    process.stack_push(arguments)?;
    process.stack_push(function)?;
    process.stack_push(module)?;
    process.place_frame(frame(), placement);
    Ok(())
}

/// Raises the canonical `undef` exit for the triple on this process: the
/// process transitions to Exiting carrying an exception whose reason is
/// the `undef` atom and whose stacktrace's top frame is exactly
/// `{module, function, arguments, []}`.
pub fn undef(process: &mut Process, module: Term, function: Term, arguments: Term) -> (r: Result<
    (),
    Alloc,
>)
    requires
        old(process).wf(),
        old(process).heap.valid_term(module),
        old(process).heap.valid_term(function),
        old(process).heap.valid_term(arguments),
        old(process).run_reductions < u64::MAX,
    ensures
        final(process).wf(),
        final(process).same_identity(*old(process)),
        final(process).heap.extends(old(process).heap),
        final(process).frames@ == old(process).frames@,
        final(process).stack@ == old(process).stack@,
        final(process).output@ == old(process).output@,
        reduced_once(*old(process), *final(process)),
        match r {
            Ok(()) => {
                &&& final(process).status matches Status::Exiting(e) && e.class
                    == crate::exception::Class::Exit && e.reason == spec_atom(ATOM_UNDEF)
                    && undef_stacktrace_built(
                    final(process).heap,
                    old(process).heap,
                    module,
                    function,
                    arguments,
                    Term::Nil,
                ) && e.stacktrace == Some(
                    crate::heap::boxed(
                        old(process).heap.id,
                        (old(process).heap.cells@.len() + 1) as usize,
                    ),
                )
                &&& final(process).heap.used_words == old(process).heap.used_words + 7
            },
            Err(_) => final(process).status == old(process).status && old(
                process,
            ).heap.used_words + 7 > old(process).heap.max_words,
        },
{
    process.reduce();
    let exception = match Exception::undef(
        &mut process.heap,
        module,
        function,
        arguments,
        Term::Nil,
        "apply_3",
        0,
        0,
    ) {
        Ok(e) => e,
        Err(e) => {
            return Err(e);
        },
    };
    process.exception(exception);
    Ok(())
}

/// The body of an apply frame: pops module, function and the argument
/// list, accounts the reduction, and resolves the triple through the code
/// table.  On a hit the apply frame is replaced by the callee's frame and
/// the argument list's elements are pushed, first argument on top; on a
/// miss (an unbound triple, a non-atom module or function, or a malformed
/// argument list) the process exits with the canonical `undef`.
pub fn code(process: &mut Process, table: &ExportTable) -> (r: Result<(), Alloc>)
    requires
        old(process).wf(),
        old(process).stack@.len() >= 3,
        old(process).run_reductions < u64::MAX,
    ensures
        final(process).wf(),
        final(process).heap.extends(old(process).heap),
        match r {
            Ok(()) => apply_code_hit(*table, *old(process), *final(process)) || apply_code_miss(
                *table,
                *old(process),
                *final(process),
            ),
            Err(_) => apply_code_failed(*table, *old(process), *final(process)),
        },
{
    let module = match process.stack_pop() {
        Some(t) => t,
        None => {
            proof {
                assert(false);
            }
            Term::Nil
        },
    };
    let function = match process.stack_pop() {
        Some(t) => t,
        None => {
            proof {
                assert(false);
            }
            Term::Nil
        },
    };
    let arguments = match process.stack_pop() {
        Some(t) => t,
        None => {
            proof {
                assert(false);
            }
            Term::Nil
        },
    };
    let module_atom: Option<Atom> = match module {
        Term::Atom { atom } => Some(atom),
        _ => None,
    };
    let function_atom: Option<Atom> = match function {
        Term::Atom { atom } => Some(atom),
        _ => None,
    };
    let elements = process.heap.list_to_vec(arguments);
    match (module_atom, function_atom, elements) {
        (Some(m), Some(f), Some(es)) => {
            if es.len() <= 255 {
                let arity = es.len() as u8;
                match table.get(m, f, arity) {
                    Some(native) => {
                        process.reduce();
                        let callee = Frame::new(
                            ModuleFunctionArity { module: m, function: f, arity },
                            native,
                        );
                        process.place_frame(callee, Placement::Replace);
                        let ghost pre_push = *process;
                        let mut k = es.len();
                        while k > 0
                            invariant
                                process.wf(),
                                k <= es@.len(),
                                *process == (Process { stack: process.stack, ..pre_push }),
                                forall|j: int|
                                    0 <= j < es@.len() ==> pre_push.heap.valid_term(
                                        #[trigger] es@[j],
                                    ),
                                process.stack@ == pre_push.stack@ + es@.subrange(
                                    k as int,
                                    es@.len() as int,
                                ).reverse(),
                            decreases k,
                        {
                            k = k - 1;
                            let ghost before = process.stack@;
                            match process.stack_push(es[k]) {
                                Ok(()) => {},
                                Err(_) => {},
                            }
                            proof {
                                assert(es@.subrange(k as int, es@.len() as int).reverse()
                                    =~= es@.subrange(k as int + 1, es@.len() as int).reverse().push(
                                    es@[k as int],
                                ));
                            }
                        }
                        proof {
                            assert(es@.subrange(0, es@.len() as int) =~= es@);
                        }
                        Ok(())
                    },
                    None => undef(process, module, function, arguments),
                }
            } else {
                undef(process, module, function, arguments)
            }
        },
        _ => undef(process, module, function, arguments),
    }
}

} // verus!
