//! The exception model: the three control-transfer classes (error, exit,
//! throw), source-located construction of the canonical reasons, and
//! equality that deliberately ignores provenance.

use vstd::prelude::*;
use crate::term::{Atom, Term, ATOM_BADARG, ATOM_BADARITH, ATOM_BADARITY, ATOM_BADFUN, ATOM_BADKEY,
    ATOM_BADMAP, ATOM_ERROR, ATOM_EXIT, ATOM_THROW, ATOM_UNDEF};
use crate::heap::{Alloc, Cell, ProcessHeap, boxed};
use vstd::std_specs::cmp::PartialEqSpec;

verus! {

/// The class of a non-local control transfer.
#[derive(Clone, Copy, Debug, PartialEq, Eq, Structural)]
pub enum Class {
    Error { arguments: Option<Term> },
    Exit,
    Throw,
}

/// An exception: class, reason and optional stacktrace, plus debug
/// provenance (source file, line, column) that never takes part in
/// equality.
#[derive(Clone, Copy, Debug)]
pub struct Exception {
    pub class: Class,
    pub reason: Term,
    pub stacktrace: Option<Term>,
    pub file: &'static str,
    pub line: u32,
    pub column: u32,
}

/// The atom term with identifier `id`.
pub open spec fn spec_atom(id: u64) -> Term {
    Term::Atom { atom: Atom { id } }
}

/// Whether `t` is the fresh two-element tuple `{tag, payload}` on heap `h`.
pub open spec fn is_tagged_tuple(h: ProcessHeap, t: Term, tag_id: u64, payload: Term) -> bool {
    &&& t matches Term::Boxed { ptr }
    &&& ptr.heap_id == h.id
    &&& ptr.index < h.cells@.len()
    &&& (h.cells@[ptr.index as int] matches Cell::Tuple { elements } && elements@ == seq![
        spec_atom(tag_id),
        payload,
    ])
}

/// Whether `e` is the bare-atom error with reason `reason_id` and the
/// given provenance.
pub open spec fn is_atom_error(
    e: Exception,
    reason_id: u64,
    file: &'static str,
    line: u32,
    column: u32,
) -> bool {
    &&& e.class == (Class::Error { arguments: None })
    &&& e.reason == spec_atom(reason_id)
    &&& e.stacktrace is None
    &&& e.file == file
    &&& e.line == line
    &&& e.column == column
}

impl Class {
    /// Reads a class from its atom name; any other term is rejected with
    /// `badarg`.
    pub fn try_from_term(term: Term, file: &'static str, line: u32, column: u32) -> (r: Result<
        Class,
        Exception,
    >)
        ensures
            match r {
                Ok(c) => {
                    &&& term == spec_atom(ATOM_ERROR) ==> c == (Class::Error { arguments: None })
                    &&& term == spec_atom(ATOM_EXIT) ==> c == Class::Exit
                    &&& term == spec_atom(ATOM_THROW) ==> c == Class::Throw
                    &&& (term == spec_atom(ATOM_ERROR) || term == spec_atom(ATOM_EXIT) || term
                        == spec_atom(ATOM_THROW))
                },
                Err(e) => {
                    &&& term != spec_atom(ATOM_ERROR)
                    &&& term != spec_atom(ATOM_EXIT)
                    &&& term != spec_atom(ATOM_THROW)
                    &&& is_atom_error(e, ATOM_BADARG, file, line, column)
                },
            },
    {
        match term {
            Term::Atom { atom } => {
                if atom.id == ATOM_ERROR {
                    Ok(Class::Error { arguments: None })
                } else if atom.id == ATOM_EXIT {
                    Ok(Class::Exit)
                } else if atom.id == ATOM_THROW {
                    Ok(Class::Throw)
                } else {
                    Err(Exception::badarg(file, line, column))
                }
            },
            _ => Err(Exception::badarg(file, line, column)),
        }
    }
}

impl Exception {
    pub fn badarg(file: &'static str, line: u32, column: u32) -> (e: Exception)
        ensures
            is_atom_error(e, ATOM_BADARG, file, line, column),
    {
        Self::error(Self::badarg_reason(), None, None, file, line, column)
    }

    pub fn badarith(file: &'static str, line: u32, column: u32) -> (e: Exception)
        ensures
            is_atom_error(e, ATOM_BADARITH, file, line, column),
    {
        Self::error(Self::badarith_reason(), None, None, file, line, column)
    }

    /// The error `{badarity, {function, arguments}}`: its reason needs two
    /// fresh tuples on the caller's heap.
    pub fn badarity(
        heap: &mut ProcessHeap,
        function: Term,
        arguments: Term,
        file: &'static str,
        line: u32,
        column: u32,
    ) -> (r: Result<Exception, Alloc>)
        requires
            old(heap).wf(),
            old(heap).valid_term(function),
            old(heap).valid_term(arguments),
        ensures
            final(heap).wf(),
            final(heap).extends(*old(heap)),
            final(heap).vheap@ == old(heap).vheap@,
            match r {
                Ok(e) => {
                    &&& final(heap).cells@.len() == old(heap).cells@.len() + 2
                    &&& (final(heap).cells@[old(heap).cells@.len() as int] matches Cell::Tuple {
                        elements,
                    } && elements@ == seq![function, arguments])
                    &&& is_tagged_tuple(
                        *final(heap),
                        e.reason,
                        ATOM_BADARITY,
                        boxed(old(heap).id, old(heap).cells@.len() as usize),
                    )
                    &&& final(heap).used_words == old(heap).used_words + 6
                    &&& e.class == (Class::Error { arguments: None })
                    &&& e.stacktrace is None
                    &&& e.file == file
                    &&& e.line == line
                    &&& e.column == column
                },
                Err(_) => final(heap).cells@.len() <= old(heap).cells@.len() + 1 && old(
                    heap,
                ).used_words + 6 > old(heap).max_words,
            },
    {
        let reason = Self::badarity_reason(heap, function, arguments)?;
        let error = Self::error(reason, None, None, file, line, column);

        Ok(error)
    }

    /// The error `{badfun, function}`.
    pub fn badfun(
        heap: &mut ProcessHeap,
        function: Term,
        file: &'static str,
        line: u32,
        column: u32,
    ) -> (r: Result<Exception, Alloc>)
        requires
            old(heap).wf(),
            old(heap).valid_term(function),
        ensures
            final(heap).wf(),
            final(heap).extends(*old(heap)),
            final(heap).vheap@ == old(heap).vheap@,
            match r {
                Ok(e) => {
                    &&& final(heap).cells@.len() == old(heap).cells@.len() + 1
                    &&& is_tagged_tuple(*final(heap), e.reason, ATOM_BADFUN, function)
                    &&& e.class == (Class::Error { arguments: None })
                    &&& e.stacktrace is None
                    &&& e.file == file
                    &&& e.line == line
                    &&& e.column == column
                },
                Err(_) => final(heap).alloc_failed(*old(heap), 3),
            },
    {
        let tag = Term::atom_from_id(ATOM_BADFUN);
        let base = heap.cells.len();
        proof {
            assert(old(heap).cells@.len() == base);
        }
        let arr: [Term; 2] = [tag, function];
        proof {
            assert(arr@ =~= seq![tag, function]);
        }
        let reason = heap.tuple_from_slice(arr.as_slice())?;
        proof {
            assert(reason->ptr.index == base);
        }
        let error = Self::error(reason, None, None, file, line, column);

        Ok(error)
    }

    /// The error `{badkey, key}`.
    pub fn badkey(
        heap: &mut ProcessHeap,
        key: Term,
        file: &'static str,
        line: u32,
        column: u32,
    ) -> (r: Result<Exception, Alloc>)
        requires
            old(heap).wf(),
            old(heap).valid_term(key),
        ensures
            final(heap).wf(),
            final(heap).extends(*old(heap)),
            final(heap).vheap@ == old(heap).vheap@,
            match r {
                Ok(e) => {
                    &&& final(heap).cells@.len() == old(heap).cells@.len() + 1
                    &&& is_tagged_tuple(*final(heap), e.reason, ATOM_BADKEY, key)
                    &&& e.class == (Class::Error { arguments: None })
                    &&& e.stacktrace is None
                    &&& e.file == file
                    &&& e.line == line
                    &&& e.column == column
                },
                Err(_) => final(heap).alloc_failed(*old(heap), 3),
            },
    {
        let tag = Term::atom_from_id(ATOM_BADKEY);
        let base = heap.cells.len();
        proof {
            assert(old(heap).cells@.len() == base);
        }
        let arr: [Term; 2] = [tag, key];
        proof {
            assert(arr@ =~= seq![tag, key]);
        }
        let reason = heap.tuple_from_slice(arr.as_slice())?;
        proof {
            assert(reason->ptr.index == base);
        }
        let error = Self::error(reason, None, None, file, line, column);

        Ok(error)
    }

    /// The error `{badmap, map}`.
    pub fn badmap(
        heap: &mut ProcessHeap,
        map: Term,
        file: &'static str,
        line: u32,
        column: u32,
    ) -> (r: Result<Exception, Alloc>)
        requires
            old(heap).wf(),
            old(heap).valid_term(map),
        ensures
            final(heap).wf(),
            final(heap).extends(*old(heap)),
            final(heap).vheap@ == old(heap).vheap@,
            match r {
                Ok(e) => {
                    &&& final(heap).cells@.len() == old(heap).cells@.len() + 1
                    &&& is_tagged_tuple(*final(heap), e.reason, ATOM_BADMAP, map)
                    &&& e.class == (Class::Error { arguments: None })
                    &&& e.stacktrace is None
                    &&& e.file == file
                    &&& e.line == line
                    &&& e.column == column
                },
                Err(_) => final(heap).alloc_failed(*old(heap), 3),
            },
    {
        let tag = Term::atom_from_id(ATOM_BADMAP);
        let base = heap.cells.len();
        proof {
            assert(old(heap).cells@.len() == base);
        }
        let arr: [Term; 2] = [tag, map];
        proof {
            assert(arr@ =~= seq![tag, map]);
        }
        let reason = heap.tuple_from_slice(arr.as_slice())?;
        proof {
            assert(reason->ptr.index == base);
        }
        let error = Self::error(reason, None, None, file, line, column);

        Ok(error)
    }

    /// An exit with a caller-supplied reason and stacktrace.
    pub fn exit(
        reason: Term,
        stacktrace: Option<Term>,
        file: &'static str,
        line: u32,
        column: u32,
    ) -> (e: Exception)
        ensures
            e == (Exception { class: Class::Exit, reason, stacktrace, file, line, column }),
    {
        let class = Class::Exit;
        Self::new(class, reason, stacktrace, file, line, column)
    }

    /// The canonical "undefined function" exit: reason `undef`, stacktrace
    /// a fresh frame `{module, function, arguments, []}` consed onto the
    /// caller-supplied tail.
    pub fn undef(
        heap: &mut ProcessHeap,
        module: Term,
        function: Term,
        arguments: Term,
        stacktrace_tail: Term,
        file: &'static str,
        line: u32,
        column: u32,
    ) -> (r: Result<Exception, Alloc>)
        requires
            old(heap).wf(),
            old(heap).valid_term(module),
            old(heap).valid_term(function),
            old(heap).valid_term(arguments),
            old(heap).valid_term(stacktrace_tail),
        ensures
            final(heap).wf(),
            final(heap).extends(*old(heap)),
            final(heap).vheap@ == old(heap).vheap@,
            match r {
                Ok(e) => {
                    &&& e.class == Class::Exit
                    &&& e.reason == spec_atom(ATOM_UNDEF)
                    &&& undef_stacktrace_built(
                        *final(heap),
                        *old(heap),
                        module,
                        function,
                        arguments,
                        stacktrace_tail,
                    )
                    &&& e.stacktrace == Some(
                        boxed(old(heap).id, (old(heap).cells@.len() + 1) as usize),
                    )
                    &&& final(heap).used_words == old(heap).used_words + 7
                    &&& e.file == file
                    &&& e.line == line
                    &&& e.column == column
                },
                Err(_) => final(heap).cells@.len() <= old(heap).cells@.len() + 1 && old(
                    heap,
                ).used_words + 7 > old(heap).max_words,
            },
    {
        let reason = Self::undef_reason();
        let stacktrace = Self::undef_stacktrace(
            heap,
            module,
            function,
            arguments,
            stacktrace_tail,
        )?;
        let exit = Self::exit(reason, Some(stacktrace), file, line, column);

        Ok(exit)
    }

    pub fn badarg_reason() -> (t: Term)
        ensures
            t == spec_atom(ATOM_BADARG),
    {
        Term::atom_from_id(ATOM_BADARG)
    }

    pub fn badarith_reason() -> (t: Term)
        ensures
            t == spec_atom(ATOM_BADARITH),
    {
        Term::atom_from_id(ATOM_BADARITH)
    }

    /// The reason `{badarity, {function, arguments}}`.
    pub fn badarity_reason(heap: &mut ProcessHeap, function: Term, arguments: Term) -> (r: Result<
        Term,
        Alloc,
    >)
        requires
            old(heap).wf(),
            old(heap).valid_term(function),
            old(heap).valid_term(arguments),
        ensures
            final(heap).wf(),
            final(heap).extends(*old(heap)),
            final(heap).vheap@ == old(heap).vheap@,
            match r {
                Ok(t) => {
                    &&& final(heap).cells@.len() == old(heap).cells@.len() + 2
                    &&& (final(heap).cells@[old(heap).cells@.len() as int] matches Cell::Tuple {
                        elements,
                    } && elements@ == seq![function, arguments])
                    &&& is_tagged_tuple(
                        *final(heap),
                        t,
                        ATOM_BADARITY,
                        boxed(old(heap).id, old(heap).cells@.len() as usize),
                    )
                    &&& final(heap).used_words == old(heap).used_words + 6
                },
                Err(_) => final(heap).cells@.len() <= old(heap).cells@.len() + 1 && old(
                    heap,
                ).used_words + 6 > old(heap).max_words,
            },
    {
        let base = heap.cells.len();
        proof {
            assert(old(heap).cells@.len() == base);
        }
        let arr: [Term; 2] = [function, arguments];
        proof {
            assert(arr@ =~= seq![function, arguments]);
        }
        let function_arguments = heap.tuple_from_slice(arr.as_slice())?;
        proof {
            assert(function_arguments->ptr.index == base);
        }
        let tag = Self::badarity_tag();
        let base2 = heap.cells.len();
        proof {
            assert(base2 == base + 1);
        }
        let arr2: [Term; 2] = [tag, function_arguments];
        proof {
            assert(arr2@ =~= seq![tag, function_arguments]);
        }
        let t = heap.tuple_from_slice(arr2.as_slice())?;
        proof {
            assert(t->ptr.index == base2);
        }
        Ok(t)
    }

    pub fn badarity_tag() -> (t: Term)
        ensures
            t == spec_atom(ATOM_BADARITY),
    {
        Term::atom_from_id(ATOM_BADARITY)
    }

    /// An error with the given reason, optional arguments and stacktrace.
    pub fn error(
        reason: Term,
        arguments: Option<Term>,
        stacktrace: Option<Term>,
        file: &'static str,
        line: u32,
        column: u32,
    ) -> (e: Exception)
        ensures
            e == (Exception {
                class: Class::Error { arguments },
                reason,
                stacktrace,
                file,
                line,
                column,
            }),
    {
        let class = Class::Error { arguments };
        Self::new(class, reason, stacktrace, file, line, column)
    }

    pub fn new(
        class: Class,
        reason: Term,
        stacktrace: Option<Term>,
        file: &'static str,
        line: u32,
        column: u32,
    ) -> (e: Exception)
        ensures
            e == (Exception { class, reason, stacktrace, file, line, column }),
    {
        Exception { class, reason, stacktrace, file, line, column }
    }

    pub fn undef_reason() -> (t: Term)
        ensures
            t == spec_atom(ATOM_UNDEF),
    {
        Term::atom_from_id(ATOM_UNDEF)
    }

    /// Builds the stacktrace for an undefined call: the 4-element frame
    /// descriptor `{module, function, arguments, []}` (the final empty
    /// list is a fixed placeholder of the frame shape) consed onto `tail`.
    pub fn undef_stacktrace(
        heap: &mut ProcessHeap,
        module: Term,
        function: Term,
        arguments: Term,
        tail: Term,
    ) -> (r: Result<Term, Alloc>)
        requires
            old(heap).wf(),
            old(heap).valid_term(module),
            old(heap).valid_term(function),
            old(heap).valid_term(arguments),
            old(heap).valid_term(tail),
        ensures
            final(heap).wf(),
            final(heap).extends(*old(heap)),
            final(heap).vheap@ == old(heap).vheap@,
            match r {
                Ok(t) => {
                    &&& undef_stacktrace_built(
                        *final(heap),
                        *old(heap),
                        module,
                        function,
                        arguments,
                        tail,
                    )
                    &&& t == boxed(old(heap).id, (old(heap).cells@.len() + 1) as usize)
                    &&& final(heap).used_words == old(heap).used_words + 7
                },
                Err(_) => final(heap).cells@.len() <= old(heap).cells@.len() + 1 && old(
                    heap,
                ).used_words + 7 > old(heap).max_words,
            },
    {
        let base = heap.cells.len();
        proof {
            assert(old(heap).cells@.len() == base);
        }
        let arr: [Term; 4] = [module, function, arguments, Term::Nil];
        proof {
            assert(arr@ =~= seq![module, function, arguments, Term::Nil]);
        }
        let top = heap.tuple_from_slice(arr.as_slice())?;
        let base1 = heap.cells.len();
        proof {
            assert(top->ptr.index == base);
            assert(base1 == base + 1);
        }
        let t = heap.cons(top, tail)?;
        proof {
            assert(t->ptr.index == base1);
        }
        Ok(t)
    }
}

/// The two fresh cells of an undef stacktrace: the frame descriptor tuple
/// and the cons linking it onto the tail.
pub open spec fn undef_stacktrace_built(
    h: ProcessHeap,
    pre: ProcessHeap,
    module: Term,
    function: Term,
    arguments: Term,
    tail: Term,
) -> bool {
    &&& h.cells@.len() == pre.cells@.len() + 2
    &&& (h.cells@[pre.cells@.len() as int] matches Cell::Tuple { elements } && elements@ == seq![
        module,
        function,
        arguments,
        Term::Nil,
    ])
    &&& h.cells@[pre.cells@.len() as int + 1] == (Cell::Cons {
        head: boxed(pre.id, pre.cells@.len() as usize),
        tail,
    })
}

impl PartialEq for Exception {
    /// Provenance (`file`, `line`, `column`) does not take part: it is
    /// diagnostic only.
    fn eq(&self, other: &Exception) -> (r: bool) {
        let stacktrace_eq = match (self.stacktrace, other.stacktrace) {
            (None, None) => true,
            (Some(a), Some(b)) => a == b,
            _ => false,
        };
        self.class == other.class && self.reason == other.reason && stacktrace_eq
    }
}

impl vstd::std_specs::cmp::PartialEqSpecImpl for Exception {
    open spec fn obeys_eq_spec() -> bool {
        true
    }

    open spec fn eq_spec(&self, other: &Exception) -> bool {
        self.class == other.class && self.reason == other.reason && self.stacktrace
            == other.stacktrace
    }
}

impl Eq for Exception {

}

/// Exception equality ignores provenance: two exceptions built from the
/// same class, reason and stacktrace compare equal whatever their source
/// file, line and column.
pub proof fn lemma_exception_eq_ignores_provenance(a: Exception, b: Exception)
    requires
        a.class == b.class,
        a.reason == b.reason,
        a.stacktrace == b.stacktrace,
    ensures
        a.eq_spec(&b),
        b.eq_spec(&a),
{
}

} // verus!
