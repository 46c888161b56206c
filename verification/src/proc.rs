//! A process: its status state machine, code stack of continuation frames,
//! value stack, reduction accounting, observable output, and exclusively
//! owned heap.

use vstd::prelude::*;
use crate::code::{Frame, Placement};
use crate::exception::Exception;
use crate::heap::{Alloc, ProcessHeap};
use crate::term::{ModuleFunctionArity, Term};

verus! {

/// Reduction budget of one scheduling quantum.
pub const REDUCTIONS_PER_QUANTUM: u64 = 2000;

/// Default size of a fresh heap's bump region, in words.
pub const DEFAULT_MIN_HEAP_WORDS: usize = 233;

/// Default ceiling standing for the global memory one process may draw on.
pub const DEFAULT_MAX_HEAP_WORDS: usize = 0x10000000;

/// The scheduling states of a process.
#[derive(Clone, Copy, Debug)]
pub enum Status {
    /// Enqueued and eligible for selection.
    Runnable,
    /// Currently owning the worker.
    Running,
    /// Not schedulable until an external event wakes it.
    Waiting,
    /// Terminal, carrying the causing exception.
    Exiting(Exception),
}

/// Run-queue tiers; a worker always serves the highest non-empty one.
#[derive(Clone, Copy, Debug, PartialEq, Eq, Structural)]
pub enum Priority {
    Low,
    Normal,
    High,
    Max,
}

/// Spawn options: at minimum a heap-size hint.
#[derive(Clone, Copy, Debug)]
pub struct Options {
    pub min_heap_size: Option<usize>,
    pub max_heap_size: Option<usize>,
    pub priority: Priority,
}

impl Default for Options {
    fn default() -> (o: Options)
        ensures
            o.min_heap_size is None,
            o.max_heap_size is None,
            o.priority == Priority::Normal,
    {
        Options { min_heap_size: None, max_heap_size: None, priority: Priority::Normal }
    }
}

/// One process.
pub struct Process {
    pub pid_number: u64,
    pub pid_serial: u64,
    pub parent_pid: Option<u64>,
    pub priority: Priority,
    pub status: Status,
    pub initial_module_function_arity: ModuleFunctionArity,
    /// Code stack of continuation frames; the last element is the top.
    pub frames: Vec<Frame>,
    /// Value stack; the last element is the top.
    pub stack: Vec<Term>,
    /// The exclusively owned heap.
    pub heap: ProcessHeap,
    /// Reductions performed within the current quantum.
    pub run_reductions: u64,
    /// Reductions performed over the process's whole life.
    pub total_reductions: u64,
    /// Observable output lines, in order of emission.
    pub output: Vec<Term>,
}

impl Process {
    /// Well-formedness: the heap is sound and every stacked value lives on
    /// (or is independent of) this process's heap.
    pub open spec fn wf(self) -> bool {
        &&& self.heap.wf()
        &&& forall|j: int|
            0 <= j < self.stack@.len() ==> self.heap.valid_term(#[trigger] self.stack@[j])
    }

    /// The fields naming this process and its place in the system are the
    /// same in both.
    pub open spec fn same_identity(self, other: Process) -> bool {
        &&& self.pid_number == other.pid_number
        &&& self.pid_serial == other.pid_serial
        &&& self.parent_pid == other.parent_pid
        &&& self.priority == other.priority
        &&& self.initial_module_function_arity == other.initial_module_function_arity
    }

    /// The pid term of this process.
    pub fn pid_term(&self) -> (t: Term)
        ensures
            t == (Term::Pid { number: self.pid_number, serial: self.pid_serial }),
    {
        Term::Pid { number: self.pid_number, serial: self.pid_serial }
    }

    /// Pushes a value onto the value stack.  The stack lives off-heap in
    /// this model, so the push itself cannot exhaust the heap.
    pub fn stack_push(&mut self, term: Term) -> (r: Result<(), Alloc>)
        requires
            old(self).wf(),
            old(self).heap.valid_term(term),
        ensures
            final(self).wf(),
            r is Ok,
            *final(self) == (Process { stack: final(self).stack, ..*old(self) }),
            final(self).stack@ == old(self).stack@.push(term),
    {
        self.stack.push(term);
        Ok(())
    }

    /// Pops the top of the value stack.
    pub fn stack_pop(&mut self) -> (r: Option<Term>)
        requires
            old(self).wf(),
        ensures
            final(self).wf(),
            *final(self) == (Process { stack: final(self).stack, ..*old(self) }),
            match r {
                Some(t) => old(self).stack@.len() > 0 && t == old(self).stack@.last()
                    && final(self).stack@ == old(self).stack@.drop_last() && old(
                    self,
                ).heap.valid_term(t),
                None => old(self).stack@.len() == 0 && final(self).stack@ == old(self).stack@,
            },
    {
        self.stack.pop()
    }

    /// Places a frame: `Push` stacks it on top, `Replace` substitutes it
    /// for the current top (tail-call style; on an empty code stack it is
    /// simply placed).
    pub fn place_frame(&mut self, frame: Frame, placement: Placement)
        ensures
            *final(self) == (Process { frames: final(self).frames, ..*old(self) }),
            match placement {
                Placement::Push => final(self).frames@ == old(self).frames@.push(frame),
                Placement::Replace => final(self).frames@ == if old(self).frames@.len() == 0 {
                    old(self).frames@.push(frame)
                } else {
                    old(self).frames@.drop_last().push(frame)
                },
            },
    {
        match placement {
            Placement::Push => {
                self.frames.push(frame);
            },
            Placement::Replace => {
                if self.frames.len() > 0 {
                    let _ = self.frames.pop();
                }
                self.frames.push(frame);
            },
        }
    }

    /// Removes the top frame, if any.
    pub fn remove_last_frame(&mut self)
        ensures
            *final(self) == (Process { frames: final(self).frames, ..*old(self) }),
            final(self).frames@ == if old(self).frames@.len() == 0 {
                old(self).frames@
            } else {
                old(self).frames@.drop_last()
            },
    {
        if self.frames.len() > 0 {
            let _ = self.frames.pop();
        }
    }

    /// Accounts one completed reduction.
    pub fn reduce(&mut self)
        ensures
            *final(self) == (Process {
                run_reductions: final(self).run_reductions,
                total_reductions: final(self).total_reductions,
                ..*old(self)
            }),
            old(self).run_reductions < u64::MAX ==> final(self).run_reductions == old(
                self,
            ).run_reductions + 1,
            old(self).run_reductions == u64::MAX ==> final(self).run_reductions == old(
                self,
            ).run_reductions,
            old(self).total_reductions < u64::MAX ==> final(self).total_reductions == old(
                self,
            ).total_reductions + 1,
            old(self).total_reductions == u64::MAX ==> final(self).total_reductions == old(
                self,
            ).total_reductions,
    {
        if self.run_reductions < u64::MAX {
            self.run_reductions = self.run_reductions + 1;
        }
        if self.total_reductions < u64::MAX {
            self.total_reductions = self.total_reductions + 1;
        }
    }

    /// Writes an exception into the status: the process is now Exiting and
    /// will not be scheduled further.
    pub fn exception(&mut self, exception: Exception)
        ensures
            *final(self) == (Process { status: Status::Exiting(exception), ..*old(self) }),
    {
        self.status = Status::Exiting(exception);
    }

    /// Whether the process is in its terminal state.
    pub fn is_exiting(&self) -> (r: bool)
        ensures
            r == (self.status is Exiting),
    {
        matches!(self.status, Status::Exiting(_))
    }

    /// Depth of the code stack.
    pub fn code_stack_len(&self) -> (r: usize)
        ensures
            r == self.frames@.len(),
    {
        self.frames.len()
    }

    /// The identity of the function the process is currently in: its top
    /// frame's, if it has one.
    pub fn current_module_function_arity(&self) -> (r: Option<ModuleFunctionArity>)
        ensures
            r == if self.frames@.len() > 0 {
                Some(self.frames@.last().module_function_arity)
            } else {
                None::<ModuleFunctionArity>
            },
    {
        if self.frames.len() > 0 {
            Some(self.frames[self.frames.len() - 1].module_function_arity)
        } else {
            None
        }
    }

    /// The stacktrace view of the code stack: the identity of each frame,
    /// top first.
    pub fn stacktrace(&self) -> (r: Vec<ModuleFunctionArity>)
        ensures
            r@.len() == self.frames@.len(),
            forall|j: int|
                0 <= j < r@.len() ==> #[trigger] r@[j] == self.frames@[self.frames@.len() - 1
                    - j].module_function_arity,
    {
        let mut r: Vec<ModuleFunctionArity> = Vec::new();
        let mut k = self.frames.len();
        while k > 0
            invariant
                k <= self.frames@.len(),
                r@.len() == self.frames@.len() - k,
                forall|j: int|
                    0 <= j < r@.len() ==> #[trigger] r@[j] == self.frames@[self.frames@.len() - 1
                        - j].module_function_arity,
            decreases k,
        {
            k = k - 1;
            r.push(self.frames[k].module_function_arity);
        }
        r
    }
}

} // verus!
