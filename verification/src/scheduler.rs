//! The scheduler: owns the processes of one worker, the code table they
//! dispatch through, and the priority run queues.  One process at a time is
//! driven through its continuation stack under a reduction budget; the
//! queues are served highest tier first, round-robin within a tier.

use vstd::prelude::*;
use crate::apply_3;
use crate::code::{Frame, Native, Placement};
use crate::exception::Exception;
use crate::export::ExportTable;
use crate::heap::{arena_extends_bytes, mirrors, Alloc, BinaryArena, ProcessHeap};
use crate::apply_3::{apply_badarg_step, apply_code_failed, apply_code_hit, apply_code_miss,
    spec_dispatch};
use crate::natives::{count_down_code, count_down_step, inspect_code, inspect_step, loop_code,
    loop_step, wait_code, wait_step};
use crate::proc::{Options, Priority, Process, Status, DEFAULT_MAX_HEAP_WORDS,
    DEFAULT_MIN_HEAP_WORDS, REDUCTIONS_PER_QUANTUM};
use crate::term::{Atom, ModuleFunctionArity, Term, ATOM_NORMAL};

verus! {

/// The handle a successful spawn returns.
#[derive(Clone, Copy, Debug, PartialEq, Eq, Structural)]
pub struct Spawned {
    pub pid: u64,
}

/// The bump-region size a spawn's options ask for.
pub open spec fn spec_capacity_words(options: Options) -> int {
    let cap = match options.min_heap_size {
        Some(n) => n as int,
        None => DEFAULT_MIN_HEAP_WORDS as int,
    };
    let max = spec_max_words(options);
    if cap <= max {
        cap
    } else {
        max
    }
}

/// The heap ceiling a spawn's options ask for.
pub open spec fn spec_max_words(options: Options) -> int {
    match options.max_heap_size {
        Some(n) => n as int,
        None => {
            let cap = match options.min_heap_size {
                Some(n) => n as int,
                None => DEFAULT_MIN_HEAP_WORDS as int,
            };
            if cap <= DEFAULT_MAX_HEAP_WORDS {
                DEFAULT_MAX_HEAP_WORDS as int
            } else {
                cap
            }
        },
    }
}

/// One worker's scheduler.
pub struct Scheduler {
    pub id: u64,
    pub code_table: ExportTable,
    pub processes: Vec<Process>,
    pub queue_low: Vec<u64>,
    pub queue_normal: Vec<u64>,
    pub queue_high: Vec<u64>,
    pub queue_max: Vec<u64>,
}

impl Scheduler {
    /// Well-formedness: each process is sound, sits at the index its pid
    /// names, owns the heap of the same identity, and every queued pid
    /// names a process.
    pub open spec fn wf(self) -> bool {
        &&& forall|i: int|
            0 <= i < self.processes@.len() ==> (#[trigger] self.processes@[i]).wf()
        &&& forall|i: int|
            0 <= i < self.processes@.len() ==> (#[trigger] self.processes@[i]).pid_number
                == i as u64
        &&& forall|i: int|
            0 <= i < self.processes@.len() ==> (#[trigger] self.processes@[i]).heap.id == i as u64
        &&& forall|j: int|
            0 <= j < self.queue_low@.len() ==> #[trigger] self.queue_low@[j]
                < self.processes@.len() as u64
        &&& forall|j: int|
            0 <= j < self.queue_normal@.len() ==> #[trigger] self.queue_normal@[j]
                < self.processes@.len() as u64
        &&& forall|j: int|
            0 <= j < self.queue_high@.len() ==> #[trigger] self.queue_high@[j]
                < self.processes@.len() as u64
        &&& forall|j: int|
            0 <= j < self.queue_max@.len() ==> #[trigger] self.queue_max@[j]
                < self.processes@.len() as u64
    }

    /// The run queue of one priority tier.
    pub open spec fn spec_queue(self, priority: Priority) -> Seq<u64> {
        match priority {
            Priority::Low => self.queue_low@,
            Priority::Normal => self.queue_normal@,
            Priority::High => self.queue_high@,
            Priority::Max => self.queue_max@,
        }
    }

    /// A fresh scheduler with an empty code table, no processes and empty
    /// queues.
    pub fn new(id: u64) -> (s: Scheduler)
        ensures
            s.wf(),
            s.id == id,
            s.processes@.len() == 0,
            s.queue_low@.len() == 0,
            s.queue_normal@.len() == 0,
            s.queue_high@.len() == 0,
            s.queue_max@.len() == 0,
            forall|key: (u64, u64, u8)|
                !crate::export::export_entries(s.code_table).contains_key(key),
    {
        Scheduler {
            id,
            code_table: ExportTable::new(),
            processes: Vec::new(),
            queue_low: Vec::new(),
            queue_normal: Vec::new(),
            queue_high: Vec::new(),
            queue_max: Vec::new(),
        }
    }

    /// Number of processes enqueued at one priority.
    pub fn run_queue_len(&self, priority: Priority) -> (r: usize)
        ensures
            r == self.spec_queue(priority).len(),
    {
        match priority {
            Priority::Low => self.queue_low.len(),
            Priority::Normal => self.queue_normal.len(),
            Priority::High => self.queue_high.len(),
            Priority::Max => self.queue_max.len(),
        }
    }

    /// The arguments a spawn accepts: immediate values (copied by value),
    /// or — when a parent is named whose heap is sound against the shared
    /// arena — any terms of that parent's heap, which are then deep-cloned
    /// onto the child's own heap.
    pub open spec fn spawn_arguments_ok(
        self,
        arena: BinaryArena,
        parent: Option<u64>,
        arguments: Seq<Term>,
    ) -> bool {
        ||| (forall|j: int| 0 <= j < arguments.len() ==> !((#[trigger] arguments[j]) is Boxed))
        ||| {
            &&& parent matches Some(pp)
            &&& pp < self.processes@.len()
            &&& self.processes@[pp as int].heap.wf_with(arena)
            &&& forall|j: int|
                0 <= j < arguments.len() ==> self.processes@[pp as int].heap.valid_term(
                    #[trigger] arguments[j],
                )
        }
    }

    /// Creates a process without scheduling it: a fresh exclusively owned
    /// heap sized per the options, the given entry continuation, and the
    /// arguments laid on the value stack with the first on top.  Immediate
    /// argument values are copied; boxed values of the parent's heap are
    /// deep-cloned onto the child's own heap (off-heap buffers are
    /// shared through the arena).
    pub fn spawn(
        &mut self,
        arena: &mut BinaryArena,
        parent: Option<u64>,
        options: Options,
        module: Atom,
        function: Atom,
        arguments: &[Term],
        native: Native,
    ) -> (r: Result<Spawned, Alloc>)
        requires
            old(self).wf(),
            old(self).spawn_arguments_ok(*old(arena), parent, arguments@),
            arguments@.len() <= 255,
        ensures
            final(self).wf(),
            final(self).id == old(self).id,
            final(self).code_table == old(self).code_table,
            final(self).queue_low@ == old(self).queue_low@,
            final(self).queue_normal@ == old(self).queue_normal@,
            final(self).queue_high@ == old(self).queue_high@,
            final(self).queue_max@ == old(self).queue_max@,
            arena_extends_bytes(*final(arena), *old(arena)),
            final(arena).buffers@.len() == old(arena).buffers@.len(),
            (forall|j: int| 0 <= j < arguments@.len() ==> !((#[trigger] arguments@[j]) is Boxed))
                ==> r is Ok,
            match r {
                Ok(sp) => ({
                    let child = final(self).processes@.last();
                    &&& sp.pid == old(self).processes@.len()
                    &&& final(self).processes@.len() == old(self).processes@.len() + 1
                    &&& forall|i: int|
                        0 <= i < old(self).processes@.len() ==> final(self).processes@[i]
                            == #[trigger] old(self).processes@[i]
                    &&& child.status is Runnable
                    &&& child.parent_pid == parent
                    &&& child.priority == options.priority
                    &&& child.frames@ == seq![
                        (Frame {
                            module_function_arity: ModuleFunctionArity {
                                module,
                                function,
                                arity: arguments@.len() as u8,
                            },
                            native,
                        }),
                    ]
                    &&& child.stack@.len() == arguments@.len()
                    &&& ((forall|j: int|
                        0 <= j < arguments@.len() ==> !((#[trigger] arguments@[j]) is Boxed))
                        ==> child.stack@ == arguments@.reverse())
                    &&& (parent matches Some(pp) ==> ((pp < old(self).processes@.len() && old(
                        self,
                    ).processes@[pp as int].heap.wf_with(*old(arena)) && (forall|j: int|
                        0 <= j < arguments@.len() ==> old(
                            self,
                        ).processes@[pp as int].heap.valid_term(#[trigger] arguments@[j])))
                        ==> (forall|j: int|
                        0 <= j < arguments@.len() ==> mirrors(
                            old(self).processes@[pp as int].heap,
                            #[trigger] arguments@[arguments@.len() - 1 - j],
                            child.heap,
                            child.stack@[j],
                        ))))
                    &&& child.heap.capacity_words == spec_capacity_words(options)
                    &&& child.heap.max_words == spec_max_words(options)
                    &&& child.output@.len() == 0
                    &&& child.run_reductions == 0
                    &&& child.total_reductions == 0
                }),
                Err(_) => {
                    &&& final(self).processes@ == old(self).processes@
                    &&& (parent matches Some(pp) && pp < old(self).processes@.len() && old(
                        self,
                    ).processes@[pp as int].heap.clone_words_all(
                        arguments@,
                        old(self).processes@[pp as int].heap.cells@.len() as int,
                    ) > spec_max_words(options))
                },
            },
    {
        let pid = self.spawn_empty(parent, options, module, function, arguments.len() as u8);
        let ix = self.processes.len() - 1;
        proof {
            assert(ix == pid);
            assert(self.processes@[ix as int] == self.processes@.last());
        }
        let mut child = self.processes.remove(ix);
        proof {
            assert(self.processes@ =~= old(self).processes@);
        }
        let entry = Frame::new(
            ModuleFunctionArity { module, function, arity: arguments.len() as u8 },
            native,
        );
        child.place_frame(entry, Placement::Push);
        let vals = match self.spawn_values(arena, &mut child, arguments) {
            Ok(v) => v,
            Err(e) => {
                return Err(e);
            },
        };
        let mut k = vals.len();
        let ghost pre_push = child;
        while k > 0
            invariant
                child.wf(),
                k <= vals@.len(),
                child == (Process { stack: child.stack, ..pre_push }),
                forall|j: int| 0 <= j < vals@.len() ==> pre_push.heap.valid_term(
                    #[trigger] vals@[j],
                ),
                child.stack@ == pre_push.stack@ + vals@.subrange(
                    k as int,
                    vals@.len() as int,
                ).reverse(),
            decreases k,
        {
            k = k - 1;
            match child.stack_push(vals[k]) {
                Ok(()) => {},
                Err(_) => {},
            }
            proof {
                assert(vals@.subrange(k as int, vals@.len() as int).reverse() =~= vals@.subrange(
                    k as int + 1,
                    vals@.len() as int,
                ).reverse().push(vals@[k as int]));
            }
        }
        proof {
            assert(pre_push.stack@.len() == 0);
            assert(vals@.subrange(0, vals@.len() as int) =~= vals@);
            assert(pre_push.stack@ + vals@.reverse() =~= vals@.reverse());
            assert(child.stack@ == vals@.reverse());
        }
        self.processes.insert(ix, child);
        proof {
            assert(self.processes@ =~= old(self).processes@.push(child));
            assert forall|i: int| 0 <= i < self.processes@.len() implies (
            #[trigger] self.processes@[i]).wf() && self.processes@[i].pid_number == i as u64
                && self.processes@[i].heap.id == i as u64 by {
                if i < old(self).processes@.len() {
                    assert(old(self).processes@[i].wf());
                }
            }
        }
        Ok(Spawned { pid })
    }

    /// The values a fresh child's stack receives for the given arguments:
    /// the arguments themselves when all are immediate, else deep clones
    /// from the parent's heap onto the child's.
    fn spawn_values(
        &self,
        arena: &mut BinaryArena,
        child: &mut Process,
        arguments: &[Term],
    ) -> (r: Result<Vec<Term>, Alloc>)
        requires
            self.wf(),
            self.spawn_arguments_ok(*old(arena), old(child).parent_pid, arguments@),
            old(child).wf(),
            old(child).heap.cells@.len() == 0,
            old(child).heap.used_words == 0,
            old(child).heap.vheap@.len() == 0,
        ensures
            final(child).wf(),
            *final(child) == (Process { heap: final(child).heap, ..*old(child) }),
            final(child).heap.same_config(old(child).heap),
            arena_extends_bytes(*final(arena), *old(arena)),
            final(arena).buffers@.len() == old(arena).buffers@.len(),
            (forall|j: int| 0 <= j < arguments@.len() ==> !((#[trigger] arguments@[j]) is Boxed))
                ==> r is Ok,
            match r {
                Ok(vals) => {
                    &&& vals@.len() == arguments@.len()
                    &&& forall|j: int|
                        0 <= j < vals@.len() ==> final(child).heap.valid_term(#[trigger] vals@[j])
                    &&& ((forall|j: int|
                        0 <= j < arguments@.len() ==> !((#[trigger] arguments@[j]) is Boxed))
                        ==> vals@ == arguments@ && final(child).heap == old(child).heap)
                    &&& (old(child).parent_pid matches Some(pp) ==> ((pp
                        < self.processes@.len() && self.processes@[pp as int].heap.wf_with(
                        *old(arena),
                    ) && (forall|j: int|
                        0 <= j < arguments@.len() ==> self.processes@[pp as int].heap.valid_term(
                            #[trigger] arguments@[j],
                        ))) ==> ((forall|j: int|
                        0 <= j < arguments@.len() ==> mirrors(
                            self.processes@[pp as int].heap,
                            #[trigger] arguments@[j],
                            final(child).heap,
                            vals@[j],
                        )) && final(child).heap.used_words
                        <= self.processes@[pp as int].heap.clone_words_all(
                        arguments@,
                        self.processes@[pp as int].heap.cells@.len() as int,
                    ))))
                },
                Err(_) => {
                    &&& old(child).parent_pid matches Some(pp)
                    &&& pp < self.processes@.len()
                    &&& self.processes@[pp as int].heap.clone_words_all(
                        arguments@,
                        self.processes@[pp as int].heap.cells@.len() as int,
                    ) > old(child).heap.max_words
                },
            },
    {
        let mut any_boxed = false;
        let mut k0: usize = 0;
        while k0 < arguments.len()
            invariant
                k0 <= arguments@.len(),
                any_boxed == !(forall|j: int|
                    0 <= j < k0 ==> !((#[trigger] arguments@[j]) is Boxed)),
            decreases arguments@.len() - k0,
        {
            if matches!(arguments[k0], Term::Boxed { .. }) {
                any_boxed = true;
            }
            k0 = k0 + 1;
        }
        if !any_boxed {
            proof {
                match child.parent_pid {
                    Some(pp) => {
                        if 0 <= pp < self.processes@.len() && self.processes@[pp as int].heap
                            .wf_with(*old(arena)) && (forall|j: int|
                            0 <= j < arguments@.len() ==> self
                                .processes@[pp as int].heap.valid_term(
                                #[trigger] arguments@[j],
                            )) {
                            let phe = self.processes@[pp as int].heap;
                            assert forall|j: int| 0 <= j < arguments@.len() implies phe
                                .term_below(#[trigger] arguments@[j], phe.cells@.len() as int)
                                by {}
                            crate::heap::lemma_clone_words_all_nonneg(
                                phe,
                                arguments@,
                                phe.cells@.len() as int,
                            );
                        }
                    },
                    None => {},
                }
            }
            return Ok(vstd::slice::slice_to_vec(arguments));
        }
        let pp: u64 = match child.parent_pid {
            Some(pp) => pp,
            None => {
                proof {
                    assert(false);
                }
                0
            },
        };
        let n = self.processes.len();
        let pix = pp as usize;
        proof {
            assert(self.processes@.len() == n);
            assert(pp < n as u64);
            assert(pix == pp);
        }
        let src = &self.processes[pix].heap;
        let src_len = src.cells.len();
        proof {
            assert(src.cells@.len() == src_len);
            assert forall|j: int| 0 <= j < arguments@.len() implies src.term_below(
                #[trigger] arguments@[j],
                src_len as int,
            ) by {
                assert(src.valid_term(arguments@[j]));
            }
            assert(child.heap.wf_with(*arena));
        }
        child.heap.clone_each(arena, src, arguments, Ghost(src_len as int))
    }

    /// Creates a process with an empty code stack.
    fn spawn_empty(
        &mut self,
        parent: Option<u64>,
        options: Options,
        module: Atom,
        function: Atom,
        arity: u8,
    ) -> (pid: u64)
        requires
            old(self).wf(),
        ensures
            final(self).wf(),
            final(self).id == old(self).id,
            final(self).code_table == old(self).code_table,
            final(self).queue_low@ == old(self).queue_low@,
            final(self).queue_normal@ == old(self).queue_normal@,
            final(self).queue_high@ == old(self).queue_high@,
            final(self).queue_max@ == old(self).queue_max@,
            pid == old(self).processes@.len(),
            final(self).processes@.len() == old(self).processes@.len() + 1,
            forall|i: int|
                0 <= i < old(self).processes@.len() ==> final(self).processes@[i] == #[trigger] old(
                            self,
                        ).processes@[i],
            ({
                let child = final(self).processes@.last();
                &&& child.status is Runnable
                &&& child.parent_pid == parent
                &&& child.priority == options.priority
                &&& child.pid_number == pid
                &&& child.pid_serial == 0
                &&& child.initial_module_function_arity == (ModuleFunctionArity {
                    module,
                    function,
                    arity,
                })
                &&& child.frames@.len() == 0
                &&& child.stack@.len() == 0
                &&& child.heap.cells@.len() == 0
                &&& child.heap.used_words == 0
                &&& child.heap.id == pid
                &&& child.heap.capacity_words == spec_capacity_words(options)
                &&& child.heap.max_words == spec_max_words(options)
                &&& child.heap.vheap@.len() == 0
                &&& child.output@.len() == 0
                &&& child.run_reductions == 0
                &&& child.total_reductions == 0
            }),
    {
        let pid = self.processes.len() as u64;
        let capacity0 = match options.min_heap_size {
            Some(n) => n,
            None => DEFAULT_MIN_HEAP_WORDS,
        };
        let max_words = match options.max_heap_size {
            Some(n) => n,
            None => if capacity0 <= DEFAULT_MAX_HEAP_WORDS {
                DEFAULT_MAX_HEAP_WORDS
            } else {
                capacity0
            },
        };
        let capacity = if capacity0 <= max_words {
            capacity0
        } else {
            max_words
        };
        let heap = ProcessHeap::new(pid, capacity, max_words);
        let child = Process {
            pid_number: pid,
            pid_serial: 0,
            parent_pid: parent,
            priority: options.priority,
            status: Status::Runnable,
            initial_module_function_arity: ModuleFunctionArity { module, function, arity },
            frames: Vec::new(),
            stack: Vec::new(),
            heap,
            run_reductions: 0,
            total_reductions: 0,
            output: Vec::new(),
        };
        self.processes.push(child);
        let n2 = self.processes.len();
        proof {
            assert(self.processes@.len() == n2);
            assert(old(self).processes@.len() == n2 - 1);
            assert forall|i: int| 0 <= i < self.processes@.len() implies (
            #[trigger] self.processes@[i]).wf() && self.processes@[i].pid_number == i as u64
                && self.processes@[i].heap.id == i as u64 by {
                if i < old(self).processes@.len() {
                    assert(old(self).processes@[i].wf());
                }
            }
        }
        pid
    }

    /// Enqueues a runnable process at the back of its priority's queue.
    pub fn schedule(&mut self, pid: u64)
        requires
            old(self).wf(),
            pid < old(self).processes@.len(),
        ensures
            final(self).wf(),
            *final(self) == (Scheduler {
                queue_low: final(self).queue_low,
                queue_normal: final(self).queue_normal,
                queue_high: final(self).queue_high,
                queue_max: final(self).queue_max,
                ..*old(self)
            }),
            ({
                let priority = old(self).processes@[pid as int].priority;
                &&& final(self).spec_queue(priority) == old(self).spec_queue(priority).push(pid)
                &&& forall|p: Priority|
                    p != priority ==> final(self).spec_queue(p) == old(self).spec_queue(p)
            }),
    {
        let n = self.processes.len();
        let ix = pid as usize;
        proof {
            assert(self.processes@.len() == n);
            assert(pid < n as u64);
            assert(ix == pid);
        }
        let priority = self.processes[ix].priority;
        match priority {
            Priority::Low => self.queue_low.push(pid),
            Priority::Normal => self.queue_normal.push(pid),
            Priority::High => self.queue_high.push(pid),
            Priority::Max => self.queue_max.push(pid),
        }
    }
}


/// One round-robin step on a queue: the front moves to the back.
pub open spec fn rotate(q: Seq<u64>) -> Seq<u64> {
    if q.len() == 0 {
        q
    } else {
        q.drop_first().push(q.first())
    }
}

/// `n` round-robin steps.
pub open spec fn rotate_n(q: Seq<u64>, n: nat) -> Seq<u64>
    decreases n,
{
    if n == 0 {
        q
    } else {
        rotate_n(rotate(q), (n - 1) as nat)
    }
}

/// Reduction fairness of the round-robin discipline: starting a window
/// with processes `q` enqueued in one tier, each of which stays runnable
/// (a looping continuation under a fixed per-quantum budget), the process
/// at position `i` owns the worker in quantum `i`; every process is
/// therefore scheduled exactly once within any window of `q.len()` quanta,
/// and none starves.
pub proof fn lemma_round_robin_no_starvation(q: Seq<u64>, i: int)
    requires
        0 <= i < q.len(),
    ensures
        rotate_n(q, i as nat).len() == q.len(),
        rotate_n(q, i as nat).first() == q[i],
    decreases i,
{
    if i > 0 {
        lemma_round_robin_no_starvation(rotate(q), i - 1);
        assert(rotate(q)[i - 1] == q[i]);
    }
}

/// A kill: the exit a process receives when an allocation fails inside
/// one of its frames — a system fault, not a catchable exception.
pub open spec fn exit_killed(status: Status) -> bool {
    &&& status matches Status::Exiting(e)
    &&& e.class == crate::exception::Class::Exit
    &&& e.reason == crate::exception::spec_atom(crate::term::ATOM_KILLED)
    &&& e.stacktrace is None
}

/// One reduction of the run loop: the exact effect of invoking the top
/// frame of a running process within its budget.  Each continuation kind
/// contributes its own step predicate; an apply frame over too few
/// operands exits `badarg`, and an allocation failure while building the
/// `undef` exception kills the process on the spot.
pub open spec fn frame_step(table: ExportTable, pre: Process, post: Process) -> bool {
    &&& pre.frames@.len() > 0
    &&& pre.status is Running
    &&& pre.run_reductions < REDUCTIONS_PER_QUANTUM
    &&& match pre.frames@.last().native {
        Native::Apply3 => {
            ||| apply_badarg_step(pre, post)
            ||| apply_code_hit(table, pre, post)
            ||| apply_code_miss(table, pre, post)
            ||| exists|mid: Process|
                #[trigger] apply_code_failed(table, pre, mid) && post == (Process {
                    status: post.status,
                    ..mid
                }) && exit_killed(post.status)
        },
        Native::CountDown => count_down_step(pre, post),
        Native::Loop => loop_step(pre, post),
        Native::Inspect => inspect_step(pre, post),
        Native::Wait => wait_step(pre, post),
    }
}

/// A chain of `n` frame steps from `pre` to `post`.
pub open spec fn frame_steps(table: ExportTable, pre: Process, post: Process, n: nat) -> bool
    decreases n,
{
    if n == 0 {
        post == pre
    } else {
        exists|mid: Process|
            #[trigger] frame_step(table, pre, mid) && frame_steps(table, mid, post, (n - 1) as nat)
    }
}

/// A chain extends by one step at its end.
proof fn lemma_frame_steps_snoc(table: ExportTable, a: Process, b: Process, c: Process, n: nat)
    requires
        frame_steps(table, a, b, n),
        frame_step(table, b, c),
    ensures
        frame_steps(table, a, c, (n + 1) as nat),
    decreases n,
{
    if n == 0 {
        assert(b == a);
        assert(frame_steps(table, c, c, 0));
    } else {
        let mid = choose|mid: Process|
            #[trigger] frame_step(table, a, mid) && frame_steps(table, mid, b, (n - 1) as nat);
        lemma_frame_steps_snoc(table, mid, b, c, (n - 1) as nat);
    }
}

/// Every frame step advances the quantum counter by exactly one.
proof fn lemma_frame_step_reductions(table: ExportTable, pre: Process, post: Process)
    requires
        frame_step(table, pre, post),
    ensures
        post.run_reductions == pre.run_reductions + 1,
        post.same_identity(pre),
        post.heap.extends(pre.heap),
{
    match pre.frames@.last().native {
        Native::Apply3 => {
            if !(apply_badarg_step(pre, post) || apply_code_hit(table, pre, post)
                || apply_code_miss(table, pre, post)) {
                let mid = choose|mid: Process|
                    #[trigger] apply_code_failed(table, pre, mid) && post == (Process {
                        status: post.status,
                        ..mid
                    }) && exit_killed(post.status);
                assert(mid.run_reductions == pre.run_reductions + 1);
            }
        },
        _ => {},
    }
}

/// The state a quantum starts a runnable process in: Running, with a
/// fresh reduction budget.
pub open spec fn quantum_start(p: Process) -> Process {
    Process { status: Status::Running, run_reductions: 0, ..p }
}

/// What one quantum does to a runnable process: some chain of frame steps
/// runs from the reset state, and the loop stops the first moment the
/// code stack is empty while still running (normal completion), the
/// budget is exhausted (preemption back to Runnable), or a step has left
/// the process Waiting or Exiting (it is left exactly as that step put
/// it).
pub open spec fn quantum_outcome(table: ExportTable, p0: Process, p1: Process) -> bool {
    exists|n: nat, mid: Process|
        {
            &&& #[trigger] frame_steps(table, quantum_start(p0), mid, n)
            &&& if mid.frames@.len() == 0 && mid.status is Running {
                &&& p1 == (Process { status: p1.status, ..mid })
                &&& exit_normal(p1.status)
            } else if mid.run_reductions >= REDUCTIONS_PER_QUANTUM && mid.status is Running {
                p1 == (Process { status: Status::Runnable, ..mid })
            } else {
                &&& !(mid.status is Running)
                &&& p1 == mid
            }
        }
}

impl Scheduler {
    /// Executes the top frame of a running process once: exactly one
    /// reduction, whose effect is one `frame_step`.  An allocation failure
    /// inside the frame is a system fault: the process is killed on the
    /// spot.
    fn run_frame(p: &mut Process, table: &ExportTable)
        requires
            old(p).wf(),
            old(p).frames@.len() > 0,
            old(p).status is Running,
            old(p).run_reductions < REDUCTIONS_PER_QUANTUM,
        ensures
            final(p).wf(),
            frame_step(*table, *old(p), *final(p)),
            final(p).same_identity(*old(p)),
            final(p).heap.extends(old(p).heap),
            final(p).run_reductions == old(p).run_reductions + 1,
    {
        let native = p.frames[p.frames.len() - 1].native;
        match native {
            Native::Apply3 => {
                if p.stack.len() < 3 {
                    p.reduce();
                    p.exception(Exception::badarg("apply_3", 0, 0));
                } else {
                    match apply_3::code(p, table) {
                        Ok(()) => {},
                        Err(_) => {
                            // allocation exhausted mid-frame: a system
                            // fault for this process, not a catchable
                            // exception
                            let ghost mid = *p;
                            p.status = Status::Exiting(
                                Exception::exit(
                                    Term::atom_from_id(crate::term::ATOM_KILLED),
                                    None,
                                    "scheduler",
                                    0,
                                    0,
                                ),
                            );
                            proof {
                                assert(apply_code_failed(*table, *old(p), mid));
                                assert(*p == (Process { status: p.status, ..mid }));
                                assert(exit_killed(p.status));
                            }
                        },
                    }
                }
            },
            Native::CountDown => {
                let _ = count_down_code(p);
            },
            Native::Loop => {
                let _ = loop_code(p);
            },
            Native::Inspect => {
                let _ = inspect_code(p);
            },
            Native::Wait => {
                let _ = wait_code(p);
            },
        }
        proof {
            lemma_frame_step_reductions(*table, *old(p), *p);
        }
    }

    /// Delivers an external wake-up event: a Waiting process becomes
    /// Runnable again and is re-enqueued; any other status is left alone.
    pub fn wake(&mut self, pid: u64)
        requires
            old(self).wf(),
            pid < old(self).processes@.len(),
        ensures
            final(self).wf(),
            final(self).id == old(self).id,
            final(self).code_table == old(self).code_table,
            final(self).processes@.len() == old(self).processes@.len(),
            forall|i: int|
                0 <= i < old(self).processes@.len() && i != pid ==> final(self).processes@[i]
                    == #[trigger] old(self).processes@[i],
            ({
                let p0 = old(self).processes@[pid as int];
                let p1 = final(self).processes@[pid as int];
                if p0.status is Waiting {
                    &&& p1 == (Process { status: Status::Runnable, ..p0 })
                    &&& final(self).spec_queue(p0.priority) == old(self).spec_queue(
                        p0.priority,
                    ).push(pid)
                    &&& forall|other: Priority|
                        other != p0.priority ==> final(self).spec_queue(other) == old(
                            self,
                        ).spec_queue(other)
                } else {
                    &&& p1 == p0
                    &&& forall|other: Priority|
                        final(self).spec_queue(other) == old(self).spec_queue(other)
                }
            }),
    {
        let n = self.processes.len();
        let ix = pid as usize;
        proof {
            assert(self.processes@.len() == n);
            assert(ix == pid);
        }
        if matches!(self.processes[ix].status, Status::Waiting) {
            let mut p = self.processes.remove(ix);
            p.status = Status::Runnable;
            self.processes.insert(ix, p);
            proof {
                assert(self.processes@ =~= old(self).processes@.update(pid as int, p));
                assert forall|i: int| 0 <= i < self.processes@.len() implies (
                #[trigger] self.processes@[i]).wf() && self.processes@[i].pid_number == i as u64
                    && self.processes@[i].heap.id == i as u64 by {
                    if i != pid {
                        assert(old(self).processes@[i].wf());
                    } else {
                        assert(old(self).processes@[i].wf());
                    }
                }
            }
            self.schedule(pid);
        }
    }

    /// Drives one process for up to one quantum: frames are executed from
    /// the top of the code stack, each completed frame costing one
    /// reduction, until the budget is exhausted (the process is preempted
    /// back to Runnable), a frame leaves the process Waiting or Exiting,
    /// or the code stack empties (normal completion: Exiting with reason
    /// `normal`).  Returns true exactly when the process executed at least
    /// one reduction in this call.
    pub fn run_through(&mut self, pid: u64) -> (ran: bool)
        requires
            old(self).wf(),
            pid < old(self).processes@.len(),
        ensures
            final(self).wf(),
            final(self).id == old(self).id,
            final(self).code_table == old(self).code_table,
            final(self).queue_low@ == old(self).queue_low@,
            final(self).queue_normal@ == old(self).queue_normal@,
            final(self).queue_high@ == old(self).queue_high@,
            final(self).queue_max@ == old(self).queue_max@,
            final(self).processes@.len() == old(self).processes@.len(),
            forall|i: int|
                0 <= i < old(self).processes@.len() && i != pid ==> final(self).processes@[i]
                    == #[trigger] old(self).processes@[i],
            ({
                let p0 = old(self).processes@[pid as int];
                let p1 = final(self).processes@[pid as int];
                &&& p1.same_identity(p0)
                &&& p1.heap.extends(p0.heap)
                &&& (!(p0.status is Runnable) ==> p1 == p0 && ran == false)
                &&& (p0.status is Runnable ==> ran == (p0.frames@.len() > 0))
                &&& ((p0.status is Runnable && p0.frames@.len() == 0) ==> exit_normal(p1.status))
                &&& (p0.status is Runnable ==> !(p1.status is Running))
                &&& (p0.status is Runnable ==> p1.run_reductions <= REDUCTIONS_PER_QUANTUM)
                &&& (p0.status is Runnable ==> quantum_outcome(old(self).code_table, p0, p1))
                &&& ((p0.status is Runnable && p1.status is Runnable) ==> p1.run_reductions
                    == REDUCTIONS_PER_QUANTUM)
            }),
    {
        let n = self.processes.len();
        let ix = pid as usize;
        proof {
            assert(self.processes@.len() == n);
            assert(ix == pid);
        }
        let runnable = matches!(self.processes[ix].status, Status::Runnable);
        if !runnable {
            return false;
        }
        let mut p = self.processes.remove(ix);
        let ghost p0 = p;
        let ghost tbl = self.code_table;
        let ran = p.frames.len() > 0;
        p.status = Status::Running;
        p.run_reductions = 0;
        let ghost gstart = p;
        proof {
            assert(gstart == quantum_start(p0));
            assert(frame_steps(tbl, gstart, p, 0));
        }
        let mut running = true;
        while running
            invariant
                p.wf(),
                p.same_identity(p0),
                p.heap.extends(p0.heap),
                p.run_reductions <= REDUCTIONS_PER_QUANTUM,
                running == (p.status is Running),
                gstart == quantum_start(p0),
                tbl == self.code_table,
                running ==> frame_steps(tbl, gstart, p, p.run_reductions as nat),
                !running ==> quantum_outcome(tbl, p0, p),
                p0.frames@.len() == 0 ==> (running ==> p.frames@.len() == 0),
                p0.frames@.len() == 0 ==> (!running ==> exit_normal(p.status)),
                !running ==> !(p.status is Running),
                !running && !(p.status is Exiting) && !(p.status is Waiting) ==> p.status
                    is Runnable,
                !running && p.status is Runnable ==> p.run_reductions
                    == REDUCTIONS_PER_QUANTUM,
            decreases
                (if running {
                    1int
                } else {
                    0int
                }),
                REDUCTIONS_PER_QUANTUM - p.run_reductions,
        {
            if p.frames.len() == 0 {
                let ghost mid = p;
                p.status = Status::Exiting(
                    Exception::exit(Term::atom_from_id(ATOM_NORMAL), None, "scheduler", 0, 0),
                );
                running = false;
                proof {
                    assert(p == (Process { status: p.status, ..mid }));
                    assert(exit_normal(p.status));
                    assert(frame_steps(tbl, quantum_start(p0), mid, mid.run_reductions as nat));
                    assert(quantum_outcome(tbl, p0, p));
                }
            } else if p.run_reductions >= REDUCTIONS_PER_QUANTUM {
                let ghost mid = p;
                p.status = Status::Runnable;
                running = false;
                proof {
                    assert(p == (Process { status: Status::Runnable, ..mid }));
                    assert(frame_steps(tbl, quantum_start(p0), mid, mid.run_reductions as nat));
                    assert(quantum_outcome(tbl, p0, p));
                }
            } else {
                let ghost before = p;
                Self::run_frame(&mut p, &self.code_table);
                proof {
                    lemma_frame_steps_snoc(
                        tbl,
                        gstart,
                        before,
                        p,
                        before.run_reductions as nat,
                    );
                    assert(p.run_reductions == before.run_reductions + 1);
                }
                running = matches!(p.status, Status::Running);
                proof {
                    if !running {
                        assert(frame_steps(tbl, quantum_start(p0), p, p.run_reductions as nat));
                        assert(quantum_outcome(tbl, p0, p));
                    }
                }
            }
        }
        self.processes.insert(ix, p);
        proof {
            assert(self.processes@ =~= old(self).processes@.update(pid as int, p));
            assert forall|i: int| 0 <= i < self.processes@.len() implies (
            #[trigger] self.processes@[i]).wf() && self.processes@[i].pid_number == i as u64
                && self.processes@[i].heap.id == i as u64 by {
                if i != pid {
                    assert(old(self).processes@[i].wf());
                }
            }
        }
        ran
    }

    /// Serves the queues once: selects the front of the highest-priority
    /// non-empty run queue, drives it for one quantum, and, if it is still
    /// runnable, re-enqueues it at the back of the same queue — the tier
    /// rotates.  Returns the pid served, or nothing when every queue is
    /// empty.
    pub fn run_next(&mut self) -> (r: Option<u64>)
        requires
            old(self).wf(),
        ensures
            final(self).wf(),
            final(self).id == old(self).id,
            final(self).code_table == old(self).code_table,
            final(self).processes@.len() == old(self).processes@.len(),
            match r {
                None => {
                    &&& old(self).queue_low@.len() == 0
                    &&& old(self).queue_normal@.len() == 0
                    &&& old(self).queue_high@.len() == 0
                    &&& old(self).queue_max@.len() == 0
                    &&& final(self).processes@ == old(self).processes@
                    &&& final(self).queue_low@ == old(self).queue_low@
                    &&& final(self).queue_normal@ == old(self).queue_normal@
                    &&& final(self).queue_high@ == old(self).queue_high@
                    &&& final(self).queue_max@ == old(self).queue_max@
                },
                Some(pid) => {
                    let tier = spec_top_tier(*old(self));
                    let q0 = old(self).spec_queue(tier);
                    &&& q0.len() > 0
                    &&& pid == q0.first()
                    &&& pid < old(self).processes@.len()
                    &&& (final(self).processes@[pid as int].status is Runnable ==> final(self).spec_queue(tier) == rotate(q0))
                    &&& (!(final(self).processes@[pid as int].status is Runnable) ==> final(self).spec_queue(tier) == q0.drop_first())
                    &&& forall|other: Priority|
                        other != tier ==> final(self).spec_queue(other) == old(self).spec_queue(
                            other,
                        )
                    &&& forall|i: int|
                        0 <= i < old(self).processes@.len() && i != pid ==> final(self).processes@[i] == #[trigger] old(self).processes@[i]
                    &&& final(self).processes@[pid as int].same_identity(
                        old(self).processes@[pid as int],
                    )
                    &&& (old(self).processes@[pid as int].status is Runnable
                        ==> !(final(self).processes@[pid as int].status is Running))
                    &&& (old(self).processes@[pid as int].status is Runnable
                        ==> quantum_outcome(
                        old(self).code_table,
                        old(self).processes@[pid as int],
                        final(self).processes@[pid as int],
                    ))
                },
            },
    {
        let n = self.processes.len();
        proof {
            assert(self.processes@.len() == n);
        }
        if self.queue_max.len() > 0 {
            let pid = self.queue_max.remove(0);
            let ix = pid as usize;
            proof {
                assert(pid < n as u64);
                assert(ix == pid);
            }
            let _ = self.run_through(pid);
            if matches!(self.processes[ix].status, Status::Runnable) {
                self.queue_max.push(pid);
            }
            Some(pid)
        } else if self.queue_high.len() > 0 {
            let pid = self.queue_high.remove(0);
            let ix = pid as usize;
            proof {
                assert(pid < n as u64);
                assert(ix == pid);
            }
            let _ = self.run_through(pid);
            if matches!(self.processes[ix].status, Status::Runnable) {
                self.queue_high.push(pid);
            }
            Some(pid)
        } else if self.queue_normal.len() > 0 {
            let pid = self.queue_normal.remove(0);
            let ix = pid as usize;
            proof {
                assert(pid < n as u64);
                assert(ix == pid);
            }
            let _ = self.run_through(pid);
            if matches!(self.processes[ix].status, Status::Runnable) {
                self.queue_normal.push(pid);
            }
            Some(pid)
        } else if self.queue_low.len() > 0 {
            let pid = self.queue_low.remove(0);
            let ix = pid as usize;
            proof {
                assert(pid < n as u64);
                assert(ix == pid);
            }
            let _ = self.run_through(pid);
            if matches!(self.processes[ix].status, Status::Runnable) {
                self.queue_low.push(pid);
            }
            Some(pid)
        } else {
            None
        }
    }

    /// Spawns a process whose first reduction dispatches
    /// `module:function(arguments)` through the code table, and enqueues
    /// it.  Immediate argument values are copied; boxed values of the
    /// parent's heap are deep-cloned; the argument list itself is built on
    /// the child's own heap.
    pub fn spawn_apply_3(
        &mut self,
        arena: &mut BinaryArena,
        parent: Option<u64>,
        options: Options,
        module: Atom,
        function: Atom,
        arguments: &[Term],
    ) -> (r: Result<Spawned, Alloc>)
        requires
            old(self).wf(),
            old(self).spawn_arguments_ok(*old(arena), parent, arguments@),
            arguments@.len() <= 255,
        ensures
            final(self).wf(),
            final(self).id == old(self).id,
            final(self).code_table == old(self).code_table,
            arena_extends_bytes(*final(arena), *old(arena)),
            final(arena).buffers@.len() == old(arena).buffers@.len(),
            match r {
                Ok(sp) => {
                    let child = final(self).processes@.last();
                    &&& sp.pid == old(self).processes@.len()
                    &&& final(self).processes@.len() == old(self).processes@.len() + 1
                    &&& forall|i: int|
                        0 <= i < old(self).processes@.len() ==> final(self).processes@[i]
                            == #[trigger] old(self).processes@[i]
                    &&& child.status is Runnable
                    &&& child.priority == options.priority
                    &&& child.frames@.len() == 1
                    &&& child.frames@.last().native == Native::Apply3
                    &&& child.stack@.len() == 3
                    &&& child.stack@.last() == (Term::Atom { atom: module })
                    &&& child.stack@[1] == (Term::Atom { atom: function })
                    &&& (child.heap.list_elements(child.stack@[0]) matches Some(es) && es.len()
                        == arguments@.len())
                    &&& ((forall|j: int|
                        0 <= j < arguments@.len() ==> !((#[trigger] arguments@[j]) is Boxed))
                        ==> child.heap.list_elements(child.stack@[0]) == Some(arguments@))
                    &&& (parent matches Some(pp) ==> ((pp < old(self).processes@.len() && old(
                        self,
                    ).processes@[pp as int].heap.wf_with(*old(arena)) && (forall|j: int|
                        0 <= j < arguments@.len() ==> old(
                            self,
                        ).processes@[pp as int].heap.valid_term(#[trigger] arguments@[j])))
                        ==> (child.heap.list_elements(child.stack@[0]) matches Some(es)
                        && (forall|j: int|
                        0 <= j < arguments@.len() ==> mirrors(
                            old(self).processes@[pp as int].heap,
                            #[trigger] arguments@[j],
                            child.heap,
                            es[j],
                        )))))
                    &&& final(self).spec_queue(options.priority) == old(self).spec_queue(
                        options.priority,
                    ).push(sp.pid)
                    &&& forall|p: Priority|
                        p != options.priority ==> final(self).spec_queue(p) == old(
                            self,
                        ).spec_queue(p)
                },
                Err(_) => {
                    &&& final(self).processes@ == old(self).processes@
                    &&& final(self).queue_low@ == old(self).queue_low@
                    &&& final(self).queue_normal@ == old(self).queue_normal@
                    &&& final(self).queue_high@ == old(self).queue_high@
                    &&& final(self).queue_max@ == old(self).queue_max@
                    &&& {
                        ||| crate::heap::WORDS_CONS * arguments@.len() > spec_max_words(options)
                        ||| (parent matches Some(pp) && pp < old(self).processes@.len() && old(
                            self,
                        ).processes@[pp as int].heap.clone_words_all(
                            arguments@,
                            old(self).processes@[pp as int].heap.cells@.len() as int,
                        ) + crate::heap::WORDS_CONS * arguments@.len() > spec_max_words(options))
                    }
                },
            },
    {
        let pid = self.spawn_empty(
            parent,
            options,
            module,
            function,
            if arguments.len() <= 255 {
                arguments.len() as u8
            } else {
                255
            },
        );
        let ix = self.processes.len() - 1;
        proof {
            assert(ix == pid);
        }
        let mut child = self.processes.remove(ix);
        proof {
            assert(self.processes@ =~= old(self).processes@);
        }
        let vals = match self.spawn_values(arena, &mut child, arguments) {
            Ok(v) => v,
            Err(e) => {
                // undo the partial spawn: the child is discarded whole
                return Err(e);
            },
        };
        let ghost with_vals = child;
        let list = match child.heap.list_from_slice(vals.as_slice()) {
            Ok(t) => t,
            Err(e) => {
                return Err(e);
            },
        };
        proof {
            crate::heap::lemma_is_list_of_elements(child.heap, list, vals@);
            match parent {
                Some(pp) => {
                    if 0 <= pp < old(self).processes@.len() && old(
                        self,
                    ).processes@[pp as int].heap.wf_with(*old(arena)) && (forall|j: int|
                        0 <= j < arguments@.len() ==> old(
                            self,
                        ).processes@[pp as int].heap.valid_term(#[trigger] arguments@[j])) {
                        assert forall|j: int| 0 <= j < arguments@.len() implies mirrors(
                            old(self).processes@[pp as int].heap,
                            #[trigger] arguments@[j],
                            child.heap,
                            vals@[j],
                        ) by {
                            crate::heap::lemma_mirrors_extends(
                                old(self).processes@[pp as int].heap,
                                arguments@[j],
                                with_vals.heap,
                                child.heap,
                                vals@[j],
                            );
                        }
                    }
                },
                None => {},
            }
        }
        match apply_3::place_frame_with_arguments(
            &mut child,
            Placement::Push,
            Term::Atom { atom: module },
            Term::Atom { atom: function },
            list,
        ) {
            Ok(()) => {},
            Err(e) => {
                return Err(e);
            },
        }
        let ghost done_child = child;
        self.processes.insert(ix, child);
        proof {
            assert(self.processes@ =~= old(self).processes@.push(done_child));
            assert(done_child.wf());
            assert(done_child.pid_number == pid);
            assert(done_child.heap.id == pid);
            assert forall|i: int| 0 <= i < self.processes@.len() implies (
            #[trigger] self.processes@[i]).wf() && self.processes@[i].pid_number == i as u64
                && self.processes@[i].heap.id == i as u64 by {
                if i < old(self).processes@.len() {
                    assert(old(self).processes@[i].wf());
                    assert(self.processes@[i] == old(self).processes@[i]);
                } else {
                    assert(self.processes@[i] == done_child);
                }
            }
        }
        self.schedule(pid);
        Ok(Spawned { pid })
    }
}

/// The highest tier whose queue is non-empty (Low when all are empty).
pub open spec fn spec_top_tier(s: Scheduler) -> Priority {
    if s.queue_max@.len() > 0 {
        Priority::Max
    } else if s.queue_high@.len() > 0 {
        Priority::High
    } else if s.queue_normal@.len() > 0 {
        Priority::Normal
    } else {
        Priority::Low
    }
}

/// A normal exit: the silent, successful termination.
pub open spec fn exit_normal(status: Status) -> bool {
    &&& status matches Status::Exiting(e)
    &&& e.class == crate::exception::Class::Exit
    &&& e.reason == crate::exception::spec_atom(ATOM_NORMAL)
    &&& e.stacktrace is None
}


/// Through a chain of steps, a process whose top frame loops forever only
/// spends reductions: nothing else about it moves.
proof fn lemma_loop_chain(table: ExportTable, start: Process, mid: Process, n: nat)
    requires
        frame_steps(table, start, mid, n),
        start.frames@.len() > 0,
        start.frames@.last().native == Native::Loop,
        start.run_reductions + n <= REDUCTIONS_PER_QUANTUM,
        start.total_reductions + n <= u64::MAX,
    ensures
        mid == (Process {
            run_reductions: (start.run_reductions + n) as u64,
            total_reductions: (start.total_reductions + n) as u64,
            ..start
        }),
    decreases n,
{
    if n > 0 {
        let m1 = choose|m1: Process|
            #[trigger] frame_step(table, start, m1) && frame_steps(table, m1, mid, (n - 1) as nat);
        assert(loop_step(start, m1));
        assert(m1 == (Process {
            run_reductions: m1.run_reductions,
            total_reductions: m1.total_reductions,
            ..start
        }));
        lemma_loop_chain(table, m1, mid, (n - 1) as nat);
    }
}

/// Reduction fairness at the quantum: a runnable process whose top frame
/// loops forever is preempted exactly when its per-quantum budget is
/// exhausted, and leaves the quantum Runnable again with nothing but its
/// reduction counters moved.  Together with the round-robin rotation of
/// `run_next`, each of N such processes sharing a tier owns the worker for
/// exactly one budget within any window of N quanta.
pub proof fn lemma_loop_quantum_preempts(table: ExportTable, p0: Process, p1: Process)
    requires
        quantum_outcome(table, p0, p1),
        p0.frames@.len() > 0,
        p0.frames@.last().native == Native::Loop,
        p0.total_reductions + REDUCTIONS_PER_QUANTUM <= u64::MAX,
    ensures
        p1 == (Process {
            status: Status::Runnable,
            run_reductions: REDUCTIONS_PER_QUANTUM,
            total_reductions: (p0.total_reductions + REDUCTIONS_PER_QUANTUM) as u64,
            ..p0
        }),
{
    let (n, mid) = choose|n: nat, mid: Process|
        {
            &&& #[trigger] frame_steps(table, quantum_start(p0), mid, n)
            &&& if mid.frames@.len() == 0 && mid.status is Running {
                &&& p1 == (Process { status: p1.status, ..mid })
                &&& exit_normal(p1.status)
            } else if mid.run_reductions >= REDUCTIONS_PER_QUANTUM && mid.status is Running {
                p1 == (Process { status: Status::Runnable, ..mid })
            } else {
                &&& !(mid.status is Running)
                &&& p1 == mid
            }
        };
    let start = quantum_start(p0);
    lemma_frame_steps_bounded(table, start, mid, n);
    lemma_loop_chain(table, start, mid, n);
    assert(mid.frames@ == p0.frames@);
    assert(mid.status is Running);
    assert(mid.run_reductions == n);
    assert(n == REDUCTIONS_PER_QUANTUM);
}

/// A chain never overruns the budget: each of its steps starts strictly
/// below it, so its length is bounded by the budget headroom.
proof fn lemma_frame_steps_bounded(table: ExportTable, start: Process, mid: Process, n: nat)
    requires
        frame_steps(table, start, mid, n),
    ensures
        n > 0 ==> start.run_reductions + n <= REDUCTIONS_PER_QUANTUM,
    decreases n,
{
    if n > 0 {
        let m1 = choose|m1: Process|
            #[trigger] frame_step(table, start, m1) && frame_steps(table, m1, mid, (n - 1) as nat);
        lemma_frame_step_reductions(table, start, m1);
        lemma_frame_steps_bounded(table, m1, mid, (n - 1) as nat);
    }
}


/// The output lines of a countdown from `v`: `v, v-1, ..., v-n+1`.
pub open spec fn count_down_lines(v: int, n: int) -> Seq<Term>
    recommends
        0 <= n <= v,
{
    Seq::new(n as nat, |i: int| (Term::SmallInteger { value: (v - i) as i64 }))
}

/// Through a chain of steps, a countdown process counts: after `n` steps
/// the counter has dropped by `n` with one output line per step, and the
/// step after reaching zero pops the frame.  No chain is longer.
proof fn lemma_count_down_chain(
    table: ExportTable,
    start: Process,
    mid: Process,
    n: nat,
    v: int,
)
    requires
        frame_steps(table, start, mid, n),
        start.frames@.len() == 1,
        start.frames@.last().native == Native::CountDown,
        start.stack@ =~= seq![(Term::SmallInteger { value: v as i64 })],
        0 <= v <= i64::MAX,
        start.status is Running,
        start.run_reductions + n <= REDUCTIONS_PER_QUANTUM,
        start.total_reductions + n <= u64::MAX,
    ensures
        n <= v + 1,
        mid == (Process {
            stack: mid.stack,
            frames: mid.frames,
            output: mid.output,
            run_reductions: (start.run_reductions + n) as u64,
            total_reductions: (start.total_reductions + n) as u64,
            ..start
        }),
        n <= v ==> mid.stack@ =~= seq![(Term::SmallInteger { value: (v - n) as i64 })]
            && mid.frames@ == start.frames@ && mid.output@ =~= start.output@ + count_down_lines(
            v,
            n as int,
        ),
        n == v + 1 ==> mid.stack@.len() == 0 && mid.frames@.len() == 0 && mid.output@
            =~= start.output@ + count_down_lines(v, v),
    decreases n,
{
    if n > 0 {
        let m1 = choose|m1: Process|
            #[trigger] frame_step(table, start, m1) && frame_steps(table, m1, mid, (n - 1) as nat);
        assert(count_down_step(start, m1));
        assert(start.stack@.last() == (Term::SmallInteger { value: v as i64 }));
        if v > 0 {
            assert(m1.stack@ == start.stack@.drop_last().push(
                (Term::SmallInteger { value: (v - 1) as i64 }),
            ));
            assert(m1.stack@ =~= seq![(Term::SmallInteger { value: (v - 1) as i64 })]);
            assert(m1.frames@ == start.frames@);
            lemma_count_down_chain(table, m1, mid, (n - 1) as nat, v - 1);
            assert(m1.output@ == start.output@.push((Term::SmallInteger { value: v as i64 })));
            if n - 1 <= v - 1 {
                assert(mid.output@ =~= m1.output@ + count_down_lines(v - 1, n - 1));
                assert(m1.output@ + count_down_lines(v - 1, n - 1) =~= start.output@
                    + count_down_lines(v, n as int));
                assert(mid.output@ =~= start.output@ + count_down_lines(v, n as int));
                assert(mid.stack@ =~= seq![
                    (Term::SmallInteger { value: ((v - 1) - (n - 1)) as i64 }),
                ]);
                assert(mid.stack@ =~= seq![(Term::SmallInteger { value: (v - n) as i64 })]);
                assert(mid.run_reductions == start.run_reductions + n);
                assert(mid.total_reductions == start.total_reductions + n);
                assert(mid.frames@ == start.frames@);
            } else {
                assert(mid.output@ =~= m1.output@ + count_down_lines(v - 1, v - 1));
                assert(m1.output@ + count_down_lines(v - 1, v - 1) =~= start.output@
                    + count_down_lines(v, v));
            }
        } else {
            assert(m1.stack@ == start.stack@.drop_last());
            assert(m1.stack@.len() == 0);
            assert(m1.frames@.len() == 0);
            if n > 1 {
                let m2 = choose|m2: Process|
                    #[trigger] frame_step(table, m1, m2) && frame_steps(
                        table,
                        m2,
                        mid,
                        (n - 2) as nat,
                    );
                assert(m1.frames@.len() > 0);
                assert(false);
            }
            assert(mid == m1);
            assert(count_down_lines(v, v) =~= Seq::<Term>::empty());
            assert(mid.output@ =~= start.output@ + count_down_lines(v, v));
        }
    }
}

/// The countdown scenario within one quantum: a runnable process whose
/// single frame counts down from `v`, for `v` below the budget, completes
/// in that quantum — it exits normally having emitted exactly the lines
/// `v, v-1, ..., 1`, one per counting step.  (A larger counter spreads the
/// same steps over several quanta.)
pub proof fn lemma_count_down_quantum_completes(
    table: ExportTable,
    p0: Process,
    p1: Process,
    v: int,
)
    requires
        quantum_outcome(table, p0, p1),
        p0.frames@.len() == 1,
        p0.frames@.last().native == Native::CountDown,
        p0.stack@ =~= seq![(Term::SmallInteger { value: v as i64 })],
        0 <= v,
        v + 1 <= REDUCTIONS_PER_QUANTUM,
        p0.total_reductions + REDUCTIONS_PER_QUANTUM <= u64::MAX,
    ensures
        exit_normal(p1.status),
        p1.frames@.len() == 0,
        p1.stack@.len() == 0,
        p1.output@ =~= p0.output@ + count_down_lines(v, v),
        p1.heap == p0.heap,
        p1.same_identity(p0),
        p1.run_reductions == v + 1,
{
    let (n, mid) = choose|n: nat, mid: Process|
        {
            &&& #[trigger] frame_steps(table, quantum_start(p0), mid, n)
            &&& if mid.frames@.len() == 0 && mid.status is Running {
                &&& p1 == (Process { status: p1.status, ..mid })
                &&& exit_normal(p1.status)
            } else if mid.run_reductions >= REDUCTIONS_PER_QUANTUM && mid.status is Running {
                p1 == (Process { status: Status::Runnable, ..mid })
            } else {
                &&& !(mid.status is Running)
                &&& p1 == mid
            }
        };
    let start = quantum_start(p0);
    lemma_frame_steps_bounded(table, start, mid, n);
    lemma_count_down_chain(table, start, mid, n, v);
    if n <= v {
        assert(mid.frames@.len() == 1);
        assert(mid.status is Running);
        assert(mid.run_reductions == n);
        assert(n < REDUCTIONS_PER_QUANTUM);
        assert(false);
    }
    assert(n == v + 1);
}


/// The countdown scenario across quanta: with a counter at or above the
/// budget, the quantum is spent entirely on counting — the process is
/// preempted back to Runnable after exactly the budget's worth of steps,
/// its counter lowered by the budget and one output line emitted per
/// step.  Together with `lemma_count_down_quantum_completes` this pins
/// every quantum of the scenario: each either spends a full budget
/// counting or finishes the count and exits normally.
pub proof fn lemma_count_down_quantum_preempts(
    table: ExportTable,
    p0: Process,
    p1: Process,
    v: int,
)
    requires
        quantum_outcome(table, p0, p1),
        p0.frames@.len() == 1,
        p0.frames@.last().native == Native::CountDown,
        p0.stack@ =~= seq![(Term::SmallInteger { value: v as i64 })],
        REDUCTIONS_PER_QUANTUM <= v <= i64::MAX,
        p0.total_reductions + REDUCTIONS_PER_QUANTUM <= u64::MAX,
    ensures
        p1.status is Runnable,
        p1.run_reductions == REDUCTIONS_PER_QUANTUM,
        p1.frames@ == p0.frames@,
        p1.stack@ =~= seq![
            (Term::SmallInteger { value: (v - REDUCTIONS_PER_QUANTUM) as i64 }),
        ],
        p1.output@ =~= p0.output@ + count_down_lines(v, REDUCTIONS_PER_QUANTUM as int),
        p1.heap == p0.heap,
        p1.same_identity(p0),
{
    let (n, mid) = choose|n: nat, mid: Process|
        {
            &&& #[trigger] frame_steps(table, quantum_start(p0), mid, n)
            &&& if mid.frames@.len() == 0 && mid.status is Running {
                &&& p1 == (Process { status: p1.status, ..mid })
                &&& exit_normal(p1.status)
            } else if mid.run_reductions >= REDUCTIONS_PER_QUANTUM && mid.status is Running {
                p1 == (Process { status: Status::Runnable, ..mid })
            } else {
                &&& !(mid.status is Running)
                &&& p1 == mid
            }
        };
    let start = quantum_start(p0);
    lemma_frame_steps_bounded(table, start, mid, n);
    lemma_count_down_chain(table, start, mid, n, v);
    assert(n <= REDUCTIONS_PER_QUANTUM);
    assert(n <= v);
    assert(mid.frames@ == start.frames@);
    assert(mid.status is Running);
    if n < REDUCTIONS_PER_QUANTUM {
        assert(mid.frames@.len() == 1);
        assert(mid.run_reductions == n);
        assert(false);
    }
    assert(n == REDUCTIONS_PER_QUANTUM);
}


/// The dispatch scenario at the quantum: a runnable process whose single
/// frame is an apply over an unbound triple exits, within its first
/// reduction, with the canonical `undef` — its stacktrace's head frame
/// exactly the failed call — provided the heap has room for the
/// stacktrace (seven words; a full heap kills the process instead).
pub proof fn lemma_apply_undef_quantum(table: ExportTable, p0: Process, p1: Process)
    requires
        quantum_outcome(table, p0, p1),
        p0.frames@.len() == 1,
        p0.frames@.last().native == Native::Apply3,
        p0.stack@.len() == 3,
        spec_dispatch(
            quantum_start(p0),
            table,
            p0.stack@[2],
            p0.stack@[1],
            p0.stack@[0],
        ) is None,
        p0.heap.used_words + 7 <= p0.heap.max_words,
    ensures
        p1.status matches Status::Exiting(e) && e.class == crate::exception::Class::Exit
            && e.reason == crate::exception::spec_atom(crate::term::ATOM_UNDEF)
            && crate::exception::undef_stacktrace_built(
            p1.heap,
            p0.heap,
            p0.stack@[2],
            p0.stack@[1],
            p0.stack@[0],
            Term::Nil,
        ) && e.stacktrace == Some(
            crate::heap::boxed(p0.heap.id, (p0.heap.cells@.len() + 1) as usize),
        ),
        p1.frames@ == p0.frames@,
        p1.stack@.len() == 0,
        p1.output@ == p0.output@,
        p1.run_reductions == 1,
        p1.same_identity(p0),
{
    let (n, mid) = choose|n: nat, mid: Process|
        {
            &&& #[trigger] frame_steps(table, quantum_start(p0), mid, n)
            &&& if mid.frames@.len() == 0 && mid.status is Running {
                &&& p1 == (Process { status: p1.status, ..mid })
                &&& exit_normal(p1.status)
            } else if mid.run_reductions >= REDUCTIONS_PER_QUANTUM && mid.status is Running {
                p1 == (Process { status: Status::Runnable, ..mid })
            } else {
                &&& !(mid.status is Running)
                &&& p1 == mid
            }
        };
    let start = quantum_start(p0);
    if n == 0 {
        assert(mid == start);
        assert(false);
    }
    let m1 = choose|m1: Process|
        #[trigger] frame_step(table, start, m1) && frame_steps(table, m1, mid, (n - 1) as nat);
    assert(!apply_badarg_step(start, m1));
    assert(!apply_code_hit(table, start, m1));
    if !apply_code_miss(table, start, m1) {
        let killed_mid = choose|killed_mid: Process|
            #[trigger] apply_code_failed(table, start, killed_mid) && m1 == (Process {
                status: m1.status,
                ..killed_mid
            }) && exit_killed(m1.status);
        assert(false);
    }
    assert(apply_code_miss(table, start, m1));
    if n > 1 {
        let m2 = choose|m2: Process|
            #[trigger] frame_step(table, m1, m2) && frame_steps(table, m2, mid, (n - 2) as nat);
        assert(m1.status is Running);
        assert(false);
    }
    assert(mid == m1);
    assert(p1 == mid);
}

} // verus!
