//! The virtual-machine state: one scheduler, its code table, and the init
//! process everything else descends from.

use vstd::prelude::*;
use crate::exception::Exception;
use crate::heap::BinaryArena;
use crate::proc::{Options, Status};
use crate::scheduler::Scheduler;
use crate::term::{Atom, Term, ATOM_ERLANG};

verus! {

/// The state of one virtual machine instance.
pub struct VMState {
    pub scheduler: Scheduler,
    /// The shared, reference-counted arena of off-heap binary buffers.
    pub arena: BinaryArena,
    pub init_pid: u64,
}

impl VMState {
    pub open spec fn wf(self) -> bool {
        &&& self.scheduler.wf()
        &&& self.init_pid < self.scheduler.processes@.len()
    }

    /// A fresh machine: one scheduler whose only process is the idle init
    /// process.
    pub fn new() -> (v: VMState)
        ensures
            v.wf(),
            v.scheduler.processes@.len() == 1,
            v.init_pid == 0,
            v.scheduler.processes@[0].status is Waiting,
            v.scheduler.processes@[0].frames@.len() == 0,
            v.scheduler.processes@[0].stack@.len() == 0,
            v.scheduler.processes@[0].output@.len() == 0,
            v.scheduler.queue_low@.len() == 0,
            v.scheduler.queue_normal@.len() == 0,
            v.scheduler.queue_high@.len() == 0,
            v.scheduler.queue_max@.len() == 0,
            forall|key: (u64, u64, u8)|
                !crate::export::export_entries(v.scheduler.code_table).contains_key(key),
    {
        let mut scheduler = Scheduler::new(0);
        let mut arena = BinaryArena::new();
        let module = Atom::from_id(ATOM_ERLANG);
        let function = Atom::from_id(ATOM_ERLANG);
        let spawned = match scheduler.spawn(
            &mut arena,
            None,
            Options::default(),
            module,
            function,
            &[],
            crate::code::Native::Loop,
        ) {
            Ok(sp) => sp,
            Err(_) => {
                proof {
                    assert(false);
                }
                crate::scheduler::Spawned { pid: 0 }
            },
        };
        let mut init = scheduler.processes.remove(spawned.pid as usize);
        init.remove_last_frame();
        init.status = Status::Waiting;
        scheduler.processes.insert(0, init);
        proof {
            assert(scheduler.processes@.len() == 1);
            assert forall|i: int| 0 <= i < scheduler.processes@.len() implies (
            #[trigger] scheduler.processes@[i]).wf() && scheduler.processes@[i].pid_number
                == i as u64 && scheduler.processes@[i].heap.id == i as u64 by {
            }
        }
        VMState { scheduler, arena, init_pid: 0 }
    }

    /// Spawns `module:function(arguments)` through apply-style dispatch
    /// and drives that process for at most `max_quanta` quanta.  The
    /// result is the exception the process exited with — the `normal` exit
    /// for successful completion — or nothing if it had not settled within
    /// the bound (or could not be spawned).
    pub fn call(
        &mut self,
        module: Atom,
        function: Atom,
        arguments: &[Term],
        max_quanta: usize,
    ) -> (r: Option<Exception>)
        requires
            old(self).wf(),
            forall|j: int| 0 <= j < arguments@.len() ==> !(#[trigger] arguments@[j] is Boxed),
            arguments@.len() <= 255,
        ensures
            final(self).wf(),
            match r {
                Some(e) => {
                    &&& final(self).scheduler.processes@.len() == old(self).scheduler.processes@.len() + 1
                    &&& (final(self).scheduler.processes@.last().status matches Status::Exiting(
                        actual,
                    ) && actual == e)
                },
                None => {
                    &&& final(self).scheduler.processes@.len() == old(self).scheduler.processes@.len() + 1
                    &&& (final(self).scheduler.processes@.last().status is Runnable || final(self).scheduler.processes@.last().status is Waiting)
                },
            },
    {
        let spawned = match self.scheduler.spawn_apply_3(
            &mut self.arena,
            Some(self.init_pid),
            Options::default(),
            module,
            function,
            arguments,
        ) {
            Ok(sp) => sp,
            Err(_) => {
                proof {
                    let pheap = old(self).scheduler.processes@[self.init_pid as int].heap;
                    crate::heap::lemma_clone_words_all_immediates(
                        pheap,
                        arguments@,
                        pheap.cells@.len() as int,
                    );
                    assert(false);
                }
                return None;
            },
        };
        let pid = spawned.pid;
        let ghost base = self.scheduler.processes@.len();
        let mut quantum: usize = 0;
        let mut settled = false;
        while quantum < max_quanta && !settled
            invariant
                self.wf(),
                pid < self.scheduler.processes@.len(),
                self.scheduler.processes@.len() == base,
                base == old(self).scheduler.processes@.len() + 1,
                pid == base - 1,
                !(self.scheduler.processes@[pid as int].status is Running),
            decreases max_quanta - quantum,
        {
            let ran = self.scheduler.run_through(pid);
            if !ran {
                settled = true;
            }
            quantum = quantum + 1;
        }
        let n = self.scheduler.processes.len();
        let ix = pid as usize;
        proof {
            assert(self.scheduler.processes@.len() == n);
            assert(pid < n as u64);
            assert(ix == pid);
            assert(ix == n - 1);
        }
        match self.processes_status(ix) {
            Status::Exiting(e) => Some(e),
            _ => None,
        }
    }

    /// The status of the process at `ix`.
    fn processes_status(&self, ix: usize) -> (r: Status)
        requires
            ix < self.scheduler.processes@.len(),
        ensures
            r == self.scheduler.processes@[ix as int].status,
    {
        self.scheduler.processes[ix].status
    }
}

} // verus!
