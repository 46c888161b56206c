use lumen_runtime::code::{Frame, Native, Placement};
use lumen_runtime::exception::{Class, Exception};
use lumen_runtime::heap::{BinaryArena, Cell};
use lumen_runtime::proc::{Options, Priority, Status};
use lumen_runtime::scheduler::Scheduler;
use lumen_runtime::term::{Atom, Term, ATOM_NORMAL, ATOM_UNDEF};
use lumen_runtime::vm::VMState;

fn count_down_to_completion(n: i64) {
    let mut scheduler = Scheduler::new(0);
    let mut arena = BinaryArena::new();
    let module = Atom { id: 900 };
    let function = Atom { id: 901 };
    let mut options = Options::default();
    options.min_heap_size = Some(100 + 5 * n as usize);
    let spawned = scheduler
        .spawn(
            &mut arena,
            None,
            options,
            module,
            function,
            &[Term::SmallInteger { value: n }],
            Native::CountDown,
        )
        .unwrap();
    scheduler.schedule(spawned.pid);
    assert_eq!(scheduler.run_queue_len(Priority::Normal), 1);

    while scheduler.run_through(spawned.pid) {}

    let process = &scheduler.processes[spawned.pid as usize];
    match process.status {
        Status::Exiting(ref exception) => {
            assert_eq!(exception.class, Class::Exit);
            assert_eq!(
                exception.reason,
                Term::Atom { atom: Atom { id: ATOM_NORMAL } }
            );
        }
        ref status => panic!("{:?} is not exiting", status),
    }
    // exactly one observable output line per step
    assert_eq!(process.output.len(), n as usize);
    for (k, line) in process.output.iter().enumerate() {
        assert_eq!(*line, Term::SmallInteger { value: n - k as i64 });
    }
}

#[test]
fn counting_down_1_completes_normally() {
    count_down_to_completion(1);
}

#[test]
fn counting_down_2_completes_normally() {
    count_down_to_completion(2);
}

#[test]
fn counting_down_powers_up_to_1024_complete_normally() {
    let mut n = 4;
    while n <= 1024 {
        count_down_to_completion(n);
        n *= 2;
    }
}

#[test]
fn counting_down_powers_up_to_65536_complete_normally() {
    let mut n = 2048;
    while n <= 65536 {
        count_down_to_completion(n);
        n *= 2;
    }
}

#[test]
fn unregistered_triple_exits_undef_with_call_frame() {
    let mut vm = VMState::new();
    let module = Atom { id: 700 };
    let function = Atom { id: 701 };
    let arguments = [Term::SmallInteger { value: 0 }];
    let exception = vm
        .call(module, function, &arguments, 100)
        .expect("an unregistered call settles");

    assert_eq!(exception.class, Class::Exit);
    assert_eq!(exception.reason, Term::Atom { atom: Atom { id: ATOM_UNDEF } });

    // the stacktrace's head tuple is exactly (module, function, arguments,
    // placeholder)
    let process = vm.scheduler.processes.last().unwrap();
    let stacktrace = exception.stacktrace.expect("undef carries a stacktrace");
    let head = match stacktrace {
        Term::Boxed { ptr } => match &process.heap.cells[ptr.index] {
            Cell::Cons { head, tail } => {
                assert_eq!(*tail, Term::Nil);
                *head
            }
            _ => panic!("stacktrace is not a cons"),
        },
        _ => panic!("stacktrace is not boxed"),
    };
    match head {
        Term::Boxed { ptr } => match &process.heap.cells[ptr.index] {
            Cell::Tuple { elements } => {
                assert_eq!(elements.len(), 4);
                assert_eq!(elements[0], Term::Atom { atom: module });
                assert_eq!(elements[1], Term::Atom { atom: function });
                let args = process.heap.list_to_vec(elements[2]).unwrap();
                assert_eq!(args, arguments.to_vec());
                assert_eq!(elements[3], Term::Nil);
            }
            _ => panic!("head frame is not a tuple"),
        },
        _ => panic!("head frame is not boxed"),
    }

    // the failing frame stays in place for introspection
    assert_eq!(process.code_stack_len(), 1);
    assert_eq!(
        process.current_module_function_arity().unwrap(),
        lumen_runtime::apply_3::module_function_arity()
    );
}

#[test]
fn registered_triple_dispatches_and_completes() {
    let mut vm = VMState::new();
    let module = Atom { id: 800 };
    let function = Atom { id: 801 };
    vm.scheduler.code_table.insert(module, function, 1, Native::CountDown);
    let exception = vm
        .call(module, function, &[Term::SmallInteger { value: 5 }], 100)
        .expect("a registered call settles");
    assert_eq!(exception.class, Class::Exit);
    assert_eq!(exception.reason, Term::Atom { atom: Atom { id: ATOM_NORMAL } });
    assert_eq!(vm.scheduler.processes.last().unwrap().output.len(), 5);
}

#[test]
fn inserting_then_looking_up_returns_that_continuation() {
    let mut scheduler = Scheduler::new(0);
    let m = Atom { id: 600 };
    let f = Atom { id: 601 };
    scheduler.code_table.insert(m, f, 1, Native::CountDown);

    assert_eq!(scheduler.code_table.get(m, f, 1), Some(Native::CountDown));
    // a different arity was never inserted
    assert_eq!(scheduler.code_table.get(m, f, 2), None);
    // the last writer wins
    scheduler.code_table.insert(m, f, 1, Native::Loop);
    assert_eq!(scheduler.code_table.get(m, f, 1), Some(Native::Loop));
}

#[test]
fn round_robin_schedules_every_looping_process_once_per_window() {
    let mut scheduler = Scheduler::new(0);
    let mut arena = BinaryArena::new();
    let n: u64 = 5;
    for k in 0..n {
        let spawned = scheduler
            .spawn(
                &mut arena,
                None,
                Options::default(),
                Atom { id: 500 + k },
                Atom { id: 550 + k },
                &[],
                Native::Loop,
            )
            .unwrap();
        assert_eq!(spawned.pid, k);
        scheduler.schedule(spawned.pid);
    }
    assert_eq!(scheduler.run_queue_len(Priority::Normal), n as usize);

    // within one window of N quanta, every process owns the worker exactly
    // once, in queue order
    let mut served = Vec::new();
    for _ in 0..n {
        served.push(scheduler.run_next().unwrap());
    }
    assert_eq!(served, vec![0, 1, 2, 3, 4]);
    // all still runnable: the next window serves them again, same order
    let mut second = Vec::new();
    for _ in 0..n {
        second.push(scheduler.run_next().unwrap());
    }
    assert_eq!(second, vec![0, 1, 2, 3, 4]);
    for pid in 0..n {
        assert!(scheduler.processes[pid as usize].total_reductions > 0);
    }
}

#[test]
fn higher_tier_is_served_first() {
    let mut scheduler = Scheduler::new(0);
    let mut arena = BinaryArena::new();
    let mut low = Options::default();
    low.priority = Priority::Low;
    let mut max = Options::default();
    max.priority = Priority::Max;
    let low_pid = scheduler
        .spawn(&mut arena, None, low, Atom { id: 1 }, Atom { id: 2 }, &[], Native::Loop)
        .unwrap()
        .pid;
    let max_pid = scheduler
        .spawn(&mut arena, None, max, Atom { id: 3 }, Atom { id: 4 }, &[], Native::Loop)
        .unwrap()
        .pid;
    scheduler.schedule(low_pid);
    scheduler.schedule(max_pid);
    assert_eq!(scheduler.run_next(), Some(max_pid));
    assert_eq!(scheduler.run_next(), Some(max_pid));
}

#[test]
fn empty_code_stack_exits_normally_without_running() {
    let mut vm = VMState::new();
    let mut arena = BinaryArena::new();
    let spawned = vm
        .scheduler
        .spawn(
            &mut arena,
            Some(vm.init_pid),
            Options::default(),
            Atom { id: 20 },
            Atom { id: 21 },
            &[],
            Native::Inspect,
        )
        .unwrap();
    let pid = spawned.pid;
    // drop the only frame: completion is immediate
    let ix = pid as usize;
    vm.scheduler.processes[ix].frames.clear();
    let ran = vm.scheduler.run_through(pid);
    assert!(!ran);
    match vm.scheduler.processes[ix].status {
        Status::Exiting(ref e) => {
            assert_eq!(
                *e,
                Exception::exit(
                    Term::Atom { atom: Atom { id: ATOM_NORMAL } },
                    None,
                    "elsewhere",
                    0,
                    0
                )
            );
        }
        ref status => panic!("{:?} is not exiting", status),
    }
    // a terminal process does not run again
    assert!(!vm.scheduler.run_through(pid));
}

#[test]
fn waiting_process_resumes_after_wake() {
    let mut scheduler = Scheduler::new(0);
    let mut arena = BinaryArena::new();
    let module = Atom { id: 30 };
    let function = Atom { id: 31 };
    let spawned = scheduler
        .spawn(
            &mut arena,
            None,
            Options::default(),
            module,
            function,
            &[Term::SmallInteger { value: 42 }],
            Native::Inspect,
        )
        .unwrap();
    let pid = spawned.pid;
    let ix = pid as usize;
    let mfa = scheduler.processes[ix].initial_module_function_arity;
    scheduler.processes[ix].place_frame(Frame::new(mfa, Native::Wait), Placement::Push);

    // the suspend frame runs first: the process parks itself
    assert!(scheduler.run_through(pid));
    assert!(matches!(scheduler.processes[ix].status, Status::Waiting));
    // a waiting process is not schedulable
    assert!(!scheduler.run_through(pid));
    assert!(scheduler.processes[ix].output.is_empty());

    // an external event wakes it; the remaining frame then completes it
    scheduler.wake(pid);
    assert!(matches!(scheduler.processes[ix].status, Status::Runnable));
    assert_eq!(scheduler.run_queue_len(Priority::Normal), 1);
    assert!(scheduler.run_through(pid));
    assert_eq!(
        scheduler.processes[ix].output,
        vec![Term::SmallInteger { value: 42 }]
    );
    match scheduler.processes[ix].status {
        Status::Exiting(ref e) => {
            assert_eq!(e.reason, Term::Atom { atom: Atom { id: ATOM_NORMAL } });
        }
        ref status => panic!("{:?} is not exiting", status),
    }
    // waking a non-waiting process changes nothing
    scheduler.wake(pid);
    assert_eq!(scheduler.run_queue_len(Priority::Normal), 1);
}

#[test]
fn spawn_clones_boxed_arguments_from_parent() {
    let mut scheduler = Scheduler::new(0);
    let mut arena = BinaryArena::new();
    let parent = scheduler
        .spawn(
            &mut arena,
            None,
            Options::default(),
            Atom { id: 40 },
            Atom { id: 41 },
            &[],
            Native::Loop,
        )
        .unwrap()
        .pid;
    // a tuple on the parent's heap, holding an off-heap binary
    let long: Vec<u8> = (0..70u8).collect();
    let bin = scheduler.processes[parent as usize]
        .heap
        .binary_from_bytes(&mut arena, &long)
        .unwrap();
    let one = Term::SmallInteger { value: 1 };
    let tuple = scheduler.processes[parent as usize]
        .heap
        .tuple_from_slice(&[one, bin])
        .unwrap();
    assert_eq!(arena.buffers[0].refcount, 1);

    let child = scheduler
        .spawn(
            &mut arena,
            Some(parent),
            Options::default(),
            Atom { id: 42 },
            Atom { id: 43 },
            &[tuple],
            Native::Inspect,
        )
        .unwrap()
        .pid;
    // the child's copy lives on the child's heap, structure preserved,
    // sharing the very same reference-counted buffer
    let copy = scheduler.processes[child as usize].stack[0];
    match copy {
        Term::Boxed { ptr } => {
            assert_eq!(ptr.heap_id, child);
            match &scheduler.processes[child as usize].heap.cells[ptr.index] {
                Cell::Tuple { elements } => {
                    assert_eq!(elements[0], one);
                    match elements[1] {
                        Term::Boxed { ptr: bp } => {
                            match &scheduler.processes[child as usize].heap.cells[bp.index] {
                                Cell::ProcBinRef { buffer } => assert_eq!(*buffer, 0),
                                _ => panic!("copied binary stays off-heap"),
                            }
                        }
                        _ => panic!("copied binary is boxed"),
                    }
                }
                _ => panic!("copied argument is a tuple"),
            }
        }
        _ => panic!("cloned argument is boxed"),
    }
    assert_eq!(arena.buffers[0].refcount, 2);
    assert_eq!(scheduler.processes[child as usize].heap.vheap, vec![0]);
}
