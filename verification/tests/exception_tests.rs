use lumen_runtime::exception::{Class, Exception};
use lumen_runtime::heap::{Cell, ProcessHeap};
use lumen_runtime::term::{Atom, Term, ATOM_BADARG, ATOM_BADARITY, ATOM_BADFUN, ATOM_BADKEY,
    ATOM_BADMAP, ATOM_ERROR, ATOM_EXIT, ATOM_NORMAL, ATOM_THROW, ATOM_UNDEF};

fn small_heap() -> ProcessHeap {
    ProcessHeap::new(7, 256, 1024)
}

fn atom(id: u64) -> Term {
    Term::Atom { atom: Atom { id } }
}

#[test]
fn without_arguments_stores_none() {
    let reason = atom(ATOM_BADARG);

    let error = Exception::error(reason, None, None, "runtime", 1, 1);

    assert_eq!(error.reason, reason);
    assert_eq!(error.class, Class::Error { arguments: None });
}

#[test]
fn without_arguments_stores_some() {
    let reason = atom(ATOM_BADARG);
    let arguments = Term::Nil;

    let error = Exception::error(reason, Some(arguments), None, "runtime", 1, 1);

    assert_eq!(error.reason, reason);
    assert_eq!(
        error.class,
        Class::Error {
            arguments: Some(arguments)
        }
    );
}

#[test]
fn equality_ignores_provenance() {
    let a = Exception::badarg("left.rs", 10, 2);
    let b = Exception::badarg("right.rs", 99, 44);

    assert_eq!(a, b);

    let c = Exception::exit(atom(ATOM_NORMAL), None, "one.rs", 1, 1);
    let d = Exception::exit(atom(ATOM_NORMAL), None, "two.rs", 2, 2);
    assert_eq!(c, d);

    // a different reason really is unequal
    let e = Exception::exit(atom(ATOM_BADARG), None, "one.rs", 1, 1);
    assert_ne!(c, e);

    // a different class is unequal even with the same reason
    let f = Exception::badarg("x.rs", 1, 1);
    let g = Exception::exit(atom(ATOM_BADARG), None, "x.rs", 1, 1);
    assert_ne!(f, g);
}

#[test]
fn badarith_is_a_bare_atom_error() {
    let e = Exception::badarith("m.rs", 3, 4);
    assert_eq!(e.class, Class::Error { arguments: None });
    assert_eq!(e.reason, atom(lumen_runtime::term::ATOM_BADARITH));
    assert_eq!(e.stacktrace, None);
    assert_eq!(e.file, "m.rs");
    assert_eq!(e.line, 3);
    assert_eq!(e.column, 4);
}

#[test]
fn badfun_reason_is_tagged_tuple() {
    let mut heap = small_heap();
    let function = Term::SmallInteger { value: 9 };
    let e = Exception::badfun(&mut heap, function, "f.rs", 1, 1).unwrap();
    assert_eq!(e.class, Class::Error { arguments: None });
    match e.reason {
        Term::Boxed { ptr } => match &heap.cells[ptr.index] {
            Cell::Tuple { elements } => {
                assert_eq!(elements.len(), 2);
                assert_eq!(elements[0], atom(ATOM_BADFUN));
                assert_eq!(elements[1], function);
            }
            _ => panic!("reason does not point at a tuple"),
        },
        _ => panic!("reason is not boxed"),
    }
}

#[test]
fn badkey_and_badmap_reasons_are_tagged() {
    let mut heap = small_heap();
    let key = atom(77);
    let e = Exception::badkey(&mut heap, key, "k.rs", 1, 1).unwrap();
    match e.reason {
        Term::Boxed { ptr } => match &heap.cells[ptr.index] {
            Cell::Tuple { elements } => {
                assert_eq!(elements[0], atom(ATOM_BADKEY));
                assert_eq!(elements[1], key);
            }
            _ => panic!("not a tuple"),
        },
        _ => panic!("not boxed"),
    }

    let map = Term::SmallInteger { value: 1 };
    let e2 = Exception::badmap(&mut heap, map, "m.rs", 1, 1).unwrap();
    match e2.reason {
        Term::Boxed { ptr } => match &heap.cells[ptr.index] {
            Cell::Tuple { elements } => {
                assert_eq!(elements[0], atom(ATOM_BADMAP));
                assert_eq!(elements[1], map);
            }
            _ => panic!("not a tuple"),
        },
        _ => panic!("not boxed"),
    }
}

#[test]
fn badarity_reason_nests_function_and_arguments() {
    let mut heap = small_heap();
    let function = atom(50);
    let arguments = Term::Nil;
    let e = Exception::badarity(&mut heap, function, arguments, "a.rs", 1, 1).unwrap();
    match e.reason {
        Term::Boxed { ptr } => match &heap.cells[ptr.index] {
            Cell::Tuple { elements } => {
                assert_eq!(elements[0], atom(ATOM_BADARITY));
                match elements[1] {
                    Term::Boxed { ptr: inner } => match &heap.cells[inner.index] {
                        Cell::Tuple { elements: fa } => {
                            assert_eq!(fa[0], function);
                            assert_eq!(fa[1], arguments);
                        }
                        _ => panic!("inner is not a tuple"),
                    },
                    _ => panic!("inner is not boxed"),
                }
            }
            _ => panic!("not a tuple"),
        },
        _ => panic!("not boxed"),
    }
}

#[test]
fn undef_builds_exit_with_stacktrace_frame() {
    let mut heap = small_heap();
    let module = atom(100);
    let function = atom(101);
    let arguments = Term::Nil;
    let e = Exception::undef(&mut heap, module, function, arguments, Term::Nil, "u.rs", 1, 1)
        .unwrap();
    assert_eq!(e.class, Class::Exit);
    assert_eq!(e.reason, atom(ATOM_UNDEF));
    let st = e.stacktrace.expect("undef carries a stacktrace");
    match st {
        Term::Boxed { ptr } => match &heap.cells[ptr.index] {
            Cell::Cons { head, tail } => {
                assert_eq!(*tail, Term::Nil);
                match head {
                    Term::Boxed { ptr: top } => match &heap.cells[top.index] {
                        Cell::Tuple { elements } => {
                            assert_eq!(elements.len(), 4);
                            assert_eq!(elements[0], module);
                            assert_eq!(elements[1], function);
                            assert_eq!(elements[2], arguments);
                            assert_eq!(elements[3], Term::Nil);
                        }
                        _ => panic!("top frame is not a tuple"),
                    },
                    _ => panic!("top frame is not boxed"),
                }
            }
            _ => panic!("stacktrace is not a cons"),
        },
        _ => panic!("stacktrace is not boxed"),
    }
}

#[test]
fn class_reads_its_atom_names() {
    assert_eq!(
        Class::try_from_term(atom(ATOM_ERROR), "c.rs", 1, 1),
        Ok(Class::Error { arguments: None })
    );
    assert_eq!(Class::try_from_term(atom(ATOM_EXIT), "c.rs", 1, 1), Ok(Class::Exit));
    assert_eq!(Class::try_from_term(atom(ATOM_THROW), "c.rs", 1, 1), Ok(Class::Throw));
    let rejected = Class::try_from_term(atom(ATOM_NORMAL), "c.rs", 1, 1);
    assert_eq!(rejected.unwrap_err(), Exception::badarg("other.rs", 9, 9));
    let non_atom = Class::try_from_term(Term::Nil, "c.rs", 1, 1);
    assert_eq!(non_atom.unwrap_err(), Exception::badarg("other.rs", 9, 9));
}
