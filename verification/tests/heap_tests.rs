use lumen_runtime::heap::{BinaryArena, BytesFromBinaryError, Cell, Encoding, MakePidError,
    ProcessHeap, HEAP_BINARY_MAX_BYTES, PID_NUMBER_MAX, PID_SERIAL_MAX};
use lumen_runtime::term::{Atom, HeapPtr, Term, MAX_SMALL, MIN_SMALL};
use num_bigint::BigInt;

fn heap() -> ProcessHeap {
    ProcessHeap::new(1, 4096, 1 << 20)
}

#[test]
fn is_owner_distinguishes_heaps_and_bounds() {
    let mut h = heap();
    let t = h.cons(Term::Nil, Term::Nil).unwrap();
    match t {
        Term::Boxed { ptr } => {
            assert!(h.is_owner(ptr));
            assert!(!h.is_owner(HeapPtr { heap_id: 2, index: ptr.index }));
            assert!(!h.is_owner(HeapPtr { heap_id: 1, index: 500 }));
        }
        _ => panic!("cons is boxed"),
    }
}

#[test]
fn binary_at_threshold_is_heap_resident() {
    let mut h = heap();
    let mut arena = BinaryArena::new();
    let bytes: Vec<u8> = (0..HEAP_BINARY_MAX_BYTES as u8).collect();
    assert_eq!(bytes.len(), 64);
    let t = h.binary_from_bytes(&mut arena, &bytes).unwrap();
    match t {
        Term::Boxed { ptr } => match &h.cells[ptr.index] {
            Cell::HeapBinary { bytes: stored, encoding } => {
                assert_eq!(stored, &bytes);
                assert_eq!(*encoding, Encoding::Raw);
            }
            _ => panic!("64 bytes must be heap-resident"),
        },
        _ => panic!("binary is boxed"),
    }
    assert_eq!(arena.buffers.len(), 0);
    assert_eq!(h.vheap.len(), 0);
    // round trip
    let out = h.bytes_from_binary(&mut arena, t).unwrap();
    assert_eq!(out, bytes);
}

#[test]
fn binary_over_threshold_is_reference_counted() {
    let mut h = heap();
    let mut arena = BinaryArena::new();
    let bytes: Vec<u8> = (0..65u8).collect();
    let t = h.binary_from_bytes(&mut arena, &bytes).unwrap();
    match t {
        Term::Boxed { ptr } => match &h.cells[ptr.index] {
            Cell::ProcBinRef { buffer } => {
                assert_eq!(*buffer, 0);
                assert_eq!(arena.buffers[0].bytes, bytes);
                assert_eq!(arena.buffers[0].refcount, 1);
            }
            _ => panic!("65 bytes must be off-heap"),
        },
        _ => panic!("binary is boxed"),
    }
    // registered in the virtual binary heap ledger
    assert_eq!(h.vheap, vec![0]);
    // round trip
    let out = h.bytes_from_binary(&mut arena, t).unwrap();
    assert_eq!(out, bytes);
}

#[test]
fn aligned_subbinary_reads_in_place() {
    let mut h = heap();
    let mut arena = BinaryArena::new();
    let original = h.binary_from_bytes(&mut arena, &[10, 20, 30, 40, 50]).unwrap();
    let sub = h.subbinary_from_original(&arena, original, 1, 0, 3, 0).unwrap();
    let cells_before = h.cells.len();
    let out = h.bytes_from_binary(&mut arena, sub).unwrap();
    assert_eq!(out, vec![20, 30, 40]);
    // aligned extraction materializes nothing
    assert_eq!(h.cells.len(), cells_before);
}

#[test]
fn unaligned_subbinary_is_a_fresh_shifted_copy() {
    let mut h = heap();
    let mut arena = BinaryArena::new();
    let original = h
        .binary_from_bytes(&mut arena, &[0b0000_0001, 0b1111_1110, 0b1010_1011])
        .unwrap();
    // 7 bits into the first byte, two whole bytes of content
    let sub = h.subbinary_from_original(&arena, original, 0, 7, 2, 0).unwrap();
    let cells_before = h.cells.len();
    let out = h.bytes_from_binary(&mut arena, sub).unwrap();
    // each byte is the low bit of one source byte followed by the high
    // seven bits of the next
    assert_eq!(out, vec![0b1111_1111, 0b0101_0101]);
    // the aligned copy was freshly materialized on the heap
    assert!(h.cells.len() > cells_before);
}

#[test]
fn subbinary_with_partial_byte_refuses_byte_extraction() {
    let mut h = heap();
    let mut arena = BinaryArena::new();
    let original = h.binary_from_bytes(&mut arena, &[1, 2, 3]).unwrap();
    let sub = h.subbinary_from_original(&arena, original, 0, 0, 2, 3).unwrap();
    assert_eq!(
        h.bytes_from_binary(&mut arena, sub),
        Err(BytesFromBinaryError::NotABinary)
    );
}

#[test]
fn bytes_from_non_binary_is_a_type_error() {
    let mut h = heap();
    let mut arena = BinaryArena::new();
    let t = h.cons(Term::Nil, Term::Nil).unwrap();
    assert_eq!(h.bytes_from_binary(&mut arena, t), Err(BytesFromBinaryError::Type));
    assert_eq!(h.bytes_from_binary(&mut arena, Term::Nil), Err(BytesFromBinaryError::Type));
}

#[test]
fn str_from_binary_validates_utf8() {
    let mut h = heap();
    let mut arena = BinaryArena::new();
    let good = h.binary_from_str(&mut arena, "ab\u{e9}").unwrap();
    assert_eq!(h.str_from_binary(&mut arena, good).unwrap(), "ab\u{e9}");

    let bad = h.binary_from_bytes(&mut arena, &[0xff, 0xfe]).unwrap();
    match h.str_from_binary(&mut arena, bad) {
        Err(lumen_runtime::heap::StrFromBinaryError::Utf8Error) => {}
        other => panic!("{:?} is not a utf8 error", other),
    }
}

#[test]
fn binary_from_str_marks_ascii_latin1() {
    let mut h = heap();
    let mut arena = BinaryArena::new();
    let t = h.binary_from_str(&mut arena, "plain").unwrap();
    match t {
        Term::Boxed { ptr } => match &h.cells[ptr.index] {
            Cell::HeapBinary { bytes, encoding } => {
                assert_eq!(bytes, b"plain");
                assert_eq!(*encoding, Encoding::Latin1);
            }
            _ => panic!("short text is heap-resident"),
        },
        _ => panic!("binary is boxed"),
    }
}

#[test]
fn integer_threshold_matches_small_range() {
    let mut h = heap();
    assert_eq!(
        h.integer(5).unwrap(),
        Term::SmallInteger { value: 5 }
    );
    assert_eq!(
        h.integer(MAX_SMALL).unwrap(),
        Term::SmallInteger { value: MAX_SMALL }
    );
    assert_eq!(
        h.integer(MIN_SMALL).unwrap(),
        Term::SmallInteger { value: MIN_SMALL }
    );
    // one past the small range boxes a big integer
    let big = h.integer_from_big(BigInt::from(576460752303423489i64)).unwrap();
    match big {
        Term::Boxed { ptr } => match &h.cells[ptr.index] {
            Cell::BigInteger { big } => {
                assert_eq!(*big, BigInt::from(576460752303423489i64));
            }
            _ => panic!("expected a big integer cell"),
        },
        _ => panic!("out-of-range integer must be boxed"),
    }
    // a big value back inside the small range stays immediate
    assert_eq!(
        h.integer_from_big(BigInt::from(10)).unwrap(),
        Term::SmallInteger { value: 10 }
    );
}

#[test]
fn external_pid_checks_component_ranges() {
    let mut h = heap();
    assert_eq!(
        h.external_pid(1, PID_NUMBER_MAX + 1, 0),
        Err(MakePidError::Number)
    );
    assert_eq!(
        h.external_pid(1, 0, PID_SERIAL_MAX + 1),
        Err(MakePidError::Serial)
    );
    let ok = h.external_pid(1, 17, 3).unwrap();
    match ok {
        Term::Boxed { ptr } => match &h.cells[ptr.index] {
            Cell::ExternalPid { node, number, serial } => {
                assert_eq!((*node, *number, *serial), (1, 17, 3));
            }
            _ => panic!("expected an external pid cell"),
        },
        _ => panic!("external pid is boxed"),
    }
}

#[test]
fn list_and_tuple_construction_preserve_order() {
    let mut h = heap();
    let a = Term::SmallInteger { value: 1 };
    let b = Term::SmallInteger { value: 2 };
    let c = Term::SmallInteger { value: 3 };
    let list = h.list_from_slice(&[a, b, c]).unwrap();
    let collected = h.list_to_vec(list).unwrap();
    assert_eq!(collected, vec![a, b, c]);

    let t = h.tuple_from_slices(&[&[a, b], &[c]]).unwrap();
    match t {
        Term::Boxed { ptr } => match &h.cells[ptr.index] {
            Cell::Tuple { elements } => assert_eq!(elements, &vec![a, b, c]),
            _ => panic!("expected a tuple cell"),
        },
        _ => panic!("tuple is boxed"),
    }

    let improper = h.improper_list_from_slice(&[a], b).unwrap();
    assert!(h.list_to_vec(improper).is_none());
}

#[test]
fn map_keeps_pairs_in_order() {
    let mut h = heap();
    let k = Term::Atom { atom: Atom { id: 40 } };
    let v = Term::Atom { atom: Atom { id: 41 } };
    let m = h.map_from_slice(&[(k, v)]).unwrap();
    match m {
        Term::Boxed { ptr } => match &h.cells[ptr.index] {
            Cell::FlatMap { pairs } => assert_eq!(pairs, &vec![(k, v)]),
            _ => panic!("expected a map cell"),
        },
        _ => panic!("map is boxed"),
    }
}

#[test]
fn exhausted_heap_reports_alloc_failure() {
    // a ceiling of 3 words cannot hold two cons cells
    let mut h = ProcessHeap::new(9, 2, 3);
    let first = h.cons(Term::Nil, Term::Nil).unwrap();
    assert!(h.cons(first, Term::Nil).is_err());
    // the failure left the accounting as it was
    assert_eq!(h.used_words, 2);
    assert_eq!(h.cells.len(), 1);
}

#[test]
fn alloc_words_reserves_and_fails_past_ceiling() {
    let mut h = ProcessHeap::new(3, 4, 8);
    let ptr = h.alloc_words(5).unwrap();
    assert_eq!(ptr.index, 0);
    assert_eq!(h.used_words, 5);
    assert!(h.alloc_words(4).is_err());
    // 7 bytes round up to one word plus the two-word header
    let layout = h.alloc_layout(7, 8).unwrap();
    assert_eq!(layout.index, 1);
    assert_eq!(h.used_words, 8);
}

#[test]
fn charlist_holds_code_points_in_order() {
    let mut h = heap();
    let t = h.charlist_from_str("ab\u{e9}").unwrap();
    let elements = h.list_to_vec(t).unwrap();
    assert_eq!(
        elements,
        vec![
            Term::SmallInteger { value: 97 },
            Term::SmallInteger { value: 98 },
            Term::SmallInteger { value: 233 },
        ]
    );
}

#[test]
fn clone_to_heap_rebuilds_terms_and_shares_buffers() {
    let mut arena = BinaryArena::new();
    let mut src = ProcessHeap::new(21, 4096, 1 << 20);
    let mut dst = ProcessHeap::new(22, 4096, 1 << 20);

    // a nested structure: {[1, big], <<65 bytes>>} with a map alongside
    let one = src.integer(1).unwrap();
    let big = src
        .integer_from_big(BigInt::from(576460752303423489i64))
        .unwrap();
    let list = src.list_from_slice(&[one, big]).unwrap();
    let long: Vec<u8> = (0..65u8).collect();
    let off_heap = src.binary_from_bytes(&mut arena, &long).unwrap();
    let tuple = src.tuple_from_slice(&[list, off_heap]).unwrap();
    assert_eq!(arena.buffers[0].refcount, 1);

    let copy = dst.clone_term_from(&mut arena, &src, tuple).unwrap();

    // the copy lives on the destination heap and mirrors the structure
    match copy {
        Term::Boxed { ptr } => {
            assert_eq!(ptr.heap_id, 22);
            match &dst.cells[ptr.index] {
                Cell::Tuple { elements } => {
                    let copied_list = dst.list_to_vec(elements[0]).unwrap();
                    assert_eq!(copied_list[0], Term::SmallInteger { value: 1 });
                    match copied_list[1] {
                        Term::Boxed { ptr: bp } => match &dst.cells[bp.index] {
                            Cell::BigInteger { big } => {
                                assert_eq!(*big, BigInt::from(576460752303423489i64));
                            }
                            _ => panic!("copied big integer expected"),
                        },
                        _ => panic!("copied big integer is boxed"),
                    }
                    // the off-heap buffer is shared, not copied
                    match elements[1] {
                        Term::Boxed { ptr: bp } => match &dst.cells[bp.index] {
                            Cell::ProcBinRef { buffer } => assert_eq!(*buffer, 0),
                            _ => panic!("copied off-heap reference expected"),
                        },
                        _ => panic!("copied binary is boxed"),
                    }
                }
                _ => panic!("copy is a tuple"),
            }
        }
        _ => panic!("copy is boxed"),
    }
    // one more holder of the same buffer, recorded in the copy's ledger
    assert_eq!(arena.buffers.len(), 1);
    assert_eq!(arena.buffers[0].refcount, 2);
    assert_eq!(dst.vheap, vec![0]);
    // the source is untouched
    assert_eq!(src.vheap, vec![0]);
    let round = dst.bytes_from_binary(&mut arena, copy_tuple_element(&dst, copy, 1)).unwrap();
    assert_eq!(round, long);
}

fn copy_tuple_element(h: &ProcessHeap, t: Term, k: usize) -> Term {
    match t {
        Term::Boxed { ptr } => match &h.cells[ptr.index] {
            Cell::Tuple { elements } => elements[k],
            _ => panic!("not a tuple"),
        },
        _ => panic!("not boxed"),
    }
}
