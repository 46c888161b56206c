use lumen_runtime::heap::{BinaryArena, ProcessHeap};
use lumen_runtime::term::{Atom, Term};
use num_bigint::BigInt;

fn heap() -> ProcessHeap {
    ProcessHeap::new(11, 512, 2048)
}

#[test]
fn with_atom_is_false() {
    let h = heap();
    let term = Term::Atom { atom: Atom { id: 300 } };

    assert_eq!(h.is_bitstring(term), false);
}

#[test]
fn with_local_reference_is_false() {
    let mut h = heap();
    let term = h.reference(0, 1).unwrap();

    assert_eq!(h.is_bitstring(term), false);
}

#[test]
fn with_empty_list_is_false() {
    let h = heap();
    let term = Term::Nil;

    assert_eq!(h.is_bitstring(term), false);
}

#[test]
fn with_list_is_false() {
    let mut h = heap();
    let head_term = Term::Atom { atom: Atom { id: 301 } };
    let term = h.cons(head_term, Term::Nil).unwrap();

    assert_eq!(h.is_bitstring(term), false);
}

#[test]
fn with_small_integer_is_false() {
    let mut h = heap();
    let term = h.integer(0).unwrap();

    assert_eq!(h.is_bitstring(term), false);
}

#[test]
fn with_big_integer_is_false() {
    let mut h = heap();
    let term = h
        .integer_from_big(BigInt::from(576460752303423489i64))
        .unwrap();

    assert_eq!(h.is_bitstring(term), false);
}

#[test]
fn with_float_is_false() {
    let mut h = heap();
    let term = h.float_from_bits(1.0f64.to_bits()).unwrap();

    assert_eq!(h.is_bitstring(term), false);
}

#[test]
fn with_local_pid_is_false() {
    let h = heap();
    let term = Term::Pid { number: 0, serial: 0 };

    assert_eq!(h.is_bitstring(term), false);
}

#[test]
fn with_external_pid_is_false() {
    let mut h = heap();
    let term = h.external_pid(1, 0, 0).unwrap();

    assert_eq!(h.is_bitstring(term), false);
}

#[test]
fn with_tuple_is_false() {
    let mut h = heap();
    let term = h.tuple_from_slice(&[]).unwrap();

    assert_eq!(h.is_bitstring(term), false);
}

#[test]
fn with_map_is_false() {
    let mut h = heap();
    let term = h.map_from_slice(&[]).unwrap();

    assert_eq!(h.is_bitstring(term), false);
}

#[test]
fn with_heap_binary_is_true() {
    let mut h = heap();
    let mut arena = BinaryArena::new();
    let term = h.binary_from_bytes(&mut arena, &[]).unwrap();

    assert_eq!(h.is_bitstring(term), true);
}

#[test]
fn with_subbinary_with_bit_count_is_true() {
    let mut h = heap();
    let mut arena = BinaryArena::new();
    let original = h
        .binary_from_bytes(&mut arena, &[0b0000_0001, 0b1111_1110, 0b1010_1011])
        .unwrap();
    let term = h.subbinary_from_original(&arena, original, 0, 7, 2, 1).unwrap();

    assert_eq!(h.is_bitstring(term), true);
}

#[test]
fn with_subbinary_without_bit_count_is_true() {
    let mut h = heap();
    let mut arena = BinaryArena::new();
    let original = h
        .binary_from_bytes(&mut arena, &[0b0000_0001, 0b1111_1110, 0b1010_1011])
        .unwrap();
    let term = h.subbinary_from_original(&arena, original, 0, 7, 2, 0).unwrap();

    assert_eq!(h.is_bitstring(term), true);
}
