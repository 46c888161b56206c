use lumen_runtime::etf::{decode_tagged, decode_u32, decode_u8, list, small_tuple, DecodeError,
    TAG_INTEGER, TAG_LIST, TAG_NIL, TAG_SMALL_INTEGER, TAG_SMALL_TUPLE};
use lumen_runtime::heap::{Cell, ProcessHeap};
use lumen_runtime::term::Term;

fn heap() -> ProcessHeap {
    ProcessHeap::new(5, 1024, 4096)
}

#[test]
fn u8_and_u32_read_big_endian() {
    let bytes = [0x01, 0x02, 0x03, 0x04, 0x05];
    assert_eq!(decode_u8(&bytes, 0).unwrap(), (0x01, 1));
    assert_eq!(decode_u32(&bytes, 1).unwrap(), (0x02030405, 5));
    assert!(decode_u8(&bytes, 5).is_err());
    assert!(decode_u32(&bytes, 2).is_err());
}

#[test]
fn tagged_small_integer_decodes_immediately() {
    let mut h = heap();
    let bytes = [TAG_SMALL_INTEGER, 200];
    let (t, p) = decode_tagged(&mut h, true, &bytes, 0).unwrap();
    assert_eq!(p, 2);
    assert_eq!(t, Term::SmallInteger { value: 200 });
}

#[test]
fn tagged_integer_decodes_signed() {
    let mut h = heap();
    // -2 in big-endian two's complement
    let bytes = [TAG_INTEGER, 0xff, 0xff, 0xff, 0xfe];
    let (t, p) = decode_tagged(&mut h, true, &bytes, 0).unwrap();
    assert_eq!(p, 5);
    assert_eq!(t, Term::SmallInteger { value: -2 });
}

#[test]
fn tagged_nil_decodes() {
    let mut h = heap();
    let bytes = [TAG_NIL];
    assert_eq!(decode_tagged(&mut h, true, &bytes, 0).unwrap(), (Term::Nil, 1));
}

#[test]
fn list_decodes_elements_and_tail() {
    let mut h = heap();
    // two elements (7 and 9) and a nil tail; the list body starts after
    // its tag
    let bytes = [
        0, 0, 0, 2, // element count
        TAG_SMALL_INTEGER, 7, TAG_SMALL_INTEGER, 9, TAG_NIL,
    ];
    let (t, p) = list::decode(&mut h, true, &bytes, 0).unwrap();
    assert_eq!(p, bytes.len());
    let elements = h.list_to_vec(t).unwrap();
    assert_eq!(
        elements,
        vec![
            Term::SmallInteger { value: 7 },
            Term::SmallInteger { value: 9 },
        ]
    );
}

#[test]
fn improper_list_decodes_with_its_tail() {
    let mut h = heap();
    let bytes = [0, 0, 0, 1, TAG_SMALL_INTEGER, 7, TAG_SMALL_INTEGER, 9];
    let (t, _) = list::decode(&mut h, true, &bytes, 0).unwrap();
    // the tail is the integer 9, so the list is improper
    assert!(h.list_to_vec(t).is_none());
    match t {
        Term::Boxed { ptr } => match &h.cells[ptr.index] {
            Cell::Cons { head, tail } => {
                assert_eq!(*head, Term::SmallInteger { value: 7 });
                assert_eq!(*tail, Term::SmallInteger { value: 9 });
            }
            _ => panic!("not a cons"),
        },
        _ => panic!("not boxed"),
    }
}

#[test]
fn small_tuple_decodes_arity_then_elements() {
    let mut h = heap();
    // the tuple body starts after its tag: arity 3
    let bytes = [3, TAG_SMALL_INTEGER, 1, TAG_NIL, TAG_SMALL_INTEGER, 2];
    let (t, p) = small_tuple::decode(&mut h, true, &bytes, 0).unwrap();
    assert_eq!(p, bytes.len());
    match t {
        Term::Boxed { ptr } => match &h.cells[ptr.index] {
            Cell::Tuple { elements } => {
                assert_eq!(
                    elements,
                    &vec![
                        Term::SmallInteger { value: 1 },
                        Term::Nil,
                        Term::SmallInteger { value: 2 },
                    ]
                );
            }
            _ => panic!("not a tuple"),
        },
        _ => panic!("not boxed"),
    }
}

#[test]
fn nested_terms_decode_through_the_tag_dispatch() {
    let mut h = heap();
    // [{1}, []] with a nil tail
    let bytes = [
        TAG_LIST, 0, 0, 0, 2, // list of two elements
        TAG_SMALL_TUPLE, 1, TAG_SMALL_INTEGER, 1, // {1}
        TAG_NIL, // []
        TAG_NIL, // tail
    ];
    let (t, p) = decode_tagged(&mut h, true, &bytes, 0).unwrap();
    assert_eq!(p, bytes.len());
    let elements = h.list_to_vec(t).unwrap();
    assert_eq!(elements.len(), 2);
    assert_eq!(elements[1], Term::Nil);
    match elements[0] {
        Term::Boxed { ptr } => match &h.cells[ptr.index] {
            Cell::Tuple { elements: es } => {
                assert_eq!(es, &vec![Term::SmallInteger { value: 1 }]);
            }
            _ => panic!("not a tuple"),
        },
        _ => panic!("not boxed"),
    }
}

#[test]
fn unknown_tag_and_truncation_are_badarg() {
    let mut h = heap();
    match decode_tagged(&mut h, true, &[42], 0) {
        Err(DecodeError::Badarg(_)) => {}
        other => panic!("{:?} is not badarg", other.err().map(|_| ())),
    }
    match decode_tagged(&mut h, true, &[TAG_INTEGER, 1, 2], 0) {
        Err(DecodeError::Badarg(_)) => {}
        _ => panic!("truncated integer must be badarg"),
    }
    match list::decode(&mut h, true, &[0, 0, 0, 1], 0) {
        Err(DecodeError::Badarg(_)) => {}
        _ => panic!("missing elements must be badarg"),
    }
}
