//! Decoding terms from their external wire format onto a process heap.
//! Only the term shapes the core itself materializes are understood:
//! integers, the empty list, small tuples and lists.  `parse_term` is the
//! byte-level meaning of the format; the decoders are proved against it.

use vstd::prelude::*;
use crate::exception::{is_atom_error, Exception};
use crate::heap::{Alloc, Cell, ProcessHeap};
use crate::term::{Term, ATOM_BADARG};

pub mod list;
pub mod small_tuple;

verus! {

pub const TAG_SMALL_INTEGER: u8 = 97;
pub const TAG_INTEGER: u8 = 98;
pub const TAG_SMALL_TUPLE: u8 = 104;
pub const TAG_NIL: u8 = 106;
pub const TAG_LIST: u8 = 108;

/// A decoding failure: either the bytes do not encode a term, or the heap
/// could not hold the result.
#[derive(Debug)]
pub enum DecodeError {
    Alloc(Alloc),
    Badarg(Exception),
}

/// The abstract value a byte range encodes.
pub enum EtfValue {
    Integer(int),
    Nil,
    Tuple(Seq<EtfValue>),
    Cons(Box<EtfValue>, Box<EtfValue>),
}

/// The big-endian 32-bit value at `pos`.
pub open spec fn be_u32(bytes: Seq<u8>, pos: int) -> int {
    bytes[pos] * 0x1000000 + bytes[pos + 1] * 0x10000 + bytes[pos + 2] * 0x100 + bytes[pos + 3]
}

/// The big-endian signed 32-bit value at `pos`.
pub open spec fn be_i32(bytes: Seq<u8>, pos: int) -> int {
    if be_u32(bytes, pos) >= 0x80000000 {
        be_u32(bytes, pos) - 0x100000000
    } else {
        be_u32(bytes, pos)
    }
}

/// The proper or improper list value with the given elements and tail.
pub open spec fn cons_fold(elements: Seq<EtfValue>, tail: EtfValue) -> EtfValue
    decreases elements.len(),
{
    if elements.len() == 0 {
        tail
    } else {
        EtfValue::Cons(Box::new(elements[0]), Box::new(cons_fold(elements.drop_first(), tail)))
    }
}

/// Parses one tagged term at `pos`: the value and the position after it.
pub open spec fn parse_term(bytes: Seq<u8>, pos: int) -> Option<(EtfValue, int)>
    decreases bytes.len() - pos, 0int, 2int,
    when 0 <= pos
{
    if pos >= bytes.len() {
        None
    } else if bytes[pos] == TAG_SMALL_INTEGER {
        if pos + 2 <= bytes.len() {
            Some((EtfValue::Integer(bytes[pos + 1] as int), pos + 2))
        } else {
            None
        }
    } else if bytes[pos] == TAG_INTEGER {
        if pos + 5 <= bytes.len() {
            Some((EtfValue::Integer(be_i32(bytes, pos + 1)), pos + 5))
        } else {
            None
        }
    } else if bytes[pos] == TAG_NIL {
        Some((EtfValue::Nil, pos + 1))
    } else if bytes[pos] == TAG_SMALL_TUPLE {
        if pos + 2 <= bytes.len() {
            match parse_seq(bytes, pos + 2, bytes[pos + 1] as int) {
                Some((vs, p)) => Some((EtfValue::Tuple(vs), p)),
                None => None,
            }
        } else {
            None
        }
    } else if bytes[pos] == TAG_LIST {
        if pos + 5 <= bytes.len() {
            match parse_seq(bytes, pos + 5, be_u32(bytes, pos + 1)) {
                Some((vs, p)) => if p >= pos + 5 && p <= bytes.len() {
                    match parse_term(bytes, p) {
                        Some((tail, p2)) => Some((cons_fold(vs, tail), p2)),
                        None => None,
                    }
                } else {
                    None
                },
                None => None,
            }
        } else {
            None
        }
    } else {
        None
    }
}

/// Parses `count` consecutive tagged terms starting at `pos`.
pub open spec fn parse_seq(bytes: Seq<u8>, pos: int, count: int) -> Option<(Seq<EtfValue>, int)>
    decreases bytes.len() - pos, count, 1int,
    when 0 <= pos
{
    if count <= 0 {
        Some((Seq::empty(), pos))
    } else if pos >= bytes.len() {
        None
    } else {
        match parse_term(bytes, pos) {
            Some((v, p)) => if p > pos && p <= bytes.len() {
                match parse_seq(bytes, p, count - 1) {
                    Some((vs, p2)) => Some((seq![v] + vs, p2)),
                    None => None,
                }
            } else {
                None
            },
            None => None,
        }
    }
}

/// Whether `t` on heap `h` is the materialization of value `v`.
pub open spec fn represents(h: ProcessHeap, t: Term, v: EtfValue) -> bool
    decreases v,
{
    match v {
        EtfValue::Integer(n) => h.int_value(t) == Some(n),
        EtfValue::Nil => t == Term::Nil,
        EtfValue::Tuple(vs) => {
            &&& t matches Term::Boxed { ptr }
            &&& ptr.heap_id == h.id
            &&& ptr.index < h.cells@.len()
            &&& (h.cells@[ptr.index as int] matches Cell::Tuple { elements } && elements@.len()
                == vs.len() && (forall|j: int|
                0 <= j < vs.len() ==> represents(h, elements@[j], #[trigger] vs[j])))
        },
        EtfValue::Cons(hd, tl) => {
            &&& t matches Term::Boxed { ptr }
            &&& ptr.heap_id == h.id
            &&& ptr.index < h.cells@.len()
            &&& (h.cells@[ptr.index as int] matches Cell::Cons { head, tail } && represents(
                h,
                head,
                *hd,
            ) && represents(h, tail, *tl))
        },
    }
}

/// Growing a heap preserves what its terms represent.
pub proof fn lemma_represents_extends(pre: ProcessHeap, post: ProcessHeap, t: Term, v: EtfValue)
    requires
        post.extends(pre),
        represents(pre, t, v),
    ensures
        represents(post, t, v),
    decreases v,
{
    match v {
        EtfValue::Integer(n) => {
        },
        EtfValue::Nil => {
        },
        EtfValue::Tuple(vs) => {
            let ptr = t->ptr;
            match pre.cells@[ptr.index as int] {
                Cell::Tuple { elements } => {
                    assert forall|j: int| 0 <= j < vs.len() implies represents(
                        post,
                        elements@[j],
                        #[trigger] vs[j],
                    ) by {
                        lemma_represents_extends(pre, post, elements@[j], vs[j]);
                    }
                },
                _ => {},
            }
        },
        EtfValue::Cons(hd, tl) => {
            let ptr = t->ptr;
            match pre.cells@[ptr.index as int] {
                Cell::Cons { head, tail } => {
                    lemma_represents_extends(pre, post, head, *hd);
                    lemma_represents_extends(pre, post, tail, *tl);
                },
                _ => {},
            }
        },
    }
}

/// A freshly consed chain whose elements and tail represent values
/// represents their folded list value.
pub proof fn lemma_cons_fold_represents(
    h: ProcessHeap,
    t: Term,
    elems: Seq<Term>,
    vs: Seq<EtfValue>,
    tail: Term,
    tailv: EtfValue,
)
    requires
        h.wf(),
        h.is_list_of(t, elems, tail),
        elems.len() == vs.len(),
        forall|j: int| 0 <= j < vs.len() ==> represents(h, elems[j], #[trigger] vs[j]),
        represents(h, tail, tailv),
    ensures
        represents(h, t, cons_fold(vs, tailv)),
    decreases elems.len(),
{
    if elems.len() == 0 {
        assert(t == tail);
    } else {
        let ptr = t->ptr;
        match h.cells@[ptr.index as int] {
            Cell::Cons { head, tail: rest } => {
                lemma_cons_fold_represents(
                    h,
                    rest,
                    elems.drop_first(),
                    vs.drop_first(),
                    tail,
                    tailv,
                );
                assert(head == elems[0]);
                assert(represents(h, head, vs[0]));
            },
            _ => {},
        }
    }
}

/// Reads one byte.
pub fn decode_u8(bytes: &[u8], pos: usize) -> (r: Result<(u8, usize), Exception>)
    ensures
        match r {
            Ok((b, p)) => pos < bytes@.len() && b == bytes@[pos as int] && p == pos + 1,
            Err(e) => pos >= bytes@.len() && is_atom_error(e, ATOM_BADARG, "etf", 0, 0),
        },
{
    if pos < bytes.len() {
        Ok((bytes[pos], pos + 1))
    } else {
        Err(Exception::badarg("etf", 0, 0))
    }
}

/// Reads a big-endian unsigned 32-bit value.
pub fn decode_u32(bytes: &[u8], pos: usize) -> (r: Result<(u32, usize), Exception>)
    ensures
        match r {
            Ok((v, p)) => pos + 4 <= bytes@.len() && v == be_u32(bytes@, pos as int) && p == pos
                + 4,
            Err(e) => pos + 4 > bytes@.len() && is_atom_error(e, ATOM_BADARG, "etf", 0, 0),
        },
{
    if pos < bytes.len() && bytes.len() - pos >= 4 {
        let b0 = bytes[pos] as u32;
        let b1 = bytes[pos + 1] as u32;
        let b2 = bytes[pos + 2] as u32;
        let b3 = bytes[pos + 3] as u32;
        let v = b0 * 0x1000000 + b1 * 0x10000 + b2 * 0x100 + b3;
        Ok((v, pos + 4))
    } else {
        Err(Exception::badarg("etf", 0, 0))
    }
}

/// Decodes one tagged term at `pos` onto the heap.
pub fn decode_tagged(heap: &mut ProcessHeap, safe: bool, bytes: &[u8], pos: usize) -> (r: Result<
    (Term, usize),
    DecodeError,
>)
    requires
        old(heap).wf(),
    ensures
        final(heap).wf(),
        final(heap).extends(*old(heap)),
        match r {
            Ok((t, p)) => {
                &&& parse_term(bytes@, pos as int) matches Some(vp) && vp.1 == p && represents(
                    *final(heap),
                    t,
                    vp.0,
                )
                &&& final(heap).valid_term(t)
                &&& p > pos
                &&& p <= bytes@.len()
                &&& final(heap).used_words == old(heap).used_words + decode_words(
                    bytes@,
                    pos as int,
                )
            },
            Err(DecodeError::Badarg(e)) => parse_term(bytes@, pos as int) is None && is_atom_error(
                e,
                ATOM_BADARG,
                "etf",
                0,
                0,
            ),
            Err(DecodeError::Alloc(_)) => old(heap).used_words + decode_words(bytes@, pos as int)
                > old(heap).max_words,
        },
    decreases bytes@.len() - pos, 0int, 2int,
{
    let (tag, pos1) = match decode_u8(bytes, pos) {
        Ok(tp) => tp,
        Err(e) => {
            return Err(DecodeError::Badarg(e));
        },
    };
    if tag == TAG_SMALL_INTEGER {
        match decode_u8(bytes, pos1) {
            Ok((b, pos2)) => {
                proof {
                    assert(crate::term::spec_is_small(b as int));
                }
                let t = match heap.integer(b as i64) {
                    Ok(t) => t,
                    Err(a) => {
                        return Err(DecodeError::Alloc(a));
                    },
                };
                Ok((t, pos2))
            },
            Err(e) => Err(DecodeError::Badarg(e)),
        }
    } else if tag == TAG_INTEGER {
        match decode_u32(bytes, pos1) {
            Ok((u, pos2)) => {
                let v: i64 = if u >= 0x80000000 {
                    (u as i64) - 0x100000000i64
                } else {
                    u as i64
                };
                proof {
                    assert(crate::term::spec_is_small(v as int));
                }
                let t = match heap.integer(v) {
                    Ok(t) => t,
                    Err(a) => {
                        return Err(DecodeError::Alloc(a));
                    },
                };
                Ok((t, pos2))
            },
            Err(e) => Err(DecodeError::Badarg(e)),
        }
    } else if tag == TAG_NIL {
        Ok((Term::Nil, pos1))
    } else if tag == TAG_SMALL_TUPLE {
        small_tuple::decode(heap, safe, bytes, pos1)
    } else if tag == TAG_LIST {
        list::decode(heap, safe, bytes, pos1)
    } else {
        Err(DecodeError::Badarg(Exception::badarg("etf", 0, 0)))
    }
}

/// Decodes `count` consecutive terms onto the heap.
pub fn decode_vec_term(
    heap: &mut ProcessHeap,
    safe: bool,
    bytes: &[u8],
    pos: usize,
    count: usize,
) -> (r: Result<(Vec<Term>, usize), DecodeError>)
    requires
        old(heap).wf(),
    ensures
        final(heap).wf(),
        final(heap).extends(*old(heap)),
        match r {
            Ok((v, p)) => {
                &&& parse_seq(bytes@, pos as int, count as int) matches Some(vsp) && vsp.1 == p
                    && vsp.0.len() == v@.len() && (forall|j: int|
                    0 <= j < v@.len() ==> represents(*final(heap), v@[j], #[trigger] vsp.0[j]))
                &&& forall|j: int| 0 <= j < v@.len() ==> final(heap).valid_term(#[trigger] v@[j])
                &&& v@.len() == count
                &&& p >= pos
                &&& p <= bytes@.len() || count == 0
                &&& final(heap).used_words == old(heap).used_words + decode_words_seq(
                    bytes@,
                    pos as int,
                    count as int,
                )
            },
            Err(DecodeError::Badarg(e)) => parse_seq(bytes@, pos as int, count as int) is None
                && is_atom_error(e, ATOM_BADARG, "etf", 0, 0),
            Err(DecodeError::Alloc(_)) => old(heap).used_words + decode_words_seq(
                bytes@,
                pos as int,
                count as int,
            ) > old(heap).max_words,
        },
    decreases bytes@.len() - pos, count, 1int,
{
    let mut terms: Vec<Term> = Vec::new();
    if count == 0 {
        proof {
            assert(parse_seq(bytes@, pos as int, 0) == Some((Seq::<EtfValue>::empty(), pos as int)));
        }
        return Ok((terms, pos));
    }
    if pos >= bytes.len() {
        return Err(DecodeError::Badarg(Exception::badarg("etf", 0, 0)));
    }
    let (head, p) = match decode_tagged(heap, safe, bytes, pos) {
        Ok(tp) => tp,
        Err(e) => {
            proof {
                match parse_term(bytes@, pos as int) {
                    Some((v0, p0)) => {
                        if p0 > pos && p0 <= bytes@.len() {
                            lemma_decode_words_seq_nonneg(bytes@, p0, count - 1);
                        }
                    },
                    None => {},
                }
            }
            return Err(e);
        },
    };
    let ghost mid = *heap;
    let (rest, p2) = match decode_vec_term(heap, safe, bytes, p, count - 1) {
        Ok(vp) => vp,
        Err(e) => {
            return Err(e);
        },
    };
    proof {
        let vp = parse_term(bytes@, pos as int)->Some_0;
        let vsp = parse_seq(bytes@, p as int, count - 1)->Some_0;
        assert(parse_seq(bytes@, pos as int, count as int) == Some(
            (seq![vp.0] + vsp.0, vsp.1),
        ));
    }
    let mut result: Vec<Term> = Vec::new();
    result.push(head);
    let mut k: usize = 0;
    while k < rest.len()
        invariant
            k <= rest@.len(),
            result@ == seq![head] + rest@.subrange(0, k as int),
        decreases rest@.len() - k,
    {
        result.push(rest[k]);
        proof {
            assert(rest@.subrange(0, k as int + 1) =~= rest@.subrange(0, k as int).push(
                rest@[k as int],
            ));
        }
        k = k + 1;
    }
    proof {
        assert(rest@.subrange(0, rest@.len() as int) =~= rest@);
        let vp = parse_term(bytes@, pos as int)->Some_0;
        let vsp = parse_seq(bytes@, p as int, count - 1)->Some_0;
        assert forall|j: int| 0 <= j < result@.len() implies represents(
            *heap,
            result@[j],
            #[trigger] (seq![vp.0] + vsp.0)[j],
        ) by {
            if j == 0 {
                lemma_represents_extends(mid, *heap, head, vp.0);
            }
        }
    }
    Ok((result, p2))
}


/// The heap words the decoder lays down for the term encoded at `pos`:
/// nothing for an immediate, one cell for a tuple, one cons cell per list
/// element.  Where the bytes do not parse, only the part the decoder
/// reaches before failing is counted.
pub open spec fn decode_words(bytes: Seq<u8>, pos: int) -> int
    decreases bytes.len() - pos, 0int, 2int,
    when 0 <= pos
{
    if pos >= bytes.len() {
        0
    } else if bytes[pos] == TAG_SMALL_TUPLE {
        if pos + 2 <= bytes.len() {
            1 + bytes[pos + 1] + decode_words_seq(bytes, pos + 2, bytes[pos + 1] as int)
        } else {
            0
        }
    } else if bytes[pos] == TAG_LIST {
        if pos + 5 <= bytes.len() {
            let elements = decode_words_seq(bytes, pos + 5, be_u32(bytes, pos + 1));
            let conses = 2 * be_u32(bytes, pos + 1);
            match parse_seq(bytes, pos + 5, be_u32(bytes, pos + 1)) {
                Some((vs, p)) => if p >= pos + 5 && p <= bytes.len() {
                    elements + decode_words(bytes, p) + conses
                } else {
                    elements + conses
                },
                None => elements + conses,
            }
        } else {
            0
        }
    } else {
        0
    }
}

/// The heap words laid down for `count` consecutive encoded terms; a term
/// that does not parse ends the count at its own partial cost.
pub open spec fn decode_words_seq(bytes: Seq<u8>, pos: int, count: int) -> int
    decreases bytes.len() - pos, count, 1int,
    when 0 <= pos
{
    if count <= 0 {
        0
    } else if pos >= bytes.len() {
        0
    } else {
        match parse_term(bytes, pos) {
            Some((v, p)) => if p > pos && p <= bytes.len() {
                decode_words(bytes, pos) + decode_words_seq(bytes, p, count - 1)
            } else {
                decode_words(bytes, pos)
            },
            None => decode_words(bytes, pos),
        }
    }
}

/// Decoder word costs are never negative.
pub proof fn lemma_decode_words_nonneg(bytes: Seq<u8>, pos: int)
    requires
        0 <= pos,
    ensures
        decode_words(bytes, pos) >= 0,
    decreases bytes.len() - pos, 0int, 2int,
{
    if pos < bytes.len() && bytes[pos] == TAG_SMALL_TUPLE && pos + 2 <= bytes.len() {
        lemma_decode_words_seq_nonneg(bytes, pos + 2, bytes[pos + 1] as int);
    }
    if pos < bytes.len() && bytes[pos] == TAG_LIST && pos + 5 <= bytes.len() {
        lemma_decode_words_seq_nonneg(bytes, pos + 5, be_u32(bytes, pos + 1));
        match parse_seq(bytes, pos + 5, be_u32(bytes, pos + 1)) {
            Some((vs, p)) => {
                if p >= pos + 5 && p <= bytes.len() {
                    lemma_decode_words_nonneg(bytes, p);
                }
            },
            None => {},
        }
    }
}

/// Summed decoder word costs are never negative.
pub proof fn lemma_decode_words_seq_nonneg(bytes: Seq<u8>, pos: int, count: int)
    requires
        0 <= pos,
    ensures
        decode_words_seq(bytes, pos, count) >= 0,
    decreases bytes.len() - pos, count, 1int,
{
    if count > 0 && pos < bytes.len() {
        lemma_decode_words_nonneg(bytes, pos);
        match parse_term(bytes, pos) {
            Some((v, p)) => {
                if p > pos && p <= bytes.len() {
                    lemma_decode_words_seq_nonneg(bytes, p, count - 1);
                }
            },
            None => {},
        }
    }
}

} // verus!
