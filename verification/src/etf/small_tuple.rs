//! Decoding a small tuple term: an 8-bit arity followed by that many
//! tagged elements.

use vstd::prelude::*;
use crate::etf::{decode_u8, decode_vec_term, lemma_represents_extends, parse_seq, represents,
    DecodeError, EtfValue};
use crate::exception::is_atom_error;
use crate::heap::{Cell, ProcessHeap};
use crate::term::{Term, ATOM_BADARG};

verus! {

/// Decodes the body of a small tuple (the bytes after its tag) onto the
/// heap: the arity byte, then that many elements, laid out as one tuple.
pub fn decode(heap: &mut ProcessHeap, safe: bool, bytes: &[u8], pos: usize) -> (r: Result<
    (Term, usize),
    DecodeError,
>)
    requires
        old(heap).wf(),
    ensures
        final(heap).wf(),
        final(heap).extends(*old(heap)),
        match r {
            Ok((t, p)) => {
                &&& tuple_parse(bytes@, pos as int) matches Some(vp) && vp.1 == p && represents(
                    *final(heap),
                    t,
                    vp.0,
                )
                &&& final(heap).valid_term(t)
                &&& p > pos
                &&& p <= bytes@.len()
                &&& final(heap).used_words == old(heap).used_words + tuple_words(
                    bytes@,
                    pos as int,
                )
            },
            Err(DecodeError::Badarg(e)) => tuple_parse(bytes@, pos as int) is None
                && is_atom_error(e, ATOM_BADARG, "etf", 0, 0),
            Err(DecodeError::Alloc(_)) => old(heap).used_words + tuple_words(bytes@, pos as int)
                > old(heap).max_words,
        },
    decreases bytes@.len() - pos, 0int, 1int,
{
    let (arity, after_arity) = match decode_u8(bytes, pos) {
        Ok(vp) => vp,
        Err(e) => {
            return Err(DecodeError::Badarg(e));
        },
    };
    let (elements, after_elements) = match decode_vec_term(
        heap,
        safe,
        bytes,
        after_arity,
        arity as usize,
    ) {
        Ok(vp) => vp,
        Err(e) => {
            return Err(e);
        },
    };
    let ghost h1 = *heap;
    let base = heap.cells.len();
    proof {
        assert(h1.cells@.len() == base);
    }
    let tuple = match heap.tuple_from_slice(elements.as_slice()) {
        Ok(t) => t,
        Err(a) => {
            return Err(DecodeError::Alloc(a));
        },
    };
    proof {
        let vsp = parse_seq(bytes@, after_arity as int, arity as int)->Some_0;
        assert(tuple->ptr.index == base);
        assert(heap.cells@[base as int] matches Cell::Tuple { elements: es } && es@ == elements@);
        assert forall|j: int| 0 <= j < vsp.0.len() implies represents(
            *heap,
            elements@[j],
            #[trigger] vsp.0[j],
        ) by {
            lemma_represents_extends(h1, *heap, elements@[j], vsp.0[j]);
        }
    }
    Ok((tuple, after_elements))
}

/// The heap words the decoder lays down for a small-tuple body at `pos`.
pub open spec fn tuple_words(bytes: Seq<u8>, pos: int) -> int {
    if 0 <= pos && pos + 1 <= bytes.len() {
        1 + bytes[pos] + crate::etf::decode_words_seq(bytes, pos + 1, bytes[pos] as int)
    } else {
        0
    }
}

/// The meaning of a small-tuple body at `pos`: what `parse_term` gives the
/// bytes from the tag one position earlier.
pub open spec fn tuple_parse(bytes: Seq<u8>, pos: int) -> Option<(EtfValue, int)> {
    if pos + 1 <= bytes.len() {
        match parse_seq(bytes, pos + 1, bytes[pos] as int) {
            Some((vs, p)) => Some((EtfValue::Tuple(vs), p)),
            None => None,
        }
    } else {
        None
    }
}

} // verus!
