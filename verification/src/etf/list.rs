//! Decoding a list term: a 32-bit element count, the elements, and a
//! tagged tail (the empty list for a proper list).

use vstd::prelude::*;
use crate::etf::{decode_u32, decode_vec_term, decode_tagged, lemma_cons_fold_represents,
    lemma_represents_extends, parse_seq, parse_term, represents, cons_fold, DecodeError,
    EtfValue};
use crate::exception::is_atom_error;
use crate::heap::ProcessHeap;
use crate::term::{Term, ATOM_BADARG};

verus! {

/// Decodes the body of a list (the bytes after its tag) onto the heap:
/// the element count, that many elements, and the tail term, assembled as
/// cons cells ending in the decoded tail.
pub fn decode(heap: &mut ProcessHeap, safe: bool, bytes: &[u8], pos: usize) -> (r: Result<
    (Term, usize),
    DecodeError,
>)
    requires
        old(heap).wf(),
    ensures
        final(heap).wf(),
        final(heap).extends(*old(heap)),
        match r {
            Ok((t, p)) => {
                &&& list_parse(bytes@, pos as int) matches Some(vp) && vp.1 == p && represents(
                    *final(heap),
                    t,
                    vp.0,
                )
                &&& final(heap).valid_term(t)
                &&& p > pos
                &&& p <= bytes@.len()
                &&& final(heap).used_words == old(heap).used_words + list_words(bytes@, pos as int)
            },
            Err(DecodeError::Badarg(e)) => list_parse(bytes@, pos as int) is None
                && is_atom_error(e, ATOM_BADARG, "etf", 0, 0),
            Err(DecodeError::Alloc(_)) => old(heap).used_words + list_words(bytes@, pos as int)
                > old(heap).max_words,
        },
    decreases bytes@.len() - pos, 0int, 1int,
{
    let (len32, after_len) = match decode_u32(bytes, pos) {
        Ok(vp) => vp,
        Err(e) => {
            return Err(DecodeError::Badarg(e));
        },
    };
    let (elements, after_elements) = match decode_vec_term(
        heap,
        safe,
        bytes,
        after_len,
        len32 as usize,
    ) {
        Ok(vp) => vp,
        Err(e) => {
            proof {
                match parse_seq(bytes@, after_len as int, len32 as int) {
                    Some((vs0, p0)) => {
                        if p0 >= after_len && p0 <= bytes@.len() {
                            crate::etf::lemma_decode_words_nonneg(bytes@, p0);
                        }
                    },
                    None => {},
                }
            }
            return Err(e);
        },
    };
    let ghost h1 = *heap;
    let (tail, after_tail) = match decode_tagged(heap, safe, bytes, after_elements) {
        Ok(tp) => tp,
        Err(e) => {
            return Err(e);
        },
    };
    let ghost h2 = *heap;
    let list = match heap.improper_list_from_slice(elements.as_slice(), tail) {
        Ok(t) => t,
        Err(a) => {
            return Err(DecodeError::Alloc(a));
        },
    };
    proof {
        let vsp = parse_seq(bytes@, after_len as int, len32 as int)->Some_0;
        let tvp = parse_term(bytes@, after_elements as int)->Some_0;
        assert forall|j: int| 0 <= j < elements@.len() implies represents(
            *heap,
            elements@[j],
            #[trigger] vsp.0[j],
        ) by {
            lemma_represents_extends(h1, h2, elements@[j], vsp.0[j]);
            lemma_represents_extends(h2, *heap, elements@[j], vsp.0[j]);
        }
        lemma_represents_extends(h2, *heap, tail, tvp.0);
        lemma_cons_fold_represents(*heap, list, elements@, vsp.0, tail, tvp.0);
    }
    Ok((list, after_tail))
}

/// The heap words the decoder lays down for a list body at `pos`: its
/// elements, the tail, and one cons cell per element.
pub open spec fn list_words(bytes: Seq<u8>, pos: int) -> int {
    if 0 <= pos && pos + 4 <= bytes.len() {
        let n = crate::etf::be_u32(bytes, pos);
        let elements = crate::etf::decode_words_seq(bytes, pos + 4, n);
        match parse_seq(bytes, pos + 4, n) {
            Some((vs, p)) => if p >= pos + 4 && p <= bytes.len() {
                elements + crate::etf::decode_words(bytes, p) + 2 * n
            } else {
                elements + 2 * n
            },
            None => elements + 2 * n,
        }
    } else {
        0
    }
}

/// The meaning of a list body at `pos`: what `parse_term` gives the bytes
/// from the tag one position earlier.
pub open spec fn list_parse(bytes: Seq<u8>, pos: int) -> Option<(EtfValue, int)> {
    if pos + 4 <= bytes.len() {
        match parse_seq(bytes, pos + 4, crate::etf::be_u32(bytes, pos)) {
            Some((vs, p)) => if p >= pos + 4 && p <= bytes.len() {
                match parse_term(bytes, p) {
                    Some((tailv, p2)) => Some((cons_fold(vs, tailv), p2)),
                    None => None,
                }
            } else {
                None
            },
            None => None,
        }
    } else {
        None
    }
}

} // verus!
