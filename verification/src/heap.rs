//! The per-process heap allocator.  The heap is modelled as an arena of
//! cells with word-level accounting: each boxed term occupies one cell whose
//! word cost is charged against the bump region (and, past its capacity,
//! against appended fragments) up to a hard ceiling that stands for global
//! memory.  Off-heap binary buffers live in a shared, reference-counted
//! arena; a per-process virtual binary heap records which buffers this
//! process holds.

use vstd::prelude::*;
use crate::term::{Atom, HeapPtr, Term};
use crate::code::Native;
use crate::bigint::big_value;
use vstd::string::StringSliceAdditionalSpecFns;
use num_bigint::BigInt;

verus! {

/// Allocation failure: the heap (or the global memory it draws fragments
/// from) cannot supply the request.  The caller must trigger garbage
/// collection and retry, or escalate.
#[derive(Clone, Copy, Debug, PartialEq, Eq, Structural)]
pub struct Alloc;

/// How the bytes of a binary were classified when it was built.
#[derive(Clone, Copy, Debug, PartialEq, Eq, Structural)]
pub enum Encoding {
    Raw,
    Latin1,
    Utf8,
}

/// Threshold of the two-tier binary policy: byte strings of at most this
/// many bytes live wholly on the process heap; longer ones live in the
/// shared reference-counted arena.
pub const HEAP_BINARY_MAX_BYTES: usize = 64;

/// Largest local pid number.
pub const PID_NUMBER_MAX: u64 = 0x7fff;
/// Largest local pid serial.
pub const PID_SERIAL_MAX: u64 = 0x1fff;

/// Failure of local pid construction.
#[derive(Clone, Copy, Debug, PartialEq, Eq, Structural)]
pub enum MakePidError {
    Number,
    Serial,
    Alloc(Alloc),
}

/// Failure of byte extraction from a binary term.
#[derive(Clone, Copy, Debug, PartialEq, Eq, Structural)]
pub enum BytesFromBinaryError {
    Alloc(Alloc),
    NotABinary,
    Type,
}

/// Failure of string extraction from a binary term.
#[derive(Clone, Copy, Debug, PartialEq, Eq, Structural)]
pub enum StrFromBinaryError {
    Alloc(Alloc),
    NotABinary,
    Type,
    Utf8Error,
}

/// One reference-counted off-heap binary buffer.
pub struct ArenaBuffer {
    pub bytes: Vec<u8>,
    pub encoding: Encoding,
    pub refcount: usize,
}

/// The shared arena of off-heap binary buffers.  Buffers are immutable once
/// published; a slot is never reused, so indices stay valid for the life of
/// the arena.
pub struct BinaryArena {
    pub buffers: Vec<ArenaBuffer>,
}

impl BinaryArena {
    pub fn new() -> (a: BinaryArena)
        ensures
            a.buffers@.len() == 0,
    {
        BinaryArena { buffers: Vec::new() }
    }
}

impl BinaryArena {
    /// Takes one more reference to a published buffer; its bytes are
    /// immutable and stay where they are.
    pub fn retain(&mut self, buffer: usize)
        requires
            buffer < old(self).buffers@.len(),
        ensures
            final(self).buffers@.len() == old(self).buffers@.len(),
            final(self).buffers@[buffer as int].bytes@ == old(
                self,
            ).buffers@[buffer as int].bytes@,
            final(self).buffers@[buffer as int].encoding == old(
                self,
            ).buffers@[buffer as int].encoding,
            old(self).buffers@[buffer as int].refcount < usize::MAX ==> final(self).buffers@[buffer as int].refcount == old(self).buffers@[buffer as int].refcount + 1,
            final(self).buffers@[buffer as int].refcount >= old(
                self,
            ).buffers@[buffer as int].refcount,
            forall|i: int|
                0 <= i < old(self).buffers@.len() && i != buffer ==> final(self).buffers@[i]
                    == #[trigger] old(self).buffers@[i],
            arena_extends_bytes(*final(self), *old(self)),
    {
        let mut b = self.buffers.remove(buffer);
        // the count saturates at the top; such a buffer then lives for the
        // life of the arena
        if b.refcount < usize::MAX {
            b.refcount = b.refcount + 1;
        }
        self.buffers.insert(buffer, b);
        proof {
            assert forall|i: int| 0 <= i < self.buffers@.len() && i != buffer implies self
                .buffers@[i] == #[trigger] old(self).buffers@[i] by {
                assert(self.buffers@ == old(self).buffers@.remove(buffer as int).insert(
                    buffer as int,
                    self.buffers@[buffer as int],
                ));
            }
        }
    }
}

/// The arenas hold buffers with the same bytes at the same slots (only
/// reference counts may differ), and the newer one may have more.
pub open spec fn arena_extends_bytes(post: BinaryArena, pre: BinaryArena) -> bool {
    &&& post.buffers@.len() >= pre.buffers@.len()
    &&& forall|i: int|
        0 <= i < pre.buffers@.len() ==> (#[trigger] post.buffers@[i]).bytes@
            == pre.buffers@[i].bytes@ && post.buffers@[i].encoding == pre.buffers@[i].encoding
}

/// One boxed value on a process heap.
pub enum Cell {
    Cons { head: Term, tail: Term },
    Tuple { elements: Vec<Term> },
    HeapBinary { bytes: Vec<u8>, encoding: Encoding },
    ProcBinRef { buffer: usize },
    SubBinary {
        original: Term,
        byte_offset: usize,
        bit_offset: u8,
        full_byte_len: usize,
        partial_byte_bit_len: u8,
    },
    BigInteger { big: BigInt },
    Float { bits: u64 },
    FlatMap { pairs: Vec<(Term, Term)> },
    Reference { scheduler_id: u64, number: u64 },
    AnonymousClosure {
        module: Atom,
        index: u32,
        old_unique: u32,
        unique: u64,
        arity: u8,
        native: Option<Native>,
        creator: Term,
        env: Vec<Term>,
    },
    ExportClosure { module: Atom, function: Atom, arity: u8, native: Option<Native> },
    ExternalPid { node: u64, number: u64, serial: u64 },
    Resource { resource: u64 },
    Reserved { words: usize },
}

/// A process heap: an exclusively owned cell arena with word accounting and
/// the process's virtual binary heap ledger.
pub struct ProcessHeap {
    /// Identity of this heap; boxed pointers carry it.
    pub id: u64,
    /// The boxed values, in allocation order.
    pub cells: Vec<Cell>,
    /// Words consumed, bump region and fragments together.
    pub used_words: usize,
    /// Size of the initial contiguous bump region; use beyond it stands in
    /// appended fragments awaiting the next collection.
    pub capacity_words: usize,
    /// Hard ceiling standing for exhaustion of global memory.
    pub max_words: usize,
    /// Virtual binary heap: arena buffers this process holds.
    pub vheap: Vec<usize>,
}

impl ProcessHeap {
    /// A term is valid for this heap when any boxed pointer it carries
    /// points at one of this heap's cells.
    pub open spec fn valid_term(self, t: Term) -> bool {
        match t {
            Term::Boxed { ptr } => ptr.heap_id == self.id && ptr.index < self.cells@.len(),
            _ => true,
        }
    }

    /// Like `valid_term`, but the pointed-at cell must lie strictly below
    /// `bound` (cells reference only earlier cells).
    pub open spec fn term_below(self, t: Term, bound: int) -> bool {
        match t {
            Term::Boxed { ptr } => ptr.heap_id == self.id && ptr.index < bound,
            _ => true,
        }
    }

    /// Whether `t` points at a binary cell (heap-resident or off-heap
    /// reference) of this heap.
    pub open spec fn is_binary_cell_ptr(self, t: Term) -> bool {
        &&& t matches Term::Boxed { ptr }
        &&& ptr.heap_id == self.id
        &&& ptr.index < self.cells@.len()
        &&& (self.cells@[ptr.index as int] is HeapBinary || self.cells@[ptr.index as int]
            is ProcBinRef)
    }

    /// Structural well-formedness of one cell value were it to stand at
    /// index `bound`: children only reference earlier cells, and sub-binary
    /// geometry is sane.
    pub open spec fn cell_ok(self, c: Cell, bound: int) -> bool {
        match c {
            Cell::Cons { head, tail } => self.term_below(head, bound) && self.term_below(
                tail,
                bound,
            ),
            Cell::Tuple { elements } => forall|j: int|
                0 <= j < elements@.len() ==> self.term_below(#[trigger] elements@[j], bound),
            Cell::SubBinary { original, byte_offset, bit_offset, full_byte_len, partial_byte_bit_len } => {
                &&& self.term_below(original, bound)
                &&& original matches Term::Boxed { ptr }
                &&& (self.cells@[ptr.index as int] is HeapBinary || self.cells@[ptr.index as int]
                    is ProcBinRef)
                &&& bit_offset < 8
                &&& partial_byte_bit_len < 8
                &&& (self.cells@[ptr.index as int] matches Cell::HeapBinary { bytes, .. }
                    ==> byte_offset + full_byte_len + sub_binary_extra_byte(
                    bit_offset,
                    partial_byte_bit_len,
                ) <= bytes@.len())
            },
            Cell::FlatMap { pairs } => forall|j: int|
                0 <= j < pairs@.len() ==> self.term_below(#[trigger] pairs@[j].0, bound)
                    && self.term_below(pairs@[j].1, bound),
            Cell::AnonymousClosure { creator, env, .. } => {
                &&& self.term_below(creator, bound)
                &&& forall|j: int|
                    0 <= j < env@.len() ==> self.term_below(#[trigger] env@[j], bound)
            },
            _ => true,
        }
    }

    /// Well-formedness of the heap alone: every cell references only
    /// earlier cells of this heap, and the word accounting is within
    /// bounds.
    pub open spec fn wf(self) -> bool {
        &&& forall|i: int|
            0 <= i < self.cells@.len() ==> self.cell_ok(#[trigger] self.cells@[i], i)
        &&& self.used_words <= self.max_words
    }

    /// Well-formedness against the shared arena: every off-heap reference
    /// (from a cell or from the virtual binary heap ledger) resolves to an
    /// arena buffer, and sub-binaries over off-heap buffers stay within
    /// their bytes.
    pub open spec fn wf_with(self, arena: BinaryArena) -> bool {
        &&& self.wf()
        &&& forall|i: int|
            0 <= i < self.cells@.len() ==> self.cell_arena_ok(#[trigger] self.cells@[i], arena)
        &&& forall|j: int|
            0 <= j < self.vheap@.len() ==> #[trigger] self.vheap@[j] < arena.buffers@.len()
    }

    /// The arena-facing part of one cell's well-formedness.
    pub open spec fn cell_arena_ok(self, c: Cell, arena: BinaryArena) -> bool {
        match c {
            Cell::ProcBinRef { buffer } => buffer < arena.buffers@.len(),
            Cell::SubBinary { original, byte_offset, bit_offset, full_byte_len, partial_byte_bit_len } => {
                original matches Term::Boxed { ptr } && ptr.index < self.cells@.len() && (
                self.cells@[ptr.index as int] matches Cell::ProcBinRef { buffer } ==> {
                    &&& buffer < arena.buffers@.len()
                    &&& byte_offset + full_byte_len + sub_binary_extra_byte(
                        bit_offset,
                        partial_byte_bit_len,
                    ) <= arena.buffers@[buffer as int].bytes@.len()
                })
            },
            _ => true,
        }
    }

    /// A fresh heap owned by one process.  `capacity_words` is the
    /// configurable minimum size of the bump region; `max_words` stands for
    /// the global memory available to it and its fragments.
    pub fn new(id: u64, capacity_words: usize, max_words: usize) -> (h: ProcessHeap)
        requires
            capacity_words <= max_words,
        ensures
            h.wf(),
            h.id == id,
            h.cells@.len() == 0,
            h.used_words == 0,
            h.capacity_words == capacity_words,
            h.max_words == max_words,
            h.vheap@.len() == 0,
    {
        ProcessHeap {
            id,
            cells: Vec::new(),
            used_words: 0,
            capacity_words,
            max_words,
            vheap: Vec::new(),
        }
    }

    /// Reserve `base + extra` words.  Never blocks: words beyond the bump
    /// region are charged to a freshly appended fragment; only exhaustion
    /// of the ceiling fails.
    fn reserve(&mut self, base: usize, extra: usize) -> (r: Result<(), Alloc>)
        requires
            old(self).wf(),
        ensures
            final(self).id == old(self).id,
            final(self).cells@ == old(self).cells@,
            final(self).capacity_words == old(self).capacity_words,
            final(self).max_words == old(self).max_words,
            final(self).vheap@ == old(self).vheap@,
            final(self).wf(),
            match r {
                Ok(()) => final(self).used_words == old(self).used_words + base + extra,
                Err(_) => final(self).used_words == old(self).used_words && old(self).used_words
                    + base + extra > old(self).max_words,
            },
    {
        if base > self.max_words - self.used_words {
            Err(Alloc)
        } else if extra > self.max_words - self.used_words - base {
            Err(Alloc)
        } else {
            self.used_words = self.used_words + base;
            self.used_words = self.used_words + extra;
            Ok(())
        }
    }

    /// Append one cell; the words for it must already be reserved.
    fn push_cell(&mut self, cell: Cell) -> (ptr: HeapPtr)
        requires
            old(self).wf(),
            old(self).cell_ok(cell, old(self).cells@.len() as int),
        ensures
            final(self).id == old(self).id,
            final(self).cells@ == old(self).cells@.push(cell),
            final(self).used_words == old(self).used_words,
            final(self).capacity_words == old(self).capacity_words,
            final(self).max_words == old(self).max_words,
            final(self).vheap@ == old(self).vheap@,
            final(self).wf(),
            ptr == (HeapPtr { heap_id: old(self).id, index: old(self).cells@.len() as usize }),
    {
        let index = self.cells.len();
        let id = self.id;
        self.cells.push(cell);
        proof {
            assert forall|i: int| 0 <= i < self.cells@.len() implies self.cell_ok(
                #[trigger] self.cells@[i],
                i,
            ) by {
                assert(old(self).cells@.push(cell)[i] == if i < old(self).cells@.len() {
                    old(self).cells@[i]
                } else {
                    cell
                });
                if i < old(self).cells@.len() {
                    assert(old(self).cell_ok(old(self).cells@[i], i));
                    assert(self.cell_ok(self.cells@[i], i)) by {
                        cell_ok_stable(*old(self), *self, old(self).cells@[i], i);
                    }
                } else {
                    cell_ok_stable(*old(self), *self, cell, i);
                }
            }
        }
        HeapPtr { heap_id: id, index }
    }

    /// Reserve `word_count` contiguous words on this heap or in a freshly
    /// attached fragment.  Never blocks and never returns a partial
    /// allocation; failure signals that the caller must collect and retry
    /// or escalate.
    pub fn alloc_words(&mut self, word_count: usize) -> (r: Result<HeapPtr, Alloc>)
        requires
            old(self).wf(),
        ensures
            final(self).wf(),
            final(self).id == old(self).id,
            final(self).capacity_words == old(self).capacity_words,
            final(self).max_words == old(self).max_words,
            final(self).vheap@ == old(self).vheap@,
            match r {
                Ok(ptr) => {
                    &&& final(self).cells@ == old(self).cells@.push(
                        (Cell::Reserved { words: word_count }),
                    )
                    &&& final(self).used_words == old(self).used_words + word_count
                    &&& ptr == (HeapPtr {
                        heap_id: old(self).id,
                        index: old(self).cells@.len() as usize,
                    })
                },
                Err(_) => {
                    &&& final(self).cells@ == old(self).cells@
                    &&& final(self).used_words == old(self).used_words
                    &&& old(self).used_words + word_count > old(self).max_words
                },
            },
    {
        self.reserve(word_count, 0)?;
        Ok(self.push_cell(Cell::Reserved { words: word_count }))
    }

    /// Size/alignment variant of `alloc`: rounds the byte size up to whole
    /// words.  The cell arena is word-aligned, so any alignment up to one
    /// word is met.
    pub fn alloc_layout(&mut self, byte_size: usize, align: usize) -> (r: Result<HeapPtr, Alloc>)
        requires
            old(self).wf(),
            1 <= align <= 8,
        ensures
            final(self).wf(),
            final(self).id == old(self).id,
            final(self).capacity_words == old(self).capacity_words,
            final(self).max_words == old(self).max_words,
            final(self).vheap@ == old(self).vheap@,
            match r {
                Ok(ptr) => {
                    &&& final(self).cells@ == old(self).cells@.push(
                        (Cell::Reserved { words: spec_words_for_bytes(byte_size as int) as usize }),
                    )
                    &&& final(self).used_words == old(self).used_words + spec_words_for_bytes(
                        byte_size as int,
                    )
                    &&& ptr == (HeapPtr {
                        heap_id: old(self).id,
                        index: old(self).cells@.len() as usize,
                    })
                },
                Err(_) => {
                    &&& final(self).cells@ == old(self).cells@
                    &&& final(self).used_words == old(self).used_words
                    &&& old(self).used_words + spec_words_for_bytes(byte_size as int) > old(
                        self,
                    ).max_words
                },
            },
    {
        let words = words_for_bytes(byte_size);
        self.alloc_words(words)
    }

    /// True exactly when the pointer falls within this heap: it carries
    /// this heap's identity and indexes an allocated cell.  Used to decide
    /// whether a term moved between processes needs copying.
    pub fn is_owner(&self, ptr: HeapPtr) -> (r: bool)
        ensures
            r == (ptr.heap_id == self.id && ptr.index < self.cells@.len()),
    {
        ptr.heap_id == self.id && ptr.index < self.cells.len()
    }

    /// Constructs a list cell of only the given head and tail.
    pub fn cons(&mut self, head: Term, tail: Term) -> (r: Result<Term, Alloc>)
        requires
            old(self).wf(),
            old(self).valid_term(head),
            old(self).valid_term(tail),
        ensures
            final(self).wf(),
            final(self).id == old(self).id,
            final(self).capacity_words == old(self).capacity_words,
            final(self).max_words == old(self).max_words,
            final(self).vheap@ == old(self).vheap@,
            match r {
                Ok(t) => {
                    &&& final(self).cells@ == old(self).cells@.push((Cell::Cons { head, tail }))
                    &&& final(self).used_words == old(self).used_words + WORDS_CONS
                    &&& t == boxed(old(self).id, old(self).cells@.len() as usize)
                },
                Err(_) => {
                    &&& final(self).cells@ == old(self).cells@
                    &&& final(self).used_words == old(self).used_words
                    &&& old(self).used_words + WORDS_CONS > old(self).max_words
                },
            },
    {
        self.reserve(WORDS_CONS, 0)?;
        let ptr = self.push_cell(Cell::Cons { head, tail });
        Ok(Term::Boxed { ptr })
    }
}

impl ProcessHeap {
    /// The allocation-independent configuration is unchanged.
    pub open spec fn same_config(self, pre: ProcessHeap) -> bool {
        &&& self.id == pre.id
        &&& self.capacity_words == pre.capacity_words
        &&& self.max_words == pre.max_words
    }

    /// This heap is the given one, possibly grown: same identity, all old
    /// cells and ledger entries in place.
    pub open spec fn extends(self, pre: ProcessHeap) -> bool {
        &&& self.same_config(pre)
        &&& self.cells@.len() >= pre.cells@.len()
        &&& forall|i: int| 0 <= i < pre.cells@.len() ==> self.cells@[i] == #[trigger] pre.cells@[i]
        &&& self.used_words >= pre.used_words
        &&& self.vheap@.len() >= pre.vheap@.len()
        &&& forall|j: int| 0 <= j < pre.vheap@.len() ==> self.vheap@[j] == #[trigger] pre.vheap@[j]
    }

    /// A failed allocation left the heap as it was, and the request did
    /// exceed the ceiling.
    pub open spec fn alloc_failed(self, pre: ProcessHeap, need: int) -> bool {
        &&& self.cells@ == pre.cells@
        &&& self.used_words == pre.used_words
        &&& self.vheap@ == pre.vheap@
        &&& pre.used_words + need > pre.max_words
    }

    /// Exactly one cell of the given word cost was appended.
    pub open spec fn pushed1(self, pre: ProcessHeap, cell: Cell, words: int) -> bool {
        &&& self.cells@ == pre.cells@.push(cell)
        &&& self.used_words == pre.used_words + words
        &&& self.vheap@ == pre.vheap@
    }

    /// The mathematical value of an integer term (immediate or boxed big
    /// integer), if `t` is one.
    pub open spec fn int_value(self, t: Term) -> Option<int> {
        match t {
            Term::SmallInteger { value } => Some(value as int),
            Term::Boxed { ptr } => if ptr.heap_id == self.id && ptr.index < self.cells@.len() {
                match self.cells@[ptr.index as int] {
                    Cell::BigInteger { big } => Some(big_value(big)),
                    _ => None,
                }
            } else {
                None
            },
            _ => None,
        }
    }
}

/// The boxed term pointing at cell `index` of heap `heap_id`.
pub open spec fn boxed(heap_id: u64, index: usize) -> Term {
    Term::Boxed { ptr: HeapPtr { heap_id, index } }
}

/// Whether a sub-binary needs one byte of its original past its full
/// bytes (a leading bit offset or a trailing partial byte).
pub open spec fn sub_binary_extra_byte(bit_offset: u8, partial_byte_bit_len: u8) -> int {
    if bit_offset > 0 || partial_byte_bit_len > 0 {
        1
    } else {
        0
    }
}

/// Words occupied by a byte region rounded up to whole words, plus a
/// two-word header.
pub open spec fn spec_words_for_bytes(byte_size: int) -> int {
    2 + byte_size / 8 + if byte_size % 8 == 0 {
        0int
    } else {
        1int
    }
}

fn words_for_bytes(byte_size: usize) -> (w: usize)
    requires
        byte_size / 8 + 3 <= usize::MAX,
    ensures
        w == spec_words_for_bytes(byte_size as int),
{
    let rounded: usize = byte_size / 8 + if byte_size % 8 == 0 {
        0
    } else {
        1
    };
    2 + rounded
}

/// Word cost of a cons cell.
pub const WORDS_CONS: usize = 2;

/// Word cost of a boxed float.
pub const WORDS_FLOAT: usize = 2;

/// Word cost of a boxed big integer.
pub const WORDS_BIGINT: usize = 3;

/// Word cost of a local reference.
pub const WORDS_REFERENCE: usize = 3;

/// Word cost of a resource handle.
pub const WORDS_RESOURCE: usize = 2;

/// Word cost of an external pid.
pub const WORDS_EXTERNAL_PID: usize = 4;

/// Word cost of the on-heap header of an off-heap binary.
pub const WORDS_PROCBIN: usize = 2;

/// Word cost of a sub-binary view.
pub const WORDS_SUBBINARY: usize = 4;

/// Base word cost of a closure, before its environment.
pub const WORDS_CLOSURE_BASE: usize = 6;

impl ProcessHeap {
    /// Constructs an integer term: an immediate for values in the small
    /// range, else a boxed big integer.
    pub fn integer(&mut self, value: i64) -> (r: Result<Term, Alloc>)
        requires
            old(self).wf(),
        ensures
            final(self).wf(),
            final(self).same_config(*old(self)),
            crate::term::spec_is_small(value as int) ==> r is Ok,
            match r {
                Ok(t) => if crate::term::spec_is_small(value as int) {
                    &&& final(self).cells@ == old(self).cells@
                    &&& final(self).used_words == old(self).used_words
                    &&& final(self).vheap@ == old(self).vheap@
                    &&& t == (Term::SmallInteger { value })
                } else {
                    &&& final(self).cells@.len() == old(self).cells@.len() + 1
                    &&& final(self).extends(*old(self))
                    &&& final(self).used_words == old(self).used_words + WORDS_BIGINT
                    &&& final(self).vheap@ == old(self).vheap@
                    &&& t == boxed(old(self).id, old(self).cells@.len() as usize)
                    &&& (final(self).cells@.last() matches Cell::BigInteger { big } && big_value(
                        big,
                    ) == value as int)
                },
                Err(_) => final(self).alloc_failed(*old(self), WORDS_BIGINT as int),
            },
    {
        if crate::term::MIN_SMALL <= value && value <= crate::term::MAX_SMALL {
            Ok(Term::SmallInteger { value })
        } else {
            self.reserve(WORDS_BIGINT, 0)?;
            let big = crate::bigint::big_from_i64(value);
            let ptr = self.push_cell(Cell::BigInteger { big });
            Ok(Term::Boxed { ptr })
        }
    }

    /// Constructs an integer term from an arbitrary-precision value: an
    /// immediate when it fits the small range, else a boxed big integer
    /// holding it.
    pub fn integer_from_big(&mut self, big: BigInt) -> (r: Result<Term, Alloc>)
        requires
            old(self).wf(),
        ensures
            final(self).wf(),
            final(self).same_config(*old(self)),
            match r {
                Ok(t) => if crate::term::spec_is_small(big_value(big)) {
                    &&& final(self).cells@ == old(self).cells@
                    &&& final(self).used_words == old(self).used_words
                    &&& final(self).vheap@ == old(self).vheap@
                    &&& t == (Term::SmallInteger { value: big_value(big) as i64 })
                } else {
                    &&& final(self).pushed1(*old(self), (Cell::BigInteger { big }), WORDS_BIGINT as int)
                    &&& final(self).extends(*old(self))
                    &&& t == boxed(old(self).id, old(self).cells@.len() as usize)
                },
                Err(_) => final(self).alloc_failed(*old(self), WORDS_BIGINT as int),
            },
    {
        let small = crate::bigint::big_to_i64(&big);
        match small {
            Some(v) if crate::term::MIN_SMALL <= v && v <= crate::term::MAX_SMALL => {
                Ok(Term::SmallInteger { value: v })
            },
            _ => {
                self.reserve(WORDS_BIGINT, 0)?;
                let ptr = self.push_cell(Cell::BigInteger { big });
                Ok(Term::Boxed { ptr })
            },
        }
    }

    /// Constructs a boxed float from its raw bit pattern.
    pub fn float_from_bits(&mut self, bits: u64) -> (r: Result<Term, Alloc>)
        requires
            old(self).wf(),
        ensures
            final(self).wf(),
            final(self).same_config(*old(self)),
            match r {
                Ok(t) => {
                    &&& final(self).pushed1(*old(self), (Cell::Float { bits }), WORDS_FLOAT as int)
                    &&& final(self).extends(*old(self))
                    &&& t == boxed(old(self).id, old(self).cells@.len() as usize)
                },
                Err(_) => final(self).alloc_failed(*old(self), WORDS_FLOAT as int),
            },
    {
        self.reserve(WORDS_FLOAT, 0)?;
        let ptr = self.push_cell(Cell::Float { bits });
        Ok(Term::Boxed { ptr })
    }

    /// Creates a local reference with the given number, stamped with the
    /// scheduler it was created on.
    pub fn reference(&mut self, scheduler_id: u64, number: u64) -> (r: Result<Term, Alloc>)
        requires
            old(self).wf(),
        ensures
            final(self).wf(),
            final(self).same_config(*old(self)),
            match r {
                Ok(t) => {
                    &&& final(self).pushed1(
                        *old(self),
                        (Cell::Reference { scheduler_id, number }),
                        WORDS_REFERENCE as int,
                    )
                    &&& final(self).extends(*old(self))
                    &&& t == boxed(old(self).id, old(self).cells@.len() as usize)
                },
                Err(_) => final(self).alloc_failed(*old(self), WORDS_REFERENCE as int),
            },
    {
        self.reserve(WORDS_REFERENCE, 0)?;
        let ptr = self.push_cell(Cell::Reference { scheduler_id, number });
        Ok(Term::Boxed { ptr })
    }

    /// Wraps an opaque, externally owned value (identified by its handle)
    /// as a resource term.
    pub fn resource(&mut self, resource: u64) -> (r: Result<Term, Alloc>)
        requires
            old(self).wf(),
        ensures
            final(self).wf(),
            final(self).same_config(*old(self)),
            match r {
                Ok(t) => {
                    &&& final(self).pushed1(
                        *old(self),
                        (Cell::Resource { resource }),
                        WORDS_RESOURCE as int,
                    )
                    &&& final(self).extends(*old(self))
                    &&& t == boxed(old(self).id, old(self).cells@.len() as usize)
                },
                Err(_) => final(self).alloc_failed(*old(self), WORDS_RESOURCE as int),
            },
    {
        self.reserve(WORDS_RESOURCE, 0)?;
        let ptr = self.push_cell(Cell::Resource { resource });
        Ok(Term::Boxed { ptr })
    }

    /// Constructs a pid of another node.  The number and serial components
    /// must fit their fields; violations are reported before any
    /// allocation.
    pub fn external_pid(&mut self, node: u64, number: u64, serial: u64) -> (r: Result<
        Term,
        MakePidError,
    >)
        requires
            old(self).wf(),
        ensures
            final(self).wf(),
            final(self).same_config(*old(self)),
            match r {
                Ok(t) => {
                    &&& number <= PID_NUMBER_MAX
                    &&& serial <= PID_SERIAL_MAX
                    &&& final(self).pushed1(
                        *old(self),
                        (Cell::ExternalPid { node, number, serial }),
                        WORDS_EXTERNAL_PID as int,
                    )
                    &&& final(self).extends(*old(self))
                    &&& t == boxed(old(self).id, old(self).cells@.len() as usize)
                },
                Err(MakePidError::Number) => number > PID_NUMBER_MAX && final(self).cells@ == old(
                    self,
                ).cells@ && final(self).used_words == old(self).used_words && final(self).vheap@
                    == old(self).vheap@,
                Err(MakePidError::Serial) => number <= PID_NUMBER_MAX && serial > PID_SERIAL_MAX
                    && final(self).cells@ == old(self).cells@ && final(self).used_words == old(
                    self,
                ).used_words && final(self).vheap@ == old(self).vheap@,
                Err(MakePidError::Alloc(_)) => number <= PID_NUMBER_MAX && serial <= PID_SERIAL_MAX
                    && final(self).alloc_failed(*old(self), WORDS_EXTERNAL_PID as int),
            },
    {
        if number > PID_NUMBER_MAX {
            return Err(MakePidError::Number);
        }
        if serial > PID_SERIAL_MAX {
            return Err(MakePidError::Serial);
        }
        match self.reserve(WORDS_EXTERNAL_PID, 0) {
            Err(e) => Err(MakePidError::Alloc(e)),
            Ok(()) => {
                let ptr = self.push_cell(Cell::ExternalPid { node, number, serial });
                Ok(Term::Boxed { ptr })
            },
        }
    }

    /// Constructs a map from a slice of key/value pairs, kept in the order
    /// given; on overlapping keys the later pair is the map's binding.
    pub fn map_from_slice(&mut self, slice: &[(Term, Term)]) -> (r: Result<Term, Alloc>)
        requires
            old(self).wf(),
            forall|j: int|
                0 <= j < slice@.len() ==> old(self).valid_term(#[trigger] slice@[j].0) && old(
                    self,
                ).valid_term(slice@[j].1),
        ensures
            final(self).wf(),
            final(self).same_config(*old(self)),
            match r {
                Ok(t) => {
                    &&& final(self).cells@.len() == old(self).cells@.len() + 1
                    &&& final(self).extends(*old(self))
                    &&& final(self).used_words == old(self).used_words + 1 + 2 * slice@.len()
                    &&& final(self).vheap@ == old(self).vheap@
                    &&& t == boxed(old(self).id, old(self).cells@.len() as usize)
                    &&& (final(self).cells@.last() matches Cell::FlatMap { pairs } && pairs@
                        == slice@)
                },
                Err(_) => final(self).alloc_failed(
                    *old(self),
                    1 + 2 * slice@.len() as int,
                ),
            },
    {
        let len = slice.len();
        if len > usize::MAX / 2 || self.max_words < 1 {
            // more pairs than any heap ceiling can hold
            proof {
                assert(1 + 2 * slice@.len() > self.max_words);
            }
            return Err(Alloc);
        }
        self.reserve(1, 2 * len)?;
        let pairs = vstd::slice::slice_to_vec(slice);
        let ptr = self.push_cell(Cell::FlatMap { pairs });
        Ok(Term::Boxed { ptr })
    }

    /// Constructs an exported-function closure: a fun referring to
    /// `module:function/arity`, optionally already resolved to a native
    /// continuation.
    pub fn export_closure(
        &mut self,
        module: Atom,
        function: Atom,
        arity: u8,
        native: Option<Native>,
    ) -> (r: Result<Term, Alloc>)
        requires
            old(self).wf(),
        ensures
            final(self).wf(),
            final(self).same_config(*old(self)),
            match r {
                Ok(t) => {
                    &&& final(self).pushed1(
                        *old(self),
                        (Cell::ExportClosure { module, function, arity, native }),
                        WORDS_CLOSURE_BASE as int,
                    )
                    &&& final(self).extends(*old(self))
                    &&& t == boxed(old(self).id, old(self).cells@.len() as usize)
                },
                Err(_) => final(self).alloc_failed(*old(self), WORDS_CLOSURE_BASE as int),
            },
    {
        self.reserve(WORDS_CLOSURE_BASE, 0)?;
        let ptr = self.push_cell(Cell::ExportClosure { module, function, arity, native });
        Ok(Term::Boxed { ptr })
    }
}

/// `cell_ok` depends only on the heap's identity and a lower cell count, so
/// it survives appending cells.
proof fn cell_ok_stable(h0: ProcessHeap, h1: ProcessHeap, c: Cell, bound: int)
    requires
        h0.cell_ok(c, bound),
        h1.id == h0.id,
        h1.cells@.len() >= h0.cells@.len(),
        forall|i: int| 0 <= i < h0.cells@.len() ==> h1.cells@[i] == h0.cells@[i],
        bound <= h0.cells@.len(),
    ensures
        h1.cell_ok(c, bound),
{
}


impl ProcessHeap {
    /// `t` is the proper or improper list whose elements are `elems`, in
    /// order, ending in `last`: a chain of cons cells of this heap.
    pub open spec fn is_list_of(self, t: Term, elems: Seq<Term>, last: Term) -> bool
        decreases elems.len(),
    {
        if elems.len() == 0 {
            t == last
        } else {
            &&& t matches Term::Boxed { ptr }
            &&& ptr.heap_id == self.id
            &&& ptr.index < self.cells@.len()
            &&& (self.cells@[ptr.index as int] matches Cell::Cons { head, tail } && head
                == elems[0] && self.is_list_of(tail, elems.drop_first(), last))
        }
    }

    /// Constructs the improper list `[slice..|tail]`: the slice elements,
    /// in order, consed onto the given tail.  On failure the cells built so
    /// far remain, awaiting collection.
    pub fn improper_list_from_slice(&mut self, slice: &[Term], tail: Term) -> (r: Result<
        Term,
        Alloc,
    >)
        requires
            old(self).wf(),
            forall|j: int| 0 <= j < slice@.len() ==> old(self).valid_term(#[trigger] slice@[j]),
            old(self).valid_term(tail),
        ensures
            final(self).wf(),
            final(self).extends(*old(self)),
            final(self).vheap@ == old(self).vheap@,
            match r {
                Ok(t) => {
                    &&& final(self).cells@.len() == old(self).cells@.len() + slice@.len()
                    &&& final(self).used_words == old(self).used_words + WORDS_CONS * slice@.len()
                    &&& final(self).is_list_of(t, slice@, tail)
                },
                Err(_) => old(self).used_words + WORDS_CONS * slice@.len() > old(self).max_words,
            },
    {
        let mut acc = tail;
        let mut i = slice.len();
        proof {
            assert(slice@.subrange(i as int, slice@.len() as int) =~= Seq::<Term>::empty());
        }
        while i > 0
            invariant
                self.wf(),
                self.extends(*old(self)),
                self.vheap@ == old(self).vheap@,
                i <= slice@.len(),
                self.cells@.len() == old(self).cells@.len() + (slice@.len() - i),
                self.used_words == old(self).used_words + WORDS_CONS * (slice@.len() - i),
                self.valid_term(acc),
                self.is_list_of(acc, slice@.subrange(i as int, slice@.len() as int), tail),
                forall|j: int| 0 <= j < slice@.len() ==> self.valid_term(#[trigger] slice@[j]),
            decreases i,
        {
            i = i - 1;
            let head = slice[i];
            let ghost pre = *self;
            let ghost rest = slice@.subrange(i as int + 1, slice@.len() as int);
            match self.cons(head, acc) {
                Ok(t) => {
                    let n = self.cells.len();
                    proof {
                        assert(self.cells@.len() == n);
                        assert(pre.cells@.len() == n - 1);
                        assert(self.extends(pre));
                        lemma_extends_is_list_of(pre, *self, acc, rest, tail);
                        let whole = slice@.subrange(i as int, slice@.len() as int);
                        assert(whole.drop_first() =~= rest);
                        assert(whole[0] == slice@[i as int]);
                        assert(t == boxed(pre.id, pre.cells@.len() as usize));
                        assert(self.cells@[pre.cells@.len() as int] == (Cell::Cons {
                            head,
                            tail: acc,
                        }));
                        assert(self.is_list_of(t, whole, tail));
                    }
                    acc = t;
                },
                Err(e) => {
                    return Err(e);
                },
            }
        }
        proof {
            assert(slice@.subrange(0, slice@.len() as int) =~= slice@);
        }
        Ok(acc)
    }

    /// Constructs the proper list of the slice elements, in order.
    pub fn list_from_slice(&mut self, slice: &[Term]) -> (r: Result<Term, Alloc>)
        requires
            old(self).wf(),
            forall|j: int| 0 <= j < slice@.len() ==> old(self).valid_term(#[trigger] slice@[j]),
        ensures
            final(self).wf(),
            final(self).extends(*old(self)),
            final(self).vheap@ == old(self).vheap@,
            match r {
                Ok(t) => {
                    &&& final(self).cells@.len() == old(self).cells@.len() + slice@.len()
                    &&& final(self).used_words == old(self).used_words + WORDS_CONS * slice@.len()
                    &&& final(self).is_list_of(t, slice@, Term::Nil)
                },
                Err(_) => old(self).used_words + WORDS_CONS * slice@.len() > old(self).max_words,
            },
    {
        self.improper_list_from_slice(slice, Term::Nil)
    }

    /// Constructs a tuple whose elements are the given slices laid end to
    /// end; the length is known up front, so a single allocation suffices.
    pub fn tuple_from_slices(&mut self, slices: &[&[Term]]) -> (r: Result<Term, Alloc>)
        requires
            old(self).wf(),
            forall|k: int, j: int|
                0 <= k < slices@.len() && 0 <= j < slices@[k]@.len() ==> old(self).valid_term(
                    #[trigger] slices@[k]@[j],
                ),
        ensures
            final(self).wf(),
            final(self).same_config(*old(self)),
            match r {
                Ok(t) => {
                    &&& final(self).extends(*old(self))
                    &&& final(self).cells@.len() == old(self).cells@.len() + 1
                    &&& final(self).used_words == old(self).used_words + 1 + flatten_views(
                        slices@,
                    ).len()
                    &&& final(self).vheap@ == old(self).vheap@
                    &&& t == boxed(old(self).id, old(self).cells@.len() as usize)
                    &&& (final(self).cells@.last() matches Cell::Tuple { elements } && elements@
                        == flatten_views(slices@))
                },
                Err(_) => final(self).alloc_failed(
                    *old(self),
                    1 + flatten_views(slices@).len() as int,
                ),
            },
    {
        broadcast use vstd::seq_lib::group_seq_lib_default;

        // First pass: the total element count.
        let mut total: usize = 0;
        let mut k: usize = 0;
        while k < slices.len()
            invariant
                *self == *old(self),
                old(self).wf(),
                0 <= k <= slices@.len(),
                total == flatten_views(slices@.subrange(0, k as int)).len(),
            decreases slices@.len() - k,
        {
            proof {
                lemma_flatten_views_step(slices@, k as int);
            }
            let len_k = slices[k].len();
            if len_k > usize::MAX - total {
                // the combined length cannot fit any heap ceiling
                proof {
                    lemma_flatten_views_prefix_le(slices@, k as int + 1);
                    assert(flatten_views(slices@).len() >= flatten_views(
                        slices@.subrange(0, k as int + 1),
                    ).len());
                    assert(self.used_words + 1 + flatten_views(slices@).len() > self.max_words);
                }
                return Err(Alloc);
            }
            total = total + len_k;
            k = k + 1;
        }
        proof {
            assert(slices@.subrange(0, slices@.len() as int) =~= slices@);
        }
        self.reserve(1, total)?;
        let ghost mid = *self;
        // Second pass: lay the elements end to end.
        let mut elements: Vec<Term> = Vec::new();
        let mut k2: usize = 0;
        while k2 < slices.len()
            invariant
                *self == mid,
                mid.wf(),
                mid.cells@ == old(self).cells@,
                mid.id == old(self).id,
                0 <= k2 <= slices@.len(),
                elements@ == flatten_views(slices@.subrange(0, k2 as int)),
            decreases slices@.len() - k2,
        {
            let inner: &[Term] = slices[k2];
            let mut j: usize = 0;
            while j < inner.len()
                invariant
                    *self == mid,
                    0 <= j <= inner@.len(),
                    inner == slices@[k2 as int],
                    0 <= k2 < slices@.len(),
                    elements@ == flatten_views(slices@.subrange(0, k2 as int)) + inner@.subrange(
                        0,
                        j as int,
                    ),
                decreases inner@.len() - j,
            {
                elements.push(inner[j]);
                proof {
                    assert(inner@.subrange(0, j as int + 1) =~= inner@.subrange(0, j as int).push(
                        inner@[j as int],
                    ));
                }
                j = j + 1;
            }
            proof {
                lemma_flatten_views_step(slices@, k2 as int);
                assert(inner@.subrange(0, inner@.len() as int) =~= inner@);
            }
            k2 = k2 + 1;
        }
        proof {
            assert(slices@.subrange(0, slices@.len() as int) =~= slices@);
            assert forall|j: int| 0 <= j < elements@.len() implies self.term_below(
                #[trigger] elements@[j],
                self.cells@.len() as int,
            ) by {
                lemma_flatten_views_index(slices@, j);
            }
        }
        let ptr = self.push_cell(Cell::Tuple { elements });
        Ok(Term::Boxed { ptr })
    }

    /// Constructs a tuple from one slice of elements.
    pub fn tuple_from_slice(&mut self, elements: &[Term]) -> (r: Result<Term, Alloc>)
        requires
            old(self).wf(),
            forall|j: int| 0 <= j < elements@.len() ==> old(self).valid_term(#[trigger] elements@[j]),
        ensures
            final(self).wf(),
            final(self).same_config(*old(self)),
            match r {
                Ok(t) => {
                    &&& final(self).extends(*old(self))
                    &&& final(self).cells@.len() == old(self).cells@.len() + 1
                    &&& final(self).used_words == old(self).used_words + 1 + elements@.len()
                    &&& final(self).vheap@ == old(self).vheap@
                    &&& t == boxed(old(self).id, old(self).cells@.len() as usize)
                    &&& (final(self).cells@.last() matches Cell::Tuple { elements: es } && es@
                        == elements@)
                },
                Err(_) => final(self).alloc_failed(*old(self), 1 + elements@.len() as int),
            },
    {
        let arr: [&[Term]; 1] = [elements];
        proof {
            assert(arr@ =~= seq![elements]);
            lemma_flatten_views_singleton(elements);
        }
        self.tuple_from_slices(arr.as_slice())
    }

    /// Constructs an anonymous closure whose environment is the given
    /// slices laid end to end.
    pub fn anonymous_closure_with_env_from_slices(
        &mut self,
        module: Atom,
        index: u32,
        old_unique: u32,
        unique: u64,
        arity: u8,
        native: Option<Native>,
        creator: Term,
        slices: &[&[Term]],
    ) -> (r: Result<Term, Alloc>)
        requires
            old(self).wf(),
            old(self).valid_term(creator),
            forall|k: int, j: int|
                0 <= k < slices@.len() && 0 <= j < slices@[k]@.len() ==> old(self).valid_term(
                    #[trigger] slices@[k]@[j],
                ),
        ensures
            final(self).wf(),
            final(self).same_config(*old(self)),
            match r {
                Ok(t) => {
                    &&& final(self).extends(*old(self))
                    &&& final(self).cells@.len() == old(self).cells@.len() + 1
                    &&& final(self).used_words == old(self).used_words + WORDS_CLOSURE_BASE
                        + flatten_views(slices@).len()
                    &&& final(self).vheap@ == old(self).vheap@
                    &&& t == boxed(old(self).id, old(self).cells@.len() as usize)
                    &&& (final(self).cells@.last() matches Cell::AnonymousClosure {
                        module: m,
                        index: ix,
                        old_unique: ou,
                        unique: u,
                        arity: a,
                        native: n,
                        creator: c,
                        env,
                    } && m == module && ix == index && ou == old_unique && u == unique && a
                        == arity && n == native && c == creator && env@ == flatten_views(slices@))
                },
                Err(_) => final(self).alloc_failed(
                    *old(self),
                    WORDS_CLOSURE_BASE + flatten_views(slices@).len() as int,
                ),
            },
    {
        // First pass: the environment length.
        let mut total: usize = 0;
        let mut k: usize = 0;
        while k < slices.len()
            invariant
                *self == *old(self),
                old(self).wf(),
                0 <= k <= slices@.len(),
                total == flatten_views(slices@.subrange(0, k as int)).len(),
            decreases slices@.len() - k,
        {
            proof {
                lemma_flatten_views_step(slices@, k as int);
            }
            let len_k = slices[k].len();
            if len_k > usize::MAX - total {
                proof {
                    lemma_flatten_views_prefix_le(slices@, k as int + 1);
                    assert(flatten_views(slices@).len() >= flatten_views(
                        slices@.subrange(0, k as int + 1),
                    ).len());
                    assert(self.used_words + WORDS_CLOSURE_BASE + flatten_views(slices@).len()
                        > self.max_words);
                }
                return Err(Alloc);
            }
            total = total + len_k;
            k = k + 1;
        }
        proof {
            assert(slices@.subrange(0, slices@.len() as int) =~= slices@);
        }
        self.reserve(WORDS_CLOSURE_BASE, total)?;
        let ghost mid = *self;
        let mut env: Vec<Term> = Vec::new();
        let mut k2: usize = 0;
        while k2 < slices.len()
            invariant
                *self == mid,
                mid.wf(),
                mid.cells@ == old(self).cells@,
                mid.id == old(self).id,
                0 <= k2 <= slices@.len(),
                env@ == flatten_views(slices@.subrange(0, k2 as int)),
            decreases slices@.len() - k2,
        {
            let inner: &[Term] = slices[k2];
            let mut j: usize = 0;
            while j < inner.len()
                invariant
                    *self == mid,
                    0 <= j <= inner@.len(),
                    inner == slices@[k2 as int],
                    0 <= k2 < slices@.len(),
                    env@ == flatten_views(slices@.subrange(0, k2 as int)) + inner@.subrange(
                        0,
                        j as int,
                    ),
                decreases inner@.len() - j,
            {
                env.push(inner[j]);
                proof {
                    assert(inner@.subrange(0, j as int + 1) =~= inner@.subrange(0, j as int).push(
                        inner@[j as int],
                    ));
                }
                j = j + 1;
            }
            proof {
                lemma_flatten_views_step(slices@, k2 as int);
                assert(inner@.subrange(0, inner@.len() as int) =~= inner@);
            }
            k2 = k2 + 1;
        }
        proof {
            assert(slices@.subrange(0, slices@.len() as int) =~= slices@);
            assert forall|j: int| 0 <= j < env@.len() implies self.term_below(
                #[trigger] env@[j],
                self.cells@.len() as int,
            ) by {
                lemma_flatten_views_index(slices@, j);
            }
        }
        let ptr = self.push_cell(
            Cell::AnonymousClosure { module, index, old_unique, unique, arity, native, creator, env },
        );
        Ok(Term::Boxed { ptr })
    }

    /// Constructs an anonymous closure whose environment is one slice.
    pub fn anonymous_closure_with_env_from_slice(
        &mut self,
        module: Atom,
        index: u32,
        old_unique: u32,
        unique: u64,
        arity: u8,
        native: Option<Native>,
        creator: Term,
        slice: &[Term],
    ) -> (r: Result<Term, Alloc>)
        requires
            old(self).wf(),
            old(self).valid_term(creator),
            forall|j: int| 0 <= j < slice@.len() ==> old(self).valid_term(#[trigger] slice@[j]),
        ensures
            final(self).wf(),
            final(self).same_config(*old(self)),
            match r {
                Ok(t) => {
                    &&& final(self).extends(*old(self))
                    &&& final(self).cells@.len() == old(self).cells@.len() + 1
                    &&& final(self).used_words == old(self).used_words + WORDS_CLOSURE_BASE
                        + slice@.len()
                    &&& final(self).vheap@ == old(self).vheap@
                    &&& t == boxed(old(self).id, old(self).cells@.len() as usize)
                    &&& (final(self).cells@.last() matches Cell::AnonymousClosure {
                        module: m,
                        index: ix,
                        old_unique: ou,
                        unique: u,
                        arity: a,
                        native: n,
                        creator: c,
                        env,
                    } && m == module && ix == index && ou == old_unique && u == unique && a
                        == arity && n == native && c == creator && env@ == slice@)
                },
                Err(_) => final(self).alloc_failed(
                    *old(self),
                    WORDS_CLOSURE_BASE + slice@.len() as int,
                ),
            },
    {
        let arr: [&[Term]; 1] = [slice];
        proof {
            assert(arr@ =~= seq![slice]);
            lemma_flatten_views_singleton(slice);
        }
        self.anonymous_closure_with_env_from_slices(
            module,
            index,
            old_unique,
            unique,
            arity,
            native,
            creator,
            arr.as_slice(),
        )
    }
}

/// The views of a sequence of term slices, laid end to end.
pub open spec fn flatten_views(ss: Seq<&[Term]>) -> Seq<Term> {
    ss.map_values(|s: &[Term]| s@).flatten()
}

/// One step of `flatten_views` over a growing prefix.
proof fn lemma_flatten_views_step(ss: Seq<&[Term]>, k: int)
    requires
        0 <= k < ss.len(),
    ensures
        flatten_views(ss.subrange(0, k + 1)) == flatten_views(ss.subrange(0, k)) + ss[k]@,
{
    let prefix = ss.subrange(0, k);
    let next = ss.subrange(0, k + 1);
    assert(next =~= prefix.push(ss[k]));
    assert(next.map_values(|s: &[Term]| s@) =~= prefix.map_values(|s: &[Term]| s@).push(ss[k]@));
    prefix.map_values(|s: &[Term]| s@).lemma_flatten_push(ss[k]@);
}

/// A prefix flattens to no more elements than the whole.
proof fn lemma_flatten_views_prefix_le(ss: Seq<&[Term]>, k: int)
    requires
        0 <= k <= ss.len(),
    ensures
        flatten_views(ss.subrange(0, k)).len() <= flatten_views(ss).len(),
    decreases ss.len() - k,
{
    if k < ss.len() {
        lemma_flatten_views_step(ss, k);
        lemma_flatten_views_prefix_le(ss, k + 1);
    } else {
        assert(ss.subrange(0, k) =~= ss);
    }
}

/// Every element of the flattened views comes from one of the slices.
proof fn lemma_flatten_views_index(ss: Seq<&[Term]>, j: int)
    requires
        0 <= j < flatten_views(ss).len(),
    ensures
        exists|k: int, jj: int|
            0 <= k < ss.len() && 0 <= jj < ss[k]@.len() && flatten_views(ss)[j] == ss[k]@[jj],
    decreases ss.len(),
{
    if ss.len() > 0 {
        let mapped = ss.map_values(|s: &[Term]| s@);
        assert(mapped.flatten() == mapped.first() + mapped.drop_first().flatten());
        if j < ss[0]@.len() {
            assert(flatten_views(ss)[j] == ss[0]@[j]);
        } else {
            assert(mapped.drop_first() =~= ss.drop_first().map_values(|s: &[Term]| s@));
            lemma_flatten_views_index(ss.drop_first(), j - ss[0]@.len());
            let (k, jj) = choose|k: int, jj: int|
                0 <= k < ss.drop_first().len() && 0 <= jj < ss.drop_first()[k]@.len()
                    && flatten_views(ss.drop_first())[j - ss[0]@.len()] == ss.drop_first()[k]@[jj];
            assert(flatten_views(ss)[j] == ss[k + 1]@[jj]);
        }
    }
}

/// Flattening one slice gives its view.
proof fn lemma_flatten_views_singleton(s: &[Term])
    ensures
        flatten_views(seq![s]) == s@,
{
    let mapped = seq![s].map_values(|x: &[Term]| x@);
    assert(mapped =~= seq![s@]);
    mapped.lemma_flatten_one_element();
    assert(mapped.first() == s@);
}

/// Growing a heap preserves list structure.
proof fn lemma_extends_is_list_of(
    pre: ProcessHeap,
    post: ProcessHeap,
    t: Term,
    elems: Seq<Term>,
    last: Term,
)
    requires
        post.extends(pre),
        pre.is_list_of(t, elems, last),
    ensures
        post.is_list_of(t, elems, last),
    decreases elems.len(),
{
    if elems.len() > 0 {
        let ptr = t->ptr;
        match pre.cells@[ptr.index as int] {
            Cell::Cons { head, tail } => {
                lemma_extends_is_list_of(pre, post, tail, elems.drop_first(), last);
            },
            _ => {},
        }
    }
}



/// The byte produced at an unaligned position: the low bits of `hi`
/// followed by the high bits of `lo`.
pub open spec fn shifted_byte(hi: u8, lo: u8, bit: u8) -> u8
    recommends
        0 < bit < 8,
{
    (hi << bit) | (lo >> ((8 - bit) as u8))
}

/// The logical bit-shifted content of an unaligned byte range: `len` bytes
/// starting `bit` bits into `ob[bo]`.
pub open spec fn aligned_shift(ob: Seq<u8>, bo: int, bit: u8, len: int) -> Seq<u8> {
    Seq::new(len as nat, |k: int| shifted_byte(ob[bo + k], ob[bo + k + 1], bit))
}

/// Word cost of constructing a binary from `n` bytes: a heap-resident
/// binary below the threshold, only the on-heap header above it.
pub open spec fn spec_binary_words(n: int) -> int {
    if n <= HEAP_BINARY_MAX_BYTES {
        spec_words_for_bytes(n)
    } else {
        WORDS_PROCBIN as int
    }
}

/// One arena is the other, possibly with buffers appended; published
/// buffers are immutable.
pub open spec fn arena_extends(post: BinaryArena, pre: BinaryArena) -> bool {
    &&& post.buffers@.len() >= pre.buffers@.len()
    &&& forall|i: int| 0 <= i < pre.buffers@.len() ==> post.buffers@[i] == #[trigger] pre.buffers@[i]
}

impl ProcessHeap {
    /// The bytes of the binary cell at `index` (heap-resident content, or
    /// the referenced arena buffer's content).
    pub open spec fn heap_binary_bytes(self, arena: BinaryArena, index: int) -> Seq<u8> {
        match self.cells@[index] {
            Cell::HeapBinary { bytes, .. } => bytes@,
            Cell::ProcBinRef { buffer } => arena.buffers@[buffer as int].bytes@,
            _ => Seq::empty(),
        }
    }

    /// Whether bytes can be extracted from `t`: a heap binary, an off-heap
    /// reference, or a sub-binary with no trailing partial byte.
    pub open spec fn extractable(self, t: Term) -> bool {
        &&& t matches Term::Boxed { ptr }
        &&& ptr.heap_id == self.id
        &&& ptr.index < self.cells@.len()
        &&& match self.cells@[ptr.index as int] {
            Cell::HeapBinary { .. } => true,
            Cell::ProcBinRef { .. } => true,
            Cell::SubBinary { partial_byte_bit_len, .. } => partial_byte_bit_len == 0,
            _ => false,
        }
    }

    /// Whether `t` is a sub-binary whose content is not byte-aligned.
    pub open spec fn is_unaligned_sub_binary(self, t: Term) -> bool {
        &&& t matches Term::Boxed { ptr }
        &&& ptr.heap_id == self.id
        &&& ptr.index < self.cells@.len()
        &&& (self.cells@[ptr.index as int] matches Cell::SubBinary { bit_offset, .. }
            && bit_offset != 0)
    }

    /// The logical byte content of an extractable binary term.
    pub open spec fn extracted_bytes(self, arena: BinaryArena, t: Term) -> Seq<u8>
        recommends
            self.extractable(t),
    {
        let ix = t->ptr.index as int;
        match self.cells@[ix] {
            Cell::HeapBinary { .. } => self.heap_binary_bytes(arena, ix),
            Cell::ProcBinRef { .. } => self.heap_binary_bytes(arena, ix),
            Cell::SubBinary { original, byte_offset, bit_offset, full_byte_len, .. } => {
                let ob = self.heap_binary_bytes(arena, original->ptr.index as int);
                if bit_offset == 0 {
                    ob.subrange(byte_offset as int, byte_offset + full_byte_len)
                } else {
                    aligned_shift(ob, byte_offset as int, bit_offset, full_byte_len as int)
                }
            },
            _ => Seq::empty(),
        }
    }

    /// The effect of constructing a binary from bytes `b`: a heap-resident
    /// binary exactly when `b` is within the threshold, else an arena
    /// buffer of reference count one, its on-heap header, and a ledger
    /// entry in the virtual binary heap.
    pub open spec fn built_binary(
        self,
        pre: ProcessHeap,
        arena: BinaryArena,
        arena_pre: BinaryArena,
        b: Seq<u8>,
        enc_small: Encoding,
        enc_big: Encoding,
        t: Term,
    ) -> bool {
        &&& t == boxed(pre.id, pre.cells@.len() as usize)
        &&& self.cells@.len() == pre.cells@.len() + 1
        &&& self.extends(pre)
        &&& arena_extends(arena, arena_pre)
        &&& self.extractable(t)
        &&& self.extracted_bytes(arena, t) == b
        &&& if b.len() <= HEAP_BINARY_MAX_BYTES {
            &&& (self.cells@.last() matches Cell::HeapBinary { bytes, encoding } && bytes@ == b
                && encoding == enc_small)
            &&& self.used_words == pre.used_words + spec_words_for_bytes(b.len() as int)
            &&& self.vheap@ == pre.vheap@
            &&& arena.buffers@.len() == arena_pre.buffers@.len()
        } else {
            &&& arena.buffers@.len() == arena_pre.buffers@.len() + 1
            &&& arena.buffers@.last().bytes@ == b
            &&& arena.buffers@.last().encoding == enc_big
            &&& arena.buffers@.last().refcount == 1
            &&& (self.cells@.last() matches Cell::ProcBinRef { buffer } && buffer
                == arena_pre.buffers@.len())
            &&& self.vheap@ == pre.vheap@.push(arena_pre.buffers@.len() as usize)
            &&& self.used_words == pre.used_words + WORDS_PROCBIN
        }
    }

    /// An owned copy of the bytes of the binary cell at `index`.
    fn binary_cell_bytes(&self, arena: &BinaryArena, index: usize) -> (r: Vec<u8>)
        requires
            self.wf_with(*arena),
            index < self.cells@.len(),
            self.cells@[index as int] is HeapBinary || self.cells@[index as int] is ProcBinRef,
        ensures
            r@ == self.heap_binary_bytes(*arena, index as int),
    {
        match &self.cells[index] {
            Cell::HeapBinary { bytes, .. } => vstd::slice::slice_to_vec(bytes.as_slice()),
            Cell::ProcBinRef { buffer } => vstd::slice::slice_to_vec(
                arena.buffers[*buffer].bytes.as_slice(),
            ),
            _ => Vec::new(),
        }
    }

    /// Constructs a heap-resident binary from the given bytes: header and
    /// data in one allocation on the process heap.
    pub fn heapbin_from_bytes(&mut self, arena: &BinaryArena, bytes: &[u8]) -> (r: Result<
        Term,
        Alloc,
    >)
        requires
            old(self).wf_with(*arena),
        ensures
            final(self).wf_with(*arena),
            final(self).same_config(*old(self)),
            match r {
                Ok(t) => {
                    &&& final(self).extends(*old(self))
                    &&& final(self).cells@.len() == old(self).cells@.len() + 1
                    &&& final(self).used_words == old(self).used_words + spec_words_for_bytes(
                        bytes@.len() as int,
                    )
                    &&& final(self).vheap@ == old(self).vheap@
                    &&& t == boxed(old(self).id, old(self).cells@.len() as usize)
                    &&& (final(self).cells@.last() matches Cell::HeapBinary { bytes: b, encoding }
                        && b@ == bytes@ && encoding == Encoding::Raw)
                },
                Err(_) => final(self).alloc_failed(
                    *old(self),
                    spec_words_for_bytes(bytes@.len() as int),
                ),
            },
    {
        let words = words_for_bytes(bytes.len());
        self.reserve(words, 0)?;
        let data = vstd::slice::slice_to_vec(bytes);
        let ptr = self.push_cell(Cell::HeapBinary { bytes: data, encoding: Encoding::Raw });
        proof {
            lemma_wf_with_plain_push(*old(self), *self, *arena);
        }
        Ok(Term::Boxed { ptr })
    }
}

/// Appending cells that hold no arena reference preserves arena
/// well-formedness.
proof fn lemma_wf_with_plain_push(pre: ProcessHeap, post: ProcessHeap, arena: BinaryArena)
    requires
        pre.wf_with(arena),
        post.wf(),
        post.extends(pre),
        post.vheap@ == pre.vheap@,
        forall|i: int|
            pre.cells@.len() <= i < post.cells@.len() ==> !(#[trigger] post.cells@[i]
                is ProcBinRef) && !(post.cells@[i] is SubBinary),
    ensures
        post.wf_with(arena),
{
    assert forall|i: int| 0 <= i < post.cells@.len() implies post.cell_arena_ok(
        #[trigger] post.cells@[i],
        arena,
    ) by {
        if i < pre.cells@.len() {
            assert(pre.cell_arena_ok(pre.cells@[i], arena));
            match pre.cells@[i] {
                Cell::SubBinary { original, .. } => {
                    assert(pre.cell_ok(pre.cells@[i], i));
                },
                _ => {},
            }
        }
    }
}


impl ProcessHeap {
    /// Whether `t` points at a cell of some binary shape (heap-resident,
    /// off-heap reference, or sub-binary view).
    pub open spec fn is_binary_kind(self, t: Term) -> bool {
        &&& t matches Term::Boxed { ptr }
        &&& ptr.heap_id == self.id
        &&& ptr.index < self.cells@.len()
        &&& match self.cells@[ptr.index as int] {
            Cell::HeapBinary { .. } => true,
            Cell::ProcBinRef { .. } => true,
            Cell::SubBinary { .. } => true,
            _ => false,
        }
    }

    /// Publishes `data` as a reference-counted arena buffer and places its
    /// header on this heap.  The buffer is not yet in the virtual binary
    /// heap ledger.
    fn procbin_push(&mut self, arena: &mut BinaryArena, data: Vec<u8>, encoding: Encoding) -> (r:
        Result<Term, Alloc>)
        requires
            old(self).wf_with(*old(arena)),
        ensures
            final(self).wf_with(*final(arena)),
            final(self).same_config(*old(self)),
            arena_extends(*final(arena), *old(arena)),
            match r {
                Ok(t) => {
                    &&& final(self).extends(*old(self))
                    &&& final(arena).buffers@.len() == old(arena).buffers@.len() + 1
                    &&& final(arena).buffers@.last().bytes@ == data@
                    &&& final(arena).buffers@.last().encoding == encoding
                    &&& final(arena).buffers@.last().refcount == 1
                    &&& final(self).pushed1(
                        *old(self),
                        (Cell::ProcBinRef { buffer: old(arena).buffers@.len() as usize }),
                        WORDS_PROCBIN as int,
                    )
                    &&& t == boxed(old(self).id, old(self).cells@.len() as usize)
                },
                Err(_) => {
                    &&& final(self).alloc_failed(*old(self), WORDS_PROCBIN as int)
                    &&& final(arena).buffers@ == old(arena).buffers@
                },
            },
    {
        self.reserve(WORDS_PROCBIN, 0)?;
        let buffer = arena.buffers.len();
        arena.buffers.push(ArenaBuffer { bytes: data, encoding, refcount: 1 });
        let ptr = self.push_cell(Cell::ProcBinRef { buffer });
        proof {
            lemma_wf_with_arena_grow(*old(self), *old(arena), *arena);
            assert forall|i: int| 0 <= i < self.cells@.len() implies self.cell_arena_ok(
                #[trigger] self.cells@[i],
                *arena,
            ) by {
                if i < old(self).cells@.len() {
                    assert(old(self).cell_arena_ok(old(self).cells@[i], *arena));
                }
            }
        }
        Ok(Term::Boxed { ptr })
    }

    /// Constructs a reference-counted off-heap binary from the given
    /// bytes; only its header lands on the process heap.
    pub fn procbin_from_bytes(&mut self, arena: &mut BinaryArena, bytes: &[u8]) -> (r: Result<
        Term,
        Alloc,
    >)
        requires
            old(self).wf_with(*old(arena)),
        ensures
            final(self).wf_with(*final(arena)),
            final(self).same_config(*old(self)),
            arena_extends(*final(arena), *old(arena)),
            match r {
                Ok(t) => {
                    &&& final(self).extends(*old(self))
                    &&& final(arena).buffers@.len() == old(arena).buffers@.len() + 1
                    &&& final(arena).buffers@.last().bytes@ == bytes@
                    &&& final(arena).buffers@.last().encoding == Encoding::Raw
                    &&& final(arena).buffers@.last().refcount == 1
                    &&& final(self).pushed1(
                        *old(self),
                        (Cell::ProcBinRef { buffer: old(arena).buffers@.len() as usize }),
                        WORDS_PROCBIN as int,
                    )
                    &&& t == boxed(old(self).id, old(self).cells@.len() as usize)
                },
                Err(_) => {
                    &&& final(self).alloc_failed(*old(self), WORDS_PROCBIN as int)
                    &&& final(arena).buffers@ == old(arena).buffers@
                },
            },
    {
        let data = vstd::slice::slice_to_vec(bytes);
        self.procbin_push(arena, data, Encoding::Raw)
    }

    /// Constructs a binary from the given bytes under the two-tier policy:
    /// at most `HEAP_BINARY_MAX_BYTES` bytes stay wholly on the process
    /// heap; longer input goes to a shared reference-counted buffer whose
    /// header is placed here and registered in the virtual binary heap.
    #[verifier::rlimit(60)]
    pub fn binary_from_bytes(&mut self, arena: &mut BinaryArena, bytes: &[u8]) -> (r: Result<
        Term,
        Alloc,
    >)
        requires
            old(self).wf_with(*old(arena)),
        ensures
            final(self).wf_with(*final(arena)),
            final(self).same_config(*old(self)),
            arena_extends(*final(arena), *old(arena)),
            match r {
                Ok(t) => final(self).built_binary(
                    *old(self),
                    *final(arena),
                    *old(arena),
                    bytes@,
                    Encoding::Raw,
                    Encoding::Raw,
                    t,
                ),
                Err(_) => {
                    &&& final(self).alloc_failed(*old(self), spec_binary_words(bytes@.len() as int))
                    &&& final(arena).buffers@ == old(arena).buffers@
                },
            },
    {
        if bytes.len() > HEAP_BINARY_MAX_BYTES {
            let base = self.cells.len();
            proof {
                assert(old(self).cells@.len() == base);
            }
            let t = self.procbin_from_bytes(arena, bytes)?;
            let ghost mid = *self;
            let buffer = arena.buffers.len() - 1;
            self.vheap.push(buffer);
            proof {
                assert(self.wf());
                assert forall|j: int| 0 <= j < self.vheap@.len() implies #[trigger] self.vheap@[j]
                    < arena.buffers@.len() by {
                    if j < mid.vheap@.len() {
                        assert(mid.vheap@[j] < arena.buffers@.len());
                    }
                }
                assert forall|i: int| 0 <= i < self.cells@.len() implies self.cell_arena_ok(
                    #[trigger] self.cells@[i],
                    *arena,
                ) by {
                    assert(mid.cell_arena_ok(mid.cells@[i], *arena));
                }
                assert(self.extends(*old(self)));
                assert(t->ptr.index == base);
                assert(self.cells@[base as int] is ProcBinRef);
                assert(self.extractable(t));
                assert(self.extracted_bytes(*arena, t) == bytes@);
            }
            Ok(t)
        } else {
            let base = self.cells.len();
            proof {
                assert(old(self).cells@.len() == base);
            }
            let t = self.heapbin_from_bytes(arena, bytes)?;
            proof {
                assert(t->ptr.index == base);
                assert(self.extractable(t));
                assert(self.extracted_bytes(*arena, t) == bytes@);
            }
            Ok(t)
        }
    }

    /// Constructs a heap-resident binary from the given text; the header
    /// records whether the text was all ASCII.
    pub fn heapbin_from_str(&mut self, arena: &BinaryArena, s: &str) -> (r: Result<Term, Alloc>)
        requires
            old(self).wf_with(*arena),
        ensures
            final(self).wf_with(*arena),
            final(self).same_config(*old(self)),
            match r {
                Ok(t) => {
                    &&& final(self).extends(*old(self))
                    &&& final(self).cells@.len() == old(self).cells@.len() + 1
                    &&& final(self).used_words == old(self).used_words + spec_words_for_bytes(
                        s.spec_bytes().len() as int,
                    )
                    &&& final(self).vheap@ == old(self).vheap@
                    &&& t == boxed(old(self).id, old(self).cells@.len() as usize)
                    &&& (final(self).cells@.last() matches Cell::HeapBinary { bytes: b, encoding }
                        && b@ == s.spec_bytes() && encoding == spec_str_encoding(s))
                },
                Err(_) => final(self).alloc_failed(
                    *old(self),
                    spec_words_for_bytes(s.spec_bytes().len() as int),
                ),
            },
    {
        let sb = s.as_bytes();
        let n = sb.len();
        proof {
            assert(sb@.len() == n);
            assert(s.spec_bytes().len() == n);
        }
        let words = words_for_bytes(n);
        self.reserve(words, 0)?;
        let encoding = if s.is_ascii() {
            Encoding::Latin1
        } else {
            Encoding::Utf8
        };
        let data = vstd::slice::slice_to_vec(sb);
        let ptr = self.push_cell(Cell::HeapBinary { bytes: data, encoding });
        proof {
            lemma_wf_with_plain_push(*old(self), *self, *arena);
        }
        Ok(Term::Boxed { ptr })
    }

    /// Constructs a reference-counted off-heap binary from the given text.
    pub fn procbin_from_str(&mut self, arena: &mut BinaryArena, s: &str) -> (r: Result<
        Term,
        Alloc,
    >)
        requires
            old(self).wf_with(*old(arena)),
        ensures
            final(self).wf_with(*final(arena)),
            final(self).same_config(*old(self)),
            arena_extends(*final(arena), *old(arena)),
            match r {
                Ok(t) => {
                    &&& final(self).extends(*old(self))
                    &&& final(arena).buffers@.len() == old(arena).buffers@.len() + 1
                    &&& final(arena).buffers@.last().bytes@ == s.spec_bytes()
                    &&& final(arena).buffers@.last().encoding == spec_str_encoding(s)
                    &&& final(arena).buffers@.last().refcount == 1
                    &&& final(self).pushed1(
                        *old(self),
                        (Cell::ProcBinRef { buffer: old(arena).buffers@.len() as usize }),
                        WORDS_PROCBIN as int,
                    )
                    &&& t == boxed(old(self).id, old(self).cells@.len() as usize)
                },
                Err(_) => {
                    &&& final(self).alloc_failed(*old(self), WORDS_PROCBIN as int)
                    &&& final(arena).buffers@ == old(arena).buffers@
                },
            },
    {
        let sb = s.as_bytes();
        let encoding = if s.is_ascii() {
            Encoding::Latin1
        } else {
            Encoding::Utf8
        };
        let data = vstd::slice::slice_to_vec(sb);
        self.procbin_push(arena, data, encoding)
    }

    /// Constructs a binary from the given text under the same two-tier
    /// policy as `binary_from_bytes`.
    #[verifier::rlimit(60)]
    pub fn binary_from_str(&mut self, arena: &mut BinaryArena, s: &str) -> (r: Result<Term, Alloc>)
        requires
            old(self).wf_with(*old(arena)),
        ensures
            final(self).wf_with(*final(arena)),
            final(self).same_config(*old(self)),
            arena_extends(*final(arena), *old(arena)),
            match r {
                Ok(t) => final(self).built_binary(
                    *old(self),
                    *final(arena),
                    *old(arena),
                    s.spec_bytes(),
                    spec_str_encoding(s),
                    spec_str_encoding(s),
                    t,
                ),
                Err(_) => {
                    &&& final(self).alloc_failed(
                        *old(self),
                        spec_binary_words(s.spec_bytes().len() as int),
                    )
                    &&& final(arena).buffers@ == old(arena).buffers@
                },
            },
    {
        let n = s.as_bytes().len();
        proof {
            assert(s.spec_bytes().len() == n);
        }
        if n > HEAP_BINARY_MAX_BYTES {
            let base = self.cells.len();
            proof {
                assert(old(self).cells@.len() == base);
            }
            let t = self.procbin_from_str(arena, s)?;
            let ghost mid = *self;
            let buffer = arena.buffers.len() - 1;
            self.vheap.push(buffer);
            proof {
                assert(self.wf());
                assert forall|j: int| 0 <= j < self.vheap@.len() implies #[trigger] self.vheap@[j]
                    < arena.buffers@.len() by {
                    if j < mid.vheap@.len() {
                        assert(mid.vheap@[j] < arena.buffers@.len());
                    }
                }
                assert forall|i: int| 0 <= i < self.cells@.len() implies self.cell_arena_ok(
                    #[trigger] self.cells@[i],
                    *arena,
                ) by {
                    assert(mid.cell_arena_ok(mid.cells@[i], *arena));
                }
                assert(self.extends(*old(self)));
                assert(t->ptr.index == base);
                assert(self.cells@[base as int] is ProcBinRef);
                assert(self.extractable(t));
                assert(self.extracted_bytes(*arena, t) == s.spec_bytes());
            }
            Ok(t)
        } else {
            let base = self.cells.len();
            proof {
                assert(old(self).cells@.len() == base);
            }
            let t = self.heapbin_from_str(arena, s)?;
            proof {
                assert(t->ptr.index == base);
                assert(self.extractable(t));
                assert(self.extracted_bytes(*arena, t) == s.spec_bytes());
            }
            Ok(t)
        }
    }

    /// Constructs a sub-binary view into a previously built binary.  The
    /// original must be a heap binary or an off-heap reference of this
    /// heap; a view into a sub-binary is taken against its original with
    /// combined offsets.
    pub fn subbinary_from_original(
        &mut self,
        arena: &BinaryArena,
        original: Term,
        byte_offset: usize,
        bit_offset: u8,
        full_byte_len: usize,
        partial_byte_bit_len: u8,
    ) -> (r: Result<Term, Alloc>)
        requires
            old(self).wf_with(*arena),
            old(self).is_binary_cell_ptr(original),
            bit_offset < 8,
            partial_byte_bit_len < 8,
            byte_offset + full_byte_len + sub_binary_extra_byte(bit_offset, partial_byte_bit_len)
                <= old(self).heap_binary_bytes(*arena, original->ptr.index as int).len(),
        ensures
            final(self).wf_with(*arena),
            final(self).same_config(*old(self)),
            match r {
                Ok(t) => {
                    &&& final(self).extends(*old(self))
                    &&& final(self).pushed1(
                        *old(self),
                        (Cell::SubBinary {
                            original,
                            byte_offset,
                            bit_offset,
                            full_byte_len,
                            partial_byte_bit_len,
                        }),
                        WORDS_SUBBINARY as int,
                    )
                    &&& t == boxed(old(self).id, old(self).cells@.len() as usize)
                },
                Err(_) => final(self).alloc_failed(*old(self), WORDS_SUBBINARY as int),
            },
    {
        self.reserve(WORDS_SUBBINARY, 0)?;
        let cell = Cell::SubBinary {
            original,
            byte_offset,
            bit_offset,
            full_byte_len,
            partial_byte_bit_len,
        };
        let ptr = self.push_cell(cell);
        proof {
            assert forall|i: int| 0 <= i < self.cells@.len() implies self.cell_arena_ok(
                #[trigger] self.cells@[i],
                *arena,
            ) by {
                if i < old(self).cells@.len() {
                    assert(old(self).cell_arena_ok(old(self).cells@[i], *arena));
                }
            }
        }
        Ok(Term::Boxed { ptr })
    }
}

/// Growing the arena preserves arena well-formedness: published buffers
/// are immutable and indices stay valid.
proof fn lemma_wf_with_arena_grow(h: ProcessHeap, pre: BinaryArena, post: BinaryArena)
    requires
        h.wf_with(pre),
        arena_extends(post, pre),
    ensures
        h.wf_with(post),
{
    assert forall|i: int| 0 <= i < h.cells@.len() implies h.cell_arena_ok(
        #[trigger] h.cells@[i],
        post,
    ) by {
        assert(h.cell_arena_ok(h.cells@[i], pre));
    }
}

/// The header classification a piece of text receives: all-ASCII text is
/// marked Latin-1, anything else UTF-8.
pub open spec fn spec_str_encoding(s: &str) -> Encoding {
    if vstd::string::is_ascii(s) {
        Encoding::Latin1
    } else {
        Encoding::Utf8
    }
}


/// An owned copy of `src[start .. start + len]`.
fn copy_range(src: &Vec<u8>, start: usize, len: usize) -> (r: Vec<u8>)
    requires
        start + len <= src@.len(),
    ensures
        r@ == src@.subrange(start as int, start + len),
{
    let n = src.len();
    proof {
        assert(src@.len() == n);
    }
    let mut r: Vec<u8> = Vec::new();
    let mut k: usize = 0;
    while k < len
        invariant
            k <= len,
            start + len <= src@.len(),
            src@.len() == n,
            r@ == src@.subrange(start as int, start + k),
        decreases len - k,
    {
        r.push(src[start + k]);
        proof {
            assert(src@.subrange(start as int, start + k + 1) =~= src@.subrange(
                start as int,
                start + k,
            ).push(src@[start + k]));
        }
        k = k + 1;
    }
    r
}

/// The bit-shifted bytes of `src` starting `bit` bits into `src[start]`.
fn shift_range(src: &Vec<u8>, start: usize, bit: u8, len: usize) -> (r: Vec<u8>)
    requires
        0 < bit < 8,
        start + len + 1 <= src@.len(),
    ensures
        r@ == aligned_shift(src@, start as int, bit, len as int),
{
    let n = src.len();
    proof {
        assert(src@.len() == n);
    }
    let mut r: Vec<u8> = Vec::new();
    let mut k: usize = 0;
    while k < len
        invariant
            k <= len,
            0 < bit < 8,
            start + len + 1 <= src@.len(),
            src@.len() == n,
            r@ == aligned_shift(src@, start as int, bit, k as int),
        decreases len - k,
    {
        let hi = src[start + k];
        let lo = src[start + k + 1];
        let b = (hi << bit) | (lo >> (8 - bit));
        r.push(b);
        proof {
            assert(b == shifted_byte(src@[start + k], src@[start + k + 1], bit));
            assert(aligned_shift(src@, start as int, bit, k + 1) =~= aligned_shift(
                src@,
                start as int,
                bit,
                k as int,
            ).push(shifted_byte(src@[start + k], src@[start + k + 1], bit)));
        }
        k = k + 1;
    }
    r
}

impl ProcessHeap {
    /// Returns the byte content of a binary term.  A heap binary, an
    /// off-heap reference, or a byte-aligned sub-binary is read in place; a
    /// sub-binary with a non-zero bit offset is never a slice of its
    /// original: a freshly aligned copy is first materialized through the
    /// binary construction policy, byte-for-byte equal to the logical
    /// bit-shifted content.
    #[verifier::rlimit(60)]
    pub fn bytes_from_binary(&mut self, arena: &mut BinaryArena, binary: Term) -> (r: Result<
        Vec<u8>,
        BytesFromBinaryError,
    >)
        requires
            old(self).wf_with(*old(arena)),
            old(self).valid_term(binary),
        ensures
            final(self).wf_with(*final(arena)),
            final(self).same_config(*old(self)),
            final(self).extends(*old(self)),
            arena_extends(*final(arena), *old(arena)),
            match r {
                Ok(b) => {
                    &&& old(self).extractable(binary)
                    &&& b@ == old(self).extracted_bytes(*old(arena), binary)
                    &&& if old(self).is_unaligned_sub_binary(binary) {
                        exists|t: Term|
                            final(self).built_binary(
                                *old(self),
                                *final(arena),
                                *old(arena),
                                b@,
                                Encoding::Raw,
                                Encoding::Raw,
                                t,
                            )
                    } else {
                        &&& final(self).cells@ == old(self).cells@
                        &&& final(self).used_words == old(self).used_words
                        &&& final(self).vheap@ == old(self).vheap@
                        &&& final(arena).buffers@ == old(arena).buffers@
                    }
                },
                Err(BytesFromBinaryError::Type) => {
                    &&& !old(self).is_binary_kind(binary)
                    &&& final(self).cells@ == old(self).cells@
                    &&& final(arena).buffers@ == old(arena).buffers@
                },
                Err(BytesFromBinaryError::NotABinary) => {
                    &&& old(self).is_binary_kind(binary)
                    &&& !old(self).extractable(binary)
                    &&& final(self).cells@ == old(self).cells@
                    &&& final(arena).buffers@ == old(arena).buffers@
                },
                Err(BytesFromBinaryError::Alloc(_)) => {
                    &&& old(self).extractable(binary)
                    &&& old(self).is_unaligned_sub_binary(binary)
                    &&& final(self).cells@ == old(self).cells@
                    &&& final(self).used_words == old(self).used_words
                    &&& final(arena).buffers@ == old(arena).buffers@
                    &&& old(self).used_words + spec_binary_words(
                        old(self).extracted_bytes(*old(arena), binary).len() as int,
                    ) > old(self).max_words
                },
            },
    {
        let ix: usize = match binary {
            Term::Boxed { ptr } => {
                if ptr.heap_id != self.id || ptr.index >= self.cells.len() {
                    return Err(BytesFromBinaryError::Type);
                }
                ptr.index
            },
            _ => {
                return Err(BytesFromBinaryError::Type);
            },
        };
        let ghost gcells = self.cells@;
        let (sb_original, sb_byte_offset, sb_bit_offset, sb_full_byte_len, sb_partial):
            (Term, usize, u8, usize, u8) = match &self.cells[ix] {
            Cell::HeapBinary { .. } => {
                let b = self.binary_cell_bytes(arena, ix);
                return Ok(b);
            },
            Cell::ProcBinRef { .. } => {
                let b = self.binary_cell_bytes(arena, ix);
                return Ok(b);
            },
            Cell::SubBinary { original, byte_offset, bit_offset, full_byte_len, partial_byte_bit_len } => {
                (*original, *byte_offset, *bit_offset, *full_byte_len, *partial_byte_bit_len)
            },
            _ => {
                return Err(BytesFromBinaryError::Type);
            },
        };
        if sb_partial != 0 {
            return Err(BytesFromBinaryError::NotABinary);
        }
        proof {
            assert(self.cell_ok(self.cells@[ix as int], ix as int));
        }
        let orig_ix: usize = match sb_original {
            Term::Boxed { ptr } => ptr.index,
            _ => {
                proof {
                    assert(false);
                }
                0
            },
        };
        let obytes = self.binary_cell_bytes(arena, orig_ix);
        proof {
            assert(self.cell_arena_ok(self.cells@[ix as int], *arena));
            assert(sb_byte_offset + sb_full_byte_len + sub_binary_extra_byte(
                sb_bit_offset,
                sb_partial,
            ) <= obytes@.len());
        }
        if sb_bit_offset == 0 {
            let b = copy_range(&obytes, sb_byte_offset, sb_full_byte_len);
            Ok(b)
        } else {
            let aligned = shift_range(&obytes, sb_byte_offset, sb_bit_offset, sb_full_byte_len);
            proof {
                assert(aligned@ == old(self).extracted_bytes(*old(arena), binary));
            }
            match self.binary_from_bytes(arena, aligned.as_slice()) {
                Ok(t) => {
                    proof {
                        assert(final(self).built_binary(
                            *old(self),
                            *arena,
                            *old(arena),
                            aligned@,
                            Encoding::Raw,
                            Encoding::Raw,
                            t,
                        ));
                    }
                    Ok(aligned)
                },
                Err(e) => Err(BytesFromBinaryError::Alloc(e)),
            }
        }
    }

    /// Returns the text content of a binary term: the extracted bytes,
    /// re-validated as well-formed UTF-8.
    pub fn str_from_binary(&mut self, arena: &mut BinaryArena, binary: Term) -> (r: Result<
        String,
        StrFromBinaryError,
    >)
        requires
            old(self).wf_with(*old(arena)),
            old(self).valid_term(binary),
        ensures
            final(self).wf_with(*final(arena)),
            final(self).same_config(*old(self)),
            final(self).extends(*old(self)),
            arena_extends(*final(arena), *old(arena)),
            match r {
                Ok(text) => {
                    &&& old(self).extractable(binary)
                    &&& vstd::utf8::valid_utf8(old(self).extracted_bytes(*old(arena), binary))
                    &&& text@ == vstd::utf8::decode_utf8(
                        old(self).extracted_bytes(*old(arena), binary),
                    )
                },
                Err(StrFromBinaryError::Utf8Error) => {
                    &&& old(self).extractable(binary)
                    &&& !vstd::utf8::valid_utf8(old(self).extracted_bytes(*old(arena), binary))
                },
                Err(StrFromBinaryError::Type) => !old(self).is_binary_kind(binary),
                Err(StrFromBinaryError::NotABinary) => old(self).is_binary_kind(binary) && !old(
                    self,
                ).extractable(binary),
                Err(StrFromBinaryError::Alloc(_)) => {
                    &&& old(self).extractable(binary)
                    &&& old(self).is_unaligned_sub_binary(binary)
                    &&& old(self).used_words + spec_binary_words(
                        old(self).extracted_bytes(*old(arena), binary).len() as int,
                    ) > old(self).max_words
                },
            },
    {
        let bytes = match self.bytes_from_binary(arena, binary) {
            Ok(b) => b,
            Err(BytesFromBinaryError::Type) => {
                return Err(StrFromBinaryError::Type);
            },
            Err(BytesFromBinaryError::NotABinary) => {
                return Err(StrFromBinaryError::NotABinary);
            },
            Err(BytesFromBinaryError::Alloc(e)) => {
                return Err(StrFromBinaryError::Alloc(e));
            },
        };
        match utf8_from_bytes(bytes.as_slice()) {
            Some(text) => Ok(text),
            None => Err(StrFromBinaryError::Utf8Error),
        }
    }
}

/// Relies on `core::str::from_utf8`: it succeeds exactly on well-formed
/// UTF-8 and returns that byte content as text.
#[verifier::external_body]
fn utf8_from_bytes(bytes: &[u8]) -> (r: Option<String>)
    ensures
        r matches Some(s) ==> vstd::utf8::valid_utf8(bytes@) && s@ == vstd::utf8::decode_utf8(
            bytes@,
        ),
        r is None ==> !vstd::utf8::valid_utf8(bytes@),
{
    match core::str::from_utf8(bytes) {
        Ok(s) => Some(s.to_string()),
        Err(_) => None,
    }
}


impl ProcessHeap {
    /// The elements of the proper list `t`, if it is one: a chain of cons
    /// cells ending in the empty list.
    pub open spec fn list_elements(self, t: Term) -> Option<Seq<Term>>
        decreases (match t {
            Term::Boxed { ptr } => ptr.index as int + 1,
            _ => 0int,
        })
        when self.wf()
    {
        match t {
            Term::Nil => Some(Seq::empty()),
            Term::Boxed { ptr } => if ptr.heap_id == self.id && ptr.index < self.cells@.len() {
                match self.cells@[ptr.index as int] {
                    Cell::Cons { head, tail } => match self.list_elements(tail) {
                        Some(es) => Some(seq![head] + es),
                        None => None,
                    },
                    _ => None,
                }
            } else {
                None
            },
            _ => None,
        }
    }

    /// Collects the elements of a proper list into a vector; `None` for
    /// anything else (an improper tail, or a non-list term).
    pub fn list_to_vec(&self, t: Term) -> (r: Option<Vec<Term>>)
        requires
            self.wf(),
            self.valid_term(t),
        ensures
            match r {
                Some(v) => {
                    &&& self.list_elements(t) == Some(v@)
                    &&& forall|j: int| 0 <= j < v@.len() ==> self.valid_term(#[trigger] v@[j])
                },
                None => self.list_elements(t) is None,
            },
    {
        let heap_len = self.cells.len();
        let mut collected: Vec<Term> = Vec::new();
        let mut cur = t;
        loop
            invariant
                self.wf(),
                self.valid_term(cur),
                self.cells@.len() == heap_len,
                collected@.len() <= heap_len,
                forall|j: int|
                    0 <= j < collected@.len() ==> self.valid_term(#[trigger] collected@[j]),
                (match cur {
                    Term::Boxed { ptr } => collected@.len() + ptr.index < heap_len,
                    _ => true,
                }),
                (match self.list_elements(cur) {
                    Some(es) => self.list_elements(t) == Some(collected@ + es),
                    None => self.list_elements(t) is None,
                }),
            decreases (match cur {
                Term::Boxed { ptr } => ptr.index as int + 1,
                _ => 0int,
            }),
        {
            match cur {
                Term::Nil => {
                    proof {
                        assert(self.list_elements(cur) == Some(Seq::<Term>::empty()));
                        assert(collected@ + Seq::<Term>::empty() =~= collected@);
                    }
                    return Some(collected);
                },
                Term::Boxed { ptr } => {
                    let (head, tail): (Term, Term) = match &self.cells[ptr.index] {
                        Cell::Cons { head, tail } => (*head, *tail),
                        _ => {
                            return None;
                        },
                    };
                    proof {
                        assert(self.cell_ok(self.cells@[ptr.index as int], ptr.index as int));
                        match self.list_elements(tail) {
                            Some(es) => {
                                assert((collected@ + seq![head]) + es =~= collected@ + (seq![head]
                                    + es));
                            },
                            None => {},
                        }
                    }
                    collected.push(head);
                    cur = tail;
                },
                _ => {
                    return None;
                },
            }
        }
    }
}

/// A freshly built proper list holds exactly the elements it was built
/// from.
pub proof fn lemma_is_list_of_elements(h: ProcessHeap, t: Term, elems: Seq<Term>)
    requires
        h.wf(),
        h.is_list_of(t, elems, Term::Nil),
    ensures
        h.list_elements(t) == Some(elems),
    decreases elems.len(),
{
    if elems.len() == 0 {
        assert(h.list_elements(t) == Some(Seq::<Term>::empty()));
        assert(elems =~= Seq::<Term>::empty());
    } else {
        let ptr = t->ptr;
        match h.cells@[ptr.index as int] {
            Cell::Cons { head, tail } => {
                lemma_is_list_of_elements(h, tail, elems.drop_first());
                assert(h.cell_ok(h.cells@[ptr.index as int], ptr.index as int));
                assert(h.list_elements(t) == Some(seq![head] + elems.drop_first()));
                assert(seq![head] + elems.drop_first() =~= elems);
            },
            _ => {},
        }
    }
}


impl ProcessHeap {
    /// Every pointer reachable from `t`'s payload stays within this heap,
    /// except that off-heap binary references resolve to a buffer of the
    /// shared reference-counted arena.
    pub open spec fn term_owned(self, arena: BinaryArena, t: Term) -> bool
        decreases (match t {
            Term::Boxed { ptr } => ptr.index as int + 1,
            _ => 0int,
        })
        when self.wf()
    {
        match t {
            Term::Boxed { ptr } => {
                &&& ptr.heap_id == self.id
                &&& ptr.index < self.cells@.len()
                &&& match self.cells@[ptr.index as int] {
                    Cell::Cons { head, tail } => self.term_owned(arena, head) && self.term_owned(
                        arena,
                        tail,
                    ),
                    Cell::Tuple { elements } => forall|j: int|
                        0 <= j < elements@.len() ==> self.term_owned(
                            arena,
                            #[trigger] elements@[j],
                        ),
                    Cell::FlatMap { pairs } => forall|j: int|
                        0 <= j < pairs@.len() ==> self.term_owned(arena, #[trigger] pairs@[j].0)
                            && self.term_owned(arena, pairs@[j].1),
                    Cell::AnonymousClosure { creator, env, .. } => self.term_owned(arena, creator)
                        && (forall|j: int|
                        0 <= j < env@.len() ==> self.term_owned(arena, #[trigger] env@[j])),
                    Cell::SubBinary { original, .. } => self.term_owned(arena, original),
                    Cell::ProcBinRef { buffer } => buffer < arena.buffers@.len(),
                    _ => true,
                }
            },
            _ => true,
        }
    }
}

/// Heap ownership: on a well-formed heap, every pointer reachable from a
/// valid term's payload is owned by that heap (`is_owner` holds of it), or
/// resolves to a reference-counted buffer of the shared binary arena.
pub proof fn lemma_heap_ownership(h: ProcessHeap, arena: BinaryArena, t: Term)
    requires
        h.wf_with(arena),
        h.valid_term(t),
    ensures
        h.term_owned(arena, t),
    decreases (match t {
        Term::Boxed { ptr } => ptr.index as int + 1,
        _ => 0int,
    }),
{
    match t {
        Term::Boxed { ptr } => {
            let i = ptr.index as int;
            assert(h.cell_ok(h.cells@[i], i));
            assert(h.cell_arena_ok(h.cells@[i], arena));
            match h.cells@[i] {
                Cell::Cons { head, tail } => {
                    lemma_heap_ownership(h, arena, head);
                    lemma_heap_ownership(h, arena, tail);
                    assert(h.term_owned(arena, t));
                },
                Cell::Tuple { elements } => {
                    assert forall|j: int| 0 <= j < elements@.len() implies h.term_owned(
                        arena,
                        #[trigger] elements@[j],
                    ) by {
                        lemma_heap_ownership(h, arena, elements@[j]);
                    }
                    assert(h.term_owned(arena, t));
                },
                Cell::FlatMap { pairs } => {
                    assert forall|j: int| 0 <= j < pairs@.len() implies h.term_owned(
                        arena,
                        (#[trigger] pairs@[j]).0,
                    ) && h.term_owned(arena, pairs@[j].1) by {
                        lemma_heap_ownership(h, arena, pairs@[j].0);
                        lemma_heap_ownership(h, arena, pairs@[j].1);
                    }
                    assert(h.term_owned(arena, t));
                },
                Cell::AnonymousClosure { creator, env, .. } => {
                    lemma_heap_ownership(h, arena, creator);
                    assert forall|j: int| 0 <= j < env@.len() implies h.term_owned(
                        arena,
                        #[trigger] env@[j],
                    ) by {
                        lemma_heap_ownership(h, arena, env@[j]);
                    }
                    assert(h.term_owned(arena, t));
                },
                Cell::SubBinary { original, .. } => {
                    lemma_heap_ownership(h, arena, original);
                    assert(h.term_owned(arena, t));
                },
                Cell::ProcBinRef { buffer } => {
                    assert(buffer < arena.buffers@.len());
                    assert(h.term_owned(arena, t));
                },
                _ => {
                    assert(h.term_owned(arena, t));
                },
            }
        },
        _ => {},
    }
}

/// Binary threshold: a binary built from bytes `b` is heap-resident
/// exactly when `b` is within the threshold and off-heap-referenced
/// exactly above it, and in either case the bytes extracted from it are
/// exactly `b` (the round trip returns what was put in).
pub proof fn lemma_binary_threshold(
    post: ProcessHeap,
    pre: ProcessHeap,
    arena: BinaryArena,
    arena_pre: BinaryArena,
    b: Seq<u8>,
    t: Term,
)
    requires
        post.built_binary(pre, arena, arena_pre, b, Encoding::Raw, Encoding::Raw, t),
    ensures
        post.cells@.last() is HeapBinary <==> b.len() <= HEAP_BINARY_MAX_BYTES,
        post.cells@.last() is ProcBinRef <==> b.len() > HEAP_BINARY_MAX_BYTES,
        b.len() > HEAP_BINARY_MAX_BYTES ==> post.vheap@ == pre.vheap@.push(
            arena_pre.buffers@.len() as usize,
        ) && arena.buffers@.last().refcount == 1,
        post.extractable(t),
        post.extracted_bytes(arena, t) == b,
{
}


/// The code-point terms of a piece of text, in order.
pub open spec fn charlist_elems(chars: Seq<char>) -> Seq<Term> {
    Seq::new(chars.len(), |i: int| (Term::SmallInteger { value: chars[i] as u32 as i64 }))
}

impl ProcessHeap {
    /// Constructs the character list of the given text: one immediate
    /// code-point integer per character, in order, as a proper list.
    pub fn charlist_from_str(&mut self, s: &str) -> (r: Result<Term, Alloc>)
        requires
            old(self).wf(),
        ensures
            final(self).wf(),
            final(self).extends(*old(self)),
            final(self).vheap@ == old(self).vheap@,
            match r {
                Ok(t) => {
                    &&& final(self).cells@.len() == old(self).cells@.len() + s@.len()
                    &&& final(self).used_words == old(self).used_words + WORDS_CONS * s@.len()
                    &&& final(self).is_list_of(t, charlist_elems(s@), Term::Nil)
                },
                Err(_) => old(self).used_words + WORDS_CONS * s@.len() > old(self).max_words,
            },
    {
        let len = s.unicode_len();
        let mut acc = Term::Nil;
        let mut i = len;
        proof {
            assert(charlist_elems(s@).subrange(i as int, s@.len() as int) =~= Seq::<
                Term,
            >::empty());
        }
        while i > 0
            invariant
                self.wf(),
                self.extends(*old(self)),
                self.vheap@ == old(self).vheap@,
                i <= s@.len(),
                len == s@.len(),
                self.cells@.len() == old(self).cells@.len() + (s@.len() - i),
                self.used_words == old(self).used_words + WORDS_CONS * (s@.len() - i),
                self.valid_term(acc),
                self.is_list_of(
                    acc,
                    charlist_elems(s@).subrange(i as int, s@.len() as int),
                    Term::Nil,
                ),
            decreases i,
        {
            i = i - 1;
            let c = s.get_char(i);
            let code: i64 = (c as u32) as i64;
            let head = Term::SmallInteger { value: code };
            let ghost pre = *self;
            let ghost rest = charlist_elems(s@).subrange(i as int + 1, s@.len() as int);
            match self.cons(head, acc) {
                Ok(t) => {
                    let n = self.cells.len();
                    proof {
                        assert(self.cells@.len() == n);
                        assert(pre.cells@.len() == n - 1);
                        assert(self.extends(pre));
                        lemma_extends_is_list_of(pre, *self, acc, rest, Term::Nil);
                        let whole = charlist_elems(s@).subrange(i as int, s@.len() as int);
                        assert(whole.drop_first() =~= rest);
                        assert(whole[0] == (Term::SmallInteger { value: s@[i as int] as u32 as i64 }));
                        assert(t == boxed(pre.id, pre.cells@.len() as usize));
                        assert(self.cells@[pre.cells@.len() as int] == (Cell::Cons {
                            head,
                            tail: acc,
                        }));
                        assert(self.is_list_of(t, whole, Term::Nil));
                    }
                    acc = t;
                },
                Err(e) => {
                    return Err(e);
                },
            }
        }
        proof {
            assert(charlist_elems(s@).subrange(0, s@.len() as int) =~= charlist_elems(s@));
        }
        Ok(acc)
    }
}


/// The variant discriminant of a term, as `classify` reports it.
#[derive(Clone, Copy, Debug, PartialEq, Eq, Structural)]
pub enum TermType {
    Atom,
    SmallInteger,
    BigInteger,
    Float,
    Tuple,
    Cons,
    Nil,
    MapTerm,
    HeapBinary,
    ProcBin,
    SubBinary,
    Pid,
    ExternalPid,
    Reference,
    Closure,
    Resource,
    Reserved,
}

impl ProcessHeap {
    /// The discriminant `classify` must report for `t`.
    pub open spec fn spec_classify(self, t: Term) -> TermType {
        match t {
            Term::Atom { .. } => TermType::Atom,
            Term::SmallInteger { .. } => TermType::SmallInteger,
            Term::Nil => TermType::Nil,
            Term::Pid { .. } => TermType::Pid,
            Term::Boxed { ptr } => match self.cells@[ptr.index as int] {
                Cell::Cons { .. } => TermType::Cons,
                Cell::Tuple { .. } => TermType::Tuple,
                Cell::HeapBinary { .. } => TermType::HeapBinary,
                Cell::ProcBinRef { .. } => TermType::ProcBin,
                Cell::SubBinary { .. } => TermType::SubBinary,
                Cell::BigInteger { .. } => TermType::BigInteger,
                Cell::Float { .. } => TermType::Float,
                Cell::FlatMap { .. } => TermType::MapTerm,
                Cell::Reference { .. } => TermType::Reference,
                Cell::AnonymousClosure { .. } => TermType::Closure,
                Cell::ExportClosure { .. } => TermType::Closure,
                Cell::ExternalPid { .. } => TermType::ExternalPid,
                Cell::Resource { .. } => TermType::Resource,
                Cell::Reserved { .. } => TermType::Reserved,
            },
        }
    }

    /// Classifies a term by its variant: total, never fails.  A tag fully
    /// determines how the payload is read; boxed tags are resolved through
    /// the owning heap.
    pub fn classify(&self, t: Term) -> (r: TermType)
        requires
            self.wf(),
            self.valid_term(t),
        ensures
            r == self.spec_classify(t),
    {
        match t {
            Term::Atom { .. } => TermType::Atom,
            Term::SmallInteger { .. } => TermType::SmallInteger,
            Term::Nil => TermType::Nil,
            Term::Pid { .. } => TermType::Pid,
            Term::Boxed { ptr } => match &self.cells[ptr.index] {
                Cell::Cons { .. } => TermType::Cons,
                Cell::Tuple { .. } => TermType::Tuple,
                Cell::HeapBinary { .. } => TermType::HeapBinary,
                Cell::ProcBinRef { .. } => TermType::ProcBin,
                Cell::SubBinary { .. } => TermType::SubBinary,
                Cell::BigInteger { .. } => TermType::BigInteger,
                Cell::Float { .. } => TermType::Float,
                Cell::FlatMap { .. } => TermType::MapTerm,
                Cell::Reference { .. } => TermType::Reference,
                Cell::AnonymousClosure { .. } => TermType::Closure,
                Cell::ExportClosure { .. } => TermType::Closure,
                Cell::ExternalPid { .. } => TermType::ExternalPid,
                Cell::Resource { .. } => TermType::Resource,
                Cell::Reserved { .. } => TermType::Reserved,
            },
        }
    }

    /// Whether `t` is a bitstring: any of the three binary shapes.
    pub fn is_bitstring(&self, t: Term) -> (r: bool)
        requires
            self.wf(),
            self.valid_term(t),
        ensures
            r == self.is_binary_kind(t),
    {
        match self.classify(t) {
            TermType::HeapBinary => true,
            TermType::ProcBin => true,
            TermType::SubBinary => true,
            _ => false,
        }
    }
}


/// Whether `r` on heap `dst` is a faithful copy of `t` on heap `src`:
/// immediates are the same word, boxed values point at cells of the same
/// shape whose children mirror each other, and off-heap binary references
/// share the very same reference-counted buffer.
pub open spec fn mirrors(src: ProcessHeap, t: Term, dst: ProcessHeap, r: Term) -> bool
    decreases (match t {
        Term::Boxed { ptr } => ptr.index as int + 1,
        _ => 0int,
    })
    when src.wf()
{
    match t {
        Term::Boxed { ptr } => {
            &&& ptr.heap_id == src.id
            &&& ptr.index < src.cells@.len()
            &&& r matches Term::Boxed { ptr: q }
            &&& q.heap_id == dst.id
            &&& q.index < dst.cells@.len()
            &&& match src.cells@[ptr.index as int] {
                Cell::Cons { head, tail } => dst.cells@[q.index as int] matches Cell::Cons {
                    head: head2,
                    tail: tail2,
                } && mirrors(src, head, dst, head2) && mirrors(src, tail, dst, tail2),
                Cell::Tuple { elements } => dst.cells@[q.index as int] matches Cell::Tuple {
                    elements: elements2,
                } && elements@.len() == elements2@.len() && (forall|j: int|
                    0 <= j < elements@.len() ==> mirrors(
                        src,
                        #[trigger] elements@[j],
                        dst,
                        elements2@[j],
                    )),
                Cell::HeapBinary { bytes, encoding } => dst.cells@[q.index as int]
                    matches Cell::HeapBinary { bytes: bytes2, encoding: encoding2 } && bytes@
                    == bytes2@ && encoding == encoding2,
                Cell::ProcBinRef { buffer } => dst.cells@[q.index as int]
                    == (Cell::ProcBinRef { buffer }),
                Cell::SubBinary { original, byte_offset, bit_offset, full_byte_len, partial_byte_bit_len } => dst.cells@[q.index as int]
                    matches Cell::SubBinary {
                    original: original2,
                    byte_offset: bo2,
                    bit_offset: bi2,
                    full_byte_len: fl2,
                    partial_byte_bit_len: pl2,
                } && mirrors(src, original, dst, original2) && bo2 == byte_offset && bi2
                    == bit_offset && fl2 == full_byte_len && pl2 == partial_byte_bit_len,
                Cell::BigInteger { big } => dst.cells@[q.index as int]
                    matches Cell::BigInteger { big: big2 } && big_value(big2) == big_value(big),
                Cell::Float { bits } => dst.cells@[q.index as int] == (Cell::Float { bits }),
                Cell::FlatMap { pairs } => dst.cells@[q.index as int] matches Cell::FlatMap {
                    pairs: pairs2,
                } && pairs@.len() == pairs2@.len() && (forall|j: int|
                    0 <= j < pairs@.len() ==> mirrors(src, (#[trigger] pairs@[j]).0, dst, pairs2@[j].0)
                        && mirrors(src, pairs@[j].1, dst, pairs2@[j].1)),
                Cell::Reference { scheduler_id, number } => dst.cells@[q.index as int]
                    == (Cell::Reference { scheduler_id, number }),
                Cell::AnonymousClosure { module, index, old_unique, unique, arity, native, creator, env } => dst.cells@[q.index as int]
                    matches Cell::AnonymousClosure {
                    module: m2,
                    index: ix2,
                    old_unique: ou2,
                    unique: u2,
                    arity: a2,
                    native: n2,
                    creator: c2,
                    env: env2,
                } && m2 == module && ix2 == index && ou2 == old_unique && u2 == unique && a2
                    == arity && n2 == native && mirrors(src, creator, dst, c2) && env@.len()
                    == env2@.len() && (forall|j: int|
                    0 <= j < env@.len() ==> mirrors(src, #[trigger] env@[j], dst, env2@[j])),
                Cell::ExportClosure { module, function, arity, native } => dst.cells@[q.index as int]
                    == (Cell::ExportClosure { module, function, arity, native }),
                Cell::ExternalPid { node, number, serial } => dst.cells@[q.index as int]
                    == (Cell::ExternalPid { node, number, serial }),
                Cell::Resource { resource } => dst.cells@[q.index as int]
                    == (Cell::Resource { resource }),
                Cell::Reserved { words } => dst.cells@[q.index as int]
                    == (Cell::Reserved { words }),
            }
        },
        _ => r == t,
    }
}

/// Growing the destination heap preserves what its terms mirror.
pub proof fn lemma_mirrors_extends(
    src: ProcessHeap,
    t: Term,
    pre: ProcessHeap,
    post: ProcessHeap,
    r: Term,
)
    requires
        src.wf(),
        post.extends(pre),
        mirrors(src, t, pre, r),
    ensures
        mirrors(src, t, post, r),
    decreases (match t {
        Term::Boxed { ptr } => ptr.index as int + 1,
        _ => 0int,
    }),
{
    match t {
        Term::Boxed { ptr } => {
            let i = ptr.index as int;
            assert(src.cell_ok(src.cells@[i], i));
            match src.cells@[i] {
                Cell::Cons { head, tail } => {
                    match pre.cells@[r->ptr.index as int] {
                        Cell::Cons { head: head2, tail: tail2 } => {
                            lemma_mirrors_extends(src, head, pre, post, head2);
                            lemma_mirrors_extends(src, tail, pre, post, tail2);
                        },
                        _ => {},
                    }
                },
                Cell::Tuple { elements } => {
                    match pre.cells@[r->ptr.index as int] {
                        Cell::Tuple { elements: elements2 } => {
                            assert forall|j: int| 0 <= j < elements@.len() implies mirrors(
                                src,
                                #[trigger] elements@[j],
                                post,
                                elements2@[j],
                            ) by {
                                lemma_mirrors_extends(src, elements@[j], pre, post, elements2@[j]);
                            }
                        },
                        _ => {},
                    }
                },
                Cell::SubBinary { original, .. } => {
                    match pre.cells@[r->ptr.index as int] {
                        Cell::SubBinary { original: original2, .. } => {
                            lemma_mirrors_extends(src, original, pre, post, original2);
                        },
                        _ => {},
                    }
                },
                Cell::FlatMap { pairs } => {
                    match pre.cells@[r->ptr.index as int] {
                        Cell::FlatMap { pairs: pairs2 } => {
                            assert forall|j: int| 0 <= j < pairs@.len() implies mirrors(
                                src,
                                (#[trigger] pairs@[j]).0,
                                post,
                                pairs2@[j].0,
                            ) && mirrors(src, pairs@[j].1, post, pairs2@[j].1) by {
                                lemma_mirrors_extends(src, pairs@[j].0, pre, post, pairs2@[j].0);
                                lemma_mirrors_extends(src, pairs@[j].1, pre, post, pairs2@[j].1);
                            }
                        },
                        _ => {},
                    }
                },
                Cell::AnonymousClosure { creator, env, .. } => {
                    match pre.cells@[r->ptr.index as int] {
                        Cell::AnonymousClosure { creator: c2, env: env2, .. } => {
                            lemma_mirrors_extends(src, creator, pre, post, c2);
                            assert forall|j: int| 0 <= j < env@.len() implies mirrors(
                                src,
                                #[trigger] env@[j],
                                post,
                                env2@[j],
                            ) by {
                                lemma_mirrors_extends(src, env@[j], pre, post, env2@[j]);
                            }
                        },
                        _ => {},
                    }
                },
                _ => {},
            }
        },
        _ => {},
    }
}


impl ProcessHeap {
    /// Appends a heap-resident binary cell with the given classification.
    fn heapbin_push(&mut self, data: Vec<u8>, encoding: Encoding) -> (r: Result<Term, Alloc>)
        requires
            old(self).wf(),
            data@.len() / 8 + 3 <= usize::MAX,
        ensures
            final(self).wf(),
            final(self).same_config(*old(self)),
            match r {
                Ok(t) => {
                    &&& final(self).extends(*old(self))
                    &&& final(self).cells@.len() == old(self).cells@.len() + 1
                    &&& final(self).used_words == old(self).used_words + spec_words_for_bytes(
                        data@.len() as int,
                    )
                    &&& final(self).vheap@ == old(self).vheap@
                    &&& t == boxed(old(self).id, old(self).cells@.len() as usize)
                    &&& (final(self).cells@.last() matches Cell::HeapBinary {
                        bytes: b,
                        encoding: e,
                    } && b@ == data@ && e == encoding)
                },
                Err(_) => final(self).alloc_failed(
                    *old(self),
                    spec_words_for_bytes(data@.len() as int),
                ),
            },
    {
        let words = words_for_bytes(data.len());
        self.reserve(words, 0)?;
        let ptr = self.push_cell(Cell::HeapBinary { bytes: data, encoding });
        Ok(Term::Boxed { ptr })
    }
}




impl ProcessHeap {
    /// Deep-copies a term owned by another process's heap onto this one:
    /// the clone-to-heap operation behind message passing and the
    /// embedding of sub-results.  Immediates are copied by value; boxed
    /// payloads and their nested children are rebuilt here cell by cell.
    /// Off-heap binary buffers are the one shared structure: the copy
    /// takes a further reference to the very same buffer and records it in
    /// this heap's virtual binary heap.
    pub fn clone_term_from(&mut self, arena: &mut BinaryArena, src: &ProcessHeap, t: Term) -> (r:
        Result<Term, Alloc>)
        requires
            old(self).wf_with(*old(arena)),
            src.wf_with(*old(arena)),
            src.valid_term(t),
        ensures
            final(self).wf_with(*final(arena)),
            final(self).same_config(*old(self)),
            final(self).extends(*old(self)),
            arena_extends_bytes(*final(arena), *old(arena)),
            final(arena).buffers@.len() == old(arena).buffers@.len(),
            match r {
                Ok(rt) => mirrors(*src, t, *final(self), rt) && final(self).valid_term(rt)
                    && final(self).used_words == old(self).used_words + src.clone_words(t),
                Err(_) => old(self).used_words + src.clone_words(t) > old(self).max_words,
            },
        decreases (match t {
            Term::Boxed { ptr } => ptr.index as int + 1,
            _ => 0int,
        }), 1int,
    {
        let ix = match t {
            Term::Boxed { ptr } => ptr.index,
            _ => {
                return Ok(t);
            },
        };
        proof {
            assert(src.cell_ok(src.cells@[ix as int], ix as int));
            assert(src.cell_arena_ok(src.cells@[ix as int], *arena));
        }
        match &src.cells[ix] {
            Cell::Cons { .. } => self.clone_cons_cell(arena, src, ix),
            Cell::Tuple { .. } => self.clone_tuple_cell(arena, src, ix),
            Cell::SubBinary { .. } => self.clone_sub_binary_cell(arena, src, ix),
            Cell::FlatMap { .. } => self.clone_map_cell(arena, src, ix),
            Cell::AnonymousClosure { .. } => self.clone_closure_cell(arena, src, ix),
            Cell::HeapBinary { .. } => self.clone_heap_binary_cell(arena, src, ix),
            Cell::ProcBinRef { .. } => self.clone_procbin_cell(arena, src, ix),
            Cell::BigInteger { .. } => self.clone_big_integer_cell(arena, src, ix),
            Cell::Float { .. } => self.clone_leaf_cell(arena, src, ix),
            Cell::Reference { .. } => self.clone_leaf_cell(arena, src, ix),
            Cell::ExportClosure { .. } => self.clone_leaf_cell(arena, src, ix),
            Cell::ExternalPid { .. } => self.clone_leaf_cell(arena, src, ix),
            Cell::Resource { .. } => self.clone_leaf_cell(arena, src, ix),
            Cell::Reserved { .. } => self.clone_leaf_cell(arena, src, ix),
        }
    }

    /// Clones a cell that holds no term children: its fields are copied
    /// wholesale into a fresh cell here.
    fn clone_leaf_cell(&mut self, arena: &mut BinaryArena, src: &ProcessHeap, ix: usize) -> (r:
        Result<Term, Alloc>)
        requires
            old(self).wf_with(*old(arena)),
            src.wf(),
            ix < src.cells@.len(),
            src.cells@[ix as int] is Float || src.cells@[ix as int] is Reference
                || src.cells@[ix as int] is ExportClosure || src.cells@[ix as int] is ExternalPid
                || src.cells@[ix as int] is Resource || src.cells@[ix as int] is Reserved,
        ensures
            final(self).wf_with(*final(arena)),
            final(self).same_config(*old(self)),
            final(self).extends(*old(self)),
            arena_extends_bytes(*final(arena), *old(arena)),
            final(arena).buffers@.len() == old(arena).buffers@.len(),
            match r {
                Ok(rt) => mirrors(*src, boxed(src.id, ix), *final(self), rt) && final(self).valid_term(rt) && final(self).used_words == old(self).used_words
                    + src.clone_words(boxed(src.id, ix)),
                Err(_) => old(self).used_words + src.clone_words(boxed(src.id, ix)) > old(
                    self,
                ).max_words,
            },
    {
        match &src.cells[ix] {
            Cell::Float { bits } => {
                let bi = *bits;
                let base = self.cells.len();
                proof {
                    assert(old(self).cells@.len() == base);
                }
                let rt = self.float_from_bits(bi)?;
                proof {
                    assert(rt->ptr.index == base);
                    lemma_wf_with_plain_push(*old(self), *self, *arena);
                }
                Ok(rt)
            },
            Cell::Reference { scheduler_id, number } => {
                let (sid, num) = (*scheduler_id, *number);
                let base = self.cells.len();
                proof {
                    assert(old(self).cells@.len() == base);
                }
                let rt = self.reference(sid, num)?;
                proof {
                    assert(rt->ptr.index == base);
                    lemma_wf_with_plain_push(*old(self), *self, *arena);
                }
                Ok(rt)
            },
            Cell::ExportClosure { module, function, arity, native } => {
                let (m, f, a, n) = (*module, *function, *arity, *native);
                let base = self.cells.len();
                proof {
                    assert(old(self).cells@.len() == base);
                }
                let rt = self.export_closure(m, f, a, n)?;
                proof {
                    assert(rt->ptr.index == base);
                    lemma_wf_with_plain_push(*old(self), *self, *arena);
                }
                Ok(rt)
            },
            Cell::ExternalPid { node, number, serial } => {
                let (nd, num, ser) = (*node, *number, *serial);
                self.reserve(WORDS_EXTERNAL_PID, 0)?;
                let ghost m1 = *self;
                let base = self.cells.len();
                let ptr = self.push_cell(Cell::ExternalPid { node: nd, number: num, serial: ser });
                proof {
                    assert(ptr.index == base);
                    lemma_wf_with_plain_push(m1, *self, *arena);
                }
                Ok(Term::Boxed { ptr })
            },
            Cell::Resource { resource } => {
                let res = *resource;
                let base = self.cells.len();
                proof {
                    assert(old(self).cells@.len() == base);
                }
                let rt = self.resource(res)?;
                proof {
                    assert(rt->ptr.index == base);
                    lemma_wf_with_plain_push(*old(self), *self, *arena);
                }
                Ok(rt)
            },
            Cell::Reserved { words } => {
                let w = *words;
                let base = self.cells.len();
                proof {
                    assert(old(self).cells@.len() == base);
                }
                let ptr = self.alloc_words(w)?;
                proof {
                    assert(ptr.index == base);
                    lemma_wf_with_plain_push(*old(self), *self, *arena);
                }
                Ok(Term::Boxed { ptr })
            },
            _ => {
                proof {
                    assert(false);
                }
                Err(Alloc)
            },
        }
    }

    /// Clones the cons cell at `ix` of `src`.
    fn clone_cons_cell(&mut self, arena: &mut BinaryArena, src: &ProcessHeap, ix: usize) -> (r:
        Result<Term, Alloc>)
        requires
            old(self).wf_with(*old(arena)),
            src.wf_with(*old(arena)),
            ix < src.cells@.len(),
            src.cells@[ix as int] is Cons,
        ensures
            final(self).wf_with(*final(arena)),
            final(self).same_config(*old(self)),
            final(self).extends(*old(self)),
            arena_extends_bytes(*final(arena), *old(arena)),
            final(arena).buffers@.len() == old(arena).buffers@.len(),
            match r {
                Ok(rt) => mirrors(*src, boxed(src.id, ix), *final(self), rt) && final(self).valid_term(rt) && final(self).used_words == old(self).used_words
                    + src.clone_words(boxed(src.id, ix)),
                Err(_) => old(self).used_words + src.clone_words(boxed(src.id, ix)) > old(
                    self,
                ).max_words,
            },
        decreases ix as int + 1, 0int,
    {
        proof {
            assert(src.cell_ok(src.cells@[ix as int], ix as int));
        }
        let (head, tail): (Term, Term) = match &src.cells[ix] {
            Cell::Cons { head, tail } => (*head, *tail),
            _ => {
                proof {
                    assert(false);
                }
                (Term::Nil, Term::Nil)
            },
        };
        let head2 = match self.clone_term_from(arena, src, head) {
            Ok(v) => v,
            Err(e) => {
                proof {
                    lemma_clone_words_nonneg(*src, tail);
                }
                return Err(e);
            },
        };
        let ghost m1 = *self;
        let tail2 = match self.clone_term_from(arena, src, tail) {
            Ok(v) => v,
            Err(e) => {
                proof {
                    lemma_clone_words_nonneg(*src, head);
                }
                return Err(e);
            },
        };
        let ghost m2 = *self;
        let base = self.cells.len();
        proof {
            assert(m2.cells@.len() == base);
            lemma_mirrors_extends(*src, head, m1, m2, head2);
        }
        let rt = self.cons(head2, tail2)?;
        proof {
            assert(rt->ptr.index == base);
            lemma_mirrors_extends(*src, head, m2, *self, head2);
            lemma_mirrors_extends(*src, tail, m2, *self, tail2);
            lemma_wf_with_plain_push(m2, *self, *arena);
        }
        Ok(rt)
    }

    /// Clones the tuple cell at `ix` of `src`.
    fn clone_tuple_cell(&mut self, arena: &mut BinaryArena, src: &ProcessHeap, ix: usize) -> (r:
        Result<Term, Alloc>)
        requires
            old(self).wf_with(*old(arena)),
            src.wf_with(*old(arena)),
            ix < src.cells@.len(),
            src.cells@[ix as int] is Tuple,
        ensures
            final(self).wf_with(*final(arena)),
            final(self).same_config(*old(self)),
            final(self).extends(*old(self)),
            arena_extends_bytes(*final(arena), *old(arena)),
            final(arena).buffers@.len() == old(arena).buffers@.len(),
            match r {
                Ok(rt) => mirrors(*src, boxed(src.id, ix), *final(self), rt) && final(self).valid_term(rt) && final(self).used_words == old(self).used_words
                    + src.clone_words(boxed(src.id, ix)),
                Err(_) => old(self).used_words + src.clone_words(boxed(src.id, ix)) > old(
                    self,
                ).max_words,
            },
        decreases ix as int + 1, 0int,
    {
        proof {
            assert(src.cell_ok(src.cells@[ix as int], ix as int));
        }
        let cloned = match &src.cells[ix] {
            Cell::Tuple { elements } => self.clone_each(
                arena,
                src,
                elements.as_slice(),
                Ghost(ix as int),
            )?,
            _ => {
                proof {
                    assert(false);
                }
                Vec::new()
            },
        };
        let ghost m1 = *self;
        let base = self.cells.len();
        proof {
            assert(m1.cells@.len() == base);
        }
        let rt = self.tuple_from_slice(cloned.as_slice())?;
        proof {
            assert(rt->ptr.index == base);
            match src.cells@[ix as int] {
                Cell::Tuple { elements } => {
                    assert forall|j: int| 0 <= j < elements@.len() implies mirrors(
                        *src,
                        #[trigger] elements@[j],
                        *self,
                        cloned@[j],
                    ) by {
                        lemma_mirrors_extends(*src, elements@[j], m1, *self, cloned@[j]);
                    }
                },
                _ => {},
            }
            lemma_wf_with_plain_push(m1, *self, *arena);
        }
        Ok(rt)
    }

    /// Clones the sub-binary cell at `ix` of `src`: the view's original is
    /// cloned (or its buffer shared) and the same window is taken into it.
    fn clone_sub_binary_cell(
        &mut self,
        arena: &mut BinaryArena,
        src: &ProcessHeap,
        ix: usize,
    ) -> (r: Result<Term, Alloc>)
        requires
            old(self).wf_with(*old(arena)),
            src.wf_with(*old(arena)),
            ix < src.cells@.len(),
            src.cells@[ix as int] is SubBinary,
        ensures
            final(self).wf_with(*final(arena)),
            final(self).same_config(*old(self)),
            final(self).extends(*old(self)),
            arena_extends_bytes(*final(arena), *old(arena)),
            final(arena).buffers@.len() == old(arena).buffers@.len(),
            match r {
                Ok(rt) => mirrors(*src, boxed(src.id, ix), *final(self), rt) && final(self).valid_term(rt) && final(self).used_words == old(self).used_words
                    + src.clone_words(boxed(src.id, ix)),
                Err(_) => old(self).used_words + src.clone_words(boxed(src.id, ix)) > old(
                    self,
                ).max_words,
            },
        decreases ix as int + 1, 0int,
    {
        proof {
            assert(src.cell_ok(src.cells@[ix as int], ix as int));
            assert(src.cell_arena_ok(src.cells@[ix as int], *arena));
        }
        let (sb_original, bo, bi, fl, pl): (Term, usize, u8, usize, u8) = match &src.cells[ix] {
            Cell::SubBinary { original, byte_offset, bit_offset, full_byte_len, partial_byte_bit_len } => (
                *original,
                *byte_offset,
                *bit_offset,
                *full_byte_len,
                *partial_byte_bit_len,
            ),
            _ => {
                proof {
                    assert(false);
                }
                (Term::Nil, 0, 0, 0, 0)
            },
        };
        let orig2 = self.clone_term_from(arena, src, sb_original)?;
        let ghost m1 = *self;
        let base = self.cells.len();
        proof {
            assert(m1.cells@.len() == base);
            assert(mirrors(*src, sb_original, m1, orig2));
            assert(m1.is_binary_cell_ptr(orig2));
            assert(m1.heap_binary_bytes(*arena, orig2->ptr.index as int) == src.heap_binary_bytes(
                *arena,
                sb_original->ptr.index as int,
            ));
        }
        let rt = self.subbinary_from_original(arena, orig2, bo, bi, fl, pl)?;
        proof {
            assert(rt->ptr.index == base);
            lemma_mirrors_extends(*src, sb_original, m1, *self, orig2);
        }
        Ok(rt)
    }

    /// Clones the map cell at `ix` of `src`, pair by pair.
    fn clone_map_cell(&mut self, arena: &mut BinaryArena, src: &ProcessHeap, ix: usize) -> (r:
        Result<Term, Alloc>)
        requires
            old(self).wf_with(*old(arena)),
            src.wf_with(*old(arena)),
            ix < src.cells@.len(),
            src.cells@[ix as int] is FlatMap,
        ensures
            final(self).wf_with(*final(arena)),
            final(self).same_config(*old(self)),
            final(self).extends(*old(self)),
            arena_extends_bytes(*final(arena), *old(arena)),
            final(arena).buffers@.len() == old(arena).buffers@.len(),
            match r {
                Ok(rt) => mirrors(*src, boxed(src.id, ix), *final(self), rt) && final(self).valid_term(rt) && final(self).used_words == old(self).used_words
                    + src.clone_words(boxed(src.id, ix)),
                Err(_) => old(self).used_words + src.clone_words(boxed(src.id, ix)) > old(
                    self,
                ).max_words,
            },
        decreases ix as int + 1, 0int,
    {
        proof {
            assert(src.cell_ok(src.cells@[ix as int], ix as int));
        }
        let pairs: &Vec<(Term, Term)> = match &src.cells[ix] {
            Cell::FlatMap { pairs } => pairs,
            _ => {
                proof {
                    assert(false);
                }
                return Err(Alloc);
            },
        };
        let mut cloned: Vec<(Term, Term)> = Vec::new();
        let mut k: usize = 0;
        proof {
            assert(pairs@.skip(0) =~= pairs@);
        }
        while k < pairs.len()
            invariant
                src.wf_with(*arena),
                self.wf_with(*arena),
                self.same_config(*old(self)),
                self.extends(*old(self)),
                arena_extends_bytes(*arena, *old(arena)),
                arena.buffers@.len() == old(arena).buffers@.len(),
                src.wf(),
                ix < src.cells@.len(),
                src.cells@[ix as int] matches Cell::FlatMap { pairs: ps } && ps == pairs,
                src.cell_ok(src.cells@[ix as int], ix as int),
                k <= pairs@.len(),
                cloned@.len() == k,
                self.used_words == old(self).used_words + src.clone_words_pairs(pairs@, ix as int)
                    - src.clone_words_pairs(pairs@.skip(k as int), ix as int),
                forall|j: int|
                    0 <= j < k ==> mirrors(*src, (#[trigger] pairs@[j]).0, *self, cloned@[j].0)
                        && mirrors(*src, pairs@[j].1, *self, cloned@[j].1) && self.valid_term(
                        cloned@[j].0,
                    ) && self.valid_term(cloned@[j].1),
            decreases pairs@.len() - k,
        {
            let key = pairs[k].0;
            let value = pairs[k].1;
            proof {
                assert(src.term_below(pairs@[k as int].0, ix as int));
                assert(src.term_below(pairs@[k as int].1, ix as int));
                assert(src.term_below(key, ix as int));
                assert(src.term_below(value, ix as int));
            }
            proof {
                lemma_clone_words_pairs_skip(*src, pairs@, ix as int, k as int);
                assert forall|j: int| 0 <= j < pairs@.skip(k as int + 1).len() implies src
                    .term_below((#[trigger] pairs@.skip(k as int + 1)[j]).0, ix as int)
                    && src.term_below(pairs@.skip(k as int + 1)[j].1, ix as int) by {
                    assert(pairs@.skip(k as int + 1)[j] == pairs@[k + 1 + j]);
                }
                lemma_clone_words_pairs_nonneg(*src, pairs@.skip(k as int + 1), ix as int);
            }
            let ghost s0 = *self;
            let key2 = match self.clone_term_from(arena, src, key) {
                Ok(t2) => t2,
                Err(e) => {
                    proof {
                        lemma_clone_words_nonneg(*src, value);
                        lemma_clone_words_pairs_skip_le(*src, pairs@, ix as int, k as int);
                    }
                    return Err(e);
                },
            };
            let ghost s1 = *self;
            let value2 = match self.clone_term_from(arena, src, value) {
                Ok(t2) => t2,
                Err(e) => {
                    proof {
                        lemma_clone_words_nonneg(*src, key);
                        lemma_clone_words_pairs_skip_le(*src, pairs@, ix as int, k as int);
                    }
                    return Err(e);
                },
            };
            proof {
                lemma_mirrors_extends(*src, pairs@[k as int].0, s1, *self, key2);
                assert forall|j: int| 0 <= j < k implies mirrors(
                    *src,
                    (#[trigger] pairs@[j]).0,
                    *self,
                    cloned@[j].0,
                ) && mirrors(*src, pairs@[j].1, *self, cloned@[j].1) by {
                    lemma_mirrors_extends(*src, pairs@[j].0, s0, s1, cloned@[j].0);
                    lemma_mirrors_extends(*src, pairs@[j].0, s1, *self, cloned@[j].0);
                    lemma_mirrors_extends(*src, pairs@[j].1, s0, s1, cloned@[j].1);
                    lemma_mirrors_extends(*src, pairs@[j].1, s1, *self, cloned@[j].1);
                }
            }
            cloned.push((key2, value2));
            k = k + 1;
        }
        let ghost m1 = *self;
        let base = self.cells.len();
        proof {
            assert(m1.cells@.len() == base);
            assert(pairs@.skip(pairs@.len() as int) =~= Seq::<(Term, Term)>::empty());
            assert forall|j: int| 0 <= j < cloned@.len() implies self.valid_term(
                (#[trigger] cloned@[j]).0,
            ) && self.valid_term(cloned@[j].1) by {
                assert(src.term_below((#[trigger] pairs@[j]).0, ix as int));
            }
        }
        let rt = self.map_from_slice(cloned.as_slice())?;
        proof {
            assert(rt->ptr.index == base);
            assert forall|j: int| 0 <= j < pairs@.len() implies mirrors(
                *src,
                (#[trigger] pairs@[j]).0,
                *self,
                cloned@[j].0,
            ) && mirrors(*src, pairs@[j].1, *self, cloned@[j].1) by {
                lemma_mirrors_extends(*src, pairs@[j].0, m1, *self, cloned@[j].0);
                lemma_mirrors_extends(*src, pairs@[j].1, m1, *self, cloned@[j].1);
            }
            lemma_wf_with_plain_push(m1, *self, *arena);
        }
        Ok(rt)
    }

    /// Clones the anonymous-closure cell at `ix` of `src`: identity fields
    /// are copied, the creator and every captured value are cloned.
    fn clone_closure_cell(&mut self, arena: &mut BinaryArena, src: &ProcessHeap, ix: usize) -> (r:
        Result<Term, Alloc>)
        requires
            old(self).wf_with(*old(arena)),
            src.wf_with(*old(arena)),
            ix < src.cells@.len(),
            src.cells@[ix as int] is AnonymousClosure,
        ensures
            final(self).wf_with(*final(arena)),
            final(self).same_config(*old(self)),
            final(self).extends(*old(self)),
            arena_extends_bytes(*final(arena), *old(arena)),
            final(arena).buffers@.len() == old(arena).buffers@.len(),
            match r {
                Ok(rt) => mirrors(*src, boxed(src.id, ix), *final(self), rt) && final(self).valid_term(rt) && final(self).used_words == old(self).used_words
                    + src.clone_words(boxed(src.id, ix)),
                Err(_) => old(self).used_words + src.clone_words(boxed(src.id, ix)) > old(
                    self,
                ).max_words,
            },
        decreases ix as int + 1, 0int,
    {
        proof {
            assert(src.cell_ok(src.cells@[ix as int], ix as int));
        }
        let (m, i2, ou, u, a, n, sb_creator): (Atom, u32, u32, u64, u8, Option<Native>, Term) =
            match &src.cells[ix] {
            Cell::AnonymousClosure { module, index, old_unique, unique, arity, native, creator, .. } => (
                *module,
                *index,
                *old_unique,
                *unique,
                *arity,
                *native,
                *creator,
            ),
            _ => {
                proof {
                    assert(false);
                }
                return Err(Alloc);
            },
        };
        let creator2 = match self.clone_term_from(arena, src, sb_creator) {
            Ok(v) => v,
            Err(e) => {
                proof {
                    match src.cells@[ix as int] {
                        Cell::AnonymousClosure { env, .. } => {
                            lemma_clone_words_all_nonneg(*src, env@, ix as int);
                        },
                        _ => {},
                    }
                }
                return Err(e);
            },
        };
        let ghost m1 = *self;
        let env2 = match &src.cells[ix] {
            Cell::AnonymousClosure { env, .. } => match self.clone_each(
                arena,
                src,
                env.as_slice(),
                Ghost(ix as int),
            ) {
                Ok(v) => v,
                Err(e) => {
                    return Err(e);
                },
            },
            _ => {
                proof {
                    assert(false);
                }
                Vec::new()
            },
        };
        let ghost m2 = *self;
        let base = self.cells.len();
        proof {
            assert(m2.cells@.len() == base);
            lemma_mirrors_extends(*src, sb_creator, m1, m2, creator2);
        }
        let rt = self.anonymous_closure_with_env_from_slice(
            m,
            i2,
            ou,
            u,
            a,
            n,
            creator2,
            env2.as_slice(),
        )?;
        proof {
            assert(rt->ptr.index == base);
            lemma_mirrors_extends(*src, sb_creator, m2, *self, creator2);
            match src.cells@[ix as int] {
                Cell::AnonymousClosure { env, .. } => {
                    assert forall|j: int| 0 <= j < env@.len() implies mirrors(
                        *src,
                        #[trigger] env@[j],
                        *self,
                        env2@[j],
                    ) by {
                        lemma_mirrors_extends(*src, env@[j], m2, *self, env2@[j]);
                    }
                },
                _ => {},
            }
            lemma_wf_with_plain_push(m2, *self, *arena);
        }
        Ok(rt)
    }

    /// Deep-copies each term of a slice, in order.
    pub(crate) fn clone_each(
        &mut self,
        arena: &mut BinaryArena,
        src: &ProcessHeap,
        items: &[Term],
        bound: Ghost<int>,
    ) -> (r: Result<Vec<Term>, Alloc>)
        requires
            old(self).wf_with(*old(arena)),
            src.wf_with(*old(arena)),
            forall|j: int| 0 <= j < items@.len() ==> src.term_below(#[trigger] items@[j], bound@),
            0 <= bound@ <= src.cells@.len(),
        ensures
            final(self).wf_with(*final(arena)),
            final(self).same_config(*old(self)),
            final(self).extends(*old(self)),
            arena_extends_bytes(*final(arena), *old(arena)),
            final(arena).buffers@.len() == old(arena).buffers@.len(),
            match r {
                Ok(out) => {
                    &&& out@.len() == items@.len()
                    &&& forall|j: int|
                        0 <= j < items@.len() ==> mirrors(
                            *src,
                            #[trigger] items@[j],
                            *final(self),
                            out@[j],
                        )
                    &&& forall|j: int|
                        0 <= j < out@.len() ==> final(self).valid_term(#[trigger] out@[j])
                    &&& final(self).used_words == old(self).used_words + src.clone_words_all(
                        items@,
                        bound@,
                    )
                },
                Err(_) => old(self).used_words + src.clone_words_all(items@, bound@) > old(
                    self,
                ).max_words,
            },
        decreases bound@, 2int,
    {
        let mut out: Vec<Term> = Vec::new();
        let mut k: usize = 0;
        proof {
            assert(items@.skip(0) =~= items@);
        }
        while k < items.len()
            invariant
                src.wf_with(*arena),
                self.wf_with(*arena),
                self.same_config(*old(self)),
                self.extends(*old(self)),
                arena_extends_bytes(*arena, *old(arena)),
                arena.buffers@.len() == old(arena).buffers@.len(),
                forall|j: int|
                    0 <= j < items@.len() ==> src.term_below(#[trigger] items@[j], bound@),
                0 <= bound@ <= src.cells@.len(),
                k <= items@.len(),
                out@.len() == k,
                self.used_words == old(self).used_words + src.clone_words_all(items@, bound@)
                    - src.clone_words_all(items@.skip(k as int), bound@),
                forall|j: int|
                    0 <= j < k ==> mirrors(*src, #[trigger] items@[j], *self, out@[j])
                        && self.valid_term(out@[j]),
            decreases items@.len() - k,
        {
            let item = items[k];
            proof {
                assert(src.term_below(items@[k as int], bound@));
                assert(src.term_below(item, bound@));
                assert(match item {
                    Term::Boxed { ptr } => ptr.index as int + 1 <= bound@,
                    _ => true,
                });
                lemma_clone_words_all_skip(*src, items@, bound@, k as int);
            }
            let ghost s0 = *self;
            let cloned = match self.clone_term_from(arena, src, item) {
                Ok(t2) => t2,
                Err(e) => {
                    proof {
                        assert forall|j: int| 0 <= j < items@.skip(k as int + 1).len() implies src
                            .term_below(#[trigger] items@.skip(k as int + 1)[j], bound@) by {
                            assert(items@.skip(k as int + 1)[j] == items@[k + 1 + j]);
                        }
                        lemma_clone_words_all_nonneg(*src, items@.skip(k as int + 1), bound@);
                        lemma_clone_words_all_skip_le(*src, items@, bound@, k as int);
                    }
                    return Err(e);
                },
            };
            proof {
                assert forall|j: int| 0 <= j < k implies mirrors(
                    *src,
                    #[trigger] items@[j],
                    *self,
                    out@[j],
                ) by {
                    lemma_mirrors_extends(*src, items@[j], s0, *self, out@[j]);
                }
            }
            out.push(cloned);
            k = k + 1;
        }
        proof {
            assert(items@.skip(items@.len() as int) =~= Seq::<Term>::empty());
            assert forall|j: int| 0 <= j < out@.len() implies self.valid_term(
                #[trigger] out@[j],
            ) by {
                assert(mirrors(*src, items@[j], *self, out@[j]));
            }
        }
        Ok(out)
    }
}


impl ProcessHeap {
    /// Clones the heap-resident binary cell at `ix` of `src`: its bytes
    /// are copied wholesale.
    fn clone_heap_binary_cell(
        &mut self,
        arena: &mut BinaryArena,
        src: &ProcessHeap,
        ix: usize,
    ) -> (r: Result<Term, Alloc>)
        requires
            old(self).wf_with(*old(arena)),
            src.wf(),
            ix < src.cells@.len(),
            src.cells@[ix as int] is HeapBinary,
        ensures
            final(self).wf_with(*final(arena)),
            final(self).same_config(*old(self)),
            final(self).extends(*old(self)),
            arena_extends_bytes(*final(arena), *old(arena)),
            final(arena).buffers@.len() == old(arena).buffers@.len(),
            match r {
                Ok(rt) => mirrors(*src, boxed(src.id, ix), *final(self), rt) && final(self).valid_term(rt) && final(self).used_words == old(self).used_words
                    + src.clone_words(boxed(src.id, ix)),
                Err(_) => old(self).used_words + src.clone_words(boxed(src.id, ix)) > old(
                    self,
                ).max_words,
            },
    {
        let (data, enc): (Vec<u8>, Encoding) = match &src.cells[ix] {
            Cell::HeapBinary { bytes, encoding } => (
                vstd::slice::slice_to_vec(bytes.as_slice()),
                *encoding,
            ),
            _ => {
                proof {
                    assert(false);
                }
                return Err(Alloc);
            },
        };
        let nlen = data.len();
        let ghost m1 = *self;
        let base = self.cells.len();
        proof {
            assert(data@.len() == nlen);
        }
        let rt = self.heapbin_push(data, enc)?;
        proof {
            assert(rt->ptr.index == base);
            lemma_wf_with_plain_push(m1, *self, *arena);
        }
        Ok(rt)
    }

    /// Clones the off-heap reference cell at `ix` of `src`: the buffer is
    /// shared, its reference count raised, and the copy recorded in this
    /// heap's virtual binary heap.
    fn clone_procbin_cell(&mut self, arena: &mut BinaryArena, src: &ProcessHeap, ix: usize) -> (r:
        Result<Term, Alloc>)
        requires
            old(self).wf_with(*old(arena)),
            src.wf_with(*old(arena)),
            ix < src.cells@.len(),
            src.cells@[ix as int] is ProcBinRef,
        ensures
            final(self).wf_with(*final(arena)),
            final(self).same_config(*old(self)),
            final(self).extends(*old(self)),
            arena_extends_bytes(*final(arena), *old(arena)),
            final(arena).buffers@.len() == old(arena).buffers@.len(),
            match r {
                Ok(rt) => mirrors(*src, boxed(src.id, ix), *final(self), rt) && final(self).valid_term(rt) && final(self).used_words == old(self).used_words
                    + src.clone_words(boxed(src.id, ix)),
                Err(_) => old(self).used_words + src.clone_words(boxed(src.id, ix)) > old(
                    self,
                ).max_words,
            },
    {
        proof {
            assert(src.cell_arena_ok(src.cells@[ix as int], *old(arena)));
        }
        let b: usize = match &src.cells[ix] {
            Cell::ProcBinRef { buffer } => *buffer,
            _ => {
                proof {
                    assert(false);
                }
                return Err(Alloc);
            },
        };
        self.reserve(WORDS_PROCBIN, 0)?;
        arena.retain(b);
        let ghost m1 = *self;
        let base = self.cells.len();
        let ptr = self.push_cell(Cell::ProcBinRef { buffer: b });
        self.vheap.push(b);
        proof {
            assert(ptr.index == base);
            assert(self.wf());
            assert forall|j: int| 0 <= j < self.vheap@.len() implies #[trigger] self.vheap@[j]
                < arena.buffers@.len() by {
                if j < m1.vheap@.len() {
                    assert(m1.vheap@[j] < old(arena).buffers@.len());
                }
            }
            assert forall|i: int| 0 <= i < self.cells@.len() implies self.cell_arena_ok(
                #[trigger] self.cells@[i],
                *arena,
            ) by {
                if i < m1.cells@.len() {
                    assert(m1.cell_arena_ok(m1.cells@[i], *old(arena)));
                }
            }
        }
        Ok(Term::Boxed { ptr })
    }

    /// Clones the big-integer cell at `ix` of `src`.
    fn clone_big_integer_cell(
        &mut self,
        arena: &mut BinaryArena,
        src: &ProcessHeap,
        ix: usize,
    ) -> (r: Result<Term, Alloc>)
        requires
            old(self).wf_with(*old(arena)),
            src.wf(),
            ix < src.cells@.len(),
            src.cells@[ix as int] is BigInteger,
        ensures
            final(self).wf_with(*final(arena)),
            final(self).same_config(*old(self)),
            final(self).extends(*old(self)),
            arena_extends_bytes(*final(arena), *old(arena)),
            final(arena).buffers@.len() == old(arena).buffers@.len(),
            match r {
                Ok(rt) => mirrors(*src, boxed(src.id, ix), *final(self), rt) && final(self).valid_term(rt) && final(self).used_words == old(self).used_words
                    + src.clone_words(boxed(src.id, ix)),
                Err(_) => old(self).used_words + src.clone_words(boxed(src.id, ix)) > old(
                    self,
                ).max_words,
            },
    {
        let big2 = match &src.cells[ix] {
            Cell::BigInteger { big } => crate::bigint::big_clone(big),
            _ => {
                proof {
                    assert(false);
                }
                return Err(Alloc);
            },
        };
        self.reserve(WORDS_BIGINT, 0)?;
        let ghost m1 = *self;
        let base = self.cells.len();
        let ptr = self.push_cell(Cell::BigInteger { big: big2 });
        proof {
            assert(ptr.index == base);
            lemma_wf_with_plain_push(m1, *self, *arena);
        }
        Ok(Term::Boxed { ptr })
    }
}


impl ProcessHeap {
    /// The words a faithful copy of `t` takes on a destination heap: the
    /// cell costs of the term and all its nested children (an off-heap
    /// buffer is shared, so only its header is counted).
    pub open spec fn clone_words(self, t: Term) -> int
        decreases (match t {
            Term::Boxed { ptr } => ptr.index as int + 1,
            _ => 0int,
        }), 0int, 0int,
        when self.wf()
    {
        match t {
            Term::Boxed { ptr } => {
                if ptr.heap_id == self.id && ptr.index < self.cells@.len() {
                    match self.cells@[ptr.index as int] {
                        Cell::Cons { head, tail } => WORDS_CONS + self.clone_words(head)
                            + self.clone_words(tail),
                        Cell::Tuple { elements } => 1 + elements@.len() + self.clone_words_all(
                            elements@,
                            ptr.index as int,
                        ),
                        Cell::HeapBinary { bytes, .. } => spec_words_for_bytes(
                            bytes@.len() as int,
                        ),
                        Cell::ProcBinRef { .. } => WORDS_PROCBIN as int,
                        Cell::SubBinary { original, .. } => WORDS_SUBBINARY + self.clone_words(
                            original,
                        ),
                        Cell::BigInteger { .. } => WORDS_BIGINT as int,
                        Cell::Float { .. } => WORDS_FLOAT as int,
                        Cell::FlatMap { pairs } => 1 + 2 * pairs@.len() + self.clone_words_pairs(
                            pairs@,
                            ptr.index as int,
                        ),
                        Cell::Reference { .. } => WORDS_REFERENCE as int,
                        Cell::AnonymousClosure { creator, env, .. } => WORDS_CLOSURE_BASE
                            + env@.len() + self.clone_words(creator) + self.clone_words_all(
                            env@,
                            ptr.index as int,
                        ),
                        Cell::ExportClosure { .. } => WORDS_CLOSURE_BASE as int,
                        Cell::ExternalPid { .. } => WORDS_EXTERNAL_PID as int,
                        Cell::Resource { .. } => WORDS_RESOURCE as int,
                        Cell::Reserved { words } => words as int,
                    }
                } else {
                    0
                }
            },
            _ => 0,
        }
    }

    /// The summed copy cost of a sequence of terms, each referencing cells
    /// strictly below `bound`.
    pub open spec fn clone_words_all(self, items: Seq<Term>, bound: int) -> int
        decreases bound, 1int, items.len(),
        when self.wf() && 0 <= bound && (forall|j: int|
            0 <= j < items.len() ==> self.term_below(#[trigger] items[j], bound))
    {
        if items.len() == 0 {
            0
        } else {
            self.clone_words(items[0]) + self.clone_words_all(items.drop_first(), bound)
        }
    }

    /// The summed copy cost of a sequence of key/value pairs.
    pub open spec fn clone_words_pairs(self, pairs: Seq<(Term, Term)>, bound: int) -> int
        decreases bound, 1int, pairs.len(),
        when self.wf() && 0 <= bound && (forall|j: int|
            0 <= j < pairs.len() ==> self.term_below((#[trigger] pairs[j]).0, bound)
                && self.term_below(pairs[j].1, bound))
    {
        if pairs.len() == 0 {
            0
        } else {
            self.clone_words(pairs[0].0) + self.clone_words(pairs[0].1) + self.clone_words_pairs(
                pairs.drop_first(),
                bound,
            )
        }
    }
}

/// Copy costs are never negative.
proof fn lemma_clone_words_nonneg(src: ProcessHeap, t: Term)
    requires
        src.wf(),
    ensures
        src.clone_words(t) >= 0,
    decreases (match t {
        Term::Boxed { ptr } => ptr.index as int + 1,
        _ => 0int,
    }), 0int, 0int,
{
    match t {
        Term::Boxed { ptr } => {
            if ptr.heap_id == src.id && ptr.index < src.cells@.len() {
                let i = ptr.index as int;
                assert(src.cell_ok(src.cells@[i], i));
                match src.cells@[i] {
                    Cell::Cons { head, tail } => {
                        lemma_clone_words_nonneg(src, head);
                        lemma_clone_words_nonneg(src, tail);
                    },
                    Cell::Tuple { elements } => {
                        lemma_clone_words_all_nonneg(src, elements@, i);
                    },
                    Cell::SubBinary { original, .. } => {
                        lemma_clone_words_nonneg(src, original);
                    },
                    Cell::FlatMap { pairs } => {
                        lemma_clone_words_pairs_nonneg(src, pairs@, i);
                    },
                    Cell::AnonymousClosure { creator, env, .. } => {
                        lemma_clone_words_nonneg(src, creator);
                        lemma_clone_words_all_nonneg(src, env@, i);
                    },
                    _ => {},
                }
            }
        },
        _ => {},
    }
}

/// Summed copy costs are never negative.
pub(crate) proof fn lemma_clone_words_all_nonneg(src: ProcessHeap, items: Seq<Term>, bound: int)
    requires
        src.wf(),
        0 <= bound,
        forall|j: int| 0 <= j < items.len() ==> src.term_below(#[trigger] items[j], bound),
    ensures
        src.clone_words_all(items, bound) >= 0,
    decreases bound, 1int, items.len(),
{
    if items.len() > 0 {
        lemma_clone_words_nonneg(src, items[0]);
        lemma_clone_words_all_nonneg(src, items.drop_first(), bound);
    }
}

/// Summed pair copy costs are never negative.
proof fn lemma_clone_words_pairs_nonneg(src: ProcessHeap, pairs: Seq<(Term, Term)>, bound: int)
    requires
        src.wf(),
        0 <= bound,
        forall|j: int|
            0 <= j < pairs.len() ==> src.term_below((#[trigger] pairs[j]).0, bound)
                && src.term_below(pairs[j].1, bound),
    ensures
        src.clone_words_pairs(pairs, bound) >= 0,
    decreases bound, 1int, pairs.len(),
{
    if pairs.len() > 0 {
        lemma_clone_words_nonneg(src, pairs[0].0);
        lemma_clone_words_nonneg(src, pairs[0].1);
        lemma_clone_words_pairs_nonneg(src, pairs.drop_first(), bound);
    }
}


/// One step of the summed copy cost over a suffix.
proof fn lemma_clone_words_all_skip(src: ProcessHeap, items: Seq<Term>, bound: int, k: int)
    requires
        src.wf(),
        0 <= bound,
        forall|j: int| 0 <= j < items.len() ==> src.term_below(#[trigger] items[j], bound),
        0 <= k < items.len(),
    ensures
        src.clone_words_all(items.skip(k), bound) == src.clone_words(items[k])
            + src.clone_words_all(items.skip(k + 1), bound),
{
    assert forall|j: int| 0 <= j < items.skip(k).len() implies src.term_below(
        #[trigger] items.skip(k)[j],
        bound,
    ) by {
        assert(items.skip(k)[j] == items[k + j]);
    }
    assert(items.skip(k).drop_first() =~= items.skip(k + 1));
    assert(items.skip(k)[0] == items[k]);
}

/// One step of the summed pair copy cost over a suffix.
proof fn lemma_clone_words_pairs_skip(
    src: ProcessHeap,
    pairs: Seq<(Term, Term)>,
    bound: int,
    k: int,
)
    requires
        src.wf(),
        0 <= bound,
        forall|j: int|
            0 <= j < pairs.len() ==> src.term_below((#[trigger] pairs[j]).0, bound)
                && src.term_below(pairs[j].1, bound),
        0 <= k < pairs.len(),
    ensures
        src.clone_words_pairs(pairs.skip(k), bound) == src.clone_words(pairs[k].0)
            + src.clone_words(pairs[k].1) + src.clone_words_pairs(pairs.skip(k + 1), bound),
{
    assert forall|j: int| 0 <= j < pairs.skip(k).len() implies src.term_below(
        (#[trigger] pairs.skip(k)[j]).0,
        bound,
    ) && src.term_below(pairs.skip(k)[j].1, bound) by {
        assert(pairs.skip(k)[j] == pairs[k + j]);
    }
    assert(pairs.skip(k).drop_first() =~= pairs.skip(k + 1));
    assert(pairs.skip(k)[0] == pairs[k]);
}

/// A suffix's summed copy cost never exceeds the whole sequence's.
proof fn lemma_clone_words_all_skip_le(src: ProcessHeap, items: Seq<Term>, bound: int, k: int)
    requires
        src.wf(),
        0 <= bound,
        forall|j: int| 0 <= j < items.len() ==> src.term_below(#[trigger] items[j], bound),
        0 <= k <= items.len(),
    ensures
        src.clone_words_all(items.skip(k), bound) <= src.clone_words_all(items, bound),
    decreases k,
{
    if k == 0 {
        assert(items.skip(0) =~= items);
    } else {
        lemma_clone_words_all_skip_le(src, items, bound, k - 1);
        lemma_clone_words_all_skip(src, items, bound, k - 1);
        lemma_clone_words_nonneg(src, items[k - 1]);
    }
}

/// A suffix's summed pair copy cost never exceeds the whole sequence's.
proof fn lemma_clone_words_pairs_skip_le(
    src: ProcessHeap,
    pairs: Seq<(Term, Term)>,
    bound: int,
    k: int,
)
    requires
        src.wf(),
        0 <= bound,
        forall|j: int|
            0 <= j < pairs.len() ==> src.term_below((#[trigger] pairs[j]).0, bound)
                && src.term_below(pairs[j].1, bound),
        0 <= k <= pairs.len(),
    ensures
        src.clone_words_pairs(pairs.skip(k), bound) <= src.clone_words_pairs(pairs, bound),
    decreases k,
{
    if k == 0 {
        assert(pairs.skip(0) =~= pairs);
    } else {
        lemma_clone_words_pairs_skip_le(src, pairs, bound, k - 1);
        lemma_clone_words_pairs_skip(src, pairs, bound, k - 1);
        lemma_clone_words_nonneg(src, pairs[k - 1].0);
        lemma_clone_words_nonneg(src, pairs[k - 1].1);
    }
}


/// Immediate values cost nothing to copy.
pub(crate) proof fn lemma_clone_words_all_immediates(
    src: ProcessHeap,
    items: Seq<Term>,
    bound: int,
)
    requires
        src.wf(),
        0 <= bound,
        forall|j: int| 0 <= j < items.len() ==> !((#[trigger] items[j]) is Boxed),
    ensures
        src.clone_words_all(items, bound) == 0,
    decreases items.len(),
{
    assert forall|j: int| 0 <= j < items.len() implies src.term_below(
        #[trigger] items[j],
        bound,
    ) by {}
    if items.len() > 0 {
        assert forall|j: int| 0 <= j < items.drop_first().len() implies !((
        #[trigger] items.drop_first()[j]) is Boxed) by {
            assert(items.drop_first()[j] == items[j + 1]);
        }
        lemma_clone_words_all_immediates(src, items.drop_first(), bound);
        assert(src.clone_words(items[0]) == 0);
    }
}

} // verus!
