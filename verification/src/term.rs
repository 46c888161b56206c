//! The tagged-term data model: immediate values (small integers, atoms, the
//! empty list, local pids) are carried inline; everything else is a boxed
//! reference into the owning process heap.

use vstd::prelude::*;

verus! {

// Identifiers of the atoms the core itself relies on.  Atoms are interned
// names; distinct identifiers stand for distinct names.
pub const ATOM_ERROR: u64 = 1;
pub const ATOM_EXIT: u64 = 2;
pub const ATOM_THROW: u64 = 3;
pub const ATOM_BADARG: u64 = 4;
pub const ATOM_BADARITH: u64 = 5;
pub const ATOM_BADARITY: u64 = 6;
pub const ATOM_BADFUN: u64 = 7;
pub const ATOM_BADKEY: u64 = 8;
pub const ATOM_BADMAP: u64 = 9;
pub const ATOM_UNDEF: u64 = 10;
pub const ATOM_NORMAL: u64 = 11;
pub const ATOM_SECOND: u64 = 12;
pub const ATOM_SECONDS: u64 = 13;
pub const ATOM_MILLISECOND: u64 = 14;
pub const ATOM_MILLI_SECONDS: u64 = 15;
pub const ATOM_MICROSECOND: u64 = 16;
pub const ATOM_MICRO_SECONDS: u64 = 17;
pub const ATOM_NANOSECOND: u64 = 18;
pub const ATOM_NANO_SECONDS: u64 = 19;
pub const ATOM_NATIVE: u64 = 20;
pub const ATOM_PERF_COUNTER: u64 = 21;
pub const ATOM_ERLANG: u64 = 22;
pub const ATOM_APPLY: u64 = 23;
pub const ATOM_UNDEFINED: u64 = 24;
pub const ATOM_VALUE: u64 = 25;
pub const ATOM_KILLED: u64 = 26;

/// Smallest value representable as an immediate small integer: -(2^59).
pub const MIN_SMALL: i64 = -576460752303423488;
/// Largest value representable as an immediate small integer: 2^59 - 1.
pub const MAX_SMALL: i64 = 576460752303423487;

/// An interned name, identified by its table index.
#[derive(Clone, Copy, Debug, PartialEq, Eq, Structural)]
pub struct Atom {
    pub id: u64,
}

impl Atom {
    pub fn from_id(id: u64) -> (a: Atom)
        ensures
            a.id == id,
    {
        Atom { id }
    }
}

/// A reference to a boxed value: the identity of the owning heap and the
/// cell index within it.
#[derive(Clone, Copy, Debug, PartialEq, Eq, Structural)]
pub struct HeapPtr {
    pub heap_id: u64,
    pub index: usize,
}

/// A term: a tagged word.  Immediate variants carry their payload inline;
/// `Boxed` carries a reference to a heap cell holding the payload.
#[derive(Clone, Copy, Debug, PartialEq, Eq, Structural)]
pub enum Term {
    SmallInteger { value: i64 },
    Atom { atom: Atom },
    Nil,
    Pid { number: u64, serial: u64 },
    Boxed { ptr: HeapPtr },
}

/// Whether `v` fits the immediate small-integer range.
pub open spec fn spec_is_small(v: int) -> bool {
    MIN_SMALL <= v <= MAX_SMALL
}

impl Term {
    /// The immediate atom term with identifier `id`.
    pub fn atom_from_id(id: u64) -> (t: Term)
        ensures
            t == (Term::Atom { atom: Atom { id } }),
    {
        Term::Atom { atom: Atom { id } }
    }

    pub open spec fn spec_is_atom(self) -> bool {
        self is Atom
    }

    pub open spec fn spec_atom_id(self) -> u64
        recommends
            self.spec_is_atom(),
    {
        self->atom.id
    }

    pub open spec fn spec_is_boxed(self) -> bool {
        self is Boxed
    }

    pub fn is_atom(&self) -> (r: bool)
        ensures
            r == self.spec_is_atom(),
    {
        matches!(self, Term::Atom { .. })
    }
}

/// The (module, function, arity) identity of an executable unit.
#[derive(Clone, Copy, Debug, PartialEq, Eq, Structural)]
pub struct ModuleFunctionArity {
    pub module: Atom,
    pub function: Atom,
    pub arity: u8,
}

} // verus!
