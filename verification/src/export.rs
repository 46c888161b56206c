//! The code table: a registry mapping a (module, function, arity) triple to
//! the continuation that implements it.  Lookups are total — absence is the
//! expected "not loaded" signal, which callers turn into an `undef`
//! exception; the table itself never raises.
//!
//! The backing store is `hashbrown`'s hash map, keyed by the triple's plain
//! integer components; it is trusted only through the contracts below.  The
//! map type itself cannot be declared to the verifier: its hasher and
//! allocator parameters are bounded by a trait that `hashbrown` does not
//! export, so the table holds it opaquely instead.

use vstd::prelude::*;
use crate::code::Native;
use crate::term::Atom;

verus! {

/// The backing hash map, opaque to verification; `export_entries` names
/// what it holds.
#[verifier::external_body]
pub struct ExportTable {
    map: hashbrown::HashMap<(u64, u64, u8), Native>,
}

/// The bindings held by an export table.
pub uninterp spec fn export_entries(t: ExportTable) -> Map<(u64, u64, u8), Native>;

impl ExportTable {
    /// Relies on `hashbrown::HashMap::new`: the fresh map holds nothing.
    #[verifier::external_body]
    pub(crate) fn new() -> (table: ExportTable)
        ensures
            forall|key: (u64, u64, u8)| !export_entries(table).contains_key(key),
    {
        ExportTable { map: hashbrown::HashMap::new() }
    }

    /// Relies on `hashbrown::HashMap::get` with the total `Hash`/`Eq` of
    /// plain integer triples: returns the held binding exactly when the
    /// key is bound.
    #[verifier::external_body]
    fn map_get(&self, key: (u64, u64, u8)) -> (r: Option<Native>)
        ensures
            r == if export_entries(*self).contains_key(key) {
                Some(export_entries(*self)[key])
            } else {
                None::<Native>
            },
    {
        self.map.get(&key).copied()
    }

    /// Relies on `hashbrown::HashMap::insert`: the key is bound to the
    /// given value, all other bindings kept (the last writer wins).
    #[verifier::external_body]
    fn map_insert(&mut self, key: (u64, u64, u8), native: Native)
        ensures
            export_entries(*final(self)) == export_entries(*old(self)).insert(key, native),
    {
        self.map.insert(key, native);
    }

    /// Looks a triple up.  Total: `None` is the expected outcome for a
    /// triple never inserted (or not inserted since), never a fault.
    pub fn get(&self, module: Atom, function: Atom, arity: u8) -> (r: Option<Native>)
        ensures
            r == if export_entries(*self).contains_key((module.id, function.id, arity)) {
                Some(export_entries(*self)[(module.id, function.id, arity)])
            } else {
                None::<Native>
            },
    {
        self.map_get((module.id, function.id, arity))
    }

    /// Registers (or overwrites) the continuation for a triple; the last
    /// writer wins.
    pub fn insert(&mut self, module: Atom, function: Atom, arity: u8, native: Native)
        ensures
            export_entries(*final(self)) == export_entries(*old(self)).insert(
                (module.id, function.id, arity),
                native,
            ),
    {
        self.map_insert((module.id, function.id, arity), native)
    }
}

/// Inserting a continuation at one triple binds exactly that triple: the
/// binding read back is the one inserted, and every other triple is
/// unchanged.
pub proof fn lemma_insert_get(
    pre: ExportTable,
    post: ExportTable,
    module: Atom,
    function: Atom,
    arity: u8,
    native: Native,
    other: (u64, u64, u8),
)
    requires
        export_entries(post) == export_entries(pre).insert(
            (module.id, function.id, arity),
            native,
        ),
    ensures
        export_entries(post).contains_key((module.id, function.id, arity)),
        export_entries(post)[(module.id, function.id, arity)] == native,
        other != (module.id, function.id, arity) ==> export_entries(post).contains_key(other)
            == export_entries(pre).contains_key(other),
        other != (module.id, function.id, arity) && export_entries(pre).contains_key(other)
            ==> export_entries(post)[other] == export_entries(pre)[other],
{
}

} // verus!
