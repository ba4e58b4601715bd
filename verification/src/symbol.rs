//! The symbol table: interns names to stable, dense integer ids and stores
//! each symbol's kind.
//!
//! Interning is idempotent and append-only: a key is mapped at most once,
//! ids are assigned in insertion order and are never reused or removed.

use vstd::prelude::*;

use crate::builtin::Builtin;
use crate::text::str_eq;
use crate::VmError;

verus! {

pub type SymbolId = usize;

/// The declared stack effect of a user function.
#[derive(Debug, Clone)]
pub struct StackEffect {
    pub inputs: Vec<String>,
    pub outputs: Vec<String>,
}

/// A user-defined function; declared in the taxonomy, not yet reachable
/// through any insertion protocol.
#[derive(Debug, Clone)]
#[allow(dead_code)]
pub struct FunctionDef {
    symbol: SymbolId,
    stack_effect: StackEffect,
    body: Vec<SymbolId>,
    inline: bool,
    recursive: bool,
}

#[derive(Debug, Clone)]
pub enum SymbolKind {
    Builtin(Builtin),
    Function(FunctionDef),
    Macro,
    ReaderMacro,
}

/// One interned symbol: its display identifier and its kind.
#[derive(Debug)]
pub struct Symbol {
    pub identifier: String,
    pub kind: SymbolKind,
}

/// First id mapped to `key` in `m` at or after position `j`.
pub open spec fn lookup_from(m: Seq<(String, SymbolId)>, key: Seq<char>, j: int) -> Option<
    SymbolId,
>
    decreases m.len() - j,
{
    if j < 0 || j >= m.len() {
        None
    } else if m[j].0@ == key {
        Some(m[j].1)
    } else {
        lookup_from(m, key, j + 1)
    }
}

/// A missed lookup means no entry from `j` on carries the key; a hit names
/// an entry that does.
pub proof fn lemma_lookup_from(m: Seq<(String, SymbolId)>, key: Seq<char>, j: int)
    requires
        0 <= j <= m.len(),
    ensures
        match lookup_from(m, key, j) {
            None => forall|i: int| j <= i < m.len() ==> (#[trigger] m[i]).0@ != key,
            Some(v) => exists|i: int| j <= i < m.len() && (#[trigger] m[i]).0@ == key && m[i].1
                == v,
        },
    decreases m.len() - j,
{
    if j < m.len() {
        lemma_lookup_from(m, key, j + 1);
    }
}

/// Looking a key up in an extended table: hits are preserved, and a miss
/// finds exactly the appended entry.
pub proof fn lemma_lookup_from_push(
    m: Seq<(String, SymbolId)>,
    entry: (String, SymbolId),
    key: Seq<char>,
    j: int,
)
    requires
        0 <= j <= m.len(),
    ensures
        lookup_from(m.push(entry), key, j) == match lookup_from(m, key, j) {
            Some(v) => Some(v),
            None => if entry.0@ == key {
                Some(entry.1)
            } else {
                None
            },
        },
    decreases m.len() - j,
{
    let mp = m.push(entry);
    assert(mp.len() == m.len() + 1);
    if j < m.len() {
        assert(mp[j] == m[j]);
        lemma_lookup_from_push(m, entry, key, j + 1);
    } else {
        assert(mp[j] == entry);
        assert(lookup_from(mp, key, j + 1) == None::<SymbolId>);
    }
}

/// Interns names to ids; `table` is indexed by id, `mappings` pairs each
/// interning key with the id it was assigned.
pub struct SymbolStorage {
    table: Vec<Symbol>,
    mappings: Vec<(String, SymbolId)>,
}

impl SymbolStorage {
    /// The symbols interned so far, in id order.
    pub closed spec fn spec_table(self) -> Seq<Symbol> {
        self.table@
    }

    /// The id a key is interned under, if any.
    pub closed spec fn spec_lookup(self, key: Seq<char>) -> Option<SymbolId> {
        lookup_from(self.mappings@, key, 0)
    }

    /// Each key is mapped at most once, to the id matching its insertion
    /// rank, and every id names a table entry.
    pub closed spec fn wf(self) -> bool {
        &&& self.mappings@.len() == self.table@.len()
        &&& forall|i: int|
            0 <= i < self.mappings@.len() ==> (#[trigger] self.mappings@[i]).1 == i
        &&& forall|i: int, j: int|
            0 <= i < j < self.mappings@.len() ==> (#[trigger] self.mappings@[i]).0@ != (
            #[trigger] self.mappings@[j]).0@
    }

    /// A successful lookup always names a live table entry.
    pub proof fn lemma_lookup_in_table(self, key: Seq<char>)
        requires
            self.wf(),
        ensures
            match self.spec_lookup(key) {
                Some(id) => id < self.spec_table().len(),
                None => true,
            },
    {
        lemma_lookup_from(self.mappings@, key, 0);
    }

    pub fn new() -> (s: SymbolStorage)
        ensures
            s.wf(),
            s.spec_table().len() == 0,
            forall|k: Seq<char>| s.spec_lookup(k) == None::<SymbolId>,
    {
        SymbolStorage { table: Vec::new(), mappings: Vec::new() }
    }

    /// The id `key` was interned under, if it has been seen.
    pub fn get_id(&self, key: &str) -> (r: Option<SymbolId>)
        ensures
            r == self.spec_lookup(key@),
    {
        let n = self.mappings.len();
        let mut j: usize = 0;
        while j < n
            invariant
                0 <= j <= n,
                n == self.mappings@.len(),
                self.spec_lookup(key@) == lookup_from(self.mappings@, key@, j as int),
            decreases n - j,
        {
            if str_eq(self.mappings[j].0.as_str(), key) {
                return Some(self.mappings[j].1);
            }
            j = j + 1;
        }
        None
    }

    /// The symbol an id names; ids that were never allocated are a
    /// recoverable error, not an abort.
    pub fn get(&self, id: &SymbolId) -> (r: Result<&Symbol, VmError>)
        ensures
            match r {
                Ok(sym) => *id < self.spec_table().len() && *sym == self.spec_table()[*id as int],
                Err(e) => e == VmError::UnknownSymbol && *id >= self.spec_table().len(),
            },
    {
        if *id < self.table.len() {
            Ok(&self.table[*id])
        } else {
            Err(VmError::UnknownSymbol)
        }
    }

    /// Idempotent interning: an already-mapped key returns its existing id
    /// and changes nothing, not even the stored kind; a fresh key is
    /// assigned the next dense id.
    pub fn insert_or_get(&mut self, key: String, ident: String, kind: SymbolKind) -> (id: SymbolId)
        requires
            old(self).wf(),
        ensures
            final(self).wf(),
            id < final(self).spec_table().len(),
            final(self).spec_lookup(key@) == Some(id),
            match old(self).spec_lookup(key@) {
                Some(existing) => id == existing && *final(self) == *old(self),
                None => {
                    &&& id == old(self).spec_table().len()
                    &&& final(self).spec_table().len() == old(self).spec_table().len() + 1
                    &&& final(self).spec_table()[id as int].identifier == ident
                    &&& final(self).spec_table()[id as int].kind == kind
                    &&& forall|i: int|
                        0 <= i < old(self).spec_table().len() ==> final(self).spec_table()[i]
                            == old(self).spec_table()[i]
                    &&& forall|k: Seq<char>|
                        k != key@ ==> final(self).spec_lookup(k) == old(self).spec_lookup(k)
                },
            },
    {
        proof {
            lemma_lookup_from(self.mappings@, key@, 0);
        }
        if let Some(id) = self.get_id(key.as_str()) {
            return id;
        }
        let id = self.table.len();
        let symbol = Symbol { identifier: ident, kind };
        self.table.push(symbol);
        let ghost old_mappings = self.mappings@;
        self.mappings.push((key, id));
        proof {
            let entry = self.mappings@[old_mappings.len() as int];
            assert(self.mappings@ =~= old_mappings.push(entry));
            lemma_lookup_from_push(old_mappings, entry, key@, 0);
            assert forall|k: Seq<char>| k != key@ implies final(self).spec_lookup(k) == old(
                self,
            ).spec_lookup(k) by {
                lemma_lookup_from_push(old_mappings, entry, k, 0);
            }
        }
        id
    }
}

} // verus!
