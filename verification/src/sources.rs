//! The source registry: an id-indexed table mapping source buffers to
//! line/column entries, used only to tag diagnostics.

use vstd::prelude::*;

verus! {

pub type SourceId = usize;

pub type EntryId = usize;

/// Where a piece of source text came from.
#[derive(Debug, Clone, PartialEq, Eq, Hash)]
pub enum SourceSource {
    Text(String),
    File(String),
    Repl(String),
}

impl SourceSource {
    /// The display name of the origin: files and sessions name themselves,
    /// plain text has no name.
    pub open spec fn spec_name(self) -> Seq<char> {
        match self {
            SourceSource::Text(_) => Seq::<char>::empty(),
            SourceSource::File(p) => p@,
            SourceSource::Repl(id) => id@,
        }
    }

    pub fn name(&self) -> (r: String)
        ensures
            r@ == self.spec_name(),
    {
        match self {
            SourceSource::Text(_) => String::new(),
            SourceSource::File(p) => p.clone(),
            SourceSource::Repl(id) => id.clone(),
        }
    }

    /// A structural copy; the derived clone says nothing usable.
    pub fn duplicate(&self) -> (r: SourceSource)
        ensures
            r == *self,
    {
        match self {
            SourceSource::Text(s) => SourceSource::Text(s.clone()),
            SourceSource::File(p) => SourceSource::File(p.clone()),
            SourceSource::Repl(id) => SourceSource::Repl(id.clone()),
        }
    }
}

/// One diagnostic position within a source.
#[derive(Debug, Copy, Clone, PartialEq, Eq, Structural)]
pub struct Entry {
    pub line: u64,
    pub column: u64,
}

/// One registered source: its name, its origin, and its diagnostic
/// entries, keyed by dense entry ids.
#[derive(Debug)]
pub struct Source {
    pub name: String,
    pub kind: SourceSource,
    pub entries: Vec<Entry>,
}

impl Source {
    pub fn new(kind: SourceSource) -> (s: Source)
        ensures
            s.name@ == kind.spec_name(),
            s.kind == kind,
            s.entries@.len() == 0,
    {
        let name = kind.name();
        Source { name, kind, entries: Vec::new() }
    }

    /// Records one diagnostic position and returns its dense id.
    pub fn new_entry(&mut self, entry: Entry) -> (id: EntryId)
        ensures
            id == old(self).entries@.len(),
            final(self).entries@ == old(self).entries@.push(entry),
            final(self).name == old(self).name,
            final(self).kind == old(self).kind,
    {
        let id = self.entries.len();
        self.entries.push(entry);
        id
    }
}

/// The registry of sources, keyed by dense source ids; `mappings` remembers
/// which origin was registered under which id.
#[derive(Debug)]
pub struct Sources {
    table: Vec<Source>,
    mappings: Vec<(SourceSource, SourceId)>,
}

impl Sources {
    pub closed spec fn spec_table(self) -> Seq<Source> {
        self.table@
    }

    pub fn new() -> (s: Sources)
        ensures
            s.spec_table().len() == 0,
    {
        Sources { table: Vec::new(), mappings: Vec::new() }
    }

    /// Registers a source origin under the next dense id.
    pub fn new_source(&mut self, source: SourceSource) -> (id: SourceId)
        ensures
            id == old(self).spec_table().len(),
            final(self).spec_table().len() == old(self).spec_table().len() + 1,
            final(self).spec_table()[id as int].kind == source,
            final(self).spec_table()[id as int].name@ == source.spec_name(),
            final(self).spec_table()[id as int].entries@.len() == 0,
            forall|i: int|
                0 <= i < old(self).spec_table().len() ==> final(self).spec_table()[i] == old(
                    self,
                ).spec_table()[i],
    {
        let id = self.table.len();
        let copy = source.duplicate();
        self.mappings.push((copy, id));
        let entry = Source::new(source);
        self.table.push(entry);
        id
    }

    /// The source an id names, if it was ever registered.
    pub fn get_source(&self, id: SourceId) -> (r: Option<&Source>)
        ensures
            match r {
                Some(s) => id < self.spec_table().len() && *s == self.spec_table()[id as int],
                None => id >= self.spec_table().len(),
            },
    {
        if id < self.table.len() {
            Some(&self.table[id])
        } else {
            None
        }
    }
}

} // verus!
