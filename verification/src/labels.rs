//! The label table: the single source of truth for symbolic operand
//! resolution.  It maps a label name to a resolved absolute address and is
//! threaded through both section-assembly passes; inserting a name that is
//! already present silently overwrites the earlier address.

use vstd::prelude::*;
use crate::chars::bytes_eq;

verus! {

/// One resolved label: its name and its absolute address.
#[derive(Debug)]
pub struct LabelEntry {
    pub name: Vec<u8>,
    pub addr: u8,
}

/// The mapping that a sequence of entries denotes: for each name, the
/// address of its latest entry.
pub open spec fn map_of(entries: Seq<LabelEntry>) -> Map<Seq<u8>, u8>
    decreases entries.len(),
{
    if entries.len() == 0 {
        Map::empty()
    } else {
        map_of(entries.drop_last()).insert(entries.last().name@, entries.last().addr)
    }
}

/// A mapping from label names to absolute addresses, insertion-ordered,
/// where the latest insertion of a name wins.
#[derive(Debug)]
pub struct LabelTable {
    entries: Vec<LabelEntry>,
}

impl View for LabelTable {
    type V = Map<Seq<u8>, u8>;

    closed spec fn view(&self) -> Map<Seq<u8>, u8> {
        map_of(self.entries@)
    }
}

/// If `entries[j]` is the latest entry named `name`, the denoted mapping
/// resolves `name` to its address.
proof fn lemma_map_of_latest(entries: Seq<LabelEntry>, name: Seq<u8>, j: int)
    requires
        0 <= j < entries.len(),
        entries[j].name@ == name,
        forall|l: int| j < l < entries.len() ==> entries[l].name@ != name,
    ensures
        map_of(entries).contains_key(name),
        map_of(entries)[name] == entries[j].addr,
    decreases entries.len(),
{
    if j == entries.len() - 1 {
    } else {
        assert(entries.last().name@ != name);
        assert(forall|l: int| j < l < entries.drop_last().len() ==> entries.drop_last()[l].name@
            != name);
        lemma_map_of_latest(entries.drop_last(), name, j);
    }
}

/// A name with no entry is absent from the denoted mapping.
proof fn lemma_map_of_absent(entries: Seq<LabelEntry>, name: Seq<u8>)
    requires
        forall|l: int| 0 <= l < entries.len() ==> entries[l].name@ != name,
    ensures
        !map_of(entries).contains_key(name),
    decreases entries.len(),
{
    if entries.len() > 0 {
        assert(forall|l: int| 0 <= l < entries.drop_last().len() ==> entries.drop_last()[l].name@
            != name);
        lemma_map_of_absent(entries.drop_last(), name);
    }
}

impl LabelTable {
    /// An empty table.
    pub fn new() -> (t: LabelTable)
        ensures
            t@ == Map::<Seq<u8>, u8>::empty(),
    {
        LabelTable { entries: Vec::new() }
    }

    /// Binds `name` to `addr`; an earlier binding of the same name is
    /// overwritten.
    pub fn insert(&mut self, name: Vec<u8>, addr: u8)
        ensures
            final(self)@ == old(self)@.insert(name@, addr),
    {
        let ghost before = self.entries@;
        let ghost n = name@;
        self.entries.push(LabelEntry { name, addr });
        proof {
            assert(self.entries@.drop_last() =~= before);
            assert(self.entries@.last().name@ == n);
        }
    }

    /// The address bound to `name`, if any.
    pub fn lookup(&self, name: &Vec<u8>) -> (r: Option<u8>)
        ensures
            self@.contains_key(name@) ==> r == Some(self@[name@]),
            !self@.contains_key(name@) ==> r is None,
    {
        let mut i: usize = self.entries.len();
        while i > 0
            invariant
                i <= self.entries@.len(),
                forall|l: int| i <= l < self.entries@.len() ==> self.entries@[l].name@ != name@,
            decreases i,
        {
            i = i - 1;
            if bytes_eq(&self.entries[i].name, name) {
                proof {
                    lemma_map_of_latest(self.entries@, name@, i as int);
                }
                return Some(self.entries[i].addr);
            }
        }
        proof {
            lemma_map_of_absent(self.entries@, name@);
        }
        None
    }
}

} // verus!
