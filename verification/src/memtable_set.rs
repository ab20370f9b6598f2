//! The memtable set: one active memtable and the frozen ones, newest first.

use crate::memtable::MemTable;
use vstd::prelude::*;

verus! {

/// One active memtable and the frozen ones.
#[derive(Debug)]
pub struct MemtableSet {
    /// The one memtable that takes writes.
    pub memtable: MemTable,
    /// The frozen memtables, newest first.
    pub imm_memtables: Vec<MemTable>,
}

/// What a list of memtables, newest first, holds: for each key the value in
/// the first memtable that has the key.
pub open spec fn layered(tables: Seq<MemTable>) -> Map<Seq<u8>, Seq<u8>>
    decreases tables.len(),
{
    if tables.len() == 0 {
        Map::empty()
    } else {
        layered(tables.drop_first()).union_prefer_right(tables[0].entries())
    }
}

/// The ids of a list of memtables fall strictly from front to back.
pub open spec fn ids_decreasing(tables: Seq<MemTable>) -> bool {
    forall|i: int, j: int|
        0 <= i < j < tables.len() ==> tables[i].spec_id() > tables[j].spec_id()
}

impl MemtableSet {
    /// The invariant: the frozen ids fall strictly from newest to oldest, and
    /// the active id is above all of them.
    pub open spec fn wf(&self) -> bool {
        &&& ids_decreasing(self.imm_memtables@)
        &&& forall|i: int|
            0 <= i < self.imm_memtables@.len() ==> self.imm_memtables@[i].spec_id()
                < self.memtable.spec_id()
    }

    /// What the set holds: for each key the most recent value written.
    pub open spec fn contents(&self) -> Map<Seq<u8>, Seq<u8>> {
        layered(self.imm_memtables@).union_prefer_right(self.memtable.entries())
    }

    /// What a lookup of `key` answers.
    pub open spec fn lookup(&self, key: Seq<u8>) -> Option<Seq<u8>> {
        if self.contents().contains_key(key) {
            Some(self.contents()[key])
        } else {
            None
        }
    }

    /// A set with an empty active memtable of id 0 and nothing frozen.
    pub fn new() -> (r: Self)
        ensures
            r.wf(),
            r.memtable.spec_id() == 0,
            r.memtable.spec_size() == 0,
            r.imm_memtables@.len() == 0,
            r.contents() == Map::<Seq<u8>, Seq<u8>>::empty(),
    {
        let r = Self { memtable: MemTable::new(0), imm_memtables: Vec::new() };
        assert(r.contents() =~= Map::<Seq<u8>, Seq<u8>>::empty());
        r
    }

    /// Probes the active memtable, then the frozen ones from newest to oldest,
    /// and returns the first hit.
    pub fn get(&self, key: &[u8]) -> (r: Option<Vec<u8>>)
        ensures
            (r is Some) == (self.lookup(key@) is Some),
            r is Some ==> r.unwrap()@ == self.lookup(key@).unwrap(),
    {
        if let Some(val) = self.memtable.get(key) {
            return Some(val);
        }
        let n: usize = self.imm_memtables.len();
        let mut i: usize = 0;
        assert(self.imm_memtables@.subrange(0, n as int) =~= self.imm_memtables@);
        while i < n
            invariant
                i <= n,
                n == self.imm_memtables@.len(),
                !self.memtable.entries().contains_key(key@),
                layered(self.imm_memtables@).contains_key(key@) == layered(
                    self.imm_memtables@.subrange(i as int, n as int),
                ).contains_key(key@),
                layered(self.imm_memtables@).contains_key(key@) ==> layered(
                    self.imm_memtables@,
                )[key@] == layered(self.imm_memtables@.subrange(i as int, n as int))[key@],
            decreases n - i,
        {
            let ghost rest = self.imm_memtables@.subrange(i as int, n as int);
            assert(rest.drop_first() =~= self.imm_memtables@.subrange(i + 1, n as int));
            assert(rest[0] == self.imm_memtables@[i as int]);
            if let Some(val) = self.imm_memtables[i].get(key) {
                return Some(val);
            }
            i = i + 1;
        }
        None
    }

    /// Writes into the active memtable; the frozen ones stay as they are.
    pub fn put(&mut self, key: &[u8], value: &[u8]) -> (r: Result<(), String>)
        ensures
            r is Ok,
            final(self).contents() == old(self).contents().insert(key@, value@),
            final(self).memtable.entries() == old(self).memtable.entries().insert(key@, value@),
            final(self).memtable.spec_id() == old(self).memtable.spec_id(),
            final(self).memtable.spec_size() == crate::memtable::size_after(
                old(self).memtable.spec_size(),
                key@.len(),
                value@.len(),
            ),
            final(self).imm_memtables@ == old(self).imm_memtables@,
            old(self).wf() ==> final(self).wf(),
    {
        let r = self.memtable.put(key, value);
        assert(self.contents() =~= old(self).contents().insert(key@, value@));
        r
    }

    /// Writes a tombstone, the zero-length value, under `key`.
    pub fn delete(&mut self, key: &[u8]) -> (r: Result<(), String>)
        ensures
            r is Ok,
            final(self).contents() == old(self).contents().insert(key@, Seq::<u8>::empty()),
            final(self).memtable.spec_id() == old(self).memtable.spec_id(),
            final(self).imm_memtables@ == old(self).imm_memtables@,
            old(self).wf() ==> final(self).wf(),
    {
        let tombstone: Vec<u8> = Vec::new();
        let r = self.put(key, tombstone.as_slice());
        assert(tombstone@ =~= Seq::<u8>::empty());
        r
    }

    /// Freezes the active memtable: it becomes the newest frozen one, and an
    /// empty memtable with the id `new_id` becomes the active one. Nothing that
    /// the set holds changes.
    pub fn freeze(&mut self, new_id: usize)
        requires
            old(self).wf(),
            new_id > old(self).memtable.spec_id(),
        ensures
            final(self).wf(),
            final(self).memtable.spec_id() == new_id,
            final(self).memtable.spec_size() == 0,
            final(self).memtable.entries() == Map::<Seq<u8>, Seq<u8>>::empty(),
            final(self).imm_memtables@ == seq![old(self).memtable] + old(self).imm_memtables@,
            final(self).contents() == old(self).contents(),
    {
        let mut table = MemTable::new(new_id);
        std::mem::swap(&mut self.memtable, &mut table);
        self.imm_memtables.insert(0, table);
        proof {
            let frozen = seq![old(self).memtable] + old(self).imm_memtables@;
            assert(self.imm_memtables@ =~= frozen);
            assert(frozen.drop_first() =~= old(self).imm_memtables@);
            assert(self.contents() =~= old(self).contents());
        }
    }
}

} // verus!
