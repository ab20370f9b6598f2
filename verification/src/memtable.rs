//! The memtable: a sorted in-memory map from key to value with a running
//! estimate of the bytes written into it. A zero-length value is a tombstone.

use vstd::prelude::*;

verus! {

/// `bytes::Bytes`, the byte buffer that the skip map holds as key and value;
/// nothing is known of what is inside.
#[verifier::external_type_specification]
#[verifier::external_body]
pub struct ExBytes(bytes::Bytes);

/// `crossbeam_skiplist::SkipMap`, a concurrent sorted map; what it holds is
/// known only through `skipmap_entries`.
#[verifier::external_type_specification]
#[verifier::external_body]
#[verifier::reject_recursive_types(K)]
#[verifier::reject_recursive_types(V)]
pub struct ExSkipMap<K, V>(crossbeam_skiplist::SkipMap<K, V>);

/// What a skip map holds: each key with the value last inserted under it.
pub uninterp spec fn skipmap_entries(
    map: crossbeam_skiplist::SkipMap<bytes::Bytes, bytes::Bytes>,
) -> Map<Seq<u8>, Seq<u8>>;

/// Calls `SkipMap::new`, which returns an empty map.
#[verifier::external_body]
fn skipmap_new() -> (r: crossbeam_skiplist::SkipMap<bytes::Bytes, bytes::Bytes>)
    ensures
        skipmap_entries(r) =~= Map::empty(),
{
    crossbeam_skiplist::SkipMap::new()
}

/// Calls `SkipMap::insert` with copies of the key and the value. The map then
/// holds the value under the key, in place of an earlier entry with that key,
/// and every other entry as before.
#[verifier::external_body]
fn skipmap_insert(
    map: &mut crossbeam_skiplist::SkipMap<bytes::Bytes, bytes::Bytes>,
    key: &[u8],
    value: &[u8],
)
    ensures
        skipmap_entries(*final(map)) == skipmap_entries(*old(map)).insert(key@, value@),
{
    map.insert(bytes::Bytes::copy_from_slice(key), bytes::Bytes::copy_from_slice(value));
}

/// Calls `SkipMap::get` and copies out the value of the entry found: the value
/// held under the key, or `None` where the map holds none.
#[verifier::external_body]
fn skipmap_get(map: &crossbeam_skiplist::SkipMap<bytes::Bytes, bytes::Bytes>, key: &[u8]) -> (r:
    Option<Vec<u8>>)
    ensures
        (r is Some) == skipmap_entries(*map).contains_key(key@),
        r is Some ==> r.unwrap()@ == skipmap_entries(*map)[key@],
{
    map.get(key).map(|entry| entry.value().to_vec())
}

/// Lexicographic order on byte strings: the order in which the skip map keeps
/// its keys.
pub open spec fn bytes_less(a: Seq<u8>, b: Seq<u8>) -> bool
    decreases a.len(),
{
    if b.len() == 0 {
        false
    } else if a.len() == 0 {
        true
    } else if a[0] != b[0] {
        a[0] < b[0]
    } else {
        bytes_less(a.drop_first(), b.drop_first())
    }
}

/// Whether `items` lists `entries`: every item is an entry, every entry is an
/// item, and the keys rise strictly from item to item.
pub open spec fn lists_sorted(
    items: Seq<(Vec<u8>, Vec<u8>)>,
    entries: Map<Seq<u8>, Seq<u8>>,
) -> bool {
    &&& forall|i: int|
        0 <= i < items.len() ==> entries.contains_key((#[trigger] items[i]).0@)
            && entries[items[i].0@] == items[i].1@
    &&& forall|k: Seq<u8>| #[trigger]
        entries.contains_key(k) ==> exists|i: int|
            0 <= i < items.len() && (#[trigger] items[i]).0@ == k
    &&& forall|i: int, j: int|
        0 <= i < j < items.len() ==> bytes_less(
            (#[trigger] items[i]).0@,
            (#[trigger] items[j]).0@,
        )
}

/// Calls `SkipMap::iter`, which walks the map from the least key to the
/// greatest, and copies out the key and the value of each entry met.
#[verifier::external_body]
fn skipmap_items(map: &crossbeam_skiplist::SkipMap<bytes::Bytes, bytes::Bytes>) -> (r: Vec<
    (Vec<u8>, Vec<u8>),
>)
    ensures
        lists_sorted(r@, skipmap_entries(*map)),
{
    map.iter().map(|entry| (entry.key().to_vec(), entry.value().to_vec())).collect()
}

/// A memtable: its id, its entries and the byte estimate.
#[derive(Debug)]
pub struct MemTable {
    map: crossbeam_skiplist::SkipMap<bytes::Bytes, bytes::Bytes>,
    id: usize,
    size: usize,
}

/// The byte estimate after one more write: the sum, held at the largest
/// `usize` where it would pass it.
pub open spec fn size_after(size: usize, key_len: nat, value_len: nat) -> usize {
    if size + key_len + value_len > usize::MAX {
        usize::MAX
    } else {
        (size + key_len + value_len) as usize
    }
}

impl MemTable {
    /// The entries: each key with the value last written under it.
    pub closed spec fn entries(&self) -> Map<Seq<u8>, Seq<u8>> {
        skipmap_entries(self.map)
    }

    /// The id that the memtable was made with.
    pub closed spec fn spec_id(&self) -> usize {
        self.id
    }

    /// The running byte estimate.
    pub closed spec fn spec_size(&self) -> usize {
        self.size
    }

    /// An empty memtable.
    pub fn new(id: usize) -> (r: Self)
        ensures
            r.spec_id() == id,
            r.spec_size() == 0,
            r.entries() == Map::<Seq<u8>, Seq<u8>>::empty(),
    {
        Self { map: skipmap_new(), id, size: 0 }
    }

    /// Writes `value` under `key`, in place of an earlier value, and adds both
    /// lengths to the estimate, which never falls. Never fails.
    pub fn put(&mut self, key: &[u8], value: &[u8]) -> (r: Result<(), String>)
        ensures
            r is Ok,
            final(self).entries() == old(self).entries().insert(key@, value@),
            final(self).spec_id() == old(self).spec_id(),
            final(self).spec_size() == size_after(old(self).spec_size(), key@.len(), value@.len()),
            final(self).spec_size() >= old(self).spec_size(),
    {
        skipmap_insert(&mut self.map, key, value);
        self.size = self.size.saturating_add(key.len()).saturating_add(value.len());
        Ok(())
    }

    /// The value written under `key`, a tombstone included, or `None` where
    /// none was written.
    pub fn get(&self, key: &[u8]) -> (r: Option<Vec<u8>>)
        ensures
            (r is Some) == self.entries().contains_key(key@),
            r is Some ==> r.unwrap()@ == self.entries()[key@],
    {
        skipmap_get(&self.map, key)
    }

    /// The entries in rising key order, tombstones included: what a flush
    /// writes to a sorted file.
    pub fn sorted_entries(&self) -> (r: Vec<(Vec<u8>, Vec<u8>)>)
        ensures
            lists_sorted(r@, self.entries()),
    {
        skipmap_items(&self.map)
    }

    /// The running byte estimate: a heuristic for when to freeze, no exact
    /// account of memory.
    pub fn approximate_size(&self) -> (r: usize)
        ensures
            r == self.spec_size(),
    {
        self.size
    }

    /// The memtable's id.
    pub fn id(&self) -> (r: usize)
        ensures
            r == self.spec_id(),
    {
        self.id
    }
}

} // verus!
