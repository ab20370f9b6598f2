//! Laws of the engine's memtables: the last write to a key is the one that is
//! read, however many freezes lie in between.

use crate::engine::LsmEngine;
use vstd::prelude::*;

verus! {

/// One step of an engine's history, as far as its memtables go.
pub enum Step {
    /// A write of `value` under `key`.
    Put { key: Seq<u8>, value: Seq<u8> },
    /// A delete of `key`: a write of the tombstone.
    Delete { key: Seq<u8> },
    /// A freeze of the active memtable.
    Freeze,
}

/// What the memtables hold after one step: what the engine's `put`, `delete`
/// and `force_freeze_memtable` ensure of its contents.
pub open spec fn after_step(contents: Map<Seq<u8>, Seq<u8>>, step: Step) -> Map<Seq<u8>, Seq<u8>> {
    match step {
        Step::Put { key, value } => contents.insert(key, value),
        Step::Delete { key } => contents.insert(key, Seq::empty()),
        Step::Freeze => contents,
    }
}

/// What the memtables hold after a sequence of steps.
pub open spec fn after_steps(contents: Map<Seq<u8>, Seq<u8>>, steps: Seq<Step>) -> Map<
    Seq<u8>,
    Seq<u8>,
>
    decreases steps.len(),
{
    if steps.len() == 0 {
        contents
    } else {
        after_step(after_steps(contents, steps.drop_last()), steps.last())
    }
}

/// The value that the last write to `key` among the steps wrote, the
/// tombstone for a delete; `None` where no step wrote to the key.
pub open spec fn last_written(steps: Seq<Step>, key: Seq<u8>) -> Option<Seq<u8>>
    decreases steps.len(),
{
    if steps.len() == 0 {
        None
    } else {
        match steps.last() {
            Step::Put { key: k, value } => if k == key {
                Some(value)
            } else {
                last_written(steps.drop_last(), key)
            },
            Step::Delete { key: k } => if k == key {
                Some(Seq::empty())
            } else {
                last_written(steps.drop_last(), key)
            },
            Step::Freeze => last_written(steps.drop_last(), key),
        }
    }
}

/// Last write wins: after any sequence of puts, deletes and freezes, a key
/// that was written holds the value of its last write, the tombstone after a
/// delete, and a key that was not written holds what it held before.
pub proof fn lemma_last_write_wins(contents: Map<Seq<u8>, Seq<u8>>, steps: Seq<Step>, key: Seq<u8>)
    ensures
        match last_written(steps, key) {
            Some(value) => after_steps(contents, steps).contains_key(key) && after_steps(
                contents,
                steps,
            )[key] == value,
            None => after_steps(contents, steps).contains_key(key) == contents.contains_key(key)
                && (contents.contains_key(key) ==> after_steps(contents, steps)[key]
                == contents[key]),
        },
    decreases steps.len(),
{
    if steps.len() > 0 {
        lemma_last_write_wins(contents, steps.drop_last(), key);
    }
}

/// A freeze changes nothing that is read: with a freeze put in at any place
/// of a history, the memtables hold the same in the end.
pub proof fn lemma_freeze_is_invisible(
    contents: Map<Seq<u8>, Seq<u8>>,
    before: Seq<Step>,
    after: Seq<Step>,
)
    ensures
        after_steps(contents, before + seq![Step::Freeze] + after) == after_steps(
            contents,
            before + after,
        ),
    decreases after.len(),
{
    let with = before + seq![Step::Freeze] + after;
    let without = before + after;
    if after.len() == 0 {
        assert(without =~= before);
        assert(with.drop_last() =~= before);
    } else {
        lemma_freeze_is_invisible(contents, before, after.drop_last());
        assert(with.drop_last() =~= before + seq![Step::Freeze] + after.drop_last());
        assert(without.drop_last() =~= before + after.drop_last());
        assert(with.last() == without.last());
    }
}

/// Memtable ids are ordered: in a valid engine the frozen list's ids fall
/// strictly from front to back, the active memtable's id is above all of
/// them, and the next id to hand out is above the active one. Every operation
/// of the engine keeps the engine valid, so this holds after any sequence of
/// freezes.
pub proof fn lemma_memtable_ids_ordered(engine: LsmEngine, i: int, j: int)
    requires
        engine.wf(),
        0 <= i < j < engine.spec_state().memtables.imm_memtables@.len(),
    ensures
        engine.spec_state().memtables.imm_memtables@[i].spec_id()
            > engine.spec_state().memtables.imm_memtables@[j].spec_id(),
        engine.spec_state().memtables.memtable.spec_id()
            > engine.spec_state().memtables.imm_memtables@[i].spec_id(),
        engine.spec_next_id() > engine.spec_state().memtables.memtable.spec_id(),
{
}

} // verus!
