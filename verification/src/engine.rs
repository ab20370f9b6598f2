//! The engine: one current state, replaced as a whole by put, freeze, flush
//! and compaction.

use crate::compaction::{merge_outcome, CompactionController, CompactionError};
use crate::config::LsmEngineConfig;
use crate::engine_laws::{after_step, after_steps, last_written, lemma_last_write_wins, Step};
use crate::memtable::size_after;
use crate::memtable_set::MemtableSet;
use crate::version::LsmVersion;
use vstd::prelude::*;

verus! {

/// Byte estimate at which a new engine freezes its active memtable: 4 MiB.
pub const MEMTABLE_FLUSH_THRESHOLD: usize = 4194304;

/// A snapshot: the memtables and the files on disk.
#[derive(Debug)]
pub struct LsmEngineState {
    pub memtables: MemtableSet,
    pub version: LsmVersion,
}

impl LsmEngineState {
    /// The invariant: that of the memtables and that of the version.
    pub open spec fn wf(&self) -> bool {
        self.memtables.wf() && self.version.wf()
    }

    /// The first state: an empty active memtable of id 0, nothing frozen, no
    /// files.
    pub fn new() -> (r: Self)
        ensures
            r.wf(),
            r.memtables.memtable.spec_id() == 0,
            r.memtables.memtable.spec_size() == 0,
            r.memtables.imm_memtables@.len() == 0,
            r.memtables.contents() == Map::<Seq<u8>, Seq<u8>>::empty(),
            r.version.l0_sstables@.len() == 0,
            r.version.levels@.len() == 0,
    {
        Self { memtables: MemtableSet::new(), version: LsmVersion::new() }
    }
}

/// One operation of a history: a write, a delete or a freeze.
#[derive(Debug)]
pub enum Operation {
    Put { key: Vec<u8>, value: Vec<u8> },
    Delete { key: Vec<u8> },
    Freeze,
}

impl Operation {
    /// The step that the operation makes.
    pub open spec fn step(&self) -> Step {
        match self {
            Operation::Put { key, value } => Step::Put { key: key@, value: value@ },
            Operation::Delete { key } => Step::Delete { key: key@ },
            Operation::Freeze => Step::Freeze,
        }
    }
}

/// The steps that a history of operations makes.
pub open spec fn steps_of(history: Seq<Operation>) -> Seq<Step> {
    Seq::new(history.len(), |i: int| history[i].step())
}

/// The engine: the current state, the next memtable id, the flush threshold
/// and the configuration.
pub struct LsmEngine {
    state: LsmEngineState,
    next_memtable_id: usize,
    flush_threshold: usize,
    pub config: LsmEngineConfig,
}

impl LsmEngine {
    /// The current state.
    pub closed spec fn spec_state(&self) -> LsmEngineState {
        self.state
    }

    /// The id that the next memtable gets.
    pub closed spec fn spec_next_id(&self) -> usize {
        self.next_memtable_id
    }

    /// The byte estimate at which the active memtable is frozen.
    pub closed spec fn spec_threshold(&self) -> usize {
        self.flush_threshold
    }

    /// The configuration that the engine was made with.
    pub closed spec fn spec_config(&self) -> LsmEngineConfig {
        self.config
    }

    /// The invariant: the state's own, and the next id is above the active
    /// memtable's.
    pub open spec fn wf(&self) -> bool {
        &&& self.spec_state().wf()
        &&& self.spec_state().memtables.memtable.spec_id() < self.spec_next_id()
    }

    /// What the memtables hold: for each key the most recent value written.
    pub open spec fn contents(&self) -> Map<Seq<u8>, Seq<u8>> {
        self.spec_state().memtables.contents()
    }

    /// Whether a freeze is due: the active memtable's estimate has reached the
    /// threshold, and a fresh id is left.
    pub open spec fn freeze_due(&self) -> bool {
        self.spec_state().memtables.memtable.spec_size() >= self.spec_threshold()
            && self.spec_next_id() < usize::MAX
    }

    /// An engine that freezes at `MEMTABLE_FLUSH_THRESHOLD`.
    pub fn new(config: LsmEngineConfig) -> (r: Self)
        ensures
            r.wf(),
            r.spec_threshold() == MEMTABLE_FLUSH_THRESHOLD,
            r.spec_next_id() == 1,
            r.spec_config() == config,
            r.contents() == Map::<Seq<u8>, Seq<u8>>::empty(),
            r.spec_state().memtables.memtable.spec_id() == 0,
            r.spec_state().memtables.memtable.spec_size() == 0,
            r.spec_state().memtables.imm_memtables@.len() == 0,
            r.spec_state().version.l0_sstables@.len() == 0,
            r.spec_state().version.levels@.len() == 0,
    {
        Self::with_flush_threshold(config, MEMTABLE_FLUSH_THRESHOLD)
    }

    /// An engine that freezes its active memtable once the byte estimate
    /// reaches `flush_threshold`.
    pub fn with_flush_threshold(config: LsmEngineConfig, flush_threshold: usize) -> (r: Self)
        ensures
            r.wf(),
            r.spec_threshold() == flush_threshold,
            r.spec_next_id() == 1,
            r.spec_config() == config,
            r.contents() == Map::<Seq<u8>, Seq<u8>>::empty(),
            r.spec_state().memtables.memtable.spec_id() == 0,
            r.spec_state().memtables.memtable.spec_size() == 0,
            r.spec_state().memtables.imm_memtables@.len() == 0,
            r.spec_state().version.l0_sstables@.len() == 0,
            r.spec_state().version.levels@.len() == 0,
    {
        Self { state: LsmEngineState::new(), next_memtable_id: 1, flush_threshold, config }
    }

    /// The configuration that the engine was made with.
    pub fn config(&self) -> (r: &LsmEngineConfig)
        ensures
            *r == self.spec_config(),
    {
        &self.config
    }

    /// The current state, to read.
    pub fn state(&self) -> (r: &LsmEngineState)
        ensures
            *r == self.spec_state(),
    {
        &self.state
    }

    /// Hands out the next memtable id.
    pub(crate) fn next_memtable_id(&mut self) -> (r: usize)
        requires
            old(self).spec_next_id() < usize::MAX,
        ensures
            r == old(self).spec_next_id(),
            final(self).spec_next_id() == r + 1,
            final(self).spec_state() == old(self).spec_state(),
            final(self).spec_threshold() == old(self).spec_threshold(),
            final(self).spec_config() == old(self).spec_config(),
    {
        let id = self.next_memtable_id;
        self.next_memtable_id = id + 1;
        id
    }

    /// The most recent value written under `key`, found in the active
    /// memtable or else in the newest frozen one that has the key.
    pub fn get(&self, key: &[u8]) -> (r: Option<Vec<u8>>)
        ensures
            (r is Some) == self.contents().contains_key(key@),
            r is Some ==> r.unwrap()@ == self.contents()[key@],
    {
        self.state.memtables.get(key)
    }

    /// Freezes the active memtable where a freeze is due, and does nothing
    /// where it is not. A freeze puts the active memtable at the front of the
    /// frozen list and an empty one with the next id in its place; the version
    /// and what the memtables hold stay as they are.
    pub fn force_freeze_memtable(&mut self)
        requires
            old(self).wf(),
        ensures
            final(self).wf(),
            final(self).contents() == old(self).contents(),
            final(self).contents() == after_step(old(self).contents(), Step::Freeze),
            final(self).spec_state().version == old(self).spec_state().version,
            final(self).spec_threshold() == old(self).spec_threshold(),
            final(self).spec_config() == old(self).spec_config(),
            old(self).freeze_due() ==> {
                &&& final(self).spec_state().memtables.imm_memtables@ == seq![
                    old(self).spec_state().memtables.memtable,
                ] + old(self).spec_state().memtables.imm_memtables@
                &&& final(self).spec_state().memtables.memtable.spec_id() == old(
                    self,
                ).spec_next_id()
                &&& final(self).spec_state().memtables.memtable.spec_size() == 0
                &&& final(self).spec_state().memtables.memtable.entries() == Map::<
                    Seq<u8>,
                    Seq<u8>,
                >::empty()
                &&& final(self).spec_next_id() == old(self).spec_next_id() + 1
            },
            !old(self).freeze_due() ==> {
                &&& final(self).spec_state() == old(self).spec_state()
                &&& final(self).spec_next_id() == old(self).spec_next_id()
            },
    {
        if self.state.memtables.memtable.approximate_size() < self.flush_threshold {
            return ;
        }
        if self.next_memtable_id == usize::MAX {
            return ;
        }
        let new_id = self.next_memtable_id();
        self.state.memtables.freeze(new_id);
    }

    /// Writes `value` under `key` into the active memtable, then freezes it
    /// where its byte estimate has reached the threshold.
    pub fn put(&mut self, key: &[u8], value: &[u8])
        requires
            old(self).wf(),
        ensures
            final(self).wf(),
            final(self).contents() == old(self).contents().insert(key@, value@),
            final(self).contents() == after_step(
                old(self).contents(),
                (Step::Put { key: key@, value: value@ }),
            ),
            final(self).spec_state().version == old(self).spec_state().version,
            final(self).spec_threshold() == old(self).spec_threshold(),
            final(self).spec_config() == old(self).spec_config(),
            final(self).spec_state().memtables.imm_memtables@.len() == old(
                self,
            ).spec_state().memtables.imm_memtables@.len() + (if Self::put_freezes(
                *old(self),
                key@.len(),
                value@.len(),
            ) {
                1int
            } else {
                0int
            }),
            Self::put_freezes(*old(self), key@.len(), value@.len()) ==> {
                &&& final(self).spec_state().memtables.imm_memtables@[0].entries() == old(
                    self,
                ).spec_state().memtables.memtable.entries().insert(key@, value@)
                &&& final(self).spec_state().memtables.imm_memtables@[0].spec_id() == old(
                    self,
                ).spec_state().memtables.memtable.spec_id()
                &&& final(self).spec_state().memtables.imm_memtables@[0].spec_size()
                    == size_after(
                    old(self).spec_state().memtables.memtable.spec_size(),
                    key@.len(),
                    value@.len(),
                )
                &&& final(self).spec_state().memtables.imm_memtables@.drop_first() == old(
                    self,
                ).spec_state().memtables.imm_memtables@
                &&& final(self).spec_state().memtables.memtable.entries() == Map::<
                    Seq<u8>,
                    Seq<u8>,
                >::empty()
                &&& final(self).spec_state().memtables.memtable.spec_size() == 0
                &&& final(self).spec_state().memtables.memtable.spec_id() == old(
                    self,
                ).spec_next_id()
                &&& final(self).spec_next_id() == old(self).spec_next_id() + 1
            },
            !Self::put_freezes(*old(self), key@.len(), value@.len()) ==> {
                &&& final(self).spec_state().memtables.memtable.entries() == old(
                    self,
                ).spec_state().memtables.memtable.entries().insert(key@, value@)
                &&& final(self).spec_state().memtables.memtable.spec_id() == old(
                    self,
                ).spec_state().memtables.memtable.spec_id()
                &&& final(self).spec_state().memtables.memtable.spec_size() == size_after(
                    old(self).spec_state().memtables.memtable.spec_size(),
                    key@.len(),
                    value@.len(),
                )
                &&& final(self).spec_state().memtables.imm_memtables@ == old(
                    self,
                ).spec_state().memtables.imm_memtables@
                &&& final(self).spec_next_id() == old(self).spec_next_id()
            },
    {
        let _ = self.state.memtables.put(key, value);
        let ghost written = self.state.memtables;
        if self.state.memtables.memtable.approximate_size() >= self.flush_threshold {
            self.force_freeze_memtable();
            proof {
                if Self::put_freezes(*old(self), key@.len(), value@.len()) {
                    assert(self.state.memtables.imm_memtables@.drop_first()
                        =~= written.imm_memtables@);
                }
            }
        }
    }

    /// Whether a write of a key and a value of the given lengths is followed
    /// by a freeze.
    pub open spec fn put_freezes(engine: LsmEngine, key_len: nat, value_len: nat) -> bool {
        size_after(engine.spec_state().memtables.memtable.spec_size(), key_len, value_len)
            >= engine.spec_threshold() && engine.spec_next_id() < usize::MAX
    }

    /// Writes a tombstone under `key`.
    pub fn delete(&mut self, key: &[u8])
        requires
            old(self).wf(),
        ensures
            final(self).wf(),
            final(self).contents() == old(self).contents().insert(key@, Seq::<u8>::empty()),
            final(self).contents() == after_step(old(self).contents(), (Step::Delete { key: key@ })),
            final(self).spec_state().version == old(self).spec_state().version,
            final(self).spec_threshold() == old(self).spec_threshold(),
            final(self).spec_config() == old(self).spec_config(),
            final(self).spec_state().memtables.imm_memtables@.len() == old(
                self,
            ).spec_state().memtables.imm_memtables@.len() + (if Self::put_freezes(
                *old(self),
                key@.len(),
                0,
            ) {
                1int
            } else {
                0int
            }),
    {
        let tombstone: Vec<u8> = Vec::new();
        assert(tombstone@ =~= Seq::<u8>::empty());
        self.put(key, tombstone.as_slice());
    }

    /// Runs a history: each put, delete and freeze in turn. Afterwards the
    /// memtables hold what the steps of the history make of what they held
    /// before, so every key answers with its last write.
    pub fn run(&mut self, history: &Vec<Operation>)
        requires
            old(self).wf(),
        ensures
            final(self).wf(),
            final(self).contents() == after_steps(old(self).contents(), steps_of(history@)),
            forall|key: Seq<u8>| #[trigger]
                last_written(steps_of(history@), key) is Some ==> final(self).contents().contains_key(
                    key,
                ) && final(self).contents()[key] == last_written(steps_of(history@), key).unwrap(),
            final(self).spec_state().version == old(self).spec_state().version,
            final(self).spec_threshold() == old(self).spec_threshold(),
            final(self).spec_config() == old(self).spec_config(),
    {
        let mut i: usize = 0;
        assert(steps_of(history@.subrange(0, 0)) =~= Seq::<Step>::empty());
        while i < history.len()
            invariant
                i <= history@.len(),
                self.wf(),
                self.contents() == after_steps(
                    old(self).contents(),
                    steps_of(history@.subrange(0, i as int)),
                ),
                self.spec_state().version == old(self).spec_state().version,
                self.spec_threshold() == old(self).spec_threshold(),
                self.spec_config() == old(self).spec_config(),
            decreases history@.len() - i,
        {
            proof {
                let now = steps_of(history@.subrange(0, i + 1));
                assert(now.drop_last() =~= steps_of(history@.subrange(0, i as int)));
                assert(now.last() == history@[i as int].step());
            }
            match &history[i] {
                Operation::Put { key, value } => {
                    self.put(key.as_slice(), value.as_slice());
                },
                Operation::Delete { key } => {
                    self.delete(key.as_slice());
                },
                Operation::Freeze => {
                    self.force_freeze_memtable();
                },
            }
            i = i + 1;
        }
        assert(history@.subrange(0, history@.len() as int) =~= history@);
        assert forall|key: Seq<u8>| #[trigger]
            last_written(steps_of(history@), key) is Some implies self.contents().contains_key(key)
            && self.contents()[key] == last_written(steps_of(history@), key).unwrap() by {
            lemma_last_write_wins(old(self).contents(), steps_of(history@), key);
        }
    }

    /// The oldest frozen memtable, the next one to flush, if any is frozen.
    pub fn oldest_frozen(&self) -> (r: Option<&crate::memtable::MemTable>)
        ensures
            (r is Some) == (self.spec_state().memtables.imm_memtables@.len() > 0),
            r is Some ==> *r.unwrap() == self.spec_state().memtables.imm_memtables@.last(),
    {
        let n: usize = self.state.memtables.imm_memtables.len();
        if n == 0 {
            None
        } else {
            Some(&self.state.memtables.imm_memtables[n - 1])
        }
    }

    /// Whether a flush into the file `file_id` takes place: a memtable is
    /// frozen, and the version does not list the file yet.
    pub open spec fn flush_due(&self, file_id: usize) -> bool {
        self.spec_state().memtables.imm_memtables@.len() > 0 && !self.spec_state().version.holds(
            file_id,
        )
    }

    /// Records that the oldest frozen memtable was written to the file
    /// `file_id`: takes that memtable off the frozen list and lists the file as
    /// the newest of level 0. The active memtable, the other frozen ones and
    /// the deeper levels stay as they are. Returns whether the flush took
    /// place; where it did not, nothing changes.
    pub fn flush_imm_memtables(&mut self, file_id: usize) -> (r: bool)
        requires
            old(self).wf(),
        ensures
            final(self).wf(),
            r == old(self).flush_due(file_id),
            final(self).spec_next_id() == old(self).spec_next_id(),
            final(self).spec_threshold() == old(self).spec_threshold(),
            final(self).spec_config() == old(self).spec_config(),
            r ==> {
                &&& final(self).spec_state().memtables.memtable == old(
                    self,
                ).spec_state().memtables.memtable
                &&& final(self).spec_state().memtables.imm_memtables@ == old(
                    self,
                ).spec_state().memtables.imm_memtables@.drop_last()
                &&& final(self).spec_state().version.l0_sstables@ == seq![file_id] + old(
                    self,
                ).spec_state().version.l0_sstables@
                &&& final(self).spec_state().version.levels@ == old(
                    self,
                ).spec_state().version.levels@
            },
            !r ==> final(self).spec_state() == old(self).spec_state(),
    {
        if self.state.memtables.imm_memtables.len() == 0 {
            return false;
        }
        if self.state.version.contains(file_id) {
            return false;
        }
        let _ = self.state.memtables.imm_memtables.pop();
        let _ = self.state.version.add_l0_sstable(file_id);
        true
    }

    /// One round of compaction: asks the controller for a task and, where it
    /// proposes one, records the merge that produced the files `outputs`.
    /// Returns whether a task was applied; no task is no error, and then the
    /// engine stays as it is. A proposed task whose produced files cannot be
    /// taken gives `InvalidOutput`, and the engine stays as it is too.
    pub fn force_compaction(&mut self, controller: &CompactionController, outputs: &Vec<usize>) -> (r:
        Result<bool, CompactionError>)
        ensures
            final(self).spec_next_id() == old(self).spec_next_id(),
            final(self).spec_threshold() == old(self).spec_threshold(),
            final(self).spec_config() == old(self).spec_config(),
            old(self).wf() ==> final(self).wf(),
            !controller.due(old(self).spec_state().version) ==> r == Ok::<bool, CompactionError>(
                false,
            ) && final(self).spec_state() == old(self).spec_state(),
            controller.due(old(self).spec_state().version) ==> r != Ok::<bool, CompactionError>(
                false,
            ) && merge_outcome(
                old(self).spec_state(),
                controller.due_inputs(old(self).spec_state().version),
                controller.due_target(old(self).spec_state().version),
                outputs@,
                final(self).spec_state(),
                match r {
                    Ok(_) => Ok(()),
                    Err(e) => Err(e),
                },
            ),
    {
        match controller.pick_compaction(&self.state) {
            None => Ok(false),
            Some(task) => match controller.apply_compaction(&mut self.state, &task, outputs) {
                Ok(()) => Ok(true),
                Err(e) => Err(e),
            },
        }
    }
}

} // verus!
