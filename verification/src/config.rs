//! Engine configuration.

use crate::compaction::CompactionStyle;
use vstd::prelude::*;

verus! {

/// What an engine is configured with.
#[derive(Debug, Clone, Copy)]
pub struct LsmEngineConfig {
    /// Block size in bytes of the sorted-file layout.
    pub block_size: usize,
    /// Target size in bytes of one sorted file.
    pub target_sst_size: usize,
    /// Number of frozen memtables allowed before a flush is forced.
    pub num_memtable_limit: usize,
    /// Compaction strategy.
    pub compaction: CompactionStyle,
    /// Whether writes go to a write-ahead log.
    pub enable_wal: bool,
    /// Whether reads and writes must be serializable.
    pub serializable: bool,
}

impl LsmEngineConfig {
    /// The default configuration: 4 KiB blocks, 2 MiB files, 50 frozen
    /// memtables, no compaction, no log, not serializable.
    pub open spec fn is_default(&self) -> bool {
        &&& self.block_size == 4096
        &&& self.target_sst_size == 2097152
        &&& self.num_memtable_limit == 50
        &&& self.compaction == CompactionStyle::NoCompaction
        &&& !self.enable_wal
        &&& !self.serializable
    }

    /// The default configuration.
    pub fn new() -> (r: Self)
        ensures
            r.is_default(),
    {
        Self::default()
    }
}

impl Default for LsmEngineConfig {
    fn default() -> (r: Self)
        ensures
            r.is_default(),
    {
        Self {
            block_size: 4096,
            target_sst_size: 2097152,
            num_memtable_limit: 50,
            compaction: CompactionStyle::NoCompaction,
            enable_wal: false,
            serializable: false,
        }
    }
}

} // verus!
