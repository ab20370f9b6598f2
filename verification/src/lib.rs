//! An embedded log-structured-merge key-value engine: memtables, immutable
//! version snapshots, compaction controllers and a checksummed write-ahead log.

pub mod compaction;
pub mod config;
pub mod engine;
pub mod engine_laws;
pub mod memtable;
pub mod memtable_set;
pub mod version;
pub mod wal;
pub mod wal_laws;
