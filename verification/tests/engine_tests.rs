use lsmkv::compaction::{
    CompactionController, CompactionError, CompactionStyle, CompactionTask, LevelCompactionTask,
    LeveledCompaction, SimpleCompaction, SimpleCompactionTask, TieredCompaction,
    TieredCompactionTask, LEVELED_L0_THRESHOLD, SIMPLE_L0_THRESHOLD,
};
use lsmkv::config::LsmEngineConfig;
use lsmkv::engine::{LsmEngine, LsmEngineState, Operation, MEMTABLE_FLUSH_THRESHOLD};
use lsmkv::memtable::MemTable;
use lsmkv::memtable_set::MemtableSet;
use lsmkv::version::LsmVersion;

fn frozen_ids(engine: &LsmEngine) -> Vec<usize> {
    engine.state().memtables.imm_memtables.iter().map(|m| m.id()).collect()
}

#[test]
fn memtable_starts_empty() {
    let table = MemTable::new(7);
    assert_eq!(table.id(), 7);
    assert_eq!(table.approximate_size(), 0);
    assert_eq!(table.get(b"a"), None);
}

#[test]
fn memtable_put_then_get() {
    let mut table = MemTable::new(0);
    assert_eq!(table.put(b"apple", b"red"), Ok(()));
    assert_eq!(table.put(b"pear", b"green"), Ok(()));
    assert_eq!(table.get(b"apple"), Some(b"red".to_vec()));
    assert_eq!(table.get(b"pear"), Some(b"green".to_vec()));
    assert_eq!(table.get(b"plum"), None);
    assert_eq!(table.approximate_size(), 8 + 9);
}

#[test]
fn memtable_overwrite_adds_to_the_estimate() {
    let mut table = MemTable::new(0);
    table.put(b"k", b"one").unwrap();
    table.put(b"k", b"three").unwrap();
    assert_eq!(table.get(b"k"), Some(b"three".to_vec()));
    assert_eq!(table.approximate_size(), 4 + 6);
}

#[test]
fn memtable_returns_tombstones() {
    let mut table = MemTable::new(0);
    table.put(b"k", b"v").unwrap();
    table.put(b"k", b"").unwrap();
    assert_eq!(table.get(b"k"), Some(Vec::new()));
    assert_eq!(table.approximate_size(), 3);
}

#[test]
fn memtable_set_starts_with_id_zero() {
    let set = MemtableSet::new();
    assert_eq!(set.memtable.id(), 0);
    assert!(set.imm_memtables.is_empty());
    assert_eq!(set.get(b"a"), None);
}

#[test]
fn memtable_set_newest_write_shadows_older() {
    let mut set = MemtableSet::new();
    set.put(b"a", b"old").unwrap();
    set.put(b"b", b"kept").unwrap();
    set.freeze(1);
    set.put(b"a", b"mid").unwrap();
    set.freeze(2);
    assert_eq!(set.get(b"a"), Some(b"mid".to_vec()));
    set.put(b"a", b"new").unwrap();
    assert_eq!(set.get(b"a"), Some(b"new".to_vec()));
    assert_eq!(set.get(b"b"), Some(b"kept".to_vec()));
    assert_eq!(set.get(b"c"), None);
    assert_eq!(set.memtable.id(), 2);
    assert_eq!(set.imm_memtables[0].id(), 1);
    assert_eq!(set.imm_memtables[1].id(), 0);
    assert_eq!(set.imm_memtables[1].get(b"a"), Some(b"old".to_vec()));
}

#[test]
fn memtable_set_delete_writes_a_tombstone() {
    let mut set = MemtableSet::new();
    set.put(b"a", b"1").unwrap();
    set.freeze(1);
    assert_eq!(set.delete(b"a"), Ok(()));
    assert_eq!(set.get(b"a"), Some(Vec::new()));
    assert_eq!(set.imm_memtables[0].get(b"a"), Some(b"1".to_vec()));
}

#[test]
fn config_defaults() {
    let config = LsmEngineConfig::new();
    assert_eq!(config.block_size, 4096);
    assert_eq!(config.target_sst_size, 2 << 20);
    assert_eq!(config.num_memtable_limit, 50);
    assert_eq!(config.compaction, CompactionStyle::NoCompaction);
    assert!(!config.enable_wal);
    assert!(!config.serializable);
    let other = LsmEngineConfig::default();
    assert_eq!(other.block_size, 4096);
}

#[test]
fn new_engine_is_empty() {
    let engine = LsmEngine::new(LsmEngineConfig::new());
    assert_eq!(MEMTABLE_FLUSH_THRESHOLD, 4 * 1024 * 1024);
    assert_eq!(engine.get(b"a"), None);
    assert_eq!(engine.state().memtables.memtable.id(), 0);
    assert!(engine.state().memtables.imm_memtables.is_empty());
    assert!(engine.state().version.l0_sstables.is_empty());
    assert!(engine.state().version.levels.is_empty());
    assert!(engine.oldest_frozen().is_none());
}

#[test]
fn put_below_the_threshold_does_not_freeze() {
    let mut engine = LsmEngine::new(LsmEngineConfig::new());
    engine.put(b"a", b"1");
    engine.force_freeze_memtable();
    assert!(engine.state().memtables.imm_memtables.is_empty());
    assert_eq!(engine.state().memtables.memtable.approximate_size(), 2);
    assert_eq!(engine.get(b"a"), Some(b"1".to_vec()));
}

#[test]
fn put_over_the_threshold_freezes_and_keeps_the_data() {
    let mut engine = LsmEngine::with_flush_threshold(LsmEngineConfig::new(), 100);
    let long = vec![b'x'; 98];
    engine.put(b"a", b"1");
    assert!(engine.state().memtables.imm_memtables.is_empty());
    engine.put(b"b", &long);
    assert_eq!(frozen_ids(&engine), vec![0]);
    assert_eq!(engine.state().memtables.memtable.id(), 1);
    assert_eq!(engine.state().memtables.memtable.approximate_size(), 0);
    assert_eq!(engine.state().memtables.memtable.get(b"a"), None);
    assert_eq!(engine.get(b"a"), Some(b"1".to_vec()));
    assert_eq!(engine.get(b"b"), Some(long.clone()));
    assert_eq!(engine.state().memtables.imm_memtables[0].get(b"b"), Some(long));
    assert_eq!(engine.state().memtables.imm_memtables[0].approximate_size(), 101);
    assert_eq!(engine.oldest_frozen().unwrap().id(), 0);
}

#[test]
fn two_writes_of_93_bytes_stay_under_a_threshold_of_100() {
    let mut engine = LsmEngine::with_flush_threshold(LsmEngineConfig::new(), 100);
    let long = vec![b'x'; 90];
    engine.put(b"a", b"1");
    engine.put(b"b", &long);
    assert_eq!(engine.get(b"a"), Some(b"1".to_vec()));
    assert_eq!(engine.get(b"b"), Some(long.clone()));
    assert_eq!(engine.state().memtables.memtable.approximate_size(), 93);
    assert!(engine.state().memtables.imm_memtables.is_empty());
    engine.put(b"c", b"123456");
    assert_eq!(frozen_ids(&engine), vec![0]);
    assert_eq!(engine.get(b"a"), Some(b"1".to_vec()));
    assert_eq!(engine.get(b"b"), Some(long));
}

#[test]
fn threshold_is_reached_at_equality() {
    let mut engine = LsmEngine::with_flush_threshold(LsmEngineConfig::new(), 4);
    engine.put(b"a", b"12");
    assert!(engine.state().memtables.imm_memtables.is_empty());
    engine.put(b"b", b"");
    assert_eq!(frozen_ids(&engine), vec![0]);
}

#[test]
fn freeze_keeps_every_answer() {
    let mut engine = LsmEngine::with_flush_threshold(LsmEngineConfig::new(), 0);
    let keys: Vec<Vec<u8>> = (0u8..20).map(|i| vec![b'k', i]).collect();
    for (i, key) in keys.iter().enumerate() {
        engine.put(key, &vec![i as u8; 60]);
    }
    engine.delete(&keys[3]);
    let before: Vec<Option<Vec<u8>>> = keys.iter().map(|k| engine.get(k)).collect();
    let frozen_before = frozen_ids(&engine).len();
    engine.force_freeze_memtable();
    assert_eq!(frozen_ids(&engine).len(), frozen_before + 1);
    let after: Vec<Option<Vec<u8>>> = keys.iter().map(|k| engine.get(k)).collect();
    assert_eq!(before, after);
    assert_eq!(engine.get(b"never"), None);
}

#[test]
fn ids_fall_from_newest_to_oldest() {
    let mut engine = LsmEngine::with_flush_threshold(LsmEngineConfig::new(), 10);
    for i in 0u8..5 {
        engine.put(&[i], &[0u8; 12]);
    }
    assert_eq!(frozen_ids(&engine), vec![4, 3, 2, 1, 0]);
    assert_eq!(engine.state().memtables.memtable.id(), 5);
}

#[test]
fn last_write_wins_across_freezes() {
    let mut engine = LsmEngine::with_flush_threshold(LsmEngineConfig::new(), 16);
    engine.put(b"a", b"a1");
    engine.put(b"b", b"b1");
    engine.put(b"c", b"c1-a-long-value-to-freeze");
    engine.put(b"a", b"a2");
    engine.delete(b"b");
    engine.put(b"d", b"d1-a-long-value-to-freeze");
    engine.put(b"c", b"c2");
    assert!(frozen_ids(&engine).len() >= 2);
    assert_eq!(engine.get(b"a"), Some(b"a2".to_vec()));
    assert_eq!(engine.get(b"b"), Some(Vec::new()));
    assert_eq!(engine.get(b"c"), Some(b"c2".to_vec()));
    assert_eq!(engine.get(b"d"), Some(b"d1-a-long-value-to-freeze".to_vec()));
    assert_eq!(engine.get(b"e"), None);
}

#[test]
fn flush_takes_the_oldest_frozen_memtable() {
    let mut engine = LsmEngine::with_flush_threshold(LsmEngineConfig::new(), 1);
    engine.put(b"a", b"1");
    engine.put(b"b", b"2");
    assert_eq!(frozen_ids(&engine), vec![1, 0]);
    assert!(engine.flush_imm_memtables(70));
    assert_eq!(frozen_ids(&engine), vec![1]);
    assert_eq!(engine.state().version.l0_sstables, vec![70]);
    assert_eq!(engine.get(b"a"), None);
    assert_eq!(engine.get(b"b"), Some(b"2".to_vec()));
    assert!(!engine.flush_imm_memtables(70));
    assert_eq!(frozen_ids(&engine), vec![1]);
    assert!(engine.flush_imm_memtables(71));
    assert_eq!(engine.state().version.l0_sstables, vec![71, 70]);
    assert!(!engine.flush_imm_memtables(72));
    assert_eq!(engine.state().version.l0_sstables, vec![71, 70]);
}

#[test]
fn version_lists_a_file_once() {
    let mut version = LsmVersion::new();
    assert!(!version.contains(1));
    assert!(version.add_l0_sstable(1));
    assert!(version.add_l0_sstable(2));
    assert!(!version.add_l0_sstable(1));
    assert_eq!(version.l0_sstables, vec![2, 1]);
    version.levels.push((1, vec![10, 11]));
    version.levels.push((2, vec![20]));
    assert!(version.contains(11));
    assert!(version.contains(20));
    assert!(!version.contains(12));
    assert!(!version.add_l0_sstable(20));
    assert_eq!(version.l0_sstables, vec![2, 1]);
}

#[test]
fn full_flush_marker() {
    assert!(CompactionTask::FullFlush.is_full_compaction());
    let task = CompactionTask::Simple(SimpleCompactionTask { input_files: vec![1] });
    assert!(!task.is_full_compaction());
}

#[test]
fn controllers_propose_nothing() {
    let state = LsmEngineState::new();
    let leveled = LeveledCompaction { max_levels: 4, target_file_size: 1024 };
    assert!(leveled.pick(&state).is_none());
    assert!(TieredCompaction { max_tier: 3 }.pick(&state).is_none());
    assert!(SimpleCompaction.pick(&state).is_none());
    assert!(CompactionController::NoCompaction.pick_compaction(&state).is_none());
    assert!(CompactionController::Leveled(leveled).pick_compaction(&state).is_none());
}

#[test]
fn tiered_task_on_leveled_controller_is_refused() {
    let mut state = LsmEngineState::new();
    state.memtables.put(b"a", b"1").unwrap();
    let controller =
        CompactionController::Leveled(LeveledCompaction { max_levels: 4, target_file_size: 1024 });
    let task =
        CompactionTask::Tiered(TieredCompactionTask { input_sstables: vec![1, 2], output_tier: 1 });
    assert_eq!(
        controller.apply_compaction(&mut state, &task, &vec![9]),
        Err(CompactionError::InvalidCombination)
    );
    assert_eq!(state.memtables.get(b"a"), Some(b"1".to_vec()));
    assert!(state.version.l0_sstables.is_empty());
    assert_eq!(
        CompactionError::InvalidCombination.message(),
        "invalid compaction-task combination"
    );
}

#[test]
fn every_mismatch_is_refused() {
    let mut state = LsmEngineState::new();
    let leveled = CompactionTask::Leveled(LevelCompactionTask {
        input_l0: vec![1],
        input_l1: vec![2],
        target_level: 1,
    });
    let simple = CompactionTask::Simple(SimpleCompactionTask { input_files: vec![1] });
    let tiered = CompactionController::Tiered(TieredCompaction { max_tier: 3 });
    let none = CompactionController::NoCompaction;
    let err = Err(CompactionError::InvalidCombination);
    assert_eq!(tiered.apply_compaction(&mut state, &leveled, &Vec::new()), err);
    assert_eq!(tiered.apply_compaction(&mut state, &simple, &Vec::new()), err);
    assert_eq!(tiered.apply_compaction(&mut state, &CompactionTask::FullFlush, &Vec::new()), err);
    assert_eq!(none.apply_compaction(&mut state, &simple, &Vec::new()), err);
    assert_eq!(none.apply_compaction(&mut state, &CompactionTask::FullFlush, &Vec::new()), err);
    assert_eq!(
        CompactionController::Simple(SimpleCompaction).apply_compaction(&mut state, &leveled, &Vec::new()),
        err
    );
}

fn state_with_files() -> LsmEngineState {
    let mut state = LsmEngineState::new();
    state.memtables.put(b"a", b"1").unwrap();
    assert!(state.version.add_l0_sstable(1));
    assert!(state.version.add_l0_sstable(2));
    assert!(state.version.add_l0_sstable(3));
    state.version.levels.push((1, vec![10, 11]));
    state
}

#[test]
fn matching_task_is_applied() {
    let mut state = state_with_files();
    let simple = CompactionController::Simple(SimpleCompaction);
    let task = CompactionTask::Simple(SimpleCompactionTask { input_files: vec![3, 2, 1, 10] });
    assert_eq!(simple.apply_compaction(&mut state, &task, &vec![20, 21]), Ok(()));
    assert_eq!(state.version.l0_sstables, Vec::<usize>::new());
    assert_eq!(state.version.levels, vec![(1, vec![11, 20, 21])]);
    assert_eq!(state.memtables.get(b"a"), Some(b"1".to_vec()));

    let tiered = CompactionController::Tiered(TieredCompaction { max_tier: 3 });
    let task =
        CompactionTask::Tiered(TieredCompactionTask { input_sstables: vec![11], output_tier: 7 });
    assert_eq!(tiered.apply_compaction(&mut state, &task, &vec![30]), Ok(()));
    assert_eq!(state.version.levels, vec![(1, vec![20, 21]), (7, vec![30])]);

    let leveled =
        CompactionController::Leveled(LeveledCompaction { max_levels: 4, target_file_size: 1 });
    assert!(state.version.add_l0_sstable(4));
    let task = CompactionTask::Leveled(LevelCompactionTask {
        input_l0: vec![4],
        input_l1: vec![20],
        target_level: 1,
    });
    assert_eq!(leveled.apply_compaction(&mut state, &task, &vec![40]), Ok(()));
    assert_eq!(state.version.l0_sstables, Vec::<usize>::new());
    assert_eq!(state.version.levels, vec![(1, vec![21, 40]), (7, vec![30])]);
    for gone in [1, 2, 3, 4, 10, 11, 20] {
        assert!(!state.version.contains(gone));
    }
}

#[test]
fn produced_files_that_cannot_be_taken_are_refused() {
    let mut state = state_with_files();
    let simple = CompactionController::Simple(SimpleCompaction);
    let task = CompactionTask::Simple(SimpleCompactionTask { input_files: vec![3, 10] });
    let err = Err(CompactionError::InvalidOutput);
    assert_eq!(simple.apply_compaction(&mut state, &task, &vec![11]), err);
    assert_eq!(simple.apply_compaction(&mut state, &task, &vec![2]), err);
    assert_eq!(simple.apply_compaction(&mut state, &task, &vec![3]), err);
    assert_eq!(simple.apply_compaction(&mut state, &task, &vec![50, 50]), err);
    assert_eq!(state.version.l0_sstables, vec![3, 2, 1]);
    assert_eq!(state.version.levels, vec![(1, vec![10, 11])]);
    assert_eq!(CompactionError::InvalidOutput.message(), "invalid compaction output files");
    assert_eq!(simple.apply_compaction(&mut state, &task, &Vec::new()), Ok(()));
    assert_eq!(state.version.l0_sstables, vec![2, 1]);
    assert_eq!(state.version.levels, vec![(1, vec![11])]);
}

#[test]
fn version_records_a_merge() {
    let mut state = state_with_files();
    assert!(!state.version.can_take(&vec![1], &vec![2]));
    assert!(state.version.can_take(&vec![1], &vec![5, 6]));
    assert_eq!(state.version.level_place(1), 0);
    assert_eq!(state.version.level_place(2), 1);
    assert!(state.version.compact(&vec![2, 11, 99], 2, &vec![5, 6]));
    assert_eq!(state.version.l0_sstables, vec![3, 1]);
    assert_eq!(state.version.levels, vec![(1, vec![10]), (2, vec![5, 6])]);
    assert!(!state.version.compact(&vec![3], 2, &vec![5]));
    assert_eq!(state.version.l0_sstables, vec![3, 1]);
}

#[test]
fn simple_strategy_proposes_a_full_merge_over_the_threshold() {
    let mut state = state_with_files();
    assert_eq!(SIMPLE_L0_THRESHOLD, 4);
    assert!(state.version.add_l0_sstable(4));
    assert!(SimpleCompaction.pick(&state).is_none());
    assert!(state.version.add_l0_sstable(5));
    state.version.levels.push((2, vec![77]));
    let controller = CompactionController::Simple(SimpleCompaction);
    match controller.pick_compaction(&state) {
        Some(CompactionTask::Simple(task)) => {
            assert_eq!(task.input_files, vec![5, 4, 3, 2, 1, 10, 11]);
        }
        other => panic!("no simple task: {:?}", other),
    }
    state.version.levels.remove(0);
    match SimpleCompaction.pick(&state) {
        Some(CompactionTask::Simple(task)) => assert_eq!(task.input_files, vec![5, 4, 3, 2, 1]),
        other => panic!("no simple task: {:?}", other),
    }
    assert!(TieredCompaction { max_tier: 1 }.pick(&state).is_none());
    assert!(CompactionController::NoCompaction.pick_compaction(&state).is_none());
}

#[test]
fn engine_runs_a_round_of_simple_compaction() {
    let mut engine = LsmEngine::with_flush_threshold(LsmEngineConfig::new(), 1);
    for i in 0u8..6 {
        engine.put(&[i], b"v");
    }
    for file in 1usize..=5 {
        assert!(engine.flush_imm_memtables(file));
    }
    assert_eq!(engine.state().version.l0_sstables, vec![5, 4, 3, 2, 1]);
    let simple = CompactionController::Simple(SimpleCompaction);
    let tiered = CompactionController::Tiered(TieredCompaction { max_tier: 1 });
    assert_eq!(engine.force_compaction(&tiered, &vec![100]), Ok(false));
    assert_eq!(
        engine.force_compaction(&simple, &vec![3]),
        Err(CompactionError::InvalidOutput)
    );
    assert_eq!(engine.state().version.l0_sstables, vec![5, 4, 3, 2, 1]);
    assert_eq!(engine.force_compaction(&simple, &vec![100, 101]), Ok(true));
    assert!(engine.state().version.l0_sstables.is_empty());
    assert_eq!(engine.state().version.levels, vec![(1, vec![100, 101])]);
    assert_eq!(frozen_ids(&engine), vec![5]);
    assert_eq!(engine.get(&[5]), Some(b"v".to_vec()));
    assert_eq!(engine.force_compaction(&simple, &vec![200]), Ok(false));
    assert_eq!(engine.state().version.levels, vec![(1, vec![100, 101])]);
}

#[test]
fn small_put_on_a_fresh_engine_does_not_freeze() {
    let mut engine = LsmEngine::new(LsmEngineConfig::new());
    assert_eq!(engine.state().memtables.memtable.approximate_size(), 0);
    engine.put(b"a", b"1");
    engine.force_freeze_memtable();
    assert_eq!(engine.get(b"a"), Some(b"1".to_vec()));
    assert!(engine.state().memtables.imm_memtables.is_empty());
    assert_eq!(engine.state().memtables.memtable.id(), 0);
    assert_eq!(engine.config().num_memtable_limit, 50);
    assert!(!engine.config().enable_wal);
}

#[test]
fn compaction_without_a_task_is_no_error() {
    let mut engine = LsmEngine::with_flush_threshold(LsmEngineConfig::new(), 1);
    engine.put(b"a", b"1");
    let controller = CompactionController::Simple(SimpleCompaction);
    assert_eq!(engine.force_compaction(&controller, &vec![1]), Ok(false));
    assert_eq!(engine.get(b"a"), Some(b"1".to_vec()));
    assert_eq!(frozen_ids(&engine), vec![0]);
}

#[test]
fn memtable_lists_its_entries_in_key_order() {
    let mut table = MemTable::new(0);
    table.put(b"pear", b"3").unwrap();
    table.put(b"apple", b"1").unwrap();
    table.put(b"pea", b"2").unwrap();
    table.put(b"", b"0").unwrap();
    table.put(b"apple", b"").unwrap();
    assert_eq!(
        table.sorted_entries(),
        vec![
            (b"".to_vec(), b"0".to_vec()),
            (b"apple".to_vec(), b"".to_vec()),
            (b"pea".to_vec(), b"2".to_vec()),
            (b"pear".to_vec(), b"3".to_vec()),
        ]
    );
    assert!(MemTable::new(1).sorted_entries().is_empty());
}

#[test]
fn oldest_frozen_memtable_is_the_one_flushed() {
    let mut engine = LsmEngine::with_flush_threshold(LsmEngineConfig::new(), 1);
    engine.put(b"b", b"2");
    engine.put(b"a", b"1");
    let oldest = engine.oldest_frozen().unwrap();
    assert_eq!(oldest.id(), 0);
    assert_eq!(oldest.sorted_entries(), vec![(b"b".to_vec(), b"2".to_vec())]);
    assert!(engine.flush_imm_memtables(9));
    assert_eq!(engine.oldest_frozen().unwrap().id(), 1);
}

#[test]
fn tiered_strategy_merges_all_tiers_into_a_new_one() {
    let mut state = LsmEngineState::new();
    state.version.levels.push((1, vec![10, 11]));
    state.version.levels.push((2, vec![]));
    state.version.levels.push((5, vec![50]));
    assert_eq!(state.version.survey(), (2, vec![10, 11, 50], Some(6)));
    assert!(TieredCompaction { max_tier: 2 }.pick(&state).is_none());
    let controller = CompactionController::Tiered(TieredCompaction { max_tier: 1 });
    let task = controller.pick_compaction(&state).unwrap();
    match &task {
        CompactionTask::Tiered(t) => {
            assert_eq!(t.input_sstables, vec![10, 11, 50]);
            assert_eq!(t.output_tier, 6);
        }
        other => panic!("no tiered task: {:?}", other),
    }
    assert_eq!(controller.apply_compaction(&mut state, &task, &vec![60]), Ok(()));
    assert_eq!(
        state.version.levels,
        vec![(1, vec![]), (2, vec![]), (5, vec![]), (6, vec![60])]
    );
    assert!(controller.pick_compaction(&state).is_none());
}

#[test]
fn tiered_strategy_without_a_number_for_the_new_tier_proposes_nothing() {
    let mut state = LsmEngineState::new();
    state.version.levels.push((usize::MAX, vec![1]));
    state.version.levels.push((3, vec![2]));
    assert_eq!(state.version.survey(), (2, vec![1, 2], None));
    assert!(TieredCompaction { max_tier: 0 }.pick(&state).is_none());
}

#[test]
fn engine_runs_a_round_of_tiered_compaction() {
    let mut engine = LsmEngine::with_flush_threshold(LsmEngineConfig::new(), 1);
    engine.put(b"a", b"1");
    assert!(engine.flush_imm_memtables(1));
    let simple = CompactionController::Simple(SimpleCompaction);
    assert_eq!(engine.force_compaction(&simple, &vec![9]), Ok(false));
    let zero = CompactionController::Tiered(TieredCompaction { max_tier: 0 });
    assert_eq!(engine.force_compaction(&zero, &vec![9]), Ok(false));
    assert_eq!(engine.state().version.l0_sstables, vec![1]);
}

#[test]
fn history_ends_with_the_last_write_of_each_key() {
    let mut engine = LsmEngine::with_flush_threshold(LsmEngineConfig::new(), 0);
    let history = vec![
        Operation::Put { key: b"a".to_vec(), value: b"1".to_vec() },
        Operation::Put { key: b"b".to_vec(), value: b"2".to_vec() },
        Operation::Freeze,
        Operation::Delete { key: b"a".to_vec() },
        Operation::Put { key: b"c".to_vec(), value: b"3".to_vec() },
        Operation::Freeze,
        Operation::Put { key: b"c".to_vec(), value: b"4".to_vec() },
    ];
    engine.run(&history);
    assert_eq!(engine.get(b"a"), Some(Vec::new()));
    assert_eq!(engine.get(b"b"), Some(b"2".to_vec()));
    assert_eq!(engine.get(b"c"), Some(b"4".to_vec()));
    assert_eq!(engine.get(b"d"), None);
    assert_eq!(frozen_ids(&engine), vec![6, 5, 4, 3, 2, 1, 0]);
    engine.run(&Vec::new());
    assert_eq!(engine.get(b"c"), Some(b"4".to_vec()));
}

#[test]
fn leveled_strategy_merges_level_0_into_level_1_over_the_threshold() {
    let mut state = state_with_files();
    let leveled = LeveledCompaction { max_levels: 4, target_file_size: 1 };
    assert_eq!(LEVELED_L0_THRESHOLD, 4);
    assert!(state.version.add_l0_sstable(4));
    assert!(leveled.pick(&state).is_none());
    assert!(state.version.add_l0_sstable(5));
    let controller = CompactionController::Leveled(leveled);
    let task = controller.pick_compaction(&state).unwrap();
    match &task {
        CompactionTask::Leveled(t) => {
            assert_eq!(t.input_l0, vec![5, 4, 3, 2, 1]);
            assert_eq!(t.input_l1, vec![10, 11]);
            assert_eq!(t.target_level, 1);
        }
        other => panic!("no leveled task: {:?}", other),
    }
    assert_eq!(controller.apply_compaction(&mut state, &task, &vec![20]), Ok(()));
    assert!(state.version.l0_sstables.is_empty());
    assert_eq!(state.version.levels, vec![(1, vec![20])]);
    assert!(controller.pick_compaction(&state).is_none());
}
