//! Compaction: a controller of one strategy proposes a task for a state and
//! applies a task of its own strategy to it.

use crate::engine::LsmEngineState;
use crate::version::{
    all_files, append_all, level_files, next_number, tier_count, LsmVersion,
};
use vstd::prelude::*;

verus! {

/// Number of level-0 files above which the simple strategy merges level 0
/// into level 1.
pub const SIMPLE_L0_THRESHOLD: usize = 4;

/// Number of level-0 files above which the leveled strategy merges level 0
/// into level 1.
pub const LEVELED_L0_THRESHOLD: usize = 4;

/// The compaction strategy that a configuration selects.
#[derive(Debug, Clone, Copy, PartialEq, Eq, Structural)]
pub enum CompactionStyle {
    Leveled,
    Tiered,
    Simple,
    /// Compaction is switched off.
    NoCompaction,
}

/// A leveled merge: level-0 and level-1 input files and the target level.
#[derive(Debug)]
pub struct LevelCompactionTask {
    pub input_l0: Vec<usize>,
    pub input_l1: Vec<usize>,
    pub target_level: usize,
}

/// A tiered merge: the input files and the output tier.
#[derive(Debug)]
pub struct TieredCompactionTask {
    pub input_sstables: Vec<usize>,
    pub output_tier: usize,
}

/// A simple merge of level 0 into level 1: the input files.
#[derive(Debug)]
pub struct SimpleCompactionTask {
    pub input_files: Vec<usize>,
}

/// One pending merge, of one strategy, or the full-flush marker.
#[derive(Debug)]
pub enum CompactionTask {
    Leveled(LevelCompactionTask),
    Tiered(TieredCompactionTask),
    Simple(SimpleCompactionTask),
    FullFlush,
}

/// Why a task was not applied.
#[derive(Debug, Clone, Copy, PartialEq, Eq, Structural)]
pub enum CompactionError {
    /// The task is not of the controller's strategy.
    InvalidCombination,
    /// A produced file is listed already, is consumed by the task, or is
    /// named twice.
    InvalidOutput,
}

impl CompactionError {
    /// The error in words.
    pub fn message(&self) -> (r: String)
        ensures
            r@ == match *self {
                CompactionError::InvalidCombination => "invalid compaction-task combination"@,
                CompactionError::InvalidOutput => "invalid compaction output files"@,
            },
    {
        match self {
            CompactionError::InvalidCombination => String::from_str(
                "invalid compaction-task combination",
            ),
            CompactionError::InvalidOutput => String::from_str("invalid compaction output files"),
        }
    }
}

impl CompactionTask {
    /// Whether the task is the full-flush marker.
    pub fn is_full_compaction(&self) -> (r: bool)
        ensures
            r == (self is FullFlush),
    {
        matches!(self, CompactionTask::FullFlush)
    }

    /// The strategy that the task belongs to; the full-flush marker belongs to
    /// none.
    pub open spec fn spec_style(&self) -> Option<CompactionStyle> {
        match self {
            CompactionTask::Leveled(_) => Some(CompactionStyle::Leveled),
            CompactionTask::Tiered(_) => Some(CompactionStyle::Tiered),
            CompactionTask::Simple(_) => Some(CompactionStyle::Simple),
            CompactionTask::FullFlush => None,
        }
    }

    /// The files that the task consumes.
    pub open spec fn spec_inputs(&self) -> Seq<usize> {
        match self {
            CompactionTask::Leveled(t) => t.input_l0@ + t.input_l1@,
            CompactionTask::Tiered(t) => t.input_sstables@,
            CompactionTask::Simple(t) => t.input_files@,
            CompactionTask::FullFlush => Seq::empty(),
        }
    }

    /// The number of the level or tier that takes the produced files; the
    /// simple strategy merges into level 1.
    pub open spec fn spec_target(&self) -> usize {
        match self {
            CompactionTask::Leveled(t) => t.target_level,
            CompactionTask::Tiered(t) => t.output_tier,
            CompactionTask::Simple(_) => 1,
            CompactionTask::FullFlush => 0,
        }
    }
}

/// What applying a merge gives. Where the produced files can be taken: `Ok`,
/// the memtables as before, no consumed file listed any more, every other
/// file at its place, the produced files in the target level, and a version
/// without repeats still without repeats. Where they cannot: `InvalidOutput`,
/// and the state as before.
pub open spec fn merge_outcome(
    before: LsmEngineState,
    inputs: Seq<usize>,
    target: usize,
    outputs: Seq<usize>,
    after: LsmEngineState,
    r: Result<(), CompactionError>,
) -> bool {
    if before.version.accepts_outputs(inputs, outputs) {
        &&& r is Ok
        &&& after.memtables == before.memtables
        &&& before.version.merged_into(inputs, target, outputs, after.version)
        &&& forall|x: usize| inputs.contains(x) ==> !after.version.holds(x)
        &&& before.version.wf() ==> after.version.wf()
    } else {
        r == Err::<(), CompactionError>(CompactionError::InvalidOutput) && after == before
    }
}

/// Whether the simple strategy owes a task: level 0 lists more files than
/// `SIMPLE_L0_THRESHOLD`.
pub open spec fn simple_due(version: LsmVersion) -> bool {
    version.l0_sstables@.len() > SIMPLE_L0_THRESHOLD
}

/// What a merge of level 0 into level 1 consumes: all of level 0, then all
/// of level 1.
pub open spec fn simple_inputs(version: LsmVersion) -> Seq<usize> {
    version.l0_sstables@ + level_files(version.levels@, 1)
}

/// What the simple strategy proposes for a version: a simple task over all of
/// level 0 and level 1 where a task is owed, and nothing else.
pub open spec fn simple_pick(version: LsmVersion, r: Option<CompactionTask>) -> bool {
    if simple_due(version) {
        r matches Some(CompactionTask::Simple(t)) && t.input_files@ == simple_inputs(version)
    } else {
        r is None
    }
}

/// Records a merge in the state's version.
fn merge(state: &mut LsmEngineState, inputs: &Vec<usize>, target: usize, outputs: &Vec<usize>) -> (r:
    Result<(), CompactionError>)
    ensures
        merge_outcome(*old(state), inputs@, target, outputs@, *final(state), r),
{
    if state.version.compact(inputs, target, outputs) {
        Ok(())
    } else {
        Err(CompactionError::InvalidOutput)
    }
}

/// The leveled strategy.
#[derive(Debug)]
pub struct LeveledCompaction {
    pub max_levels: usize,
    pub target_file_size: usize,
}

impl LeveledCompaction {
    /// Whether the leveled strategy owes a task: level 0 lists more files than
    /// `LEVELED_L0_THRESHOLD`.
    pub open spec fn due(&self, version: LsmVersion) -> bool {
        version.l0_sstables@.len() > LEVELED_L0_THRESHOLD
    }

    /// What the leveled strategy proposes for a version: where a task is
    /// owed, a merge of level 0 into level 1 that takes all files of both;
    /// nothing before that.
    pub open spec fn picks(&self, version: LsmVersion, r: Option<CompactionTask>) -> bool {
        if self.due(version) {
            r matches Some(CompactionTask::Leveled(t)) && t.input_l0@ == version.l0_sstables@
                && t.input_l1@ == level_files(version.levels@, 1) && t.target_level == 1
        } else {
            r is None
        }
    }

    /// Proposes a merge of level 0 into level 1 once level 0 lists more files
    /// than `LEVELED_L0_THRESHOLD`, and nothing before that. A version lists
    /// neither the key ranges nor the sizes of its files, so every file of
    /// level 1 counts as overlapping, and no level is found over its target
    /// size. The state is only read.
    pub fn pick(&self, state: &LsmEngineState) -> (r: Option<CompactionTask>)
        ensures
            self.picks(state.version, r),
    {
        if state.version.l0_sstables.len() <= LEVELED_L0_THRESHOLD {
            return None;
        }
        let mut input_l0: Vec<usize> = Vec::new();
        append_all(&mut input_l0, &state.version.l0_sstables);
        let mut input_l1: Vec<usize> = Vec::new();
        let at = state.version.level_place(1);
        if at < state.version.levels.len() {
            append_all(&mut input_l1, &state.version.levels[at].1);
        }
        assert(input_l0@ =~= state.version.l0_sstables@);
        assert(input_l1@ =~= level_files(state.version.levels@, 1));
        Some(CompactionTask::Leveled(LevelCompactionTask { input_l0, input_l1, target_level: 1 }))
    }

    /// Records a leveled merge that produced the files `outputs`: the task's
    /// level-0 and level-1 inputs leave the version, and the produced files
    /// are listed in the task's target level.
    pub fn apply(
        &self,
        state: &mut LsmEngineState,
        task: &LevelCompactionTask,
        outputs: &Vec<usize>,
    ) -> (r: Result<(), CompactionError>)
        ensures
            merge_outcome(
                *old(state),
                task.input_l0@ + task.input_l1@,
                task.target_level,
                outputs@,
                *final(state),
                r,
            ),
    {
        let mut inputs: Vec<usize> = Vec::new();
        append_all(&mut inputs, &task.input_l0);
        append_all(&mut inputs, &task.input_l1);
        assert(inputs@ =~= task.input_l0@ + task.input_l1@);
        merge(state, &inputs, task.target_level, outputs)
    }
}

/// The tiered strategy.
#[derive(Debug)]
pub struct TieredCompaction {
    pub max_tier: usize,
}

impl TieredCompaction {
    /// Whether the tiered strategy owes a task: more tiers list files than
    /// `max_tier`, and a number is left for the output tier.
    pub open spec fn due(&self, version: LsmVersion) -> bool {
        tier_count(version.levels@) > self.max_tier && next_number(version.levels@) <= usize::MAX
    }

    /// What the tiered strategy proposes for a version: where a task is owed,
    /// a merge of the files of all tiers into one new tier, numbered above
    /// all others; nothing before that.
    pub open spec fn picks(&self, version: LsmVersion, r: Option<CompactionTask>) -> bool {
        if self.due(version) {
            r matches Some(CompactionTask::Tiered(t)) && t.input_sstables@ == all_files(
                version.levels@,
            ) && t.output_tier == next_number(version.levels@)
        } else {
            r is None
        }
    }

    /// Proposes a merge of the files of all tiers into one new tier once more
    /// tiers list files than `max_tier`, and nothing before that. The state
    /// is only read.
    pub fn pick(&self, state: &LsmEngineState) -> (r: Option<CompactionTask>)
        ensures
            self.picks(state.version, r),
    {
        let (count, files, next) = state.version.survey();
        if count <= self.max_tier {
            return None;
        }
        match next {
            None => None,
            Some(tier) => Some(
                CompactionTask::Tiered(
                    TieredCompactionTask { input_sstables: files, output_tier: tier },
                ),
            ),
        }
    }

    /// Records a tiered merge that produced the files `outputs`: the task's
    /// inputs leave the version, and the produced files are listed in the
    /// task's output tier.
    pub fn apply(
        &self,
        state: &mut LsmEngineState,
        task: &TieredCompactionTask,
        outputs: &Vec<usize>,
    ) -> (r: Result<(), CompactionError>)
        ensures
            merge_outcome(
                *old(state),
                task.input_sstables@,
                task.output_tier,
                outputs@,
                *final(state),
                r,
            ),
    {
        merge(state, &task.input_sstables, task.output_tier, outputs)
    }
}

/// The simple strategy.
#[derive(Debug)]
pub struct SimpleCompaction;

impl SimpleCompaction {
    /// Proposes a merge of all of level 0 and all of level 1 once level 0
    /// lists more files than `SIMPLE_L0_THRESHOLD`, and nothing before that.
    /// The state is only read.
    pub fn pick(&self, state: &LsmEngineState) -> (r: Option<CompactionTask>)
        ensures
            simple_pick(state.version, r),
    {
        if state.version.l0_sstables.len() <= SIMPLE_L0_THRESHOLD {
            return None;
        }
        let mut files: Vec<usize> = Vec::new();
        append_all(&mut files, &state.version.l0_sstables);
        let at = state.version.level_place(1);
        if at < state.version.levels.len() {
            append_all(&mut files, &state.version.levels[at].1);
        }
        assert(files@ =~= simple_inputs(state.version));
        Some(CompactionTask::Simple(SimpleCompactionTask { input_files: files }))
    }

    /// Records a simple merge that produced the files `outputs`: the task's
    /// inputs leave the version, and the produced files are listed in level 1.
    pub fn apply(
        &self,
        state: &mut LsmEngineState,
        task: &SimpleCompactionTask,
        outputs: &Vec<usize>,
    ) -> (r: Result<(), CompactionError>)
        ensures
            merge_outcome(*old(state), task.input_files@, 1, outputs@, *final(state), r),
    {
        merge(state, &task.input_files, 1, outputs)
    }
}

/// A controller: one strategy with its parameters, or none.
pub enum CompactionController {
    Leveled(LeveledCompaction),
    Tiered(TieredCompaction),
    Simple(SimpleCompaction),
    /// Compaction is switched off.
    NoCompaction,
}

impl CompactionController {
    /// The controller's strategy.
    pub open spec fn spec_style(&self) -> CompactionStyle {
        match self {
            CompactionController::Leveled(_) => CompactionStyle::Leveled,
            CompactionController::Tiered(_) => CompactionStyle::Tiered,
            CompactionController::Simple(_) => CompactionStyle::Simple,
            CompactionController::NoCompaction => CompactionStyle::NoCompaction,
        }
    }

    /// Whether the controller applies the task: both are of one strategy.
    pub open spec fn accepts(&self, task: &CompactionTask) -> bool {
        task.spec_style() == Some(self.spec_style())
    }

    /// What the controller proposes for a version: what its strategy
    /// proposes, and nothing where it has none.
    pub open spec fn picks(&self, version: LsmVersion, r: Option<CompactionTask>) -> bool {
        match self {
            CompactionController::Simple(_) => simple_pick(version, r),
            CompactionController::Tiered(ctrl) => ctrl.picks(version, r),
            CompactionController::Leveled(ctrl) => ctrl.picks(version, r),
            CompactionController::NoCompaction => r is None,
        }
    }

    /// Whether the controller owes a task for a version.
    pub open spec fn due(&self, version: LsmVersion) -> bool {
        match self {
            CompactionController::Simple(_) => simple_due(version),
            CompactionController::Tiered(ctrl) => ctrl.due(version),
            CompactionController::Leveled(ctrl) => ctrl.due(version),
            CompactionController::NoCompaction => false,
        }
    }

    /// The files that the owed task consumes.
    pub open spec fn due_inputs(&self, version: LsmVersion) -> Seq<usize> {
        match self {
            CompactionController::Tiered(_) => all_files(version.levels@),
            _ => simple_inputs(version),
        }
    }

    /// The number of the level or tier that takes the files that the owed
    /// task produces.
    pub open spec fn due_target(&self, version: LsmVersion) -> usize {
        match self {
            CompactionController::Tiered(_) => next_number(version.levels@) as usize,
            _ => 1,
        }
    }

    /// Asks the controller's strategy for a task. The state is only read. A
    /// proposed task is of the controller's strategy.
    pub fn pick_compaction(&self, state: &LsmEngineState) -> (r: Option<CompactionTask>)
        ensures
            self.picks(state.version, r),
            (r is Some) == self.due(state.version),
            r is Some ==> self.accepts(&r.unwrap()) && r.unwrap().spec_inputs() == self.due_inputs(
                state.version,
            ) && r.unwrap().spec_target() == self.due_target(state.version),
    {
        match self {
            CompactionController::Leveled(ctrl) => ctrl.pick(state),
            CompactionController::Tiered(ctrl) => ctrl.pick(state),
            CompactionController::Simple(ctrl) => ctrl.pick(state),
            CompactionController::NoCompaction => None,
        }
    }

    /// Records in the state a merge that carried out `task` and produced the
    /// files `outputs`. A task of another strategy, the full-flush marker, or
    /// any task on a controller without strategy is refused with
    /// `InvalidCombination`, and the state stays as it was. A task of the
    /// controller's strategy is applied as `merge_outcome` says: the task's
    /// inputs leave the version, the produced files are listed in its target
    /// level, and the memtables are not touched.
    pub fn apply_compaction(
        &self,
        state: &mut LsmEngineState,
        task: &CompactionTask,
        outputs: &Vec<usize>,
    ) -> (r: Result<(), CompactionError>)
        ensures
            !self.accepts(task) ==> r == Err::<(), CompactionError>(
                CompactionError::InvalidCombination,
            ) && *final(state) == *old(state),
            self.accepts(task) ==> merge_outcome(
                *old(state),
                task.spec_inputs(),
                task.spec_target(),
                outputs@,
                *final(state),
                r,
            ),
    {
        match (self, task) {
            (CompactionController::Leveled(ctrl), CompactionTask::Leveled(t)) => ctrl.apply(
                state,
                t,
                outputs,
            ),
            (CompactionController::Tiered(ctrl), CompactionTask::Tiered(t)) => ctrl.apply(
                state,
                t,
                outputs,
            ),
            (CompactionController::Simple(ctrl), CompactionTask::Simple(t)) => ctrl.apply(
                state,
                t,
                outputs,
            ),
            _ => Err(CompactionError::InvalidCombination),
        }
    }
}

} // verus!
