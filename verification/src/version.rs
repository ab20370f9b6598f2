//! The version: which sorted files are on disk, and on which level.

use vstd::prelude::*;

verus! {

/// A file list without the files that a merge consumed, the others in their
/// order.
pub open spec fn without(files: Seq<usize>, inputs: Seq<usize>) -> Seq<usize>
    decreases files.len(),
{
    if files.len() == 0 {
        Seq::empty()
    } else if inputs.contains(files.last()) {
        without(files.drop_last(), inputs)
    } else {
        without(files.drop_last(), inputs).push(files.last())
    }
}

/// The place of the first level with the number `target`, or the number of
/// levels where none has it.
pub open spec fn target_place(levels: Seq<(usize, Vec<usize>)>, target: usize) -> int
    decreases levels.len(),
{
    if levels.len() == 0 {
        0
    } else if levels[0].0 == target {
        0
    } else {
        1 + target_place(levels.drop_first(), target)
    }
}

/// The place lies within the levels or just behind them.
pub proof fn lemma_target_place_bounds(levels: Seq<(usize, Vec<usize>)>, target: usize)
    ensures
        0 <= target_place(levels, target) <= levels.len(),
    decreases levels.len(),
{
    if levels.len() > 0 && levels[0].0 != target {
        lemma_target_place_bounds(levels.drop_first(), target);
    }
}

/// The files of the first level with the number `target`; none where no
/// level has it.
pub open spec fn level_files(levels: Seq<(usize, Vec<usize>)>, target: usize) -> Seq<usize> {
    if target_place(levels, target) < levels.len() {
        levels[target_place(levels, target)].1@
    } else {
        Seq::empty()
    }
}

/// The number of levels that list a file.
pub open spec fn tier_count(levels: Seq<(usize, Vec<usize>)>) -> nat
    decreases levels.len(),
{
    if levels.len() == 0 {
        0
    } else if levels.last().1@.len() > 0 {
        tier_count(levels.drop_last()) + 1
    } else {
        tier_count(levels.drop_last())
    }
}

/// The files of all levels, level after level.
pub open spec fn all_files(levels: Seq<(usize, Vec<usize>)>) -> Seq<usize>
    decreases levels.len(),
{
    if levels.len() == 0 {
        Seq::empty()
    } else {
        all_files(levels.drop_last()) + levels.last().1@
    }
}

/// The least number above the numbers of all levels; 0 where there is none.
pub open spec fn next_number(levels: Seq<(usize, Vec<usize>)>) -> int
    decreases levels.len(),
{
    if levels.len() == 0 {
        0
    } else if next_number(levels.drop_last()) > levels.last().0 {
        next_number(levels.drop_last())
    } else {
        levels.last().0 + 1
    }
}

/// The levels after a merge: every level keeps its number and its files but
/// the consumed ones, and the first level with the number `target` gets the
/// produced files behind its own; where no level has that number, a new last
/// level with it holds them.
pub open spec fn levels_after(
    before: Seq<(usize, Vec<usize>)>,
    inputs: Seq<usize>,
    target: usize,
    outputs: Seq<usize>,
    after: Seq<(usize, Vec<usize>)>,
) -> bool {
    let at = target_place(before, target);
    &&& after.len() == (if at < before.len() {
        before.len()
    } else {
        before.len() + 1
    })
    &&& forall|k: int|
        0 <= k < before.len() ==> (#[trigger] after[k]).0 == before[k].0 && after[k].1@ == without(
            before[k].1@,
            inputs,
        ) + (if k == at {
            outputs
        } else {
            Seq::empty()
        })
    &&& at == before.len() ==> after[at].0 == target && after[at].1@ == outputs
}

/// A file is in a list without the consumed files exactly where it is in the
/// list and was not consumed.
pub proof fn lemma_without_contains(files: Seq<usize>, inputs: Seq<usize>, x: usize)
    ensures
        without(files, inputs).contains(x) == (files.contains(x) && !inputs.contains(x)),
    decreases files.len(),
{
    if files.len() > 0 {
        let rest = files.drop_last();
        let last = files.last();
        let w = without(rest, inputs);
        lemma_without_contains(rest, inputs, x);
        if rest.contains(x) {
            let i = choose|i: int| 0 <= i < rest.len() && rest[i] == x;
            assert(files[i] == x);
        }
        if files.contains(x) && last != x {
            let i = choose|i: int| 0 <= i < files.len() && files[i] == x;
            assert(rest[i] == x);
        }
        if last == x {
            assert(files[files.len() - 1] == x);
        }
        if !inputs.contains(last) {
            let p = w.push(last);
            if w.contains(x) {
                let i = choose|i: int| 0 <= i < w.len() && w[i] == x;
                assert(p[i] == x);
            }
            if p.contains(x) && last != x {
                let i = choose|i: int| 0 <= i < p.len() && p[i] == x;
                assert(w[i] == x);
            }
            if last == x {
                assert(p[w.len() as int] == x);
            }
        }
    }
}

/// Taking files out of a list without repeats leaves a list without repeats.
pub proof fn lemma_without_no_duplicates(files: Seq<usize>, inputs: Seq<usize>)
    requires
        files.no_duplicates(),
    ensures
        without(files, inputs).no_duplicates(),
    decreases files.len(),
{
    if files.len() > 0 {
        let rest = files.drop_last();
        let last = files.last();
        let w = without(rest, inputs);
        assert(rest.no_duplicates());
        lemma_without_no_duplicates(rest, inputs);
        lemma_without_contains(rest, inputs, last);
        if rest.contains(last) {
            let i = choose|i: int| 0 <= i < rest.len() && rest[i] == last;
            assert(files[i] == files[files.len() - 1]);
        }
        if !inputs.contains(last) {
            let p = w.push(last);
            assert forall|i: int, j: int| 0 <= i < j < p.len() implies p[i] != p[j] by {
                if j == w.len() {
                    assert(w.contains(w[i]));
                }
            }
        }
    }
}

/// Whether `files` holds `x`.
fn list_holds(files: &Vec<usize>, x: usize) -> (r: bool)
    ensures
        r == files@.contains(x),
{
    let mut i: usize = 0;
    while i < files.len()
        invariant
            i <= files@.len(),
            forall|a: int| 0 <= a < i ==> files@[a] != x,
        decreases files@.len() - i,
    {
        if files[i] == x {
            return true;
        }
        i = i + 1;
    }
    false
}

/// Appends a copy of `src` to `dst`.
pub(crate) fn append_all(dst: &mut Vec<usize>, src: &Vec<usize>)
    ensures
        final(dst)@ == old(dst)@ + src@,
{
    let mut i: usize = 0;
    assert(dst@ =~= old(dst)@ + src@.subrange(0, 0));
    while i < src.len()
        invariant
            i <= src@.len(),
            dst@ == old(dst)@ + src@.subrange(0, i as int),
        decreases src@.len() - i,
    {
        dst.push(src[i]);
        i = i + 1;
        assert(dst@ =~= old(dst)@ + src@.subrange(0, i as int));
    }
    assert(src@.subrange(0, src@.len() as int) =~= src@);
}

/// A copy of `files` without the files of `inputs`.
fn filtered(files: &Vec<usize>, inputs: &Vec<usize>) -> (r: Vec<usize>)
    ensures
        r@ == without(files@, inputs@),
{
    let mut r: Vec<usize> = Vec::new();
    let mut i: usize = 0;
    assert(files@.subrange(0, 0) =~= Seq::<usize>::empty());
    while i < files.len()
        invariant
            i <= files@.len(),
            r@ == without(files@.subrange(0, i as int), inputs@),
        decreases files@.len() - i,
    {
        assert(files@.subrange(0, i + 1).drop_last() =~= files@.subrange(0, i as int));
        assert(files@.subrange(0, i + 1).last() == files@[i as int]);
        if !list_holds(inputs, files[i]) {
            r.push(files[i]);
        }
        i = i + 1;
    }
    assert(files@.subrange(0, files@.len() as int) =~= files@);
    r
}

/// The levels after a merge, built from the levels before it.
fn merged_levels(
    levels: &Vec<(usize, Vec<usize>)>,
    inputs: &Vec<usize>,
    target: usize,
    outputs: &Vec<usize>,
) -> (r: Vec<(usize, Vec<usize>)>)
    ensures
        levels_after(levels@, inputs@, target, outputs@, r@),
{
    let mut r: Vec<(usize, Vec<usize>)> = Vec::new();
    let mut placed = false;
    let mut k: usize = 0;
    let ghost at = target_place(levels@, target);
    assert(levels@.subrange(0, levels@.len() as int) =~= levels@);
    while k < levels.len()
        invariant
            k <= levels@.len(),
            r@.len() == k,
            at == target_place(levels@, target),
            placed ==> at < k,
            !placed ==> at == k + target_place(
                levels@.subrange(k as int, levels@.len() as int),
                target,
            ),
            forall|j: int|
                0 <= j < k ==> (#[trigger] r@[j]).0 == levels@[j].0 && r@[j].1@ == without(
                    levels@[j].1@,
                    inputs@,
                ) + (if j == at {
                    outputs@
                } else {
                    Seq::empty()
                }),
        decreases levels@.len() - k,
    {
        let ghost rest = levels@.subrange(k as int, levels@.len() as int);
        assert(rest[0] == levels@[k as int]);
        assert(rest.drop_first() =~= levels@.subrange(k + 1, levels@.len() as int));
        proof {
            lemma_target_place_bounds(rest.drop_first(), target);
        }
        let mut files = filtered(&levels[k].1, inputs);
        if !placed && levels[k].0 == target {
            append_all(&mut files, outputs);
            placed = true;
        } else {
            assert(files@ + Seq::<usize>::empty() =~= files@);
        }
        let ghost before = r@;
        r.push((levels[k].0, files));
        assert(forall|j: int| 0 <= j < k ==> r@[j] == before[j]);
        k = k + 1;
    }
    if !placed {
        let mut files: Vec<usize> = Vec::new();
        append_all(&mut files, outputs);
        assert(files@ =~= outputs@);
        r.push((target, files));
    }
    r
}

/// The files on disk: level 0, and the deeper levels in order.
#[derive(Debug)]
pub struct LsmVersion {
    /// Level-0 file ids, newest first.
    pub l0_sstables: Vec<usize>,
    /// For each deeper level its number and its file ids.
    pub levels: Vec<(usize, Vec<usize>)>,
}

impl LsmVersion {
    /// Whether the version lists the file, on level 0 or below.
    pub open spec fn holds(&self, file_id: usize) -> bool {
        self.l0_sstables@.contains(file_id) || exists|k: int|
            0 <= k < self.levels@.len() && (#[trigger] self.levels@[k]).1@.contains(file_id)
    }

    /// The invariant: no file id stands in two places.
    pub open spec fn wf(&self) -> bool {
        &&& self.l0_sstables@.no_duplicates()
        &&& forall|k: int|
            0 <= k < self.levels@.len() ==> (#[trigger] self.levels@[k]).1@.no_duplicates()
        &&& forall|k: int, file_id: usize|
            0 <= k < self.levels@.len() && #[trigger] self.levels@[k].1@.contains(file_id)
                ==> !self.l0_sstables@.contains(file_id)
        &&& forall|k: int, m: int, file_id: usize|
            0 <= k < m < self.levels@.len() && #[trigger] self.levels@[k].1@.contains(file_id)
                ==> !#[trigger] self.levels@[m].1@.contains(file_id)
    }

    /// A version without files.
    pub fn new() -> (r: Self)
        ensures
            r.l0_sstables@.len() == 0,
            r.levels@.len() == 0,
            r.wf(),
            forall|file_id: usize| !r.holds(file_id),
    {
        Self { l0_sstables: Vec::new(), levels: Vec::new() }
    }

    /// Whether the version lists the file.
    pub fn contains(&self, file_id: usize) -> (r: bool)
        ensures
            r == self.holds(file_id),
    {
        let mut i: usize = 0;
        while i < self.l0_sstables.len()
            invariant
                i <= self.l0_sstables@.len(),
                forall|a: int| 0 <= a < i ==> self.l0_sstables@[a] != file_id,
            decreases self.l0_sstables@.len() - i,
        {
            if self.l0_sstables[i] == file_id {
                return true;
            }
            i = i + 1;
        }
        let mut k: usize = 0;
        while k < self.levels.len()
            invariant
                k <= self.levels@.len(),
                !self.l0_sstables@.contains(file_id),
                forall|a: int| 0 <= a < k ==> !(#[trigger] self.levels@[a]).1@.contains(file_id),
            decreases self.levels@.len() - k,
        {
            let files = &self.levels[k].1;
            let mut j: usize = 0;
            while j < files.len()
                invariant
                    j <= files@.len(),
                    k < self.levels@.len(),
                    files@ == self.levels@[k as int].1@,
                    forall|a: int| 0 <= a < j ==> files@[a] != file_id,
                decreases files@.len() - j,
            {
                if files[j] == file_id {
                    assert(self.levels@[k as int].1@.contains(file_id));
                    return true;
                }
                j = j + 1;
            }
            k = k + 1;
        }
        false
    }

    /// Lists a freshly flushed file as the newest of level 0. A file that the
    /// version lists already is not listed again, and `false` is returned.
    pub fn add_l0_sstable(&mut self, file_id: usize) -> (r: bool)
        requires
            old(self).wf(),
        ensures
            r == !old(self).holds(file_id),
            final(self).wf(),
            final(self).levels@ == old(self).levels@,
            r ==> final(self).l0_sstables@ == seq![file_id] + old(self).l0_sstables@,
            !r ==> final(self).l0_sstables@ == old(self).l0_sstables@,
    {
        if self.contains(file_id) {
            return false;
        }
        self.l0_sstables.insert(0, file_id);
        proof {
            let before = old(self).l0_sstables@;
            let after = self.l0_sstables@;
            assert(after =~= seq![file_id] + before);
            assert forall|i: int, j: int| 0 <= i < j < after.len() implies after[i] != after[j] by {
                assert(before.contains(before[j - 1]));
                if i > 0 {
                    assert(after[i] == before[i - 1] && after[j] == before[j - 1]);
                }
            }
            assert forall|k: int, id: usize|
                0 <= k < self.levels@.len() && #[trigger] self.levels@[k].1@.contains(
                    id,
                ) implies !after.contains(id) by {
                if after.contains(id) {
                    let i = choose|i: int| 0 <= i < after.len() && after[i] == id;
                    if i > 0 {
                        assert(before[i - 1] == id);
                        assert(before.contains(id));
                    }
                }
            }
        }
        true
    }

    /// The place of the first level with the number `target`, or the number
    /// of levels where none has it.
    pub fn level_place(&self, target: usize) -> (r: usize)
        ensures
            r == target_place(self.levels@, target),
            r <= self.levels@.len(),
    {
        let mut k: usize = 0;
        assert(self.levels@.subrange(0, self.levels@.len() as int) =~= self.levels@);
        while k < self.levels.len()
            invariant
                k <= self.levels@.len(),
                target_place(self.levels@, target) == k + target_place(
                    self.levels@.subrange(k as int, self.levels@.len() as int),
                    target,
                ),
            decreases self.levels@.len() - k,
        {
            let ghost rest = self.levels@.subrange(k as int, self.levels@.len() as int);
            assert(rest[0] == self.levels@[k as int]);
            assert(rest.drop_first() =~= self.levels@.subrange(k + 1, self.levels@.len() as int));
            if self.levels[k].0 == target {
                return k;
            }
            k = k + 1;
        }
        k
    }

    /// Counts the levels that list a file, gathers the files of all levels,
    /// and finds the least number above all level numbers, `None` where that
    /// number does not fit.
    pub fn survey(&self) -> (r: (usize, Vec<usize>, Option<usize>))
        ensures
            r.0 == tier_count(self.levels@),
            r.1@ == all_files(self.levels@),
            (r.2 is Some) == (next_number(self.levels@) <= usize::MAX),
            r.2 is Some ==> r.2.unwrap() == next_number(self.levels@),
    {
        let mut count: usize = 0;
        let mut files: Vec<usize> = Vec::new();
        let mut next: Option<usize> = Some(0);
        let mut k: usize = 0;
        assert(self.levels@.subrange(0, 0) =~= Seq::<(usize, Vec<usize>)>::empty());
        while k < self.levels.len()
            invariant
                k <= self.levels@.len(),
                count == tier_count(self.levels@.subrange(0, k as int)),
                count <= k,
                files@ == all_files(self.levels@.subrange(0, k as int)),
                (next is Some) == (next_number(self.levels@.subrange(0, k as int)) <= usize::MAX),
                next is Some ==> next.unwrap() == next_number(self.levels@.subrange(0, k as int)),
            decreases self.levels@.len() - k,
        {
            assert(self.levels@.subrange(0, k + 1).drop_last() =~= self.levels@.subrange(
                0,
                k as int,
            ));
            assert(self.levels@.subrange(0, k + 1).last() == self.levels@[k as int]);
            if self.levels[k].1.len() > 0 {
                count = count + 1;
            }
            append_all(&mut files, &self.levels[k].1);
            let number: usize = self.levels[k].0;
            next = match next {
                None => None,
                Some(n) => if n > number {
                    Some(n)
                } else if number < usize::MAX {
                    Some(number + 1)
                } else {
                    None
                },
            };
            k = k + 1;
        }
        assert(self.levels@.subrange(0, self.levels@.len() as int) =~= self.levels@);
        (count, files, next)
    }

    /// Whether a merge that consumes `inputs` may produce `outputs`: no
    /// produced file is listed yet or consumed, and none is produced twice.
    pub open spec fn accepts_outputs(&self, inputs: Seq<usize>, outputs: Seq<usize>) -> bool {
        &&& outputs.no_duplicates()
        &&& forall|i: int|
            0 <= i < outputs.len() ==> !self.holds(#[trigger] outputs[i]) && !inputs.contains(
                outputs[i],
            )
    }

    /// Whether `after` is this version after a merge: level 0 without the
    /// consumed files, and the levels as `levels_after` says.
    pub open spec fn merged_into(
        &self,
        inputs: Seq<usize>,
        target: usize,
        outputs: Seq<usize>,
        after: LsmVersion,
    ) -> bool {
        &&& after.l0_sstables@ == without(self.l0_sstables@, inputs)
        &&& levels_after(self.levels@, inputs, target, outputs, after.levels@)
    }

    /// Whether a merge that consumes `inputs` may produce `outputs`.
    pub fn can_take(&self, inputs: &Vec<usize>, outputs: &Vec<usize>) -> (r: bool)
        ensures
            r == self.accepts_outputs(inputs@, outputs@),
    {
        let mut i: usize = 0;
        while i < outputs.len()
            invariant
                i <= outputs@.len(),
                forall|a: int|
                    0 <= a < i ==> !self.holds(#[trigger] outputs@[a]) && !inputs@.contains(
                        outputs@[a],
                    ),
                forall|a: int, b: int| 0 <= a < b < i ==> outputs@[a] != outputs@[b],
            decreases outputs@.len() - i,
        {
            if self.contains(outputs[i]) || list_holds(inputs, outputs[i]) {
                return false;
            }
            let mut j: usize = 0;
            while j < i
                invariant
                    j <= i < outputs@.len(),
                    forall|a: int| 0 <= a < j ==> outputs@[a] != outputs@[i as int],
                decreases i - j,
            {
                if outputs[j] == outputs[i] {
                    return false;
                }
                j = j + 1;
            }
            i = i + 1;
        }
        true
    }

    /// Records a merge: takes the consumed files `inputs` out of level 0 and
    /// of every level, the other files staying at their places, and lists the
    /// produced files `outputs` in the level with the number `target`. Where
    /// the produced files cannot be taken, nothing changes and `false` is
    /// returned.
    pub fn compact(&mut self, inputs: &Vec<usize>, target: usize, outputs: &Vec<usize>) -> (r:
        bool)
        ensures
            r == old(self).accepts_outputs(inputs@, outputs@),
            r ==> old(self).merged_into(inputs@, target, outputs@, *final(self)),
            r ==> forall|x: usize| inputs@.contains(x) ==> !final(self).holds(x),
            r && old(self).wf() ==> final(self).wf(),
            !r ==> *final(self) == *old(self),
    {
        if !self.can_take(inputs, outputs) {
            return false;
        }
        let l0 = filtered(&self.l0_sstables, inputs);
        let levels = merged_levels(&self.levels, inputs, target, outputs);
        self.l0_sstables = l0;
        self.levels = levels;
        proof {
            old(self).lemma_merged(inputs@, target, outputs@, *self);
        }
        true
    }

    /// What a merge leaves: no consumed file is listed, and a version without
    /// repeats stays without repeats.
    pub proof fn lemma_merged(
        &self,
        inputs: Seq<usize>,
        target: usize,
        outputs: Seq<usize>,
        after: LsmVersion,
    )
        requires
            self.accepts_outputs(inputs, outputs),
            self.merged_into(inputs, target, outputs, after),
        ensures
            forall|x: usize| inputs.contains(x) ==> !after.holds(x),
            self.wf() ==> after.wf(),
    {
        let at = target_place(self.levels@, target);
        let n = self.levels@.len() as int;
        lemma_target_place_bounds(self.levels@, target);
        assert forall|x: usize|
            after.l0_sstables@.contains(x) == (self.l0_sstables@.contains(x) && !inputs.contains(
                x,
            )) by {
            lemma_without_contains(self.l0_sstables@, inputs, x);
        }
        assert forall|k: int, x: usize| 0 <= k < after.levels@.len() implies (
        #[trigger] after.levels@[k].1@.contains(x)) == ((k < n && self.levels@[k].1@.contains(x)
            && !inputs.contains(x)) || (k == at && outputs.contains(x))) by {
            if k < n {
                let w = without(self.levels@[k].1@, inputs);
                lemma_without_contains(self.levels@[k].1@, inputs, x);
                let extra = if k == at {
                    outputs
                } else {
                    Seq::empty()
                };
                let all = w + extra;
                assert(after.levels@[k].1@ == all);
                if w.contains(x) {
                    let i = choose|i: int| 0 <= i < w.len() && w[i] == x;
                    assert(all[i] == x);
                }
                if extra.contains(x) {
                    let i = choose|i: int| 0 <= i < extra.len() && extra[i] == x;
                    assert(all[w.len() + i] == x);
                }
                if all.contains(x) {
                    let i = choose|i: int| 0 <= i < all.len() && all[i] == x;
                    if i < w.len() {
                        assert(w[i] == x);
                    } else {
                        assert(extra[i - w.len()] == x);
                    }
                }
            }
        }
        assert forall|x: usize| outputs.contains(x) implies !self.holds(x) && !inputs.contains(
            x,
        ) by {
            let i = choose|i: int| 0 <= i < outputs.len() && outputs[i] == x;
            assert(!self.holds(outputs[i]));
        }
        assert forall|x: usize| inputs.contains(x) implies !after.holds(x) by {
            if after.holds(x) && !after.l0_sstables@.contains(x) {
                let k = choose|k: int|
                    0 <= k < after.levels@.len() && (#[trigger] after.levels@[k]).1@.contains(x);
                assert(after.levels@[k].1@.contains(x));
            }
        }
        if self.wf() {
            lemma_without_no_duplicates(self.l0_sstables@, inputs);
            assert forall|k: int| 0 <= k < after.levels@.len() implies (
            #[trigger] after.levels@[k]).1@.no_duplicates() by {
                if k < n {
                    let w = without(self.levels@[k].1@, inputs);
                    assert(self.levels@[k].1@.no_duplicates());
                    lemma_without_no_duplicates(self.levels@[k].1@, inputs);
                    if k == at {
                        let all = w + outputs;
                        assert forall|i: int, j: int| 0 <= i < j < all.len() implies all[i]
                            != all[j] by {
                            if i < w.len() && j >= w.len() {
                                lemma_without_contains(self.levels@[k].1@, inputs, w[i]);
                                assert(w.contains(w[i]));
                                assert(outputs.contains(outputs[j - w.len()]));
                                assert(self.levels@[k].1@.contains(w[i]));
                            }
                        }
                    } else {
                        assert(w + Seq::<usize>::empty() =~= w);
                    }
                }
            }
            assert forall|k: int, x: usize|
                0 <= k < after.levels@.len() && #[trigger] after.levels@[k].1@.contains(
                    x,
                ) implies !after.l0_sstables@.contains(x) by {
                if k < n && self.levels@[k].1@.contains(x) {
                    assert(!self.l0_sstables@.contains(x));
                }
            }
            assert forall|k: int, m: int, x: usize|
                0 <= k < m < after.levels@.len() && #[trigger] after.levels@[k].1@.contains(
                    x,
                ) implies !#[trigger] after.levels@[m].1@.contains(x) by {
                if k < n && m < n && self.levels@[k].1@.contains(x) {
                    assert(!self.levels@[m].1@.contains(x));
                }
                if outputs.contains(x) {
                    assert(!self.holds(x));
                    if k < n {
                        assert(!self.levels@[k].1@.contains(x));
                    }
                    if m < n {
                        assert(!self.levels@[m].1@.contains(x));
                    }
                }
            }
        }
    }
}

} // verus!
