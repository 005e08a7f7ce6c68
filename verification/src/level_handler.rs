//! Which table files of a level are being compacted.

use vstd::prelude::*;
use std::collections::HashMap;
use crate::levels::{ssts_view, HummockSstableId, SstableInfo, SstableInfoView};

verus! {

/// Identifies a compaction task.
pub type HummockCompactionTaskId = u64;

/// A compaction task that is under way, as a level knows it.
#[derive(Debug, PartialEq, Eq)]
pub struct RunningCompactTask {
    pub task_id: HummockCompactionTaskId,
    pub target_level: u32,
    /// The files of the level that the task reads.
    pub ssts: Vec<HummockSstableId>,
}

/// The ids of the files `ssts`.
pub open spec fn sst_ids(ssts: Seq<SstableInfoView>) -> Set<HummockSstableId> {
    Set::new(|id: HummockSstableId| exists|j: int| 0 <= j < ssts.len() && (#[trigger] ssts[j]).sst_id == id)
}

/// `pending` with the files `ssts` given to task `task_id`.
pub open spec fn with_pending(
    pending: Map<HummockSstableId, HummockCompactionTaskId>,
    task_id: HummockCompactionTaskId,
    ssts: Seq<SstableInfoView>,
) -> Map<HummockSstableId, HummockCompactionTaskId> {
    Map::new(
        |id: HummockSstableId| pending.contains_key(id) || sst_ids(ssts).contains(id),
        |id: HummockSstableId|
            if sst_ids(ssts).contains(id) {
                task_id
            } else {
                pending[id]
            },
    )
}

/// Keeps, for one level, the files that compaction tasks under way read.
/// A file that a task reads is pending: no other task may take it.
#[derive(Debug, PartialEq, Eq)]
pub struct LevelHandler {
    level: u32,
    compacting_files: HashMap<HummockSstableId, HummockCompactionTaskId>,
    pending_tasks: Vec<RunningCompactTask>,
}

impl LevelHandler {
    /// The pending files, each with the task that reads it.
    pub closed spec fn pending(&self) -> Map<HummockSstableId, HummockCompactionTaskId> {
        self.compacting_files@
    }

    /// The level that the handler keeps.
    pub closed spec fn level(&self) -> u32 {
        self.level
    }

    /// The tasks under way that read files of the level.
    pub closed spec fn tasks(&self) -> Seq<RunningCompactTask> {
        self.pending_tasks@
    }

    /// Every pending file is pending for a task under way that was given
    /// it.
    pub open spec fn wf(&self) -> bool {
        pending_for_tasks(self.pending(), self.tasks())
    }

    /// A handler for `level` without a pending file.
    pub fn new(level: u32) -> (r: Self)
        ensures
            r.wf(),
            r.level() == level,
            r.pending() == Map::<HummockSstableId, HummockCompactionTaskId>::empty(),
            r.tasks() == Seq::<RunningCompactTask>::empty(),
    {
        Self { level, compacting_files: HashMap::new(), pending_tasks: Vec::new() }
    }

    pub fn get_level(&self) -> (r: u32)
        ensures
            r == self.level(),
    {
        self.level
    }

    /// Whether a task under way reads file `sst_id`.
    pub fn is_pending_compact(&self, sst_id: &HummockSstableId) -> (r: bool)
        ensures
            r == self.pending().contains_key(*sst_id),
    {
        broadcast use vstd::std_specs::hash::group_hash_axioms;

        self.compacting_files.contains_key(sst_id)
    }

    /// The task that reads file `sst_id`, if one does.
    pub fn pending_task_id_by_sst(&self, sst_id: &HummockSstableId) -> (r: Option<
        HummockCompactionTaskId,
    >)
        ensures
            r == if self.pending().contains_key(*sst_id) {
                Some(self.pending()[*sst_id])
            } else {
                None
            },
    {
        broadcast use vstd::std_specs::hash::group_hash_axioms;

        match self.compacting_files.get(sst_id) {
            Some(task_id) => Some(*task_id),
            None => None,
        }
    }

    /// Marks the files `ssts` as read by task `task_id`.
    pub fn add_pending_task(
        &mut self,
        task_id: HummockCompactionTaskId,
        target_level: usize,
        ssts: &Vec<SstableInfo>,
    )
        ensures
            final(self).level() == old(self).level(),
            final(self).pending() == with_pending(old(self).pending(), task_id, ssts_view(ssts@)),
            final(self).tasks().len() == old(self).tasks().len() + 1,
            final(self).tasks().drop_last() == old(self).tasks(),
            final(self).tasks().last().task_id == task_id,
            final(self).tasks().last().ssts@.to_set() == sst_ids(ssts_view(ssts@)),
            old(self).wf() ==> final(self).wf(),
    {
        broadcast use vstd::std_specs::hash::group_hash_axioms;

        let ghost before = self.pending();
        let ghost all = ssts_view(ssts@);
        let mut table_ids: Vec<HummockSstableId> = Vec::new();
        let mut j: usize = 0;
        proof {
            assert(self.pending() =~= with_pending(before, task_id, all.take(0)));
            assert(table_ids@.to_set() =~= sst_ids(all.take(0)));
        }
        while j < ssts.len()
            invariant
                j <= ssts.len(),
                all == ssts_view(ssts@),
                self.level == old(self).level,
                self.pending_tasks == old(self).pending_tasks,
                self.pending() == with_pending(before, task_id, all.take(j as int)),
                table_ids@.to_set() == sst_ids(all.take(j as int)),
            decreases ssts.len() - j,
        {
            let ghost ids_before = table_ids@;
            self.compacting_files.insert(ssts[j].sst_id, task_id);
            table_ids.push(ssts[j].sst_id);
            proof {
                let a = all.take(j as int);
                let b = all.take(j + 1);
                assert(b[j as int] == ssts@[j as int]@);
                assert forall|id: HummockSstableId|
                    sst_ids(b).contains(id) == (sst_ids(a).contains(id) || id
                        == ssts@[j as int].sst_id) by {
                    if sst_ids(b).contains(id) {
                        let k = choose|k: int| 0 <= k < b.len() && (#[trigger] b[k]).sst_id == id;
                        if k < j {
                            assert(a[k].sst_id == id);
                        }
                    }
                    if sst_ids(a).contains(id) {
                        let k = choose|k: int| 0 <= k < a.len() && (#[trigger] a[k]).sst_id == id;
                        assert(b[k].sst_id == id);
                    }
                }
                assert(self.pending() =~= with_pending(before, task_id, b));
                assert forall|id: HummockSstableId|
                    table_ids@.to_set().contains(id) == sst_ids(b).contains(id) by {
                    if table_ids@.contains(id) {
                        let k = choose|k: int| 0 <= k < table_ids@.len() && table_ids@[k] == id;
                        if k < ids_before.len() {
                            assert(ids_before[k] == id);
                            assert(ids_before.to_set().contains(id));
                        }
                    }
                    if ids_before.to_set().contains(id) {
                        let k = choose|k: int| 0 <= k < ids_before.len() && ids_before[k] == id;
                        assert(table_ids@[k] == id);
                    }
                    if id == ssts@[j as int].sst_id {
                        assert(table_ids@[ids_before.len() as int] == id);
                    }
                }
                assert(table_ids@.to_set() =~= sst_ids(b));
            }
            j = j + 1;
        }
        proof {
            assert(all.take(ssts.len() as int) =~= all);
        }
        let target_level = if target_level > 0xffff_ffff {
            0xffff_ffff
        } else {
            target_level as u32
        };
        self.pending_tasks.push(RunningCompactTask { task_id, target_level, ssts: table_ids });
        proof {
            assert(self.tasks().drop_last() =~= old(self).tasks());
            if old(self).wf() {
                lemma_pending_with_task(before, old(self).tasks(), self.tasks(), task_id, all);
            }
        }
    }

    /// Forgets task `target_task_id`: the files that it was given are no
    /// longer pending.
    pub fn remove_task(&mut self, target_task_id: HummockCompactionTaskId)
        ensures
            final(self).level() == old(self).level(),
            final(self).pending() == old(self).pending().remove_keys(
                task_ssts(old(self).tasks(), target_task_id),
            ),
            final(self).tasks() == old(self).tasks().filter(
                |t: RunningCompactTask| t.task_id != target_task_id,
            ),
            old(self).wf() ==> final(self).wf() && forall|id: HummockSstableId| #[trigger]
                final(self).pending().contains_key(id) ==> final(self).pending()[id]
                    != target_task_id,
    {
        broadcast use vstd::std_specs::hash::group_hash_axioms;

        let ghost before = self.pending();
        let ghost keep = |t: RunningCompactTask| t.task_id != target_task_id;
        let mut tasks: Vec<RunningCompactTask> = Vec::new();
        std::mem::swap(&mut self.pending_tasks, &mut tasks);
        let ghost all = tasks@;
        let mut kept: Vec<RunningCompactTask> = Vec::new();
        proof {
            reveal(Seq::filter);
            assert(all.take(0) =~= Seq::empty());
            assert(kept@ =~= all.take(0).filter(keep));
            assert(self.compacting_files@ =~= before.remove_keys(
                task_ssts(all.take(0), target_task_id),
            ));
        }
        for task in it: tasks
            invariant
                it.seq() == all,
                self.level == old(self).level,
                keep == (|t: RunningCompactTask| t.task_id != target_task_id),
                kept@ == all.take(it.index() as int).filter(keep),
                self.compacting_files@ == before.remove_keys(
                    task_ssts(all.take(it.index() as int), target_task_id),
                ),
        {
            let ghost k = it.index() as int;
            let ghost gone = task_ssts(all.take(k), target_task_id);
            proof {
                reveal(Seq::filter);
                assert(all.take(k + 1).drop_last() =~= all.take(k));
                assert(all.take(k + 1).last() == task);
            }
            if task.task_id == target_task_id {
                let mut j: usize = 0;
                proof {
                    assert(self.compacting_files@ =~= before.remove_keys(
                        gone.union(task.ssts@.take(0).to_set()),
                    ));
                }
                while j < task.ssts.len()
                    invariant
                        j <= task.ssts.len(),
                        self.level == old(self).level,
                        self.compacting_files@ == before.remove_keys(
                            gone.union(task.ssts@.take(j as int).to_set()),
                        ),
                    decreases task.ssts.len() - j,
                {
                    self.compacting_files.remove(&task.ssts[j]);
                    proof {
                        let a = task.ssts@.take(j as int);
                        let b = task.ssts@.take(j + 1);
                        assert(b =~= a.push(task.ssts@[j as int]));
                        assert(b.to_set() =~= a.to_set().insert(task.ssts@[j as int])) by {
                            assert forall|id: HummockSstableId|
                                b.to_set().contains(id) == a.to_set().insert(
                                    task.ssts@[j as int],
                                ).contains(id) by {
                                if b.contains(id) {
                                    let i = choose|i: int| 0 <= i < b.len() && b[i] == id;
                                    if i < j {
                                        assert(a[i] == id);
                                    }
                                }
                                if a.contains(id) {
                                    let i = choose|i: int| 0 <= i < a.len() && a[i] == id;
                                    assert(b[i] == id);
                                }
                                if id == task.ssts@[j as int] {
                                    assert(b[j as int] == id);
                                }
                            }
                        }
                        assert(self.compacting_files@ =~= before.remove_keys(
                            gone.union(b.to_set()),
                        ));
                    }
                    j = j + 1;
                }
                proof {
                    assert(task.ssts@.take(task.ssts.len() as int) =~= task.ssts@);
                    lemma_task_ssts_push(all.take(k), task, target_task_id);
                }
            } else {
                proof {
                    lemma_task_ssts_push(all.take(k), task, target_task_id);
                    assert(kept@.push(task) =~= all.take(k + 1).filter(keep));
                }
                kept.push(task);
            }
            proof {
                assert(all.take(k + 1) =~= all.take(k).push(task));
            }
        }
        proof {
            assert(all.take(all.len() as int) =~= all);
        }
        self.pending_tasks = kept;
        proof {
            if old(self).wf() {
                lemma_pending_without_task(before, all, target_task_id);
            }
        }
    }
}

/// Whether every file of `pending` is pending for a task of `tasks` that
/// was given it.
pub open spec fn pending_for_tasks(
    pending: Map<HummockSstableId, HummockCompactionTaskId>,
    tasks: Seq<RunningCompactTask>,
) -> bool {
    forall|id: HummockSstableId| #[trigger]
        pending.contains_key(id) ==> task_ssts(tasks, pending[id]).contains(id)
}

/// Where every pending file is pending for a task that was given it, this
/// is so after one more task was given files.
pub proof fn lemma_pending_with_task(
    pending: Map<HummockSstableId, HummockCompactionTaskId>,
    tasks: Seq<RunningCompactTask>,
    more: Seq<RunningCompactTask>,
    task_id: HummockCompactionTaskId,
    ssts: Seq<SstableInfoView>,
)
    requires
        pending_for_tasks(pending, tasks),
        more.len() == tasks.len() + 1,
        more.drop_last() == tasks,
        more.last().task_id == task_id,
        more.last().ssts@.to_set() == sst_ids(ssts),
    ensures
        pending_for_tasks(with_pending(pending, task_id, ssts), more),
{
    let after = with_pending(pending, task_id, ssts);
    assert forall|id: HummockSstableId| #[trigger] after.contains_key(id) implies task_ssts(
        more,
        after[id],
    ).contains(id) by {
        if sst_ids(ssts).contains(id) {
            assert(more.last().ssts@.to_set().contains(id));
            assert(more[more.len() - 1].task_id == task_id);
        } else {
            assert(pending.contains_key(id));
            let i = choose|i: int|
                0 <= i < tasks.len() && (#[trigger] tasks[i]).task_id == pending[id]
                    && tasks[i].ssts@.contains(id);
            assert(more[i] == more.drop_last()[i]);
        }
    }
}

/// Where every pending file is pending for a task that was given it, this
/// is so after a task was forgotten, and no file is pending for that task
/// any more.
pub proof fn lemma_pending_without_task(
    pending: Map<HummockSstableId, HummockCompactionTaskId>,
    tasks: Seq<RunningCompactTask>,
    task_id: HummockCompactionTaskId,
)
    requires
        pending_for_tasks(pending, tasks),
    ensures
        pending_for_tasks(
            pending.remove_keys(task_ssts(tasks, task_id)),
            tasks.filter(|t: RunningCompactTask| t.task_id != task_id),
        ),
        forall|id: HummockSstableId| #[trigger]
            pending.remove_keys(task_ssts(tasks, task_id)).contains_key(id) ==> pending[id]
                != task_id,
{
    let keep = |t: RunningCompactTask| t.task_id != task_id;
    let after = pending.remove_keys(task_ssts(tasks, task_id));
    let kept = tasks.filter(keep);
    assert forall|id: HummockSstableId| #[trigger] after.contains_key(id) implies pending[id]
        != task_id && task_ssts(kept, after[id]).contains(id) by {
        assert(pending.contains_key(id));
        assert(task_ssts(tasks, pending[id]).contains(id));
        let i = choose|i: int|
            0 <= i < tasks.len() && (#[trigger] tasks[i]).task_id == pending[id]
                && tasks[i].ssts@.contains(id);
        assert(keep(tasks[i]));
        tasks.lemma_filter_contains(keep, i);
        let j = kept.index_of(tasks[i]);
        assert(kept[j] == tasks[i]);
    }
}

/// The files that the tasks `task_id` among `tasks` were given.
pub open spec fn task_ssts(
    tasks: Seq<RunningCompactTask>,
    task_id: HummockCompactionTaskId,
) -> Set<HummockSstableId> {
    Set::new(
        |id: HummockSstableId|
            exists|i: int|
                0 <= i < tasks.len() && (#[trigger] tasks[i]).task_id == task_id
                    && tasks[i].ssts@.contains(id),
    )
}

/// The files of the tasks `task_id` among `tasks` and one more task.
pub proof fn lemma_task_ssts_push(
    tasks: Seq<RunningCompactTask>,
    task: RunningCompactTask,
    task_id: HummockCompactionTaskId,
)
    ensures
        task.task_id == task_id ==> task_ssts(tasks.push(task), task_id) == task_ssts(
            tasks,
            task_id,
        ).union(task.ssts@.to_set()),
        task.task_id != task_id ==> task_ssts(tasks.push(task), task_id) == task_ssts(
            tasks,
            task_id,
        ),
{
    let a = task_ssts(tasks, task_id);
    let b = task_ssts(tasks.push(task), task_id);
    let more = tasks.push(task);
    assert forall|id: HummockSstableId| b.contains(id) == (a.contains(id) || (task.task_id
        == task_id && task.ssts@.contains(id))) by {
        if b.contains(id) {
            let i = choose|i: int|
                0 <= i < more.len() && (#[trigger] more[i]).task_id == task_id
                    && more[i].ssts@.contains(id);
            if i < tasks.len() {
                assert(tasks[i] == more[i]);
            }
        }
        if a.contains(id) {
            let i = choose|i: int|
                0 <= i < tasks.len() && (#[trigger] tasks[i]).task_id == task_id
                    && tasks[i].ssts@.contains(id);
            assert(more[i] == tasks[i]);
        }
        if task.task_id == task_id && task.ssts@.contains(id) {
            assert(more[tasks.len() as int] == task);
        }
    }
    if task.task_id == task_id {
        assert(b =~= a.union(task.ssts@.to_set()));
    } else {
        assert(b =~= a);
    }
}

} // verus!
