//! The workload: the tasks of the trace, the backlog of tasks that found no
//! place, and the metrics of the round.

use crate::random::choose_one;
use crate::records;
use crate::types::{GPU, GPU_MILLI, POD, PodSpecKey, PodSpecStruct, whole_gpus};
use rand::rngs::ThreadRng;
use std::collections::VecDeque;
use vstd::prelude::*;

verus! {

/// What a round has seen so far.
#[derive(Clone, Copy, Debug, PartialEq, Eq, Structural)]
pub struct TaskMetrics {
    /// Tasks drawn from the trace. Tasks taken from the backlog do not count.
    pub tasks_arrived: u32,
    pub tasks_scheduled: u32,
    pub tasks_delayed: u32,
    /// What the scheduled tasks ask for together.
    pub total_cpu: u128,
    pub total_mem: u128,
    pub total_gpu: u128,
}

impl TaskMetrics {
    /// The metrics of a round that has seen nothing.
    pub open spec fn zero() -> TaskMetrics {
        TaskMetrics {
            tasks_arrived: 0,
            tasks_scheduled: 0,
            tasks_delayed: 0,
            total_cpu: 0,
            total_mem: 0,
            total_gpu: 0,
        }
    }

    /// No total is more than the scheduled tasks can have asked for.
    pub open spec fn wf(self) -> bool {
        &&& self.total_cpu <= self.tasks_scheduled * 0xffff_ffff_ffff_ffff
        &&& self.total_mem <= self.tasks_scheduled * 0xffff_ffff_ffff_ffff
        &&& self.total_gpu <= self.tasks_scheduled * 0xffff_ffff_ffff_ffff
    }

    /// The counter that a task with this outcome goes to can still count it.
    pub open spec fn can_count(self, scheduled: bool) -> bool {
        if scheduled {
            self.tasks_scheduled < u32::MAX
        } else {
            self.tasks_delayed < u32::MAX
        }
    }

    /// The metrics after a task with this outcome was counted.
    pub open spec fn counted(self, task: PodSpecStruct, scheduled: bool) -> TaskMetrics {
        if scheduled {
            TaskMetrics {
                tasks_scheduled: (self.tasks_scheduled + 1) as u32,
                total_cpu: (self.total_cpu + task.cpu_milli) as u128,
                total_mem: (self.total_mem + task.memory_mib) as u128,
                total_gpu: (self.total_gpu + task.gpu_milli) as u128,
                ..self
            }
        } else {
            TaskMetrics { tasks_delayed: (self.tasks_delayed + 1) as u32, ..self }
        }
    }
}

impl Default for TaskMetrics {
    /// The metrics of a round that has seen nothing.
    fn default() -> (m: TaskMetrics)
        ensures
            m == TaskMetrics::zero(),
    {
        TaskMetrics {
            tasks_arrived: 0,
            tasks_scheduled: 0,
            tasks_delayed: 0,
            total_cpu: 0,
            total_mem: 0,
            total_gpu: 0,
        }
    }
}

/// How many tasks of the trace have the same data as `key`: the id takes no part.
pub open spec fn occurrences(tasks: Seq<PodSpecStruct>, key: PodSpecKey) -> int
    decreases tasks.len(),
{
    if tasks.len() == 0 {
        0
    } else {
        occurrences(tasks.drop_last(), key) + if tasks.last().spec_key() == key {
            1int
        } else {
            0int
        }
    }
}

/// The task made of the row with number `id`: a task that asks for one GPU
/// keeps the share that its row states, any other asks for whole GPUs.
pub open spec fn pod_spec_of(id: POD, row: records::PodSpec) -> PodSpecStruct {
    PodSpecStruct {
        id,
        cpu_milli: row.cpu_milli,
        memory_mib: row.memory_mib,
        num_gpu: row.num_gpu,
        gpu_milli: if row.num_gpu == 1 {
            row.gpu_milli
        } else {
            whole_gpus(row.num_gpu) as GPU
        },
        model: row.model,
    }
}

/// The tasks made of the rows of a trace, in the order of the rows.
pub open spec fn tasks_of(rows: Seq<records::PodSpec>) -> Seq<PodSpecStruct> {
    Seq::new(rows.len(), |i: int| pod_spec_of(i as POD, rows[i]))
}

/// A kind of task and how many tasks of the trace are of that kind.
#[derive(Clone, Copy, Debug)]
pub struct TaskCount {
    pub key: PodSpecKey,
    pub count: usize,
}

/// The catalog lists each kind of task of the trace once, with the number of
/// tasks of that kind.
pub open spec fn is_catalog_of(catalog: Seq<TaskCount>, tasks: Seq<PodSpecStruct>) -> bool {
    &&& forall|e: int|
        0 <= e < catalog.len() ==>
            (#[trigger] catalog[e]).count == occurrences(tasks, catalog[e].key)
            && catalog[e].count > 0
    &&& forall|d: int, e: int|
        0 <= d < e < catalog.len() ==> (#[trigger] catalog[d]).key != (#[trigger] catalog[e]).key
    &&& forall|i: int|
        0 <= i < tasks.len() ==> exists|e: int|
            0 <= e < catalog.len()
                && (#[trigger] catalog[e]).key == (#[trigger] tasks[i]).spec_key()
}

/// A kind occurs no more often than the trace has tasks.
pub proof fn lemma_occurrences_bounds(tasks: Seq<PodSpecStruct>, key: PodSpecKey)
    ensures
        0 <= occurrences(tasks, key) <= tasks.len(),
    decreases tasks.len(),
{
    if tasks.len() > 0 {
        lemma_occurrences_bounds(tasks.drop_last(), key);
    }
}

/// A kind that occurs has a task of that kind, and the other way round.
pub proof fn lemma_occurs(tasks: Seq<PodSpecStruct>, key: PodSpecKey)
    ensures
        occurrences(tasks, key) > 0 <==> exists|i: int|
            0 <= i < tasks.len() && (#[trigger] tasks[i]).spec_key() == key,
    decreases tasks.len(),
{
    if tasks.len() > 0 {
        let init = tasks.drop_last();
        lemma_occurs(init, key);
        lemma_occurrences_bounds(init, key);
        if occurrences(tasks, key) > 0 {
            if tasks.last().spec_key() == key {
                assert(tasks[tasks.len() - 1].spec_key() == key);
            } else {
                let i = choose|i: int| 0 <= i < init.len()
                    && (#[trigger] init[i]).spec_key() == key;
                assert(tasks[i].spec_key() == key);
            }
        }
        if exists|i: int| 0 <= i < tasks.len() && (#[trigger] tasks[i]).spec_key() == key {
            let i = choose|i: int| 0 <= i < tasks.len() && (#[trigger] tasks[i]).spec_key() == key;
            if i < init.len() {
                assert(init[i].spec_key() == key);
            }
        }
    }
}

/// What a workload holds, as plain values.
pub struct WorkloadState {
    pub name: Seq<char>,
    pub drain_backlog: bool,
    pub backlog: Seq<PodSpecStruct>,
    pub tasks: Seq<PodSpecStruct>,
    pub metrics: TaskMetrics,
}

impl WorkloadState {
    /// The state is one that a workload can be in: every task of the trace is
    /// valid and has its place in the trace as its id, and every task of the
    /// backlog is valid.
    pub open spec fn valid(self) -> bool {
        &&& forall|i: int| 0 <= i < self.tasks.len() ==>
            (#[trigger] self.tasks[i]).wf() && self.tasks[i].id == i
        &&& forall|i: int| 0 <= i < self.backlog.len() ==> (#[trigger] self.backlog[i]).wf()
        &&& self.metrics.wf()
    }

    /// The workload as it is when the trace was loaded.
    pub open spec fn loaded(name: Seq<char>, rows: Seq<records::PodSpec>) -> WorkloadState {
        WorkloadState {
            name,
            drain_backlog: false,
            backlog: Seq::empty(),
            tasks: tasks_of(rows),
            metrics: TaskMetrics::zero(),
        }
    }

    /// The next task comes from the backlog: the backlog is being drained and
    /// holds a task.
    pub open spec fn drains(self) -> bool {
        self.drain_backlog && self.backlog.len() > 0
    }

    /// The workload after the first task of the backlog was taken: draining
    /// goes on while the backlog holds a task. Nothing has arrived.
    pub open spec fn popped(self) -> WorkloadState {
        WorkloadState {
            drain_backlog: self.backlog.len() > 1,
            backlog: self.backlog.skip(1),
            ..self
        }
    }

    /// The workload after a task was drawn from the trace: one more task has
    /// arrived, and the backlog is not being drained.
    pub open spec fn sampled(self) -> WorkloadState {
        WorkloadState {
            drain_backlog: false,
            metrics: TaskMetrics {
                tasks_arrived: (self.metrics.tasks_arrived + 1) as u32,
                ..self.metrics
            },
            ..self
        }
    }

    /// The workload after `task` was put at the end of the backlog: the
    /// backlog is not being drained.
    pub open spec fn pushed(self, task: PodSpecStruct) -> WorkloadState {
        WorkloadState { drain_backlog: false, backlog: self.backlog.push(task), ..self }
    }

    /// The workload after a task with this outcome was counted.
    pub open spec fn recorded(self, task: PodSpecStruct, scheduled: bool) -> WorkloadState {
        WorkloadState { metrics: self.metrics.counted(task, scheduled), ..self }
    }

    /// The workload after a round was closed: the backlog is to be drained,
    /// and the metrics start again from nothing. The backlog is kept.
    pub open spec fn deployed(self) -> WorkloadState {
        WorkloadState { drain_backlog: true, metrics: TaskMetrics::zero(), ..self }
    }

    /// The workload after `n` tasks were taken from the backlog one by one.
    pub open spec fn popped_times(self, n: nat) -> WorkloadState
        decreases n,
    {
        if n == 0 {
            self
        } else {
            self.popped_times((n - 1) as nat).popped()
        }
    }

    /// While the backlog is being drained, the tasks come out of it in the
    /// order in which they went in: after `n` tasks were taken the next one is
    /// the task at place `n`, and nothing is drawn from the trace before the
    /// backlog is empty. Once it is empty, draining is over.
    pub proof fn lemma_drains_in_order(self, n: nat)
        requires
            self.drains(),
            n <= self.backlog.len(),
        ensures
            self.popped_times(n).backlog == self.backlog.skip(n as int),
            self.popped_times(n).tasks == self.tasks,
            self.popped_times(n).metrics == self.metrics,
            n < self.backlog.len() ==> self.popped_times(n).drains() && self.popped_times(
                n,
            ).backlog[0] == self.backlog[n as int],
            n == self.backlog.len() ==> !self.popped_times(n).drain_backlog,
        decreases n,
    {
        if n == 0 {
            assert(self.backlog.skip(0) =~= self.backlog);
        } else {
            self.lemma_drains_in_order((n - 1) as nat);
            assert(self.backlog.skip(n - 1).skip(1) =~= self.backlog.skip(n as int));
        }
    }
}

/// The workload.
#[derive(Debug)]
pub struct WorkloadStruct {
    pub name: String,
    pub rng: ThreadRng,
    /// Whether the next task comes from the backlog, as long as it holds one.
    pub drain_backlog: bool,
    /// The tasks that found no place, oldest first.
    pub backlog: VecDeque<PodSpecStruct>,
    pub num_tasks: POD,
    /// The tasks of the trace, in the order of its rows.
    pub tasks: Vec<PodSpecStruct>,
    /// Each kind of task of the trace, with the number of tasks of that kind.
    pub task_count: Vec<TaskCount>,
    pub metrics: TaskMetrics,
}

impl View for WorkloadStruct {
    type V = WorkloadState;

    open spec fn view(&self) -> WorkloadState {
        WorkloadState {
            name: self.name@,
            drain_backlog: self.drain_backlog,
            backlog: self.backlog@,
            tasks: self.tasks@,
            metrics: self.metrics,
        }
    }
}

/// The place of the kind `key` in the catalog.
fn find_kind(catalog: &Vec<TaskCount>, key: &PodSpecKey) -> (place: Option<usize>)
    ensures
        match place {
            Some(e) => e < catalog@.len() && catalog@[e as int].key == *key,
            None => forall|e: int| 0 <= e < catalog@.len() ==> (#[trigger] catalog@[e]).key != *key,
        },
{
    let mut e: usize = 0;
    while e < catalog.len()
        invariant
            0 <= e <= catalog@.len(),
            forall|d: int| 0 <= d < e ==> (#[trigger] catalog@[d]).key != *key,
        decreases catalog@.len() - e,
    {
        if catalog[e].key == *key {
            return Some(e);
        }
        e += 1;
    }
    None
}

impl WorkloadStruct {
    /// The workload is valid: its state is one that a workload can be in, and
    /// the catalog counts the tasks of the trace.
    pub open spec fn wf(&self) -> bool {
        &&& self@.valid()
        &&& self.num_tasks == self.tasks@.len()
        &&& is_catalog_of(self.task_count@, self.tasks@)
    }

    /// The workload of the trace with these rows: row `i` becomes the task
    /// with id `i`; a task that does not ask for exactly one GPU asks for
    /// whole GPUs. The backlog is empty and nothing has been counted.
    pub fn new(name: String, rows: &Vec<records::PodSpec>) -> (workload: WorkloadStruct)
        requires
            forall|i: int| 0 <= i < rows@.len() ==> (#[trigger] rows@[i]).wf(),
        ensures
            workload.wf(),
            workload@ == WorkloadState::loaded(name@, rows@),
    {
        let mut task_count: Vec<TaskCount> = Vec::new();
        let mut tasks: Vec<PodSpecStruct> = Vec::new();
        let mut i: usize = 0;
        while i < rows.len()
            invariant
                0 <= i <= rows@.len(),
                forall|j: int| 0 <= j < rows@.len() ==> (#[trigger] rows@[j]).wf(),
                tasks@ == tasks_of(rows@).take(i as int),
                is_catalog_of(task_count@, tasks@),
            decreases rows@.len() - i,
        {
            let row = rows[i];
            assert(rows@[i as int].wf());
            let gpu_milli = if row.num_gpu != 1 {
                row.num_gpu as GPU * GPU_MILLI
            } else {
                row.gpu_milli
            };
            let task = PodSpecStruct {
                id: i,
                cpu_milli: row.cpu_milli,
                memory_mib: row.memory_mib,
                num_gpu: row.num_gpu,
                gpu_milli,
                model: row.model,
            };
            let key = task.key();
            let ghost before = tasks@;
            let ghost listed = task_count@;
            proof {
                lemma_occurs(before, key);
                lemma_occurrences_bounds(before, key);
            }
            let ghost place: int;
            match find_kind(&task_count, &key) {
                Some(e) => {
                    let count = task_count[e].count;
                    task_count.set(e, TaskCount { key, count: count + 1 });
                    proof {
                        place = e as int;
                    }
                },
                None => {
                    proof {
                        place = listed.len() as int;
                        if occurrences(before, key) > 0 {
                            let j = choose|j: int|
                                0 <= j < before.len() && (#[trigger] before[j]).spec_key() == key;
                            let e = choose|e: int|
                                0 <= e < listed.len()
                                    && (#[trigger] listed[e]).key == before[j].spec_key();
                            assert(listed[e].key != key);
                        }
                    }
                    task_count.push(TaskCount { key, count: 1 });
                },
            }
            tasks.push(task);
            i += 1;
            proof {
                assert(tasks@ =~= tasks_of(rows@).take(i as int));
                assert(tasks@.drop_last() =~= before);
                assert forall|j: int| 0 <= j < tasks@.len() implies exists|e: int|
                    0 <= e < task_count@.len()
                        && (#[trigger] task_count@[e]).key == (#[trigger] tasks@[j]).spec_key() by {
                    if j < before.len() {
                        let e = choose|e: int|
                            0 <= e < listed.len()
                                && (#[trigger] listed[e]).key == before[j].spec_key();
                        assert(task_count@[e].key == tasks@[j].spec_key());
                    } else {
                        assert(task_count@[place].key == tasks@[j].spec_key());
                    }
                }
                assert forall|e: int| 0 <= e < task_count@.len()
                    implies (#[trigger] task_count@[e]).count
                    == occurrences(tasks@, task_count@[e].key) && task_count@[e].count > 0 by {
                    if e < listed.len() {
                        assert(listed[e].count == occurrences(before, listed[e].key));
                    }
                }
            }
        }
        let num_tasks = tasks.len();
        let rng = rand::rng();
        proof {
            assert(tasks_of(rows@).take(i as int) =~= tasks_of(rows@));
        }
        WorkloadStruct {
            name,
            rng,
            drain_backlog: false,
            backlog: VecDeque::new(),
            num_tasks,
            tasks,
            task_count,
            metrics: TaskMetrics::default(),
        }
    }

    /// The next task of the round. While the backlog is being drained and
    /// holds a task, that is its first task, and nothing arrives. Otherwise it
    /// is a task of the trace drawn at random, which counts as arrived.
    pub fn next_task(&mut self) -> (task: PodSpecStruct)
        requires
            old(self).wf(),
            old(self)@.drains() || (old(self).tasks@.len() > 0 && old(self).metrics.tasks_arrived
                < u32::MAX),
        ensures
            final(self).wf(),
            task.wf(),
            old(self)@.drains() ==>
                task == old(self)@.backlog[0] && final(self)@ == old(self)@.popped(),
            !old(self)@.drains() ==> old(self)@.tasks.contains(task) && final(self)@ == old(
                self,
            )@.sampled(),
    {
        if let Some(m) = self.pop_backlog() {
            return m;
        }
        self.metrics.tasks_arrived += 1;
        match choose_one(&self.tasks, &mut self.rng) {
            Some(task) => *task,
            None => self.tasks[0],
        }
    }

    /// How many tasks of the trace have the same data as `task`.
    pub fn task_count(&self, task: &PodSpecStruct) -> (count: usize)
        requires
            self.wf(),
        ensures
            count == occurrences(self.tasks@, task.spec_key()),
    {
        let key = task.key();
        proof {
            lemma_occurs(self.tasks@, key);
            lemma_occurrences_bounds(self.tasks@, key);
        }
        match find_kind(&self.task_count, &key) {
            Some(e) => self.task_count[e].count,
            None => {
                proof {
                    if occurrences(self.tasks@, key) > 0 {
                        let j = choose|j: int|
                            0 <= j < self.tasks@.len()
                                && (#[trigger] self.tasks@[j]).spec_key() == key;
                        let e = choose|e: int|
                            0 <= e < self.task_count@.len() && (#[trigger] self.task_count@[e]).key
                                == self.tasks@[j].spec_key();
                        assert(self.task_count@[e].key != key);
                    }
                }
                0
            },
        }
    }

    /// Puts a task that found no place at the end of the backlog. The backlog
    /// is no longer being drained, so the task waits for the next round.
    pub fn push_backlog(&mut self, task: PodSpecStruct)
        requires
            old(self).wf(),
            task.wf(),
        ensures
            final(self).wf(),
            final(self)@ == old(self)@.pushed(task),
    {
        self.drain_backlog(false);
        self.backlog.push_back(task);
        assert(self@.tasks == old(self)@.tasks);
        assert forall|i: int| 0 <= i < self@.backlog.len()
            implies (#[trigger] self@.backlog[i]).wf() by {
            if i < old(self)@.backlog.len() {
                assert(old(self)@.backlog[i].wf());
            }
        }
    }

    /// Takes the first task of the backlog if the backlog is being drained and
    /// holds one. Draining ends with the last task, and also where the backlog
    /// is found empty.
    pub fn pop_backlog(&mut self) -> (task: Option<PodSpecStruct>)
        requires
            old(self).wf(),
        ensures
            final(self).wf(),
            old(self)@.drains() ==> task == Some(old(self)@.backlog[0]) && final(self)@ == old(
                self,
            )@.popped(),
            !old(self)@.drains() ==> task is None && final(self)@ == (WorkloadState {
                drain_backlog: false,
                ..old(self)@
            }),
    {
        if !self.drain_backlog {
            return None;
        }
        let task_opt = self.backlog.pop_front();
        if self.backlog.len() == 0 {
            self.drain_backlog(false);
        }
        proof {
            if task_opt is Some {
                assert(self.backlog@ =~= old(self).backlog@.skip(1));
            }
        }
        task_opt
    }

    /// Says whether the next tasks come from the backlog.
    pub fn drain_backlog(&mut self, drain: bool)
        ensures
            *final(self) == (WorkloadStruct { drain_backlog: drain, ..*old(self) }),
    {
        self.drain_backlog = drain;
    }

    /// Whether the next tasks come from the backlog, as long as it holds one.
    pub fn is_drain(&self) -> (drain: bool)
        ensures
            drain == self.drain_backlog,
    {
        self.drain_backlog
    }

    /// The number of tasks that wait in the backlog.
    pub fn backlog_size(&self) -> (size: usize)
        ensures
            size == self.backlog@.len(),
    {
        self.backlog.len()
    }

    /// Closes the round: hands out its metrics, starts them again from
    /// nothing, and has the next round begin with the backlog.
    pub fn deploy(&mut self) -> (metrics: TaskMetrics)
        requires
            old(self).wf(),
        ensures
            final(self).wf(),
            metrics == old(self).metrics,
            final(self)@ == old(self)@.deployed(),
    {
        self.drain_backlog(true);
        let metrics = self.metrics;
        self.metrics = TaskMetrics::default();
        assert(self@.tasks == old(self)@.tasks && self@.backlog == old(self)@.backlog);
        metrics
    }

    /// Counts a task as scheduled or as delayed; a scheduled task adds what it
    /// asks for to the totals.
    pub fn update_metrics(&mut self, task: &PodSpecStruct, scheduled: bool)
        requires
            old(self).wf(),
            old(self).metrics.can_count(scheduled),
        ensures
            final(self).wf(),
            final(self)@ == old(self)@.recorded(*task, scheduled),
    {
        if !scheduled {
            self.metrics.tasks_delayed += 1;
        } else {
            self.metrics.tasks_scheduled += 1;
            self.metrics.total_cpu += task.cpu_milli as u128;
            self.metrics.total_mem += task.memory_mib as u128;
            self.metrics.total_gpu += task.gpu_milli as u128;
        }
        assert(self@.tasks == old(self)@.tasks && self@.backlog == old(self)@.backlog);
    }
}

} // verus!
