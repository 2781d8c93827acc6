//! The round driver and the two engines that it drives.

use crate::evaluator::cluster::{specs_of, ClusterState, ClusterStruct, NodeMetrics};
use crate::evaluator::workload::{TaskMetrics, WorkloadState, WorkloadStruct};
use crate::types::{NODE, NUM, PodSpecStruct, SchedulingPick};
use vstd::prelude::*;

pub mod cluster;
pub mod workload;

verus! {

/// A scheduler may pick node `n` and its GPUs `gpus` for the task: the node
/// can host the task, and the task can be bound to those GPUs.
pub open spec fn is_valid_pick(
    cluster: ClusterState,
    task: PodSpecStruct,
    n: NODE,
    gpus: Seq<NUM>,
) -> bool {
    &&& n < cluster.nodes.len()
    &&& cluster.nodes[n as int].fits(task)
    &&& cluster.nodes[n as int].can_bind(task, gpus)
}

/// A scheduling policy: where a task goes.
pub trait Scheduler {
    /// Picks a node and GPUs of it for the task, or `None` where the task has
    /// to wait. The policy reads the cluster and the workload and changes
    /// neither; it may draw from the cluster's random source.
    fn schedule(
        &self,
        cluster: &mut ClusterStruct,
        workload: &WorkloadStruct,
        task: &PodSpecStruct,
    ) -> (pick: Option<SchedulingPick>)
        requires
            old(cluster).wf(),
            workload.wf(),
            task.wf(),
        ensures
            final(cluster).wf(),
            final(cluster)@ == old(cluster)@,
            pick matches Some(p) ==> is_valid_pick(old(cluster)@, *task, p.0, p.1@),
    ;
}

/// A deploy policy: when a round ends.
pub trait Decider {
    /// Whether the round ends here.
    fn decide(&self, cluster: &ClusterStruct, workload: &WorkloadStruct) -> (end: bool)
        requires
            cluster.wf(),
            workload.wf(),
    ;
}

/// The two engines, as plain values.
pub struct RoundState {
    pub cluster: ClusterState,
    pub workload: WorkloadState,
}

/// One step of a round: the task that was taken from the workload, and what
/// the scheduler picked for it.
pub struct Step {
    pub task: PodSpecStruct,
    pub pick: Option<(NODE, Seq<NUM>)>,
}

/// A pick as plain values.
pub open spec fn pick_view(pick: Option<SchedulingPick>) -> Option<(NODE, Seq<NUM>)> {
    match pick {
        None => None,
        Some(p) => Some((p.0, p.1@)),
    }
}

/// The decider can have given this answer where the engines stood like this.
pub open spec fn said<D: Decider>(
    decider: D,
    engines: (ClusterStruct, WorkloadStruct),
    end: bool,
) -> bool {
    call_ensures(D::decide, (&decider, &engines.0, &engines.1), end)
}

/// The engines are valid and in this state.
pub open spec fn shows(engines: (ClusterStruct, WorkloadStruct), state: RoundState) -> bool {
    &&& engines.0.wf()
    &&& engines.1.wf()
    &&& engines.0@ == state.cluster
    &&& engines.1@ == state.workload
}

impl RoundState {
    /// Each counter of the round can count one more task.
    pub open spec fn has_room(self) -> bool {
        &&& self.workload.metrics.tasks_arrived < u32::MAX
        &&& self.workload.metrics.tasks_scheduled < u32::MAX
        &&& self.workload.metrics.tasks_delayed < u32::MAX
    }

    /// The workload after the next task was taken from it: from the backlog
    /// while that is being drained, else from the trace.
    pub open spec fn drawn(self) -> WorkloadState {
        if self.workload.drains() {
            self.workload.popped()
        } else {
            self.workload.sampled()
        }
    }

    /// The step can be the next one of the round: the counters have room, the
    /// task is the first of the backlog while that is being drained and else a
    /// task of the trace, and what was picked for it is a valid pick.
    pub open spec fn admits(self, step: Step) -> bool {
        &&& self.has_room()
        &&& step.task.wf()
        &&& if self.workload.drains() {
            step.task == self.workload.backlog[0]
        } else {
            self.workload.tasks.contains(step.task)
        }
        &&& step.pick matches Some(p) ==> is_valid_pick(self.cluster, step.task, p.0, p.1)
    }

    /// The engines after the step: a task with a pick is bound to it and
    /// counted as scheduled; a task without one goes to the backlog and is
    /// counted as delayed.
    pub open spec fn after(self, step: Step) -> RoundState {
        match step.pick {
            None => RoundState {
                cluster: self.cluster,
                workload: self.drawn().pushed(step.task).recorded(step.task, false),
            },
            Some(p) => RoundState {
                cluster: self.cluster.bind(step.task, p.0, p.1),
                workload: self.drawn().recorded(step.task, true),
            },
        }
    }

    /// The engines after the steps were taken in turn.
    pub open spec fn after_all(self, steps: Seq<Step>) -> RoundState
        decreases steps.len(),
    {
        if steps.len() == 0 {
            self
        } else {
            self.after_all(steps.drop_last()).after(steps.last())
        }
    }

    /// Each of the steps can be taken in turn, starting from this state.
    pub open spec fn admits_all(self, steps: Seq<Step>) -> bool {
        forall|k: int|
            0 <= k < steps.len() ==> self.after_all(#[trigger] steps.take(k)).admits(steps[k])
    }

    /// Both engines are in states that they can be in.
    pub open spec fn valid(self) -> bool {
        self.cluster.valid() && self.workload.valid()
    }

    /// `later` is where a round that started here with nothing counted can
    /// stand after `taken` steps: the trace and the nodes are the same, every
    /// step was counted once, what was taken from the GPUs is what the
    /// scheduled tasks asked for, and the backlog is what the round made of it.
    pub open spec fn leads_to(self, later: RoundState, taken: int) -> bool {
        &&& later.workload.name == self.workload.name
        &&& later.workload.tasks == self.workload.tasks
        &&& later.cluster.name == self.cluster.name
        &&& specs_of(later.cluster.nodes) == specs_of(self.cluster.nodes)
        &&& later.cluster.metrics.gpu_total == self.cluster.metrics.gpu_total
        &&& taken == later.workload.metrics.tasks_scheduled + later.workload.metrics.tasks_delayed
        &&& self.cluster.metrics.gpu_unallocated - later.cluster.metrics.gpu_unallocated
            == later.workload.metrics.total_gpu
        &&& is_backlog_after(self.workload.backlog, later.workload.backlog, later.workload.metrics)
        &&& later.workload.drain_backlog ==> later.workload.metrics.tasks_delayed == 0
    }

    /// One more step of a round leads on from where the round stands.
    pub proof fn lemma_step(self, later: RoundState, taken: int, step: Step)
        requires
            later.valid(),
            self.leads_to(later, taken),
            later.admits(step),
        ensures
            later.after(step).valid(),
            self.leads_to(later.after(step), taken + 1),
    {
        let next = later.after(step);
        let drawn = later.drawn();
        assert(drawn.valid()) by {
            if later.workload.drains() {
                assert forall|i: int| 0 <= i < drawn.backlog.len() implies (
                #[trigger] drawn.backlog[i]).wf() by {
                    assert(later.workload.backlog[i + 1].wf());
                }
            }
        }
        match step.pick {
            None => {
                let pushed = drawn.pushed(step.task);
                assert forall|i: int| 0 <= i < pushed.backlog.len() implies (
                #[trigger] pushed.backlog[i]).wf() by {
                    if i < drawn.backlog.len() {
                        assert(drawn.backlog[i].wf());
                    }
                }
            },
            Some(p) => {
                later.cluster.lemma_bind(step.task, p.0, p.1);
                assert(specs_of(next.cluster.nodes) =~= specs_of(later.cluster.nodes));
            },
        }
    }

    /// A step that can be taken after some steps can be put behind them.
    pub proof fn lemma_push(self, steps: Seq<Step>, step: Step)
        requires
            self.admits_all(steps),
            self.after_all(steps).admits(step),
        ensures
            self.admits_all(steps.push(step)),
            self.after_all(steps.push(step)) == self.after_all(steps).after(step),
            forall|k: int|
                0 <= k <= steps.len() ==> #[trigger] steps.push(step).take(k) == steps.take(k),
    {
        let longer = steps.push(step);
        assert(longer.drop_last() =~= steps);
        assert forall|k: int| 0 <= k <= steps.len() implies #[trigger] longer.take(k) == steps.take(
            k,
        ) by {
            assert(longer.take(k) =~= steps.take(k));
        }
        assert(steps.take(steps.len() as int) =~= steps);
        assert forall|k: int| 0 <= k < longer.len() implies self.after_all(
            #[trigger] longer.take(k),
        ).admits(longer[k]) by {
            assert(longer.take(k) == steps.take(k));
        }
    }

    /// The course of a round that starts here: the steps that were taken, at
    /// least one, and the engines as the decider saw them after each step.
    /// Each step could be taken after those before it; the decider saw what
    /// the step had left; it did not end the round before the last step; and
    /// after the last step it ended the round, or a counter was full.
    pub open spec fn is_course<D: Decider>(
        self,
        decider: D,
        steps: Seq<Step>,
        seen: Seq<(ClusterStruct, WorkloadStruct)>,
    ) -> bool {
        &&& steps.len() >= 1
        &&& seen.len() == steps.len()
        &&& self.admits_all(steps)
        &&& forall|k: int|
            0 <= k < seen.len() ==> shows(#[trigger] seen[k], self.after_all(steps.take(k + 1)))
        &&& forall|k: int| 0 <= k < seen.len() - 1 ==> said(decider, #[trigger] seen[k], false)
        &&& said(decider, seen.last(), true) || !self.after_all(steps).has_room()
    }

    /// The last step of a course was taken from where the steps before it
    /// led; that is where the round started, or where the decider last did not
    /// end the round.
    pub proof fn lemma_last_step<D: Decider>(
        self,
        decider: D,
        steps: Seq<Step>,
        seen: Seq<(ClusterStruct, WorkloadStruct)>,
    )
        requires
            self.is_course(decider, steps, seen),
        ensures
            self.after_all(steps.drop_last()).admits(steps.last()),
            self.after_all(steps) == self.after_all(steps.drop_last()).after(steps.last()),
            steps.len() == 1 ==> self.after_all(steps.drop_last()) == self,
            steps.len() >= 2 ==> said(decider, seen[steps.len() - 2], false) && shows(
                seen[steps.len() - 2],
                self.after_all(steps.drop_last()),
            ),
    {
        let n = steps.len() as int;
        assert(steps.drop_last() =~= steps.take(n - 1));
        assert(self.after_all(steps.take(n - 1)).admits(steps[n - 1]));
        if n >= 2 {
            assert(shows(seen[n - 2], self.after_all(steps.take(n - 2 + 1))));
        }
    }

    /// A round that starts here can end in `end` and report `report`: the
    /// round has a course; the report holds the metrics of both engines after
    /// the last step; and `end` is what the last step left, with the workload
    /// closed for the round.
    pub open spec fn is_round<D: Decider>(
        self,
        decider: D,
        report: (TaskMetrics, NodeMetrics),
        end: RoundState,
    ) -> bool {
        exists|steps: Seq<Step>, seen: Seq<(ClusterStruct, WorkloadStruct)>|
            {
                let last = self.after_all(steps);
                &&& #[trigger] self.is_course(decider, steps, seen)
                &&& report == (last.workload.metrics, last.cluster.metrics)
                &&& end.cluster == last.cluster
                &&& end.workload == last.workload.deployed()
            }
    }

    /// The engines at the start of the round after a round that ended in this
    /// state: the cluster is reset.
    pub open spec fn restarted(self) -> RoundState {
        RoundState { cluster: self.cluster.reset(), workload: self.workload }
    }

    /// Rounds that start here, each on the cluster as the reset after the
    /// round before left it, can report `reports` in this order and leave
    /// the engines in `end`, the cluster reset after the last round.
    pub open spec fn is_rounds<D: Decider>(
        self,
        decider: D,
        reports: Seq<(TaskMetrics, NodeMetrics)>,
        end: RoundState,
    ) -> bool
        decreases reports.len(),
    {
        if reports.len() == 0 {
            end == self
        } else {
            exists|before: RoundState, ended: RoundState|
                {
                    &&& self.is_rounds(decider, reports.drop_last(), before)
                    &&& #[trigger] before.is_round(decider, reports.last(), ended)
                    &&& end == ended.restarted()
                }
        }
    }
}

/// The number of rounds of an evaluation.
pub const NUM_LOOPS: usize = 100;

/// The round driver: a scheduling policy, a deploy policy, and the two engines.
pub struct Evaluator<S: Scheduler, D: Decider> {
    /// Where a task goes.
    pub scheduler: S,
    /// When a round ends.
    pub decider: D,
    /// The tasks to be scheduled.
    pub workload: WorkloadStruct,
    /// The compute nodes.
    pub cluster: ClusterStruct,
}

/// What one round reports: that the GPU capacity of the cluster is what it
/// was, and that what the round took from the GPUs, starting from
/// `unallocated_before`, is what its scheduled tasks asked for together.
pub open spec fn is_round_report(
    report: (TaskMetrics, NodeMetrics),
    gpu_total: int,
    unallocated_before: int,
) -> bool {
    &&& report.0.wf()
    &&& report.0.tasks_scheduled + report.0.tasks_delayed >= 1
    &&& report.0.tasks_arrived <= report.0.tasks_scheduled + report.0.tasks_delayed
    &&& report.1.gpu_total == gpu_total
    &&& unallocated_before - report.1.gpu_unallocated == report.0.total_gpu
}

/// What a round makes of the backlog. The tasks that the round took from it
/// are its first ones: as many as the round saw tasks that had not arrived
/// in it. The others stay at the front, in their order, and behind them stand
/// the tasks that the round delayed.
pub open spec fn is_backlog_after(
    before: Seq<PodSpecStruct>,
    after: Seq<PodSpecStruct>,
    metrics: TaskMetrics,
) -> bool {
    let taken = metrics.tasks_scheduled + metrics.tasks_delayed - metrics.tasks_arrived;
    &&& 0 <= taken <= before.len()
    &&& after.len() == before.len() - taken + metrics.tasks_delayed
    &&& forall|i: int| 0 <= i < before.len() - taken ==> after[i] == before[taken + i]
}

impl<S: Scheduler, D: Decider> Evaluator<S, D> {
    /// The evaluator stands between two rounds: both engines are valid, the
    /// trace holds a task, and nothing has been counted.
    pub open spec fn wf(&self) -> bool {
        &&& self.workload.wf()
        &&& self.cluster.wf()
        &&& self.workload.tasks@.len() > 0
        &&& self.workload.metrics == TaskMetrics::zero()
    }

    /// The evaluator of the two policies and the two engines, before its first round.
    pub fn new(
        scheduler: S,
        decider: D,
        workload: WorkloadStruct,
        cluster: ClusterStruct,
    ) -> (evaluator: Self)
        requires
            workload.wf(),
            cluster.wf(),
            workload.tasks@.len() > 0,
            workload.metrics == TaskMetrics::zero(),
        ensures
            evaluator.wf(),
            evaluator.scheduler == scheduler,
            evaluator.decider == decider,
            evaluator.workload == workload,
            evaluator.cluster == cluster,
    {
        Evaluator { scheduler, decider, workload, cluster }
    }

    /// The two engines as plain values.
    pub open spec fn state(&self) -> RoundState {
        RoundState { cluster: self.cluster@, workload: self.workload@ }
    }

    /// Does what the scheduler decided for a task: binds the task to its pick
    /// and counts it as scheduled, or puts it into the backlog and counts it
    /// as delayed where there is no pick.
    pub fn settle(&mut self, task: PodSpecStruct, pick: Option<SchedulingPick>)
        requires
            old(self).cluster.wf(),
            old(self).workload.wf(),
            task.wf(),
            old(self).workload.metrics.can_count(pick is Some),
            pick matches Some(p) ==> is_valid_pick(old(self).cluster@, task, p.0, p.1@),
        ensures
            final(self).cluster.wf(),
            final(self).workload.wf(),
            final(self).scheduler == old(self).scheduler,
            final(self).decider == old(self).decider,
            match pick {
                None => final(self).cluster@ == old(self).cluster@ && final(self).workload@ == old(
                    self,
                ).workload@.pushed(task).recorded(task, false),
                Some(p) => final(self).cluster@ == old(self).cluster@.bind(task, p.0, p.1@)
                    && final(self).workload@ == old(self).workload@.recorded(task, true),
            },
            final(self).cluster.metrics.gpu_total == old(self).cluster.metrics.gpu_total,
            final(self).cluster.metrics.gpu_unallocated == old(self).cluster.metrics.gpu_unallocated
                - if pick is Some {
                task.gpu_milli as int
            } else {
                0
            },
    {
        match pick {
            None => {
                self.workload.push_backlog(task);
                self.workload.update_metrics(&task, false);
            },
            Some(choice) => {
                self.cluster.bind_task(&task, choice.0, &choice.1);
                self.workload.update_metrics(&task, true);
            },
        }
    }

    /// Takes one step of a round: takes the next task from the workload, asks
    /// the scheduler where it goes, and does what the scheduler decided.
    fn take_step(&mut self) -> (step: Ghost<Step>)
        requires
            old(self).cluster.wf(),
            old(self).workload.wf(),
            old(self).workload.tasks@.len() > 0,
            old(self).state().has_room(),
        ensures
            final(self).cluster.wf(),
            final(self).workload.wf(),
            final(self).scheduler == old(self).scheduler,
            final(self).decider == old(self).decider,
            old(self).state().admits(step@),
            final(self).state() == old(self).state().after(step@),
    {
        let task = self.workload.next_task();
        let pick = self.scheduler.schedule(&mut self.cluster, &self.workload, &task);
        self.settle(task, pick);
        Ghost(Step { task, pick: pick_view(pick) })
    }

    /// Runs one round and hands back its metrics.
    ///
    /// Task after task is taken from the workload and offered to the
    /// scheduler. A task that gets a place is bound to it; one that gets none
    /// goes to the backlog. After each task the decider is asked whether the
    /// round ends. A round also ends when one of its counters is full, so that
    /// every task of a round is counted. The cluster is left as the round
    /// made it; the workload starts the next round with the backlog.
    pub fn schedule_and_deploy(&mut self) -> (report: (TaskMetrics, NodeMetrics))
        requires
            old(self).wf(),
        ensures
            final(self).wf(),
            final(self).scheduler == old(self).scheduler,
            final(self).decider == old(self).decider,
            final(self).workload@.name == old(self).workload@.name,
            final(self).workload@.tasks == old(self).workload@.tasks,
            final(self).workload@.drain_backlog,
            final(self).cluster@.name == old(self).cluster@.name,
            specs_of(final(self).cluster@.nodes) == specs_of(old(self).cluster@.nodes),
            report.1 == final(self).cluster.metrics,
            is_round_report(
                report,
                old(self).cluster.metrics.gpu_total as int,
                old(self).cluster.metrics.gpu_unallocated as int,
            ),
            is_backlog_after(old(self).workload@.backlog, final(self).workload@.backlog, report.0),
            old(self).state().is_round(old(self).decider, report, final(self).state()),
    {
        let mut done = false;
        let ghost start = self.state();
        let ghost mut steps: Seq<Step> = Seq::empty();
        let ghost mut seen: Seq<(ClusterStruct, WorkloadStruct)> = Seq::empty();
        proof {
            assert(start.workload.backlog.skip(0) =~= start.workload.backlog);
        }
        while !done
            invariant
                start == old(self).state(),
                start.workload.metrics == TaskMetrics::zero(),
                self.scheduler == old(self).scheduler,
                self.decider == old(self).decider,
                self.workload.wf(),
                self.cluster.wf(),
                self.workload.tasks@.len() > 0,
                self.state() == start.after_all(steps),
                start.admits_all(steps),
                start.leads_to(self.state(), steps.len() as int),
                seen.len() == steps.len(),
                forall|k: int|
                    0 <= k < seen.len() ==> shows(
                        #[trigger] seen[k],
                        start.after_all(steps.take(k + 1)),
                    ),
                forall|k: int|
                    0 <= k < seen.len() - 1 ==> said(self.decider, #[trigger] seen[k], false),
                !done && seen.len() >= 1 ==> said(self.decider, seen.last(), false),
                done ==> steps.len() >= 1,
                done ==> said(self.decider, seen.last(), true) || !self.state().has_room(),
            decreases 2 * u32::MAX - steps.len() + if done { 0int } else { 1int },
        {
            let counted = self.workload.metrics;
            if counted.tasks_arrived == u32::MAX || counted.tasks_scheduled == u32::MAX
                || counted.tasks_delayed == u32::MAX {
                done = true;
            } else {
                let ghost before = self.state();
                let step = self.take_step();
                proof {
                    start.lemma_step(before, steps.len() as int, step@);
                    start.lemma_push(steps, step@);
                    steps = steps.push(step@);
                }
                let end = self.decider.decide(&self.cluster, &self.workload);
                proof {
                    assert(steps.take(steps.len() as int) =~= steps);
                    seen = seen.push((self.cluster, self.workload));
                }
                if end {
                    done = true;
                }
            }
        }
        proof {
            assert(start.is_course(self.decider, steps, seen));
        }
        (self.workload.deploy(), self.cluster.deploy())
    }

    /// Runs `NUM_LOOPS` rounds and hands back what each reported, in order.
    /// After each round the cluster is reset, so every round but the first
    /// starts on a cluster with all of its GPU capacity left, and so would a
    /// round after the last.
    pub fn evaluate(&mut self) -> (reports: Vec<(TaskMetrics, NodeMetrics)>)
        requires
            old(self).wf(),
        ensures
            final(self).wf(),
            final(self).scheduler == old(self).scheduler,
            final(self).decider == old(self).decider,
            final(self).cluster@ == old(self).cluster@.reset(),
            final(self).workload@.tasks == old(self).workload@.tasks,
            reports@.len() == NUM_LOOPS,
            old(self).state().is_rounds(old(self).decider, reports@, final(self).state()),
            is_round_report(
                reports@[0],
                old(self).cluster.metrics.gpu_total as int,
                old(self).cluster.metrics.gpu_unallocated as int,
            ),
            forall|k: int|
                1 <= k < reports@.len() ==> is_round_report(
                    #[trigger] reports@[k],
                    old(self).cluster.metrics.gpu_total as int,
                    old(self).cluster.metrics.gpu_total as int,
                ),
    {
        let mut reports: Vec<(TaskMetrics, NodeMetrics)> = Vec::new();
        let mut batch_num: usize = 0;
        while batch_num < NUM_LOOPS
            invariant
                0 <= batch_num <= NUM_LOOPS,
                self.wf(),
                self.scheduler == old(self).scheduler,
                self.decider == old(self).decider,
                reports@.len() == batch_num,
                old(self).state().is_rounds(self.decider, reports@, self.state()),
                self.workload@.tasks == old(self).workload@.tasks,
                self.cluster@.name == old(self).cluster@.name,
                specs_of(self.cluster@.nodes) == specs_of(old(self).cluster@.nodes),
                self.cluster.metrics.gpu_total == old(self).cluster.metrics.gpu_total,
                batch_num == 0 ==> self.cluster == old(self).cluster,
                batch_num > 0 ==> self.cluster@ == old(self).cluster@.reset() && is_round_report(
                    reports@[0],
                    old(self).cluster.metrics.gpu_total as int,
                    old(self).cluster.metrics.gpu_unallocated as int,
                ),
                forall|k: int|
                    1 <= k < reports@.len() ==> is_round_report(
                        #[trigger] reports@[k],
                        old(self).cluster.metrics.gpu_total as int,
                        old(self).cluster.metrics.gpu_total as int,
                    ),
            decreases NUM_LOOPS - batch_num,
        {
            let ghost before = self.state();
            let ghost earlier = reports@;
            let report = self.schedule_and_deploy();
            let ghost ended = self.state();
            reports.push(report);
            self.cluster.reset();
            batch_num += 1;
            proof {
                assert(reports@.drop_last() =~= earlier);
                assert(before.is_round(self.decider, reports@.last(), ended));
                assert(self.state() == ended.restarted());
            }
        }
        reports
    }
}

} // verus!
