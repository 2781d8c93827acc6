//! Reference policies: when a round ends, and where a task goes.

use crate::evaluator::cluster::{ClusterStruct, NodeMetrics};
use crate::evaluator::workload::{TaskMetrics, WorkloadStruct};
use crate::evaluator::{shows, Decider, RoundState, Step};
use vstd::prelude::*;

pub mod score_by;
pub mod simple_schedulers;

verus! {

/// The number of delayed tasks at which a round ends.
pub const MAX_DELAYED: u32 = 500;

/// The number of arrived tasks at which a round ends.
pub const MAX_TASKS_ARRIVED: u32 = 10000;

/// The round ends once 500 tasks were delayed.
pub fn max_delayed(cluster: &ClusterStruct, workload: &WorkloadStruct) -> (end: bool)
    ensures
        end == (workload.metrics.tasks_delayed >= MAX_DELAYED),
{
    workload.metrics.tasks_delayed >= MAX_DELAYED
}

/// The round ends once 10000 tasks arrived, and as a release valve also once
/// 500 tasks were delayed.
pub fn max_tasks_arrived(cluster: &ClusterStruct, workload: &WorkloadStruct) -> (end: bool)
    ensures
        end == (workload.metrics.tasks_arrived >= MAX_TASKS_ARRIVED
            || workload.metrics.tasks_delayed >= MAX_DELAYED),
{
    workload.metrics.tasks_arrived >= MAX_TASKS_ARRIVED || max_delayed(cluster, workload)
}

/// `max_delayed` as a deploy policy.
#[derive(Clone, Copy, Debug)]
pub struct MaxDelayed;

/// `max_tasks_arrived` as a deploy policy.
#[derive(Clone, Copy, Debug)]
pub struct MaxTasksArrived;

impl Decider for MaxDelayed {
    /// What `max_delayed` says.
    fn decide(&self, cluster: &ClusterStruct, workload: &WorkloadStruct) -> (end: bool)
        ensures
            end == (workload.metrics.tasks_delayed >= MAX_DELAYED),
    {
        max_delayed(cluster, workload)
    }
}

impl Decider for MaxTasksArrived {
    /// What `max_tasks_arrived` says.
    fn decide(&self, cluster: &ClusterStruct, workload: &WorkloadStruct) -> (end: bool)
        ensures
            end == (workload.metrics.tasks_arrived >= MAX_TASKS_ARRIVED
                || workload.metrics.tasks_delayed >= MAX_DELAYED),
    {
        max_tasks_arrived(cluster, workload)
    }
}

/// A round under `MaxDelayed` that starts with nothing counted delays no
/// more than 500 tasks, and exactly 500 unless a counter was full.
pub proof fn lemma_max_delayed_round(
    start: RoundState,
    report: (TaskMetrics, NodeMetrics),
    end: RoundState,
)
    requires
        start.workload.metrics == TaskMetrics::zero(),
        start.is_round(MaxDelayed, report, end),
    ensures
        report.0.tasks_delayed <= MAX_DELAYED,
        report.0.tasks_delayed == MAX_DELAYED || report.0.tasks_arrived == u32::MAX
            || report.0.tasks_scheduled == u32::MAX,
{
    let (steps, seen) = choose|steps: Seq<Step>, seen: Seq<(ClusterStruct, WorkloadStruct)>|
        {
            let last = start.after_all(steps);
            &&& #[trigger] start.is_course(MaxDelayed, steps, seen)
            &&& report == (last.workload.metrics, last.cluster.metrics)
        };
    start.lemma_last_step(MaxDelayed, steps, seen);
    assert(shows(seen.last(), start.after_all(steps.take(steps.len() - 1 + 1))));
    assert(steps.take(steps.len() as int) =~= steps);
}

/// A round under `MaxTasksArrived` that starts with nothing counted sees no
/// more than 10000 tasks arrive and delays no more than 500, and reaches one
/// of the two limits unless a counter was full.
pub proof fn lemma_max_tasks_arrived_round(
    start: RoundState,
    report: (TaskMetrics, NodeMetrics),
    end: RoundState,
)
    requires
        start.workload.metrics == TaskMetrics::zero(),
        start.is_round(MaxTasksArrived, report, end),
    ensures
        report.0.tasks_arrived <= MAX_TASKS_ARRIVED,
        report.0.tasks_delayed <= MAX_DELAYED,
        report.0.tasks_arrived == MAX_TASKS_ARRIVED || report.0.tasks_delayed == MAX_DELAYED
            || report.0.tasks_scheduled == u32::MAX,
{
    let (steps, seen) = choose|steps: Seq<Step>, seen: Seq<(ClusterStruct, WorkloadStruct)>|
        {
            let last = start.after_all(steps);
            &&& #[trigger] start.is_course(MaxTasksArrived, steps, seen)
            &&& report == (last.workload.metrics, last.cluster.metrics)
        };
    start.lemma_last_step(MaxTasksArrived, steps, seen);
    assert(shows(seen.last(), start.after_all(steps.take(steps.len() - 1 + 1))));
    assert(steps.take(steps.len() as int) =~= steps);
}

} // verus!
