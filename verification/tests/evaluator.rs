use gpu_sched_sim::evaluator::cluster::{ClusterStruct, NodeMetrics};
use gpu_sched_sim::evaluator::workload::{TaskMetrics, WorkloadStruct};
use gpu_sched_sim::evaluator::{Decider, Evaluator, Scheduler, NUM_LOOPS};
use gpu_sched_sim::gpu_spec::{GpuModel, GpuSpec};
use gpu_sched_sim::heuristics::simple_schedulers::{
    BestFitScheduler, DotProductScheduler, RandomScheduler,
};
use gpu_sched_sim::heuristics::{MaxDelayed, MaxTasksArrived};
use gpu_sched_sim::records::{NodeSpec, PodSpec};
use gpu_sched_sim::types::{PodSpecStruct, SchedulingPick};

struct EndAfter(u32);

impl Decider for EndAfter {
    fn decide(&self, _cluster: &ClusterStruct, workload: &WorkloadStruct) -> bool {
        workload.metrics.tasks_scheduled + workload.metrics.tasks_delayed >= self.0
    }
}

struct Never;

impl Scheduler for Never {
    fn schedule(&self, _cluster: &mut ClusterStruct, _workload: &WorkloadStruct, _task: &PodSpecStruct) -> Option<SchedulingPick> {
        None
    }
}

fn cluster_of(rows: &Vec<NodeSpec>) -> ClusterStruct {
    let specs = ClusterStruct::node_specs_from_records(rows);
    ClusterStruct::new(String::from("cluster"), &specs)
}

fn small_cluster() -> ClusterStruct {
    cluster_of(&vec![
        NodeSpec { cpu_milli: 64000, memory_mib: 262144, num_gpu: 2, model: GpuSpec::single(GpuModel::P100) },
        NodeSpec { cpu_milli: 128000, memory_mib: 786432, num_gpu: 8, model: GpuSpec::single(GpuModel::G3) },
        NodeSpec { cpu_milli: 96000, memory_mib: 524288, num_gpu: 0, model: GpuSpec::empty() },
    ])
}

fn trace() -> Vec<PodSpec> {
    vec![
        PodSpec { cpu_milli: 4000, memory_mib: 10600, num_gpu: 1, gpu_milli: 810, model: GpuSpec::empty() },
        PodSpec { cpu_milli: 32200, memory_mib: 132096, num_gpu: 4, gpu_milli: 1000, model: GpuSpec::empty() },
        PodSpec { cpu_milli: 32000, memory_mib: 65536, num_gpu: 0, gpu_milli: 0, model: GpuSpec::empty() },
        PodSpec { cpu_milli: 4000, memory_mib: 15258, num_gpu: 1, gpu_milli: 50, model: GpuSpec::single(GpuModel::P100) },
        PodSpec { cpu_milli: 11300, memory_mib: 49152, num_gpu: 1, gpu_milli: 1000, model: GpuSpec::single(GpuModel::T4) },
    ]
}

fn check_round(report: &(TaskMetrics, NodeMetrics), gpu_total: u64) {
    let (tasks, nodes) = report;
    assert_eq!(nodes.gpu_total, gpu_total);
    assert_eq!(nodes.frag_total, 0);
    assert!(nodes.gpu_unallocated <= gpu_total);
    assert_eq!((gpu_total - nodes.gpu_unallocated) as u128, tasks.total_gpu);
    assert!(tasks.tasks_arrived <= tasks.tasks_scheduled + tasks.tasks_delayed);
    assert!(tasks.tasks_scheduled + tasks.tasks_delayed >= 1);
}

#[test]
fn new_keeps_what_it_is_given() {
    let workload = WorkloadStruct::new(String::from("workload"), &trace());
    let evaluator = Evaluator::new(BestFitScheduler, MaxTasksArrived, workload, small_cluster());
    assert_eq!(evaluator.workload.name, "workload");
    assert_eq!(evaluator.workload.tasks.len(), 5);
    assert_eq!(evaluator.cluster.name, "cluster");
    assert_eq!(evaluator.cluster.nodes.len(), 3);
    assert_eq!(NUM_LOOPS, 100);
}

#[test]
fn a_round_where_nothing_is_scheduled() {
    let workload = WorkloadStruct::new(String::from("workload"), &trace());
    let mut evaluator = Evaluator::new(Never, EndAfter(3), workload, small_cluster());
    let (tasks, nodes) = evaluator.schedule_and_deploy();
    assert_eq!(
        tasks,
        TaskMetrics { tasks_arrived: 3, tasks_scheduled: 0, tasks_delayed: 3, total_cpu: 0, total_mem: 0, total_gpu: 0 }
    );
    assert_eq!(nodes, NodeMetrics { gpu_total: 10000, gpu_unallocated: 10000, frag_total: 0 });
    assert_eq!(evaluator.workload.backlog_size(), 3);
    assert!(evaluator.workload.is_drain());
    assert_eq!(evaluator.workload.metrics, TaskMetrics::default());
    let waiting: Vec<usize> = evaluator.workload.backlog.iter().map(|t| t.id).collect();

    let (tasks, _) = evaluator.schedule_and_deploy();
    assert_eq!(tasks.tasks_arrived, 2);
    assert_eq!(tasks.tasks_delayed, 3);
    assert_eq!(evaluator.workload.backlog_size(), 5);
    let still: Vec<usize> = evaluator.workload.backlog.iter().take(2).map(|t| t.id).collect();
    assert_eq!(still, waiting[1..].to_vec());
    assert_eq!(evaluator.workload.backlog[2].id, waiting[0]);
}

#[test]
fn a_round_ends_when_the_decider_says_so() {
    let workload = WorkloadStruct::new(String::from("workload"), &trace());
    let mut evaluator = Evaluator::new(RandomScheduler, EndAfter(1), workload, small_cluster());
    let (tasks, _) = evaluator.schedule_and_deploy();
    assert_eq!(tasks.tasks_scheduled + tasks.tasks_delayed, 1);
    assert_eq!(tasks.tasks_arrived, 1);
}

#[test]
fn one_task_one_node_best_fit() {
    let pods = vec![PodSpec { cpu_milli: 4000, memory_mib: 10600, num_gpu: 1, gpu_milli: 810, model: GpuSpec::empty() }];
    let workload = WorkloadStruct::new(String::from("workload"), &pods);
    let cluster = cluster_of(&vec![NodeSpec { cpu_milli: 64000, memory_mib: 262144, num_gpu: 2, model: GpuSpec::single(GpuModel::P100) }]);
    let mut evaluator = Evaluator::new(BestFitScheduler, EndAfter(4), workload, cluster);
    let (tasks, nodes) = evaluator.schedule_and_deploy();
    assert_eq!(
        tasks,
        TaskMetrics { tasks_arrived: 4, tasks_scheduled: 2, tasks_delayed: 2, total_cpu: 8000, total_mem: 21200, total_gpu: 1620 }
    );
    assert_eq!(nodes, NodeMetrics { gpu_total: 2000, gpu_unallocated: 380, frag_total: 0 });
    assert_eq!(evaluator.cluster.nodes[0].gpu_rem, vec![190, 190]);
    assert_eq!(evaluator.cluster.nodes[0].gpu_part, 190);
    assert_eq!(evaluator.cluster.nodes[0].gpu_full, 0);
    assert_eq!(evaluator.cluster.nodes[0].cpu_rem, 56000);
    assert_eq!(evaluator.workload.backlog_size(), 2);
}

#[test]
fn what_a_round_takes_is_what_its_tasks_ask_for() {
    for round_len in [1u32, 7, 50, 300] {
        let workload = WorkloadStruct::new(String::from("workload"), &trace());
        let mut evaluator = Evaluator::new(RandomScheduler, EndAfter(round_len), workload, small_cluster());
        let report = evaluator.schedule_and_deploy();
        check_round(&report, 10000);
        assert_eq!(report.0.tasks_scheduled + report.0.tasks_delayed, round_len);
        assert_eq!(report.1, evaluator.cluster.metrics);
        assert_eq!(evaluator.workload.backlog_size() as u32, report.0.tasks_delayed);
        let left: u64 = evaluator.cluster.nodes.iter().map(|n| n.gpu_rem.iter().sum::<u64>()).sum();
        assert_eq!(left, report.1.gpu_unallocated);
        let cpu_taken: u64 = evaluator.cluster.nodes.iter().map(|n| n.spec.cpu_milli - n.cpu_rem).sum();
        assert_eq!(cpu_taken as u128, report.0.total_cpu);
        let mem_taken: u64 = evaluator.cluster.nodes.iter().map(|n| n.spec.memory_mib - n.mem_rem).sum();
        assert_eq!(mem_taken as u128, report.0.total_mem);
    }
}

#[test]
fn evaluate_runs_a_hundred_rounds_on_a_fresh_cluster_each() {
    let workload = WorkloadStruct::new(String::from("workload"), &trace());
    let mut evaluator = Evaluator::new(DotProductScheduler, EndAfter(40), workload, small_cluster());
    let reports = evaluator.evaluate();
    assert_eq!(reports.len(), 100);
    for report in &reports {
        check_round(report, 10000);
        assert_eq!(report.0.tasks_scheduled + report.0.tasks_delayed, 40);
    }
    assert_eq!(evaluator.cluster.metrics, NodeMetrics { gpu_total: 10000, gpu_unallocated: 10000, frag_total: 0 });
    for node in &evaluator.cluster.nodes {
        assert_eq!(node.gpu_rem, vec![1000; node.spec.num_gpu]);
        assert_eq!(node.cpu_rem, node.spec.cpu_milli);
        assert_eq!(node.mem_rem, node.spec.memory_mib);
    }
    assert_eq!(evaluator.workload.metrics, TaskMetrics::default());
    assert_eq!(evaluator.workload.tasks.len(), 5);
}

#[test]
fn evaluate_with_the_reference_policies() {
    let pods = vec![PodSpec { cpu_milli: 1000, memory_mib: 1000, num_gpu: 1, gpu_milli: 1000, model: GpuSpec::empty() }];
    let workload = WorkloadStruct::new(String::from("workload"), &pods);
    let cluster = cluster_of(&vec![NodeSpec { cpu_milli: 64000, memory_mib: 262144, num_gpu: 2, model: GpuSpec::empty() }]);
    let mut evaluator = Evaluator::new(BestFitScheduler, MaxDelayed, workload, cluster);
    let reports = evaluator.evaluate();
    assert_eq!(reports.len(), 100);
    assert_eq!(
        reports[0].0,
        TaskMetrics { tasks_arrived: 502, tasks_scheduled: 2, tasks_delayed: 500, total_cpu: 2000, total_mem: 2000, total_gpu: 2000 }
    );
    for report in &reports[1..] {
        assert_eq!(
            report.0,
            TaskMetrics { tasks_arrived: 499, tasks_scheduled: 2, tasks_delayed: 500, total_cpu: 2000, total_mem: 2000, total_gpu: 2000 }
        );
    }
    for report in &reports {
        assert_eq!(report.1, NodeMetrics { gpu_total: 2000, gpu_unallocated: 0, frag_total: 0 });
    }
    assert_eq!(evaluator.workload.backlog_size(), 500 + 99 * 497);
}

#[test]
fn a_round_with_max_tasks_arrived() {
    let pods = vec![PodSpec { cpu_milli: 0, memory_mib: 0, num_gpu: 0, gpu_milli: 0, model: GpuSpec::empty() }];
    let workload = WorkloadStruct::new(String::from("workload"), &pods);
    let cluster = cluster_of(&vec![NodeSpec { cpu_milli: 1, memory_mib: 1, num_gpu: 0, model: GpuSpec::empty() }]);
    let mut evaluator = Evaluator::new(RandomScheduler, MaxTasksArrived, workload, cluster);
    let (tasks, nodes) = evaluator.schedule_and_deploy();
    assert_eq!(
        tasks,
        TaskMetrics { tasks_arrived: 10000, tasks_scheduled: 10000, tasks_delayed: 0, total_cpu: 0, total_mem: 0, total_gpu: 0 }
    );
    assert_eq!(nodes, NodeMetrics::default());
}
