use gpu_sched_sim::evaluator::cluster::{ClusterStruct, NodeMetrics};
use gpu_sched_sim::gpu_spec::{GpuModel, GpuSpec};
use gpu_sched_sim::records::NodeSpec;
use gpu_sched_sim::types::{NodeSpecStruct, PodSpecStruct};

fn row(cpu_milli: u64, memory_mib: u64, num_gpu: usize, model: GpuSpec) -> NodeSpec {
    NodeSpec { cpu_milli, memory_mib, num_gpu, model }
}

fn five_nodes() -> Vec<NodeSpec> {
    vec![
        row(64000, 262144, 2, GpuSpec::single(GpuModel::P100)),
        row(128000, 786432, 8, GpuSpec::single(GpuModel::G3)),
        row(96000, 786432, 8, GpuSpec::single(GpuModel::V100M32)),
        row(96000, 524288, 0, GpuSpec::empty()),
        row(32000, 131072, 4, GpuSpec::single(GpuModel::V100M16)),
    ]
}

fn cluster_of(rows: &Vec<NodeSpec>) -> ClusterStruct {
    let specs = ClusterStruct::node_specs_from_records(rows);
    ClusterStruct::new(String::from("cluster"), &specs)
}

fn task(cpu_milli: u64, memory_mib: u64, num_gpu: usize, gpu_milli: u64, model: GpuSpec) -> PodSpecStruct {
    PodSpecStruct { id: 0, cpu_milli, memory_mib, num_gpu, gpu_milli, model }
}

#[test]
fn rows_become_specs_with_ids_and_gpu_capacity() {
    let specs = ClusterStruct::node_specs_from_records(&five_nodes());
    assert_eq!(specs.len(), 5);
    assert_eq!(
        specs[0],
        NodeSpecStruct {
            id: 0,
            cpu_milli: 64000,
            memory_mib: 262144,
            num_gpu: 2,
            gpu_milli: 2000,
            model: GpuSpec::single(GpuModel::P100),
        }
    );
    assert_eq!(specs.iter().map(|s| s.id).collect::<Vec<_>>(), vec![0, 1, 2, 3, 4]);
    assert_eq!(specs.iter().map(|s| s.gpu_milli).collect::<Vec<_>>(), vec![2000, 8000, 8000, 0, 4000]);
    assert_eq!(ClusterStruct::node_specs_from_records(&vec![]), vec![]);
}

#[test]
fn gpu_capacity_is_the_sum_or_none() {
    let specs = ClusterStruct::node_specs_from_records(&five_nodes());
    assert_eq!(ClusterStruct::gpu_capacity(&specs), Some(22000));
    assert_eq!(ClusterStruct::gpu_capacity(&vec![]), Some(0));
    let huge = NodeSpecStruct {
        id: 0,
        cpu_milli: 0,
        memory_mib: 0,
        num_gpu: 18_000_000_000_000_000,
        gpu_milli: 18_000_000_000_000_000_000,
        model: GpuSpec::empty(),
    };
    let mut second = huge;
    second.id = 1;
    assert_eq!(ClusterStruct::gpu_capacity(&vec![huge]), Some(18_000_000_000_000_000_000));
    assert_eq!(ClusterStruct::gpu_capacity(&vec![huge, second]), None);
}

#[test]
fn new_cluster_is_fresh() {
    let cluster = cluster_of(&five_nodes());
    assert_eq!(cluster.name, "cluster");
    assert_eq!(cluster.num_nodes, 5);
    assert_eq!(cluster.nodes.len(), 5);
    assert_eq!(cluster.metrics, NodeMetrics { gpu_total: 22000, gpu_unallocated: 22000, frag_total: 0 });
    for (i, node) in cluster.nodes.iter().enumerate() {
        assert_eq!(node.spec.id, i);
        assert_eq!(node.cpu_rem, node.spec.cpu_milli);
        assert_eq!(node.mem_rem, node.spec.memory_mib);
        assert_eq!(node.gpu_rem, vec![1000; node.spec.num_gpu]);
        assert_eq!(node.gpu_full, node.spec.num_gpu);
        assert_eq!(node.gpu_part, 0);
        assert_eq!(node.gpu_unallocated, node.spec.gpu_milli);
    }
    assert_eq!(cluster.deploy(), cluster.metrics);
}

#[test]
fn empty_cluster() {
    let cluster = cluster_of(&vec![]);
    assert_eq!(cluster.num_nodes, 0);
    assert_eq!(cluster.metrics, NodeMetrics::default());
    assert_eq!(cluster.filter_nodes(&task(0, 0, 0, 0, GpuSpec::empty())), Vec::<usize>::new());
}

#[test]
fn filter_nodes_keeps_the_order_of_the_nodes() {
    let cluster = cluster_of(&five_nodes());
    assert_eq!(cluster.filter_nodes(&task(0, 0, 0, 0, GpuSpec::empty())), vec![0, 1, 2, 3, 4]);
    assert_eq!(cluster.filter_nodes(&task(4000, 10600, 1, 810, GpuSpec::empty())), vec![0, 1, 2, 4]);
    assert_eq!(cluster.filter_nodes(&task(96000, 524288, 0, 0, GpuSpec::empty())), vec![1, 2, 3]);
    assert_eq!(cluster.filter_nodes(&task(1, 1, 4, 4000, GpuSpec::empty())), vec![1, 2, 4]);
    assert_eq!(cluster.filter_nodes(&task(1, 1, 8, 8000, GpuSpec::empty())), vec![1, 2]);
    assert_eq!(cluster.filter_nodes(&task(1, 1, 9, 9000, GpuSpec::empty())), Vec::<usize>::new());
    assert_eq!(cluster.filter_nodes(&task(128001, 1, 0, 0, GpuSpec::empty())), Vec::<usize>::new());
    assert_eq!(cluster.filter_nodes(&task(1, 786433, 0, 0, GpuSpec::empty())), Vec::<usize>::new());
}

#[test]
fn filter_nodes_is_the_same_every_time() {
    let cluster = cluster_of(&five_nodes());
    let t = task(4000, 10600, 1, 810, GpuSpec::empty());
    assert_eq!(cluster.filter_nodes(&t), cluster.filter_nodes(&t));
}

#[test]
fn every_filtered_node_meets_the_three_conditions() {
    let mut cluster = cluster_of(&five_nodes());
    cluster.bind_task(&task(60000, 200000, 1, 800, GpuSpec::empty()), 0, &vec![1]);
    cluster.bind_task(&task(1000, 1000, 6, 6000, GpuSpec::empty()), 2, &vec![0, 1, 2, 3, 4, 5]);
    let models = GpuSpec::single(GpuModel::P100).union(GpuSpec::single(GpuModel::V100M32));
    let t = task(4000, 10600, 1, 300, models);
    let ids = cluster.filter_nodes(&t);
    assert_eq!(ids, vec![0, 2]);
    for (i, node) in cluster.nodes.iter().enumerate() {
        let scalar = t.cpu_milli <= node.cpu_rem && t.memory_mib <= node.mem_rem;
        let gpu = node.gpu_rem.iter().any(|&g| g >= t.gpu_milli);
        let model = t.model.is_empty() || t.model.intersects(node.spec.model);
        assert_eq!(ids.contains(&i), scalar && gpu && model);
    }
    let whole = task(4000, 10600, 3, 3000, GpuSpec::empty());
    assert_eq!(cluster.filter_nodes(&whole), vec![1, 4]);
}

#[test]
fn model_filter_reject() {
    let cluster = cluster_of(&vec![row(64000, 262144, 2, GpuSpec::single(GpuModel::P100))]);
    let t = task(4000, 10600, 1, 810, GpuSpec::single(GpuModel::T4));
    assert_eq!(cluster.filter_nodes(&t), Vec::<usize>::new());
    let t = task(4000, 10600, 1, 810, GpuSpec::single(GpuModel::P100));
    assert_eq!(cluster.filter_nodes(&t), vec![0]);
}

#[test]
fn bind_task_changes_one_node_and_the_metrics() {
    let mut cluster = cluster_of(&five_nodes());
    let t = task(4000, 10600, 1, 810, GpuSpec::empty());
    cluster.bind_task(&t, 0, &vec![0]);
    assert_eq!(cluster.nodes[0].gpu_rem, vec![190, 1000]);
    assert_eq!(cluster.nodes[0].gpu_full, 1);
    assert_eq!(cluster.nodes[0].gpu_part, 190);
    assert_eq!(cluster.nodes[0].gpu_unallocated, 1190);
    assert_eq!(cluster.nodes[0].cpu_rem, 60000);
    assert_eq!(cluster.nodes[0].mem_rem, 251544);
    assert_eq!(cluster.metrics, NodeMetrics { gpu_total: 22000, gpu_unallocated: 21190, frag_total: 0 });
    for node in &cluster.nodes[1..] {
        assert_eq!(node.gpu_unallocated, node.spec.gpu_milli);
        assert_eq!(node.cpu_rem, node.spec.cpu_milli);
    }
}

#[test]
fn bind_task_multi_gpu_whole() {
    let mut cluster = cluster_of(&vec![row(128000, 786432, 8, GpuSpec::single(GpuModel::G3))]);
    let t = task(32200, 132096, 4, 4000, GpuSpec::empty());
    cluster.bind_task(&t, 0, &vec![0, 1, 2, 3]);
    assert_eq!(cluster.nodes[0].gpu_rem, vec![0, 0, 0, 0, 1000, 1000, 1000, 1000]);
    assert_eq!(cluster.nodes[0].gpu_full, 4);
    assert_eq!(cluster.nodes[0].gpu_part, 0);
    assert_eq!(cluster.nodes[0].gpu_unallocated, 4000);
    assert_eq!(cluster.metrics.gpu_unallocated, 4000);
}

#[test]
fn a_round_of_binds_takes_what_its_tasks_ask_for() {
    let mut cluster = cluster_of(&five_nodes());
    let binds: Vec<(PodSpecStruct, usize, Vec<usize>)> = vec![
        (task(4000, 10600, 1, 810, GpuSpec::empty()), 0, vec![0]),
        (task(4000, 10600, 1, 190, GpuSpec::empty()), 0, vec![0]),
        (task(1000, 1000, 8, 8000, GpuSpec::empty()), 1, vec![7, 6, 5, 4, 3, 2, 1, 0]),
        (task(1000, 1000, 0, 0, GpuSpec::empty()), 3, vec![]),
        (task(1000, 1000, 2, 2000, GpuSpec::empty()), 4, vec![1, 3]),
        (task(1000, 1000, 1, 1000, GpuSpec::empty()), 4, vec![0]),
    ];
    let before = cluster.metrics.gpu_unallocated;
    let mut asked = 0;
    for (t, n, gpus) in &binds {
        cluster.bind_task(t, *n, gpus);
        asked += t.gpu_milli;
        assert_eq!(before - cluster.metrics.gpu_unallocated, asked);
        assert_eq!(
            cluster.metrics.gpu_unallocated,
            cluster.nodes.iter().map(|n| n.gpu_unallocated).sum::<u64>()
        );
    }
    assert_eq!(asked, 12000);
    assert_eq!(cluster.metrics.gpu_unallocated, 10000);
    assert_eq!(cluster.metrics.gpu_total, 22000);
    assert_eq!(cluster.nodes[0].gpu_rem, vec![0, 1000]);
    assert_eq!(cluster.nodes[1].gpu_rem, vec![0; 8]);
    assert_eq!(cluster.nodes[4].gpu_rem, vec![0, 0, 1000, 0]);
}

#[test]
fn reset_restores_every_node() {
    let mut cluster = cluster_of(&five_nodes());
    cluster.bind_task(&task(4000, 10600, 1, 810, GpuSpec::empty()), 0, &vec![0]);
    cluster.bind_task(&task(1000, 1000, 8, 8000, GpuSpec::empty()), 1, &vec![0, 1, 2, 3, 4, 5, 6, 7]);
    cluster.reset();
    let fresh = cluster_of(&five_nodes());
    assert_eq!(cluster.metrics, fresh.metrics);
    assert_eq!(cluster.num_nodes, 5);
    assert_eq!(cluster.name, "cluster");
    for (node, new) in cluster.nodes.iter().zip(fresh.nodes.iter()) {
        assert_eq!(node.spec, new.spec);
        assert_eq!(node.cpu_rem, node.spec.cpu_milli);
        assert_eq!(node.mem_rem, node.spec.memory_mib);
        assert_eq!(node.gpu_rem, vec![1000; node.spec.num_gpu]);
        assert_eq!(node.gpu_full, new.gpu_full);
        assert_eq!(node.gpu_part, 0);
        assert_eq!(node.gpu_unallocated, new.gpu_unallocated);
    }
}

#[test]
fn reset_twice_is_reset_once() {
    let mut cluster = cluster_of(&five_nodes());
    cluster.bind_task(&task(4000, 10600, 1, 810, GpuSpec::empty()), 0, &vec![1]);
    cluster.reset();
    let once: Vec<_> = cluster.nodes.iter().map(|n| (n.spec, n.cpu_rem, n.mem_rem, n.gpu_rem.clone(), n.gpu_full, n.gpu_part, n.gpu_unallocated)).collect();
    let metrics = cluster.metrics;
    cluster.reset();
    let twice: Vec<_> = cluster.nodes.iter().map(|n| (n.spec, n.cpu_rem, n.mem_rem, n.gpu_rem.clone(), n.gpu_full, n.gpu_part, n.gpu_unallocated)).collect();
    assert_eq!(once, twice);
    assert_eq!(cluster.metrics, metrics);
}

#[test]
fn cluster_accepts_what_its_node_accepts() {
    let cluster = cluster_of(&five_nodes());
    let t = task(4000, 10600, 1, 810, GpuSpec::empty());
    assert!(cluster.accepts(&t, 0, &vec![0]));
    assert!(cluster.accepts(&t, 0, &vec![1]));
    assert!(!cluster.accepts(&t, 0, &vec![2]));
    assert!(!cluster.accepts(&t, 3, &vec![0]));
    assert!(!cluster.accepts(&t, 5, &vec![0]));
    assert!(cluster.accepts(&task(1, 1, 4, 4000, GpuSpec::empty()), 4, &vec![3, 2, 1, 0]));
    assert!(!cluster.accepts(&task(1, 1, 4, 4000, GpuSpec::empty()), 0, &vec![0, 1, 0, 1]));
}
