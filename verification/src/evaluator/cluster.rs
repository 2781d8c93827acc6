//! The cluster: its nodes in the middle of a round, and what is left on them in all.

use crate::node::{
    gpu_asked, lemma_all_free, lemma_sum_nonnegative, Binding, NodeInfoStruct, NodeState,
};
use crate::records;
use crate::types::{GPU, GPU_MILLI, NODE, NUM, NodeSpecStruct, PodSpecStruct, whole_gpus};
use rand::rngs::ThreadRng;
use vstd::prelude::*;

verus! {

/// The GPU capacity of the cluster and how much of it is not allocated.
#[derive(Clone, Copy, Debug, PartialEq, Eq, Structural)]
pub struct NodeMetrics {
    /// The capacity of all GPUs of all nodes.
    pub gpu_total: GPU,
    /// What is left of all GPUs of all nodes.
    pub gpu_unallocated: GPU,
    /// Fragmentation is not measured: this stays 0.
    pub frag_total: GPU,
}

impl Default for NodeMetrics {
    /// The metrics of a cluster without GPUs.
    fn default() -> (m: NodeMetrics)
        ensures
            m == (NodeMetrics { gpu_total: 0, gpu_unallocated: 0, frag_total: 0 }),
    {
        NodeMetrics { gpu_total: 0, gpu_unallocated: 0, frag_total: 0 }
    }
}

/// The GPU capacity of nodes with these specs together.
pub open spec fn capacity(specs: Seq<NodeSpecStruct>) -> int
    decreases specs.len(),
{
    if specs.len() == 0 {
        0
    } else {
        capacity(specs.drop_last()) + specs.last().gpu_milli
    }
}

/// What is left of all GPUs of these nodes together.
pub open spec fn unallocated(nodes: Seq<NodeState>) -> int
    decreases nodes.len(),
{
    if nodes.len() == 0 {
        0
    } else {
        unallocated(nodes.drop_last()) + nodes.last().unallocated()
    }
}

/// The specs of these nodes.
pub open spec fn specs_of(nodes: Seq<NodeState>) -> Seq<NodeSpecStruct> {
    Seq::new(nodes.len(), |i: int| nodes[i].spec)
}

/// The nodes with these specs when nothing runs on them.
pub open spec fn fresh_nodes(specs: Seq<NodeSpecStruct>) -> Seq<NodeState> {
    Seq::new(specs.len(), |i: int| NodeState::fresh(specs[i]))
}

/// The spec made of the row with number `id`.
pub open spec fn node_spec_of(id: NODE, row: records::NodeSpec) -> NodeSpecStruct {
    NodeSpecStruct {
        id,
        cpu_milli: row.cpu_milli,
        memory_mib: row.memory_mib,
        num_gpu: row.num_gpu,
        gpu_milli: whole_gpus(row.num_gpu) as GPU,
        model: row.model,
    }
}

/// Each spec is valid and has its place in the sequence as its id.
pub open spec fn specs_in_order(specs: Seq<NodeSpecStruct>) -> bool {
    forall|i: int| 0 <= i < specs.len() ==> (#[trigger] specs[i]).wf() && specs[i].id == i
}

/// What a cluster holds, as plain values.
pub struct ClusterState {
    pub name: Seq<char>,
    pub nodes: Seq<NodeState>,
    pub metrics: NodeMetrics,
}

impl ClusterState {
    /// The state is one that a cluster can be in: every node is in a state
    /// that a node can be in and stands at the place that its id names, and
    /// the metrics say what the nodes hold.
    pub open spec fn valid(self) -> bool {
        &&& forall|i: int|
            0 <= i < self.nodes.len() ==>
                (#[trigger] self.nodes[i]).valid() && self.nodes[i].spec.id
                == i
        &&& self.metrics.gpu_total == capacity(specs_of(self.nodes))
        &&& self.metrics.gpu_unallocated == unallocated(self.nodes)
        &&& self.metrics.frag_total == 0
    }

    /// The cluster of nodes with these specs when nothing runs on it.
    pub open spec fn fresh(name: Seq<char>, specs: Seq<NodeSpecStruct>) -> ClusterState {
        ClusterState {
            name,
            nodes: fresh_nodes(specs),
            metrics: NodeMetrics {
                gpu_total: capacity(specs) as GPU,
                gpu_unallocated: capacity(specs) as GPU,
                frag_total: 0,
            },
        }
    }

    /// The cluster as it is after a reset: the same nodes, with nothing running on them.
    pub open spec fn reset(self) -> ClusterState {
        ClusterState::fresh(self.name, specs_of(self.nodes))
    }

    /// The task can be bound to the GPUs `gpus` of node `n`.
    pub open spec fn can_bind(self, task: PodSpecStruct, n: NODE, gpus: Seq<NUM>) -> bool {
        n < self.nodes.len() && self.nodes[n as int].can_bind(task, gpus)
    }

    /// The cluster after the task was bound to the GPUs `gpus` of node `n`.
    pub open spec fn bind(self, task: PodSpecStruct, n: NODE, gpus: Seq<NUM>) -> ClusterState {
        ClusterState {
            name: self.name,
            nodes: self.nodes.update(n as int, self.nodes[n as int].bind(task, gpus)),
            metrics: NodeMetrics {
                gpu_total: self.metrics.gpu_total,
                gpu_unallocated: (self.metrics.gpu_unallocated - task.gpu_milli) as GPU,
                frag_total: self.metrics.frag_total,
            },
        }
    }

    /// Each of the binds can be made in turn, starting from this state.
    pub open spec fn can_bind_all(self, binds: Seq<Binding>) -> bool
        decreases binds.len(),
    {
        binds.len() > 0 ==> {
            let first = binds[0];
            &&& first.task.wf()
            &&& self.can_bind(first.task, first.node, first.gpus)
            &&& self.bind(first.task, first.node, first.gpus).can_bind_all(binds.skip(1))
        }
    }

    /// The cluster after the binds were made in turn.
    pub open spec fn bind_all(self, binds: Seq<Binding>) -> ClusterState
        decreases binds.len(),
    {
        if binds.len() == 0 {
            self
        } else {
            self.bind(binds[0].task, binds[0].node, binds[0].gpus).bind_all(binds.skip(1))
        }
    }

    /// A bind that was allowed leaves a state that a cluster can be in, and
    /// takes from what is left on the GPUs exactly what the task asks for.
    pub proof fn lemma_bind(self, task: PodSpecStruct, n: NODE, gpus: Seq<NUM>)
        requires
            self.valid(),
            task.wf(),
            self.can_bind(task, n, gpus),
        ensures
            self.bind(task, n, gpus).valid(),
            self.bind(task, n, gpus).metrics.gpu_unallocated == self.metrics.gpu_unallocated
                - task.gpu_milli,
    {
        let node = self.nodes[n as int];
        let after = self.bind(task, n, gpus);
        node.lemma_bind(task, gpus);
        lemma_unallocated_update(self.nodes, n as int, node.bind(task, gpus));
        lemma_unallocated_nonnegative(after.nodes);
        assert(specs_of(after.nodes) =~= specs_of(self.nodes));
    }

    /// After any number of binds that were allowed, every GPU of every node has
    /// between nothing and one GPU left, no node has more of anything left than
    /// it has, and the metrics say what the nodes hold.
    pub proof fn lemma_bind_all_valid(self, binds: Seq<Binding>)
        requires
            self.valid(),
            self.can_bind_all(binds),
        ensures
            self.bind_all(binds).valid(),
            self.bind_all(binds).nodes.len() == self.nodes.len(),
        decreases binds.len(),
    {
        if binds.len() > 0 {
            let first = binds[0];
            self.lemma_bind(first.task, first.node, first.gpus);
            self.bind(first.task, first.node, first.gpus).lemma_bind_all_valid(binds.skip(1));
        }
    }

    /// What a round of binds takes from the GPUs of the cluster is the sum of
    /// what its tasks ask for.
    pub proof fn lemma_bind_all_takes(self, binds: Seq<Binding>)
        requires
            self.valid(),
            self.can_bind_all(binds),
        ensures
            self.metrics.gpu_unallocated - self.bind_all(binds).metrics.gpu_unallocated
                == gpu_asked(binds),
        decreases binds.len(),
    {
        if binds.len() > 0 {
            let first = binds[0];
            self.lemma_bind(first.task, first.node, first.gpus);
            self.bind(first.task, first.node, first.gpus).lemma_bind_all_takes(binds.skip(1));
        }
    }

    /// A fresh cluster is in a state that a cluster can be in, with all of its
    /// GPU capacity left.
    pub proof fn lemma_fresh(name: Seq<char>, specs: Seq<NodeSpecStruct>)
        requires
            specs_in_order(specs),
            capacity(specs) <= u64::MAX,
        ensures
            ClusterState::fresh(name, specs).valid(),
            specs_of(ClusterState::fresh(name, specs).nodes) == specs,
    {
        let c = ClusterState::fresh(name, specs);
        assert(specs_of(c.nodes) =~= specs);
        lemma_fresh_unallocated(specs);
        lemma_capacity_nonnegative(specs);
        assert forall|i: int| 0 <= i < c.nodes.len() implies (#[trigger] c.nodes[i]).valid()
            && c.nodes[i].spec.id == i by {
            assert(specs[i].wf());
        }
    }

    /// Resetting a cluster that was reset changes nothing.
    pub proof fn lemma_reset_idempotent(self)
        ensures
            self.reset().reset() == self.reset(),
    {
        assert(specs_of(self.reset().nodes) =~= specs_of(self.nodes));
    }
}

/// A capacity is not negative.
pub proof fn lemma_capacity_nonnegative(specs: Seq<NodeSpecStruct>)
    ensures
        0 <= capacity(specs),
    decreases specs.len(),
{
    if specs.len() > 0 {
        lemma_capacity_nonnegative(specs.drop_last());
    }
}

/// The first nodes of a cluster have no more capacity than all of them.
pub proof fn lemma_capacity_take(specs: Seq<NodeSpecStruct>, i: int)
    requires
        0 <= i <= specs.len(),
    ensures
        0 <= capacity(specs.take(i)) <= capacity(specs),
    decreases specs.len() - i,
{
    lemma_capacity_nonnegative(specs.take(i));
    if i == specs.len() {
        assert(specs.take(i) =~= specs);
    } else {
        lemma_capacity_take(specs, i + 1);
        assert(specs.take(i + 1).drop_last() =~= specs.take(i));
    }
}

/// What is left is not negative.
pub proof fn lemma_unallocated_nonnegative(nodes: Seq<NodeState>)
    ensures
        0 <= unallocated(nodes),
    decreases nodes.len(),
{
    if nodes.len() > 0 {
        lemma_unallocated_nonnegative(nodes.drop_last());
        lemma_sum_nonnegative(nodes.last().gpu_rem);
    }
}

/// Where one node changes, what is left in all changes by what is left on that node.
pub proof fn lemma_unallocated_update(nodes: Seq<NodeState>, i: int, node: NodeState)
    requires
        0 <= i < nodes.len(),
    ensures
        unallocated(nodes.update(i, node)) == unallocated(nodes) - nodes[i].unallocated()
            + node.unallocated(),
    decreases nodes.len(),
{
    let after = nodes.update(i, node);
    if i == nodes.len() - 1 {
        assert(after.drop_last() =~= nodes.drop_last());
    } else {
        assert(after.drop_last() =~= nodes.drop_last().update(i, node));
        lemma_unallocated_update(nodes.drop_last(), i, node);
    }
}

/// On fresh nodes all of the capacity is left.
pub proof fn lemma_fresh_unallocated(specs: Seq<NodeSpecStruct>)
    requires
        forall|i: int| 0 <= i < specs.len() ==> (#[trigger] specs[i]).wf(),
    ensures
        unallocated(fresh_nodes(specs)) == capacity(specs),
    decreases specs.len(),
{
    if specs.len() > 0 {
        let init = specs.drop_last();
        assert forall|i: int| 0 <= i < init.len() implies (#[trigger] init[i]).wf() by {
            assert(init[i] == specs[i]);
        }
        lemma_fresh_unallocated(init);
        assert(fresh_nodes(specs).drop_last() =~= fresh_nodes(init));
        assert(specs[specs.len() - 1].wf());
        lemma_all_free(specs.last().num_gpu as nat);
    }
}

/// The cluster.
#[derive(Debug)]
pub struct ClusterStruct {
    pub name: String,
    pub rng: ThreadRng,
    pub num_nodes: NODE,
    /// The nodes; the node with id `n` stands at place `n`.
    pub nodes: Vec<NodeInfoStruct>,
    pub metrics: NodeMetrics,
}

impl View for ClusterStruct {
    type V = ClusterState;

    open spec fn view(&self) -> ClusterState {
        ClusterState {
            name: self.name@,
            nodes: Seq::new(self.nodes@.len(), |i: int| self.nodes@[i]@),
            metrics: self.metrics,
        }
    }
}

impl ClusterStruct {
    /// The cluster is valid: its state is one that a cluster can be in, and
    /// every node is valid.
    pub open spec fn wf(&self) -> bool {
        &&& self@.valid()
        &&& self.num_nodes == self.nodes@.len()
        &&& forall|i: int| 0 <= i < self.nodes@.len() ==> (#[trigger] self.nodes@[i]).wf()
    }

    /// The specs of the nodes that the rows describe: row `i` becomes the node
    /// with id `i`, and the capacity of its GPUs is one whole GPU for each.
    pub fn node_specs_from_records(rows: &Vec<records::NodeSpec>) -> (specs: Vec<NodeSpecStruct>)
        requires
            forall|i: int| 0 <= i < rows@.len() ==> (#[trigger] rows@[i]).wf(),
        ensures
            specs@.len() == rows@.len(),
            forall|i: int| 0 <= i < rows@.len() ==>
                #[trigger] specs@[i] == node_spec_of(i as NODE, rows@[i]),
            specs_in_order(specs@),
    {
        let mut specs: Vec<NodeSpecStruct> = Vec::new();
        let mut i: usize = 0;
        while i < rows.len()
            invariant
                0 <= i <= rows@.len(),
                specs@.len() == i,
                forall|j: int| 0 <= j < rows@.len() ==> (#[trigger] rows@[j]).wf(),
                forall|j: int| 0 <= j < i ==>
                    #[trigger] specs@[j] == node_spec_of(j as NODE, rows@[j]),
            decreases rows@.len() - i,
        {
            let row = rows[i];
            assert(rows@[i as int].wf());
            let gpu_milli = row.num_gpu as GPU * GPU_MILLI;
            specs.push(
                NodeSpecStruct {
                    id: i,
                    cpu_milli: row.cpu_milli,
                    memory_mib: row.memory_mib,
                    num_gpu: row.num_gpu,
                    gpu_milli,
                    model: row.model,
                },
            );
            i += 1;
        }
        specs
    }

    /// The GPU capacity of nodes with these specs together, or `None` where it
    /// is more than a `u64` holds.
    pub fn gpu_capacity(specs: &Vec<NodeSpecStruct>) -> (total: Option<GPU>)
        ensures
            match total {
                Some(t) => t == capacity(specs@),
                None => capacity(specs@) > u64::MAX,
            },
    {
        let mut total: GPU = 0;
        let mut i: usize = 0;
        while i < specs.len()
            invariant
                0 <= i <= specs@.len(),
                total == capacity(specs@.take(i as int)),
            decreases specs@.len() - i,
        {
            proof {
                assert(specs@.take(i + 1).drop_last() =~= specs@.take(i as int));
                lemma_capacity_take(specs@, i + 1);
            }
            let more = specs[i].gpu_milli;
            if more > u64::MAX - total {
                return None;
            }
            total += more;
            i += 1;
        }
        proof {
            assert(specs@.take(i as int) =~= specs@);
        }
        Some(total)
    }

    /// The cluster of the nodes with these specs, with nothing running on it.
    pub fn new(name: String, specs: &Vec<NodeSpecStruct>) -> (cluster: ClusterStruct)
        requires
            specs_in_order(specs@),
            capacity(specs@) <= u64::MAX,
        ensures
            cluster.wf(),
            cluster@ == ClusterState::fresh(name@, specs@),
            cluster.metrics.gpu_total == capacity(specs@),
            cluster.metrics.gpu_unallocated == capacity(specs@),
    {
        let num_nodes = specs.len();
        let mut nodes: Vec<NodeInfoStruct> = Vec::new();
        let mut metrics = NodeMetrics::default();
        let mut i: usize = 0;
        while i < num_nodes
            invariant
                0 <= i <= num_nodes,
                num_nodes == specs@.len(),
                specs_in_order(specs@),
                capacity(specs@) <= u64::MAX,
                nodes@.len() == i,
                forall|j: int| 0 <= j < i ==>
                    (#[trigger] nodes@[j]).wf() && nodes@[j]@ == NodeState::fresh(specs@[j]),
                metrics.gpu_total == capacity(specs@.take(i as int)),
                metrics.gpu_unallocated == metrics.gpu_total,
                metrics.frag_total == 0,
            decreases num_nodes - i,
        {
            let spec = specs[i];
            proof {
                assert(specs@[i as int].wf());
                assert(specs@.take(i + 1).drop_last() =~= specs@.take(i as int));
                lemma_capacity_take(specs@, i + 1);
            }
            metrics.gpu_unallocated += spec.gpu_milli;
            metrics.gpu_total += spec.gpu_milli;
            nodes.push(NodeInfoStruct::new(spec));
            i += 1;
        }
        let rng = rand::rng();
        let cluster = ClusterStruct { name, rng, num_nodes, nodes, metrics };
        proof {
            assert(specs@.take(i as int) =~= specs@);
            ClusterState::lemma_fresh(name@, specs@);
            assert(cluster@.nodes =~= fresh_nodes(specs@));
        }
        cluster
    }

    /// The ids of the nodes that can host the task, in the order of the nodes:
    /// those with the CPU and memory, with the GPUs, and with a model that the
    /// task accepts.
    pub fn filter_nodes(&self, task: &PodSpecStruct) -> (ids: Vec<NODE>)
        requires
            self.wf(),
        ensures
            forall|k: int|
                0 <= k < ids@.len() ==>
                    (#[trigger] ids@[k]) < self.nodes@.len() && self@.nodes[ids@[k] as int].fits(
                    *task,
                ),
            forall|j: int, k: int| 0 <= j < k < ids@.len() ==> ids@[j] < ids@[k],
            forall|n: int|
                0 <= n < self.nodes@.len() && (#[trigger] self@.nodes[n]).fits(*task)
                    ==> ids@.contains(n as NODE),
    {
        let mut ids: Vec<NODE> = Vec::new();
        let mut i: usize = 0;
        while i < self.nodes.len()
            invariant
                0 <= i <= self.nodes@.len(),
                self.wf(),
                forall|k: int|
                    0 <= k < ids@.len() ==>
                        (#[trigger] ids@[k]) < i && self@.nodes[ids@[k] as int].fits(*task),
                forall|j: int, k: int| 0 <= j < k < ids@.len() ==> ids@[j] < ids@[k],
                forall|n: int|
                    0 <= n < i && (#[trigger] self@.nodes[n]).fits(*task) ==> ids@.contains(
                        n as NODE,
                    ),
            decreases self.nodes@.len() - i,
        {
            assert(self.nodes@[i as int].wf());
            if self.nodes[i].fits(task) {
                let ghost before = ids@;
                ids.push(i);
                proof {
                    assert forall|n: int|
                        0 <= n < i + 1 && (#[trigger] self@.nodes[n]).fits(*task)
                            implies ids@.contains(n as NODE) by {
                        if n < i {
                            assert(before.contains(n as NODE));
                            let k = choose|k: int| 0 <= k < before.len() && before[k] == n as NODE;
                            assert(ids@[k] == n as NODE);
                        } else {
                            assert(ids@[ids@.len() - 1] == n as NODE);
                        }
                    }
                }
            }
            i += 1;
        }
        ids
    }

    /// Whether the task can be bound to the GPUs `gpus` of node `n`.
    pub fn accepts(&self, task: &PodSpecStruct, n: NODE, gpus: &Vec<NUM>) -> (ok: bool)
        ensures
            ok == self@.can_bind(*task, n, gpus@),
    {
        n < self.nodes.len() && self.nodes[n].accepts(task, gpus)
    }

    /// Binds the task to the GPUs `gpus` of node `n`, and takes what the task
    /// asks for from what the cluster has left.
    pub fn bind_task(&mut self, task: &PodSpecStruct, n: NODE, gpus: &Vec<NUM>)
        requires
            old(self).wf(),
            task.wf(),
            old(self)@.can_bind(*task, n, gpus@),
        ensures
            final(self).wf(),
            final(self)@ == old(self)@.bind(*task, n, gpus@),
            final(self).metrics.gpu_unallocated == old(self).metrics.gpu_unallocated
                - task.gpu_milli,
    {
        proof {
            old(self)@.lemma_bind(*task, n, gpus@);
            assert(old(self).nodes@[n as int].wf());
        }
        self.nodes[n].bind(task, gpus);
        self.metrics.gpu_unallocated -= task.gpu_milli;
        proof {
            assert(self@.nodes =~= old(self)@.bind(*task, n, gpus@).nodes);
        }
    }

    /// Puts every node back to where nothing runs on it, and the metrics back
    /// to where nothing is allocated. The nodes keep their order and their ids.
    pub fn reset(&mut self)
        requires
            old(self).wf(),
        ensures
            final(self).wf(),
            final(self)@ == old(self)@.reset(),
            final(self).metrics.gpu_total == old(self).metrics.gpu_total,
            final(self).metrics.gpu_unallocated == old(self).metrics.gpu_total,
    {
        let ghost specs = specs_of(old(self)@.nodes);
        let mut i: usize = 0;
        while i < self.nodes.len()
            invariant
                0 <= i <= self.nodes@.len(),
                self.nodes@.len() == old(self).nodes@.len(),
                self.name == old(self).name,
                self.num_nodes == old(self).num_nodes,
                self.metrics == old(self).metrics,
                specs == specs_of(old(self)@.nodes),
                forall|j: int| 0 <= j < self.nodes@.len() ==>
                    (#[trigger] self.nodes@[j]).wf() && self.nodes@[j].spec == specs[j],
                forall|j: int| 0 <= j < i ==>
                    (#[trigger] self.nodes@[j])@ == NodeState::fresh(specs[j]),
            decreases self.nodes@.len() - i,
        {
            let spec = self.nodes[i].spec;
            assert(self.nodes@[i as int].wf());
            self.nodes.set(i, NodeInfoStruct::new(spec));
            i += 1;
        }
        self.metrics.gpu_unallocated = self.metrics.gpu_total;
        proof {
            assert forall|j: int| 0 <= j < specs.len()
                implies (#[trigger] specs[j]).wf() && specs[j].id == j by {
                assert(old(self)@.nodes[j].valid());
            }
            lemma_capacity_nonnegative(specs);
            ClusterState::lemma_fresh(self.name@, specs);
            assert(self@.nodes =~= fresh_nodes(specs));
        }
    }

    /// The metrics of the cluster as they stand.
    pub fn deploy(&self) -> (m: NodeMetrics)
        ensures
            m == self.metrics,
    {
        self.metrics
    }
}

} // verus!
