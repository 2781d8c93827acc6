//! Three reference schedulers: random placement, dot-product and best-fit.

use crate::evaluator::cluster::{ClusterState, ClusterStruct};
use crate::evaluator::workload::WorkloadStruct;
use crate::evaluator::Scheduler;
use crate::gpu_spec::GpuModel;
use crate::heuristics::score_by::{is_first_min, is_last_max, is_scoring, marks, Score, ScoreBy};
use crate::node::{gpu_suits, names_gpu, NodeInfoStruct, NodeState};
use crate::random::choose_one;
use crate::types::{GPU, GPU_MILLI, GpuInfoStruct, NODE, NUM, PodSpecStruct, SchedulingPick};
use vstd::prelude::*;

verus! {

/// What the dot-product score of a node with a GPU model loses for a task
/// that asks for no model.
pub const MODEL_PENALTY: u128 = 10000;

/// The task asks for no model and the node has one: such a node is better
/// kept for tasks that need its model.
pub open spec fn penalized(node: NodeState, task: PodSpecStruct) -> bool {
    task.model@ == Set::<GpuModel>::empty() && node.spec.model@ != Set::<GpuModel>::empty()
}

/// The dot-product score of a node for a task: what is left on the node times
/// what the task asks for, summed over CPU, memory and GPU, less the penalty
/// where it applies.
pub open spec fn dot_product_score(node: NodeState, task: PodSpecStruct) -> int {
    node.cpu_rem * task.cpu_milli + node.mem_rem * task.memory_mib + node.unallocated()
        * task.gpu_milli - if penalized(node, task) {
        MODEL_PENALTY as int
    } else {
        0
    }
}

/// The best-fit score of a node for a task: what would be left on the node of
/// CPU, memory and GPU together once the task runs there.
pub open spec fn best_fit_score(node: NodeState, task: PodSpecStruct) -> int {
    (node.cpu_rem - task.cpu_milli) + (node.mem_rem - task.memory_mib) + (node.unallocated()
        - task.gpu_milli)
}

/// No node of the cluster can host the task.
pub open spec fn none_fits(cluster: ClusterState, task: PodSpecStruct) -> bool {
    forall|n: int| 0 <= n < cluster.nodes.len() ==> !(#[trigger] cluster.nodes[n]).fits(task)
}

/// Node `n` is the choice of the dot-product policy: of the nodes that can
/// host the task it has the highest score, and is the last such node.
pub open spec fn is_dot_product_node(cluster: ClusterState, task: PodSpecStruct, n: NODE) -> bool {
    &&& n < cluster.nodes.len()
    &&& cluster.nodes[n as int].fits(task)
    &&& forall|j: int|
        0 <= j < cluster.nodes.len() && (#[trigger] cluster.nodes[j]).fits(task)
            ==> dot_product_score(cluster.nodes[j], task) <= dot_product_score(
            cluster.nodes[n as int],
            task,
        )
    &&& forall|j: int|
        n < j < cluster.nodes.len() && (#[trigger] cluster.nodes[j]).fits(task)
            ==> dot_product_score(cluster.nodes[j], task) < dot_product_score(
            cluster.nodes[n as int],
            task,
        )
}

/// Node `n` is the choice of the best-fit policy: of the nodes that can host
/// the task it has the lowest score, and is the first such node.
pub open spec fn is_best_fit_node(cluster: ClusterState, task: PodSpecStruct, n: NODE) -> bool {
    &&& n < cluster.nodes.len()
    &&& cluster.nodes[n as int].fits(task)
    &&& forall|j: int|
        0 <= j < cluster.nodes.len() && (#[trigger] cluster.nodes[j]).fits(task) ==> best_fit_score(
            cluster.nodes[n as int],
            task,
        ) <= best_fit_score(cluster.nodes[j], task)
    &&& forall|j: int|
        0 <= j < n && (#[trigger] cluster.nodes[j]).fits(task) ==> best_fit_score(
            cluster.nodes[n as int],
            task,
        ) < best_fit_score(cluster.nodes[j], task)
}

/// `gpus` names the first `n` free GPUs of the row, in the order of their indices.
pub open spec fn is_first_free(rem: Seq<GPU>, gpus: Seq<NUM>, n: nat) -> bool {
    &&& gpus.len() == n
    &&& forall|k: int|
        0 <= k < gpus.len() ==> (#[trigger] gpus[k]) < rem.len() && rem[gpus[k] as int] == GPU_MILLI
    &&& forall|j: int, k: int| 0 <= j < k < gpus.len() ==> gpus[j] < gpus[k]
    &&& forall|i: int|
        0 <= i < rem.len() && rem[i] == GPU_MILLI && n > 0 && i < gpus[n - 1] ==> names_gpu(gpus, i)
}

/// GPU `g` is the tightest fit for a one-GPU task: of the GPUs with the share
/// asked for it has the least left, and is the first such GPU.
pub open spec fn is_tightest(rem: Seq<GPU>, task: PodSpecStruct, g: NUM) -> bool {
    &&& g < rem.len()
    &&& task.gpu_milli <= rem[g as int]
    &&& forall|j: int| 0 <= j < rem.len() && task.gpu_milli <= rem[j] ==> rem[g as int] <= rem[j]
    &&& forall|j: int| 0 <= j < g && task.gpu_milli <= rem[j] ==> rem[g as int] < rem[j]
}

/// `gpus` is what the dot-product and best-fit policies pick on a node: the
/// tightest fit for a one-GPU task, else the first free GPUs.
pub open spec fn is_tight_pick(node: NodeState, task: PodSpecStruct, gpus: Seq<NUM>) -> bool {
    if task.num_gpu == 1 {
        gpus.len() == 1 && is_tightest(node.gpu_rem, task, gpus[0])
    } else {
        is_first_free(node.gpu_rem, gpus, task.num_gpu as nat)
    }
}

/// `gpus` is what the random policy can pick on a node: any one GPU with the
/// share asked for by a one-GPU task, else the first free GPUs.
pub open spec fn is_random_pick(node: NodeState, task: PodSpecStruct, gpus: Seq<NUM>) -> bool {
    if task.num_gpu == 1 {
        gpus.len() == 1 && gpus[0] < node.gpu_rem.len() && task.gpu_milli
            <= node.gpu_rem[gpus[0] as int]
    } else {
        is_first_free(node.gpu_rem, gpus, task.num_gpu as nat)
    }
}

/// What the three policies pick on a node that has room for the task can be bound.
pub proof fn lemma_pick_binds(node: NodeState, task: PodSpecStruct, gpus: Seq<NUM>)
    requires
        node.has_scalar_room(task),
        is_random_pick(node, task, gpus) || is_tight_pick(node, task, gpus),
    ensures
        node.can_bind(task, gpus),
{
}

/// The ids of the first `n` GPUs of the list.
fn first_gpus(listed: &Vec<GpuInfoStruct>, n: usize) -> (gpus: Vec<NUM>)
    requires
        n <= listed@.len(),
    ensures
        gpus@.len() == n,
        forall|k: int| 0 <= k < n ==> gpus@[k] == listed@[k].id,
{
    let mut gpus: Vec<NUM> = Vec::new();
    let mut k: usize = 0;
    while k < n
        invariant
            0 <= k <= n <= listed@.len(),
            gpus@.len() == k,
            forall|j: int| 0 <= j < k ==> gpus@[j] == listed@[j].id,
        decreases n - k,
    {
        gpus.push(listed[k].id);
        k += 1;
    }
    gpus
}

/// The first free GPUs of the node, as many as the task asks for.
fn free_gpus(node: &NodeInfoStruct, task: &PodSpecStruct) -> (gpus: Vec<NUM>)
    requires
        node.wf(),
        task.num_gpu != 1,
        node@.has_gpu_room(*task),
    ensures
        is_first_free(node@.gpu_rem, gpus@, task.num_gpu as nat),
{
    let listed = node.filter_gpus(task);
    let gpus = first_gpus(&listed, task.num_gpu);
    proof {
        let rem = node@.gpu_rem;
        let n = task.num_gpu as int;
        assert forall|k: int| 0 <= k < gpus@.len() implies (#[trigger] gpus@[k]) < rem.len()
            && rem[gpus@[k] as int] == GPU_MILLI by {
            assert(gpu_suits(*task, listed@[k].gpu_milli));
        }
        assert forall|j: int, k: int| 0 <= j < k < gpus@.len() implies gpus@[j] < gpus@[k] by {
            assert(listed@[j].id < listed@[k].id);
        }
        assert forall|i: int|
            0 <= i < rem.len() && rem[i] == GPU_MILLI && n > 0 && i < gpus@[n - 1]
                implies names_gpu(
            gpus@,
            i,
        ) by {
            assert(gpu_suits(*task, rem[i]));
            let k = choose|k: int| 0 <= k < listed@.len() && (#[trigger] listed@[k]).id == i;
            if k >= n {
                assert(listed@[n - 1].id < listed@[k].id);
            }
            assert(gpus@[k] == i);
        }
    }
    gpus
}

/// The GPUs that the dot-product and best-fit policies pick on a node.
fn tight_gpus(node: &NodeInfoStruct, task: &PodSpecStruct) -> (gpus: Vec<NUM>)
    requires
        node.wf(),
        node@.has_gpu_room(*task),
    ensures
        is_tight_pick(node@, *task, gpus@),
{
    if task.single_gpu() {
        let listed = node.filter_gpus(task);
        let score_func = |gpu: GpuInfoStruct| -> (r: (GpuInfoStruct, Score))
            ensures
                r.0 == gpu,
                r.1@ == gpu.gpu_milli,
            { (gpu, Score::new(gpu.gpu_milli as u128)) };
        let ghost rem = node@.gpu_rem;
        proof {
            let i = choose|i: int| 0 <= i < rem.len() && task.gpu_milli <= rem[i];
            assert(gpu_suits(*task, rem[i]));
            let k = choose|k: int| 0 <= k < listed@.len() && (#[trigger] listed@[k]).id == i;
            assert(listed@.len() > 0);
        }
        let best = listed.score_by_min(score_func);
        let g = best.unwrap().id;
        proof {
            let (scored, w) = choose|scored: Seq<(GpuInfoStruct, Score)>, w: int|
                is_scoring(score_func, listed@, scored) && is_first_min(marks(scored), w) && best
                    == Some(scored[w].0);
            assert forall|k: int| 0 <= k < listed@.len() implies marks(scored)[k]
                == listed@[k].gpu_milli && scored[k].0 == listed@[k] by {
                assert(call_ensures(score_func, (listed@[k],), scored[k]));
            }
            assert(gpu_suits(*task, listed@[w].gpu_milli));
            assert forall|j: int| 0 <= j < rem.len() && task.gpu_milli <= rem[j]
                implies rem[g as int]
                <= rem[j] && (j < g ==> rem[g as int] < rem[j]) by {
                assert(gpu_suits(*task, rem[j]));
                let k = choose|k: int| 0 <= k < listed@.len() && (#[trigger] listed@[k]).id == j;
                assert(marks(scored)[w] <= marks(scored)[k]);
                if j < g {
                    if w < k {
                        assert(listed@[w].id < listed@[k].id);
                    }
                    assert(k < w);
                }
            }
        }
        let mut gpus: Vec<NUM> = Vec::new();
        gpus.push(g);
        gpus
    } else {
        free_gpus(node, task)
    }
}

/// The mark that the dot-product policy gives a node: its score, raised by the
/// penalty so that it is never negative. The node with the highest mark is
/// the node with the highest score.
pub fn dot_product_mark(node: &NodeInfoStruct, task: &PodSpecStruct) -> (mark: Score)
    requires
        node.wf(),
    ensures
        mark@ == dot_product_score(node@, *task) + MODEL_PENALTY,
{
    let cpu = Score::product(node.cpu_rem, task.cpu_milli);
    let mem = Score::product(node.mem_rem, task.memory_mib);
    let gpu = Score::product(node.gpu_unallocated, task.gpu_milli);
    let sum = cpu.plus(mem).plus(gpu);
    if task.model.is_empty() && !node.spec.model.is_empty() {
        sum
    } else {
        sum.plus(Score::new(MODEL_PENALTY))
    }
}

/// The mark that the best-fit policy gives a node that can host the task: its score.
pub fn best_fit_mark(node: &NodeInfoStruct, task: &PodSpecStruct) -> (mark: Score)
    requires
        node.wf(),
        task.wf(),
        node@.fits(*task),
    ensures
        mark@ == best_fit_score(node@, *task),
{
    proof {
        node@.lemma_room_in_sum(*task);
    }
    let cpu = (node.cpu_rem - task.cpu_milli) as u128;
    let mem = (node.mem_rem - task.memory_mib) as u128;
    let gpu = (node.gpu_unallocated - task.gpu_milli) as u128;
    Score::new(cpu + mem + gpu)
}

/// Random placement: a node drawn at random from those that can host the
/// task; on it, for a one-GPU task a GPU drawn at random from those with the
/// share asked for, else the first free GPUs. `None` where no node can host
/// the task. Only the random source of the cluster changes.
pub fn random_scheduler(
    cluster: &mut ClusterStruct,
    task: &PodSpecStruct,
) -> (pick: Option<SchedulingPick>)
    requires
        old(cluster).wf(),
    ensures
        final(cluster).wf(),
        final(cluster)@ == old(cluster)@,
        match pick {
            None => none_fits(old(cluster)@, *task),
            Some(p) => p.0 < old(cluster)@.nodes.len()
                && old(cluster)@.nodes[p.0 as int].fits(*task)
                && is_random_pick(old(cluster)@.nodes[p.0 as int], *task, p.1@),
        },
{
    let nodes = cluster.filter_nodes(task);
    let n = match choose_one(&nodes, &mut cluster.rng) {
        None => {
            proof {
                assert forall|n: int| 0 <= n < cluster@.nodes.len()
                    implies !(#[trigger] cluster@.nodes[n]).fits(*task) by {
                    if cluster@.nodes[n].fits(*task) {
                        assert(nodes@.contains(n as NODE));
                    }
                }
            }
            return None;
        },
        Some(n) => *n,
    };
    proof {
        let k = choose|k: int| 0 <= k < nodes@.len() && nodes@[k] == n;
        assert(nodes@[k] < cluster.nodes@.len());
        assert(cluster.nodes@[n as int].wf());
        assert(cluster@.nodes =~= old(cluster)@.nodes);
    }
    let gpus = if task.single_gpu() {
        let listed = cluster.nodes[n].filter_gpus(task);
        let ghost rem = cluster@.nodes[n as int].gpu_rem;
        proof {
            let i = choose|i: int| 0 <= i < rem.len() && task.gpu_milli <= rem[i];
            assert(gpu_suits(*task, rem[i]));
            let k = choose|k: int| 0 <= k < listed@.len() && (#[trigger] listed@[k]).id == i;
            assert(listed@.len() > 0);
        }
        let chosen = match choose_one(&listed, &mut cluster.rng) {
            Some(gpu) => *gpu,
            None => listed[0],
        };
        let g = chosen.id;
        proof {
            let k = choose|k: int| 0 <= k < listed@.len() && listed@[k] == chosen;
            assert(listed@[k].id < rem.len() && gpu_suits(*task, listed@[k].gpu_milli));
        }
        let mut gpus: Vec<NUM> = Vec::new();
        gpus.push(g);
        gpus
    } else {
        free_gpus(&cluster.nodes[n], task)
    };
    Some((n, gpus))
}

/// The dot-product policy: of the nodes that can host the task, the one with
/// the highest dot-product score (of several, the last); on it, the tightest
/// fit for a one-GPU task, else the first free GPUs. `None` where no node can
/// host the task.
pub fn dot_product_scheduler(
    cluster: &ClusterStruct,
    task: &PodSpecStruct,
) -> (pick: Option<SchedulingPick>)
    requires
        cluster.wf(),
    ensures
        match pick {
            None => none_fits(cluster@, *task),
            Some(p) => is_dot_product_node(cluster@, *task, p.0) && is_tight_pick(
                cluster@.nodes[p.0 as int],
                *task,
                p.1@,
            ),
        },
{
    let nodes = cluster.filter_nodes(task);
    let score_func = |n: NODE| -> (r: (NODE, Score))
        requires
            n < cluster.nodes@.len(),
        ensures
            r.0 == n,
            r.1@ == dot_product_score(cluster@.nodes[n as int], *task) + MODEL_PENALTY,
        {
            assert(cluster.nodes@[n as int].wf());
            (n, dot_product_mark(&cluster.nodes[n], task))
        };
    let ghost ids = nodes@;
    let best = nodes.score_by_max(score_func);
    let n = match best {
        None => {
            proof {
                assert forall|n: int| 0 <= n < cluster@.nodes.len()
                    implies !(#[trigger] cluster@.nodes[n]).fits(*task) by {
                    if cluster@.nodes[n].fits(*task) {
                        assert(ids.contains(n as NODE));
                    }
                }
            }
            return None;
        },
        Some(n) => n,
    };
    proof {
        let (scored, w) = choose|scored: Seq<(NODE, Score)>, w: int|
            is_scoring(score_func, ids, scored) && is_last_max(marks(scored), w) && best == Some(
                scored[w].0,
            );
        assert forall|k: int| 0 <= k < ids.len() implies scored[k].0 == ids[k] && marks(scored)[k]
            == dot_product_score(cluster@.nodes[ids[k] as int], *task) + MODEL_PENALTY by {
            assert(call_ensures(score_func, (ids[k],), scored[k]));
        }
        assert(ids[w] < cluster.nodes@.len());
        assert forall|j: int|
            0 <= j < cluster@.nodes.len() && (#[trigger] cluster@.nodes[j]).fits(
                *task,
            ) implies dot_product_score(cluster@.nodes[j], *task) <= dot_product_score(
            cluster@.nodes[n as int],
            *task,
        ) && (n < j ==> dot_product_score(cluster@.nodes[j], *task) < dot_product_score(
            cluster@.nodes[n as int],
            *task,
        )) by {
            assert(ids.contains(j as NODE));
            let k = choose|k: int| 0 <= k < ids.len() && ids[k] == j as NODE;
            assert(marks(scored)[k] <= marks(scored)[w]);
            if n < j {
                if k < w {
                    assert(ids[k] < ids[w]);
                }
                assert(w < k);
            }
        }
        assert(cluster.nodes@[n as int].wf());
    }
    let gpus = tight_gpus(&cluster.nodes[n], task);
    Some((n, gpus))
}

/// The best-fit policy: of the nodes that can host the task, the one on which
/// the least would be left (of several, the first); on it, the tightest fit
/// for a one-GPU task, else the first free GPUs. `None` where no node can host
/// the task.
pub fn best_fit_scheduler(
    cluster: &ClusterStruct,
    task: &PodSpecStruct,
) -> (pick: Option<SchedulingPick>)
    requires
        cluster.wf(),
        task.wf(),
    ensures
        match pick {
            None => none_fits(cluster@, *task),
            Some(p) => is_best_fit_node(cluster@, *task, p.0) && is_tight_pick(
                cluster@.nodes[p.0 as int],
                *task,
                p.1@,
            ),
        },
{
    let nodes = cluster.filter_nodes(task);
    let score_func = |n: NODE| -> (r: (NODE, Score))
        requires
            n < cluster.nodes@.len(),
            cluster@.nodes[n as int].fits(*task),
        ensures
            r.0 == n,
            r.1@ == best_fit_score(cluster@.nodes[n as int], *task),
        {
            assert(cluster.nodes@[n as int].wf());
            (n, best_fit_mark(&cluster.nodes[n], task))
        };
    let ghost ids = nodes@;
    let best = nodes.score_by_min(score_func);
    let n = match best {
        None => {
            proof {
                assert forall|n: int| 0 <= n < cluster@.nodes.len()
                    implies !(#[trigger] cluster@.nodes[n]).fits(*task) by {
                    if cluster@.nodes[n].fits(*task) {
                        assert(ids.contains(n as NODE));
                    }
                }
            }
            return None;
        },
        Some(n) => n,
    };
    proof {
        let (scored, w) = choose|scored: Seq<(NODE, Score)>, w: int|
            is_scoring(score_func, ids, scored) && is_first_min(marks(scored), w) && best == Some(
                scored[w].0,
            );
        assert forall|k: int| 0 <= k < ids.len() implies scored[k].0 == ids[k] && marks(scored)[k]
            == best_fit_score(cluster@.nodes[ids[k] as int], *task) by {
            assert(call_ensures(score_func, (ids[k],), scored[k]));
        }
        assert(ids[w] < cluster.nodes@.len());
        assert forall|j: int|
            0 <= j < cluster@.nodes.len() && (#[trigger] cluster@.nodes[j]).fits(
                *task,
            ) implies best_fit_score(cluster@.nodes[n as int], *task) <= best_fit_score(
            cluster@.nodes[j],
            *task,
        ) && (j < n ==> best_fit_score(cluster@.nodes[n as int], *task) < best_fit_score(
            cluster@.nodes[j],
            *task,
        )) by {
            assert(ids.contains(j as NODE));
            let k = choose|k: int| 0 <= k < ids.len() && ids[k] == j as NODE;
            assert(marks(scored)[w] <= marks(scored)[k]);
            if j < n {
                if w < k {
                    assert(ids[w] < ids[k]);
                }
                assert(k < w);
            }
        }
        assert(cluster.nodes@[n as int].wf());
    }
    let gpus = tight_gpus(&cluster.nodes[n], task);
    Some((n, gpus))
}

/// Random placement as a scheduling policy.
#[derive(Clone, Copy, Debug)]
pub struct RandomScheduler;

/// The dot-product policy as a scheduling policy.
#[derive(Clone, Copy, Debug)]
pub struct DotProductScheduler;

/// The best-fit policy as a scheduling policy.
#[derive(Clone, Copy, Debug)]
pub struct BestFitScheduler;

impl Scheduler for RandomScheduler {
    /// What `random_scheduler` picks.
    fn schedule(
        &self,
        cluster: &mut ClusterStruct,
        workload: &WorkloadStruct,
        task: &PodSpecStruct,
    ) -> (pick: Option<SchedulingPick>)
        ensures
            match pick {
                None => none_fits(old(cluster)@, *task),
                Some(p) => is_random_pick(old(cluster)@.nodes[p.0 as int], *task, p.1@),
            },
    {
        let pick = random_scheduler(cluster, task);
        proof {
            if pick is Some {
                lemma_pick_binds(
                    old(cluster)@.nodes[pick.unwrap().0 as int],
                    *task,
                    pick.unwrap().1@,
                );
            }
        }
        pick
    }
}

impl Scheduler for DotProductScheduler {
    /// What `dot_product_scheduler` picks.
    fn schedule(
        &self,
        cluster: &mut ClusterStruct,
        workload: &WorkloadStruct,
        task: &PodSpecStruct,
    ) -> (pick: Option<SchedulingPick>)
        ensures
            match pick {
                None => none_fits(old(cluster)@, *task),
                Some(p) => is_dot_product_node(old(cluster)@, *task, p.0) && is_tight_pick(
                    old(cluster)@.nodes[p.0 as int],
                    *task,
                    p.1@,
                ),
            },
    {
        let pick = dot_product_scheduler(cluster, task);
        proof {
            if pick is Some {
                lemma_pick_binds(cluster@.nodes[pick.unwrap().0 as int], *task, pick.unwrap().1@);
            }
        }
        pick
    }
}

impl Scheduler for BestFitScheduler {
    /// What `best_fit_scheduler` picks.
    fn schedule(
        &self,
        cluster: &mut ClusterStruct,
        workload: &WorkloadStruct,
        task: &PodSpecStruct,
    ) -> (pick: Option<SchedulingPick>)
        ensures
            match pick {
                None => none_fits(old(cluster)@, *task),
                Some(p) => is_best_fit_node(old(cluster)@, *task, p.0) && is_tight_pick(
                    old(cluster)@.nodes[p.0 as int],
                    *task,
                    p.1@,
                ),
            },
    {
        let pick = best_fit_scheduler(cluster, task);
        proof {
            if pick is Some {
                lemma_pick_binds(cluster@.nodes[pick.unwrap().0 as int], *task, pick.unwrap().1@);
            }
        }
        pick
    }
}

} // verus!
