//! The state of one node: what is left of its CPU, its memory and each of its GPUs.

use crate::gpu_spec::GpuModel;
use crate::types::{
    CPU, GPU, GPU_MILLI, GpuInfoStruct, MEM, NODE, NUM, NodeSpecStruct, PodSpecStruct,
};
use vstd::prelude::*;

verus! {

/// What is left of all GPUs of a row together.
pub open spec fn gpu_sum(rem: Seq<GPU>) -> int
    decreases rem.len(),
{
    if rem.len() == 0 {
        0
    } else {
        gpu_sum(rem.drop_last()) + rem.last()
    }
}

/// How many GPUs of a row have between `lo` and `hi` left, bounds included.
pub open spec fn count_between(rem: Seq<GPU>, lo: int, hi: int) -> int
    decreases rem.len(),
{
    if rem.len() == 0 {
        0
    } else {
        count_between(rem.drop_last(), lo, hi) + if lo <= rem.last() <= hi {
            1int
        } else {
            0int
        }
    }
}

/// How many GPUs of a row are wholly free.
pub open spec fn count_full(rem: Seq<GPU>) -> int {
    count_between(rem, GPU_MILLI as int, GPU_MILLI as int)
}

/// The most that is left on a GPU of the row that is in use; 0 where none is in use.
pub open spec fn max_partial(rem: Seq<GPU>) -> int
    decreases rem.len(),
{
    if rem.len() == 0 {
        0
    } else {
        let before = max_partial(rem.drop_last());
        if rem.last() < GPU_MILLI && rem.last() > before {
            rem.last() as int
        } else {
            before
        }
    }
}

/// A row of `n` GPUs that are all free.
pub open spec fn all_free(n: nat) -> Seq<GPU> {
    Seq::new(n, |i: int| GPU_MILLI)
}

/// Whether a GPU with `left` thousandths left can take part in hosting `task`:
/// it has the share that a one-GPU task asks for, or is wholly free for a task
/// that asks for whole GPUs.
pub open spec fn gpu_suits(task: PodSpecStruct, left: GPU) -> bool {
    if task.num_gpu == 1 {
        task.gpu_milli <= left
    } else {
        left == GPU_MILLI
    }
}

/// Whether `gpus` names the GPU with index `i`.
pub open spec fn names_gpu(gpus: Seq<NUM>, i: int) -> bool {
    exists|k: int| 0 <= k < gpus.len() && gpus[k] == i
}

/// The row with nothing left on the GPUs that `gpus` names.
pub open spec fn used_up(rem: Seq<GPU>, gpus: Seq<NUM>) -> Seq<GPU> {
    Seq::new(
        rem.len(),
        |i: int|
            if names_gpu(gpus, i) {
                0
            } else {
                rem[i]
            },
    )
}

/// The GPUs of a row after `task` was bound to the GPUs `gpus`: a one-GPU task
/// takes its share from the one GPU named, any other task takes all of each GPU named.
pub open spec fn bound_gpus(rem: Seq<GPU>, task: PodSpecStruct, gpus: Seq<NUM>) -> Seq<GPU> {
    if task.num_gpu == 1 {
        rem.update(gpus[0] as int, (rem[gpus[0] as int] - task.gpu_milli) as GPU)
    } else {
        used_up(rem, gpus)
    }
}

/// A count is between nothing and the length of the row.
pub proof fn lemma_count_bounds(rem: Seq<GPU>, lo: int, hi: int)
    ensures
        0 <= count_between(rem, lo, hi) <= rem.len(),
    decreases rem.len(),
{
    if rem.len() > 0 {
        lemma_count_bounds(rem.drop_last(), lo, hi);
    }
}

/// Every GPU of a valid row is wholly free, partly used or used up: the three
/// counts add up to the length of the row.
pub proof fn lemma_gpu_partition(rem: Seq<GPU>)
    requires
        forall|i: int| 0 <= i < rem.len() ==> rem[i] <= GPU_MILLI,
    ensures
        count_full(rem) + count_between(rem, 1, GPU_MILLI - 1) + count_between(rem, 0, 0)
            == rem.len(),
    decreases rem.len(),
{
    if rem.len() > 0 {
        lemma_gpu_partition(rem.drop_last());
    }
}

/// A GPU is wholly free exactly where the count of free GPUs says so: the count
/// is positive exactly if some entry is 1000.
pub proof fn lemma_count_full_positive(rem: Seq<GPU>)
    ensures
        count_full(rem) > 0 <==> exists|i: int| 0 <= i < rem.len() && rem[i] == GPU_MILLI,
    decreases rem.len(),
{
    if rem.len() > 0 {
        let init = rem.drop_last();
        lemma_count_full_positive(init);
        lemma_count_bounds(init, GPU_MILLI as int, GPU_MILLI as int);
        if count_full(rem) > 0 {
            if rem.last() == GPU_MILLI {
                assert(rem[rem.len() - 1] == GPU_MILLI);
            } else {
                let i = choose|i: int| 0 <= i < init.len() && init[i] == GPU_MILLI;
                assert(rem[i] == GPU_MILLI);
            }
        }
        if exists|i: int| 0 <= i < rem.len() && rem[i] == GPU_MILLI {
            let i = choose|i: int| 0 <= i < rem.len() && rem[i] == GPU_MILLI;
            if i < init.len() {
                assert(init[i] == GPU_MILLI);
            }
        }
    }
}

/// `max_partial` is what its name says: no GPU in use has more left, and where
/// it is not 0 some GPU in use has exactly that much left.
pub proof fn lemma_max_partial(rem: Seq<GPU>)
    ensures
        0 <= max_partial(rem) < GPU_MILLI,
        forall|i: int| 0 <= i < rem.len() && rem[i] < GPU_MILLI ==> rem[i] <= max_partial(rem),
        max_partial(rem) > 0 ==> exists|i: int| 0 <= i < rem.len() && rem[i] == max_partial(rem),
    decreases rem.len(),
{
    if rem.len() > 0 {
        let init = rem.drop_last();
        lemma_max_partial(init);
        assert forall|i: int| 0 <= i < rem.len() && rem[i] < GPU_MILLI implies rem[i]
            <= max_partial(rem) by {
            if i < init.len() {
                assert(init[i] == rem[i]);
            }
        }
        if max_partial(rem) > 0 {
            if max_partial(rem) == max_partial(init) {
                let i = choose|i: int| 0 <= i < init.len() && init[i] == max_partial(init);
                assert(rem[i] == max_partial(rem));
            } else {
                assert(rem[rem.len() - 1] == max_partial(rem));
            }
        }
    }
}

/// A row with fewer free GPUs than GPUs has a GPU that is not free.
proof fn lemma_some_not_full(rem: Seq<GPU>)
    requires
        count_full(rem) < rem.len(),
    ensures
        exists|i: int| 0 <= i < rem.len() && rem[i] != GPU_MILLI,
    decreases rem.len(),
{
    if rem.len() > 0 {
        let init = rem.drop_last();
        if rem.last() != GPU_MILLI {
            assert(rem[rem.len() - 1] != GPU_MILLI);
        } else {
            lemma_some_not_full(init);
            let i = choose|i: int| 0 <= i < init.len() && init[i] != GPU_MILLI;
            assert(rem[i] != GPU_MILLI);
        }
    }
}

/// A row with a GPU that is not free has fewer free GPUs than GPUs.
proof fn lemma_full_below_len(rem: Seq<GPU>, i: int)
    requires
        0 <= i < rem.len(),
        rem[i] != GPU_MILLI,
    ensures
        count_full(rem) < rem.len(),
    decreases rem.len(),
{
    let init = rem.drop_last();
    lemma_count_bounds(init, GPU_MILLI as int, GPU_MILLI as int);
    if i < init.len() {
        assert(init[i] == rem[i]);
        lemma_full_below_len(init, i);
    }
}

/// A row has a GPU with at least `share` left exactly where `share` is no
/// more than one GPU and some GPU is free, or some GPU is in use and `share`
/// is no more than the most that is left on a GPU in use.
pub proof fn lemma_room_for_share(rem: Seq<GPU>, share: GPU)
    requires
        forall|i: int| 0 <= i < rem.len() ==> rem[i] <= GPU_MILLI,
    ensures
        (exists|i: int| 0 <= i < rem.len() && share <= rem[i]) <==> ((count_full(rem) > 0 && share
            <= GPU_MILLI) || (count_full(rem) < rem.len() && share <= max_partial(rem))),
{
    lemma_max_partial(rem);
    lemma_count_full_positive(rem);
    lemma_count_bounds(rem, GPU_MILLI as int, GPU_MILLI as int);
    if count_full(rem) < rem.len() && share <= max_partial(rem) {
        if max_partial(rem) > 0 {
            let i = choose|i: int| 0 <= i < rem.len() && rem[i] == max_partial(rem);
            assert(share <= rem[i]);
        } else {
            lemma_some_not_full(rem);
            let i = choose|i: int| 0 <= i < rem.len() && rem[i] != GPU_MILLI;
            assert(share <= rem[i]);
        }
    }
    if count_full(rem) > 0 && share <= GPU_MILLI {
        let i = choose|i: int| 0 <= i < rem.len() && rem[i] == GPU_MILLI;
        assert(share <= rem[i]);
    }
    if exists|i: int| 0 <= i < rem.len() && share <= rem[i] {
        let i = choose|i: int| 0 <= i < rem.len() && share <= rem[i];
        if rem[i] != GPU_MILLI {
            lemma_full_below_len(rem, i);
        }
    }
}

/// Where one GPU changes, what is left in all changes by as much.
pub proof fn lemma_sum_update(rem: Seq<GPU>, i: int, v: GPU)
    requires
        0 <= i < rem.len(),
    ensures
        gpu_sum(rem.update(i, v)) == gpu_sum(rem) - rem[i] + v,
    decreases rem.len(),
{
    let after = rem.update(i, v);
    if i == rem.len() - 1 {
        assert(after.drop_last() =~= rem.drop_last());
    } else {
        assert(after.drop_last() =~= rem.drop_last().update(i, v));
        lemma_sum_update(rem.drop_last(), i, v);
    }
}

/// Using up one more GPU of a row changes that one entry.
pub proof fn lemma_used_up_step(rem: Seq<GPU>, gpus: Seq<NUM>)
    requires
        gpus.len() > 0,
        gpus.last() < rem.len(),
    ensures
        used_up(rem, gpus) == used_up(rem, gpus.drop_last()).update(gpus.last() as int, 0),
{
    let init = gpus.drop_last();
    let whole = used_up(rem, gpus);
    let stepped = used_up(rem, init).update(gpus.last() as int, 0);
    assert forall|i: int| 0 <= i < rem.len() implies whole[i] == stepped[i] by {
        if i == gpus.last() {
            assert(gpus[gpus.len() - 1] == i);
        } else {
            if names_gpu(gpus, i) {
                let k = choose|k: int| 0 <= k < gpus.len() && gpus[k] == i;
                assert(init[k] == i);
            }
            if names_gpu(init, i) {
                let k = choose|k: int| 0 <= k < init.len() && init[k] == i;
                assert(gpus[k] == i);
            }
        }
    }
    assert(whole =~= stepped);
}

/// Using up distinct free GPUs takes one whole GPU for each from what is left.
pub proof fn lemma_used_up_sum(rem: Seq<GPU>, gpus: Seq<NUM>)
    requires
        gpus.no_duplicates(),
        forall|k: int|
            0 <= k < gpus.len() ==> (#[trigger] gpus[k]) < rem.len() && rem[gpus[k] as int]
                == GPU_MILLI,
    ensures
        gpu_sum(used_up(rem, gpus)) == gpu_sum(rem) - gpus.len() * GPU_MILLI,
    decreases gpus.len(),
{
    if gpus.len() == 0 {
        assert(used_up(rem, gpus) =~= rem);
    } else {
        let init = gpus.drop_last();
        let g = gpus.last();
        assert(gpus[gpus.len() - 1] < rem.len());
        assert forall|k: int| 0 <= k < init.len() implies (#[trigger] init[k]) < rem.len()
            && rem[init[k] as int] == GPU_MILLI by {
            assert(init[k] == gpus[k]);
        }
        lemma_used_up_sum(rem, init);
        lemma_used_up_step(rem, gpus);
        if names_gpu(init, g as int) {
            let k = choose|k: int| 0 <= k < init.len() && init[k] == g as int;
            assert(gpus[k] == gpus[gpus.len() - 1]);
        }
        assert(used_up(rem, init)[g as int] == GPU_MILLI);
        lemma_sum_update(used_up(rem, init), g as int, 0);
    }
}

/// On the first GPUs of a row no more is left than on all of them.
pub proof fn lemma_sum_take(rem: Seq<GPU>, i: int)
    requires
        0 <= i <= rem.len(),
    ensures
        0 <= gpu_sum(rem.take(i)) <= gpu_sum(rem),
    decreases rem.len() - i,
{
    if i == rem.len() {
        assert(rem.take(i) =~= rem);
        lemma_sum_nonnegative(rem);
    } else {
        lemma_sum_take(rem, i + 1);
        assert(rem.take(i + 1).drop_last() =~= rem.take(i));
        lemma_sum_nonnegative(rem.take(i));
    }
}

/// What is left of a row is not negative.
pub proof fn lemma_sum_nonnegative(rem: Seq<GPU>)
    ensures
        0 <= gpu_sum(rem),
    decreases rem.len(),
{
    if rem.len() > 0 {
        lemma_sum_nonnegative(rem.drop_last());
    }
}

/// What is left of a row in all is at least what is left of any one GPU.
pub proof fn lemma_sum_at_least(rem: Seq<GPU>, i: int)
    requires
        0 <= i < rem.len(),
    ensures
        rem[i] <= gpu_sum(rem),
    decreases rem.len(),
{
    lemma_sum_nonnegative(rem.drop_last());
    if i < rem.len() - 1 {
        lemma_sum_at_least(rem.drop_last(), i);
    }
}

/// What is left of a row in all is at least one whole GPU for each free GPU.
pub proof fn lemma_sum_counts_full(rem: Seq<GPU>)
    ensures
        count_full(rem) * GPU_MILLI <= gpu_sum(rem),
    decreases rem.len(),
{
    if rem.len() > 0 {
        lemma_sum_counts_full(rem.drop_last());
    }
}

/// A row of free GPUs: all of its capacity is left, every GPU counts as free,
/// none as in use.
pub proof fn lemma_all_free(n: nat)
    ensures
        gpu_sum(all_free(n)) == n * GPU_MILLI,
        count_full(all_free(n)) == n,
        max_partial(all_free(n)) == 0,
    decreases n,
{
    if n > 0 {
        lemma_all_free((n - 1) as nat);
        assert(all_free(n).drop_last() =~= all_free((n - 1) as nat));
    }
}

/// The three numbers that a node keeps beside its row of GPUs, counted anew:
/// the free GPUs, the most left on a GPU in use, and what is left in all.
pub fn recount(rem: &Vec<GPU>) -> (r: (NUM, GPU, GPU))
    requires
        gpu_sum(rem@) <= u64::MAX,
    ensures
        r.0 == count_full(rem@),
        r.1 == max_partial(rem@),
        r.2 == gpu_sum(rem@),
{
    let mut full: NUM = 0;
    let mut part: GPU = 0;
    let mut sum: GPU = 0;
    let mut i: usize = 0;
    while i < rem.len()
        invariant
            0 <= i <= rem@.len(),
            gpu_sum(rem@) <= u64::MAX,
            full == count_full(rem@.take(i as int)),
            full <= i,
            part == max_partial(rem@.take(i as int)),
            sum == gpu_sum(rem@.take(i as int)),
        decreases rem@.len() - i,
    {
        let left = rem[i];
        proof {
            assert(rem@.take(i + 1).drop_last() =~= rem@.take(i as int));
            lemma_sum_take(rem@, i + 1);
        }
        if left == GPU_MILLI {
            full += 1;
        } else if left < GPU_MILLI && left > part {
            part = left;
        }
        sum += left;
        i += 1;
    }
    proof {
        assert(rem@.take(i as int) =~= rem@);
    }
    (full, part, sum)
}

/// One bind: a task, the node that it goes to, and the GPUs of that node.
pub struct Binding {
    pub task: PodSpecStruct,
    pub node: NODE,
    pub gpus: Seq<NUM>,
}

/// The CPU that the tasks of these binds ask for together.
pub open spec fn cpu_asked(binds: Seq<Binding>) -> int
    decreases binds.len(),
{
    if binds.len() == 0 {
        0
    } else {
        binds[0].task.cpu_milli + cpu_asked(binds.skip(1))
    }
}

/// The memory that the tasks of these binds ask for together.
pub open spec fn mem_asked(binds: Seq<Binding>) -> int
    decreases binds.len(),
{
    if binds.len() == 0 {
        0
    } else {
        binds[0].task.memory_mib + mem_asked(binds.skip(1))
    }
}

/// The GPU capacity that the tasks of these binds ask for together.
pub open spec fn gpu_asked(binds: Seq<Binding>) -> int
    decreases binds.len(),
{
    if binds.len() == 0 {
        0
    } else {
        binds[0].task.gpu_milli + gpu_asked(binds.skip(1))
    }
}

/// What a node holds, as plain values: its spec and what is left of its CPU,
/// its memory and each of its GPUs.
pub struct NodeState {
    pub spec: NodeSpecStruct,
    pub cpu_rem: CPU,
    pub mem_rem: MEM,
    pub gpu_rem: Seq<GPU>,
}

impl NodeState {
    /// The state is one that a node can be in: it has one entry for each GPU,
    /// no GPU has more than one GPU left, and nothing has more left than the
    /// node has.
    pub open spec fn valid(self) -> bool {
        &&& self.spec.wf()
        &&& self.gpu_rem.len() == self.spec.num_gpu
        &&& forall|i: int| 0 <= i < self.gpu_rem.len() ==> self.gpu_rem[i] <= GPU_MILLI
        &&& self.cpu_rem <= self.spec.cpu_milli
        &&& self.mem_rem <= self.spec.memory_mib
    }

    /// The node with this spec when nothing runs on it.
    pub open spec fn fresh(spec: NodeSpecStruct) -> NodeState {
        NodeState {
            spec,
            cpu_rem: spec.cpu_milli,
            mem_rem: spec.memory_mib,
            gpu_rem: all_free(spec.num_gpu as nat),
        }
    }

    /// What is left of all GPUs of the node together.
    pub open spec fn unallocated(self) -> int {
        gpu_sum(self.gpu_rem)
    }

    /// The node has the CPU and the memory that the task asks for.
    pub open spec fn has_scalar_room(self, task: PodSpecStruct) -> bool {
        task.cpu_milli <= self.cpu_rem && task.memory_mib <= self.mem_rem
    }

    /// The node has the GPUs that the task asks for: one GPU with the share
    /// asked for, or as many wholly free GPUs as asked for.
    pub open spec fn has_gpu_room(self, task: PodSpecStruct) -> bool {
        if task.num_gpu == 1 {
            exists|i: int| 0 <= i < self.gpu_rem.len() && task.gpu_milli <= self.gpu_rem[i]
        } else {
            task.num_gpu <= count_full(self.gpu_rem)
        }
    }

    /// The task names no model, or one that the node has.
    pub open spec fn model_matches(self, task: PodSpecStruct) -> bool {
        task.model@ == Set::<GpuModel>::empty() || task.model.spec_intersects(self.spec.model)
    }

    /// The node can host the task: CPU and memory, GPUs, and model.
    pub open spec fn fits(self, task: PodSpecStruct) -> bool {
        self.has_scalar_room(task) && self.has_gpu_room(task) && self.model_matches(task)
    }

    /// The task can be bound to the GPUs `gpus` of this node: the node has the
    /// CPU and memory, `gpus` names as many GPUs as the task asks for, all on
    /// this node and no one twice, and each has what the task takes from it:
    /// the share asked for from the one GPU of a one-GPU task, else all of it.
    pub open spec fn can_bind(self, task: PodSpecStruct, gpus: Seq<NUM>) -> bool {
        &&& self.has_scalar_room(task)
        &&& gpus.len() == task.num_gpu
        &&& gpus.no_duplicates()
        &&& forall|k: int|
            0 <= k < gpus.len() ==> (#[trigger] gpus[k]) < self.gpu_rem.len() && gpu_suits(
                task,
                self.gpu_rem[gpus[k] as int],
            )
    }

    /// The node after the task was bound to the GPUs `gpus`.
    pub open spec fn bind(self, task: PodSpecStruct, gpus: Seq<NUM>) -> NodeState {
        NodeState {
            spec: self.spec,
            cpu_rem: (self.cpu_rem - task.cpu_milli) as CPU,
            mem_rem: (self.mem_rem - task.memory_mib) as MEM,
            gpu_rem: bound_gpus(self.gpu_rem, task, gpus),
        }
    }

    /// Each of the binds goes to this node and can be made in turn, starting
    /// from this state.
    pub open spec fn can_bind_all(self, binds: Seq<Binding>) -> bool
        decreases binds.len(),
    {
        binds.len() > 0 ==> {
            let first = binds[0];
            &&& first.node == self.spec.id
            &&& first.task.wf()
            &&& self.can_bind(first.task, first.gpus)
            &&& self.bind(first.task, first.gpus).can_bind_all(binds.skip(1))
        }
    }

    /// The node after the binds were made in turn.
    pub open spec fn bind_all(self, binds: Seq<Binding>) -> NodeState
        decreases binds.len(),
    {
        if binds.len() == 0 {
            self
        } else {
            self.bind(binds[0].task, binds[0].gpus).bind_all(binds.skip(1))
        }
    }

    /// After any number of binds that were allowed, every GPU of the node has
    /// between nothing and one GPU left, and what is left of CPU, memory and
    /// GPU is what was left before less what the tasks asked for: nothing
    /// went below zero.
    pub proof fn lemma_bind_all(self, binds: Seq<Binding>)
        requires
            self.valid(),
            self.can_bind_all(binds),
        ensures
            self.bind_all(binds).valid(),
            self.bind_all(binds).spec == self.spec,
            forall|i: int|
                0 <= i < self.bind_all(binds).gpu_rem.len() ==> 0 <= #[trigger] self.bind_all(
                    binds,
                ).gpu_rem[i] <= GPU_MILLI,
            self.bind_all(binds).cpu_rem == self.cpu_rem - cpu_asked(binds),
            self.bind_all(binds).mem_rem == self.mem_rem - mem_asked(binds),
            self.bind_all(binds).unallocated() == self.unallocated() - gpu_asked(binds),
        decreases binds.len(),
    {
        if binds.len() > 0 {
            let first = binds[0];
            self.lemma_bind(first.task, first.gpus);
            self.bind(first.task, first.gpus).lemma_bind_all(binds.skip(1));
        }
    }

    /// A node with the GPUs that a task asks for has at least that much GPU
    /// capacity left in all.
    pub proof fn lemma_room_in_sum(self, task: PodSpecStruct)
        requires
            task.wf(),
            self.has_gpu_room(task),
        ensures
            task.gpu_milli <= self.unallocated(),
    {
        if task.num_gpu == 1 {
            let i = choose|i: int| 0 <= i < self.gpu_rem.len() && task.gpu_milli <= self.gpu_rem[i];
            lemma_sum_at_least(self.gpu_rem, i);
        } else {
            lemma_sum_counts_full(self.gpu_rem);
            assert(task.num_gpu * GPU_MILLI <= count_full(self.gpu_rem) * GPU_MILLI);
        }
    }

    /// A bind that was allowed leaves a state that a node can be in, and takes
    /// from the GPUs exactly what the task asks for.
    pub proof fn lemma_bind(self, task: PodSpecStruct, gpus: Seq<NUM>)
        requires
            self.valid(),
            task.wf(),
            self.can_bind(task, gpus),
        ensures
            self.bind(task, gpus).valid(),
            self.bind(task, gpus).cpu_rem == self.cpu_rem - task.cpu_milli,
            self.bind(task, gpus).mem_rem == self.mem_rem - task.memory_mib,
            self.bind(task, gpus).unallocated() == self.unallocated() - task.gpu_milli,
    {
        let rem = self.gpu_rem;
        if task.num_gpu == 1 {
            assert(gpus[0] < rem.len() && gpu_suits(task, rem[gpus[0] as int]));
            lemma_sum_update(rem, gpus[0] as int, (rem[gpus[0] as int] - task.gpu_milli) as GPU);
        } else {
            assert forall|k: int| 0 <= k < gpus.len() implies (#[trigger] gpus[k]) < rem.len()
                && rem[gpus[k] as int] == GPU_MILLI by {
                assert(gpu_suits(task, rem[gpus[k] as int]));
            }
            lemma_used_up_sum(rem, gpus);
        }
    }
}

/// A node in the middle of a round.
#[derive(Debug)]
pub struct NodeInfoStruct {
    pub spec: NodeSpecStruct,
    pub cpu_rem: CPU,
    pub mem_rem: MEM,
    /// What is left of each GPU, in thousandths, by GPU index.
    pub gpu_rem: Vec<GPU>,
    /// The number of GPUs that are wholly free.
    pub gpu_full: NUM,
    /// The most that is left on a GPU in use; 0 where none is in use.
    pub gpu_part: GPU,
    /// What is left of all GPUs together.
    pub gpu_unallocated: GPU,
    /// Fragmentation is not measured: this stays 0.
    pub gpu_frag: GPU,
}

impl View for NodeInfoStruct {
    type V = NodeState;

    open spec fn view(&self) -> NodeState {
        NodeState {
            spec: self.spec,
            cpu_rem: self.cpu_rem,
            mem_rem: self.mem_rem,
            gpu_rem: self.gpu_rem@,
        }
    }
}

impl NodeInfoStruct {
    /// The node is valid: its state is one that a node can be in, and the
    /// numbers kept beside the row of GPUs say what the row holds.
    pub open spec fn wf(&self) -> bool {
        &&& self@.valid()
        &&& self.gpu_full == count_full(self.gpu_rem@)
        &&& self.gpu_part == max_partial(self.gpu_rem@)
        &&& self.gpu_unallocated == gpu_sum(self.gpu_rem@)
        &&& self.gpu_frag == 0
    }

    /// The node with spec `spec` when nothing runs on it.
    pub fn new(spec: NodeSpecStruct) -> (node: NodeInfoStruct)
        requires
            spec.wf(),
        ensures
            node.wf(),
            node@ == NodeState::fresh(spec),
            node.gpu_full == spec.num_gpu,
            node.gpu_part == 0,
            node.gpu_unallocated == spec.gpu_milli,
    {
        let mut gpu_rem: Vec<GPU> = Vec::new();
        let mut i: usize = 0;
        while i < spec.num_gpu
            invariant
                0 <= i <= spec.num_gpu,
                gpu_rem@ == all_free(i as nat),
            decreases spec.num_gpu - i,
        {
            gpu_rem.push(GPU_MILLI);
            i += 1;
            assert(gpu_rem@ =~= all_free(i as nat));
        }
        proof {
            lemma_all_free(spec.num_gpu as nat);
        }
        NodeInfoStruct {
            spec,
            cpu_rem: spec.cpu_milli,
            mem_rem: spec.memory_mib,
            gpu_rem,
            gpu_full: spec.num_gpu,
            gpu_part: 0,
            gpu_unallocated: spec.gpu_milli,
            gpu_frag: 0,
        }
    }

    /// Whether the node can host the task.
    pub fn fits(&self, task: &PodSpecStruct) -> (r: bool)
        requires
            self.wf(),
        ensures
            r == self@.fits(*task),
    {
        let scalar_resources = task.cpu_milli <= self.cpu_rem && task.memory_mib <= self.mem_rem;
        let gpu_resources = if task.num_gpu == 1 {
            proof {
                lemma_room_for_share(self.gpu_rem@, task.gpu_milli);
            }
            (self.gpu_full > 0 && task.gpu_milli <= GPU_MILLI) || (self.gpu_full
                < self.gpu_rem.len() && task.gpu_milli <= self.gpu_part)
        } else {
            task.num_gpu <= self.gpu_full
        };
        let model_match = task.model.is_empty() || task.model.intersects(self.spec.model);
        scalar_resources && gpu_resources && model_match
    }

    /// The GPUs of the node that can take part in hosting the task, in the
    /// order of their indices, each with what is left of it.
    pub fn filter_gpus(&self, task: &PodSpecStruct) -> (r: Vec<GpuInfoStruct>)
        ensures
            forall|k: int|
                0 <= k < r@.len() ==> (#[trigger] r@[k]).id < self.gpu_rem@.len() && r@[k].gpu_milli
                    == self.gpu_rem@[r@[k].id as int] && gpu_suits(*task, r@[k].gpu_milli),
            forall|j: int, k: int| 0 <= j < k < r@.len() ==> r@[j].id < r@[k].id,
            forall|i: int|
                0 <= i < self.gpu_rem@.len() && gpu_suits(*task, self.gpu_rem@[i]) ==> exists|
                    k: int,
                |
                    0 <= k < r@.len() && (#[trigger] r@[k]).id == i,
            task.num_gpu != 1 ==> r@.len() == count_full(self.gpu_rem@),
    {
        let mut r: Vec<GpuInfoStruct> = Vec::new();
        let mut i: usize = 0;
        while i < self.gpu_rem.len()
            invariant
                0 <= i <= self.gpu_rem@.len(),
                forall|k: int|
                    0 <= k < r@.len() ==> (#[trigger] r@[k]).id < i && r@[k].gpu_milli
                        == self.gpu_rem@[r@[k].id as int] && gpu_suits(*task, r@[k].gpu_milli),
                forall|j: int, k: int| 0 <= j < k < r@.len() ==> r@[j].id < r@[k].id,
                forall|n: int|
                    0 <= n < i && gpu_suits(*task, self.gpu_rem@[n]) ==> exists|k: int|
                        0 <= k < r@.len() && (#[trigger] r@[k]).id == n,
                task.num_gpu != 1 ==> r@.len() == count_full(self.gpu_rem@.take(i as int)),
            decreases self.gpu_rem@.len() - i,
        {
            let left = self.gpu_rem[i];
            proof {
                assert(self.gpu_rem@.take(i + 1).drop_last() =~= self.gpu_rem@.take(i as int));
            }
            let suits = if task.num_gpu == 1 {
                task.gpu_milli <= left
            } else {
                left == GPU_MILLI
            };
            if suits {
                let ghost before = r@;
                r.push(GpuInfoStruct { id: i, gpu_milli: left });
                proof {
                    assert forall|n: int|
                        0 <= n < i + 1 && gpu_suits(*task, self.gpu_rem@[n]) implies exists|k: int|
                        0 <= k < r@.len() && (#[trigger] r@[k]).id == n by {
                        if n < i {
                            let k = choose|k: int|
                                0 <= k < before.len() && (#[trigger] before[k]).id == n;
                            assert(r@[k].id == n);
                        } else {
                            assert(r@[r@.len() - 1].id == n);
                        }
                    }
                }
            }
            i += 1;
        }
        proof {
            assert(self.gpu_rem@.take(i as int) =~= self.gpu_rem@);
        }
        r
    }

    /// Whether the task can be bound to the GPUs `gpus` of this node.
    pub fn accepts(&self, task: &PodSpecStruct, gpus: &Vec<NUM>) -> (ok: bool)
        ensures
            ok == self@.can_bind(*task, gpus@),
    {
        if task.cpu_milli > self.cpu_rem || task.memory_mib > self.mem_rem {
            return false;
        }
        if gpus.len() != task.num_gpu {
            return false;
        }
        let mut k: usize = 0;
        while k < gpus.len()
            invariant
                0 <= k <= gpus@.len(),
                forall|n: int|
                    0 <= n < k ==> (#[trigger] gpus@[n]) < self.gpu_rem@.len() && gpu_suits(
                        *task,
                        self.gpu_rem@[gpus@[n] as int],
                    ),
                forall|i: int, j: int| 0 <= i < j < k ==> gpus@[i] != gpus@[j],
            decreases gpus@.len() - k,
        {
            let g = gpus[k];
            if g >= self.gpu_rem.len() {
                assert(!(gpus@[k as int] < self.gpu_rem@.len()));
                return false;
            }
            let left = self.gpu_rem[g];
            let suits = if task.num_gpu == 1 {
                task.gpu_milli <= left
            } else {
                left == GPU_MILLI
            };
            if !suits {
                assert(!gpu_suits(*task, self.gpu_rem@[gpus@[k as int] as int]));
                return false;
            }
            let mut j: usize = 0;
            while j < k
                invariant
                    0 <= j <= k < gpus@.len(),
                    g == gpus@[k as int],
                    forall|i: int| 0 <= i < j ==> gpus@[i] != g,
                decreases k - j,
            {
                if gpus[j] == g {
                    assert(gpus@[j as int] == gpus@[k as int]);
                    return false;
                }
                j += 1;
            }
            k += 1;
        }
        true
    }

    /// Binds the task to the GPUs `gpus` of this node: takes its CPU and
    /// memory from what is left, and its GPU share from the GPUs named.
    pub fn bind(&mut self, task: &PodSpecStruct, gpus: &Vec<NUM>)
        requires
            old(self).wf(),
            task.wf(),
            old(self)@.can_bind(*task, gpus@),
        ensures
            final(self).wf(),
            final(self)@ == old(self)@.bind(*task, gpus@),
            final(self).cpu_rem == old(self).cpu_rem - task.cpu_milli,
            final(self).mem_rem == old(self).mem_rem - task.memory_mib,
            final(self).gpu_unallocated == old(self).gpu_unallocated - task.gpu_milli,
    {
        proof {
            old(self)@.lemma_bind(*task, gpus@);
        }
        self.cpu_rem -= task.cpu_milli;
        self.mem_rem -= task.memory_mib;
        let ghost before = self.gpu_rem@;
        if task.num_gpu == 1 {
            let g = gpus[0];
            assert(gpus@[0] < before.len() && gpu_suits(*task, before[gpus@[0] as int]));
            let left = self.gpu_rem[g] - task.gpu_milli;
            self.gpu_rem.set(g, left);
        } else {
            let mut k: usize = 0;
            while k < gpus.len()
                invariant
                    0 <= k <= gpus@.len(),
                    self.spec == old(self).spec,
                    self.cpu_rem == old(self).cpu_rem - task.cpu_milli,
                    self.mem_rem == old(self).mem_rem - task.memory_mib,
                    self.gpu_frag == 0,
                    before.len() == self.gpu_rem@.len(),
                    gpus@.no_duplicates(),
                    forall|n: int|
                        0 <= n < gpus@.len() ==> (#[trigger] gpus@[n]) < before.len()
                            && before[gpus@[n] as int] == GPU_MILLI,
                    self.gpu_rem@ == used_up(before, gpus@.take(k as int)),
                decreases gpus@.len() - k,
            {
                let g = gpus[k];
                proof {
                    assert(gpus@[k as int] < before.len());
                    assert(gpus@.take(k + 1).drop_last() =~= gpus@.take(k as int));
                    lemma_used_up_step(before, gpus@.take(k + 1));
                }
                self.gpu_rem.set(g, 0);
                k += 1;
            }
            proof {
                assert(gpus@.take(k as int) =~= gpus@);
            }
        }
        proof {
            lemma_sum_nonnegative(old(self).gpu_rem@);
        }
        let (full, part, sum) = recount(&self.gpu_rem);
        self.gpu_full = full;
        self.gpu_part = part;
        self.gpu_unallocated = sum;
    }
}

} // verus!
