//! The quantities and the immutable descriptions that the simulator works on.

use crate::gpu_spec::GpuSpec;
use crate::records;
use vstd::prelude::*;

verus! {

/// The id of a node: its place in the cluster.
#[allow(non_camel_case_types)]
pub type NODE = usize;

/// The id of a task: its place in the trace.
#[allow(non_camel_case_types)]
pub type POD = usize;

/// CPU in thousandths of a core.
#[allow(non_camel_case_types)]
pub type CPU = u64;

/// Memory in MiB.
#[allow(non_camel_case_types)]
pub type MEM = u64;

/// A count or an index of GPUs.
#[allow(non_camel_case_types)]
pub type NUM = usize;

/// GPU capacity in thousandths of one GPU.
#[allow(non_camel_case_types)]
pub type GPU = u64;

/// A set of GPU models.
#[allow(non_camel_case_types)]
pub type MODEL = GpuSpec;

/// One whole GPU.
pub const GPU_MILLI: GPU = 1000;

/// One GiB of memory.
pub const MEM_MIB: MEM = 1024;

/// One whole core.
pub const CPU_MILLI: CPU = 1000;

/// What a scheduler picks for a task: a node, and GPUs of that node by index.
pub type SchedulingPick = (NODE, Vec<NUM>);

/// The GPU capacity behind `num_gpu` whole GPUs.
pub open spec fn whole_gpus(num_gpu: NUM) -> int {
    num_gpu * GPU_MILLI
}

/// A task of the trace. `gpu_milli` is the share of one GPU where the task
/// asks for one GPU, and the capacity of `num_gpu` whole GPUs otherwise.
#[derive(Clone, Copy, Debug)]
pub struct PodSpecStruct {
    pub id: POD,
    pub cpu_milli: CPU,
    pub memory_mib: MEM,
    pub num_gpu: NUM,
    pub gpu_milli: GPU,
    pub model: MODEL,
}

/// What two tasks must share to count as the same task: all but the id.
pub type PodSpecKey = records::PodSpec;

impl PodSpecStruct {
    /// A task that asks for more or fewer than one GPU asks for whole GPUs.
    pub open spec fn wf(&self) -> bool {
        self.num_gpu != 1 ==> self.gpu_milli == whole_gpus(self.num_gpu)
    }

    /// The data of the task, without its id.
    pub open spec fn spec_key(&self) -> PodSpecKey {
        records::PodSpec {
            cpu_milli: self.cpu_milli,
            memory_mib: self.memory_mib,
            num_gpu: self.num_gpu,
            gpu_milli: self.gpu_milli,
            model: self.model,
        }
    }

    /// Whether the task asks for (a share of) exactly one GPU.
    pub fn single_gpu(&self) -> (r: bool)
        ensures
            r == (self.num_gpu == 1),
    {
        self.num_gpu == 1
    }

    /// The data of the task, without its id: what the task is counted by.
    pub fn key(&self) -> (k: PodSpecKey)
        ensures
            k == self.spec_key(),
    {
        records::PodSpec {
            cpu_milli: self.cpu_milli,
            memory_mib: self.memory_mib,
            num_gpu: self.num_gpu,
            gpu_milli: self.gpu_milli,
            model: self.model,
        }
    }
}

/// Tasks are equal when their data are: the id takes no part.
impl PartialEq for PodSpecStruct {
    fn eq(&self, other: &PodSpecStruct) -> (r: bool) {
        self.cpu_milli == other.cpu_milli && self.memory_mib == other.memory_mib && self.num_gpu
            == other.num_gpu && self.gpu_milli == other.gpu_milli && self.model == other.model
    }
}

impl Eq for PodSpecStruct {}

impl vstd::std_specs::cmp::PartialEqSpecImpl for PodSpecStruct {
    open spec fn obeys_eq_spec() -> bool {
        true
    }

    open spec fn eq_spec(&self, other: &PodSpecStruct) -> bool {
        self.cpu_milli == other.cpu_milli && self.memory_mib == other.memory_mib && self.num_gpu
            == other.num_gpu && self.gpu_milli == other.gpu_milli && self.model == other.model
    }
}

/// A node of the cluster, as it is when nothing runs on it.
#[derive(Clone, Copy, Debug, PartialEq, Eq, Structural)]
pub struct NodeSpecStruct {
    pub id: NODE,
    pub cpu_milli: CPU,
    pub memory_mib: MEM,
    pub num_gpu: NUM,
    /// The capacity of all GPUs of the node together.
    pub gpu_milli: GPU,
    pub model: MODEL,
}

impl NodeSpecStruct {
    /// The GPU capacity of the node is one whole GPU for each of its GPUs.
    pub open spec fn wf(&self) -> bool {
        self.gpu_milli == whole_gpus(self.num_gpu)
    }
}

/// One GPU of a node: its index and what is left of it.
#[derive(Clone, Copy, Debug, PartialEq, Eq, Structural)]
pub struct GpuInfoStruct {
    pub id: NUM,
    pub gpu_milli: GPU,
}

} // verus!
