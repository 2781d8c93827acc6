//! What one row of the input files holds, before the simulator gives it an id.
//!
//! A node row holds `cpu_milli, memory_mib, gpu, model`; a pod row holds
//! `cpu_milli, memory_mib, num_gpu, gpu_milli, gpu_spec`. The model columns are
//! written as GPU model names joined by `|`; an empty column is the empty set.

use crate::gpu_spec::{model_named, GpuModel, GpuSpec};
use crate::types::{whole_gpus, CPU, GPU, GPU_MILLI, MEM, MODEL, NUM};
use vstd::prelude::*;
use vstd::slice::{slice_subrange, slice_to_vec};
use vstd::string::StringSliceAdditionalSpecFns;

verus! {

/// A node as its row describes it.
#[derive(Clone, Copy, Debug, PartialEq, Eq, Structural, Hash)]
pub struct NodeSpec {
    pub cpu_milli: CPU,
    pub memory_mib: MEM,
    /// The number of GPUs on the node.
    pub num_gpu: NUM,
    /// The model of those GPUs; empty where the row names none.
    pub model: MODEL,
}

/// A task as its row describes it.
#[derive(Clone, Copy, Debug, PartialEq, Eq, Structural, Hash)]
pub struct PodSpec {
    pub cpu_milli: CPU,
    pub memory_mib: MEM,
    pub num_gpu: NUM,
    /// The share of one GPU in thousandths; read only where `num_gpu` is 1.
    pub gpu_milli: GPU,
    /// The models that the task accepts; empty where any will do.
    pub model: MODEL,
}

impl NodeSpec {
    /// The GPU capacity of the node can be written in thousandths of a GPU.
    pub open spec fn wf(&self) -> bool {
        whole_gpus(self.num_gpu) <= u64::MAX
    }

    /// Whether the row is valid.
    pub fn is_valid(&self) -> (ok: bool)
        ensures
            ok == self.wf(),
    {
        self.num_gpu as u64 <= u64::MAX / GPU_MILLI
    }
}

impl PodSpec {
    /// Where the task asks for whole GPUs, their capacity can be written in
    /// thousandths of a GPU.
    pub open spec fn wf(&self) -> bool {
        self.num_gpu == 1 || whole_gpus(self.num_gpu) <= u64::MAX
    }

    /// Whether the row is valid.
    pub fn is_valid(&self) -> (ok: bool)
        ensures
            ok == self.wf(),
    {
        self.num_gpu == 1 || self.num_gpu as u64 <= u64::MAX / GPU_MILLI
    }
}

/// The byte that separates the names of a list of models.
pub const SEPARATOR: u8 = 124;

/// The length of the first name of a list: the place of its first `|`, or the
/// length of the text where it holds none.
pub open spec fn first_name_len(text: Seq<u8>) -> int
    decreases text.len(),
{
    if text.len() == 0 || text[0] == SEPARATOR {
        0
    } else {
        1 + first_name_len(text.skip(1))
    }
}

/// The models that a non-empty list of names joined by `|` stands for, or
/// `None` where one of the names is no model's name. A name between two
/// separators, before the first or after the last is matched as it stands, so
/// an empty one is unknown.
pub open spec fn models_listed(text: Seq<u8>) -> Option<Set<GpuModel>>
    decreases text.len(),
{
    let k = first_name_len(text);
    match model_named(text.take(k)) {
        None => None,
        Some(m) => if 0 <= k < text.len() {
            match models_listed(text.skip(k + 1)) {
                None => None,
                Some(rest) => Some(rest.insert(m)),
            }
        } else {
            Some(set![m])
        },
    }
}

/// The first name of the list that is no model's name; empty where all are known.
pub open spec fn first_unknown_name(text: Seq<u8>) -> Seq<u8>
    decreases text.len(),
{
    let k = first_name_len(text);
    if model_named(text.take(k)) is None {
        text.take(k)
    } else if 0 <= k < text.len() {
        first_unknown_name(text.skip(k + 1))
    } else {
        Seq::empty()
    }
}

/// The set of models that a model column stands for: the empty set for an
/// empty column, else the models of the list, or `None` where a name is unknown.
pub open spec fn models_written(text: Seq<u8>) -> Option<Set<GpuModel>> {
    if text.len() == 0 {
        Some(Set::empty())
    } else {
        models_listed(text)
    }
}

/// A model column named something that is no GPU model.
#[derive(Debug)]
pub struct UnknownGpuModel {
    /// The name as it was written.
    pub name: Vec<u8>,
}

/// The first name ends at the first separator, or with the text.
proof fn lemma_first_name_len(text: Seq<u8>, k: int)
    requires
        0 <= k <= text.len(),
        forall|j: int| 0 <= j < k ==> text[j] != SEPARATOR,
        k == text.len() || text[k] == SEPARATOR,
    ensures
        first_name_len(text) == k,
    decreases k,
{
    if k > 0 {
        let rest = text.skip(1);
        assert forall|j: int| 0 <= j < k - 1 implies rest[j] != SEPARATOR by {
            assert(rest[j] == text[j + 1]);
        }
        lemma_first_name_len(rest, k - 1);
    }
}

/// The model that bytes `lo..hi` of `text` name.
fn model_at(text: &[u8], lo: usize, hi: usize) -> (r: Option<GpuModel>)
    requires
        lo <= hi <= text@.len(),
    ensures
        r == model_named(text@.subrange(lo as int, hi as int)),
{
    let ghost name = text@.subrange(lo as int, hi as int);
    let len = hi - lo;
    let r = if len == 2 {
        let a = text[lo];
        let b = text[lo + 1];
        assert(name[0] == a && name[1] == b);
        if a == 71 && b == 50 {
            Some(GpuModel::G2)
        } else if a == 71 && b == 51 {
            Some(GpuModel::G3)
        } else if a == 84 && b == 52 {
            Some(GpuModel::T4)
        } else {
            None
        }
    } else if len == 3 {
        assert(name[0] == text[lo as int] && name[1] == text[lo + 1] && name[2] == text[lo + 2]);
        if text[lo] == 65 && text[lo + 1] == 49 && text[lo + 2] == 48 {
            Some(GpuModel::A10)
        } else {
            None
        }
    } else if len == 4 {
        assert(name[0] == text[lo as int] && name[1] == text[lo + 1] && name[2] == text[lo + 2]
            && name[3] == text[lo + 3]);
        if text[lo] == 80 && text[lo + 1] == 49 && text[lo + 2] == 48 && text[lo + 3] == 48 {
            Some(GpuModel::P100)
        } else {
            None
        }
    } else if len == 7 {
        assert(name[0] == text[lo as int] && name[1] == text[lo + 1] && name[2] == text[lo + 2]
            && name[3] == text[lo + 3] && name[4] == text[lo + 4] && name[5] == text[lo + 5]
            && name[6] == text[lo + 6]);
        if text[lo] == 86 && text[lo + 1] == 49 && text[lo + 2] == 48 && text[lo + 3] == 48
            && text[lo + 4] == 77 {
            if text[lo + 5] == 49 && text[lo + 6] == 54 {
                Some(GpuModel::V100M16)
            } else if text[lo + 5] == 51 && text[lo + 6] == 50 {
                Some(GpuModel::V100M32)
            } else {
                None
            }
        } else {
            None
        }
    } else {
        None
    };
    proof {
        match r {
            Some(m) => {
                assert(name =~= m.name());
            },
            None => {
                assert(name.len() == len);
                assert(GpuModel::A10.name().len() == 3 && GpuModel::A10.name()[0] == 65
                    && GpuModel::A10.name()[1] == 49 && GpuModel::A10.name()[2] == 48);
                assert(GpuModel::G2.name().len() == 2 && GpuModel::G2.name()[0] == 71
                    && GpuModel::G2.name()[1] == 50);
                assert(GpuModel::G3.name().len() == 2 && GpuModel::G3.name()[0] == 71
                    && GpuModel::G3.name()[1] == 51);
                assert(GpuModel::P100.name().len() == 4 && GpuModel::P100.name()[0] == 80
                    && GpuModel::P100.name()[1] == 49 && GpuModel::P100.name()[2] == 48
                    && GpuModel::P100.name()[3] == 48);
                assert(GpuModel::T4.name().len() == 2 && GpuModel::T4.name()[0] == 84
                    && GpuModel::T4.name()[1] == 52);
                let v16 = GpuModel::V100M16.name();
                assert(v16.len() == 7 && v16[0] == 86 && v16[1] == 49 && v16[2] == 48 && v16[3]
                    == 48 && v16[4] == 77 && v16[5] == 49 && v16[6] == 54);
                let v32 = GpuModel::V100M32.name();
                assert(v32.len() == 7 && v32[0] == 86 && v32[1] == 49 && v32[2] == 48 && v32[3]
                    == 48 && v32[4] == 77 && v32[5] == 51 && v32[6] == 50);
            },
        }
    }
    r
}

/// Reads a model column: nothing, or model names joined by `|`.
///
/// An empty column gives the empty set. Otherwise every name must be one of
/// `A10`, `G2`, `G3`, `P100`, `T4`, `V100M16`, `V100M32`, written exactly, and
/// the result is the set of the models named. The first name that is none of
/// these is handed back as the error.
pub fn parse_multi_spec(v: &str) -> (r: Result<GpuSpec, UnknownGpuModel>)
    ensures
        match r {
            Ok(spec) => models_written(v.spec_bytes()) == Some(spec@),
            Err(e) => models_written(v.spec_bytes()) is None && e.name@ == first_unknown_name(
                v.spec_bytes(),
            ),
        },
{
    let text = v.as_bytes();
    let len = text.len();
    let mut acc = GpuSpec::empty();
    if len == 0 {
        return Ok(acc);
    }
    let mut pos: usize = 0;
    proof {
        assert(text@.skip(0) =~= text@);
        match models_listed(text@) {
            None => {},
            Some(rest) => {
                assert(acc@.union(rest) =~= rest);
            },
        }
    }
    loop
        invariant
            text@ == v.spec_bytes(),
            len == text@.len(),
            len > 0,
            0 <= pos <= len,
            models_listed(text@) == match models_listed(text@.skip(pos as int)) {
                None => None::<Set<GpuModel>>,
                Some(rest) => Some(acc@.union(rest)),
            },
            first_unknown_name(text@) == first_unknown_name(text@.skip(pos as int)),
        decreases len - pos,
    {
        let mut end: usize = pos;
        while end < len && text[end] != SEPARATOR
            invariant
                len == text@.len(),
                pos <= end <= len,
                forall|j: int| pos <= j < end ==> text@[j] != SEPARATOR,
            decreases len - end,
        {
            end += 1;
        }
        let ghost tail = text@.skip(pos as int);
        proof {
            assert forall|j: int| 0 <= j < end - pos implies tail[j] != SEPARATOR by {
                assert(tail[j] == text@[pos + j]);
            }
            lemma_first_name_len(tail, end - pos);
            assert(tail.take(end - pos) =~= text@.subrange(pos as int, end as int));
            if end < len {
                assert(tail.skip(end - pos + 1) =~= text@.skip(end + 1));
            }
        }
        match model_at(text, pos, end) {
            None => {
                assert(models_listed(tail) is None);
                assert(first_unknown_name(tail) == text@.subrange(pos as int, end as int));
                let name = slice_to_vec(slice_subrange(text, pos, end));
                return Err(UnknownGpuModel { name });
            },
            Some(m) => {
                let ghost before = acc@;
                acc = acc.union(GpuSpec::single(m));
                proof {
                    assert(acc@ =~= before.insert(m));
                    if end < len {
                        match models_listed(text@.skip(end + 1)) {
                            None => {},
                            Some(rest) => {
                                assert(before.union(rest.insert(m)) =~= acc@.union(rest));
                            },
                        }
                    } else {
                        assert(before.union(set![m]) =~= acc@);
                    }
                }
            },
        }
        if end == len {
            return Ok(acc);
        }
        pos = end + 1;
    }
}

} // verus!
