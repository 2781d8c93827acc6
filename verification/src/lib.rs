//! An offline simulator for GPU-cluster scheduling heuristics.
//!
//! A cluster of nodes, each with CPU, memory and a row of GPUs, receives tasks
//! drawn from a trace. A scheduling policy picks a node and GPUs for each task;
//! the cluster binds the task and keeps the residual capacity of every node.
//! Tasks that find no place wait in a backlog for the next round.
//!
//! - [`gpu_spec`]: GPU models and sets of them.
//! - [`records`]: the rows of the two input files, and the grammar of a model column.
//! - [`types`]: quantities, tasks and node specs.
//! - [`node`]: one node in the middle of a round.
//! - [`evaluator`]: the cluster, the workload, and the round driver.
//! - [`heuristics`]: reference deciders and schedulers.
//! - [`random`]: the source of randomness.

pub mod evaluator;
pub mod gpu_spec;
pub mod heuristics;
pub mod node;
pub mod random;
pub mod records;
pub mod types;
