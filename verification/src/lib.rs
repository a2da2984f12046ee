//! A dataflow runtime: a model of variables and operations, the bookkeeping
//! that decides which operations are ready to run, and the device-aware choice
//! of the next operation to execute.

pub mod model;
pub mod scheduler;
pub mod load_balancer;
pub mod values;
pub mod laws;
