//! The task executor: scheduling, stealing, thread identities and accounting.

pub mod attribution;
pub mod identity;
pub mod laws;
pub mod permutation;
pub mod queues;
pub mod runner;
pub mod scheduler;
pub mod scheduling_laws;
pub mod scope;
pub mod search_laws;
pub mod spawn;
pub mod stealing;
pub mod task;
pub mod try_steal;
pub mod wake;
pub mod worker_state;
