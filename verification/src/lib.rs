//! The query-engine core: bloom filters, boolean expression kernels, execution
//! metrics and the task scheduler.

pub mod bloom_filter;
pub mod bloom_laws;
pub mod boolean;
pub mod boolean_laws;
pub mod cpu_time;
pub mod executor;
pub mod io_metrics;
pub mod keys;
pub mod live_timer;
pub mod metrics;
pub mod nested;
pub mod node_table;
pub mod numbered;
pub mod opt_spawned_future;
pub mod slots;
