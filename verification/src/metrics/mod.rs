//! Metrics of a query, of its nodes, and metrics that nodes define themselves.

pub mod custom;
pub mod custom_laws;
pub mod flush_laws;
pub mod graph;
pub mod graph_laws;
pub mod history;
pub mod kind;
pub mod node;
pub mod node_laws;
pub mod query;
pub mod registry;
pub mod rehearsal;
pub mod report_laws;
pub mod table_laws;
