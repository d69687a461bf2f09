//! Cortex: the verified core of a workflow orchestration platform.
//!
//! The crate holds the domain model, the DAG algebra that orders a workflow's
//! tasks, the decision logic of the run orchestrator, the executor and its warm
//! worker pool, workload isolation plans, the interval scheduler, and the
//! request rules of the HTTP and MCP surfaces. Everything that talks to the
//! outside world (sockets, processes, SQLite, Polars) lives around it.

pub mod api;
pub mod connectors;
pub mod dag;
pub mod data;
pub mod event;
pub mod exec;
pub mod isolation;
pub mod json;
pub mod text;
pub mod mcp;
pub mod model;
pub mod orchestrator;
pub mod pool;
pub mod scheduler;
