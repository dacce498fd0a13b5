//! Core of a task-execution agent: it models the poll-dispatch-execute
//! pipeline that fetches tasks from a remote broker, decodes them into
//! containerized workloads, and drives a container per task through its
//! lifecycle.  Everything here is pure decision and data logic; the
//! surrounding process performs the HTTP and container-engine calls and
//! feeds their outcomes back in as events.

pub mod error;
pub mod beam;
pub mod channel;
pub mod engine;
pub mod workflow;
pub mod codec;
pub mod source;
pub mod dispatch;
