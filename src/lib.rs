//! A cluster execution engine for testing the consistency of distributed
//! databases: workloads of independent sessions are spread over the nodes of
//! a cluster, each transaction is retried until it commits, and the executed
//! sessions are gathered back in submission order.
pub mod history;
pub mod cluster;
pub mod retry;
pub mod schedule;
pub mod run;
pub mod batch;
