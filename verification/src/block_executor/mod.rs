//! Optimistic parallel execution of an ordered block of transactions.
//!
//! The coordination core of a block executor in the style of software
//! transactional memory: a multi-version store, the record of each
//! transaction's last inputs and outputs, the scheduler that hands out
//! execution and validation tasks, and the commit pipeline on top of them.
//! Every step is a method on a single owning value; a caller that shares that
//! value between worker threads serialises the steps, and the guarantees
//! proved here hold for every order in which the steps are taken.

pub mod executor;
pub mod executor_model;
pub mod scheduler;
pub mod scheduler_model;
pub mod serializability;
pub mod sharding;
pub mod txn_last_input_output;
pub mod txn_provider;
pub mod types;
pub mod versioned_store;
pub mod worker;
