//! Verified components of a blockchain node.
//!
//! The centre of the crate is [`block_executor`]: the scheduler, the
//! multi-version store and the commit pipeline of optimistic parallel block
//! execution, with the proof that what is committed is what a sequential
//! execution produces.
//!
//! Around it stand the decisions of collaborators of the executor, each as
//! a function from plain values to plain values: which reader of the index
//! answers a query ([`indexer`]), what is done with a request that a node
//! of the DAG sends ([`consensus`]), what the errors of the layers below
//! the network turn into ([`network`]), how a key is packed for the chain
//! ([`jwks`]), what the profile tool configures ([`cli`]), what a load test
//! puts on the network ([`testcases`]), and how the generator of test
//! transactions reads its test cases ([`transaction_generator`]). Reading
//! files, starting processes and talking to the network is left to the
//! caller.

pub mod block_executor;
pub mod cli;
pub mod consensus;
pub mod decimal;
pub mod in_memory_cache;
pub mod indexer;
pub mod jwks;
pub mod network;
pub mod testcases;
pub mod transaction_generator;
