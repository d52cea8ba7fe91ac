//! Access to the node's index databases.

pub mod db_ops;
pub mod indexer_reader;
