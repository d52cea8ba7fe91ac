//! Decisions of the consensus layer.

pub mod dag_handler;
