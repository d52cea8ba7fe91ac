//! Test cases that put a network under load.

pub mod network_bandwidth_test;
