//! The command line tool.

pub mod init;
