//! Generation of transactions for tests: test cases are folders of Move
//! sources that are submitted, step by step, to a local node.

use vstd::prelude::*;

pub mod configs;
pub mod test_case;
pub mod transaction_generator;

verus! {

/// The name of the folder of Move fixtures.
pub const MOVE_FIXTURES_DIR: &'static str = "move_fixtures";

/// The name of the binary of the command line tool.
pub const APTOS_CLI_BINARY_NAME: &'static str = "aptos";

} // verus!
