//! The generator of transactions: what it is made of, and the decisions it
//! takes while a local node is brought up and the test cases are submitted.

use crate::transaction_generator::test_case::TestCase;
use vstd::prelude::*;
use vstd::string::*;

verus! {

/// The name of the folder of generated test cases.
pub const GENERATED_PROTOBUF_FOLDER: &'static str = "generated";

/// How often the local node is asked whether it is up.
pub const NODE_HEALTH_CHECK_COUNT: u32 = 200;

/// Where the faucet of the local node listens.
pub const LOCAL_FAUCET_URL: &'static str = "http://127.0.0.1:8081";

/// The arguments that start the transaction generator.
#[derive(Debug)]
pub struct TransactionGeneratorArgs {
    /// The path to the main folder of the test cases.
    pub test_cases_folder: String,
    /// The path of the generated test cases. Where it is not given, they go
    /// to the folder `generated` under the folder of the test cases.
    pub output_test_cases_folder: Option<String>,
    /// The path of a configuration file of the local node, to override the default.
    pub node_config: Option<String>,
}

/// Where the generated test cases go.
#[derive(Debug, PartialEq, Eq)]
pub enum OutputFolder {
    /// To this folder.
    Given(String),
    /// To the folder named by [`GENERATED_PROTOBUF_FOLDER`] under this folder.
    GeneratedUnder(String),
}

/// The generator of transactions for tests.
pub struct TransactionGenerator {
    test_cases_folder: String,
    output_test_cases_folder: OutputFolder,
    test_cases: Vec<TestCase>,
    node_config: Option<String>,
    is_initialized: bool,
}

/// The steps in which the generator is initialized, in their order.
#[derive(Clone, Copy, Debug, PartialEq, Eq, Structural)]
pub enum InitializeStep {
    /// Look for the binary of the command line tool.
    FindCli,
    /// See whether the folder of the test cases exists.
    CheckFolderExists,
    /// See whether the folder of the test cases is a folder.
    CheckFolderIsDirectory,
    /// Make the folder of the test cases the current one.
    EnterFolder,
    LoadTestCases,
    StartLocalNode,
    InitAccount,
    /// Nothing is left to do.
    Done,
}

/// Why the generator could not be initialized: the step that failed.
#[derive(Clone, Copy, Debug, PartialEq, Eq, Structural)]
pub enum InitializeError {
    CliNotInstalled,
    FolderDoesNotExist,
    FolderIsNotADirectory,
    CannotEnterFolder,
    CannotLoadTestCases,
    LocalNodeDidNotStart,
    AccountCreationFailed,
}

/// Why no transactions were built.
#[derive(Clone, Copy, Debug, PartialEq, Eq, Structural)]
pub enum BuildError {
    NotInitialized,
}

/// What follows a check of whether the local node is up.
#[derive(Clone, Copy, Debug, PartialEq, Eq, Structural)]
pub enum HealthDecision {
    /// The node answered: it is up.
    Ready,
    /// Wait a second and ask again.
    SleepAndRetry,
    /// The node did not come up in time.
    GiveUp,
}

/// The step that follows `step` where it succeeded, or the error where it failed.
pub open spec fn after_step(step: InitializeStep, succeeded: bool) -> Result<
    InitializeStep,
    InitializeError,
> {
    match step {
        InitializeStep::FindCli => if succeeded {
            Ok(InitializeStep::CheckFolderExists)
        } else {
            Err(InitializeError::CliNotInstalled)
        },
        InitializeStep::CheckFolderExists => if succeeded {
            Ok(InitializeStep::CheckFolderIsDirectory)
        } else {
            Err(InitializeError::FolderDoesNotExist)
        },
        InitializeStep::CheckFolderIsDirectory => if succeeded {
            Ok(InitializeStep::EnterFolder)
        } else {
            Err(InitializeError::FolderIsNotADirectory)
        },
        InitializeStep::EnterFolder => if succeeded {
            Ok(InitializeStep::LoadTestCases)
        } else {
            Err(InitializeError::CannotEnterFolder)
        },
        InitializeStep::LoadTestCases => if succeeded {
            Ok(InitializeStep::StartLocalNode)
        } else {
            Err(InitializeError::CannotLoadTestCases)
        },
        InitializeStep::StartLocalNode => if succeeded {
            Ok(InitializeStep::InitAccount)
        } else {
            Err(InitializeError::LocalNodeDidNotStart)
        },
        InitializeStep::InitAccount => if succeeded {
            Ok(InitializeStep::Done)
        } else {
            Err(InitializeError::AccountCreationFailed)
        },
        InitializeStep::Done => Ok(InitializeStep::Done),
    }
}

/// The step lies behind the loading of the test cases.
pub open spec fn loading_passed(step: InitializeStep) -> bool {
    step == InitializeStep::StartLocalNode || step == InitializeStep::InitAccount || step
        == InitializeStep::Done
}

impl InitializeStep {
    /// The first step.
    pub fn first() -> (step: InitializeStep)
        ensures
            step == InitializeStep::FindCli,
    {
        InitializeStep::FindCli
    }

    /// The step that follows this one where it succeeded, or the error where it failed.
    pub fn after(self, succeeded: bool) -> (result: Result<InitializeStep, InitializeError>)
        ensures
            result == after_step(self, succeeded),
    {
        match self {
            InitializeStep::FindCli => if succeeded {
                Ok(InitializeStep::CheckFolderExists)
            } else {
                Err(InitializeError::CliNotInstalled)
            },
            InitializeStep::CheckFolderExists => if succeeded {
                Ok(InitializeStep::CheckFolderIsDirectory)
            } else {
                Err(InitializeError::FolderDoesNotExist)
            },
            InitializeStep::CheckFolderIsDirectory => if succeeded {
                Ok(InitializeStep::EnterFolder)
            } else {
                Err(InitializeError::FolderIsNotADirectory)
            },
            InitializeStep::EnterFolder => if succeeded {
                Ok(InitializeStep::LoadTestCases)
            } else {
                Err(InitializeError::CannotEnterFolder)
            },
            InitializeStep::LoadTestCases => if succeeded {
                Ok(InitializeStep::StartLocalNode)
            } else {
                Err(InitializeError::CannotLoadTestCases)
            },
            InitializeStep::StartLocalNode => if succeeded {
                Ok(InitializeStep::InitAccount)
            } else {
                Err(InitializeError::LocalNodeDidNotStart)
            },
            InitializeStep::InitAccount => if succeeded {
                Ok(InitializeStep::Done)
            } else {
                Err(InitializeError::AccountCreationFailed)
            },
            InitializeStep::Done => Ok(InitializeStep::Done),
        }
    }
}

impl InitializeError {
    /// The text of the error.
    pub fn message(&self) -> (text: &'static str)
        ensures
            text@ == (match *self {
                InitializeError::CliNotInstalled => "`aptos` binary is not installed; check https://aptos.dev/tools/aptos-cli/install-cli/ for installation instructions"@,
                InitializeError::FolderDoesNotExist => "Test cases folder does not exist."@,
                InitializeError::FolderIsNotADirectory => "Output test cases folder is not a directory."@,
                InitializeError::CannotEnterFolder => "Failed to change directory to test cases folder."@,
                InitializeError::CannotLoadTestCases => "Failed to load test cases."@,
                InitializeError::LocalNodeDidNotStart => "Local node did not start."@,
                InitializeError::AccountCreationFailed => "Account creation failure."@,
            }),
    {
        match self {
            InitializeError::CliNotInstalled => "`aptos` binary is not installed; check https://aptos.dev/tools/aptos-cli/install-cli/ for installation instructions",
            InitializeError::FolderDoesNotExist => "Test cases folder does not exist.",
            InitializeError::FolderIsNotADirectory => "Output test cases folder is not a directory.",
            InitializeError::CannotEnterFolder => "Failed to change directory to test cases folder.",
            InitializeError::CannotLoadTestCases => "Failed to load test cases.",
            InitializeError::LocalNodeDidNotStart => "Local node did not start.",
            InitializeError::AccountCreationFailed => "Account creation failure.",
        }
    }
}

impl BuildError {
    /// The text of the error.
    pub fn message(&self) -> (text: &'static str)
        ensures
            text@ == "Transaction generator is not correctly initialized."@,
    {
        "Transaction generator is not correctly initialized."
    }
}

/// The arguments with which the command line tool starts the local node:
/// a forced restart without questions, with the configuration file where
/// one is given.
pub fn node_arguments(config: Option<&String>) -> (arguments: Vec<String>)
    ensures
        arguments@.len() == (if config is Some {
            6int
        } else {
            4int
        }),
        arguments@[0]@ == "node"@,
        arguments@[1]@ == "run-local-testnet"@,
        arguments@[2]@ == "--force-restart"@,
        arguments@[3]@ == "--assume-yes"@,
        config matches Some(path) ==> arguments@[4]@ == "--config"@ && arguments@[5] == *path,
{
    let mut arguments: Vec<String> = Vec::new();
    arguments.push(String::from_str("node"));
    arguments.push(String::from_str("run-local-testnet"));
    arguments.push(String::from_str("--force-restart"));
    arguments.push(String::from_str("--assume-yes"));
    match config {
        Some(path) => {
            arguments.push(String::from_str("--config"));
            arguments.push(path.clone());
        },
        None => {},
    }
    arguments
}

/// The arguments with which the command line tool creates the account on
/// the local network, without questions.
pub fn account_arguments() -> (arguments: Vec<String>)
    ensures
        arguments@.len() == 4,
        arguments@[0]@ == "init"@,
        arguments@[1]@ == "--network"@,
        arguments@[2]@ == "local"@,
        arguments@[3]@ == "--assume-yes"@,
{
    let mut arguments: Vec<String> = Vec::new();
    arguments.push(String::from_str("init"));
    arguments.push(String::from_str("--network"));
    arguments.push(String::from_str("local"));
    arguments.push(String::from_str("--assume-yes"));
    arguments
}

/// What can go wrong when the local node is started.
#[derive(Clone, Copy, Debug, PartialEq, Eq, Structural)]
pub enum LocalNodeError {
    /// The process of the node could not be started.
    CannotSpawn,
    /// The node did not answer in time.
    DidNotStart,
}

impl LocalNodeError {
    /// The text of the error.
    pub fn message(&self) -> (text: &'static str)
        ensures
            text@ == (match *self {
                LocalNodeError::CannotSpawn => "Failed to start local node."@,
                LocalNodeError::DidNotStart => "Local node did not start."@,
            }),
    {
        match self {
            LocalNodeError::CannotSpawn => "Failed to start local node.",
            LocalNodeError::DidNotStart => "Local node did not start.",
        }
    }
}

/// How the creation of the account ended.
#[derive(Clone, Copy, Debug, PartialEq, Eq, Structural)]
pub enum AccountCreation {
    Created,
    /// The tool ran and reported a failure.
    Failed,
    /// The tool could not be waited for.
    NotAwaited,
}

/// How the creation of the account ended: it is created where the tool
/// could be waited for and ended with success.
pub fn account_creation(awaited: bool, success: bool) -> (outcome: AccountCreation)
    ensures
        outcome == (if !awaited {
            AccountCreation::NotAwaited
        } else if success {
            AccountCreation::Created
        } else {
            AccountCreation::Failed
        }),
{
    if !awaited {
        AccountCreation::NotAwaited
    } else if success {
        AccountCreation::Created
    } else {
        AccountCreation::Failed
    }
}

/// The start of the text of a failed creation of the account; what the tool
/// wrote, or why it could not be waited for, follows it. `None` where the
/// account was created.
pub open spec fn account_failure_prefix(outcome: AccountCreation) -> Option<Seq<char>> {
    match outcome {
        AccountCreation::Created => None,
        AccountCreation::Failed => Some("Account creation failed with error: "@),
        AccountCreation::NotAwaited => Some("Account creation failed: "@),
    }
}

impl AccountCreation {
    /// The text of the failure, which ends with `detail`: what the tool
    /// wrote to its error output, or why the tool could not be waited for.
    /// `None` where the account was created.
    pub fn message(&self, detail: &str) -> (text: Option<String>)
        ensures
            match account_failure_prefix(*self) {
                Some(prefix) => text matches Some(t) && t@ == prefix + detail@,
                None => text is None,
            },
    {
        match self {
            AccountCreation::Created => None,
            AccountCreation::Failed => Some(
                String::from_str("Account creation failed with error: ").concat(detail),
            ),
            AccountCreation::NotAwaited => Some(
                String::from_str("Account creation failed: ").concat(detail),
            ),
        }
    }
}

/// What follows the check number `attempt`, counted from 0, of whether the
/// local node is up: the node is ready where it answered; otherwise it is
/// asked again, until [`NODE_HEALTH_CHECK_COUNT`] checks were made.
pub fn after_health_check(attempt: u32, answered: bool) -> (decision: HealthDecision)
    ensures
        decision == (if answered {
            HealthDecision::Ready
        } else if attempt + 1 < NODE_HEALTH_CHECK_COUNT {
            HealthDecision::SleepAndRetry
        } else {
            HealthDecision::GiveUp
        }),
{
    if answered {
        HealthDecision::Ready
    } else if attempt < NODE_HEALTH_CHECK_COUNT - 1 {
        HealthDecision::SleepAndRetry
    } else {
        HealthDecision::GiveUp
    }
}

impl TransactionGeneratorArgs {
    /// A new transaction generator for these arguments. It is not
    /// initialized and has no test cases yet.
    pub fn get_transaction_generator(self) -> (generator: TransactionGenerator)
        ensures
            generator.test_cases_folder() == self.test_cases_folder,
            generator.output_folder() == (match self.output_test_cases_folder {
                Some(folder) => OutputFolder::Given(folder),
                None => OutputFolder::GeneratedUnder(self.test_cases_folder),
            }),
            generator.node_config() == self.node_config,
            !generator.initialized(),
            generator.test_cases() == Seq::<TestCase>::empty(),
    {
        let output_test_cases_folder = match self.output_test_cases_folder {
            Some(folder) => OutputFolder::Given(folder),
            None => OutputFolder::GeneratedUnder(self.test_cases_folder.clone()),
        };
        TransactionGenerator::new(self.test_cases_folder, output_test_cases_folder, self.node_config)
    }
}

impl TransactionGenerator {
    pub closed spec fn test_cases_folder(&self) -> String {
        self.test_cases_folder
    }

    pub closed spec fn output_folder(&self) -> OutputFolder {
        self.output_test_cases_folder
    }

    pub closed spec fn node_config(&self) -> Option<String> {
        self.node_config
    }

    pub closed spec fn initialized(&self) -> bool {
        self.is_initialized
    }

    pub closed spec fn test_cases(&self) -> Seq<TestCase> {
        self.test_cases@
    }

    /// A new transaction generator. It is not initialized until
    /// [`TransactionGenerator::initialize`] is told that every step succeeded.
    pub fn new(
        test_cases_folder: String,
        output_test_cases_folder: OutputFolder,
        node_config: Option<String>,
    ) -> (generator: TransactionGenerator)
        ensures
            generator.test_cases_folder() == test_cases_folder,
            generator.output_folder() == output_test_cases_folder,
            generator.node_config() == node_config,
            !generator.initialized(),
            generator.test_cases() == Seq::<TestCase>::empty(),
    {
        TransactionGenerator {
            test_cases_folder,
            output_test_cases_folder,
            test_cases: Vec::new(),
            node_config,
            is_initialized: false,
        }
    }

    /// The folder of the test cases.
    pub fn folder(&self) -> (folder: &String)
        ensures
            *folder == self.test_cases_folder(),
    {
        &self.test_cases_folder
    }

    /// Where the generated test cases go.
    pub fn output(&self) -> (output: &OutputFolder)
        ensures
            *output == self.output_folder(),
    {
        &self.output_test_cases_folder
    }

    /// The configuration file of the local node, if one was given.
    pub fn config(&self) -> (config: &Option<String>)
        ensures
            *config == self.node_config(),
    {
        &self.node_config
    }

    /// Takes note of how far the initialization came: `reached` is the step
    /// that failed, or the last step where none did, and `test_cases` is
    /// what was loaded. The test cases take the place of those that the
    /// generator had where the loading was passed; the generator is
    /// initialized where every step was taken, and stays so once it is.
    pub fn initialize(&mut self, reached: InitializeStep, test_cases: Vec<TestCase>)
        ensures
            final(self).initialized() == (old(self).initialized() || reached
                == InitializeStep::Done),
            final(self).test_cases() == (if loading_passed(reached) {
                test_cases@
            } else {
                old(self).test_cases()
            }),
            final(self).test_cases_folder() == old(self).test_cases_folder(),
            final(self).output_folder() == old(self).output_folder(),
            final(self).node_config() == old(self).node_config(),
    {
        match reached {
            InitializeStep::StartLocalNode | InitializeStep::InitAccount => {
                self.test_cases = test_cases;
            },
            InitializeStep::Done => {
                self.test_cases = test_cases;
                self.is_initialized = true;
            },
            _ => {},
        }
    }

    /// The test cases to submit, in their order, or an error where the
    /// generator is not initialized.
    pub fn build(&self) -> (result: Result<&Vec<TestCase>, BuildError>)
        ensures
            match result {
                Ok(test_cases) => self.initialized() && test_cases@ == self.test_cases(),
                Err(e) => !self.initialized() && e == BuildError::NotInitialized,
            },
    {
        if !self.is_initialized {
            return Err(BuildError::NotInitialized);
        }
        Ok(&self.test_cases)
    }
}

} // verus!
