use aptos_core::transaction_generator::test_case::{
    classify_entry, is_test_case_folder, read_step_name, submit_arguments, Classified, FolderEntry,
    FolderError, LoadError, MoveSource, StepName, SubmitError, TestCase,
};
use aptos_core::transaction_generator::transaction_generator::{
    account_arguments, account_creation, after_health_check, node_arguments, AccountCreation,
    BuildError, LocalNodeError, HealthDecision, InitializeError, InitializeStep, OutputFolder,
    TransactionGeneratorArgs, GENERATED_PROTOBUF_FOLDER, LOCAL_FAUCET_URL, NODE_HEALTH_CHECK_COUNT,
};
use aptos_core::transaction_generator::{APTOS_CLI_BINARY_NAME, MOVE_FIXTURES_DIR};

fn file(name: &str) -> FolderEntry {
    let extension = name.rsplit_once('.').map(|(_, ext)| ext.to_string());
    FolderEntry {
        path: format!("case/{}", name),
        file_name: name.to_string(),
        is_file: true,
        is_dir: false,
        extension,
    }
}

fn folder(name: &str) -> FolderEntry {
    FolderEntry {
        path: format!("case/{}", name),
        file_name: name.to_string(),
        is_file: false,
        is_dir: true,
        extension: None,
    }
}

fn simple(name: &str) -> MoveSource {
    MoveSource::SimpleMoveFile(format!("case/{}", name))
}

fn directory(name: &str) -> MoveSource {
    MoveSource::MoveDirectory(format!("case/{}", name))
}

#[test]
fn step_names_are_read_as_the_standard_library_reads_numbers() {
    let prefixes = [
        "", "0", "7", "007", "+5", "+", "-1", "12a", "a12", " 1", "4294967295", "4294967296",
        "99999999999999999999999", "+4294967295", "++1", "1+", "٣", "1.0", "0x10",
    ];
    for prefix in prefixes {
        let name = format!("{}_step.move", prefix);
        let expected = match prefix.parse::<u32>() {
            Ok(n) => StepName::Step(n),
            Err(_) => StepName::Invalid,
        };
        assert_eq!(read_step_name(&name), expected, "prefix {:?}", prefix);
    }
    assert_eq!(read_step_name("nounderscore.move"), StepName::NotAStep);
    assert_eq!(read_step_name(""), StepName::NotAStep);
    assert_eq!(read_step_name("3_a_b_c"), StepName::Step(3));
    assert_eq!(read_step_name("_"), StepName::Invalid);
}

#[test]
fn entries_are_classified_by_name_kind_and_extension() {
    assert!(matches!(classify_entry(&file("readme.md")), Classified::Skipped));
    assert!(matches!(classify_entry(&file("1_notes.txt")), Classified::Skipped));
    assert!(matches!(classify_entry(&file("x_step.move")), Classified::InvalidStepIndex));
    assert!(matches!(classify_entry(&file("1_step")), Classified::MissingExtension));
    match classify_entry(&file("1_step.move")) {
        Classified::Step(step) => {
            assert_eq!(step.index, 1);
            assert_eq!(step.source, simple("1_step.move"));
        },
        _ => panic!("a Move file with a step number is a step"),
    }
    match classify_entry(&folder("2_module")) {
        Classified::Step(step) => {
            assert_eq!(step.index, 2);
            assert_eq!(step.source, directory("2_module"));
        },
        _ => panic!("a folder with a step number is a step"),
    }
    let neither = FolderEntry {
        path: "case/3_link".to_string(),
        file_name: "3_link".to_string(),
        is_file: false,
        is_dir: false,
        extension: None,
    };
    assert!(matches!(classify_entry(&neither), Classified::Skipped));
}

#[test]
fn steps_are_run_in_the_order_of_their_numbers() {
    let entries = vec![
        file("2_third.move"),
        file("notes.txt"),
        folder("1_second"),
        file("0_first.move"),
        file("3_readme.txt"),
    ];
    let test_case = TestCase::load("case".to_string(), &entries).unwrap();
    assert_eq!(test_case.test_case_folder(), "case");
    assert_eq!(
        test_case.move_sources(),
        &vec![simple("0_first.move"), directory("1_second"), simple("2_third.move")]
    );
}

#[test]
fn steps_may_start_at_any_number() {
    let entries = vec![file("8_b.move"), file("7_a.move")];
    let test_case = TestCase::load("case".to_string(), &entries).unwrap();
    assert_eq!(test_case.move_sources().len(), 2);
    assert_eq!(test_case.move_sources()[0], simple("7_a.move"));
}

#[test]
fn a_folder_without_steps_is_no_test_case() {
    let entries = vec![file("notes.txt"), file("5_data.json")];
    assert_eq!(TestCase::load("case".to_string(), &entries).err(), Some(LoadError::NoMoveFiles));
    assert_eq!(TestCase::load("case".to_string(), &vec![]).err(), Some(LoadError::NoMoveFiles));
}

#[test]
fn a_gap_or_a_repeated_number_is_refused() {
    let gap = vec![file("0_a.move"), file("2_b.move")];
    assert_eq!(TestCase::load("case".to_string(), &gap).err(), Some(LoadError::NotConsecutive));
    let twice = vec![file("1_a.move"), file("1_b.move")];
    assert_eq!(TestCase::load("case".to_string(), &twice).err(), Some(LoadError::NotConsecutive));
    let top = vec![file("4294967295_a.move"), file("0_b.move")];
    assert_eq!(TestCase::load("case".to_string(), &top).err(), Some(LoadError::NotConsecutive));
}

#[test]
fn the_first_malformed_entry_is_reported() {
    let entries = vec![file("0_a.move"), file("one_b.move"), file("2_c")];
    assert_eq!(
        TestCase::load("case".to_string(), &entries).err(),
        Some(LoadError::InvalidStepIndex(1))
    );
    let entries = vec![file("0_a"), file("one_b.move")];
    assert_eq!(
        TestCase::load("case".to_string(), &entries).err(),
        Some(LoadError::MissingExtension(0))
    );
}

#[test]
fn folders_of_test_cases_start_with_test() {
    assert!(is_test_case_folder("test_case_1", true));
    assert!(is_test_case_folder("test", true));
    assert!(!is_test_case_folder("test_case_1", false));
    assert!(!is_test_case_folder("tes", true));
    assert!(!is_test_case_folder("generated", true));
    assert!(!is_test_case_folder("a_test", true));
}

#[test]
fn output_goes_to_the_generated_folder_unless_told_otherwise() {
    let args = TransactionGeneratorArgs {
        test_cases_folder: "cases".to_string(),
        output_test_cases_folder: None,
        node_config: Some("node.yaml".to_string()),
    };
    let generator = args.get_transaction_generator();
    assert_eq!(generator.folder(), "cases");
    assert_eq!(generator.output(), &OutputFolder::GeneratedUnder("cases".to_string()));
    assert_eq!(generator.config(), &Some("node.yaml".to_string()));
    assert_eq!(generator.build().err(), Some(BuildError::NotInitialized));

    let args = TransactionGeneratorArgs {
        test_cases_folder: "cases".to_string(),
        output_test_cases_folder: Some("out".to_string()),
        node_config: None,
    };
    let generator = args.get_transaction_generator();
    assert_eq!(generator.output(), &OutputFolder::Given("out".to_string()));
    assert_eq!(generator.config(), &None);
}

#[test]
fn initialization_takes_its_steps_in_order() {
    let mut step = InitializeStep::first();
    let mut seen = vec![step];
    while step != InitializeStep::Done {
        step = step.after(true).unwrap();
        seen.push(step);
    }
    assert_eq!(
        seen,
        vec![
            InitializeStep::FindCli,
            InitializeStep::CheckFolderExists,
            InitializeStep::CheckFolderIsDirectory,
            InitializeStep::EnterFolder,
            InitializeStep::LoadTestCases,
            InitializeStep::StartLocalNode,
            InitializeStep::InitAccount,
            InitializeStep::Done,
        ]
    );
    assert_eq!(InitializeStep::Done.after(false), Ok(InitializeStep::Done));
}

#[test]
fn every_step_of_the_initialization_has_its_error() {
    let failures = [
        (InitializeStep::FindCli, InitializeError::CliNotInstalled),
        (InitializeStep::CheckFolderExists, InitializeError::FolderDoesNotExist),
        (InitializeStep::CheckFolderIsDirectory, InitializeError::FolderIsNotADirectory),
        (InitializeStep::EnterFolder, InitializeError::CannotEnterFolder),
        (InitializeStep::LoadTestCases, InitializeError::CannotLoadTestCases),
        (InitializeStep::StartLocalNode, InitializeError::LocalNodeDidNotStart),
        (InitializeStep::InitAccount, InitializeError::AccountCreationFailed),
    ];
    for (step, error) in failures {
        assert_eq!(step.after(false), Err(error));
    }
    assert_eq!(InitializeError::FolderDoesNotExist.message(), "Test cases folder does not exist.");
    assert_eq!(
        InitializeError::FolderIsNotADirectory.message(),
        "Output test cases folder is not a directory."
    );
    assert_eq!(InitializeError::LocalNodeDidNotStart.message(), "Local node did not start.");
    assert!(InitializeError::CliNotInstalled.message().starts_with("`aptos` binary is not installed"));
    assert_eq!(
        BuildError::NotInitialized.message(),
        "Transaction generator is not correctly initialized."
    );
}

#[test]
fn a_generator_builds_once_every_step_was_taken() {
    let args = TransactionGeneratorArgs {
        test_cases_folder: "cases".to_string(),
        output_test_cases_folder: None,
        node_config: None,
    };
    let mut generator = args.get_transaction_generator();
    let case = TestCase::load("cases/test_a".to_string(), &vec![file("0_a.move")]).unwrap();
    generator.initialize(InitializeStep::InitAccount, vec![]);
    assert_eq!(generator.build().err(), Some(BuildError::NotInitialized));
    generator.initialize(InitializeStep::Done, vec![case]);
    let cases = generator.build().unwrap();
    assert_eq!(cases.len(), 1);
    assert_eq!(cases[0].test_case_folder(), "cases/test_a");
}

#[test]
fn a_failed_second_initialization_leaves_the_generator_as_it_was() {
    let args = TransactionGeneratorArgs {
        test_cases_folder: "cases".to_string(),
        output_test_cases_folder: None,
        node_config: None,
    };
    let mut generator = args.get_transaction_generator();
    let case = |name: &str| TestCase::load(name.to_string(), &vec![file("0_a.move")]).unwrap();
    generator.initialize(InitializeStep::Done, vec![case("first")]);
    // The loading fails: nothing changes.
    for reached in [
        InitializeStep::FindCli,
        InitializeStep::CheckFolderExists,
        InitializeStep::CheckFolderIsDirectory,
        InitializeStep::EnterFolder,
        InitializeStep::LoadTestCases,
    ] {
        generator.initialize(reached, vec![]);
        let cases = generator.build().unwrap();
        assert_eq!(cases.len(), 1);
        assert_eq!(cases[0].test_case_folder(), "first");
    }
    // The node does not start: the new test cases are kept, and the generator stays initialized.
    generator.initialize(InitializeStep::StartLocalNode, vec![case("second"), case("third")]);
    let cases = generator.build().unwrap();
    assert_eq!(cases.len(), 2);
    assert_eq!(cases[0].test_case_folder(), "second");
    generator.initialize(InitializeStep::InitAccount, vec![]);
    assert_eq!(generator.build().unwrap().len(), 0);
}

#[test]
fn the_local_node_is_started_with_fixed_arguments() {
    assert_eq!(
        node_arguments(None),
        vec!["node", "run-local-testnet", "--force-restart", "--assume-yes"]
    );
    assert_eq!(
        node_arguments(Some(&"node.yaml".to_string())),
        vec!["node", "run-local-testnet", "--force-restart", "--assume-yes", "--config", "node.yaml"]
    );
    assert_eq!(account_arguments(), vec!["init", "--network", "local", "--assume-yes"]);
    assert_eq!(LocalNodeError::CannotSpawn.message(), "Failed to start local node.");
    assert_eq!(LocalNodeError::DidNotStart.message(), "Local node did not start.");
}

#[test]
fn errors_of_loading_have_their_texts() {
    assert_eq!(
        LoadError::NoMoveFiles.message("\"case\""),
        "No move files found in the test case folder at \"case\"."
    );
    assert_eq!(
        LoadError::NotConsecutive.message("\"case\""),
        "Move files are not consecutive \"case\"."
    );
    assert_eq!(
        LoadError::InvalidStepIndex(3).message("\"case\""),
        "Step number is not a number at entry 3 of \"case\"."
    );
    assert_eq!(
        LoadError::MissingExtension(12).message("\"case\""),
        "File has no extension at entry 12 of \"case\"."
    );
}

#[test]
fn a_failed_creation_of_the_account_says_what_the_tool_wrote() {
    assert_eq!(AccountCreation::Created.message("x"), None);
    assert_eq!(
        AccountCreation::Failed.message("\"no funds\""),
        Some("Account creation failed with error: \"no funds\"".to_string())
    );
    assert_eq!(
        AccountCreation::NotAwaited.message("Kind(Other)"),
        Some("Account creation failed: Kind(Other)".to_string())
    );
}

#[test]
fn the_local_node_is_asked_two_hundred_times() {
    assert_eq!(NODE_HEALTH_CHECK_COUNT, 200);
    assert_eq!(after_health_check(0, true), HealthDecision::Ready);
    assert_eq!(after_health_check(199, true), HealthDecision::Ready);
    assert_eq!(after_health_check(0, false), HealthDecision::SleepAndRetry);
    assert_eq!(after_health_check(198, false), HealthDecision::SleepAndRetry);
    assert_eq!(after_health_check(199, false), HealthDecision::GiveUp);
    assert_eq!(after_health_check(u32::MAX, false), HealthDecision::GiveUp);
}

#[test]
fn names_of_the_generator_are_fixed() {
    assert_eq!(MOVE_FIXTURES_DIR, "move_fixtures");
    assert_eq!(APTOS_CLI_BINARY_NAME, "aptos");
    assert_eq!(GENERATED_PROTOBUF_FOLDER, "generated");
    assert_eq!(LOCAL_FAUCET_URL, "http://127.0.0.1:8081");
}

#[test]
fn a_move_file_is_submitted_as_a_script() {
    assert_eq!(
        submit_arguments(&simple("0_a.move")),
        Some(vec![
            "move".to_string(),
            "run-script".to_string(),
            "--script-path".to_string(),
            "case/0_a.move".to_string(),
            "--assume-yes".to_string(),
        ])
    );
    assert_eq!(submit_arguments(&directory("1_b")), None);
}

#[test]
fn an_account_is_created_where_the_tool_ends_well() {
    assert_eq!(account_creation(true, true), AccountCreation::Created);
    assert_eq!(account_creation(true, false), AccountCreation::Failed);
    assert_eq!(account_creation(false, true), AccountCreation::NotAwaited);
    assert_eq!(account_creation(false, false), AccountCreation::NotAwaited);
}

#[test]
fn test_load_test_case() {
    // The folder of a simple test case: two Move files, one for each step.
    let entries = vec![file("0_first_step.move"), file("1_second_step.move")];
    let test_case = TestCase::load("fixtures/simple_move_test".to_string(), &entries).unwrap();
    assert_eq!(test_case.move_sources().len(), 2);
}

#[test]
fn the_order_in_which_a_folder_is_listed_does_not_matter() {
    let names = ["2_c.move", "notes.txt", "0_a.move", "1_b", "3_d.move"];
    let entry = |name: &str| if name == "1_b" { folder(name) } else { file(name) };
    let expected = vec![simple("0_a.move"), directory("1_b"), simple("2_c.move"), simple("3_d.move")];
    // Every rotation and its reverse.
    for shift in 0..names.len() {
        let mut listing: Vec<&str> = names.iter().cycle().skip(shift).take(names.len()).copied().collect();
        for _ in 0..2 {
            let entries: Vec<FolderEntry> = listing.iter().map(|name| entry(name)).collect();
            let test_case = TestCase::load("case".to_string(), &entries).unwrap();
            assert_eq!(test_case.move_sources(), &expected);
            listing.reverse();
        }
    }
    let gap = ["0_a.move", "2_c.move", "3_d.move"];
    for shift in 0..gap.len() {
        let entries: Vec<FolderEntry> =
            gap.iter().cycle().skip(shift).take(gap.len()).map(|name| file(name)).collect();
        assert_eq!(
            TestCase::load("case".to_string(), &entries).err(),
            Some(LoadError::NotConsecutive)
        );
    }
}

#[test]
fn errors_of_looking_through_folders_have_their_texts() {
    let shown = "\"cases/a\"";
    assert_eq!(
        FolderError::NotAFolder.message(shown),
        "Test case folder does not exist or path is not a folder at path \"cases/a\"."
    );
    assert_eq!(
        FolderError::CannotScan.message(shown),
        "Failed to scan test case folder at path \"cases/a\""
    );
    assert_eq!(
        FolderError::CannotScanEntry.message(shown),
        "Failed to scan move files for one test case."
    );
    assert_eq!(
        FolderError::NoMainFolder.message("\"/what/ever/folder\""),
        "Main test case folder does not exist or path is not a folder at path \"/what/ever/folder\""
    );
    assert_eq!(
        FolderError::CannotScanMainFolder.message(shown),
        "Failed to scan test cases due to FS issue."
    );
    assert_eq!(FolderError::TestCaseFailed.message(shown), "One test case loading failed.");
    assert_eq!(SubmitError::CannotExecute.message(), "Failed to execute move file.");
    assert_eq!(SubmitError::ExecutionFailed.message(), "Test case execution failed.");
    assert_eq!(SubmitError::CannotParseOutput.message(), "Failed to parse aptos output.");
}
