use aptos_core::block_executor::executor::BlockExecutor;
use aptos_core::block_executor::executor_model::RemoteDependency;
use aptos_core::block_executor::types::{
    HaltReason, NextAction, SchedulerTask, TxnStatus, WriteOp,
};
use aptos_core::block_executor::txn_last_input_output::ReadDescriptor;
use aptos_core::block_executor::types::Version;
use aptos_core::block_executor::versioned_store::ReadResult;
use aptos_core::block_executor::worker::{
    note_read, perform_validation, report_execution, run_worker, take_task, ExecutionStatus,
    LatestView, TransactionExecutor, ViewRead, WorkerExit,
};

/// Transaction `i` reads key `i` and writes what it found, plus one, to key `i + 1`.
struct Chain {
    /// The transaction that fails for good, if any.
    fatal: Option<u32>,
    /// The transaction whose first incarnation is given up, if any.
    shaky: Option<u32>,
}

impl TransactionExecutor for Chain {
    fn execute(&self, txn_idx: u32, incarnation: u32, view: &mut LatestView<'_>) -> ExecutionStatus {
        if self.fatal == Some(txn_idx) {
            return ExecutionStatus::Fatal(40 + txn_idx as u64);
        }
        if self.shaky == Some(txn_idx) && incarnation == 0 {
            return ExecutionStatus::SpeculativeAbort;
        }
        match view.read(txn_idx as u64) {
            ViewRead::Value(v) => {
                ExecutionStatus::Success(vec![WriteOp { key: txn_idx as u64 + 1, value: v + 1 }])
            },
            ViewRead::FromStorage => {
                ExecutionStatus::Success(vec![WriteOp { key: txn_idx as u64 + 1, value: 1 }])
            },
            ViewRead::Blocked(_) => ExecutionStatus::SpeculativeAbort,
        }
    }
}

#[test]
fn a_chain_of_transactions_is_executed_in_order() {
    let mut executor = BlockExecutor::new(vec![true; 5], &vec![]).unwrap();
    let report = run_worker(&mut executor, &Chain { fatal: None, shaky: None }, NextAction::Nothing, 100);
    assert_eq!(report.exit, WorkerExit::Done);
    assert_eq!(report.tasks, 10);
    for key in 1..=5 {
        assert_eq!(executor.final_value(key), Some(key));
    }
    assert_eq!(executor.final_value(0), None);
}

#[test]
fn a_worker_comes_back_when_its_tasks_are_spent() {
    let vm = Chain { fatal: None, shaky: None };
    let mut executor = BlockExecutor::new(vec![true; 3], &vec![]).unwrap();
    let report = run_worker(&mut executor, &vm, NextAction::Nothing, 3);
    assert_eq!(report.exit, WorkerExit::OutOfTasks);
    assert_eq!(report.tasks, 3);
    let rest = run_worker(&mut executor, &vm, report.pending, 100);
    assert_eq!(rest.exit, WorkerExit::Done);
    assert_eq!(rest.tasks, 3);
    assert_eq!(executor.final_value(3), Some(3));
}

#[test]
fn a_failure_that_no_retry_mends_stops_the_block() {
    let vm = Chain { fatal: Some(2), shaky: None };
    let mut executor = BlockExecutor::new(vec![true; 4], &vec![]).unwrap();
    let report = run_worker(&mut executor, &vm, NextAction::Nothing, 100);
    assert_eq!(report.exit, WorkerExit::Halted(HaltReason::FatalExecution(42)));
    assert_eq!(report.pending, NextAction::Nothing);
    // Transactions 0 and 1 ran and were committed before 2 was tried.
    assert_eq!(executor.scheduler().commit_idx(), 2);
    assert_eq!(executor.scheduler().status(2), Some(TxnStatus::Executing));
    assert_eq!(executor.scheduler().status(3), Some(TxnStatus::PendingExecution));
    assert_eq!(executor.final_value(2), Some(2));
    assert_eq!(executor.final_value(3), None);
    let again = run_worker(&mut executor, &vm, NextAction::Nothing, 100);
    assert_eq!(again.exit, WorkerExit::Halted(HaltReason::FatalExecution(42)));
    assert_eq!(again.tasks, 0);
}

#[test]
fn an_execution_that_is_given_up_is_tried_again() {
    let vm = Chain { fatal: None, shaky: Some(1) };
    let mut executor = BlockExecutor::new(vec![true; 2], &vec![]).unwrap();
    let report = run_worker(&mut executor, &vm, NextAction::Nothing, 100);
    assert_eq!(report.exit, WorkerExit::Done);
    // Two executions of 1, one of 0, and a validation of each.
    assert_eq!(report.tasks, 5);
    assert_eq!(executor.scheduler().incarnation(0), Some(0));
    assert_eq!(executor.scheduler().incarnation(1), Some(1));
    assert_eq!(executor.final_value(2), Some(2));
}

#[test]
fn a_worker_is_idle_while_an_output_is_awaited() {
    let vm = Chain { fatal: None, shaky: None };
    let deps = vec![RemoteDependency { txn_idx: 0, key: 1 }];
    let mut executor = BlockExecutor::new(vec![false, true], &deps).unwrap();
    let report = run_worker(&mut executor, &vm, NextAction::Nothing, 100);
    assert_eq!(report.exit, WorkerExit::Idle);
    assert_eq!(report.tasks, 1);
    assert_eq!(executor.scheduler().status(1), Some(TxnStatus::Aborting(0)));
    assert!(executor.on_remote_write(0, 1, 10));
    let report = run_worker(&mut executor, &vm, NextAction::Nothing, 100);
    assert_eq!(report.exit, WorkerExit::Done);
    assert_eq!(report.tasks, 2);
    assert_eq!(executor.final_value(2), Some(11));
}

#[test]
fn a_blocked_execution_is_retried_where_the_blocker_has_finished() {
    let mut executor = BlockExecutor::new(vec![true, true], &vec![]).unwrap();
    assert_eq!(executor.next_task(), SchedulerTask::Execute(0, 0));
    assert_eq!(executor.next_task(), SchedulerTask::Execute(1, 0));
    executor.finish_execution(0, 0, vec![], vec![]);
    // Transaction 1 reports that 0 blocked it, but 0 has finished: it is ready again.
    let action = report_execution(&mut executor, 1, 0, vec![], Some(0), ExecutionStatus::SpeculativeAbort);
    assert_eq!(action, NextAction::Nothing);
    assert_eq!(executor.scheduler().status(1), Some(TxnStatus::PendingExecution));
    assert_eq!(executor.scheduler().incarnation(1), Some(1));
    assert_eq!(executor.scheduler().halted(), None);
}

#[test]
fn a_report_of_a_block_by_a_higher_transaction_stops_the_block() {
    let mut executor = BlockExecutor::new(vec![true, true], &vec![]).unwrap();
    assert_eq!(executor.next_task(), SchedulerTask::Execute(0, 0));
    report_execution(&mut executor, 0, 0, vec![], Some(1), ExecutionStatus::SpeculativeAbort);
    assert_eq!(executor.scheduler().halted(), Some(HaltReason::InvariantViolation));

    let mut executor = BlockExecutor::new(vec![true, true], &vec![]).unwrap();
    report_execution(&mut executor, 0, 0, vec![], None, ExecutionStatus::Success(vec![]));
    assert_eq!(executor.scheduler().halted(), Some(HaltReason::InvariantViolation));
    assert_eq!(executor.scheduler().status(0), Some(TxnStatus::PendingExecution));
}

#[test]
fn a_worker_with_empty_hands_says_why_there_is_nothing_to_do() {
    let vm = Chain { fatal: None, shaky: None };
    // The block has stopped.
    let mut executor = BlockExecutor::new(vec![true; 2], &vec![]).unwrap();
    executor.halt(HaltReason::DependencyTimeout(1));
    let report = run_worker(&mut executor, &vm, NextAction::Nothing, 5);
    assert_eq!(report.exit, WorkerExit::Halted(HaltReason::DependencyTimeout(1)));
    assert_eq!((report.tasks, report.pending), (0, NextAction::Nothing));
    // The block is done.
    let mut executor = BlockExecutor::new(vec![], &vec![]).unwrap();
    let report = run_worker(&mut executor, &vm, NextAction::Nothing, 5);
    assert_eq!(report.exit, WorkerExit::Done);
    assert_eq!((report.tasks, report.pending), (0, NextAction::Nothing));
    // Every task is with another worker.
    let mut executor = BlockExecutor::new(vec![true], &vec![]).unwrap();
    assert_eq!(executor.next_task(), SchedulerTask::Execute(0, 0));
    let report = run_worker(&mut executor, &vm, NextAction::Nothing, 5);
    assert_eq!(report.exit, WorkerExit::Idle);
    assert_eq!((report.tasks, report.pending), (0, NextAction::Nothing));
    assert_eq!(executor.scheduler().status(0), Some(TxnStatus::Executing));
}

#[test]
fn a_validation_in_hand_is_performed() {
    let vm = Chain { fatal: None, shaky: None };
    let mut executor = BlockExecutor::new(vec![true, true], &vec![]).unwrap();
    assert_eq!(executor.next_task(), SchedulerTask::Execute(0, 0));
    executor.finish_execution(0, 0, vec![], vec![WriteOp { key: 1, value: 1 }]);
    assert_eq!(executor.next_task(), SchedulerTask::Validate(0, 0));
    let report = run_worker(&mut executor, &vm, NextAction::Validate(0, 0), 1);
    assert_eq!(report.exit, WorkerExit::OutOfTasks);
    assert_eq!((report.tasks, report.pending), (1, NextAction::Nothing));
    assert_eq!(executor.scheduler().status(0), Some(TxnStatus::Committed));
    assert_eq!(executor.scheduler().commit_idx(), 1);
    // A validation for an incarnation that is not the executed one changes nothing.
    let report = run_worker(&mut executor, &vm, NextAction::Validate(1, 0), 1);
    assert_eq!((report.exit, report.tasks), (WorkerExit::OutOfTasks, 1));
    assert_eq!(executor.scheduler().status(1), Some(TxnStatus::PendingExecution));
}

#[test]
fn reads_that_resolve_are_noted_and_the_first_block_is_kept() {
    let mut reads = Vec::new();
    let mut blocked_on = None;
    let resolved = ReadResult::Resolved(Version { txn_idx: 1, incarnation: 2 }, 30);
    assert_eq!(note_read(&mut reads, &mut blocked_on, 7, resolved), ViewRead::Value(30));
    assert_eq!(
        note_read(&mut reads, &mut blocked_on, 8, ReadResult::NotFound),
        ViewRead::FromStorage
    );
    assert_eq!(
        note_read(&mut reads, &mut blocked_on, 9, ReadResult::Dependency(4)),
        ViewRead::Blocked(4)
    );
    assert_eq!(
        note_read(&mut reads, &mut blocked_on, 9, ReadResult::Dependency(2)),
        ViewRead::Blocked(2)
    );
    assert_eq!(
        reads,
        vec![
            ReadDescriptor { key: 7, observed: resolved },
            ReadDescriptor { key: 8, observed: ReadResult::NotFound },
        ]
    );
    assert_eq!(blocked_on, Some(4));
}

#[test]
fn a_task_is_the_one_in_hand_or_the_next_of_the_executor() {
    let mut executor = BlockExecutor::new(vec![true, true], &vec![]).unwrap();
    assert_eq!(take_task(&mut executor, NextAction::Execute(1, 5)), SchedulerTask::Execute(1, 5));
    assert_eq!(take_task(&mut executor, NextAction::Validate(0, 3)), SchedulerTask::Validate(0, 3));
    assert_eq!(executor.scheduler().status(0), Some(TxnStatus::PendingExecution));
    assert_eq!(take_task(&mut executor, NextAction::Nothing), SchedulerTask::Execute(0, 0));
    assert_eq!(executor.scheduler().status(0), Some(TxnStatus::Executing));
}

#[test]
fn a_validation_task_checks_the_reads_and_records_the_outcome() {
    let mut executor = BlockExecutor::new(vec![true, true], &vec![]).unwrap();
    assert_eq!(executor.next_task(), SchedulerTask::Execute(0, 0));
    assert_eq!(executor.next_task(), SchedulerTask::Execute(1, 0));
    // Transaction 1 read key 1 before transaction 0 wrote it.
    let stale = ReadDescriptor { key: 1, observed: ReadResult::NotFound };
    executor.finish_execution(1, 0, vec![stale], vec![]);
    executor.finish_execution(0, 0, vec![], vec![WriteOp { key: 1, value: 1 }]);
    assert_eq!(executor.next_task(), SchedulerTask::Validate(0, 0));
    assert_eq!(perform_validation(&mut executor, 0, 0), NextAction::Nothing);
    assert_eq!(executor.scheduler().status(0), Some(TxnStatus::Committed));
    // The validation of 1 fails: it is executed again at once.
    assert_eq!(executor.next_task(), SchedulerTask::Validate(1, 0));
    assert_eq!(perform_validation(&mut executor, 1, 0), NextAction::Execute(1, 1));
    assert_eq!(executor.scheduler().status(1), Some(TxnStatus::Executing));
    // A task for the old incarnation changes nothing.
    assert_eq!(perform_validation(&mut executor, 1, 0), NextAction::Nothing);
    assert_eq!(executor.scheduler().status(1), Some(TxnStatus::Executing));
}
