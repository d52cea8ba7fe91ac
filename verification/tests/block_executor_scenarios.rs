use aptos_core::block_executor::executor::{BlockExecutor, ValidationResult};
use aptos_core::block_executor::executor_model::RemoteDependency;
use aptos_core::block_executor::txn_last_input_output::ReadDescriptor;
use aptos_core::block_executor::types::{
    HaltReason, NextAction, SchedulerTask, TxnStatus, Version, WriteOp,
};
use aptos_core::block_executor::versioned_store::ReadResult;

const KEY_A: u64 = 1;
const KEY_B: u64 = 2;
const KEY_C: u64 = 3;

fn read_of(executor: &BlockExecutor, key: u64, idx: u32) -> ReadDescriptor {
    ReadDescriptor { key, observed: executor.read(key, idx) }
}

#[test]
fn reader_of_a_reexecuted_transaction_is_validated_again() {
    let mut executor = BlockExecutor::new(vec![true, true, true], &vec![]).unwrap();
    assert_eq!(executor.next_task(), SchedulerTask::Execute(0, 0));
    assert_eq!(executor.next_task(), SchedulerTask::Execute(1, 0));
    assert_eq!(executor.next_task(), SchedulerTask::Execute(2, 0));

    // Transaction 0 writes A = 10, transaction 1 writes C = 5.
    assert_eq!(
        executor.finish_execution(0, 0, vec![], vec![WriteOp { key: KEY_A, value: 10 }]),
        NextAction::Nothing
    );
    assert_eq!(
        executor.finish_execution(1, 0, vec![], vec![WriteOp { key: KEY_C, value: 5 }]),
        NextAction::Nothing
    );

    // Transaction 2 reads A from the first incarnation of 0 and writes B = A + 1.
    let read = read_of(&executor, KEY_A, 2);
    assert_eq!(
        read.observed,
        ReadResult::Resolved(Version { txn_idx: 0, incarnation: 0 }, 10)
    );
    executor.finish_execution(2, 0, vec![read], vec![WriteOp { key: KEY_B, value: 11 }]);

    // The first incarnation of 0 is given up; it is executed again at once.
    assert_eq!(executor.next_task(), SchedulerTask::Validate(0, 0));
    assert_eq!(executor.finish_validation(0, 0, false), NextAction::Execute(0, 1));
    assert_eq!(executor.read(KEY_A, 2), ReadResult::Dependency(0));
    assert_eq!(executor.try_validate(2, 0), ValidationResult::Invalid);

    // The second incarnation writes A = 20. It writes no key that the first
    // had not written, so the worker validates it itself.
    assert_eq!(
        executor.finish_execution(0, 1, vec![], vec![WriteOp { key: KEY_A, value: 20 }]),
        NextAction::Validate(0, 1)
    );
    assert_eq!(executor.try_validate(2, 0), ValidationResult::Invalid);

    // Validation goes on in index order; a success claimed for 2 is not taken.
    assert_eq!(executor.finish_validation(0, 1, true), NextAction::Nothing);
    assert_eq!(executor.scheduler().commit_idx(), 1);
    assert_eq!(executor.next_task(), SchedulerTask::Validate(1, 0));
    assert_eq!(executor.finish_validation(1, 0, true), NextAction::Nothing);
    assert_eq!(executor.scheduler().commit_idx(), 2);
    assert_eq!(executor.next_task(), SchedulerTask::Validate(2, 0));
    assert_eq!(executor.finish_validation(2, 0, true), NextAction::Execute(2, 1));
    assert_eq!(executor.scheduler().commit_idx(), 2);
    assert_eq!(executor.scheduler().status(2), Some(TxnStatus::Executing));

    // The second incarnation of 2 sees the second incarnation of 0.
    let read = read_of(&executor, KEY_A, 2);
    assert_eq!(
        read.observed,
        ReadResult::Resolved(Version { txn_idx: 0, incarnation: 1 }, 20)
    );
    assert_eq!(
        executor.finish_execution(2, 1, vec![read], vec![WriteOp { key: KEY_B, value: 21 }]),
        NextAction::Validate(2, 1)
    );
    assert_eq!(executor.finish_validation(2, 1, true), NextAction::Nothing);
    assert_eq!(executor.next_task(), SchedulerTask::Done);
    assert_eq!(
        executor.read(KEY_B, 3),
        ReadResult::Resolved(Version { txn_idx: 2, incarnation: 1 }, 21)
    );
    assert_eq!(executor.committed_writes(2).unwrap(), &vec![WriteOp { key: KEY_B, value: 21 }]);
}

#[test]
fn local_transaction_waits_for_the_value_of_another_shard() {
    let deps = vec![RemoteDependency { txn_idx: 0, key: KEY_A }];
    let mut executor = BlockExecutor::new(vec![false, true], &deps).unwrap();
    assert_eq!(executor.scheduler().status(0), Some(TxnStatus::Executing));

    assert_eq!(executor.next_task(), SchedulerTask::Execute(1, 0));
    assert_eq!(executor.read(KEY_A, 1), ReadResult::Dependency(0));
    assert!(executor.wait_for_dependency(1, 0));
    assert_eq!(executor.scheduler().status(1), Some(TxnStatus::Aborting(0)));
    assert_eq!(executor.next_task(), SchedulerTask::Wait);

    // A value that is not awaited is not taken in.
    assert!(!executor.on_remote_write(0, KEY_B, 7));
    assert_eq!(executor.next_task(), SchedulerTask::Wait);

    // The awaited value arrives: the waiting transaction is ready again.
    assert!(executor.on_remote_write(0, KEY_A, 42));
    assert!(!executor.on_remote_write(0, KEY_A, 43));
    assert_eq!(executor.scheduler().status(0), Some(TxnStatus::Committed));
    assert_eq!(executor.scheduler().status(1), Some(TxnStatus::PendingExecution));
    assert_eq!(executor.next_task(), SchedulerTask::Execute(1, 1));
    let read = read_of(&executor, KEY_A, 1);
    assert_eq!(
        read.observed,
        ReadResult::Resolved(Version { txn_idx: 0, incarnation: 0 }, 42)
    );
    executor.finish_execution(1, 1, vec![read], vec![WriteOp { key: KEY_B, value: 43 }]);
    assert_eq!(executor.next_task(), SchedulerTask::Validate(1, 1));
    assert_eq!(executor.finish_validation(1, 1, true), NextAction::Nothing);
    assert_eq!(executor.next_task(), SchedulerTask::Done);
    assert_eq!(executor.committed_writes(1).unwrap(), &vec![WriteOp { key: KEY_B, value: 43 }]);
    assert!(executor.committed_writes(0).is_none());
}

#[test]
fn nothing_is_committed_past_the_validated_prefix_after_a_fatal_error() {
    let mut executor = BlockExecutor::new(vec![true, true, true], &vec![]).unwrap();
    assert_eq!(executor.next_task(), SchedulerTask::Execute(0, 0));
    assert_eq!(executor.next_task(), SchedulerTask::Execute(1, 0));
    assert_eq!(executor.next_task(), SchedulerTask::Execute(2, 0));
    executor.finish_execution(0, 0, vec![], vec![WriteOp { key: KEY_A, value: 1 }]);
    executor.finish_execution(2, 0, vec![], vec![WriteOp { key: KEY_C, value: 3 }]);
    assert_eq!(executor.next_task(), SchedulerTask::Validate(0, 0));
    assert_eq!(executor.finish_validation(0, 0, true), NextAction::Nothing);
    assert_eq!(executor.scheduler().commit_idx(), 1);
    assert_eq!(executor.next_task(), SchedulerTask::Validate(2, 0));

    // Transaction 1 fails for good while the validation of 2 is under way.
    executor.fail_execution(1, 0, 77);
    assert_eq!(executor.scheduler().halted(), Some(HaltReason::FatalExecution(77)));
    assert_eq!(executor.finish_validation(2, 0, true), NextAction::Nothing);
    assert!(executor.scheduler().is_validated(2));

    assert_eq!(executor.scheduler().commit_idx(), 1);
    assert_eq!(executor.scheduler().status(0), Some(TxnStatus::Committed));
    assert_eq!(executor.scheduler().status(2), Some(TxnStatus::Executed(0)));
    assert!(executor.committed_writes(0).is_some());
    assert!(executor.committed_writes(1).is_none());
    assert!(executor.committed_writes(2).is_none());
    assert_eq!(
        executor.next_task(),
        SchedulerTask::Halt(HaltReason::FatalExecution(77))
    );
}
