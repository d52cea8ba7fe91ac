use aptos_core::block_executor::executor::{BlockExecutor, SetupError, ValidationResult};
use aptos_core::block_executor::executor_model::RemoteDependency;
use aptos_core::block_executor::scheduler::Scheduler;
use aptos_core::block_executor::sharding::{
    BlockSTMPlugin, CommitNotification, DefaultPlugin, InterShardDependency, RemoteWrite,
    ShardingPlugin,
};
use aptos_core::block_executor::txn_last_input_output::{ReadDescriptor, TxnLastInputOutput};
use aptos_core::block_executor::txn_provider::{
    provider_flags, DefaultTxnProvider, PartitionError, ShardedTxnProvider, TxnIndexProvider,
};
use aptos_core::block_executor::types::{
    HaltReason, NextAction, SchedulerTask, TxnStatus, Version, WriteOp,
};
use aptos_core::block_executor::versioned_store::{Cell, ReadResult, VersionedStore};
use aptos_core::block_executor::worker::{LatestView, ViewRead};

#[test]
fn a_write_replaces_the_cell_of_its_transaction_only() {
    let mut store = VersionedStore::new();
    store.write(1, 5, 0, 50);
    store.write(1, 2, 0, 20);
    store.write(1, 9, 0, 90);
    store.write(2, 5, 0, 55);
    store.write(1, 5, 1, 51);
    assert_eq!(store.get(1, 5), Some(Cell { incarnation: 1, value: 51, estimate: false }));
    assert_eq!(store.get(1, 2), Some(Cell { incarnation: 0, value: 20, estimate: false }));
    assert_eq!(store.get(1, 9), Some(Cell { incarnation: 0, value: 90, estimate: false }));
    assert_eq!(store.get(2, 5), Some(Cell { incarnation: 0, value: 55, estimate: false }));
    assert_eq!(store.get(1, 3), None);
    assert_eq!(store.get(3, 5), None);
    assert_eq!(
        store.read(1, 9),
        ReadResult::Resolved(Version { txn_idx: 5, incarnation: 1 }, 51)
    );
    assert_eq!(
        store.read(1, u32::MAX),
        ReadResult::Resolved(Version { txn_idx: 9, incarnation: 0 }, 90)
    );
}

#[test]
fn an_estimate_makes_readers_wait_until_it_is_written_or_removed() {
    let mut store = VersionedStore::new();
    store.write(1, 2, 0, 20);
    store.write(1, 5, 0, 50);
    assert!(store.mark_estimate(1, 5));
    assert!(!store.mark_estimate(1, 4));
    assert!(!store.mark_estimate(7, 5));
    assert_eq!(store.get(1, 5), Some(Cell { incarnation: 0, value: 50, estimate: true }));
    assert_eq!(store.read(1, 6), ReadResult::Dependency(5));
    assert_eq!(
        store.read(1, 5),
        ReadResult::Resolved(Version { txn_idx: 2, incarnation: 0 }, 20)
    );
    store.write(1, 5, 1, 51);
    assert_eq!(
        store.read(1, 6),
        ReadResult::Resolved(Version { txn_idx: 5, incarnation: 1 }, 51)
    );
    assert!(store.mark_estimate(1, 5));
    assert!(store.remove(1, 5));
    assert!(!store.remove(1, 5));
    assert!(!store.remove(9, 9));
    assert_eq!(
        store.read(1, 6),
        ReadResult::Resolved(Version { txn_idx: 2, incarnation: 0 }, 20)
    );
    assert!(store.remove(1, 2));
    assert_eq!(store.read(1, 6), ReadResult::NotFound);
}

#[test]
fn the_tracker_keeps_the_last_record_until_it_is_final() {
    let mut tracker = TxnLastInputOutput::new(2);
    assert!(tracker.read_set(0).is_none());
    assert!(tracker.write_set(0).is_none());
    assert_eq!(tracker.incarnation(0), None);
    assert!(!tracker.on_commit(0));
    assert!(!tracker.record(2, 0, vec![], vec![]));

    let read = ReadDescriptor { key: 4, observed: ReadResult::NotFound };
    assert!(tracker.record(0, 0, vec![read], vec![WriteOp { key: 1, value: 10 }]));
    assert_eq!(tracker.read_set(0).unwrap(), &vec![read]);
    assert_eq!(tracker.write_set(0).unwrap(), &vec![WriteOp { key: 1, value: 10 }]);
    assert_eq!(tracker.incarnation(0), Some(0));

    assert!(tracker.record(0, 3, vec![], vec![WriteOp { key: 2, value: 20 }]));
    assert_eq!(tracker.read_set(0).unwrap(), &vec![]);
    assert_eq!(tracker.write_set(0).unwrap(), &vec![WriteOp { key: 2, value: 20 }]);
    assert_eq!(tracker.incarnation(0), Some(3));
    assert!(tracker.read_set(1).is_none());

    assert!(tracker.on_commit(0));
    assert!(!tracker.on_commit(0));
    assert!(!tracker.record(0, 4, vec![], vec![]));
    assert_eq!(tracker.incarnation(0), Some(3));
    assert!(!tracker.on_commit(2));
}

#[test]
fn tasks_go_to_the_lowest_transaction() {
    let mut scheduler = Scheduler::new(vec![true, true, true], &vec![]).unwrap();
    assert_eq!(scheduler.num_txns(), 3);
    assert_eq!(scheduler.next_task(), SchedulerTask::Execute(0, 0));
    assert_eq!(scheduler.next_task(), SchedulerTask::Execute(1, 0));
    // 1 finishes first: its validation comes before the execution of 2.
    assert_eq!(scheduler.finish_execution(1, 0, true), NextAction::Nothing);
    assert_eq!(scheduler.next_task(), SchedulerTask::Validate(1, 0));
    assert_eq!(scheduler.next_task(), SchedulerTask::Execute(2, 0));
    assert_eq!(scheduler.next_task(), SchedulerTask::Wait);
    // 0 finishes with new keys: everything from 0 on is validated again.
    assert_eq!(scheduler.finish_execution(0, 0, true), NextAction::Nothing);
    assert_eq!(scheduler.validation_idx(), 0);
    assert_eq!(scheduler.next_task(), SchedulerTask::Validate(0, 0));
    assert_eq!(scheduler.next_task(), SchedulerTask::Validate(1, 0));
    assert_eq!(scheduler.next_task(), SchedulerTask::Wait);
    assert_eq!(scheduler.execution_idx(), 3);
    assert_eq!(scheduler.validation_idx(), 2);
}

#[test]
fn validated_transactions_are_committed_in_index_order() {
    let mut scheduler = Scheduler::new(vec![true, true, true], &vec![]).unwrap();
    for idx in 0..3 {
        assert_eq!(scheduler.next_task(), SchedulerTask::Execute(idx, 0));
    }
    for idx in [2, 1, 0] {
        scheduler.finish_execution(idx, 0, true);
    }
    for idx in 0..3 {
        assert_eq!(scheduler.next_task(), SchedulerTask::Validate(idx, 0));
    }
    assert_eq!(scheduler.finish_validation(2, 0, true), NextAction::Nothing);
    assert!(scheduler.is_validated(2));
    assert_eq!(scheduler.commit_idx(), 0);
    assert_eq!(scheduler.finish_validation(1, 0, true), NextAction::Nothing);
    assert_eq!(scheduler.commit_idx(), 0);
    assert!(!scheduler.is_done());
    assert_eq!(scheduler.finish_validation(0, 0, true), NextAction::Nothing);
    assert_eq!(scheduler.commit_idx(), 3);
    assert!(scheduler.is_done());
    for idx in 0..3 {
        assert_eq!(scheduler.status(idx), Some(TxnStatus::Committed));
    }
    assert_eq!(scheduler.next_task(), SchedulerTask::Done);
    assert_eq!(scheduler.status(3), None);
    assert_eq!(scheduler.incarnation(3), None);
}

#[test]
fn a_failed_validation_starts_the_next_incarnation() {
    let mut scheduler = Scheduler::new(vec![true, true], &vec![]).unwrap();
    assert_eq!(scheduler.next_task(), SchedulerTask::Execute(0, 0));
    scheduler.finish_execution(0, 0, true);
    assert_eq!(scheduler.next_task(), SchedulerTask::Validate(0, 0));
    // The execution cursor has passed 0: the worker executes it again itself.
    assert_eq!(scheduler.finish_validation(0, 0, false), NextAction::Execute(0, 1));
    assert_eq!(scheduler.status(0), Some(TxnStatus::Executing));
    assert_eq!(scheduler.incarnation(0), Some(1));
    // A report on the old incarnation changes nothing.
    assert_eq!(scheduler.finish_validation(0, 0, true), NextAction::Nothing);
    assert_eq!(scheduler.status(0), Some(TxnStatus::Executing));
    assert_eq!(scheduler.finish_execution(0, 1, false), NextAction::Validate(0, 1));
    assert_eq!(scheduler.status(0), Some(TxnStatus::Executed(1)));
}

#[test]
fn a_waiting_transaction_is_woken_with_its_next_incarnation() {
    let mut scheduler = Scheduler::new(vec![true, true, true], &vec![]).unwrap();
    for idx in 0..3 {
        assert_eq!(scheduler.next_task(), SchedulerTask::Execute(idx, 0));
    }
    assert_eq!(scheduler.first_waiting(), None);
    assert!(scheduler.wait_for_dependency(2, 0));
    assert_eq!(scheduler.first_waiting(), Some(2));
    assert!(scheduler.wait_for_dependency(1, 0));
    assert_eq!(scheduler.first_waiting(), Some(1));
    assert_eq!(scheduler.status(2), Some(TxnStatus::Aborting(0)));
    assert_eq!(scheduler.next_task(), SchedulerTask::Wait);
    scheduler.finish_execution(0, 0, true);
    assert_eq!(scheduler.first_waiting(), None);
    assert_eq!(scheduler.status(1), Some(TxnStatus::PendingExecution));
    assert_eq!(scheduler.status(2), Some(TxnStatus::PendingExecution));
    assert_eq!(scheduler.incarnation(1), Some(1));
    assert_eq!(scheduler.incarnation(2), Some(1));
    assert_eq!(scheduler.execution_idx(), 1);
    assert_eq!(scheduler.next_task(), SchedulerTask::Validate(0, 0));
    assert_eq!(scheduler.next_task(), SchedulerTask::Execute(1, 1));
    // 0 has finished: a wait for it is not registered.
    assert!(!scheduler.wait_for_dependency(1, 0));
    assert_eq!(scheduler.status(1), Some(TxnStatus::Executing));
    assert!(scheduler.is_resolved(0));
    assert!(!scheduler.is_resolved(1));
    assert!(!scheduler.is_resolved(7));
}

#[test]
fn reports_that_fit_no_task_stop_the_block() {
    let reports: Vec<fn(&mut Scheduler)> = vec![
        |s| {
            s.finish_execution(1, 0, false);
        },
        |s| {
            s.finish_execution(0, 1, false);
        },
        |s| {
            s.finish_execution(9, 0, false);
        },
        |s| s.retry_execution(1, 0),
        |s| {
            s.wait_for_dependency(1, 0);
        },
        |s| {
            s.wait_for_dependency(0, 0);
        },
        |s| {
            s.wait_for_dependency(0, 1);
        },
    ];
    for report in reports {
        let mut scheduler = Scheduler::new(vec![true, true], &vec![]).unwrap();
        assert_eq!(scheduler.next_task(), SchedulerTask::Execute(0, 0));
        report(&mut scheduler);
        assert_eq!(scheduler.halted(), Some(HaltReason::InvariantViolation));
        assert_eq!(scheduler.next_task(), SchedulerTask::Halt(HaltReason::InvariantViolation));
    }
}

#[test]
fn the_first_reason_to_stop_stays() {
    let mut scheduler = Scheduler::new(vec![true], &vec![]).unwrap();
    assert_eq!(scheduler.halted(), None);
    scheduler.halt(HaltReason::FatalExecution(3));
    scheduler.halt(HaltReason::InvariantViolation);
    assert_eq!(scheduler.halted(), Some(HaltReason::FatalExecution(3)));
    assert_eq!(scheduler.next_task(), SchedulerTask::Halt(HaltReason::FatalExecution(3)));
}

#[test]
fn a_retry_takes_the_next_incarnation() {
    let mut executor = BlockExecutor::new(vec![true], &vec![]).unwrap();
    assert_eq!(executor.next_task(), SchedulerTask::Execute(0, 0));
    executor.retry_execution(0, 0);
    assert_eq!(executor.scheduler().status(0), Some(TxnStatus::PendingExecution));
    assert_eq!(executor.next_task(), SchedulerTask::Execute(0, 1));
    executor.finish_execution(0, 1, vec![], vec![]);
    assert_eq!(executor.next_task(), SchedulerTask::Validate(0, 1));
    assert_eq!(executor.try_validate(0, 1), ValidationResult::Valid);
    assert_eq!(executor.try_validate(0, 0), ValidationResult::Stale);
    assert_eq!(executor.try_validate(5, 0), ValidationResult::Stale);
    assert_eq!(executor.finish_validation(0, 1, true), NextAction::Nothing);
    assert_eq!(executor.next_task(), SchedulerTask::Done);
    assert_eq!(executor.last_input_output().incarnation(0), Some(1));
    assert_eq!(executor.store().read(1, 1), ReadResult::NotFound);
}

#[test]
fn a_wait_that_lasts_too_long_stops_the_block() {
    let deps = vec![RemoteDependency { txn_idx: 0, key: 1 }];
    let mut executor = BlockExecutor::new(vec![false, true], &deps).unwrap();
    assert_eq!(executor.next_task(), SchedulerTask::Execute(1, 0));
    assert!(!executor.dependency_timed_out(1));
    assert!(!executor.dependency_timed_out(7));
    assert!(executor.wait_for_dependency(1, 0));
    assert!(executor.dependency_timed_out(1));
    assert_eq!(
        executor.next_task(),
        SchedulerTask::Halt(HaltReason::DependencyTimeout(1))
    );
    assert_eq!(executor.scheduler().commit_idx(), 1);
}

#[test]
fn a_block_is_set_up_only_with_fitting_dependencies() {
    let local = vec![true, false, true];
    let inside = RemoteDependency { txn_idx: 1, key: 5 };
    assert!(BlockExecutor::new(local.clone(), &vec![inside, inside]).is_ok());
    assert_eq!(
        BlockExecutor::new(local.clone(), &vec![inside, RemoteDependency { txn_idx: 2, key: 5 }])
            .err(),
        Some(SetupError::InvalidRemoteDependency(1))
    );
    assert_eq!(
        BlockExecutor::new(local.clone(), &vec![RemoteDependency { txn_idx: 3, key: 5 }]).err(),
        Some(SetupError::InvalidRemoteDependency(0))
    );
    let executor = BlockExecutor::new(vec![false, false, true], &vec![inside]).unwrap();
    // Nothing is awaited from 0; the output of 1 is.
    assert_eq!(executor.scheduler().status(0), Some(TxnStatus::Committed));
    assert_eq!(executor.scheduler().status(1), Some(TxnStatus::Executing));
    assert_eq!(executor.scheduler().commit_idx(), 2);
    assert_eq!(executor.read(5, 2), ReadResult::Dependency(1));
    let empty = BlockExecutor::new(vec![], &vec![]).unwrap();
    assert!(empty.scheduler().is_done());
}

#[test]
fn a_remote_transaction_is_final_when_all_its_values_arrived() {
    let deps =
        vec![RemoteDependency { txn_idx: 0, key: 1 }, RemoteDependency { txn_idx: 0, key: 2 }];
    let mut executor = BlockExecutor::new(vec![false, true], &deps).unwrap();
    assert_eq!(executor.next_task(), SchedulerTask::Execute(1, 0));
    assert!(executor.wait_for_dependency(1, 0));
    assert!(executor.on_remote_write(0, 1, 11));
    assert_eq!(executor.scheduler().status(0), Some(TxnStatus::Executing));
    assert_eq!(executor.scheduler().status(1), Some(TxnStatus::Aborting(0)));
    assert!(!executor.on_remote_write(1, 2, 22));
    assert!(!executor.on_remote_write(9, 2, 22));
    assert!(executor.on_remote_write(0, 2, 22));
    assert_eq!(executor.scheduler().status(0), Some(TxnStatus::Committed));
    assert_eq!(executor.scheduler().status(1), Some(TxnStatus::PendingExecution));
    assert_eq!(
        executor.read(2, 1),
        ReadResult::Resolved(Version { txn_idx: 0, incarnation: 0 }, 22)
    );
}

#[test]
fn a_view_notes_the_reads_that_resolved() {
    let mut store = VersionedStore::new();
    store.write(1, 0, 0, 10);
    store.write(2, 1, 0, 20);
    store.mark_estimate(2, 1);
    store.write(3, 2, 0, 30);
    store.mark_estimate(3, 2);
    let mut view = LatestView::new(&store, 3);
    assert_eq!(view.read(1), ViewRead::Value(10));
    assert_eq!(view.read(9), ViewRead::FromStorage);
    assert_eq!(view.read(3), ViewRead::Blocked(2));
    assert_eq!(view.read(2), ViewRead::Blocked(1));
    let (reads, blocked_on) = view.into_parts();
    assert_eq!(
        reads,
        vec![
            ReadDescriptor {
                key: 1,
                observed: ReadResult::Resolved(Version { txn_idx: 0, incarnation: 0 }, 10)
            },
            ReadDescriptor { key: 9, observed: ReadResult::NotFound },
        ]
    );
    assert_eq!(blocked_on, Some(2));
}

#[test]
fn in_unsharded_execution_every_transaction_is_local() {
    let provider = DefaultTxnProvider::new(4, vec![0xab]);
    assert_eq!(provider.end_txn_idx(), 4);
    assert_eq!(provider.num_txns(), 4);
    assert_eq!(provider.first_txn(), 0);
    assert_eq!(provider.next_txn(0), 1);
    assert_eq!(provider.next_txn(3), 4);
    assert_eq!(provider.next_txn(4), 4);
    assert_eq!(provider.txns(), vec![0, 1, 2, 3]);
    assert_eq!(provider.txns_and_deps(), provider.txns());
    assert_eq!(provider.local_index(2), 2);
    assert_eq!(provider.local_index(9), 4);
    assert!(provider.is_local(0));
    assert!(provider.is_local(100));
    assert!(provider.txn_output_has_arrived(1));
    assert_eq!(provider.block_idx(), &[0xab]);
    assert_eq!(provider.shard_idx(), 0);
    assert_eq!(provider_flags(&provider), vec![true; 4]);
    let empty = DefaultTxnProvider::new(0, vec![]);
    assert_eq!(empty.first_txn(), 0);
    assert_eq!(empty.txns(), Vec::<u32>::new());
}

#[test]
fn a_shard_executes_the_transactions_assigned_to_it() {
    let assignment = vec![1, 0, 1, 2, 0, 1];
    let deps =
        vec![RemoteDependency { txn_idx: 1, key: 7 }, RemoteDependency { txn_idx: 1, key: 8 }];
    let mut provider = ShardedTxnProvider::new(vec![1, 2], 1, &assignment, &deps).unwrap();
    assert_eq!(provider.end_txn_idx(), 6);
    assert_eq!(provider.num_txns(), 3);
    assert_eq!(provider.first_txn(), 0);
    assert_eq!(provider.next_txn(0), 2);
    assert_eq!(provider.next_txn(1), 2);
    assert_eq!(provider.next_txn(2), 5);
    assert_eq!(provider.next_txn(5), 6);
    assert_eq!(provider.next_txn(6), 6);
    assert_eq!(provider.txns(), vec![0, 2, 5]);
    assert_eq!(provider.txns_and_deps(), vec![0, 1, 2, 5]);
    assert_eq!(provider.local_index(0), 0);
    assert_eq!(provider.local_index(2), 1);
    assert_eq!(provider.local_index(5), 2);
    assert_eq!(provider.local_index(6), 3);
    assert_eq!(provider.local_index(60), 3);
    assert!(provider.is_local(2));
    assert!(!provider.is_local(1));
    assert!(!provider.is_local(6));
    assert_eq!(provider.block_idx(), &[1, 2]);
    assert_eq!(provider.shard_idx(), 1);
    assert_eq!(provider_flags(&provider), vec![true, false, true, false, false, true]);
    assert_eq!(provider.remote_dependencies(), &deps);

    assert!(!provider.txn_output_has_arrived(1));
    assert!(!provider.mark_output_arrived(3));
    assert!(!provider.mark_output_arrived(0));
    assert!(!provider.mark_output_arrived(6));
    assert!(provider.mark_output_arrived(1));
    assert!(provider.txn_output_has_arrived(1));
    assert!(!provider.txn_output_has_arrived(3));
    assert!(!provider.txn_output_has_arrived(6));

    let other = ShardedTxnProvider::new(vec![], 0, &assignment, &vec![]).unwrap();
    assert_eq!(other.txns(), vec![1, 4]);
    assert_eq!(other.first_txn(), 1);
    let none = ShardedTxnProvider::new(vec![], 9, &assignment, &vec![]).unwrap();
    assert_eq!(none.first_txn(), 6);
    assert_eq!(none.num_txns(), 0);
}

#[test]
fn a_shard_awaits_nothing_of_itself() {
    let assignment = vec![1, 0];
    assert_eq!(
        ShardedTxnProvider::new(vec![], 1, &assignment, &vec![RemoteDependency { txn_idx: 0, key: 7 }])
            .err(),
        Some(PartitionError::InvalidRemoteDependency(0))
    );
    assert_eq!(
        ShardedTxnProvider::new(
            vec![],
            1,
            &assignment,
            &vec![RemoteDependency { txn_idx: 1, key: 7 }, RemoteDependency { txn_idx: 2, key: 7 }]
        )
        .err(),
        Some(PartitionError::InvalidRemoteDependency(1))
    );
}

fn declared() -> Vec<InterShardDependency> {
    vec![
        InterShardDependency { dependent_shard: 0, txn_idx: 1, key: 7 },
        InterShardDependency { dependent_shard: 1, txn_idx: 0, key: 5 },
        InterShardDependency { dependent_shard: 2, txn_idx: 1, key: 7 },
        InterShardDependency { dependent_shard: 2, txn_idx: 1, key: 8 },
        InterShardDependency { dependent_shard: 2, txn_idx: 0, key: 5 },
        InterShardDependency { dependent_shard: 0, txn_idx: 9, key: 5 },
    ]
}

#[test]
fn a_commit_is_told_to_the_shards_that_subscribed() {
    // Shard 1 executes transaction 1; transaction 0 belongs to shard 0.
    let local = vec![false, true];
    let plugin = ShardingPlugin::new(1, &declared(), &local, vec!["zero", "one"]);
    assert_eq!(*plugin.txn(0), "zero");
    assert_eq!(*plugin.txn(1), "one");
    assert_eq!(plugin.remote_dependencies(), vec![RemoteDependency { txn_idx: 0, key: 5 }]);
    let writes = vec![
        WriteOp { key: 7, value: 1 },
        WriteOp { key: 8, value: 2 },
        WriteOp { key: 9, value: 3 },
        WriteOp { key: 7, value: 4 },
    ];
    let note = |dest_shard, key, value| CommitNotification {
        dest_shard,
        txn_idx: 1,
        key,
        value,
        origin_shard: 1,
    };
    // Only the last write to a key is sent; nobody subscribed to key 9.
    assert_eq!(plugin.on_local_commit(1, &writes), vec![note(2, 8, 2), note(0, 7, 4), note(2, 7, 4)]);
    assert_eq!(plugin.on_local_commit(0, &writes), vec![]);
    assert_eq!(plugin.on_local_commit(1, &vec![]), vec![]);
}

#[test]
fn messages_are_taken_in_until_the_receiver_is_closed() {
    let local = vec![false, true];
    let mut plugin = ShardingPlugin::new(1, &declared(), &local, vec![(), ()]);
    let mut executor = BlockExecutor::new(local.clone(), &plugin.remote_dependencies()).unwrap();
    let message = |txn_idx, key, value, origin_shard| RemoteWrite { txn_idx, key, value, origin_shard };
    let inbox = vec![
        message(0, 6, 1, 0),  // not awaited
        message(0, 5, 2, 1),  // claims to come from this shard
        message(0, 5, 3, 0),  // taken
        message(0, 5, 4, 0),  // arrived already
    ];
    assert_eq!(plugin.run_sharding_msg_loop(&mut executor, &inbox), 1);
    assert_eq!(
        executor.read(5, 1),
        ReadResult::Resolved(Version { txn_idx: 0, incarnation: 0 }, 3)
    );

    let mut closed = BlockExecutor::new(local, &plugin.remote_dependencies()).unwrap();
    plugin.shutdown_receiver();
    assert_eq!(plugin.run_sharding_msg_loop(&mut closed, &inbox), 0);
    assert_eq!(closed.read(5, 1), ReadResult::Dependency(0));
}

#[test]
fn the_plugin_of_unsharded_execution_does_nothing() {
    let mut plugin = DefaultPlugin::new(vec![10u8, 20, 30]);
    assert_eq!(*plugin.txn(0), 10);
    assert_eq!(*plugin.txn(2), 30);
    assert_eq!(plugin.remote_dependencies(), vec![]);
    assert_eq!(plugin.on_local_commit(0, &vec![WriteOp { key: 1, value: 1 }]), vec![]);
    let mut executor = BlockExecutor::new(vec![true], &vec![]).unwrap();
    let inbox = vec![RemoteWrite { txn_idx: 0, key: 1, value: 1, origin_shard: 3 }];
    assert_eq!(plugin.run_sharding_msg_loop(&mut executor, &inbox), 0);
    plugin.shutdown_receiver();
    assert_eq!(executor.next_task(), SchedulerTask::Execute(0, 0));
}
