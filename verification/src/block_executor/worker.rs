//! The worker: what one thread of execution does with the tasks that the
//! block executor hands out.
//!
//! The effects of a transaction are computed by a [`TransactionExecutor`],
//! which reads through a [`LatestView`]. The view notes every read, so that
//! the read set that is recorded is the one that was observed.

use crate::block_executor::executor::{BlockExecutor, ValidationResult};
use crate::block_executor::executor_model::{reads_valid, writes_map, writes_new_key, ExecutorView};
use crate::block_executor::scheduler::next_task_post;
use crate::block_executor::scheduler_model::SchedulerView;
use crate::block_executor::txn_last_input_output::ReadDescriptor;
use crate::block_executor::types::{
    HaltReason, Incarnation, Key, NextAction, SchedulerTask, TxnIndex, Value, WriteOp,
};
use crate::block_executor::versioned_store::{read_spec, ReadResult, StoreMap, VersionedStore};
use vstd::prelude::*;

verus! {

/// What a transaction gets for a key.
#[derive(Clone, Copy, Debug, PartialEq, Eq, Structural)]
pub enum ViewRead {
    /// The value that the nearest lower transaction wrote.
    Value(Value),
    /// No lower transaction of the block wrote the key: the value is the
    /// one that the block started from.
    FromStorage,
    /// The nearest lower write is being made again by this transaction: the
    /// execution cannot go on and must end.
    Blocked(TxnIndex),
}

/// What the execution of a transaction gave.
#[derive(Debug)]
pub enum ExecutionStatus {
    /// The transaction ran to its end and writes this.
    Success(Vec<WriteOp>),
    /// The execution met a state that a later attempt may not meet.
    SpeculativeAbort,
    /// The execution failed in a way that no retry can mend, with this code.
    Fatal(u64),
}

/// The store as one executing transaction sees it, with the reads made so far.
pub struct LatestView<'a> {
    store: &'a VersionedStore,
    txn_idx: TxnIndex,
    reads: Vec<ReadDescriptor>,
    blocked_on: Option<TxnIndex>,
}

/// What a read through a view adds to the reads noted so far: the read
/// itself where it resolved, nothing where it was blocked.
pub open spec fn reads_after(
    reads: Seq<ReadDescriptor>,
    key: Key,
    observed: ReadResult,
) -> Seq<ReadDescriptor> {
    if observed is Dependency {
        reads
    } else {
        reads.push(ReadDescriptor { key, observed })
    }
}

/// The transaction on which a view is blocked after a read: the first one that blocked it.
pub open spec fn blocked_after(blocked_on: Option<TxnIndex>, observed: ReadResult) -> Option<
    TxnIndex,
> {
    match (blocked_on, observed) {
        (None, ReadResult::Dependency(b)) => Some(b),
        _ => blocked_on,
    }
}

/// What the transaction is given for what the store gave.
pub open spec fn view_read_of(observed: ReadResult) -> ViewRead {
    match observed {
        ReadResult::Resolved(_, value) => ViewRead::Value(value),
        ReadResult::NotFound => ViewRead::FromStorage,
        ReadResult::Dependency(b) => ViewRead::Blocked(b),
    }
}

/// Notes what the store gave for `key`: a read that resolved joins the
/// reads, and the first transaction that blocks a read is kept. Returns what
/// the transaction is given.
pub fn note_read(
    reads: &mut Vec<ReadDescriptor>,
    blocked_on: &mut Option<TxnIndex>,
    key: Key,
    observed: ReadResult,
) -> (result: ViewRead)
    ensures
        result == view_read_of(observed),
        final(reads)@ == reads_after(old(reads)@, key, observed),
        *final(blocked_on) == blocked_after(*old(blocked_on), observed),
{
    match observed {
        ReadResult::Resolved(_, value) => {
            reads.push(ReadDescriptor { key, observed });
            ViewRead::Value(value)
        },
        ReadResult::NotFound => {
            reads.push(ReadDescriptor { key, observed });
            ViewRead::FromStorage
        },
        ReadResult::Dependency(b) => {
            if blocked_on.is_none() {
                *blocked_on = Some(b);
            }
            ViewRead::Blocked(b)
        },
    }
}

impl<'a> LatestView<'a> {
    pub closed spec fn wf(&self) -> bool {
        self.store.wf()
    }

    /// The store that the view reads.
    pub closed spec fn store_view(&self) -> StoreMap {
        self.store@
    }

    /// The transaction that reads through the view.
    pub closed spec fn reader(&self) -> TxnIndex {
        self.txn_idx
    }

    /// The reads noted so far.
    pub closed spec fn reads(&self) -> Seq<ReadDescriptor> {
        self.reads@
    }

    /// The transaction that blocked a read, if one did.
    pub closed spec fn blocked_on(&self) -> Option<TxnIndex> {
        self.blocked_on
    }

    /// A view for transaction `txn_idx`, with no read made.
    pub fn new(store: &'a VersionedStore, txn_idx: TxnIndex) -> (view: LatestView<'a>)
        requires
            store.wf(),
        ensures
            view.wf(),
            view.store_view() == store@,
            view.reader() == txn_idx,
            view.reads() == Seq::<ReadDescriptor>::empty(),
            view.blocked_on() == None::<TxnIndex>,
    {
        LatestView { store, txn_idx, reads: Vec::new(), blocked_on: None }
    }

    /// Reads `key` below the reader and notes the read.
    pub fn read(&mut self, key: Key) -> (result: ViewRead)
        requires
            old(self).wf(),
        ensures
            final(self).wf(),
            final(self).store_view() == old(self).store_view(),
            final(self).reader() == old(self).reader(),
            result == view_read_of(read_spec(old(self).store_view(), key, old(self).reader())),
            final(self).reads() == reads_after(
                old(self).reads(),
                key,
                read_spec(old(self).store_view(), key, old(self).reader()),
            ),
            final(self).blocked_on() == blocked_after(
                old(self).blocked_on(),
                read_spec(old(self).store_view(), key, old(self).reader()),
            ),
    {
        let observed = self.store.read(key, self.txn_idx);
        note_read(&mut self.reads, &mut self.blocked_on, key, observed)
    }

    /// Ends the view: the reads noted, and the transaction that blocked one, if any.
    pub fn into_parts(self) -> (parts: (Vec<ReadDescriptor>, Option<TxnIndex>))
        ensures
            parts.0@ == self.reads(),
            parts.1 == self.blocked_on(),
    {
        (self.reads, self.blocked_on)
    }
}

/// The capability to execute transactions.
///
/// An implementation computes the effects of transaction `txn_idx` from what
/// it reads through `view`, and ends at once when a read is blocked.
pub trait TransactionExecutor {
    fn execute(
        &self,
        txn_idx: TxnIndex,
        incarnation: Incarnation,
        view: &mut LatestView<'_>,
    ) -> ExecutionStatus
        requires
            old(view).wf(),
    ;
}

/// What becomes of the state when the end of an execution is reported.
///
/// An execution that was blocked waits for the transaction that blocked it,
/// or, where that one has finished in the meantime, is given up for a retry.
/// One that ran to its end is recorded; one that failed is given up for a
/// retry or stops the block, as the failure says.
pub open spec fn after_execution_report(
    pre: ExecutorView,
    idx: TxnIndex,
    incarnation: Incarnation,
    read_set: Vec<ReadDescriptor>,
    blocked_on: Option<TxnIndex>,
    status: ExecutionStatus,
) -> ExecutorView {
    let halted = ExecutorView {
        sched: pre.sched.after_halt(HaltReason::InvariantViolation),
        ..pre
    };
    if !pre.sched.accepts_execution_report(idx, incarnation) {
        halted
    } else {
        match blocked_on {
            Some(blocking) => {
                if !(blocking < idx) {
                    halted
                } else if pre.sched.resolved(blocking as int) {
                    ExecutorView { sched: pre.sched.after_retry(idx as int), ..pre }
                } else {
                    ExecutorView {
                        sched: pre.sched.after_wait(idx as int, blocking as int),
                        ..pre
                    }
                }
            },
            None => match status {
                ExecutionStatus::Success(write_set) => pre.after_finish_execution(
                    idx,
                    read_set,
                    write_set,
                ),
                ExecutionStatus::SpeculativeAbort => ExecutorView {
                    sched: pre.sched.after_retry(idx as int),
                    ..pre
                },
                ExecutionStatus::Fatal(code) => ExecutorView {
                    sched: pre.sched.after_halt(HaltReason::FatalExecution(code)),
                    ..pre
                },
            },
        }
    }
}

/// What the reporting worker does next: it validates the transaction itself
/// where the execution was recorded, wrote no new key and lies below the
/// validation cursor; otherwise it asks for a task.
pub open spec fn action_after_execution_report(
    pre: ExecutorView,
    idx: TxnIndex,
    incarnation: Incarnation,
    blocked_on: Option<TxnIndex>,
    status: ExecutionStatus,
) -> NextAction {
    if pre.sched.accepts_execution_report(idx, incarnation) && blocked_on is None {
        match status {
            ExecutionStatus::Success(write_set) => pre.sched.action_after_finish_execution(
                idx as int,
                writes_new_key(pre.store, idx, writes_map(write_set@)),
            ),
            _ => NextAction::Nothing,
        }
    } else {
        NextAction::Nothing
    }
}

/// Reports the end of the execution of `idx` in `incarnation`: see
/// [`after_execution_report`].
pub fn report_execution(
    executor: &mut BlockExecutor,
    idx: TxnIndex,
    incarnation: Incarnation,
    read_set: Vec<ReadDescriptor>,
    blocked_on: Option<TxnIndex>,
    status: ExecutionStatus,
) -> (action: NextAction)
    requires
        old(executor).inv(),
    ensures
        final(executor).inv(),
        old(executor)@.advances_to(final(executor)@),
        final(executor)@ == after_execution_report(
            old(executor)@,
            idx,
            incarnation,
            read_set,
            blocked_on,
            status,
        ),
        action == action_after_execution_report(old(executor)@, idx, incarnation, blocked_on, status),
{
    let ghost pre = executor@;
    if !executor.scheduler().accepts_execution_report(idx, incarnation) {
        executor.halt(HaltReason::InvariantViolation);
        return NextAction::Nothing;
    }
    match blocked_on {
        Some(blocking) => {
            if !(blocking < idx) {
                executor.halt(HaltReason::InvariantViolation);
                return NextAction::Nothing;
            }
            let waiting = executor.wait_for_dependency(idx, blocking);
            if !waiting {
                let ghost mid = executor@;
                executor.retry_execution(idx, incarnation);
                proof {
                    pre.lemma_advances_transitive(mid, executor@);
                }
            }
            NextAction::Nothing
        },
        None => match status {
            ExecutionStatus::Success(write_set) => executor.finish_execution(
                idx,
                incarnation,
                read_set,
                write_set,
            ),
            ExecutionStatus::SpeculativeAbort => {
                executor.retry_execution(idx, incarnation);
                NextAction::Nothing
            },
            ExecutionStatus::Fatal(code) => {
                executor.fail_execution(idx, incarnation, code);
                NextAction::Nothing
            },
        },
    }
}

/// Why a worker came back.
#[derive(Clone, Copy, Debug, PartialEq, Eq, Structural)]
pub enum WorkerExit {
    /// Every local transaction is committed.
    Done,
    /// The block stopped.
    Halted(HaltReason),
    /// No task can be handed out now: work is in progress with other
    /// workers, or an output is awaited from elsewhere.
    Idle,
    /// The worker performed as many tasks as it was allowed.
    OutOfTasks,
}

/// What a worker did.
#[derive(Clone, Copy, Debug, PartialEq, Eq, Structural)]
pub struct WorkerReport {
    pub exit: WorkerExit,
    /// The number of executions and validations performed.
    pub tasks: usize,
    /// The task that the worker still holds: it was handed out and is not
    /// performed. It is something other than `Nothing` only where the worker
    /// ran out of tasks.
    pub pending: NextAction,
}

/// What becomes of the state when a validation task is performed: the read
/// set is checked against the store, and the outcome is recorded. A task
/// for an incarnation that is no longer the executed one changes nothing.
pub open spec fn after_validation_task(
    pre: ExecutorView,
    idx: TxnIndex,
    incarnation: Incarnation,
) -> ExecutorView {
    if !pre.sched.accepts_validation_report(idx, incarnation) {
        pre
    } else if reads_valid(pre.store, idx, pre.records[idx as int]->0.read_set@) {
        pre.after_validated(idx)
    } else {
        pre.after_abort(idx)
    }
}

/// What the worker does after a validation task: where the validation
/// failed and the execution cursor has passed the transaction, it executes
/// the transaction again itself.
pub open spec fn action_after_validation_task(
    pre: ExecutorView,
    idx: TxnIndex,
    incarnation: Incarnation,
) -> NextAction {
    if pre.sched.accepts_validation_report(idx, incarnation) && !reads_valid(
        pre.store,
        idx,
        pre.records[idx as int]->0.read_set@,
    ) {
        pre.sched.action_after_abort(idx as int)
    } else {
        NextAction::Nothing
    }
}

/// Where a worker stands between two tasks: the state of the block, and the
/// task that the worker holds.
pub struct WorkerPosition {
    pub state: ExecutorView,
    pub pending: NextAction,
}

/// How a worker comes by its task: it is the task in its hand, or else the
/// answer of the executor to the request for one, which leaves the state `ready`.
pub open spec fn takes(before: WorkerPosition, ready: ExecutorView, task: SchedulerTask) -> bool {
    match before.pending {
        NextAction::Execute(idx, incarnation) => task == SchedulerTask::Execute(idx, incarnation)
            && ready == before.state,
        NextAction::Validate(idx, incarnation) => task == SchedulerTask::Validate(
            idx,
            incarnation,
        ) && ready == before.state,
        NextAction::Nothing => next_task_post(before.state.sched, ready.sched, task) && ready == (
        ExecutorView { sched: ready.sched, ..before.state }),
    }
}

/// The task was performed on the state `ready` and left the worker at
/// `after`: a validation as [`after_validation_task`] says, an execution as
/// [`after_execution_report`] says of what the transaction executor gave.
pub open spec fn performs(ready: ExecutorView, task: SchedulerTask, after: WorkerPosition) -> bool {
    match task {
        SchedulerTask::Execute(idx, incarnation) => exists|
            read_set: Vec<ReadDescriptor>,
            blocked_on: Option<TxnIndex>,
            status: ExecutionStatus,
        |
            #![trigger after_execution_report(ready, idx, incarnation, read_set, blocked_on, status)]
            after.state == after_execution_report(
                ready,
                idx,
                incarnation,
                read_set,
                blocked_on,
                status,
            ) && after.pending == action_after_execution_report(
                ready,
                idx,
                incarnation,
                blocked_on,
                status,
            ),
        SchedulerTask::Validate(idx, incarnation) => after.state == after_validation_task(
            ready,
            idx,
            incarnation,
        ) && after.pending == action_after_validation_task(ready, idx, incarnation),
        _ => false,
    }
}

/// One task of a worker: it comes by an execution or a validation and performs it.
pub open spec fn worker_step(before: WorkerPosition, after: WorkerPosition) -> bool {
    exists|ready: ExecutorView, task: SchedulerTask|
        #![trigger performs(ready, task, after)]
        takes(before, ready, task) && performs(ready, task, after)
}

/// How a run ends at the position `last`: out of tasks, with the state as
/// it is, or with empty hands on an answer of the executor that is no task.
pub open spec fn comes_back(last: WorkerPosition, exit: WorkerExit, end: ExecutorView) -> bool {
    match exit {
        WorkerExit::OutOfTasks => end == last.state,
        WorkerExit::Done => last.pending == NextAction::Nothing && takes(
            last,
            end,
            SchedulerTask::Done,
        ),
        WorkerExit::Halted(reason) => last.pending == NextAction::Nothing && takes(
            last,
            end,
            SchedulerTask::Halt(reason),
        ),
        WorkerExit::Idle => last.pending == NextAction::Nothing && takes(
            last,
            end,
            SchedulerTask::Wait,
        ),
    }
}

/// The run of a worker: from `start` it performed `report.tasks` tasks, one
/// after the other, through the positions `steps`, and came back as the
/// report says, leaving the state `end`. It comes back out of tasks only
/// after `max_tasks` tasks.
pub open spec fn worker_run(
    start: WorkerPosition,
    steps: Seq<WorkerPosition>,
    max_tasks: usize,
    report: WorkerReport,
    end: ExecutorView,
) -> bool {
    &&& steps.len() == report.tasks + 1
    &&& steps[0] == start
    &&& forall|k: int| 0 <= k < report.tasks ==> worker_step(#[trigger] steps[k], steps[k + 1])
    &&& comes_back(steps.last(), report.exit, end)
    &&& report.exit == WorkerExit::OutOfTasks ==> report.tasks == max_tasks && report.pending
        == steps.last().pending
    &&& report.exit != WorkerExit::OutOfTasks ==> report.pending == NextAction::Nothing
}

/// The lowest transaction for which there is a task is a pending one whose
/// incarnations are used up: a request for a task stops the block.
pub open spec fn incarnations_used_up(sched: SchedulerView) -> bool {
    exists|j: int|
        #![trigger sched.needs_execution(j)]
        sched.is_first_candidate(j) && sched.needs_execution(j) && sched.incarnation[j]
            == u32::MAX
}

/// A worker with empty hands performs a task only where the executor hands
/// one out: the block is neither stopped nor done, a task can be handed
/// out, and the incarnations of the transaction it goes to are not used up.
pub proof fn lemma_step_with_empty_hands(before: WorkerPosition, after: WorkerPosition)
    requires
        worker_step(before, after),
        before.pending == NextAction::Nothing,
    ensures
        before.state.sched.halted is None,
        !before.state.sched.is_done(),
        !before.state.sched.no_candidate(),
        !incarnations_used_up(before.state.sched),
{
    let (ready, task) = choose|ready: ExecutorView, task: SchedulerTask|
        #![trigger performs(ready, task, after)]
        takes(before, ready, task) && performs(ready, task, after);
    let sched = before.state.sched;
    let first = match task {
        SchedulerTask::Execute(j, _) => j as int,
        SchedulerTask::Validate(j, _) => j as int,
        _ => 0,
    };
    assert(sched.is_first_candidate(first));
    assert(sched.is_candidate(first));
    if incarnations_used_up(sched) {
        let j = choose|j: int|
            #![trigger sched.needs_execution(j)]
            sched.is_first_candidate(j) && sched.needs_execution(j) && sched.incarnation[j]
                == u32::MAX;
        assert(sched.is_candidate(j));
        assert(j == first);
    }
}

/// Comes by a task: the task in hand, or else the answer of the executor to
/// the request for one.
pub fn take_task(executor: &mut BlockExecutor, pending: NextAction) -> (task: SchedulerTask)
    requires
        old(executor).inv(),
    ensures
        final(executor).inv(),
        old(executor)@.advances_to(final(executor)@),
        takes((WorkerPosition { state: old(executor)@, pending }), final(executor)@, task),
{
    match pending {
        NextAction::Execute(idx, incarnation) => {
            proof {
                executor@.lemma_advances_reflexive();
            }
            SchedulerTask::Execute(idx, incarnation)
        },
        NextAction::Validate(idx, incarnation) => {
            proof {
                executor@.lemma_advances_reflexive();
            }
            SchedulerTask::Validate(idx, incarnation)
        },
        NextAction::Nothing => executor.next_task(),
    }
}

/// Performs a validation task: checks the read set of `idx` against the
/// store and records the outcome. See [`after_validation_task`].
pub fn perform_validation(
    executor: &mut BlockExecutor,
    idx: TxnIndex,
    incarnation: Incarnation,
) -> (action: NextAction)
    requires
        old(executor).inv(),
    ensures
        final(executor).inv(),
        old(executor)@.advances_to(final(executor)@),
        final(executor)@ == after_validation_task(old(executor)@, idx, incarnation),
        action == action_after_validation_task(old(executor)@, idx, incarnation),
{
    let valid = match executor.try_validate(idx, incarnation) {
        ValidationResult::Valid => true,
        _ => false,
    };
    executor.finish_validation(idx, incarnation, valid)
}

/// Takes tasks from the executor and performs them, until the block is
/// done or has stopped, nothing can be handed out, or `max_tasks` tasks were
/// performed. The worker starts with the task `first`, if it is one.
///
/// The run is a chain of tasks, each performed on the state that the one
/// before left: see [`worker_run`]. What an execution leaves depends on what
/// the transaction executor gives; everything else is fixed by the state.
pub fn run_worker<E: TransactionExecutor>(
    executor: &mut BlockExecutor,
    vm: &E,
    first: NextAction,
    max_tasks: usize,
) -> (report: WorkerReport)
    requires
        old(executor).inv(),
    ensures
        final(executor).inv(),
        old(executor)@.advances_to(final(executor)@),
        report.tasks <= max_tasks,
        exists|steps: Seq<WorkerPosition>| #[trigger]
            worker_run(
                (WorkerPosition { state: old(executor)@, pending: first }),
                steps,
                max_tasks,
                report,
                final(executor)@,
            ),
        match report.exit {
            WorkerExit::Done => final(executor)@.sched.is_done() && final(executor)@.sched.halted is None,
            WorkerExit::Halted(reason) => final(executor)@.sched.halted == Some(reason),
            WorkerExit::Idle => final(executor)@.sched.no_candidate() && !final(executor)@.sched.is_done() && final(executor)@.sched.halted is None,
            WorkerExit::OutOfTasks => report.tasks == max_tasks,
        },
        max_tasks == 0 ==> report.exit == WorkerExit::OutOfTasks && report.pending == first
            && final(executor)@ == old(executor)@,
        // With empty hands, on a block that has stopped, is done or has no
        // task to hand out, the worker performs nothing and says which it is.
        max_tasks > 0 && first == NextAction::Nothing && old(executor)@.sched.halted is Some
            ==> report.exit == WorkerExit::Halted(old(executor)@.sched.halted->0) && report.tasks
            == 0 && final(executor)@ == old(executor)@,
        max_tasks > 0 && first == NextAction::Nothing && old(executor)@.sched.halted is None
            && old(executor)@.sched.is_done() ==> report.exit == WorkerExit::Done && report.tasks
            == 0 && final(executor)@ == old(executor)@,
        max_tasks > 0 && first == NextAction::Nothing && old(executor)@.sched.halted is None
            && !old(executor)@.sched.is_done() && old(executor)@.sched.no_candidate()
            ==> report.exit == WorkerExit::Idle && report.tasks == 0 && final(executor)@ == old(executor)@,
        max_tasks > 0 && first == NextAction::Nothing && old(executor)@.sched.halted is None
            && !old(executor)@.sched.is_done() && incarnations_used_up(old(executor)@.sched)
            ==> report.exit == WorkerExit::Halted(HaltReason::InvariantViolation) && report.tasks
            == 0 && final(executor)@ == (ExecutorView {
            sched: old(executor)@.sched.after_halt(HaltReason::InvariantViolation),
            ..old(executor)@
        }),
        // With a task in hand, the worker performs at least that task; a
        // validation leaves what the check of the read set says.
        max_tasks > 0 && first != NextAction::Nothing ==> report.tasks >= 1,
        first matches NextAction::Validate(idx, incarnation) ==> (max_tasks == 1 ==> report.exit
            == WorkerExit::OutOfTasks && report.tasks == 1 && final(executor)@
            == after_validation_task(old(executor)@, idx, incarnation) && report.pending
            == action_after_validation_task(old(executor)@, idx, incarnation)),
{
    let mut tasks: usize = 0;
    let mut pending = first;
    let ghost start = WorkerPosition { state: executor@, pending: first };
    let ghost mut steps: Seq<WorkerPosition> = seq![start];
    proof {
        executor@.lemma_advances_reflexive();
    }
    while tasks < max_tasks
        invariant
            tasks <= max_tasks,
            executor.inv(),
            old(executor)@.advances_to(executor@),
            start == (WorkerPosition { state: old(executor)@, pending: first }),
            steps.len() == tasks + 1,
            steps[0] == start,
            steps.last() == (WorkerPosition { state: executor@, pending }),
            forall|k: int| 0 <= k < tasks ==> worker_step(#[trigger] steps[k], steps[k + 1]),
        decreases max_tasks - tasks,
    {
        let ghost before = WorkerPosition { state: executor@, pending };
        let task = take_task(executor, pending);
        let ghost ready = executor@;
        proof {
            old(executor)@.lemma_advances_transitive(before.state, ready);
            assert(takes(before, ready, task));
            if tasks > 0 && first == NextAction::Nothing {
                lemma_step_with_empty_hands(steps[0], steps[1]);
            }
        }
        match task {
            SchedulerTask::Done => {
                let report = WorkerReport {
                    exit: WorkerExit::Done,
                    tasks,
                    pending: NextAction::Nothing,
                };
                assert(worker_run(start, steps, max_tasks, report, executor@));
                return report;
            },
            SchedulerTask::Halt(reason) => {
                let report = WorkerReport {
                    exit: WorkerExit::Halted(reason),
                    tasks,
                    pending: NextAction::Nothing,
                };
                assert(worker_run(start, steps, max_tasks, report, executor@));
                return report;
            },
            SchedulerTask::Wait => {
                let report = WorkerReport {
                    exit: WorkerExit::Idle,
                    tasks,
                    pending: NextAction::Nothing,
                };
                assert(worker_run(start, steps, max_tasks, report, executor@));
                return report;
            },
            SchedulerTask::Execute(idx, incarnation) => {
                let mut view = LatestView::new(executor.store(), idx);
                let status = vm.execute(idx, incarnation, &mut view);
                let (read_set, blocked_on) = view.into_parts();
                let ghost given = (read_set, blocked_on, status);
                pending = report_execution(executor, idx, incarnation, read_set, blocked_on, status);
                proof {
                    assert(executor@ == after_execution_report(
                        ready,
                        idx,
                        incarnation,
                        given.0,
                        given.1,
                        given.2,
                    ));
                }
            },
            SchedulerTask::Validate(idx, incarnation) => {
                pending = perform_validation(executor, idx, incarnation);
            },
        }
        proof {
            old(executor)@.lemma_advances_transitive(ready, executor@);
            let after = WorkerPosition { state: executor@, pending };
            assert(performs(ready, task, after));
            assert(worker_step(before, after));
            let grown = steps.push(after);
            assert forall|k: int| 0 <= k <= tasks implies worker_step(
                #[trigger] grown[k],
                grown[k + 1],
            ) by {
                if k < tasks {
                    assert(worker_step(steps[k], steps[k + 1]));
                }
            }
            steps = grown;
        }
        tasks += 1;
    }
    let report = WorkerReport { exit: WorkerExit::OutOfTasks, tasks, pending };
    proof {
        assert(worker_run(start, steps, max_tasks, report, executor@));
        if tasks > 0 && first == NextAction::Nothing {
            lemma_step_with_empty_hands(steps[0], steps[1]);
        }
    }
    report
}

} // verus!
