//! The scheduler: status and incarnation of every transaction, the cursors
//! from which tasks are handed out, and the registry of transactions that
//! wait for another one to finish.
//!
//! Every method is one transition of [`SchedulerView`]; its contract names
//! the transition.

use crate::block_executor::scheduler_model::{next_local, lemma_next_local, SchedulerView};
use crate::block_executor::types::{HaltReason, Incarnation, NextAction, SchedulerTask, TxnIndex, TxnStatus};
use vstd::prelude::*;

verus! {

/// The coordination state of one block.
pub struct Scheduler {
    local: Vec<bool>,
    status: Vec<TxnStatus>,
    incarnation: Vec<Incarnation>,
    validated: Vec<bool>,
    dependents: Vec<Vec<TxnIndex>>,
    execution_idx: TxnIndex,
    validation_idx: TxnIndex,
    commit_idx: TxnIndex,
    halted: Option<HaltReason>,
    attempts: Ghost<Seq<Seq<Incarnation>>>,
}

impl View for Scheduler {
    type V = SchedulerView;

    closed spec fn view(&self) -> SchedulerView {
        SchedulerView {
            local: self.local@,
            status: self.status@,
            incarnation: self.incarnation@,
            validated: self.validated@,
            dependents: Seq::new(self.dependents@.len(), |i: int| self.dependents@[i]@),
            execution_idx: self.execution_idx,
            validation_idx: self.validation_idx,
            commit_idx: self.commit_idx,
            halted: self.halted,
            attempts: self.attempts@,
        }
    }
}

/// The flags of the transactions executed elsewhere whose output is awaited,
/// read off a list that may be shorter than the block.
pub open spec fn remote_flags(len: nat, remote_pending: Seq<bool>) -> Seq<bool> {
    Seq::new(len, |i: int| i < remote_pending.len() && remote_pending[i])
}

/// What `next_task` does, as a relation between the state before, the state
/// after and the task handed out. The task goes to the lowest transaction
/// for which there is one: a validation where it is executed and at or above
/// the validation cursor, an execution where it is pending.
pub open spec fn next_task_post(pre: SchedulerView, post: SchedulerView, task: SchedulerTask) -> bool {
    match task {
        SchedulerTask::Halt(reason) => {
            ||| pre.halted == Some(reason) && post == pre
            ||| {
                &&& pre.halted is None
                &&& !pre.is_done()
                &&& reason == HaltReason::InvariantViolation
                &&& post == pre.after_halt(reason)
                &&& exists|j: int|
                    #![trigger pre.needs_execution(j)]
                    pre.is_first_candidate(j) && pre.needs_execution(j) && pre.incarnation[j]
                        == u32::MAX
            }
        },
        SchedulerTask::Done => pre.halted is None && pre.is_done() && post == pre,
        SchedulerTask::Validate(j, incarnation) => {
            &&& pre.halted is None
            &&& !pre.is_done()
            &&& pre.is_first_candidate(j as int)
            &&& pre.needs_validation(j as int)
            &&& incarnation == pre.incarnation[j as int]
            &&& post == pre.after_validation_handed_out(j as int)
        },
        SchedulerTask::Execute(j, incarnation) => {
            &&& pre.halted is None
            &&& !pre.is_done()
            &&& pre.is_first_candidate(j as int)
            &&& pre.needs_execution(j as int)
            &&& incarnation == pre.incarnation[j as int]
            &&& incarnation < u32::MAX
            &&& post == pre.after_execution_handed_out(j as int)
        },
        SchedulerTask::Wait => {
            &&& pre.halted is None
            &&& !pre.is_done()
            &&& pre.no_candidate()
            &&& post == pre
        },
    }
}

impl Scheduler {
    /// A scheduler for a block of `local.len()` transactions. Those flagged in
    /// `local` are executed here and start pending. The others are executed
    /// elsewhere: one flagged in `remote_pending` is in progress until its
    /// output arrives, one that is not has nothing to deliver. Returns `None`
    /// where the block is too long for a transaction index.
    pub fn new(local: Vec<bool>, remote_pending: &Vec<bool>) -> (result: Option<Scheduler>)
        ensures
            result is None <==> local.len() > u32::MAX,
            result matches Some(s) ==> s@.wf() && s@.settled() && s@ == SchedulerView::initial(
                local@,
                remote_flags(local@.len(), remote_pending@),
            ),
    {
        let n = local.len();
        if n > u32::MAX as usize {
            return None;
        }
        let mut status: Vec<TxnStatus> = Vec::new();
        let mut incarnation: Vec<Incarnation> = Vec::new();
        let mut validated: Vec<bool> = Vec::new();
        let mut dependents: Vec<Vec<TxnIndex>> = Vec::new();
        let mut first_local: usize = n;
        let ghost flags = remote_flags(local@.len(), remote_pending@);
        let ghost expect = SchedulerView::initial(local@, flags);
        let mut i: usize = 0;
        while i < n
            invariant
                i <= n == local.len(),
                status.len() == i,
                incarnation.len() == i,
                validated.len() == i,
                dependents.len() == i,
                flags == remote_flags(local@.len(), remote_pending@),
                expect == SchedulerView::initial(local@, flags),
                forall|k: int| 0 <= k < i ==> status[k] == expect.status[k],
                forall|k: int| 0 <= k < i ==> incarnation[k] == 0,
                forall|k: int| 0 <= k < i ==> !validated[k],
                forall|k: int| 0 <= k < i ==> dependents[k]@ == Seq::<TxnIndex>::empty(),
                first_local == n ==> forall|k: int| 0 <= k < i ==> !local[k],
                first_local < n ==> first_local < i && local[first_local as int] && forall|k: int|
                    0 <= k < first_local ==> !local[k],
                first_local <= n,
            decreases n - i,
        {
            let is_local = local[i];
            let pending = i < remote_pending.len() && remote_pending[i];
            if is_local {
                status.push(TxnStatus::PendingExecution);
                if first_local == n {
                    first_local = i;
                }
            } else if pending {
                status.push(TxnStatus::Executing);
            } else {
                status.push(TxnStatus::Committed);
            }
            incarnation.push(0);
            validated.push(false);
            dependents.push(Vec::new());
            i += 1;
        }
        let scheduler = Scheduler {
            local,
            status,
            incarnation,
            validated,
            dependents,
            execution_idx: 0,
            validation_idx: 0,
            commit_idx: first_local as TxnIndex,
            halted: None,
            attempts: Ghost(expect.attempts),
        };
        proof {
            lemma_next_local(scheduler.local@, 0);
            lemma_first_local_is_next(scheduler.local@, 0, first_local as int);
            assert(scheduler@.status =~= expect.status);
            assert(scheduler@.incarnation =~= expect.incarnation);
            assert(scheduler@.validated =~= expect.validated);
            assert(scheduler@.dependents =~= expect.dependents);
            SchedulerView::lemma_initial_wf(scheduler.local@, flags);
        }
        Some(scheduler)
    }

    /// The number of transactions of the block, local or not.
    pub fn num_txns(&self) -> (n: usize)
        requires
            self@.wf(),
        ensures
            n == self@.len(),
    {
        self.status.len()
    }

    /// Whether the transaction is executed here.
    pub fn is_local(&self, idx: TxnIndex) -> (result: bool)
        requires
            self@.wf(),
        ensures
            result == (self@.in_range(idx as int) && self@.local[idx as int]),
    {
        (idx as usize) < self.local.len() && self.local[idx as usize]
    }

    /// The status of a transaction, or `None` for an index outside the block.
    pub fn status(&self, idx: TxnIndex) -> (result: Option<TxnStatus>)
        requires
            self@.wf(),
        ensures
            result == (if self@.in_range(idx as int) {
                Some(self@.status[idx as int])
            } else {
                None
            }),
    {
        if (idx as usize) < self.status.len() {
            Some(self.status[idx as usize])
        } else {
            None
        }
    }

    /// The current incarnation of a transaction, or `None` for an index outside the block.
    pub fn incarnation(&self, idx: TxnIndex) -> (result: Option<Incarnation>)
        requires
            self@.wf(),
        ensures
            result == (if self@.in_range(idx as int) {
                Some(self@.incarnation[idx as int])
            } else {
                None
            }),
    {
        if (idx as usize) < self.incarnation.len() {
            Some(self.incarnation[idx as usize])
        } else {
            None
        }
    }

    /// Whether the transaction has an output that readers can use.
    pub fn is_resolved(&self, idx: TxnIndex) -> (result: bool)
        requires
            self@.wf(),
        ensures
            result == (self@.in_range(idx as int) && self@.resolved(idx as int)),
    {
        if (idx as usize) < self.status.len() {
            match self.status[idx as usize] {
                TxnStatus::Executed(_) => true,
                TxnStatus::Committed => true,
                _ => false,
            }
        } else {
            false
        }
    }

    /// Whether the transaction is executed and validated.
    pub fn is_validated(&self, idx: TxnIndex) -> (result: bool)
        requires
            self@.wf(),
        ensures
            result == (self@.in_range(idx as int) && self@.is_validated(idx as int)),
    {
        let i = idx as usize;
        if i < self.status.len() {
            let executed = match self.status[i] {
                TxnStatus::Executed(_) => true,
                _ => false,
            };
            self.local[i] && self.validated[i] && idx < self.validation_idx && executed
        } else {
            false
        }
    }

    /// The lowest index from which a transaction may wait to be handed out for execution.
    pub fn execution_idx(&self) -> (idx: TxnIndex)
        ensures
            idx == self@.execution_idx,
    {
        self.execution_idx
    }

    /// The lowest index from which an executed transaction waits to be handed out for validation.
    pub fn validation_idx(&self) -> (idx: TxnIndex)
        ensures
            idx == self@.validation_idx,
    {
        self.validation_idx
    }

    /// The lowest local index that is not committed, or the number of transactions.
    pub fn commit_idx(&self) -> (idx: TxnIndex)
        ensures
            idx == self@.commit_idx,
    {
        self.commit_idx
    }

    /// Why the block stopped, if it did.
    pub fn halted(&self) -> (reason: Option<HaltReason>)
        ensures
            reason == self@.halted,
    {
        self.halted
    }

    /// Whether every local transaction is committed.
    pub fn is_done(&self) -> (done: bool)
        requires
            self@.wf(),
        ensures
            done == self@.is_done(),
    {
        self.commit_idx as usize == self.status.len()
    }

    /// The lowest transaction that has given up its execution and waits for
    /// another one, or `None` where no transaction waits.
    pub fn first_waiting(&self) -> (result: Option<TxnIndex>)
        requires
            self@.wf(),
        ensures
            match result {
                Some(idx) => {
                    &&& self@.in_range(idx as int)
                    &&& self@.status[idx as int] is Aborting
                    &&& forall|k: int| 0 <= k < idx ==> !(#[trigger] self@.status[k] is Aborting)
                },
                None => forall|k: int|
                    0 <= k < self@.len() ==> !(#[trigger] self@.status[k] is Aborting),
            },
    {
        let mut i: usize = 0;
        while i < self.status.len()
            invariant
                i <= self.status.len() <= u32::MAX,
                forall|k: int| 0 <= k < i ==> !(#[trigger] self@.status[k] is Aborting),
            decreases self.status.len() - i,
        {
            match self.status[i] {
                TxnStatus::Aborting(_) => {
                    return Some(i as TxnIndex);
                },
                _ => {},
            }
            i += 1;
        }
        None
    }

    /// Stops the block. The first reason given stays.
    pub fn halt(&mut self, reason: HaltReason)
        requires
            old(self)@.wf(),
        ensures
            final(self)@.wf(),
            old(self)@.settled() ==> final(self)@.settled(),
            final(self)@ == old(self)@.after_halt(reason),
    {
        proof {
            self@.lemma_halt_wf(reason);
        }
        if self.halted.is_none() {
            self.halted = Some(reason);
        }
    }

    /// Hands out the next task: see [`next_task_post`].
    pub fn next_task(&mut self) -> (task: SchedulerTask)
        requires
            old(self)@.wf(),
        ensures
            final(self)@.wf(),
            old(self)@.settled() ==> final(self)@.settled(),
            next_task_post(old(self)@, final(self)@, task),
    {
        if let Some(reason) = self.halted {
            return SchedulerTask::Halt(reason);
        }
        let n = self.status.len();
        if self.commit_idx as usize == n {
            return SchedulerTask::Done;
        }
        let start = if self.validation_idx < self.execution_idx {
            self.validation_idx
        } else {
            self.execution_idx
        };
        let mut j: usize = start as usize;
        while j < n
            invariant
                j <= n == self.status.len(),
                self@ == old(self)@,
                self@.wf(),
                self@.halted is None,
                !self@.is_done(),
                forall|k: int| 0 <= k < j ==> !self@.is_candidate(k),
            decreases n - j,
        {
            if self.local[j] {
                match self.status[j] {
                    TxnStatus::Executed(incarnation) => {
                        if j >= self.validation_idx as usize {
                            proof {
                                assert(self@.txn_wf(j as int));
                                self@.lemma_validation_handed_out_wf(j as int);
                            }
                            self.validation_idx = (j + 1) as TxnIndex;
                            self.validated[j] = false;
                            assert(self@ == old(self)@.after_validation_handed_out(j as int));
                            return SchedulerTask::Validate(j as TxnIndex, incarnation);
                        }
                    },
                    TxnStatus::PendingExecution => {
                        if j >= self.execution_idx as usize {
                            let incarnation = self.incarnation[j];
                            if incarnation == u32::MAX {
                                proof {
                                    self@.lemma_halt_wf(HaltReason::InvariantViolation);
                                    assert(self@.is_first_candidate(j as int));
                                    assert(self@.needs_execution(j as int));
                                }
                                self.halted = Some(HaltReason::InvariantViolation);
                                return SchedulerTask::Halt(HaltReason::InvariantViolation);
                            }
                            proof {
                                self@.lemma_execution_handed_out_wf(j as int);
                            }
                            self.status[j] = TxnStatus::Executing;
                            self.execution_idx = (j + 1) as TxnIndex;
                            proof {
                                self.attempts@ = self.attempts@.update(
                                    j as int,
                                    self.attempts@[j as int].push(incarnation),
                                );
                            }
                            assert(self@.dependents =~= old(self)@.dependents);
                            assert(self@ == old(self)@.after_execution_handed_out(j as int));
                            return SchedulerTask::Execute(j as TxnIndex, incarnation);
                        }
                    },
                    _ => {},
                }
            }
            j += 1;
        }
        SchedulerTask::Wait
    }

    /// Wakes the transactions that wait for `b`.
    fn wake(&mut self, b: usize)
        requires
            old(self)@.wf(),
            b < old(self)@.len(),
        ensures
            final(self)@ == old(self)@.after_wake(b as int),
    {
        let mut list: Vec<TxnIndex> = Vec::new();
        std::mem::swap(&mut list, &mut self.dependents[b]);
        let ghost pre = old(self)@;
        let n = self.status.len();
        assert(list@ == pre.dependents[b as int]);
        let mut p: usize = 0;
        while p < list.len()
            invariant
                p <= list.len(),
                pre == old(self)@,
                pre.wf(),
                b < n == pre.len(),
                list@ == pre.dependents[b as int],
                self.status.len() == n,
                self.incarnation.len() == n,
                self.local@ == pre.local,
                self.validated@ == pre.validated,
                self.validation_idx == pre.validation_idx,
                self.commit_idx == pre.commit_idx,
                self.halted == pre.halted,
                self.attempts@ == pre.attempts,
                self@.dependents == pre.dependents.update(b as int, Seq::empty()),
                forall|i: int|
                    0 <= i < n ==> self.status[i] == (if list@.take(p as int).contains(
                        i as TxnIndex,
                    ) && pre.status[i] is Aborting {
                        TxnStatus::PendingExecution
                    } else {
                        pre.status[i]
                    }),
                forall|i: int|
                    0 <= i < n ==> self.incarnation[i] == (if list@.take(p as int).contains(
                        i as TxnIndex,
                    ) && pre.status[i] is Aborting {
                        (pre.incarnation[i] + 1) as Incarnation
                    } else {
                        pre.incarnation[i]
                    }),
                self.execution_idx <= pre.execution_idx,
                forall|q: int|
                    0 <= q < p && pre.status[list[q] as int] is Aborting ==> self.execution_idx
                        <= list[q],
                self.execution_idx == pre.execution_idx || exists|q: int|
                    0 <= q < p && pre.status[list[q] as int] is Aborting && list[q]
                        == self.execution_idx,
            decreases list.len() - p,
        {
            let d = list[p] as usize;
            assert(b < pre.dependents[b as int][p as int] < n);
            assert(pre.txn_wf(d as int));
            let ghost before = list@.take(p as int);
            let ghost after = list@.take(p + 1);
            assert(after == before.push(list[p as int]));
            assert forall|t: TxnIndex| #[trigger] after.contains(t) == (before.contains(t) || t
                == d) by {
                if before.contains(t) {
                    let q = choose|q: int| 0 <= q < before.len() && before[q] == t;
                    assert(after[q] == t);
                }
                if t == d {
                    assert(after[p as int] == t);
                }
            }
            match self.status[d] {
                TxnStatus::Aborting(x) => {
                    self.status[d] = TxnStatus::PendingExecution;
                    self.incarnation[d] = x + 1;
                    if d < self.execution_idx as usize {
                        self.execution_idx = d as TxnIndex;
                    }
                },
                _ => {},
            }
            p += 1;
            assert(self@.dependents =~= pre.dependents.update(b as int, Seq::empty()));
        }
        proof {
            assert(list@.take(list.len() as int) == list@);
            let expected = pre.after_wake(b as int);
            pre.lemma_first_woken(b as int, 0);
            assert(self@.status =~= expected.status);
            assert(self@.incarnation =~= expected.incarnation);
            let lowest = pre.first_woken(b as int, 0);
            if lowest < n {
                let q = choose|q: int| 0 <= q < list@.len() && list@[q] == lowest as TxnIndex;
                assert(pre.status[list[q] as int] is Aborting);
                assert(self.execution_idx <= lowest);
            }
            if self.execution_idx != pre.execution_idx {
                let q = choose|q: int|
                    0 <= q < list@.len() && pre.status[list[q] as int] is Aborting && list[q]
                        == self.execution_idx;
                assert(list@[q] == self.execution_idx);
                assert(pre.woken_by(b as int, self.execution_idx as int));
                assert(lowest <= self.execution_idx);
            }
            assert(self@.execution_idx == expected.execution_idx);
        }
    }

    /// Records that the execution of `idx` in `incarnation` finished.
    ///
    /// Where the transaction is local and is executing that incarnation, it
    /// becomes executed, the transactions that waited for it become pending
    /// with their next incarnation, and `wrote_new_keys` sends the validation
    /// cursor back to `idx`. The worker is told to validate `idx` itself where
    /// the cursor will not come by again. A report that fits no execution in
    /// progress stops the block.
    pub fn finish_execution(
        &mut self,
        idx: TxnIndex,
        incarnation: Incarnation,
        wrote_new_keys: bool,
    ) -> (action: NextAction)
        requires
            old(self)@.wf(),
        ensures
            final(self)@.wf(),
            old(self)@.settled() ==> final(self)@.settled(),
            old(self)@.accepts_execution_report(idx, incarnation) ==> final(self)@ == old(
                self,
            )@.after_finish_execution(idx as int, wrote_new_keys) && action == old(
                self,
            )@.action_after_finish_execution(idx as int, wrote_new_keys),
            !old(self)@.accepts_execution_report(idx, incarnation) ==> final(self)@ == old(
                self,
            )@.after_halt(HaltReason::InvariantViolation) && action == NextAction::Nothing,
    {
        if !self.accepts_execution_report(idx, incarnation) {
            self.halt(HaltReason::InvariantViolation);
            return NextAction::Nothing;
        }
        let i = idx as usize;
        proof {
            self@.lemma_finish_execution_wf(idx, wrote_new_keys);
        }
        self.wake(i);
        self.status[i] = TxnStatus::Executed(incarnation);
        self.validated[i] = false;
        let revalidate_self = !wrote_new_keys && idx < self.validation_idx;
        if wrote_new_keys && idx < self.validation_idx {
            self.validation_idx = idx;
        }
        assert(self@.dependents =~= old(self)@.after_finish_execution(
            idx as int,
            wrote_new_keys,
        ).dependents);
        assert(self@ == old(self)@.after_finish_execution(idx as int, wrote_new_keys));
        if revalidate_self {
            NextAction::Validate(idx, incarnation)
        } else {
            NextAction::Nothing
        }
    }

    /// Whether a report on the execution of `idx` in `incarnation` fits the state.
    pub fn accepts_execution_report(&self, idx: TxnIndex, incarnation: Incarnation) -> (result:
        bool)
        requires
            self@.wf(),
        ensures
            result == self@.accepts_execution_report(idx, incarnation),
    {
        let i = idx as usize;
        if i < self.status.len() && self.local[i] && self.incarnation[i] == incarnation {
            match self.status[i] {
                TxnStatus::Executing => true,
                _ => false,
            }
        } else {
            false
        }
    }

    /// Gives up the execution of `idx` in `incarnation` for a retry: the
    /// transaction becomes pending with the next incarnation. A report that
    /// fits no execution in progress stops the block.
    pub fn retry_execution(&mut self, idx: TxnIndex, incarnation: Incarnation)
        requires
            old(self)@.wf(),
        ensures
            final(self)@.wf(),
            old(self)@.settled() ==> final(self)@.settled(),
            old(self)@.accepts_execution_report(idx, incarnation) ==> final(self)@ == old(
                self,
            )@.after_retry(idx as int),
            !old(self)@.accepts_execution_report(idx, incarnation) ==> final(self)@ == old(
                self,
            )@.after_halt(HaltReason::InvariantViolation),
    {
        if !self.accepts_execution_report(idx, incarnation) {
            self.halt(HaltReason::InvariantViolation);
            return ;
        }
        let i = idx as usize;
        proof {
            self@.lemma_retry_wf(idx);
            assert(self@.txn_wf(i as int));
        }
        self.status[i] = TxnStatus::PendingExecution;
        self.incarnation[i] = incarnation + 1;
        if idx < self.execution_idx {
            self.execution_idx = idx;
        }
        assert(self@.dependents =~= old(self)@.dependents);
        assert(self@ == old(self)@.after_retry(idx as int));
    }

    /// Registers that `blocked`, which is being executed, gives up and waits
    /// for `blocking` to finish.
    ///
    /// Returns `true` where the wait is registered: `blocked` is then woken,
    /// with its next incarnation, when `blocking` finishes its execution.
    /// Returns `false`, and changes nothing, where `blocking` has finished in
    /// the meantime: the caller reads again. A call that names no execution in
    /// progress, or a `blocking` that is not below `blocked`, stops the block.
    pub fn wait_for_dependency(&mut self, blocked: TxnIndex, blocking: TxnIndex) -> (waiting: bool)
        requires
            old(self)@.wf(),
        ensures
            final(self)@.wf(),
            old(self)@.settled() ==> final(self)@.settled(),
            old(self)@.accepts_wait(blocked, blocking) ==> {
                &&& waiting == !old(self)@.resolved(blocking as int)
                &&& waiting ==> final(self)@ == old(self)@.after_wait(
                    blocked as int,
                    blocking as int,
                )
                &&& !waiting ==> final(self)@ == old(self)@
            },
            !old(self)@.accepts_wait(blocked, blocking) ==> !waiting && final(self)@ == old(
                self,
            )@.after_halt(HaltReason::InvariantViolation),
    {
        let d = blocked as usize;
        let b = blocking as usize;
        let executing = d < self.status.len() && self.local[d] && match self.status[d] {
            TxnStatus::Executing => true,
            _ => false,
        };
        if !(executing && blocking < blocked) {
            self.halt(HaltReason::InvariantViolation);
            return false;
        }
        if self.is_resolved(blocking) {
            return false;
        }
        proof {
            self@.lemma_wait_wf(blocked, blocking);
        }
        let incarnation = self.incarnation[d];
        self.status[d] = TxnStatus::Aborting(incarnation);
        self.dependents[b].push(blocked);
        assert(self@.dependents =~= old(self)@.after_wait(blocked as int, blocking as int).dependents);
        assert(self@ == old(self)@.after_wait(blocked as int, blocking as int));
        true
    }

    /// Whether a report on the validation of `idx` in `incarnation` fits the state.
    pub fn accepts_validation_report(&self, idx: TxnIndex, incarnation: Incarnation) -> (result:
        bool)
        requires
            self@.wf(),
        ensures
            result == self@.accepts_validation_report(idx, incarnation),
    {
        let i = idx as usize;
        if i < self.status.len() && self.local[i] {
            match self.status[i] {
                TxnStatus::Executed(x) => x == incarnation,
                _ => false,
            }
        } else {
            false
        }
    }

    /// Commits all that can be committed.
    fn commit_ready(&mut self)
        requires
            old(self)@.wf(),
        ensures
            final(self)@.wf(),
            final(self)@.settled(),
            final(self)@ == old(self)@.after_commits(),
    {
        let n = self.status.len();
        loop
            invariant
                self@.wf(),
                n == self@.len(),
                self@.after_commits() == old(self)@.after_commits(),
            ensures
                self@.wf(),
                self@.settled(),
                self@ == old(self)@.after_commits(),
            decreases n - self.commit_idx,
        {
            let c = self.commit_idx as usize;
            if self.halted.is_some() || c >= n || !self.is_validated(self.commit_idx) {
                break ;
            }
            proof {
                self@.lemma_commit_wf();
            }
            let ghost before = self@;
            self.status[c] = TxnStatus::Committed;
            let mut next: usize = c + 1;
            while next < n && !self.local[next]
                invariant
                    c < next <= n == self.local.len(),
                    next_local(self.local@, c + 1) == next_local(self.local@, next as int),
                decreases n - next,
            {
                next += 1;
            }
            self.commit_idx = next as TxnIndex;
            assert(self@.dependents =~= before.dependents);
            assert(self@ == before.after_commit());
        }
    }

    /// Records the outcome of the validation of `idx` in `incarnation`.
    ///
    /// On success the transaction counts as validated, and every transaction
    /// from the commit cursor on that is executed and validated is committed,
    /// in index order. On failure the incarnation is given up: the next one is
    /// due, the validation cursor falls back behind `idx`, and the worker is
    /// told to execute `idx` again where the execution cursor will not come
    /// by again. A report on an incarnation that is no longer the executed
    /// one changes nothing.
    pub fn finish_validation(&mut self, idx: TxnIndex, incarnation: Incarnation, valid: bool) -> (action:
        NextAction)
        requires
            old(self)@.wf(),
        ensures
            final(self)@.wf(),
            old(self)@.settled() ==> final(self)@.settled(),
            !old(self)@.accepts_validation_report(idx, incarnation) ==> final(self)@ == old(
                self,
            )@ && action == NextAction::Nothing,
            old(self)@.accepts_validation_report(idx, incarnation) && valid ==> final(self)@
                == old(self)@.after_validated(idx as int).after_commits() && action
                == NextAction::Nothing,
            old(self)@.accepts_validation_report(idx, incarnation) && !valid ==> final(self)@
                == old(self)@.after_abort(idx as int) && action == old(self)@.action_after_abort(
                idx as int,
            ),
    {
        if !self.accepts_validation_report(idx, incarnation) {
            return NextAction::Nothing;
        }
        let i = idx as usize;
        if valid {
            proof {
                self@.lemma_validated_wf(idx as int);
            }
            self.validated[i] = true;
            assert(self@.dependents =~= old(self)@.dependents);
            assert(self@ == old(self)@.after_validated(idx as int));
            self.commit_ready();
            NextAction::Nothing
        } else {
            proof {
                assert(self@.txn_wf(i as int));
                self@.lemma_abort_wf(idx);
            }
            let next = incarnation + 1;
            let at_once = idx < self.execution_idx && next < u32::MAX;
            self.incarnation[i] = next;
            self.validated[i] = false;
            if idx + 1 < self.validation_idx {
                self.validation_idx = idx + 1;
            }
            if at_once {
                self.status[i] = TxnStatus::Executing;
                proof {
                    self.attempts@ = self.attempts@.update(
                        i as int,
                        self.attempts@[i as int].push(next),
                    );
                }
                assert(self@.dependents =~= old(self)@.dependents);
                assert(self@ == old(self)@.after_abort(idx as int));
                NextAction::Execute(idx, next)
            } else {
                self.status[i] = TxnStatus::PendingExecution;
                if idx < self.execution_idx {
                    self.execution_idx = idx;
                }
                assert(self@.dependents =~= old(self)@.dependents);
                assert(self@ == old(self)@.after_abort(idx as int));
                NextAction::Nothing
            }
        }
    }

    /// Records that the output of the remote transaction `r` has arrived in
    /// full: `r` is final, and the transactions that waited for it become
    /// pending with their next incarnation. Returns `false`, and changes
    /// nothing, where `r` is not a remote transaction whose output is awaited.
    pub fn remote_arrived(&mut self, r: TxnIndex) -> (accepted: bool)
        requires
            old(self)@.wf(),
        ensures
            final(self)@.wf(),
            old(self)@.settled() ==> final(self)@.settled(),
            accepted == old(self)@.accepts_arrival(r),
            accepted ==> final(self)@ == old(self)@.after_arrival(r as int),
            !accepted ==> final(self)@ == old(self)@,
    {
        let i = r as usize;
        let awaited = i < self.status.len() && !self.local[i] && match self.status[i] {
            TxnStatus::Executing => true,
            _ => false,
        };
        if !awaited {
            return false;
        }
        proof {
            self@.lemma_arrival_wf(r);
        }
        self.wake(i);
        self.status[i] = TxnStatus::Committed;
        assert(self@.dependents =~= old(self)@.after_arrival(r as int).dependents);
        assert(self@ == old(self)@.after_arrival(r as int));
        true
    }
}

/// The first local index found by a scan is the one that `next_local` names.
proof fn lemma_first_local_is_next(local: Seq<bool>, from: int, found: int)
    requires
        0 <= from <= found <= local.len(),
        forall|k: int| from <= k < found ==> !local[k],
        found < local.len() ==> local[found],
    ensures
        next_local(local, from) == found,
    decreases found - from,
{
    if from < found {
        lemma_first_local_is_next(local, from + 1, found);
    }
}

} // verus!
