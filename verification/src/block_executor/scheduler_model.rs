//! The scheduler as a state machine on mathematical values.
//!
//! [`SchedulerView`] is what the scheduler knows of every transaction; the
//! functions named `after_*` are its transitions. The executable scheduler
//! states each of its methods as one of these transitions, and the laws of
//! the block executor are proved over them.

use crate::block_executor::types::{HaltReason, Incarnation, NextAction, TxnIndex, TxnStatus};
use vstd::prelude::*;

verus! {

/// The scheduler's state.
pub struct SchedulerView {
    /// Whether the transaction at an index is executed here; the others are
    /// executed elsewhere and only their outputs arrive.
    pub local: Seq<bool>,
    pub status: Seq<TxnStatus>,
    /// The current incarnation of each transaction.
    pub incarnation: Seq<Incarnation>,
    /// Set by a successful validation; it counts only below the validation cursor.
    pub validated: Seq<bool>,
    /// For each transaction, those that wait for it to finish.
    pub dependents: Seq<Seq<TxnIndex>>,
    /// No transaction below this index waits to be handed out for execution.
    pub execution_idx: TxnIndex,
    /// Executed transactions from this index on wait to be handed out for validation.
    pub validation_idx: TxnIndex,
    /// Every local transaction below this index is committed, and no other.
    pub commit_idx: TxnIndex,
    pub halted: Option<HaltReason>,
    /// For each transaction, the incarnations handed out for execution so far, in order.
    pub attempts: Seq<Seq<Incarnation>>,
}

/// The first index from `from` on that is local, or the length of `local`.
pub open spec fn next_local(local: Seq<bool>, from: int) -> int
    decreases local.len() - from,
{
    if from < 0 || from >= local.len() {
        local.len() as int
    } else if local[from] {
        from
    } else {
        next_local(local, from + 1)
    }
}

impl SchedulerView {
    pub open spec fn len(self) -> int {
        self.status.len() as int
    }

    pub open spec fn in_range(self, i: int) -> bool {
        0 <= i < self.status.len()
    }

    /// The transaction has an output that readers can use.
    pub open spec fn resolved(self, i: int) -> bool {
        self.status[i] is Executed || self.status[i] is Committed
    }

    /// The transaction is executed, and its reads were found valid since the
    /// validation cursor last passed it.
    pub open spec fn is_validated(self, i: int) -> bool {
        self.local[i] && self.validated[i] && i < self.validation_idx
            && self.status[i] is Executed
    }

    pub open spec fn is_committed(self, i: int) -> bool {
        self.local[i] && self.status[i] is Committed
    }

    /// Every local transaction is committed.
    pub open spec fn is_done(self) -> bool {
        self.commit_idx == self.len()
    }

    pub open spec fn needs_validation(self, j: int) -> bool {
        self.local[j] && self.validation_idx <= j && self.status[j] is Executed
    }

    pub open spec fn needs_execution(self, j: int) -> bool {
        self.local[j] && self.execution_idx <= j && self.status[j] is PendingExecution
    }

    /// A task can be handed out for the transaction.
    pub open spec fn is_candidate(self, j: int) -> bool {
        self.needs_validation(j) || self.needs_execution(j)
    }

    /// The transaction is the lowest for which a task can be handed out.
    pub open spec fn is_first_candidate(self, j: int) -> bool {
        &&& self.in_range(j)
        &&& self.is_candidate(j)
        &&& forall|k: int| 0 <= k < j ==> !self.is_candidate(k)
    }

    pub open spec fn no_candidate(self) -> bool {
        forall|k: int| 0 <= k < self.len() ==> !self.is_candidate(k)
    }

    /// The transaction waits in the list of a transaction that has not finished.
    pub open spec fn has_waker(self, d: int) -> bool {
        exists|b: int|
            self.in_range(b) && !self.resolved(b) && #[trigger] self.dependents[b].contains(
                d as TxnIndex,
            )
    }

    /// The incarnations handed out for a transaction increase strictly, and
    /// agree with its current incarnation and status.
    pub open spec fn attempts_wf(self, i: int) -> bool {
        let a = self.attempts[i];
        &&& forall|p: int, q: int| 0 <= p < q < a.len() ==> a[p] < a[q]
        &&& forall|p: int| 0 <= p < a.len() ==> a[p] <= self.incarnation[i]
        &&& self.status[i] is PendingExecution ==> forall|p: int|
            0 <= p < a.len() ==> a[p] < self.incarnation[i]
        &&& self.local[i] && !(self.status[i] is PendingExecution) ==> a.len() > 0 && a.last()
            == self.incarnation[i]
    }

    pub open spec fn txn_wf(self, i: int) -> bool {
        &&& self.status[i] matches TxnStatus::Executed(x) ==> x == self.incarnation[i]
        &&& self.status[i] matches TxnStatus::Aborting(x) ==> x == self.incarnation[i]
        &&& !(self.status[i] is PendingExecution) ==> self.incarnation[i] < u32::MAX
        &&& self.local[i] ==> (self.status[i] is Committed <==> i < self.commit_idx)
        &&& !self.local[i] ==> self.status[i] is Executing || self.status[i] is Committed
        &&& self.status[i] is PendingExecution ==> self.execution_idx <= i
        &&& self.attempts_wf(i)
    }

    pub open spec fn wf(self) -> bool {
        &&& self.status.len() <= u32::MAX
        &&& self.local.len() == self.status.len()
        &&& self.incarnation.len() == self.status.len()
        &&& self.validated.len() == self.status.len()
        &&& self.dependents.len() == self.status.len()
        &&& self.attempts.len() == self.status.len()
        &&& self.execution_idx <= self.status.len()
        &&& self.validation_idx <= self.status.len()
        &&& self.commit_idx <= self.status.len()
        &&& self.commit_idx < self.status.len() ==> self.local[self.commit_idx as int]
        &&& forall|i: int| self.in_range(i) ==> #[trigger] self.txn_wf(i)
        &&& forall|b: int, p: int|
            self.in_range(b) && 0 <= p < self.dependents[b].len() ==> b
                < #[trigger] self.dependents[b][p] < self.status.len()
        &&& forall|d: int|
            self.in_range(d) && #[trigger] self.status[d] is Aborting ==> self.has_waker(d)
    }

    /// The state in which a block starts: local transactions wait for their
    /// first execution, the others are in progress elsewhere where
    /// `remote_pending` says so and have nothing to deliver where it does not.
    pub open spec fn initial(local: Seq<bool>, remote_pending: Seq<bool>) -> SchedulerView {
        SchedulerView {
            local,
            status: Seq::new(
                local.len(),
                |i: int|
                    if local[i] {
                        TxnStatus::PendingExecution
                    } else if remote_pending[i] {
                        TxnStatus::Executing
                    } else {
                        TxnStatus::Committed
                    },
            ),
            incarnation: Seq::new(local.len(), |i: int| 0u32),
            validated: Seq::new(local.len(), |i: int| false),
            dependents: Seq::new(local.len(), |i: int| Seq::<TxnIndex>::empty()),
            execution_idx: 0,
            validation_idx: 0,
            commit_idx: next_local(local, 0) as TxnIndex,
            halted: None,
            attempts: Seq::new(local.len(), |i: int| Seq::<Incarnation>::empty()),
        }
    }

    /// A validation task for `j` was handed out.
    pub open spec fn after_validation_handed_out(self, j: int) -> SchedulerView {
        SchedulerView {
            validation_idx: (j + 1) as TxnIndex,
            validated: self.validated.update(j, false),
            ..self
        }
    }

    /// An execution task for `j` was handed out.
    pub open spec fn after_execution_handed_out(self, j: int) -> SchedulerView {
        SchedulerView {
            status: self.status.update(j, TxnStatus::Executing),
            execution_idx: (j + 1) as TxnIndex,
            attempts: self.attempts.update(j, self.attempts[j].push(self.incarnation[j])),
            ..self
        }
    }

    /// The block stopped, unless it had stopped before.
    pub open spec fn after_halt(self, reason: HaltReason) -> SchedulerView {
        if self.halted is Some {
            self
        } else {
            SchedulerView { halted: Some(reason), ..self }
        }
    }

    /// `d` waits for `b` and is woken when `b` finishes.
    pub open spec fn woken_by(self, b: int, d: int) -> bool {
        self.dependents[b].contains(d as TxnIndex) && self.status[d] is Aborting
    }

    /// The lowest index from `from` on that `b` wakes, or the number of transactions.
    pub open spec fn first_woken(self, b: int, from: int) -> int
        decreases self.len() - from,
    {
        if from < 0 || from >= self.len() {
            self.len()
        } else if self.woken_by(b, from) {
            from
        } else {
            self.first_woken(b, from + 1)
        }
    }

    /// The transactions that wait for `b` become ready for their next
    /// incarnation, and the execution cursor falls back to the lowest of them.
    pub open spec fn after_wake(self, b: int) -> SchedulerView {
        let lowest = self.first_woken(b, 0);
        SchedulerView {
            status: Seq::new(
                self.status.len(),
                |i: int|
                    if self.woken_by(b, i) {
                        TxnStatus::PendingExecution
                    } else {
                        self.status[i]
                    },
            ),
            incarnation: Seq::new(
                self.status.len(),
                |i: int|
                    if self.woken_by(b, i) {
                        (self.incarnation[i] + 1) as Incarnation
                    } else {
                        self.incarnation[i]
                    },
            ),
            dependents: self.dependents.update(b, Seq::empty()),
            execution_idx: if lowest < self.execution_idx {
                lowest as TxnIndex
            } else {
                self.execution_idx
            },
            ..self
        }
    }

    /// The report of a finished execution fits the state.
    pub open spec fn accepts_execution_report(self, idx: TxnIndex, incarnation: Incarnation) -> bool {
        &&& self.in_range(idx as int)
        &&& self.local[idx as int]
        &&& self.status[idx as int] is Executing
        &&& self.incarnation[idx as int] == incarnation
    }

    /// The execution of `idx` finished: it is executed and awaits validation,
    /// those that waited for it are woken, and where it wrote a key that its
    /// previous incarnation had not written the validation cursor falls back
    /// to it, so that every higher transaction is validated again.
    pub open spec fn after_finish_execution(self, idx: int, wrote_new_keys: bool) -> SchedulerView {
        let w = self.after_wake(idx);
        SchedulerView {
            status: w.status.update(idx, TxnStatus::Executed(self.incarnation[idx])),
            validated: w.validated.update(idx, false),
            validation_idx: if wrote_new_keys && idx < self.validation_idx {
                idx as TxnIndex
            } else {
                self.validation_idx
            },
            ..w
        }
    }

    /// What the worker that reported the execution does next: where no new key
    /// was written and the validation cursor has passed the transaction, it
    /// validates the transaction itself.
    pub open spec fn action_after_finish_execution(
        self,
        idx: int,
        wrote_new_keys: bool,
    ) -> NextAction {
        if !wrote_new_keys && idx < self.validation_idx {
            NextAction::Validate(idx as TxnIndex, self.incarnation[idx])
        } else {
            NextAction::Nothing
        }
    }

    /// An execution was given up for a retry: the transaction is ready again,
    /// with the next incarnation.
    pub open spec fn after_retry(self, idx: int) -> SchedulerView {
        SchedulerView {
            status: self.status.update(idx, TxnStatus::PendingExecution),
            incarnation: self.incarnation.update(idx, (self.incarnation[idx] + 1) as Incarnation),
            execution_idx: if idx < self.execution_idx {
                idx as TxnIndex
            } else {
                self.execution_idx
            },
            ..self
        }
    }

    /// The wait of `blocked` for `blocking` can be registered.
    pub open spec fn accepts_wait(self, blocked: TxnIndex, blocking: TxnIndex) -> bool {
        &&& self.in_range(blocked as int)
        &&& blocking < blocked
        &&& self.local[blocked as int]
        &&& self.status[blocked as int] is Executing
    }

    /// `blocked` gave up its execution and waits for `blocking`.
    pub open spec fn after_wait(self, blocked: int, blocking: int) -> SchedulerView {
        SchedulerView {
            status: self.status.update(
                blocked,
                TxnStatus::Aborting(self.incarnation[blocked]),
            ),
            dependents: self.dependents.update(
                blocking,
                self.dependents[blocking].push(blocked as TxnIndex),
            ),
            ..self
        }
    }

    /// The report of a validation fits the state: the transaction is executed
    /// in the incarnation that the validation was handed out for.
    pub open spec fn accepts_validation_report(
        self,
        idx: TxnIndex,
        incarnation: Incarnation,
    ) -> bool {
        &&& self.in_range(idx as int)
        &&& self.local[idx as int]
        &&& self.status[idx as int] == TxnStatus::Executed(incarnation)
    }

    /// A failed validation hands the transaction straight back for execution
    /// where the execution cursor has passed it.
    pub open spec fn reexecutes_at_once(self, idx: int) -> bool {
        idx < self.execution_idx && self.incarnation[idx] + 1 < u32::MAX
    }

    /// The validation of `idx` failed: the incarnation is given up, the next
    /// one is due, and the validation cursor falls back behind `idx`, so that
    /// every higher transaction is validated again.
    pub open spec fn after_abort(self, idx: int) -> SchedulerView {
        let next = (self.incarnation[idx] + 1) as Incarnation;
        let base = SchedulerView {
            incarnation: self.incarnation.update(idx, next),
            validated: self.validated.update(idx, false),
            validation_idx: if idx + 1 < self.validation_idx {
                (idx + 1) as TxnIndex
            } else {
                self.validation_idx
            },
            ..self
        };
        if self.reexecutes_at_once(idx) {
            SchedulerView {
                status: self.status.update(idx, TxnStatus::Executing),
                attempts: self.attempts.update(idx, self.attempts[idx].push(next)),
                ..base
            }
        } else {
            SchedulerView {
                status: self.status.update(idx, TxnStatus::PendingExecution),
                execution_idx: if idx < self.execution_idx {
                    idx as TxnIndex
                } else {
                    self.execution_idx
                },
                ..base
            }
        }
    }

    pub open spec fn action_after_abort(self, idx: int) -> NextAction {
        if self.reexecutes_at_once(idx) {
            NextAction::Execute(idx as TxnIndex, (self.incarnation[idx] + 1) as Incarnation)
        } else {
            NextAction::Nothing
        }
    }

    /// The validation of `idx` succeeded.
    pub open spec fn after_validated(self, idx: int) -> SchedulerView {
        SchedulerView { validated: self.validated.update(idx, true), ..self }
    }

    /// The transaction at the commit cursor can be committed: the block has
    /// not stopped, and the transaction is executed and validated.
    pub open spec fn can_commit(self) -> bool {
        &&& self.halted is None
        &&& self.commit_idx < self.len()
        &&& self.is_validated(self.commit_idx as int)
    }

    /// All that can be committed is committed.
    pub open spec fn settled(self) -> bool {
        !self.can_commit()
    }

    /// A worker holds a task for the transaction, or the output of the
    /// transaction is awaited from elsewhere: it is being executed, or it is
    /// executed and a validation that was handed out for it is not reported.
    pub open spec fn is_outstanding(self, i: int) -> bool {
        self.status[i] is Executing || (self.local[i] && self.status[i] is Executed && i
            < self.validation_idx && !self.validated[i])
    }

    /// The transaction at the commit cursor is committed, and the cursor
    /// moves on to the next local transaction.
    pub open spec fn after_commit(self) -> SchedulerView {
        SchedulerView {
            status: self.status.update(self.commit_idx as int, TxnStatus::Committed),
            commit_idx: next_local(self.local, self.commit_idx + 1) as TxnIndex,
            ..self
        }
    }

    /// All that can be committed is committed.
    pub open spec fn after_commits(self) -> SchedulerView
        decreases u32::MAX - self.commit_idx,
    {
        if self.can_commit() && self.after_commit().commit_idx > self.commit_idx {
            self.after_commit().after_commits()
        } else {
            self
        }
    }

    /// The output of the remote transaction `r` has arrived in full.
    pub open spec fn accepts_arrival(self, r: TxnIndex) -> bool {
        &&& self.in_range(r as int)
        &&& !self.local[r as int]
        &&& self.status[r as int] is Executing
    }

    /// The remote transaction is final, and those that waited for it are woken.
    pub open spec fn after_arrival(self, r: int) -> SchedulerView {
        let w = self.after_wake(r);
        SchedulerView { status: w.status.update(r, TxnStatus::Committed), ..w }
    }
}

/// `next_local` lands on a local index, or on the end, and skips only indices that are not local.
pub proof fn lemma_next_local(local: Seq<bool>, from: int)
    requires
        0 <= from <= local.len(),
    ensures
        from <= next_local(local, from) <= local.len(),
        next_local(local, from) < local.len() ==> local[next_local(local, from)],
        forall|k: int| from <= k < next_local(local, from) ==> !local[k],
    decreases local.len() - from,
{
    if from < local.len() && !local[from] {
        lemma_next_local(local, from + 1);
    }
}

impl SchedulerView {
    /// `first_woken` is the lowest index from `from` on that `b` wakes.
    pub proof fn lemma_first_woken(self, b: int, from: int)
        requires
            0 <= from <= self.len(),
        ensures
            from <= self.first_woken(b, from) <= self.len(),
            self.first_woken(b, from) < self.len() ==> self.woken_by(b, self.first_woken(b, from)),
            forall|k: int| from <= k < self.first_woken(b, from) ==> !self.woken_by(b, k),
        decreases self.len() - from,
    {
        if from < self.len() && !self.woken_by(b, from) {
            self.lemma_first_woken(b, from + 1);
        }
    }

    /// The state in which a block starts is well formed.
    pub proof fn lemma_initial_wf(local: Seq<bool>, remote_pending: Seq<bool>)
        requires
            local.len() <= u32::MAX,
        ensures
            Self::initial(local, remote_pending).settled(),
            Self::initial(local, remote_pending).wf(),
    {
        let v = Self::initial(local, remote_pending);
        lemma_next_local(local, 0);
        assert forall|i: int| v.in_range(i) implies #[trigger] v.txn_wf(i) by {
            lemma_next_local(local, 0);
        }
    }

    /// Handing out a validation task keeps the state well formed.
    pub proof fn lemma_validation_handed_out_wf(self, j: int)
        requires
            self.wf(),
            self.in_range(j),
        ensures
            self.settled() && self.is_first_candidate(j) && self.needs_validation(j)
                ==> self.after_validation_handed_out(j).settled(),
            self.after_validation_handed_out(j).wf(),
    {
        let v = self.after_validation_handed_out(j);
        assert forall|i: int| v.in_range(i) implies #[trigger] v.txn_wf(i) by {
            assert(self.txn_wf(i));
        }
        if self.settled() && self.is_first_candidate(j) && self.needs_validation(j) {
            let c = self.commit_idx as int;
            if c < j {
                assert(!self.is_candidate(c));
            }
        }
        assert forall|d: int| v.in_range(d) && #[trigger] v.status[d] is Aborting implies v.has_waker(
            d,
        ) by {
            self.lemma_waker_kept(v, d);
        }
    }

    /// A waiting transaction keeps its waker in a state that has the same
    /// waiting lists, where no unfinished transaction has finished.
    pub proof fn lemma_waker_kept(self, v: SchedulerView, d: int)
        requires
            self.has_waker(d),
            v.status.len() == self.status.len(),
            forall|b: int|
                self.in_range(b) && !self.resolved(b) && #[trigger] self.dependents[b].contains(
                    d as TxnIndex,
                ) ==> !v.resolved(b) && v.dependents[b].contains(d as TxnIndex),
        ensures
            v.has_waker(d),
    {
        let b = choose|b: int|
            self.in_range(b) && !self.resolved(b) && #[trigger] self.dependents[b].contains(
                d as TxnIndex,
            );
        assert(v.in_range(b) && !v.resolved(b) && v.dependents[b].contains(d as TxnIndex));
    }

    /// Handing out an execution task to the first candidate keeps the state well formed.
    pub proof fn lemma_execution_handed_out_wf(self, j: int)
        requires
            self.wf(),
            self.is_first_candidate(j),
            self.needs_execution(j),
            self.incarnation[j] < u32::MAX,
        ensures
            self.settled() ==> self.after_execution_handed_out(j).settled(),
            self.after_execution_handed_out(j).wf(),
    {
        let v = self.after_execution_handed_out(j);
        assert forall|i: int| v.in_range(i) implies #[trigger] v.txn_wf(i) by {
            assert(self.txn_wf(i));
            if i < j {
                assert(!self.is_candidate(i));
            }
        }
        assert forall|d: int| v.in_range(d) && #[trigger] v.status[d] is Aborting implies v.has_waker(
            d,
        ) by {
            assert(self.status[d] is Aborting);
            self.lemma_waker_kept(v, d);
        }
    }

    /// Stopping the block keeps the state well formed.
    pub proof fn lemma_halt_wf(self, reason: HaltReason)
        requires
            self.wf(),
        ensures
            self.settled() ==> self.after_halt(reason).settled(),
            self.after_halt(reason).wf(),
    {
        let v = self.after_halt(reason);
        assert forall|i: int| v.in_range(i) implies #[trigger] v.txn_wf(i) by {
            assert(self.txn_wf(i));
        }
        assert forall|d: int| v.in_range(d) && #[trigger] v.status[d] is Aborting implies v.has_waker(
            d,
        ) by {
            self.lemma_waker_kept(v, d);
        }
    }

    /// Waking the transactions that wait for `b`, and then giving `b` a
    /// status in which it has finished, keeps the state well formed.
    pub proof fn lemma_wake_then_finish_wf(self, b: int, v: SchedulerView, finished: TxnStatus)
        requires
            self.wf(),
            self.in_range(b),
            !self.resolved(b),
            !(self.status[b] is Aborting),
            !(self.status[b] is PendingExecution),
            finished == TxnStatus::Executed(self.incarnation[b]) && self.local[b]
                || finished == TxnStatus::Committed && !self.local[b],
            v.status == self.after_wake(b).status.update(b, finished),
            v.incarnation == self.after_wake(b).incarnation,
            v.dependents == self.after_wake(b).dependents,
            v.execution_idx == self.after_wake(b).execution_idx,
            v.local == self.local,
            v.attempts == self.attempts,
            v.commit_idx == self.commit_idx,
            v.validated.len() == self.validated.len(),
            v.validation_idx <= self.validation_idx,
        ensures
            v.wf(),
    {
        let w = self.after_wake(b);
        self.lemma_first_woken(b, 0);
        assert forall|i: int| v.in_range(i) implies #[trigger] v.txn_wf(i) by {
            assert(self.txn_wf(i));
            assert(self.txn_wf(b));
            if self.woken_by(b, i) {
                assert(v.execution_idx <= i);
            }
        }
        assert forall|x: int, p: int|
            v.in_range(x) && 0 <= p < v.dependents[x].len() implies x
            < #[trigger] v.dependents[x][p] < v.status.len() by {
            assert(x != b);
            assert(x < self.dependents[x][p] < self.status.len());
        }
        assert forall|d: int| v.in_range(d) && #[trigger] v.status[d] is Aborting implies v.has_waker(
            d,
        ) by {
            assert(self.status[d] is Aborting);
            let x = choose|x: int|
                self.in_range(x) && !self.resolved(x) && #[trigger] self.dependents[x].contains(
                    d as TxnIndex,
                );
            assert(x != b);
            assert(v.in_range(x) && !v.resolved(x) && v.dependents[x].contains(d as TxnIndex));
        }
    }

    /// Recording a finished execution keeps the state well formed.
    pub proof fn lemma_finish_execution_wf(self, idx: TxnIndex, wrote_new_keys: bool)
        requires
            self.wf(),
            self.accepts_execution_report(idx, self.incarnation[idx as int]),
        ensures
            self.settled() ==> self.after_finish_execution(idx as int, wrote_new_keys).settled(),
            self.after_finish_execution(idx as int, wrote_new_keys).wf(),
    {
        let v = self.after_finish_execution(idx as int, wrote_new_keys);
        assert(self.txn_wf(idx as int));
        if self.commit_idx < self.len() {
            assert(self.txn_wf(self.commit_idx as int));
        }
        self.lemma_wake_then_finish_wf(
            idx as int,
            v,
            TxnStatus::Executed(self.incarnation[idx as int]),
        );
    }

    /// The arrival of a remote output keeps the state well formed.
    pub proof fn lemma_arrival_wf(self, r: TxnIndex)
        requires
            self.wf(),
            self.accepts_arrival(r),
        ensures
            self.settled() ==> self.after_arrival(r as int).settled(),
            self.after_arrival(r as int).wf(),
    {
        let v = self.after_arrival(r as int);
        assert(self.txn_wf(r as int));
        if self.commit_idx < self.len() {
            assert(self.txn_wf(self.commit_idx as int));
        }
        self.lemma_wake_then_finish_wf(r as int, v, TxnStatus::Committed);
    }

    /// Giving up an execution for a retry keeps the state well formed.
    pub proof fn lemma_retry_wf(self, idx: TxnIndex)
        requires
            self.wf(),
            self.accepts_execution_report(idx, self.incarnation[idx as int]),
        ensures
            self.settled() ==> self.after_retry(idx as int).settled(),
            self.after_retry(idx as int).wf(),
    {
        let v = self.after_retry(idx as int);
        assert(self.txn_wf(idx as int));
        assert forall|i: int| v.in_range(i) implies #[trigger] v.txn_wf(i) by {
            assert(self.txn_wf(i));
        }
        assert forall|d: int| v.in_range(d) && #[trigger] v.status[d] is Aborting implies v.has_waker(
            d,
        ) by {
            assert(self.status[d] is Aborting);
            self.lemma_waker_kept(v, d);
        }
    }

    /// Registering a wait on an unfinished transaction keeps the state well formed.
    pub proof fn lemma_wait_wf(self, blocked: TxnIndex, blocking: TxnIndex)
        requires
            self.wf(),
            self.accepts_wait(blocked, blocking),
            !self.resolved(blocking as int),
        ensures
            self.settled() ==> self.after_wait(blocked as int, blocking as int).settled(),
            self.after_wait(blocked as int, blocking as int).wf(),
    {
        let v = self.after_wait(blocked as int, blocking as int);
        assert(self.txn_wf(blocked as int));
        assert forall|i: int| v.in_range(i) implies #[trigger] v.txn_wf(i) by {
            assert(self.txn_wf(i));
        }
        assert forall|x: int, p: int|
            v.in_range(x) && 0 <= p < v.dependents[x].len() implies x
            < #[trigger] v.dependents[x][p] < v.status.len() by {
            if x == blocking && p == self.dependents[x].len() {
            } else {
                assert(x < self.dependents[x][p] < self.status.len());
            }
        }
        assert forall|d: int| v.in_range(d) && #[trigger] v.status[d] is Aborting implies v.has_waker(
            d,
        ) by {
            if d == blocked {
                let l = self.dependents[blocking as int];
                assert(l.push(blocked)[l.len() as int] == blocked);
                assert(v.dependents[blocking as int].contains(d as TxnIndex));
                assert(v.in_range(blocking as int) && !v.resolved(blocking as int));
            } else {
                assert(self.status[d] is Aborting);
                assert forall|b: int|
                    self.in_range(b) && !self.resolved(b)
                        && #[trigger] self.dependents[b].contains(
                        d as TxnIndex,
                    ) implies !v.resolved(b) && v.dependents[b].contains(d as TxnIndex) by {
                    if b == blocking {
                        let l = self.dependents[b];
                        let p = choose|p: int| 0 <= p < l.len() && l[p] == d as TxnIndex;
                        assert(l.push(blocked)[p] == d as TxnIndex);
                    }
                }
                self.lemma_waker_kept(v, d);
            }
        }
    }

    /// Giving up an incarnation after a failed validation keeps the state well formed.
    pub proof fn lemma_abort_wf(self, idx: TxnIndex)
        requires
            self.wf(),
            self.accepts_validation_report(idx, self.incarnation[idx as int]),
        ensures
            self.settled() ==> self.after_abort(idx as int).settled(),
            self.after_abort(idx as int).wf(),
    {
        let v = self.after_abort(idx as int);
        assert(self.txn_wf(idx as int));
        assert forall|i: int| v.in_range(i) implies #[trigger] v.txn_wf(i) by {
            assert(self.txn_wf(i));
        }
        assert forall|d: int| v.in_range(d) && #[trigger] v.status[d] is Aborting implies v.has_waker(
            d,
        ) by {
            assert(self.status[d] is Aborting);
            self.lemma_waker_kept(v, d);
        }
    }

    /// Noting a successful validation keeps the state well formed.
    pub proof fn lemma_validated_wf(self, idx: int)
        requires
            self.wf(),
            self.in_range(idx),
        ensures
            self.after_validated(idx).wf(),
    {
        let v = self.after_validated(idx);
        assert forall|i: int| v.in_range(i) implies #[trigger] v.txn_wf(i) by {
            assert(self.txn_wf(i));
        }
        assert forall|d: int| v.in_range(d) && #[trigger] v.status[d] is Aborting implies v.has_waker(
            d,
        ) by {
            self.lemma_waker_kept(v, d);
        }
    }

    /// Committing the transaction at the commit cursor keeps the state well
    /// formed and moves the cursor forward.
    pub proof fn lemma_commit_wf(self)
        requires
            self.wf(),
            self.can_commit(),
        ensures
            self.after_commit().wf(),
            self.after_commit().commit_idx > self.commit_idx,
            self.after_commit().commit_idx == next_local(self.local, self.commit_idx + 1),
    {
        let v = self.after_commit();
        let c = self.commit_idx as int;
        lemma_next_local(self.local, c + 1);
        assert(self.txn_wf(c));
        assert forall|i: int| v.in_range(i) implies #[trigger] v.txn_wf(i) by {
            assert(self.txn_wf(i));
        }
        assert forall|d: int| v.in_range(d) && #[trigger] v.status[d] is Aborting implies v.has_waker(
            d,
        ) by {
            assert(self.status[d] is Aborting);
            self.lemma_waker_kept(v, d);
        }
    }

    /// Committing all that can be committed keeps the state well formed, and
    /// leaves nothing that can be committed.
    pub proof fn lemma_commits_wf(self)
        requires
            self.wf(),
        ensures
            self.after_commits().wf(),
            !self.after_commits().can_commit(),
            self.after_commits().commit_idx >= self.commit_idx,
        decreases u32::MAX - self.commit_idx,
    {
        if self.can_commit() {
            self.lemma_commit_wf();
            self.after_commit().lemma_commits_wf();
        }
    }
}

impl SchedulerView {
    /// No wake-up is lost: a transaction that waits is in the list of a
    /// lower transaction that has not finished, and is woken when it does.
    pub proof fn lemma_waiting_has_waker(self, d: int) -> (b: int)
        requires
            self.wf(),
            self.in_range(d),
            self.status[d] is Aborting,
        ensures
            0 <= b < d,
            !self.resolved(b),
            self.dependents[b].contains(d as TxnIndex),
            self.after_wake(b).status[d] is PendingExecution,
            self.after_wake(b).incarnation[d] == self.incarnation[d] + 1,
    {
        let b = choose|b: int|
            self.in_range(b) && !self.resolved(b) && #[trigger] self.dependents[b].contains(
                d as TxnIndex,
            );
        let p = choose|p: int|
            0 <= p < self.dependents[b].len() && self.dependents[b][p] == d as TxnIndex;
        assert(b < self.dependents[b][p]);
        assert(self.txn_wf(d));
        b
    }

    /// Waiting is no dead end: where the block is neither done nor stopped
    /// and no task can be handed out, a worker holds a task that it has not
    /// reported, or an output is awaited from a transaction that is executed
    /// elsewhere. Its report, or the arrival, changes the state.
    pub proof fn lemma_wait_is_no_dead_end(self) -> (i: int)
        requires
            self.wf(),
            self.settled(),
            self.halted is None,
            !self.is_done(),
            self.no_candidate(),
        ensures
            self.in_range(i),
            self.is_outstanding(i),
    {
        let c = self.commit_idx as int;
        assert(self.txn_wf(c));
        assert(!self.is_candidate(c));
        if self.status[c] is Aborting {
            let b = self.lemma_waiting_has_waker(c);
            assert(self.txn_wf(b));
            b
        } else {
            c
        }
    }
}

} // verus!
