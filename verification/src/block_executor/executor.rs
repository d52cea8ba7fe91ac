//! The block executor: scheduler, store and records under one owner.
//!
//! Workers drive a block through the methods of [`BlockExecutor`]. Each
//! method is one indivisible step; whatever the order in which workers take
//! their steps, the invariant [`BlockExecutor::inv`] holds after each.

use crate::block_executor::executor_model::{
    awaited_flags, awaited_keys, dependencies_fit, initial_store,
    lemma_initial_store, lemma_writes_map_keys, read_valid, reads_valid, same_off, with_estimates,
    with_final_records, with_output, writes_map, writes_new_key, ExecutorView, RemoteDependency,
};
use crate::block_executor::scheduler::{next_task_post, remote_flags, Scheduler};
use crate::block_executor::txn_last_input_output::{ReadDescriptor, TxnLastInputOutput};
use crate::block_executor::txn_provider::{provider_flags, TxnIndexProvider};
use crate::block_executor::types::{
    HaltReason, Incarnation, Key, NextAction, SchedulerTask, TxnIndex, TxnStatus, Value, WriteOp,
};
use crate::block_executor::versioned_store::{read_spec, Cell, ReadResult, VersionedStore};
use vstd::prelude::*;

verus! {

/// Why a block could not be set up.
#[derive(Clone, Copy, Debug, PartialEq, Eq, Structural)]
pub enum SetupError {
    /// The block has more transactions than a transaction index can count.
    BlockTooLong,
    /// The remote dependency at this position names a local transaction, or
    /// one outside the block.
    InvalidRemoteDependency(usize),
}

/// Outcome of checking a read set against the store.
#[derive(Clone, Copy, Debug, PartialEq, Eq, Structural)]
pub enum ValidationResult {
    /// Every recorded read still holds.
    Valid,
    /// A recorded read no longer holds.
    Invalid,
    /// The transaction is not executed in the incarnation asked about.
    Stale,
}

/// The state of one block execution.
pub struct BlockExecutor {
    scheduler: Scheduler,
    store: VersionedStore,
    last_input_output: TxnLastInputOutput,
    remote_keys: Vec<Vec<Key>>,
}

/// The lists of keys as sequences.
pub open spec fn keys_view(lists: Seq<Vec<Key>>) -> Seq<Seq<Key>> {
    Seq::new(lists.len(), |i: int| lists[i]@)
}

impl View for BlockExecutor {
    type V = ExecutorView;

    closed spec fn view(&self) -> ExecutorView {
        ExecutorView {
            sched: self.scheduler@,
            store: self.store@,
            records: self.last_input_output@,
            remote_keys: keys_view(self.remote_keys@),
        }
    }
}

/// Whether a write set writes the key.
fn writes_key(write_set: &Vec<WriteOp>, key: Key) -> (found: bool)
    ensures
        found == writes_map(write_set@).contains_key(key),
{
    let mut p: usize = 0;
    while p < write_set.len()
        invariant
            p <= write_set.len(),
            forall|i: int| 0 <= i < p ==> write_set[i].key != key,
        decreases write_set.len() - p,
    {
        if write_set[p].key == key {
            proof {
                lemma_writes_map_keys(write_set@, key);
            }
            return true;
        }
        p += 1;
    }
    proof {
        lemma_writes_map_keys(write_set@, key);
    }
    false
}

/// The effect of a write set after one more write.
proof fn lemma_writes_map_step(ws: Seq<WriteOp>, p: int)
    requires
        0 <= p < ws.len(),
    ensures
        writes_map(ws.take(p + 1)) == writes_map(ws.take(p)).insert(ws[p].key, ws[p].value),
{
    assert(ws.take(p + 1).drop_last() == ws.take(p));
}

/// Replaces the cells of `idx` by the output of `incarnation`: the cells of
/// keys that are written no more are removed, the others are written.
/// Returns whether a key was written that `idx` had no cell for.
fn apply_output(
    store: &mut VersionedStore,
    idx: TxnIndex,
    incarnation: Incarnation,
    previous: Option<&Vec<WriteOp>>,
    write_set: &Vec<WriteOp>,
) -> (wrote_new_keys: bool)
    requires
        old(store).wf(),
        forall|k: Key| #[trigger]
            old(store)@.contains_key((k, idx)) ==> previous is Some && writes_map(
                previous->0@,
            ).contains_key(k),
    ensures
        final(store).wf(),
        final(store)@ == with_output(old(store)@, idx, incarnation, writes_map(write_set@)),
        wrote_new_keys == writes_new_key(old(store)@, idx, writes_map(write_set@)),
{
    let ghost m0 = store@;
    let ghost w = writes_map(write_set@);
    if let Some(prev) = previous {
        let mut p: usize = 0;
        while p < prev.len()
            invariant
                p <= prev.len(),
                store.wf(),
                w == writes_map(write_set@),
                same_off(m0, store@, idx),
                forall|k: Key|
                    #![trigger store@.contains_key((k, idx))]
                    #![trigger m0.contains_key((k, idx))]
                    store@.contains_key((k, idx)) <==> m0.contains_key((k, idx)) && !(writes_map(
                        prev@.take(p as int),
                    ).contains_key(k) && !w.contains_key(k)),
                forall|k: Key| #[trigger]
                    store@.contains_key((k, idx)) ==> store@[(k, idx)] == m0[(k, idx)],
            decreases prev.len() - p,
        {
            let key = prev[p].key;
            proof {
                lemma_writes_map_step(prev@, p as int);
            }
            if !writes_key(write_set, key) {
                store.remove(key, idx);
            }
            p += 1;
        }
        assert(prev@.take(prev@.len() as int) == prev@);
    }
    assert forall|k: Key|
        #![trigger store@.contains_key((k, idx))]
        #![trigger m0.contains_key((k, idx))]
        store@.contains_key((k, idx)) <==> m0.contains_key((k, idx)) && w.contains_key(k) by {}
    let mut wrote_new_keys = false;
    let mut p: usize = 0;
    while p < write_set.len()
        invariant
            p <= write_set.len(),
            store.wf(),
            w == writes_map(write_set@),
            same_off(m0, store@, idx),
            forall|k: Key|
                #![trigger store@.contains_key((k, idx))]
                #![trigger m0.contains_key((k, idx))]
                store@.contains_key((k, idx)) <==> (m0.contains_key((k, idx)) && w.contains_key(k))
                    || writes_map(write_set@.take(p as int)).contains_key(k),
            forall|k: Key| #[trigger]
                writes_map(write_set@.take(p as int)).contains_key(k) ==> w.contains_key(k)
                    && store@[(k, idx)] == (Cell {
                    incarnation,
                    value: writes_map(write_set@.take(p as int))[k],
                    estimate: false,
                }),
            wrote_new_keys == writes_new_key(m0, idx, writes_map(write_set@.take(p as int))),
        decreases write_set.len() - p,
    {
        let op = write_set[p];
        let ghost before = writes_map(write_set@.take(p as int));
        let ghost after = writes_map(write_set@.take(p + 1));
        proof {
            lemma_writes_map_step(write_set@, p as int);
            lemma_writes_map_keys(write_set@, op.key);
            assert(write_set@[p as int].key == op.key);
        }
        let fresh = store.get(op.key, idx).is_none();
        store.write(op.key, idx, incarnation, op.value);
        proof {
            if writes_new_key(m0, idx, before) {
                let k = choose|k: Key| #[trigger] before.contains_key(k) && !m0.contains_key((k, idx));
                assert(after.contains_key(k));
            }
            if fresh {
                assert(after.contains_key(op.key) && !m0.contains_key((op.key, idx)));
            }
            if writes_new_key(m0, idx, after) {
                let k = choose|k: Key| #[trigger] after.contains_key(k) && !m0.contains_key((k, idx));
                if k != op.key {
                    assert(before.contains_key(k));
                } else if !fresh {
                    assert(before.contains_key(k));
                }
            }
        }
        if fresh {
            wrote_new_keys = true;
        }
        p += 1;
    }
    proof {
        assert(write_set@.take(write_set@.len() as int) == write_set@);
        let target = with_output(m0, idx, incarnation, w);
        assert forall|q: (Key, TxnIndex)|
            #![trigger store@.contains_key(q)]
            #![trigger target.contains_key(q)]
            store@.contains_key(q) == target.contains_key(q) && (store@.contains_key(q)
                ==> store@[q] == target[q]) by {
            assert(q == (q.0, q.1));
            assert(store@.contains_key((q.0, q.1)) == m0.contains_key((q.0, q.1)) || q.1 == idx);
        }
        assert(store@ =~= target);
    }
    wrote_new_keys
}

/// Turns every cell of `idx` into an estimate.
fn mark_all_estimates(store: &mut VersionedStore, idx: TxnIndex, write_set: &Vec<WriteOp>)
    requires
        old(store).wf(),
        forall|k: Key| #[trigger]
            old(store)@.contains_key((k, idx)) ==> writes_map(write_set@).contains_key(k),
    ensures
        final(store).wf(),
        final(store)@ == with_estimates(old(store)@, idx),
{
    let ghost m0 = store@;
    let mut p: usize = 0;
    while p < write_set.len()
        invariant
            p <= write_set.len(),
            store.wf(),
            same_off(m0, store@, idx),
            forall|k: Key|
                #![trigger store@.contains_key((k, idx))]
                #![trigger m0.contains_key((k, idx))]
                store@.contains_key((k, idx)) == m0.contains_key((k, idx)),
            forall|k: Key| #[trigger]
                m0.contains_key((k, idx)) ==> store@[(k, idx)] == (if writes_map(
                    write_set@.take(p as int),
                ).contains_key(k) {
                    Cell { estimate: true, ..m0[(k, idx)] }
                } else {
                    m0[(k, idx)]
                }),
        decreases write_set.len() - p,
    {
        proof {
            lemma_writes_map_step(write_set@, p as int);
        }
        store.mark_estimate(write_set[p].key, idx);
        p += 1;
    }
    proof {
        assert(write_set@.take(write_set@.len() as int) == write_set@);
        let target = with_estimates(m0, idx);
        assert forall|q: (Key, TxnIndex)|
            #![trigger store@.contains_key(q)]
            #![trigger target.contains_key(q)]
            store@.contains_key(q) == target.contains_key(q) && (store@.contains_key(q)
                ==> store@[q] == target[q]) by {
            assert(q == (q.0, q.1));
            assert(store@.contains_key((q.0, q.1)) == m0.contains_key((q.0, q.1)));
        }
        assert(store@ =~= target);
    }
}

/// Whether every listed key of the remote transaction `r` has its value.
fn all_arrived(store: &VersionedStore, keys: &Vec<Key>, r: TxnIndex) -> (arrived: bool)
    requires
        store.wf(),
        forall|k: Key| #[trigger] store@.contains_key((k, r)) <==> keys@.contains(k),
    ensures
        arrived == ExecutorView::fully_arrived(store@, r),
{
    let mut p: usize = 0;
    while p < keys.len()
        invariant
            p <= keys.len(),
            store.wf(),
            forall|k: Key| #[trigger] store@.contains_key((k, r)) <==> keys@.contains(k),
            forall|q: int| 0 <= q < p ==> !store@[(#[trigger] keys[q], r)].estimate,
        decreases keys.len() - p,
    {
        assert(keys@.contains(keys[p as int]));
        match store.get(keys[p], r) {
            Some(cell) => {
                if cell.estimate {
                    return false;
                }
            },
            None => {},
        }
        p += 1;
    }
    proof {
        assert forall|k: Key| #[trigger] store@.contains_key((k, r)) implies !store@[(
            k,
            r,
        )].estimate by {
            let q = choose|q: int| 0 <= q < keys@.len() && keys@[q] == k;
            assert(!store@[(keys[q], r)].estimate);
        }
    }
    true
}

impl BlockExecutor {
    /// The well-formedness of the store's own representation.
    pub closed spec fn store_wf(&self) -> bool {
        self.store.wf()
    }

    /// The invariant of a block execution: see [`ExecutorView::inv`].
    pub open spec fn inv(&self) -> bool {
        self@.inv() && self.store_wf()
    }

    /// Sets up the execution of a block of `local.len()` transactions.
    ///
    /// The transactions flagged in `local` are executed here. Each remote
    /// dependency names a transaction that is executed elsewhere and a key
    /// whose value will arrive from it: until it arrives, a read that would
    /// see it waits.
    pub fn new(local: Vec<bool>, remote_dependencies: &Vec<RemoteDependency>) -> (result: Result<
        BlockExecutor,
        SetupError,
    >)
        ensures
            match result {
                Ok(executor) => {
                    &&& local.len() <= u32::MAX
                    &&& dependencies_fit(local@, remote_dependencies@)
                    &&& executor.inv()
                    &&& executor@ == ExecutorView::initial(local@, remote_dependencies@)
                },
                Err(SetupError::BlockTooLong) => local.len() > u32::MAX,
                Err(SetupError::InvalidRemoteDependency(p)) => {
                    &&& local.len() <= u32::MAX
                    &&& p < remote_dependencies.len()
                    &&& dependencies_fit(local@, remote_dependencies@.take(p as int))
                    &&& !(remote_dependencies[p as int].txn_idx < local.len()
                        && !local[remote_dependencies[p as int].txn_idx as int])
                },
            },
    {
        let n = local.len();
        if n > u32::MAX as usize {
            return Err(SetupError::BlockTooLong);
        }
        let mut remote_keys: Vec<Vec<Key>> = Vec::new();
        let mut pending: Vec<bool> = Vec::new();
        let mut i: usize = 0;
        while i < n
            invariant
                i <= n,
                remote_keys.len() == i,
                pending.len() == i,
                forall|j: int| 0 <= j < i ==> remote_keys[j]@ == Seq::<Key>::empty(),
                forall|j: int| 0 <= j < i ==> !pending[j],
            decreases n - i,
        {
            remote_keys.push(Vec::new());
            pending.push(false);
            i += 1;
        }
        let mut store = VersionedStore::new();
        let ghost deps = remote_dependencies@;
        assert(keys_view(remote_keys@) =~= awaited_keys(deps.take(0), n as nat));
        let mut p: usize = 0;
        while p < remote_dependencies.len()
            invariant
                p <= remote_dependencies.len(),
                deps == remote_dependencies@,
                n == local.len(),
                n <= u32::MAX,
                remote_keys.len() == n,
                pending.len() == n,
                store.wf(),
                dependencies_fit(local@, deps.take(p as int)),
                store@ == initial_store(deps.take(p as int)),
                keys_view(remote_keys@) == awaited_keys(deps.take(p as int), n as nat),
                forall|j: int|
                    0 <= j < n ==> pending[j] == awaited_flags(deps.take(p as int), n as nat)[j],
            decreases remote_dependencies.len() - p,
        {
            let d = remote_dependencies[p];
            let r = d.txn_idx as usize;
            if r >= n || local[r] {
                return Err(SetupError::InvalidRemoteDependency(p));
            }
            let ghost before = deps.take(p as int);
            let ghost after = deps.take(p + 1);
            proof {
                assert(after.drop_last() == before);
                assert(after.last() == d);
                lemma_initial_store(before, n as nat);
            }
            store.write(d.key, d.txn_idx, 0, 0);
            store.mark_estimate(d.key, d.txn_idx);
            remote_keys[r].push(d.key);
            pending[r] = true;
            p += 1;
            proof {
                assert(store@ =~= initial_store(after));
                assert(keys_view(remote_keys@) =~= awaited_keys(after, n as nat));
                assert forall|j: int| 0 <= j < n implies pending[j] == awaited_flags(
                    after,
                    n as nat,
                )[j] by {
                    if awaited_flags(before, n as nat)[j] {
                        let q = choose|q: int|
                            0 <= q < before.len() && #[trigger] before[q].txn_idx == j;
                        assert(after[q].txn_idx == j);
                    }
                    if awaited_flags(after, n as nat)[j] {
                        let q = choose|q: int|
                            0 <= q < after.len() && #[trigger] after[q].txn_idx == j;
                        if q < before.len() {
                            assert(before[q].txn_idx == j);
                        }
                    }
                    if j == r {
                        assert(after[p - 1].txn_idx == j);
                    }
                }
                assert forall|q: int| 0 <= q < after.len() implies (#[trigger] after[q]).txn_idx
                    < local@.len() && !local@[after[q].txn_idx as int] by {
                    if q < before.len() {
                        assert(before[q] == after[q]);
                    }
                }
            }
        }
        proof {
            assert(deps.take(deps.len() as int) == deps);
        }
        let ghost local_view = local@;
        let scheduler = match Scheduler::new(local, &pending) {
            Some(s) => s,
            None => {
                return Err(SetupError::BlockTooLong);
            },
        };
        let last_input_output = TxnLastInputOutput::new(n);
        let executor = BlockExecutor { scheduler, store, last_input_output, remote_keys };
        proof {
            assert(remote_flags(n as nat, pending@) =~= awaited_flags(deps, n as nat));
            assert(executor@.records =~= ExecutorView::initial(local_view, deps).records);
            ExecutorView::lemma_initial_inv(local_view, deps);
        }
        Ok(executor)
    }

    /// Sets up the execution of the block that `provider` describes: the
    /// local transactions are those that the provider flags as local.
    pub fn with_provider<P: TxnIndexProvider>(
        provider: &P,
        remote_dependencies: &Vec<RemoteDependency>,
    ) -> (result: Result<BlockExecutor, SetupError>)
        requires
            provider.valid(),
        ensures
            match result {
                Ok(executor) => {
                    &&& dependencies_fit(provider.local_flags(), remote_dependencies@)
                    &&& executor.inv()
                    &&& executor@ == ExecutorView::initial(
                        provider.local_flags(),
                        remote_dependencies@,
                    )
                },
                Err(SetupError::BlockTooLong) => false,
                Err(SetupError::InvalidRemoteDependency(p)) => {
                    &&& p < remote_dependencies.len()
                    &&& dependencies_fit(
                        provider.local_flags(),
                        remote_dependencies@.take(p as int),
                    )
                    &&& !(remote_dependencies[p as int].txn_idx < provider.local_flags().len()
                        && !provider.local_flags()[remote_dependencies[p as int].txn_idx as int])
                },
            },
    {
        let end = provider.end_txn_idx();
        let local = provider_flags(provider);
        assert(local@.len() == end);
        BlockExecutor::new(local, remote_dependencies)
    }

    /// The value that the block leaves for `key`: the value of the highest
    /// version of the key, or `None` where no transaction of the block holds
    /// the key or the highest version is an estimate.
    pub fn final_value(&self, key: Key) -> (result: Option<Value>)
        requires
            self.inv(),
        ensures
            result == (match read_spec(
                self@.store,
                key,
                self@.sched.len() as TxnIndex,
            ) {
                ReadResult::Resolved(_, value) => Some(value),
                _ => None,
            }),
    {
        let end = self.scheduler.num_txns() as TxnIndex;
        match self.store.read(key, end) {
            ReadResult::Resolved(_, value) => Some(value),
            _ => None,
        }
    }

    /// The scheduler, for queries.
    pub fn scheduler(&self) -> (scheduler: &Scheduler)
        ensures
            scheduler@ == self@.sched,
    {
        &self.scheduler
    }

    /// The store, for queries.
    pub fn store(&self) -> (store: &VersionedStore)
        ensures
            store@ == self@.store,
            self.store_wf() ==> store.wf(),
    {
        &self.store
    }

    /// The records of the last executions, for queries.
    pub fn last_input_output(&self) -> (tracker: &TxnLastInputOutput)
        ensures
            tracker@ == self@.records,
    {
        &self.last_input_output
    }

    /// Reads `key` as transaction `txn_idx` sees it.
    pub fn read(&self, key: Key, txn_idx: TxnIndex) -> (result: ReadResult)
        requires
            self.inv(),
        ensures
            result == read_spec(self@.store, key, txn_idx),
    {
        self.store.read(key, txn_idx)
    }

    /// The write set with which a local transaction was committed, or `None`
    /// where the transaction is not local or not committed.
    pub fn committed_writes(&self, idx: TxnIndex) -> (result: Option<&Vec<WriteOp>>)
        requires
            self.inv(),
        ensures
            result is Some <==> self@.in_range(idx as int) && self@.sched.is_committed(idx as int),
            result matches Some(ws) ==> *ws == self@.records[idx as int]->0.write_set,
    {
        if !self.scheduler.is_local(idx) {
            return None;
        }
        proof {
            assert(self@.txn_base(idx));
        }
        match self.scheduler.status(idx) {
            Some(TxnStatus::Committed) => self.last_input_output.write_set(idx),
            _ => None,
        }
    }

    /// Stops the block. The first reason given stays; nothing is committed afterwards.
    pub fn halt(&mut self, reason: HaltReason)
        requires
            old(self).inv(),
        ensures
            final(self).inv(),
            old(self)@.advances_to(final(self)@),
            final(self)@ == (ExecutorView { sched: old(self)@.sched.after_halt(reason), ..old(self)@ }),
    {
        proof {
            let sched = self@.sched.after_halt(reason);
            self@.sched.lemma_halt_wf(reason);
            self@.lemma_schedule_change(sched);
            self@.lemma_schedule_advance(sched);
        }
        self.scheduler.halt(reason);
    }

    /// Hands out the next task, to the lowest transaction for which there is
    /// one: see [`next_task_post`]. Store and records are untouched.
    pub fn next_task(&mut self) -> (task: SchedulerTask)
        requires
            old(self).inv(),
        ensures
            final(self).inv(),
            old(self)@.advances_to(final(self)@),
            next_task_post(old(self)@.sched, final(self)@.sched, task),
            final(self)@ == (ExecutorView { sched: final(self)@.sched, ..old(self)@ }),
    {
        let task = self.scheduler.next_task();
        proof {
            let pre = old(self)@;
            let sched = self@.sched;
            assert forall|i: int| #![trigger sched.status[i]] pre.in_range(i) implies {
                &&& sched.resolved(i) == pre.sched.resolved(i)
                &&& sched.resolved(i) ==> sched.incarnation[i] == pre.sched.incarnation[i]
                &&& sched.is_validated(i) ==> pre.sched.is_validated(i)
                &&& sched.status[i] is Committed == pre.sched.status[i] is Committed
                &&& sched.incarnation[i] >= pre.sched.incarnation[i]
                &&& pre.sched.attempts[i].is_prefix_of(sched.attempts[i])
            } by {
                assert(pre.sched.txn_wf(i));
                match task {
                    SchedulerTask::Validate(j, _) => {
                        if pre.sched.validation_idx <= i < j {
                            assert(!pre.sched.is_candidate(i));
                        }
                    },
                    SchedulerTask::Execute(j, _) => {
                        if i == j {
                            let a = pre.sched.attempts[i];
                            assert(a.is_prefix_of(a.push(pre.sched.incarnation[i])));
                        }
                    },
                    _ => {},
                }
            }
            pre.lemma_schedule_change(sched);
            pre.lemma_schedule_advance(sched);
        }
        task
    }

    /// Records that the execution of `idx` in `incarnation` finished with
    /// the given read set and write set.
    ///
    /// Where the transaction is local and is executing that incarnation: the
    /// store holds the write set in place of what `idx` had written before,
    /// the sets are recorded, and the scheduler is told whether a key was
    /// written that `idx` had no cell for. A report that fits no execution in
    /// progress stops the block and changes nothing else.
    pub fn finish_execution(
        &mut self,
        idx: TxnIndex,
        incarnation: Incarnation,
        read_set: Vec<ReadDescriptor>,
        write_set: Vec<WriteOp>,
    ) -> (action: NextAction)
        requires
            old(self).inv(),
        ensures
            final(self).inv(),
            old(self)@.advances_to(final(self)@),
            old(self)@.sched.accepts_execution_report(idx, incarnation) ==> final(self)@ == old(
                self,
            )@.after_finish_execution(idx, read_set, write_set) && action == old(
                self,
            )@.sched.action_after_finish_execution(
                idx as int,
                writes_new_key(old(self)@.store, idx, writes_map(write_set@)),
            ),
            !old(self)@.sched.accepts_execution_report(idx, incarnation) ==> final(self)@ == (
            ExecutorView {
                sched: old(self)@.sched.after_halt(HaltReason::InvariantViolation),
                ..old(self)@
            }) && action == NextAction::Nothing,
    {
        if !self.scheduler.accepts_execution_report(idx, incarnation) {
            self.halt(HaltReason::InvariantViolation);
            return NextAction::Nothing;
        }
        proof {
            let pre = self@;
            assert(pre.txn_base(idx));
            assert(pre.record_flag_ok(idx));
            assert(pre.sched.txn_wf(idx as int));
            pre.lemma_finish_execution_inv(idx, read_set, write_set);
            pre.lemma_finish_execution_advances(idx, read_set, write_set);
        }
        let wrote_new_keys = apply_output(
            &mut self.store,
            idx,
            incarnation,
            self.last_input_output.write_set(idx),
            &write_set,
        );
        self.last_input_output.record(idx, incarnation, read_set, write_set);
        self.scheduler.finish_execution(idx, incarnation, wrote_new_keys)
    }

    /// Gives up the execution of `idx` in `incarnation` after a failure that
    /// a later attempt may not meet: the transaction becomes pending with its
    /// next incarnation. Store and records are untouched. A report that fits
    /// no execution in progress stops the block.
    pub fn retry_execution(&mut self, idx: TxnIndex, incarnation: Incarnation)
        requires
            old(self).inv(),
        ensures
            final(self).inv(),
            old(self)@.advances_to(final(self)@),
            final(self)@ == (ExecutorView {
                sched: if old(self)@.sched.accepts_execution_report(idx, incarnation) {
                    old(self)@.sched.after_retry(idx as int)
                } else {
                    old(self)@.sched.after_halt(HaltReason::InvariantViolation)
                },
                ..old(self)@
            }),
    {
        proof {
            let pre = self@;
            let sched = if pre.sched.accepts_execution_report(idx, incarnation) {
                pre.sched.lemma_retry_wf(idx);
                assert(pre.sched.txn_wf(idx as int));
                pre.sched.after_retry(idx as int)
            } else {
                pre.sched.lemma_halt_wf(HaltReason::InvariantViolation);
                pre.sched.after_halt(HaltReason::InvariantViolation)
            };
            pre.lemma_schedule_change(sched);
            pre.lemma_schedule_advance(sched);
        }
        self.scheduler.retry_execution(idx, incarnation);
    }

    /// Stops the block on a failure of the execution of `idx` that no retry
    /// can mend, with the code that the execution gave.
    pub fn fail_execution(&mut self, idx: TxnIndex, incarnation: Incarnation, code: u64)
        requires
            old(self).inv(),
        ensures
            final(self).inv(),
            old(self)@.advances_to(final(self)@),
            final(self)@ == (ExecutorView {
                sched: if old(self)@.sched.accepts_execution_report(idx, incarnation) {
                    old(self)@.sched.after_halt(HaltReason::FatalExecution(code))
                } else {
                    old(self)@.sched.after_halt(HaltReason::InvariantViolation)
                },
                ..old(self)@
            }),
    {
        if self.scheduler.accepts_execution_report(idx, incarnation) {
            self.halt(HaltReason::FatalExecution(code));
        } else {
            self.halt(HaltReason::InvariantViolation);
        }
    }

    /// Registers that `blocked`, which is being executed, met an estimate of
    /// `blocking` and gives up until `blocking` finishes.
    ///
    /// Returns `true` where the wait is registered, and `false`, with nothing
    /// changed, where `blocking` has finished in the meantime: the caller
    /// reads again. See [`Scheduler::wait_for_dependency`].
    pub fn wait_for_dependency(&mut self, blocked: TxnIndex, blocking: TxnIndex) -> (waiting: bool)
        requires
            old(self).inv(),
        ensures
            final(self).inv(),
            old(self)@.advances_to(final(self)@),
            waiting == (old(self)@.sched.accepts_wait(blocked, blocking) && !old(
                self,
            )@.sched.resolved(blocking as int)),
            final(self)@ == (ExecutorView {
                sched: if !old(self)@.sched.accepts_wait(blocked, blocking) {
                    old(self)@.sched.after_halt(HaltReason::InvariantViolation)
                } else if waiting {
                    old(self)@.sched.after_wait(blocked as int, blocking as int)
                } else {
                    old(self)@.sched
                },
                ..old(self)@
            }),
    {
        proof {
            let pre = self@;
            let sched = if !pre.sched.accepts_wait(blocked, blocking) {
                pre.sched.lemma_halt_wf(HaltReason::InvariantViolation);
                pre.sched.after_halt(HaltReason::InvariantViolation)
            } else if !pre.sched.resolved(blocking as int) {
                pre.sched.lemma_wait_wf(blocked, blocking);
                pre.sched.after_wait(blocked as int, blocking as int)
            } else {
                pre.sched
            };
            pre.lemma_schedule_change(sched);
            pre.lemma_schedule_advance(sched);
        }
        self.scheduler.wait_for_dependency(blocked, blocking)
    }

    /// Stops the block because `blocked` has waited too long, unless it was
    /// woken in the meantime. Returns whether it still waited.
    pub fn dependency_timed_out(&mut self, blocked: TxnIndex) -> (timed_out: bool)
        requires
            old(self).inv(),
        ensures
            final(self).inv(),
            old(self)@.advances_to(final(self)@),
            timed_out == (old(self)@.in_range(blocked as int) && old(
                self,
            )@.sched.status[blocked as int] is Aborting),
            final(self)@ == (ExecutorView {
                sched: if timed_out {
                    old(self)@.sched.after_halt(HaltReason::DependencyTimeout(blocked))
                } else {
                    old(self)@.sched
                },
                ..old(self)@
            }),
    {
        let waits = match self.scheduler.status(blocked) {
            Some(TxnStatus::Aborting(_)) => true,
            _ => false,
        };
        if waits {
            self.halt(HaltReason::DependencyTimeout(blocked));
        } else {
            proof {
                self@.lemma_advances_reflexive();
            }
        }
        waits
    }

    /// Checks the read set recorded for `idx` against the store as it is
    /// now: each read must give what it gave, and must not have been a wait.
    pub fn try_validate(&self, idx: TxnIndex, incarnation: Incarnation) -> (result:
        ValidationResult)
        requires
            self.inv(),
        ensures
            result == ValidationResult::Stale <==> !self@.sched.accepts_validation_report(
                idx,
                incarnation,
            ),
            result == ValidationResult::Valid <==> self@.sched.accepts_validation_report(
                idx,
                incarnation,
            ) && reads_valid(self@.store, idx, self@.records[idx as int]->0.read_set@),
    {
        if !self.scheduler.accepts_validation_report(idx, incarnation) {
            return ValidationResult::Stale;
        }
        proof {
            assert(self@.txn_base(idx));
        }
        let reads = match self.last_input_output.read_set(idx) {
            Some(r) => r,
            None => {
                return ValidationResult::Invalid;
            },
        };
        let mut p: usize = 0;
        while p < reads.len()
            invariant
                p <= reads.len(),
                self.inv(),
                self@.sched.accepts_validation_report(idx, incarnation),
                reads@ == self@.records[idx as int]->0.read_set@,
                forall|r: int| 0 <= r < p ==> read_valid(self@.store, idx, #[trigger] reads[r]),
            decreases reads.len() - p,
        {
            let d = reads[p];
            let now = self.store.read(d.key, idx);
            let waited = match d.observed {
                ReadResult::Dependency(_) => true,
                _ => false,
            };
            if waited || now != d.observed {
                assert(!read_valid(self@.store, idx, reads[p as int]));
                return ValidationResult::Invalid;
            }
            p += 1;
        }
        ValidationResult::Valid
    }

    /// Records the outcome of the validation of `idx` in `incarnation`.
    ///
    /// A success is taken only where the read set holds against the store as
    /// it is now: the transaction then counts as validated, every
    /// transaction from the commit cursor on that is executed and validated
    /// is committed in index order, and the records of those are declared
    /// final. Otherwise the incarnation is given up: every cell of `idx`
    /// becomes an estimate, the next incarnation is due, and every higher
    /// transaction will be validated again. A report on an incarnation that
    /// is no longer the executed one changes nothing.
    pub fn finish_validation(&mut self, idx: TxnIndex, incarnation: Incarnation, success: bool) -> (action:
        NextAction)
        requires
            old(self).inv(),
        ensures
            final(self).inv(),
            old(self)@.advances_to(final(self)@),
            !old(self)@.sched.accepts_validation_report(idx, incarnation) ==> final(self)@ == old(
                self,
            )@ && action == NextAction::Nothing,
            old(self)@.sched.accepts_validation_report(idx, incarnation) ==> (if success
                && reads_valid(
                old(self)@.store,
                idx,
                old(self)@.records[idx as int]->0.read_set@,
            ) {
                final(self)@ == old(self)@.after_validated(idx) && action == NextAction::Nothing
            } else {
                final(self)@ == old(self)@.after_abort(idx) && action == old(
                    self,
                )@.sched.action_after_abort(idx as int)
            }),
    {
        let checked = self.try_validate(idx, incarnation);
        let ghost pre = self@;
        match checked {
            ValidationResult::Stale => {
                proof {
                    pre.lemma_advances_reflexive();
                }
                NextAction::Nothing
            },
            ValidationResult::Valid => {
                if success {
                    self.accept_validation(idx, incarnation)
                } else {
                    self.abort_incarnation(idx, incarnation)
                }
            },
            ValidationResult::Invalid => self.abort_incarnation(idx, incarnation),
        }
    }

    /// Notes the validation of `idx`, commits what can be committed and
    /// declares the records of the newly committed transactions final.
    fn accept_validation(&mut self, idx: TxnIndex, incarnation: Incarnation) -> (action:
        NextAction)
        requires
            old(self).inv(),
            old(self)@.sched.accepts_validation_report(idx, incarnation),
            reads_valid(old(self)@.store, idx, old(self)@.records[idx as int]->0.read_set@),
        ensures
            final(self).inv(),
            old(self)@.advances_to(final(self)@),
            final(self)@ == old(self)@.after_validated(idx),
            action == NextAction::Nothing,
    {
        let ghost pre = self@;
        proof {
            assert(pre.sched.txn_wf(idx as int));
            pre.lemma_validated_and_committed_inv(idx);
            pre.lemma_validated_advances(idx);
            pre.sched.lemma_validated_wf(idx as int);
            pre.sched.after_validated(idx as int).lemma_commits_wf();
        }
        let from = self.scheduler.commit_idx();
        self.scheduler.finish_validation(idx, incarnation, true);
        let to = self.scheduler.commit_idx();
        let mut c = from;
        while c < to
            invariant
                from <= c <= to,
                to == self@.sched.commit_idx,
                to <= self@.sched.len(),
                self@.sched.wf(),
                self@.sched == pre.sched.after_validated(idx as int).after_commits(),
                self@.sched.local == pre.sched.local,
                self@.store == pre.store,
                self@.remote_keys == pre.remote_keys,
                self.store_wf(),
                self@.records == with_final_records(
                    pre.records,
                    pre.sched.local,
                    from as int,
                    c as int,
                ),
            decreases to - c,
        {
            if self.scheduler.is_local(c) {
                self.last_input_output.on_commit(c);
            }
            c += 1;
            assert(self@.records =~= with_final_records(
                pre.records,
                pre.sched.local,
                from as int,
                c as int,
            ));
        }
        NextAction::Nothing
    }

    /// Gives up the incarnation of `idx`: its cells become estimates, and the
    /// scheduler is told that the validation failed.
    fn abort_incarnation(&mut self, idx: TxnIndex, incarnation: Incarnation) -> (action:
        NextAction)
        requires
            old(self).inv(),
            old(self)@.sched.accepts_validation_report(idx, incarnation),
        ensures
            final(self).inv(),
            old(self)@.advances_to(final(self)@),
            final(self)@ == old(self)@.after_abort(idx),
            action == old(self)@.sched.action_after_abort(idx as int),
    {
        proof {
            let pre = self@;
            assert(pre.txn_base(idx));
            assert(pre.sched.txn_wf(idx as int));
            pre.lemma_abort_inv(idx);
            pre.lemma_abort_advances(idx);
        }
        match self.last_input_output.write_set(idx) {
            Some(write_set) => {
                mark_all_estimates(&mut self.store, idx, write_set);
            },
            None => {},
        }
        self.scheduler.finish_validation(idx, incarnation, false)
    }

    /// Takes in the value of `key` that the remote transaction `r` wrote.
    ///
    /// The value is accepted where `r` is not local and the key is awaited
    /// from it: it then takes the place of the estimate, under a version of
    /// incarnation 0, and is never replaced. Where it was the last value
    /// awaited from `r`, the transactions that waited for `r` become pending
    /// with their next incarnation. Returns whether the value was accepted;
    /// where it was not, nothing changes.
    pub fn on_remote_write(&mut self, r: TxnIndex, key: Key, value: Value) -> (accepted: bool)
        requires
            old(self).inv(),
        ensures
            final(self).inv(),
            old(self)@.advances_to(final(self)@),
            accepted == old(self)@.accepts_remote_write(r, key),
            accepted ==> final(self)@ == old(self)@.after_remote_write(r, key, value),
            !accepted ==> final(self)@ == old(self)@,
    {
        let awaited = !self.scheduler.is_local(r) && (r as usize) < self.scheduler.num_txns()
            && match self.store.get(key, r) {
            Some(cell) => cell.estimate,
            None => false,
        };
        if !awaited {
            proof {
                self@.lemma_advances_reflexive();
            }
            return false;
        }
        proof {
            let pre = self@;
            assert(pre.txn_base(r));
            pre.lemma_remote_write_inv(r, key, value);
            pre.lemma_remote_write_advances(r, key, value);
        }
        self.store.write(key, r, 0, value);
        if all_arrived(&self.store, &self.remote_keys[r as usize], r) {
            self.scheduler.remote_arrived(r);
        }
        true
    }
}

} // verus!
