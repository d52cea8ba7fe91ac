//! What the invariant of a block execution gives: the committed prefix is
//! what a sequential execution produces, attempts of one transaction are
//! numbered upwards, nothing committed changes, and a transaction whose
//! reads were overtaken does not count as validated.

use crate::block_executor::executor_model::{read_valid, reads_valid, writes_map, ExecutorView};
use crate::block_executor::scheduler::next_task_post;
use crate::block_executor::scheduler_model::SchedulerView;
use crate::block_executor::txn_last_input_output::{ReadDescriptor, TxnRecord};
use crate::block_executor::types::{Incarnation, Key, NextAction, SchedulerTask, TxnIndex, Value};
use crate::block_executor::versioned_store::{
    latest_below, lemma_latest_below_props, read_spec, Cell, ReadResult, StoreMap,
};
use vstd::prelude::*;

verus! {

/// What the transactions of a block do: from the index of a transaction and
/// the values that the block has written before it, the values it writes.
pub type Semantics = spec_fn(TxnIndex, Map<Key, Value>) -> Map<Key, Value>;

/// What a reader at `idx` sees of the values written below it.
pub open spec fn snapshot(m: StoreMap, idx: TxnIndex) -> Map<Key, Value> {
    Map::new(
        |k: Key| latest_below(m, k, idx) is Some,
        |k: Key| m[(k, latest_below(m, k, idx)->0)].value,
    )
}

/// The values that the store holds for transaction `idx`.
pub open spec fn txn_writes(m: StoreMap, idx: TxnIndex) -> Map<Key, Value> {
    Map::new(|k: Key| m.contains_key((k, idx)), |k: Key| m[(k, idx)].value)
}

/// The state after the transactions below `upto` ran one after the other in
/// index order, each on the state that its predecessors left: a local
/// transaction writes what `sem` gives, one executed elsewhere writes what
/// the store holds as delivered from it.
pub open spec fn sequential_state(
    sem: Semantics,
    local: Seq<bool>,
    m: StoreMap,
    upto: TxnIndex,
) -> Map<Key, Value>
    decreases upto,
{
    if upto == 0 {
        Map::empty()
    } else {
        let t = (upto - 1) as TxnIndex;
        let before = sequential_state(sem, local, m, t);
        before.union_prefer_right(
            if local[t as int] {
                sem(t, before)
            } else {
                txn_writes(m, t)
            },
        )
    }
}

/// A state gives for every recorded read what the read observed.
pub open spec fn view_agrees(view: Map<Key, Value>, reads: Seq<ReadDescriptor>) -> bool {
    forall|r: int|
        0 <= r < reads.len() ==> match (#[trigger] reads[r]).observed {
            ReadResult::Resolved(_, value) => view.contains_key(reads[r].key) && view[reads[r].key]
                == value,
            ReadResult::NotFound => !view.contains_key(reads[r].key),
            ReadResult::Dependency(_) => false,
        }
}

/// The record is an execution of transaction `idx` under `sem`: on every
/// state that gives its reads what they observed, `sem` writes what the
/// record wrote.
pub open spec fn faithful(sem: Semantics, idx: TxnIndex, record: TxnRecord) -> bool {
    forall|view: Map<Key, Value>| #[trigger]
        view_agrees(view, record.read_set@) ==> sem(idx, view) == writes_map(record.write_set@)
}

/// Below `upto`, every transaction executed elsewhere has delivered its output.
pub open spec fn remote_outputs_arrived(s: ExecutorView, upto: TxnIndex) -> bool {
    forall|t: TxnIndex|
        t < upto && !s.sched.local[t as int] ==> #[trigger] s.sched.status[t as int] is Committed
}

/// A reader sees, one index higher, the cell at the index it passed or else what it saw before.
proof fn lemma_snapshot_step(m: StoreMap, t: TxnIndex)
    requires
        t < u32::MAX,
    ensures
        snapshot(m, (t + 1) as TxnIndex) == snapshot(m, t).union_prefer_right(txn_writes(m, t)),
{
    let next = (t + 1) as TxnIndex;
    assert forall|k: Key|
        latest_below(m, k, next) == (if m.contains_key((k, t)) {
            Some(t)
        } else {
            latest_below(m, k, t)
        }) by {
        assert((next - 1) as TxnIndex == t);
    }
    assert(snapshot(m, next) =~= snapshot(m, t).union_prefer_right(txn_writes(m, t)));
}

/// Serializability of the committed prefix.
///
/// In a state that satisfies the invariant, let every local transaction
/// below `upto` be committed, every other transaction below `upto` have
/// delivered its output, and every record be an execution under `sem`. Then
/// the values that the store holds below `upto` are those of the sequential
/// execution of the transactions below `upto`, and the output of each
/// committed transaction is what `sem` gives on the state that the
/// sequential execution reached before it.
pub proof fn lemma_committed_prefix_is_sequential(s: ExecutorView, sem: Semantics, upto: TxnIndex)
    requires
        s.inv(),
        upto <= s.sched.commit_idx,
        remote_outputs_arrived(s, upto),
        forall|i: TxnIndex|
            i < upto && s.sched.local[i as int] ==> faithful(
                sem,
                i,
                (#[trigger] s.records[i as int])->0,
            ),
    ensures
        snapshot(s.store, upto) == sequential_state(sem, s.sched.local, s.store, upto),
        forall|i: TxnIndex|
            i < upto && s.sched.local[i as int] ==> #[trigger] s.committed_output(i) == sem(
                i,
                sequential_state(sem, s.sched.local, s.store, i),
            ),
    decreases upto,
{
    if upto == 0 {
        assert(snapshot(s.store, 0) =~= Map::<Key, Value>::empty());
    } else {
        let t = (upto - 1) as TxnIndex;
        assert forall|u: TxnIndex| u < t && !s.sched.local[u as int] implies #[trigger]
            s.sched.status[u as int] is Committed by {}
        lemma_committed_prefix_is_sequential(s, sem, t);
        lemma_snapshot_step(s.store, t);
        let before = sequential_state(sem, s.sched.local, s.store, t);
        assert(s.txn_base(t));
        assert(s.sched.txn_wf(t as int));
        if s.sched.local[t as int] {
            let record = s.records[t as int]->0;
            let reads = record.read_set@;
            assert(reads_valid(s.store, t, reads));
            assert forall|r: int| 0 <= r < reads.len() implies match (#[trigger] reads[r]).observed {
                ReadResult::Resolved(_, value) => before.contains_key(reads[r].key)
                    && before[reads[r].key] == value,
                ReadResult::NotFound => !before.contains_key(reads[r].key),
                ReadResult::Dependency(_) => false,
            } by {
                assert(read_valid(s.store, t, reads[r]));
            }
            assert(view_agrees(before, reads));
            assert(sem(t, before) == writes_map(record.write_set@));
            assert(txn_writes(s.store, t) =~= writes_map(record.write_set@));
        }
    }
}

/// Serializability of a whole block.
///
/// Once every local transaction is committed and every awaited output has
/// arrived, the values that the store holds are those of the sequential
/// execution of the block.
pub proof fn lemma_finished_block_is_sequential(s: ExecutorView, sem: Semantics)
    requires
        s.inv(),
        s.sched.is_done(),
        remote_outputs_arrived(s, s.sched.commit_idx),
        forall|i: TxnIndex|
            s.in_range(i as int) && s.sched.local[i as int] ==> faithful(
                sem,
                i,
                (#[trigger] s.records[i as int])->0,
            ),
    ensures
        snapshot(s.store, s.sched.commit_idx) == sequential_state(
            sem,
            s.sched.local,
            s.store,
            s.sched.commit_idx,
        ),
{
    lemma_committed_prefix_is_sequential(s, sem, s.sched.commit_idx);
}

/// The incarnations handed out for the execution of one transaction
/// increase strictly.
pub proof fn lemma_incarnations_increase(s: ExecutorView, i: TxnIndex, p: int, q: int)
    requires
        s.inv(),
        s.in_range(i as int),
        0 <= p < q < s.sched.attempts[i as int].len(),
    ensures
        s.sched.attempts[i as int][p] < s.sched.attempts[i as int][q],
{
    assert(s.sched.txn_wf(i as int));
}

/// In a later state the attempts of a transaction are those of the earlier
/// state, followed by the attempts made since, each with a higher incarnation.
pub proof fn lemma_later_attempts_are_higher(
    pre: ExecutorView,
    post: ExecutorView,
    i: TxnIndex,
    p: int,
    q: int,
)
    requires
        pre.inv(),
        post.inv(),
        pre.advances_to(post),
        pre.in_range(i as int),
        0 <= p < pre.sched.attempts[i as int].len() <= q < post.sched.attempts[i as int].len(),
    ensures
        post.sched.attempts[i as int][p] == pre.sched.attempts[i as int][p],
        pre.sched.attempts[i as int][p] < post.sched.attempts[i as int][q],
{
    assert(pre.txn_advances(post, i));
    assert(post.sched.txn_wf(i as int));
}

/// A transaction is handed out for execution only while no execution of it
/// is in progress, and with an incarnation above all that were handed out
/// for it before.
pub proof fn lemma_execution_handed_out_once(
    pre: SchedulerView,
    post: SchedulerView,
    j: TxnIndex,
    incarnation: Incarnation,
)
    requires
        pre.wf(),
        next_task_post(pre, post, SchedulerTask::Execute(j, incarnation)),
    ensures
        !(pre.status[j as int] is Executing),
        post.status[j as int] is Executing,
        post.attempts[j as int] == pre.attempts[j as int].push(incarnation),
        forall|p: int| 0 <= p < pre.attempts[j as int].len() ==> pre.attempts[j as int][p] < incarnation,
{
    assert(pre.txn_wf(j as int));
}

/// The second way in which an execution is handed out, straight after a
/// failed validation, likewise starts from a transaction that is not being
/// executed and takes an incarnation above all earlier ones.
pub proof fn lemma_reexecution_handed_out_once(pre: SchedulerView, j: TxnIndex, incarnation: Incarnation)
    requires
        pre.wf(),
        pre.accepts_validation_report(j, pre.incarnation[j as int]),
        pre.action_after_abort(j as int) == NextAction::Execute(j, incarnation),
    ensures
        !(pre.status[j as int] is Executing),
        pre.after_abort(j as int).status[j as int] is Executing,
        pre.after_abort(j as int).attempts[j as int] == pre.attempts[j as int].push(incarnation),
        forall|p: int| 0 <= p < pre.attempts[j as int].len() ==> pre.attempts[j as int][p] < incarnation,
{
    assert(pre.txn_wf(j as int));
}

/// Nothing committed changes.
///
/// Where transaction `i` is committed in a state, it is committed in every
/// later state, with the same record and the same cells in the store, and
/// each of its recorded reads still gives what it observed: no write below
/// `i` that came after its commit has changed what `i` read.
pub proof fn lemma_no_stale_commit(pre: ExecutorView, post: ExecutorView, i: TxnIndex, r: int)
    requires
        pre.inv(),
        post.inv(),
        pre.advances_to(post),
        pre.in_range(i as int),
        pre.sched.is_committed(i as int),
        0 <= r < pre.records[i as int]->0.read_set@.len(),
    ensures
        post.sched.is_committed(i as int),
        post.records[i as int] == pre.records[i as int],
        txn_writes(post.store, i) == txn_writes(pre.store, i),
        read_spec(post.store, pre.records[i as int]->0.read_set@[r].key, i)
            == pre.records[i as int]->0.read_set@[r].observed,
        read_spec(pre.store, pre.records[i as int]->0.read_set@[r].key, i)
            == pre.records[i as int]->0.read_set@[r].observed,
{
    assert(pre.txn_advances(post, i));
    assert(pre.txn_base(i));
    assert(post.txn_base(i));
    let reads = pre.records[i as int]->0.read_set@;
    assert(read_valid(pre.store, i, reads[r]));
    assert(read_valid(post.store, i, reads[r]));
    assert(txn_writes(post.store, i) =~= txn_writes(pre.store, i));
}

/// The committed transactions are a prefix of the local ones: below a
/// committed transaction every local transaction is committed.
pub proof fn lemma_committed_is_prefix(s: ExecutorView, i: TxnIndex, j: TxnIndex)
    requires
        s.inv(),
        i <= j,
        s.in_range(j as int),
        s.sched.local[i as int],
        s.sched.is_committed(j as int),
    ensures
        s.sched.is_committed(i as int),
{
    assert(s.sched.txn_wf(i as int));
    assert(s.sched.txn_wf(j as int));
}

/// After the block has stopped, nothing more is committed.
pub proof fn lemma_no_commit_after_halt(pre: ExecutorView, post: ExecutorView, i: TxnIndex)
    requires
        pre.inv(),
        post.inv(),
        pre.advances_to(post),
        pre.sched.halted is Some,
        pre.in_range(i as int),
        post.sched.is_committed(i as int),
    ensures
        pre.sched.is_committed(i as int),
        post.sched.halted == pre.sched.halted,
{
    assert(pre.sched.txn_wf(i as int));
    assert(post.sched.txn_wf(i as int));
}

/// Invalidation reaches every reader.
///
/// Let transaction `j` have read key `k` from transaction `i`: its record
/// holds a read of `k` that resolved to a version of `i`. In any state in
/// which the cell of `i` for `k` is no longer that version, be it an
/// estimate, removed or written again, `j` is neither validated nor
/// committed with that record: before it can commit it is validated again,
/// and executed again where that validation fails.
pub proof fn lemma_invalidation_reaches_readers(s: ExecutorView, i: TxnIndex, j: TxnIndex, r: int)
    requires
        s.inv(),
        s.in_range(j as int),
        s.sched.local[j as int],
        s.records[j as int] is Some,
        0 <= r < s.records[j as int]->0.read_set@.len(),
        s.records[j as int]->0.read_set@[r].observed matches ReadResult::Resolved(version, value)
            && version.txn_idx == i && !(s.store.contains_key(
            (s.records[j as int]->0.read_set@[r].key, i),
        ) && s.store[(s.records[j as int]->0.read_set@[r].key, i)] == (Cell {
            incarnation: version.incarnation,
            value,
            estimate: false,
        })),
    ensures
        !s.sched.is_validated(j as int),
        !s.sched.is_committed(j as int),
{
    let d = s.records[j as int]->0.read_set@[r];
    assert(s.txn_base(j));
    if s.sched.is_validated(j as int) || s.sched.is_committed(j as int) {
        assert(read_valid(s.store, j, d));
        lemma_latest_below_props(s.store, d.key, j);
    }
}

/// A failed validation sends every higher transaction back to validation.
///
/// When the incarnation of `idx` is given up, no transaction above `idx`
/// counts as validated any more, and each of them that is executed is again
/// one for which a validation task is handed out.
pub proof fn lemma_abort_sends_higher_back(s: SchedulerView, idx: TxnIndex, j: TxnIndex)
    requires
        s.wf(),
        s.accepts_validation_report(idx, s.incarnation[idx as int]),
        idx < j < s.len(),
    ensures
        !s.after_abort(idx as int).is_validated(j as int),
        s.local[j as int] && s.status[j as int] is Executed ==> s.after_abort(
            idx as int,
        ).needs_validation(j as int),
{
}

/// An execution that wrote a new key sends every higher transaction back to
/// validation, and the transaction itself with them.
pub proof fn lemma_new_key_sends_higher_back(s: SchedulerView, idx: TxnIndex, j: TxnIndex)
    requires
        s.wf(),
        s.accepts_execution_report(idx, s.incarnation[idx as int]),
        idx <= j < s.len(),
    ensures
        !s.after_finish_execution(idx as int, true).is_validated(j as int),
        s.after_finish_execution(idx as int, true).needs_validation(idx as int),
        s.local[j as int] && s.status[j as int] is Executed ==> s.after_finish_execution(
            idx as int,
            true,
        ).needs_validation(j as int),
{
    assert(s.txn_wf(idx as int));
    assert(s.txn_wf(j as int));
}

} // verus!
