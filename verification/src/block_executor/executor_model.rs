//! The block executor on mathematical values: the scheduler's state, the
//! store and the records together, the invariant that ties them, and the
//! proofs that every step keeps it.

use crate::block_executor::scheduler_model::SchedulerView;
use crate::block_executor::txn_last_input_output::{ReadDescriptor, TxnRecord};
use crate::block_executor::types::{Incarnation, Key, TxnIndex, TxnStatus, Value, WriteOp};
use crate::block_executor::versioned_store::{
    lemma_latest_below_props, lemma_latest_below_same_holders, lemma_read_frame, latest_below,
    read_spec, Cell, StoreMap,
};
use crate::block_executor::scheduler_model::lemma_next_local;
use vstd::prelude::*;

verus! {

/// The effect of a write set: for each key the value written last.
pub open spec fn writes_map(ws: Seq<WriteOp>) -> Map<Key, Value>
    decreases ws.len(),
{
    if ws.len() == 0 {
        Map::empty()
    } else {
        writes_map(ws.drop_last()).insert(ws.last().key, ws.last().value)
    }
}

/// A write set writes a key exactly when one of its writes names the key.
pub proof fn lemma_writes_map_keys(ws: Seq<WriteOp>, key: Key)
    ensures
        writes_map(ws).contains_key(key) <==> exists|i: int|
            0 <= i < ws.len() && #[trigger] ws[i].key == key,
    decreases ws.len(),
{
    if ws.len() > 0 {
        let front = ws.drop_last();
        lemma_writes_map_keys(front, key);
        if writes_map(ws).contains_key(key) {
            if ws.last().key == key {
                assert(ws[ws.len() - 1].key == key);
            } else {
                let i = choose|i: int| 0 <= i < front.len() && #[trigger] front[i].key == key;
                assert(ws[i].key == key);
            }
        }
        if exists|i: int| 0 <= i < ws.len() && #[trigger] ws[i].key == key {
            let i = choose|i: int| 0 <= i < ws.len() && #[trigger] ws[i].key == key;
            if i < front.len() {
                assert(front[i].key == key);
            }
        }
    }
}

/// A recorded read still holds: the store gives now what was observed then,
/// and what was observed was not a wait.
pub open spec fn read_valid(m: StoreMap, idx: TxnIndex, d: ReadDescriptor) -> bool {
    !(d.observed is Dependency) && read_spec(m, d.key, idx) == d.observed
}

/// Every read of a read set still holds.
pub open spec fn reads_valid(m: StoreMap, idx: TxnIndex, reads: Seq<ReadDescriptor>) -> bool {
    forall|r: int| 0 <= r < reads.len() ==> read_valid(m, idx, #[trigger] reads[r])
}

/// The cells of transaction `idx` are exactly its output `w`, written by `incarnation`.
pub open spec fn holds_output(
    m: StoreMap,
    idx: TxnIndex,
    incarnation: Incarnation,
    w: Map<Key, Value>,
) -> bool {
    forall|k: Key|
        #![trigger m.contains_key((k, idx))]
        #![trigger w.contains_key(k)]
        m.contains_key((k, idx)) == w.contains_key(k) && (w.contains_key(k) ==> m[(k, idx)]
            == Cell { incarnation, value: w[k], estimate: false })
}

/// The store with the cells of `idx` replaced by the output `w` of `incarnation`.
pub open spec fn with_output(
    m: StoreMap,
    idx: TxnIndex,
    incarnation: Incarnation,
    w: Map<Key, Value>,
) -> StoreMap {
    Map::new(
        |p: (Key, TxnIndex)|
            if p.1 == idx {
                w.contains_key(p.0)
            } else {
                m.contains_key(p)
            },
        |p: (Key, TxnIndex)|
            if p.1 == idx {
                Cell { incarnation, value: w[p.0], estimate: false }
            } else {
                m[p]
            },
    )
}

/// The store with every cell of `idx` turned into an estimate.
pub open spec fn with_estimates(m: StoreMap, idx: TxnIndex) -> StoreMap {
    Map::new(
        |p: (Key, TxnIndex)| m.contains_key(p),
        |p: (Key, TxnIndex)|
            if p.1 == idx {
                Cell { estimate: true, ..m[p] }
            } else {
                m[p]
            },
    )
}

/// Two stores hold the same cells at every index but `idx`.
pub open spec fn same_off(m: StoreMap, m2: StoreMap, idx: TxnIndex) -> bool {
    forall|k: Key, t: TxnIndex|
        #![trigger m.contains_key((k, t))]
        #![trigger m2.contains_key((k, t))]
        t != idx ==> m2.contains_key((k, t)) == m.contains_key((k, t)) && (m.contains_key((k, t))
            ==> m2[(k, t)] == m[(k, t)])
}

/// The output writes a key that the store does not hold for `idx`.
pub open spec fn writes_new_key(m: StoreMap, idx: TxnIndex, w: Map<Key, Value>) -> bool {
    exists|k: Key| #[trigger] w.contains_key(k) && !m.contains_key((k, idx))
}

/// The records with those of the local transactions from `from` up to `to` declared final.
pub open spec fn with_final_records(
    records: Seq<Option<TxnRecord>>,
    local: Seq<bool>,
    from: int,
    to: int,
) -> Seq<Option<TxnRecord>> {
    Seq::new(
        records.len(),
        |i: int|
            if from <= i < to && local[i] && records[i] is Some {
                Some(TxnRecord { committed: true, ..records[i]->0 })
            } else {
                records[i]
            },
    )
}

/// A read that resolved to a value is not disturbed when a lower transaction
/// whose cells were all estimates gets new cells for keys it held before.
pub proof fn lemma_read_kept_without_new_keys(
    m: StoreMap,
    m2: StoreMap,
    idx: TxnIndex,
    reader: TxnIndex,
    d: ReadDescriptor,
)
    requires
        same_off(m, m2, idx),
        forall|k: Key| #[trigger] m2.contains_key((k, idx)) ==> m.contains_key((k, idx)),
        forall|k: Key| #[trigger] m.contains_key((k, idx)) ==> m[(k, idx)].estimate,
        read_valid(m, reader, d),
    ensures
        read_valid(m2, reader, d),
{
    let key = d.key;
    lemma_latest_below_props(m, key, reader);
    lemma_latest_below_props(m2, key, reader);
    if idx < reader && m.contains_key((key, idx)) {
        let l = latest_below(m, key, reader)->0;
        assert(l != idx);
        assert(l > idx);
        assert(m2.contains_key((key, l)));
        assert forall|u: TxnIndex| l < u < reader implies !m2.contains_key((key, u)) by {
            assert(u != idx);
            assert(m2.contains_key((key, u)) == m.contains_key((key, u)));
        }
        assert(latest_below(m2, key, reader) == Some(l));
    } else {
        assert forall|u: TxnIndex|
            #![trigger m.contains_key((key, u))]
            #![trigger m2.contains_key((key, u))]
            u < reader implies m.contains_key((key, u)) == m2.contains_key((key, u)) && (
        m.contains_key((key, u)) ==> m[(key, u)] == m2[(key, u)]) by {
            if u == idx {
                assert(!m.contains_key((key, idx)));
                assert(!m2.contains_key((key, idx)));
            }
        }
        lemma_read_frame(m, m2, key, reader);
    }
}

/// A read that resolved to a value is not disturbed when an estimate is replaced by a value.
pub proof fn lemma_read_kept_by_arrival(
    m: StoreMap,
    key: Key,
    r: TxnIndex,
    cell: Cell,
    reader: TxnIndex,
    d: ReadDescriptor,
)
    requires
        m.contains_key((key, r)),
        m[(key, r)].estimate,
        read_valid(m, reader, d),
    ensures
        read_valid(m.insert((key, r), cell), reader, d),
{
    let m2 = m.insert((key, r), cell);
    lemma_latest_below_props(m, d.key, reader);
    assert forall|u: TxnIndex|
        #![trigger m.contains_key((d.key, u))]
        #![trigger m2.contains_key((d.key, u))]
        u < reader implies m.contains_key((d.key, u)) == m2.contains_key((d.key, u)) by {}
    lemma_latest_below_same_holders(m, m2, d.key, reader);
}

/// A read is not disturbed by changes at or above the reader.
pub proof fn lemma_read_kept_below(
    m: StoreMap,
    m2: StoreMap,
    idx: TxnIndex,
    reader: TxnIndex,
    d: ReadDescriptor,
)
    requires
        reader <= idx,
        same_off(m, m2, idx),
        read_valid(m, reader, d),
    ensures
        read_valid(m2, reader, d),
{
    assert forall|u: TxnIndex|
        #![trigger m.contains_key((d.key, u))]
        #![trigger m2.contains_key((d.key, u))]
        u < reader implies m.contains_key((d.key, u)) == m2.contains_key((d.key, u)) && (
    m.contains_key((d.key, u)) ==> m[(d.key, u)] == m2[(d.key, u)]) by {
        assert(u != idx);
    }
    lemma_read_frame(m, m2, d.key, reader);
}

/// A key whose value is awaited from a transaction that is executed elsewhere.
#[derive(Clone, Copy, Debug, PartialEq, Eq, Structural)]
pub struct RemoteDependency {
    pub txn_idx: TxnIndex,
    pub key: Key,
}

/// The store in which a block starts: an estimate for every awaited key.
pub open spec fn initial_store(deps: Seq<RemoteDependency>) -> StoreMap
    decreases deps.len(),
{
    if deps.len() == 0 {
        Map::empty()
    } else {
        initial_store(deps.drop_last()).insert(
            (deps.last().key, deps.last().txn_idx),
            Cell { incarnation: 0, value: 0, estimate: true },
        )
    }
}

/// For each of `len` transactions, the keys awaited from it, in the order of `deps`.
pub open spec fn awaited_keys(deps: Seq<RemoteDependency>, len: nat) -> Seq<Seq<Key>>
    decreases deps.len(),
{
    if deps.len() == 0 {
        Seq::new(len, |i: int| Seq::<Key>::empty())
    } else {
        let before = awaited_keys(deps.drop_last(), len);
        let r = deps.last().txn_idx as int;
        if r < len {
            before.update(r, before[r].push(deps.last().key))
        } else {
            before
        }
    }
}

/// For each of `len` transactions, whether a key is awaited from it.
pub open spec fn awaited_flags(deps: Seq<RemoteDependency>, len: nat) -> Seq<bool> {
    Seq::new(len, |i: int| exists|p: int| 0 <= p < deps.len() && #[trigger] deps[p].txn_idx == i)
}

/// Every dependency names a transaction of the block that is not local.
pub open spec fn dependencies_fit(local: Seq<bool>, deps: Seq<RemoteDependency>) -> bool {
    forall|p: int|
        0 <= p < deps.len() ==> (#[trigger] deps[p]).txn_idx < local.len() && !local[deps[p].txn_idx as int]
}

/// The initial store holds an estimate for exactly the awaited keys, which
/// are those listed for their transaction.
pub proof fn lemma_initial_store(deps: Seq<RemoteDependency>, len: nat)
    requires
        forall|p: int| 0 <= p < deps.len() ==> (#[trigger] deps[p]).txn_idx < len,
    ensures
        awaited_keys(deps, len).len() == len,
        forall|k: Key, t: TxnIndex| #[trigger]
            initial_store(deps).contains_key((k, t)) <==> exists|p: int|
                0 <= p < deps.len() && #[trigger] deps[p] == (RemoteDependency {
                    txn_idx: t,
                    key: k,
                }),
        forall|k: Key, t: TxnIndex| #[trigger]
            initial_store(deps).contains_key((k, t)) ==> initial_store(deps)[(k, t)].estimate,
        forall|k: Key, t: TxnIndex|
            t < len ==> (#[trigger] initial_store(deps).contains_key((k, t)) <==> awaited_keys(
                deps,
                len,
            )[t as int].contains(k)),
    decreases deps.len(),
{
    if deps.len() > 0 {
        let front = deps.drop_last();
        let last = deps.last();
        lemma_initial_store(front, len);
        assert forall|k: Key, t: TxnIndex| #[trigger]
            initial_store(deps).contains_key((k, t)) <==> exists|p: int|
                0 <= p < deps.len() && #[trigger] deps[p] == (RemoteDependency {
                    txn_idx: t,
                    key: k,
                }) by {
            let d = RemoteDependency { txn_idx: t, key: k };
            let inner = initial_store(front).contains_key((k, t));
            assert(initial_store(deps).contains_key((k, t)) <==> inner || (k, t) == (
                last.key,
                last.txn_idx,
            ));
            assert(inner <==> exists|p: int| 0 <= p < front.len() && #[trigger] front[p] == d);
            if initial_store(deps).contains_key((k, t)) {
                if (k, t) == (last.key, last.txn_idx) {
                    assert(deps[deps.len() - 1] == d);
                } else {
                    let p = choose|p: int| 0 <= p < front.len() && #[trigger] front[p] == d;
                    assert(deps[p] == d);
                }
            }
            if exists|p: int| 0 <= p < deps.len() && #[trigger] deps[p] == d {
                let p = choose|p: int| 0 <= p < deps.len() && #[trigger] deps[p] == d;
                if p < front.len() {
                    assert(front[p] == d);
                } else {
                    assert(last == d);
                }
            }
        }
        assert forall|k: Key, t: TxnIndex| #[trigger]
            initial_store(deps).contains_key((k, t)) implies initial_store(deps)[(
            k,
            t,
        )].estimate by {
            if (k, t) != (last.key, last.txn_idx) {
                assert(initial_store(front).contains_key((k, t)));
            }
        }
        assert forall|k: Key, t: TxnIndex| t < len implies (#[trigger] initial_store(
            deps,
        ).contains_key((k, t)) <==> awaited_keys(deps, len)[t as int].contains(k)) by {
            let before = awaited_keys(front, len);
            let r = last.txn_idx as int;
            assert(initial_store(front).contains_key((k, t)) <==> before[t as int].contains(k));
            if t == last.txn_idx {
                let l = before[r];
                assert(l.push(last.key)[l.len() as int] == last.key);
                if l.contains(k) {
                    let q = choose|q: int| 0 <= q < l.len() && l[q] == k;
                    assert(l.push(last.key)[q] == k);
                }
            }
        }
    }
}

/// The state of a block execution.
pub struct ExecutorView {
    pub sched: SchedulerView,
    pub store: StoreMap,
    pub records: Seq<Option<TxnRecord>>,
    /// For each transaction executed elsewhere, the keys whose values are awaited from it.
    pub remote_keys: Seq<Seq<Key>>,
}

impl ExecutorView {
    pub open spec fn in_range(self, i: int) -> bool {
        self.sched.in_range(i)
    }

    /// The record of a local transaction that has finished is that of its
    /// current incarnation, and the store holds exactly its output.
    pub open spec fn output_in_store(self, i: TxnIndex) -> bool {
        self.sched.resolved(i as int) ==> {
            &&& self.records[i as int] is Some
            &&& self.records[i as int]->0.incarnation == self.sched.incarnation[i as int]
            &&& holds_output(
                self.store,
                i,
                self.sched.incarnation[i as int],
                writes_map(self.records[i as int]->0.write_set@),
            )
        }
    }

    /// The cells of a local transaction that has not finished are estimates
    /// of keys that its last execution wrote.
    pub open spec fn leftovers_are_estimates(self, i: TxnIndex) -> bool {
        !self.sched.resolved(i as int) ==> forall|k: Key| #[trigger]
            self.store.contains_key((k, i)) ==> {
                &&& self.store[(k, i)].estimate
                &&& self.records[i as int] is Some
                &&& writes_map(self.records[i as int]->0.write_set@).contains_key(k)
            }
    }

    /// The reads of a validated or committed transaction hold in the store as it is now.
    pub open spec fn validated_reads_hold(self, i: TxnIndex) -> bool {
        self.sched.is_validated(i as int) || self.sched.status[i as int] is Committed
            ==> reads_valid(self.store, i, self.records[i as int]->0.read_set@)
    }

    /// A record is final exactly when its transaction is committed.
    pub open spec fn record_flag_ok(self, i: TxnIndex) -> bool {
        self.sched.local[i as int] && self.records[i as int] is Some ==> (self.records[i as int]->0.committed
            <==> self.sched.status[i as int] is Committed)
    }

    /// The cells of a transaction executed elsewhere are those of the keys
    /// awaited from it, and none is an estimate once its output has arrived.
    pub open spec fn remote_ok(self, i: TxnIndex) -> bool {
        &&& forall|k: Key| #[trigger]
            self.store.contains_key((k, i)) <==> self.remote_keys[i as int].contains(k)
        &&& self.sched.status[i as int] is Committed ==> forall|k: Key| #[trigger]
            self.store.contains_key((k, i)) ==> !self.store[(k, i)].estimate
    }

    /// What holds of one transaction, apart from the flag of its record.
    pub open spec fn txn_base(self, i: TxnIndex) -> bool {
        if self.sched.local[i as int] {
            &&& self.output_in_store(i)
            &&& self.leftovers_are_estimates(i)
            &&& self.validated_reads_hold(i)
        } else {
            self.remote_ok(i)
        }
    }

    /// The invariant apart from the flags of the records.
    pub open spec fn base_inv(self) -> bool {
        &&& self.sched.wf()
        &&& self.records.len() == self.sched.len()
        &&& self.remote_keys.len() == self.sched.len()
        &&& forall|i: TxnIndex| self.in_range(i as int) ==> #[trigger] self.txn_base(i)
    }

    /// Scheduler, store and records fit together.
    pub open spec fn related(self) -> bool {
        &&& self.base_inv()
        &&& forall|i: TxnIndex| self.in_range(i as int) ==> #[trigger] self.record_flag_ok(i)
    }

    /// The invariant of a block execution: scheduler, store and records fit
    /// together, and all that can be committed is committed.
    pub open spec fn inv(self) -> bool {
        &&& self.related()
        &&& self.sched.settled()
    }

    /// The output of a committed local transaction.
    pub open spec fn committed_output(self, i: TxnIndex) -> Map<Key, Value> {
        writes_map(self.records[i as int]->0.write_set@)
    }
}

impl ExecutorView {
    /// A change of the schedule in which no transaction finishes, none gains
    /// a validation and none is committed keeps the invariant.
    pub proof fn lemma_schedule_change(self, sched: SchedulerView)
        requires
            self.inv(),
            sched.wf(),
            sched.settled(),
            sched.len() == self.sched.len(),
            sched.local == self.sched.local,
            forall|i: int|
                #![trigger sched.status[i]]
                self.in_range(i) ==> {
                    &&& sched.resolved(i) == self.sched.resolved(i)
                    &&& sched.resolved(i) ==> sched.incarnation[i] == self.sched.incarnation[i]
                    &&& sched.is_validated(i) ==> self.sched.is_validated(i)
                    &&& sched.status[i] is Committed == self.sched.status[i] is Committed
                },
        ensures
            (ExecutorView { sched, ..self }).inv(),
    {
        let post = ExecutorView { sched, ..self };
        assert forall|i: TxnIndex| post.in_range(i as int) implies #[trigger] post.record_flag_ok(i) by {
            assert(self.record_flag_ok(i));
            assert(self.sched.txn_wf(i as int));
            assert(post.sched.txn_wf(i as int));
        }
        assert forall|i: TxnIndex| post.in_range(i as int) implies #[trigger] post.txn_base(i) by {
            assert(self.txn_base(i));
            assert(self.record_flag_ok(i));
        }
    }

    /// What recording a finished execution makes of the state.
    pub open spec fn after_finish_execution(
        self,
        idx: TxnIndex,
        read_set: Vec<ReadDescriptor>,
        write_set: Vec<WriteOp>,
    ) -> ExecutorView {
        let incarnation = self.sched.incarnation[idx as int];
        let w = writes_map(write_set@);
        ExecutorView {
            sched: self.sched.after_finish_execution(
                idx as int,
                writes_new_key(self.store, idx, w),
            ),
            store: with_output(self.store, idx, incarnation, w),
            records: self.records.update(
                idx as int,
                Some(TxnRecord { incarnation, read_set, write_set, committed: false }),
            ),
            ..self
        }
    }

    /// Recording a finished execution keeps the invariant.
    pub proof fn lemma_finish_execution_inv(
        self,
        idx: TxnIndex,
        read_set: Vec<ReadDescriptor>,
        write_set: Vec<WriteOp>,
    )
        requires
            self.inv(),
            self.sched.accepts_execution_report(idx, self.sched.incarnation[idx as int]),
        ensures
            self.after_finish_execution(idx, read_set, write_set).inv(),
    {
        let post = self.after_finish_execution(idx, read_set, write_set);
        let w = writes_map(write_set@);
        let wrote_new = writes_new_key(self.store, idx, w);
        self.sched.lemma_finish_execution_wf(idx, wrote_new);
        assert(self.sched.txn_wf(idx as int));
        assert(self.txn_base(idx));
        assert(same_off(self.store, post.store, idx));
        assert forall|i: TxnIndex| post.in_range(i as int) implies #[trigger] post.record_flag_ok(i) by {
            assert(self.record_flag_ok(i));
            assert(self.sched.txn_wf(i as int));
            assert(post.sched.txn_wf(i as int));
        }
        assert forall|i: TxnIndex| post.in_range(i as int) implies #[trigger] post.txn_base(i) by {
            assert(self.txn_base(i));
            assert(self.record_flag_ok(i));
            assert(self.sched.txn_wf(i as int));
            if i == idx {
            } else if self.sched.local[i as int] {
                assert(post.sched.resolved(i as int) == self.sched.resolved(i as int));
                if post.sched.is_validated(i as int) || post.sched.status[i as int] is Committed {
                    let reads = self.records[i as int]->0.read_set@;
                    assert(self.sched.is_validated(i as int) || self.sched.status[i as int] is Committed);
                    assert forall|r: int| 0 <= r < reads.len() implies read_valid(
                        post.store,
                        i,
                        #[trigger] reads[r],
                    ) by {
                        if i < idx {
                            lemma_read_kept_below(
                                self.store,
                                post.store,
                                idx,
                                i,
                                reads[r],
                            );
                        } else {
                            assert(!wrote_new);
                            assert forall|k: Key| #[trigger]
                                post.store.contains_key((k, idx)) implies self.store.contains_key(
                                (k, idx),
                            ) by {
                                assert(w.contains_key(k));
                            }
                            lemma_read_kept_without_new_keys(
                                self.store,
                                post.store,
                                idx,
                                i,
                                reads[r],
                            );
                        }
                    }
                }
            } else {
            }
        }
    }

    /// What a failed validation makes of the state.
    pub open spec fn after_abort(self, idx: TxnIndex) -> ExecutorView {
        ExecutorView {
            sched: self.sched.after_abort(idx as int),
            store: with_estimates(self.store, idx),
            ..self
        }
    }

    /// Giving up an incarnation after a failed validation keeps the invariant.
    pub proof fn lemma_abort_inv(self, idx: TxnIndex)
        requires
            self.inv(),
            self.sched.accepts_validation_report(idx, self.sched.incarnation[idx as int]),
        ensures
            self.after_abort(idx).inv(),
    {
        let post = self.after_abort(idx);
        self.sched.lemma_abort_wf(idx);
        assert(self.sched.txn_wf(idx as int));
        assert(self.txn_base(idx));
        assert(same_off(self.store, post.store, idx));
        assert forall|i: TxnIndex| post.in_range(i as int) implies #[trigger] post.record_flag_ok(i) by {
            assert(self.record_flag_ok(i));
            assert(self.sched.txn_wf(i as int));
            assert(post.sched.txn_wf(i as int));
        }
        assert forall|i: TxnIndex| post.in_range(i as int) implies #[trigger] post.txn_base(i) by {
            assert(self.txn_base(i));
            assert(self.record_flag_ok(i));
            assert(self.sched.txn_wf(i as int));
            if i == idx {
            } else if self.sched.local[i as int] {
                if post.sched.is_validated(i as int) || post.sched.status[i as int] is Committed {
                    let reads = self.records[i as int]->0.read_set@;
                    assert(i < idx);
                    assert forall|r: int| 0 <= r < reads.len() implies read_valid(
                        post.store,
                        i,
                        #[trigger] reads[r],
                    ) by {
                        lemma_read_kept_below(
                            self.store,
                            post.store,
                            idx,
                            i,
                            reads[r],
                        );
                    }
                }
            } else {
            }
        }
    }

    /// Noting a successful validation keeps the invariant apart from the flags.
    pub proof fn lemma_validated_inv(self, idx: TxnIndex)
        requires
            self.inv(),
            self.sched.accepts_validation_report(idx, self.sched.incarnation[idx as int]),
            reads_valid(self.store, idx, self.records[idx as int]->0.read_set@),
        ensures
            (ExecutorView { sched: self.sched.after_validated(idx as int), ..self }).related(),
    {
        let post = ExecutorView { sched: self.sched.after_validated(idx as int), ..self };
        self.sched.lemma_validated_wf(idx as int);
        assert forall|i: TxnIndex| post.in_range(i as int) implies #[trigger] post.record_flag_ok(i) by {
            assert(self.record_flag_ok(i));
            assert(self.sched.txn_wf(i as int));
            assert(post.sched.txn_wf(i as int));
        }
        assert forall|i: TxnIndex| post.in_range(i as int) implies #[trigger] post.txn_base(i) by {
            assert(self.txn_base(i));
            assert(self.record_flag_ok(i));
        }
    }

    /// Committing the transaction at the commit cursor keeps the invariant apart from the flags.
    pub proof fn lemma_commit_base(self)
        requires
            self.base_inv(),
            self.sched.can_commit(),
        ensures
            (ExecutorView { sched: self.sched.after_commit(), ..self }).base_inv(),
    {
        let post = ExecutorView { sched: self.sched.after_commit(), ..self };
        self.sched.lemma_commit_wf();
        assert forall|i: TxnIndex| post.in_range(i as int) implies #[trigger] post.txn_base(i) by {
            assert(self.txn_base(i));
        }
    }

    /// Committing all that can be committed keeps the invariant apart from the
    /// flags, commits exactly the local transactions that the commit cursor
    /// passes, and changes nothing else.
    pub proof fn lemma_commits_base(self)
        requires
            self.base_inv(),
        ensures
            (ExecutorView { sched: self.sched.after_commits(), ..self }).base_inv(),
            self.sched.after_commits().commit_idx >= self.sched.commit_idx,
            self.sched.after_commits().len() == self.sched.len(),
            self.sched.after_commits().local == self.sched.local,
            self.sched.after_commits().incarnation == self.sched.incarnation,
            self.sched.after_commits().attempts == self.sched.attempts,
            self.sched.after_commits().halted == self.sched.halted,
            self.sched.halted is Some ==> self.sched.after_commits() == self.sched,
            forall|i: int|
                #![trigger self.sched.after_commits().status[i]]
                self.in_range(i) ==> self.sched.after_commits().status[i] == (if self.sched.local[i as int]
                    && self.sched.commit_idx <= i < self.sched.after_commits().commit_idx {
                    TxnStatus::Committed
                } else {
                    self.sched.status[i]
                }),
        decreases u32::MAX - self.sched.commit_idx,
    {
        if self.sched.can_commit() {
            self.sched.lemma_commit_wf();
            self.lemma_commit_base();
            let mid = ExecutorView { sched: self.sched.after_commit(), ..self };
            mid.lemma_commits_base();
            lemma_next_local(self.sched.local, self.sched.commit_idx + 1);
        }
    }

    /// What a successful validation makes of the state: the validation is
    /// noted, all that can be committed is committed, and the records of the
    /// newly committed transactions are declared final.
    pub open spec fn after_validated(self, idx: TxnIndex) -> ExecutorView {
        let sched = self.sched.after_validated(idx as int).after_commits();
        ExecutorView {
            sched,
            records: with_final_records(
                self.records,
                self.sched.local,
                self.sched.commit_idx as int,
                sched.commit_idx as int,
            ),
            ..self
        }
    }

    /// A successful validation, with the commits that follow, keeps the invariant.
    pub proof fn lemma_validated_and_committed_inv(self, idx: TxnIndex)
        requires
            self.inv(),
            self.sched.accepts_validation_report(idx, self.sched.incarnation[idx as int]),
            reads_valid(self.store, idx, self.records[idx as int]->0.read_set@),
        ensures
            self.after_validated(idx).inv(),
    {
        let mid = ExecutorView { sched: self.sched.after_validated(idx as int), ..self };
        self.lemma_validated_inv(idx);
        mid.lemma_commits_base();
        mid.sched.lemma_commits_wf();
        let before_flags = ExecutorView { sched: mid.sched.after_commits(), ..mid };
        let post = self.after_validated(idx);
        assert forall|i: TxnIndex| post.in_range(i as int) implies #[trigger] post.record_flag_ok(i) by {
            assert(self.record_flag_ok(i));
            assert(self.sched.txn_wf(i as int));
            assert(post.sched.txn_wf(i as int));
        }
        assert forall|i: TxnIndex| post.in_range(i as int) implies #[trigger] post.txn_base(i) by {
            assert(before_flags.txn_base(i));
            assert(self.record_flag_ok(i));
            assert(self.txn_base(i));
            assert(self.sched.txn_wf(i as int));
            assert(post.sched.status[i as int] == before_flags.sched.status[i as int]);
        }
    }

    /// The value of an awaited key of a remote transaction can be taken in.
    pub open spec fn accepts_remote_write(self, r: TxnIndex, key: Key) -> bool {
        &&& self.in_range(r as int)
        &&& !self.sched.local[r as int]
        &&& self.store.contains_key((key, r))
        &&& self.store[(key, r)].estimate
    }

    /// No value is awaited from the remote transaction any more.
    pub open spec fn fully_arrived(m: StoreMap, r: TxnIndex) -> bool {
        forall|k: Key| #[trigger] m.contains_key((k, r)) ==> !m[(k, r)].estimate
    }

    /// What the arrival of a remote value makes of the state: the value takes
    /// the place of the estimate, and where it was the last one awaited from
    /// its transaction, that transaction is final and its waiters are woken.
    pub open spec fn after_remote_write(self, r: TxnIndex, key: Key, value: Value) -> ExecutorView {
        let store = self.store.insert(
            (key, r),
            Cell { incarnation: 0, value, estimate: false },
        );
        ExecutorView {
            store,
            sched: if Self::fully_arrived(store, r) && self.sched.accepts_arrival(r) {
                self.sched.after_arrival(r as int)
            } else {
                self.sched
            },
            ..self
        }
    }

    /// Taking in a remote value keeps the invariant.
    pub proof fn lemma_remote_write_inv(self, r: TxnIndex, key: Key, value: Value)
        requires
            self.inv(),
            self.accepts_remote_write(r, key),
        ensures
            self.after_remote_write(r, key, value).inv(),
    {
        let post = self.after_remote_write(r, key, value);
        let cell = Cell { incarnation: 0, value, estimate: false };
        assert(self.txn_base(r));
        assert(self.sched.txn_wf(r as int));
        if Self::fully_arrived(post.store, r) && self.sched.accepts_arrival(r) {
            self.sched.lemma_arrival_wf(r);
        }
        assert(same_off(self.store, post.store, r));
        assert forall|i: TxnIndex| post.in_range(i as int) implies #[trigger] post.record_flag_ok(i) by {
            assert(self.record_flag_ok(i));
            assert(self.sched.txn_wf(i as int));
            assert(post.sched.txn_wf(i as int));
        }
        assert forall|i: TxnIndex| post.in_range(i as int) implies #[trigger] post.txn_base(i) by {
            assert(self.txn_base(i));
            assert(self.record_flag_ok(i));
            assert(self.sched.txn_wf(i as int));
            if i == r {
                assert forall|k: Key| #[trigger]
                    post.store.contains_key((k, i)) <==> post.remote_keys[i as int].contains(
                        k,
                    ) by {
                    assert(self.store.contains_key((k, i)) <==> self.remote_keys[i as int].contains(
                        k,
                    ));
                }
            } else if self.sched.local[i as int] {
                assert(post.sched.resolved(i as int) == self.sched.resolved(i as int));
                if post.sched.is_validated(i as int) || post.sched.status[i as int] is Committed {
                    let reads = self.records[i as int]->0.read_set@;
                    assert forall|q: int| 0 <= q < reads.len() implies read_valid(
                        post.store,
                        i,
                        #[trigger] reads[q],
                    ) by {
                        lemma_read_kept_by_arrival(
                            self.store,
                            key,
                            r,
                            cell,
                            i,
                            reads[q],
                        );
                    }
                }
            } else {
            }
        }
    }
}

impl ExecutorView {
    /// The state in which a block starts.
    pub open spec fn initial(local: Seq<bool>, deps: Seq<RemoteDependency>) -> ExecutorView {
        ExecutorView {
            sched: SchedulerView::initial(local, awaited_flags(deps, local.len())),
            store: initial_store(deps),
            records: Seq::new(local.len(), |i: int| None::<TxnRecord>),
            remote_keys: awaited_keys(deps, local.len()),
        }
    }

    /// The state in which a block starts satisfies the invariant.
    pub proof fn lemma_initial_inv(local: Seq<bool>, deps: Seq<RemoteDependency>)
        requires
            local.len() <= u32::MAX,
            dependencies_fit(local, deps),
        ensures
            Self::initial(local, deps).inv(),
    {
        let v = Self::initial(local, deps);
        SchedulerView::lemma_initial_wf(local, awaited_flags(deps, local.len()));
        lemma_initial_store(deps, local.len());
        assert forall|i: TxnIndex| v.in_range(i as int) implies #[trigger] v.txn_base(i) by {
            if local[i as int] {
                assert forall|k: Key| !v.store.contains_key((k, i)) by {
                    if v.store.contains_key((k, i)) {
                        let p = choose|p: int|
                            0 <= p < deps.len() && #[trigger] deps[p] == (RemoteDependency {
                                txn_idx: i,
                                key: k,
                            });
                        assert(!local[deps[p].txn_idx as int]);
                    }
                }
            } else {
                if v.sched.status[i as int] is Committed {
                    assert forall|k: Key| !v.store.contains_key((k, i)) by {
                        if v.store.contains_key((k, i)) {
                            let p = choose|p: int|
                                0 <= p < deps.len() && #[trigger] deps[p] == (RemoteDependency {
                                    txn_idx: i,
                                    key: k,
                                });
                            assert(deps[p].txn_idx == i);
                        }
                    }
                }
            }
        }
        assert forall|i: TxnIndex| v.in_range(i as int) implies #[trigger] v.record_flag_ok(i) by {}
    }

    /// What never goes back for one transaction from one state to a later
    /// one: its incarnation, the list of its execution attempts, and, once it
    /// is committed, its record and its cells in the store.
    pub open spec fn txn_advances(self, post: ExecutorView, i: TxnIndex) -> bool {
        &&& post.sched.incarnation[i as int] >= self.sched.incarnation[i as int]
        &&& self.sched.attempts[i as int].is_prefix_of(post.sched.attempts[i as int])
        &&& self.sched.status[i as int] is Committed ==> {
            &&& post.sched.status[i as int] is Committed
            &&& post.records[i as int] == self.records[i as int]
            &&& forall|k: Key|
                #![trigger post.store.contains_key((k, i))]
                #![trigger self.store.contains_key((k, i))]
                post.store.contains_key((k, i)) == self.store.contains_key((k, i)) && (
                self.store.contains_key((k, i)) ==> post.store[(k, i)] == self.store[(k, i)])
        }
    }

    /// `post` can follow `self` in an execution: nothing that is final in
    /// `self` differs in `post`.
    pub open spec fn advances_to(self, post: ExecutorView) -> bool {
        &&& post.sched.len() == self.sched.len()
        &&& post.sched.local == self.sched.local
        &&& post.remote_keys == self.remote_keys
        &&& post.sched.commit_idx >= self.sched.commit_idx
        &&& self.sched.halted is Some ==> post.sched.halted == self.sched.halted
            && post.sched.commit_idx == self.sched.commit_idx
        &&& forall|i: TxnIndex| self.in_range(i as int) ==> #[trigger] self.txn_advances(post, i)
    }

    /// A change of the schedule alone, in which no incarnation falls, the
    /// lists of attempts only grow and no commit is undone, is an advance.
    pub proof fn lemma_schedule_advance(self, sched: SchedulerView)
        requires
            sched.len() == self.sched.len(),
            sched.local == self.sched.local,
            sched.commit_idx == self.sched.commit_idx,
            self.sched.halted is Some ==> sched.halted == self.sched.halted,
            forall|i: int|
                #![trigger sched.status[i]]
                self.in_range(i) ==> {
                    &&& sched.incarnation[i] >= self.sched.incarnation[i]
                    &&& self.sched.attempts[i].is_prefix_of(sched.attempts[i])
                    &&& self.sched.status[i] is Committed ==> sched.status[i] is Committed
                },
        ensures
            self.advances_to(ExecutorView { sched, ..self }),
    {
        let post = ExecutorView { sched, ..self };
        assert forall|i: TxnIndex| self.in_range(i as int) implies #[trigger] self.txn_advances(
            post,
            i,
        ) by {
            assert(self.sched.status[i as int] is Committed ==> sched.status[i as int] is Committed);
        }
    }

    /// Recording a finished execution is an advance.
    pub proof fn lemma_finish_execution_advances(
        self,
        idx: TxnIndex,
        read_set: Vec<ReadDescriptor>,
        write_set: Vec<WriteOp>,
    )
        requires
            self.inv(),
            self.sched.accepts_execution_report(idx, self.sched.incarnation[idx as int]),
        ensures
            self.advances_to(self.after_finish_execution(idx, read_set, write_set)),
    {
        let post = self.after_finish_execution(idx, read_set, write_set);
        assert forall|i: TxnIndex| self.in_range(i as int) implies #[trigger] self.txn_advances(
            post,
            i,
        ) by {
            assert(self.sched.txn_wf(i as int));
        }
    }

    /// Giving up an incarnation after a failed validation is an advance.
    pub proof fn lemma_abort_advances(self, idx: TxnIndex)
        requires
            self.inv(),
            self.sched.accepts_validation_report(idx, self.sched.incarnation[idx as int]),
        ensures
            self.advances_to(self.after_abort(idx)),
    {
        let post = self.after_abort(idx);
        assert(self.sched.txn_wf(idx as int));
        assert forall|i: TxnIndex| self.in_range(i as int) implies #[trigger] self.txn_advances(
            post,
            i,
        ) by {
            assert(self.sched.txn_wf(i as int));
            if i == idx && self.sched.reexecutes_at_once(idx as int) {
                let a = self.sched.attempts[i as int];
                assert(a.is_prefix_of(a.push((self.sched.incarnation[i as int] + 1) as Incarnation)));
            }
        }
    }

    /// A successful validation, with the commits that follow, is an advance.
    pub proof fn lemma_validated_advances(self, idx: TxnIndex)
        requires
            self.inv(),
            self.sched.accepts_validation_report(idx, self.sched.incarnation[idx as int]),
            reads_valid(self.store, idx, self.records[idx as int]->0.read_set@),
        ensures
            self.advances_to(self.after_validated(idx)),
    {
        let mid = ExecutorView { sched: self.sched.after_validated(idx as int), ..self };
        self.lemma_validated_inv(idx);
        mid.lemma_commits_base();
        let post = self.after_validated(idx);
        assert forall|i: TxnIndex| self.in_range(i as int) implies #[trigger] self.txn_advances(
            post,
            i,
        ) by {
            assert(self.sched.txn_wf(i as int));
            assert(post.sched.status[i as int] == (if mid.sched.local[i as int]
                && mid.sched.commit_idx <= i < post.sched.commit_idx {
                TxnStatus::Committed
            } else {
                mid.sched.status[i as int]
            }));
            if self.sched.status[i as int] is Committed && self.sched.local[i as int] {
                assert(i < self.sched.commit_idx);
            }
        }
    }

    /// Taking in a remote value is an advance.
    pub proof fn lemma_remote_write_advances(self, r: TxnIndex, key: Key, value: Value)
        requires
            self.inv(),
            self.accepts_remote_write(r, key),
        ensures
            self.advances_to(self.after_remote_write(r, key, value)),
    {
        let post = self.after_remote_write(r, key, value);
        assert(self.txn_base(r));
        assert(self.sched.txn_wf(r as int));
        assert forall|i: TxnIndex| self.in_range(i as int) implies #[trigger] self.txn_advances(
            post,
            i,
        ) by {
            assert(self.sched.txn_wf(i as int));
        }
    }

    /// Every state advances to itself.
    pub proof fn lemma_advances_reflexive(self)
        ensures
            self.advances_to(self),
    {
        assert forall|i: TxnIndex| self.in_range(i as int) implies #[trigger] self.txn_advances(
            self,
            i,
        ) by {}
    }

    /// Advances compose.
    pub proof fn lemma_advances_transitive(self, mid: ExecutorView, post: ExecutorView)
        requires
            self.advances_to(mid),
            mid.advances_to(post),
        ensures
            self.advances_to(post),
    {
        assert forall|i: TxnIndex| self.in_range(i as int) implies #[trigger] self.txn_advances(
            post,
            i,
        ) by {
            assert(self.txn_advances(mid, i));
            assert(mid.txn_advances(post, i));
            let a = self.sched.attempts[i as int];
            let b = mid.sched.attempts[i as int];
            let c = post.sched.attempts[i as int];
            assert(a.is_prefix_of(c)) by {
                assert(a.len() <= b.len() <= c.len());
                assert(a =~= c.subrange(0, a.len() as int)) by {
                    assert(a == b.subrange(0, a.len() as int));
                    assert(b == c.subrange(0, b.len() as int));
                }
            }
        }
    }
}

} // verus!
