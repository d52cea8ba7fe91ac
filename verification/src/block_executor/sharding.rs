//! Sharded execution: what a shard takes in from the other shards and what
//! it sends to them.
//!
//! A shard awaits the values of the keys that its remote dependencies name,
//! and owes the values of the keys that other shards have subscribed to. The
//! transport of the messages is the caller's; here is what is done with a
//! message that came in, and which messages a commit gives rise to.

use crate::block_executor::executor::BlockExecutor;
use crate::block_executor::executor_model::{ExecutorView, RemoteDependency};
use crate::block_executor::types::{Key, TxnIndex, Value, WriteOp};
use vstd::prelude::*;

verus! {

/// The index of a shard.
pub type ShardId = usize;

/// A declaration that a shard reads a key that a transaction of another shard writes.
#[derive(Clone, Copy, Debug, PartialEq, Eq, Structural)]
pub struct InterShardDependency {
    /// The shard that reads.
    pub dependent_shard: ShardId,
    /// The transaction that writes.
    pub txn_idx: TxnIndex,
    pub key: Key,
}

/// The wish of a shard to be told the value that a local transaction writes to a key.
#[derive(Clone, Copy, Debug, PartialEq, Eq, Structural)]
pub struct Subscription {
    pub txn_idx: TxnIndex,
    pub key: Key,
    pub shard: ShardId,
}

/// A message that came in: a transaction of another shard committed a write.
#[derive(Clone, Copy, Debug, PartialEq, Eq, Structural)]
pub struct RemoteWrite {
    pub txn_idx: TxnIndex,
    pub key: Key,
    pub value: Value,
    pub origin_shard: ShardId,
}

/// A message to send: a local transaction committed a write that a shard subscribed to.
#[derive(Clone, Copy, Debug, PartialEq, Eq, Structural)]
pub struct CommitNotification {
    pub dest_shard: ShardId,
    pub txn_idx: TxnIndex,
    pub key: Key,
    pub value: Value,
    pub origin_shard: ShardId,
}

/// The write at position `p` is the last one of its write set to its key.
pub open spec fn is_final_write(ws: Seq<WriteOp>, p: int) -> bool {
    forall|q: int| p < q < ws.len() ==> (#[trigger] ws[q]).key != ws[p].key
}

/// The messages that one write of transaction `txn_idx` gives rise to: one
/// for each subscription to its key, in the order of the subscriptions.
pub open spec fn notifications_for(
    subs: Seq<Subscription>,
    txn_idx: TxnIndex,
    w: WriteOp,
    origin: ShardId,
) -> Seq<CommitNotification>
    decreases subs.len(),
{
    if subs.len() == 0 {
        Seq::empty()
    } else {
        let rest = notifications_for(subs.drop_last(), txn_idx, w, origin);
        let s = subs.last();
        if s.txn_idx == txn_idx && s.key == w.key {
            rest.push(
                CommitNotification {
                    dest_shard: s.shard,
                    txn_idx,
                    key: w.key,
                    value: w.value,
                    origin_shard: origin,
                },
            )
        } else {
            rest
        }
    }
}

/// The messages that the first `upto` writes of a committed write set give
/// rise to: those of each write that is the last one to its key, in the
/// order of the writes.
pub open spec fn notifications(
    subs: Seq<Subscription>,
    txn_idx: TxnIndex,
    ws: Seq<WriteOp>,
    upto: int,
    origin: ShardId,
) -> Seq<CommitNotification>
    decreases upto,
{
    if upto <= 0 {
        Seq::empty()
    } else {
        let rest = notifications(subs, txn_idx, ws, upto - 1, origin);
        if is_final_write(ws, upto - 1) {
            rest + notifications_for(subs, txn_idx, ws[upto - 1], origin)
        } else {
            rest
        }
    }
}

/// A message is taken in: the receiver is open, the message comes from
/// another shard, and the value is awaited.
pub open spec fn takes_in(pre: ExecutorView, shard: ShardId, receiving: bool, m: RemoteWrite) -> bool {
    receiving && m.origin_shard != shard && pre.accepts_remote_write(m.txn_idx, m.key)
}

/// The state after the messages of an inbox were handled in order.
pub open spec fn after_inbox(
    pre: ExecutorView,
    shard: ShardId,
    receiving: bool,
    inbox: Seq<RemoteWrite>,
) -> ExecutorView
    decreases inbox.len(),
{
    if inbox.len() == 0 {
        pre
    } else {
        let before = after_inbox(pre, shard, receiving, inbox.drop_last());
        let m = inbox.last();
        if takes_in(before, shard, receiving, m) {
            before.after_remote_write(m.txn_idx, m.key, m.value)
        } else {
            before
        }
    }
}

/// The number of messages of an inbox that were taken in.
pub open spec fn taken_in(
    pre: ExecutorView,
    shard: ShardId,
    receiving: bool,
    inbox: Seq<RemoteWrite>,
) -> nat
    decreases inbox.len(),
{
    if inbox.len() == 0 {
        0
    } else {
        let before = after_inbox(pre, shard, receiving, inbox.drop_last());
        taken_in(pre, shard, receiving, inbox.drop_last()) + if takes_in(
            before,
            shard,
            receiving,
            inbox.last(),
        ) {
            1nat
        } else {
            0nat
        }
    }
}

/// The places where unsharded and sharded execution differ, apart from the
/// transaction indices.
pub trait BlockSTMPlugin {
    /// The transactions of the block as the plugin holds them.
    type Txn;

    /// The transactions of the block, by their global indices.
    spec fn transactions(&self) -> Seq<Self::Txn>;

    /// The keys awaited from transactions that are executed elsewhere.
    spec fn awaited(&self) -> Seq<RemoteDependency>;

    /// The subscriptions of other shards to writes of local transactions.
    spec fn subscribed(&self) -> Seq<Subscription>;

    /// The shard that the plugin serves.
    spec fn shard(&self) -> ShardId;

    /// Whether messages are still taken in.
    spec fn receiving(&self) -> bool;

    /// The remote dependencies of all local transactions.
    fn remote_dependencies(&self) -> (deps: Vec<RemoteDependency>)
        ensures
            deps@ == self.awaited(),
    ;

    /// The transaction of the global index `idx`.
    fn txn(&self, idx: TxnIndex) -> (txn: &Self::Txn)
        requires
            idx < self.transactions().len(),
        ensures
            *txn == self.transactions()[idx as int],
    ;

    /// Handles the messages that came in, in order: each value that is
    /// awaited takes the place of its estimate, and the transactions that
    /// waited for the last value of a transaction are woken. Returns the
    /// number of messages taken in.
    fn run_sharding_msg_loop(&self, executor: &mut BlockExecutor, inbox: &Vec<RemoteWrite>) -> (taken:
        usize)
        requires
            old(executor).inv(),
        ensures
            final(executor).inv(),
            old(executor)@.advances_to(final(executor)@),
            final(executor)@ == after_inbox(
                old(executor)@,
                self.shard(),
                self.receiving(),
                inbox@,
            ),
            taken == taken_in(old(executor)@, self.shard(), self.receiving(), inbox@),
    ;

    /// Closes the receiver: no message is taken in afterwards.
    fn shutdown_receiver(&mut self)
        ensures
            !final(self).receiving(),
            final(self).awaited() == old(self).awaited(),
            final(self).subscribed() == old(self).subscribed(),
            final(self).shard() == old(self).shard(),
            final(self).transactions() == old(self).transactions(),
    ;

    /// The messages to send once the local transaction `txn_idx` is
    /// committed with the writes `delta_writes`.
    fn on_local_commit(&self, txn_idx: TxnIndex, delta_writes: &Vec<WriteOp>) -> (outbox: Vec<
        CommitNotification,
    >)
        ensures
            outbox@ == notifications(
                self.subscribed(),
                txn_idx,
                delta_writes@,
                delta_writes@.len() as int,
                self.shard(),
            ),
    ;
}

/// Handles an inbox for the shard `shard`.
fn handle_inbox(
    executor: &mut BlockExecutor,
    shard: ShardId,
    receiving: bool,
    inbox: &Vec<RemoteWrite>,
) -> (taken: usize)
    requires
        old(executor).inv(),
    ensures
        final(executor).inv(),
        old(executor)@.advances_to(final(executor)@),
        final(executor)@ == after_inbox(old(executor)@, shard, receiving, inbox@),
        taken == taken_in(old(executor)@, shard, receiving, inbox@),
{
    let mut taken: usize = 0;
    let mut p: usize = 0;
    proof {
        executor@.lemma_advances_reflexive();
    }
    while p < inbox.len()
        invariant
            p <= inbox.len(),
            taken <= p,
            executor.inv(),
            old(executor)@.advances_to(executor@),
            executor@ == after_inbox(old(executor)@, shard, receiving, inbox@.take(p as int)),
            taken == taken_in(old(executor)@, shard, receiving, inbox@.take(p as int)),
        decreases inbox.len() - p,
    {
        let m = inbox[p];
        let ghost before = executor@;
        proof {
            assert(inbox@.take(p + 1).drop_last() == inbox@.take(p as int));
            before.lemma_advances_reflexive();
        }
        if receiving && m.origin_shard != shard {
            if executor.on_remote_write(m.txn_idx, m.key, m.value) {
                taken += 1;
            }
        }
        proof {
            old(executor)@.lemma_advances_transitive(before, executor@);
        }
        p += 1;
    }
    assert(inbox@.take(inbox@.len() as int) == inbox@);
    taken
}

/// The plugin of unsharded execution: nothing is awaited and nothing is owed.
pub struct DefaultPlugin<T> {
    txns: Vec<T>,
}

impl<T> DefaultPlugin<T> {
    /// The plugin for the block of the transactions `txns`.
    pub fn new(txns: Vec<T>) -> (plugin: DefaultPlugin<T>)
        ensures
            plugin.transactions() == txns@,
            plugin.awaited() == Seq::<RemoteDependency>::empty(),
            plugin.subscribed() == Seq::<Subscription>::empty(),
            !plugin.receiving(),
    {
        DefaultPlugin { txns }
    }
}

/// Without subscriptions there is nothing to send.
proof fn lemma_no_subscriptions(txn_idx: TxnIndex, ws: Seq<WriteOp>, upto: int, origin: ShardId)
    requires
        upto <= ws.len(),
    ensures
        notifications(Seq::empty(), txn_idx, ws, upto, origin) == Seq::<CommitNotification>::empty(),
    decreases upto,
{
    if upto > 0 {
        lemma_no_subscriptions(txn_idx, ws, upto - 1, origin);
    }
}

/// A closed receiver leaves the state as it is.
proof fn lemma_closed_receiver(pre: ExecutorView, shard: ShardId, inbox: Seq<RemoteWrite>)
    ensures
        after_inbox(pre, shard, false, inbox) == pre,
        taken_in(pre, shard, false, inbox) == 0,
    decreases inbox.len(),
{
    if inbox.len() > 0 {
        lemma_closed_receiver(pre, shard, inbox.drop_last());
    }
}

impl<T> BlockSTMPlugin for DefaultPlugin<T> {
    type Txn = T;

    closed spec fn transactions(&self) -> Seq<T> {
        self.txns@
    }

    open spec fn awaited(&self) -> Seq<RemoteDependency> {
        Seq::empty()
    }

    open spec fn subscribed(&self) -> Seq<Subscription> {
        Seq::empty()
    }

    open spec fn shard(&self) -> ShardId {
        0
    }

    open spec fn receiving(&self) -> bool {
        false
    }

    fn remote_dependencies(&self) -> (deps: Vec<RemoteDependency>) {
        Vec::new()
    }

    fn txn(&self, idx: TxnIndex) -> (txn: &T) {
        &self.txns[idx as usize]
    }

    fn run_sharding_msg_loop(&self, executor: &mut BlockExecutor, inbox: &Vec<RemoteWrite>) -> (taken:
        usize) {
        proof {
            lemma_closed_receiver(executor@, 0, inbox@);
            executor@.lemma_advances_reflexive();
        }
        0
    }

    fn shutdown_receiver(&mut self) {
    }

    fn on_local_commit(&self, txn_idx: TxnIndex, delta_writes: &Vec<WriteOp>) -> (outbox: Vec<
        CommitNotification,
    >) {
        proof {
            lemma_no_subscriptions(txn_idx, delta_writes@, delta_writes@.len() as int, 0);
        }
        Vec::new()
    }
}

/// The plugin of one shard.
pub struct ShardingPlugin<T> {
    shard: ShardId,
    remote_dependencies: Vec<RemoteDependency>,
    subscriptions: Vec<Subscription>,
    receiving: bool,
    txns: Vec<T>,
}

/// The declarations in which shard `shard` is the reader, as remote dependencies.
pub open spec fn awaited_by(declared: Seq<InterShardDependency>, shard: ShardId) -> Seq<
    RemoteDependency,
>
    decreases declared.len(),
{
    if declared.len() == 0 {
        Seq::empty()
    } else {
        let rest = awaited_by(declared.drop_last(), shard);
        let d = declared.last();
        if d.dependent_shard == shard {
            rest.push(RemoteDependency { txn_idx: d.txn_idx, key: d.key })
        } else {
            rest
        }
    }
}

/// The declarations in which another shard reads from a transaction that
/// is local by `local`, as subscriptions.
pub open spec fn owed_to(declared: Seq<InterShardDependency>, shard: ShardId, local: Seq<bool>) -> Seq<
    Subscription,
>
    decreases declared.len(),
{
    if declared.len() == 0 {
        Seq::empty()
    } else {
        let rest = owed_to(declared.drop_last(), shard, local);
        let d = declared.last();
        if d.dependent_shard != shard && d.txn_idx < local.len() && local[d.txn_idx as int] {
            rest.push(Subscription { txn_idx: d.txn_idx, key: d.key, shard: d.dependent_shard })
        } else {
            rest
        }
    }
}

impl<T> ShardingPlugin<T> {
    /// The plugin of shard `shard` for the block of the transactions
    /// `txns` and the declared dependencies between shards, where `local`
    /// flags the transactions of this shard. The receiver is open.
    pub fn new(
        shard: ShardId,
        declared: &Vec<InterShardDependency>,
        local: &Vec<bool>,
        txns: Vec<T>,
    ) -> (plugin: ShardingPlugin<T>)
        ensures
            plugin.transactions() == txns@,
            plugin.shard() == shard,
            plugin.receiving(),
            plugin.awaited() == awaited_by(declared@, shard),
            plugin.subscribed() == owed_to(declared@, shard, local@),
    {
        let mut remote_dependencies: Vec<RemoteDependency> = Vec::new();
        let mut subscriptions: Vec<Subscription> = Vec::new();
        let mut p: usize = 0;
        while p < declared.len()
            invariant
                p <= declared.len(),
                remote_dependencies@ == awaited_by(declared@.take(p as int), shard),
                subscriptions@ == owed_to(declared@.take(p as int), shard, local@),
            decreases declared.len() - p,
        {
            let d = declared[p];
            proof {
                assert(declared@.take(p + 1).drop_last() == declared@.take(p as int));
            }
            if d.dependent_shard == shard {
                remote_dependencies.push(RemoteDependency { txn_idx: d.txn_idx, key: d.key });
            } else if (d.txn_idx as usize) < local.len() && local[d.txn_idx as usize] {
                subscriptions.push(
                    Subscription { txn_idx: d.txn_idx, key: d.key, shard: d.dependent_shard },
                );
            }
            p += 1;
        }
        assert(declared@.take(declared@.len() as int) == declared@);
        ShardingPlugin { shard, remote_dependencies, subscriptions, receiving: true, txns }
    }

    /// The messages for one write.
    fn notify_subscribers(&self, txn_idx: TxnIndex, w: WriteOp, outbox: &mut Vec<CommitNotification>)
        ensures
            final(outbox)@ == old(outbox)@ + notifications_for(
                self.subscriptions@,
                txn_idx,
                w,
                self.shard,
            ),
    {
        let ghost start = outbox@;
        let mut p: usize = 0;
        assert(outbox@ == start + Seq::<CommitNotification>::empty());
        while p < self.subscriptions.len()
            invariant
                p <= self.subscriptions.len(),
                outbox@ == start + notifications_for(
                    self.subscriptions@.take(p as int),
                    txn_idx,
                    w,
                    self.shard,
                ),
            decreases self.subscriptions.len() - p,
        {
            let s = self.subscriptions[p];
            let ghost sofar = notifications_for(
                self.subscriptions@.take(p as int),
                txn_idx,
                w,
                self.shard,
            );
            proof {
                assert(self.subscriptions@.take(p + 1).drop_last() == self.subscriptions@.take(
                    p as int,
                ));
            }
            if s.txn_idx == txn_idx && s.key == w.key {
                let n = CommitNotification {
                    dest_shard: s.shard,
                    txn_idx,
                    key: w.key,
                    value: w.value,
                    origin_shard: self.shard,
                };
                outbox.push(n);
                assert(outbox@ == start + sofar.push(n));
            }
            p += 1;
        }
        assert(self.subscriptions@.take(self.subscriptions@.len() as int) == self.subscriptions@);
    }
}

/// Whether the write at position `p` is the last one to its key.
fn final_write(ws: &Vec<WriteOp>, p: usize) -> (result: bool)
    requires
        p < ws.len(),
    ensures
        result == is_final_write(ws@, p as int),
{
    let mut q: usize = p + 1;
    while q < ws.len()
        invariant
            p < q <= ws.len(),
            forall|j: int| p < j < q ==> (#[trigger] ws[j]).key != ws[p as int].key,
        decreases ws.len() - q,
    {
        if ws[q].key == ws[p].key {
            return false;
        }
        q += 1;
    }
    true
}

impl<T> BlockSTMPlugin for ShardingPlugin<T> {
    type Txn = T;

    closed spec fn transactions(&self) -> Seq<T> {
        self.txns@
    }

    closed spec fn awaited(&self) -> Seq<RemoteDependency> {
        self.remote_dependencies@
    }

    closed spec fn subscribed(&self) -> Seq<Subscription> {
        self.subscriptions@
    }

    closed spec fn shard(&self) -> ShardId {
        self.shard
    }

    closed spec fn receiving(&self) -> bool {
        self.receiving
    }

    fn remote_dependencies(&self) -> (deps: Vec<RemoteDependency>) {
        let mut deps: Vec<RemoteDependency> = Vec::new();
        let mut p: usize = 0;
        while p < self.remote_dependencies.len()
            invariant
                p <= self.remote_dependencies.len(),
                deps@ == self.remote_dependencies@.take(p as int),
            decreases self.remote_dependencies.len() - p,
        {
            deps.push(self.remote_dependencies[p]);
            p += 1;
            assert(deps@ == self.remote_dependencies@.take(p as int));
        }
        assert(self.remote_dependencies@.take(self.remote_dependencies@.len() as int)
            == self.remote_dependencies@);
        deps
    }

    fn txn(&self, idx: TxnIndex) -> (txn: &T) {
        &self.txns[idx as usize]
    }

    fn run_sharding_msg_loop(&self, executor: &mut BlockExecutor, inbox: &Vec<RemoteWrite>) -> (taken:
        usize) {
        handle_inbox(executor, self.shard, self.receiving, inbox)
    }

    fn shutdown_receiver(&mut self) {
        self.receiving = false;
    }

    fn on_local_commit(&self, txn_idx: TxnIndex, delta_writes: &Vec<WriteOp>) -> (outbox: Vec<
        CommitNotification,
    >) {
        let mut outbox: Vec<CommitNotification> = Vec::new();
        let mut p: usize = 0;
        while p < delta_writes.len()
            invariant
                p <= delta_writes.len(),
                outbox@ == notifications(
                    self.subscriptions@,
                    txn_idx,
                    delta_writes@,
                    p as int,
                    self.shard,
                ),
            decreases delta_writes.len() - p,
        {
            if final_write(delta_writes, p) {
                self.notify_subscribers(txn_idx, delta_writes[p], &mut outbox);
            }
            p += 1;
        }
        outbox
    }
}

} // verus!
