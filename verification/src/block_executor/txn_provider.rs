//! Which transactions of a block are executed here.
//!
//! A block is a range of global transaction indices. In unsharded execution
//! all of them are local; in sharded execution each shard executes a
//! sub-sequence, and awaits the outputs of some of the others. Both are
//! described by flags over the global indices.

use crate::block_executor::executor_model::RemoteDependency;
use crate::block_executor::scheduler_model::{lemma_next_local, next_local};
use crate::block_executor::types::TxnIndex;
use vstd::prelude::*;

verus! {

/// The number of flags set.
pub open spec fn count_local(flags: Seq<bool>) -> nat
    decreases flags.len(),
{
    if flags.len() == 0 {
        0
    } else {
        count_local(flags.drop_last()) + if flags.last() {
            1nat
        } else {
            0nat
        }
    }
}

/// `list` names, in increasing order, exactly the indices whose flag is set.
pub open spec fn lists_flagged(list: Seq<TxnIndex>, flags: Seq<bool>) -> bool {
    &&& forall|p: int, q: int| 0 <= p < q < list.len() ==> list[p] < list[q]
    &&& forall|p: int| 0 <= p < list.len() ==> list[p] < flags.len() && flags[list[p] as int]
    &&& forall|i: int| 0 <= i < flags.len() && flags[i] ==> list.contains(i as TxnIndex)
}

/// Flag by flag, whether either of two flags is set.
pub open spec fn either(a: Seq<bool>, b: Seq<bool>) -> Seq<bool> {
    Seq::new(a.len(), |i: int| a[i] || (i < b.len() && b[i]))
}

/// Where every flag is set, as many are set as there are.
pub proof fn lemma_count_all_local(flags: Seq<bool>)
    requires
        forall|i: int| 0 <= i < flags.len() ==> flags[i],
    ensures
        count_local(flags) == flags.len(),
    decreases flags.len(),
{
    if flags.len() > 0 {
        lemma_count_all_local(flags.drop_last());
    }
}

/// The transaction index operations that differ between unsharded and
/// sharded execution.
pub trait TxnIndexProvider {
    /// For each global index of the block, whether the transaction is executed here.
    spec fn local_flags(&self) -> Seq<bool>;

    /// For each global index of the block, whether the transaction is
    /// executed elsewhere and its output is awaited here.
    spec fn awaited_flags(&self) -> Seq<bool>;

    /// For each global index of the block, whether the awaited output has arrived.
    spec fn arrived_flags(&self) -> Seq<bool>;

    /// The provider describes a block that transaction indices can count.
    spec fn valid(&self) -> bool;

    /// The identifier of the block.
    spec fn block_id(&self) -> Seq<u8>;

    /// The index of the shard that the provider serves.
    spec fn shard(&self) -> usize;

    /// The index that ends the list of local transactions: the length of the block.
    fn end_txn_idx(&self) -> (end: TxnIndex)
        requires
            self.valid(),
        ensures
            end == self.local_flags().len(),
    ;

    /// The number of local transactions.
    fn num_txns(&self) -> (n: usize)
        requires
            self.valid(),
        ensures
            n == count_local(self.local_flags()),
    ;

    /// The first local transaction, or the end index where there is none.
    fn first_txn(&self) -> (idx: TxnIndex)
        requires
            self.valid(),
        ensures
            idx == next_local(self.local_flags(), 0),
    ;

    /// The local transaction that follows `idx` in the block, or the end
    /// index where none follows.
    fn next_txn(&self, idx: TxnIndex) -> (next: TxnIndex)
        requires
            self.valid(),
        ensures
            idx < self.local_flags().len() ==> next == next_local(self.local_flags(), idx + 1),
            idx >= self.local_flags().len() ==> next == self.local_flags().len(),
    ;

    /// The global indices of all local transactions, in increasing order.
    fn txns(&self) -> (list: Vec<TxnIndex>)
        requires
            self.valid(),
        ensures
            lists_flagged(list@, self.local_flags()),
    ;

    /// The global indices of all local transactions and of the transactions
    /// whose output is awaited, in increasing order.
    fn txns_and_deps(&self) -> (list: Vec<TxnIndex>)
        requires
            self.valid(),
        ensures
            lists_flagged(list@, either(self.local_flags(), self.awaited_flags())),
    ;

    /// The number of local transactions below `idx`: for a local
    /// transaction, its position among the local ones.
    fn local_index(&self, idx: TxnIndex) -> (position: usize)
        requires
            self.valid(),
        ensures
            idx <= self.local_flags().len() ==> position == count_local(
                self.local_flags().take(idx as int),
            ),
            idx > self.local_flags().len() ==> position == count_local(self.local_flags()),
    ;

    /// Whether the transaction is executed here.
    fn is_local(&self, idx: TxnIndex) -> (local: bool)
        requires
            self.valid(),
        ensures
            idx < self.local_flags().len() ==> local == self.local_flags()[idx as int],
    ;

    /// Whether the output of a transaction that is executed elsewhere has arrived.
    fn txn_output_has_arrived(&self, txn_idx: TxnIndex) -> (arrived: bool)
        requires
            self.valid(),
        ensures
            txn_idx < self.arrived_flags().len() ==> arrived == self.arrived_flags()[txn_idx as int],
    ;

    /// The identifier of the block.
    fn block_idx(&self) -> (id: &[u8])
        ensures
            id@ == self.block_id(),
    ;

    /// The index of this shard.
    fn shard_idx(&self) -> (shard: usize)
        ensures
            shard == self.shard(),
    ;
}

/// The flags of the local transactions of a provider, one per global index.
pub fn provider_flags<P: TxnIndexProvider>(provider: &P) -> (flags: Vec<bool>)
    requires
        provider.valid(),
    ensures
        flags@ == provider.local_flags(),
{
    let end = provider.end_txn_idx();
    let mut flags: Vec<bool> = Vec::new();
    let mut i: TxnIndex = 0;
    while i < end
        invariant
            i <= end == provider.local_flags().len(),
            provider.valid(),
            flags@ == provider.local_flags().take(i as int),
        decreases end - i,
    {
        flags.push(provider.is_local(i));
        i += 1;
        assert(flags@ == provider.local_flags().take(i as int));
    }
    assert(provider.local_flags().take(end as int) == provider.local_flags());
    flags
}

/// Unsharded execution: every transaction of the block is local.
pub struct DefaultTxnProvider {
    num_txns: TxnIndex,
    block_id: Vec<u8>,
}

impl DefaultTxnProvider {
    /// A provider for a block of `num_txns` transactions.
    pub fn new(num_txns: TxnIndex, block_id: Vec<u8>) -> (provider: DefaultTxnProvider)
        ensures
            provider.valid(),
            provider.local_flags() == Seq::new(num_txns as nat, |i: int| true),
            provider.awaited_flags() == Seq::new(num_txns as nat, |i: int| false),
            provider.arrived_flags() == Seq::new(num_txns as nat, |i: int| true),
            provider.block_id() == block_id@,
            provider.shard() == 0,
    {
        DefaultTxnProvider { num_txns, block_id }
    }
}

impl TxnIndexProvider for DefaultTxnProvider {
    closed spec fn local_flags(&self) -> Seq<bool> {
        Seq::new(self.num_txns as nat, |i: int| true)
    }

    closed spec fn awaited_flags(&self) -> Seq<bool> {
        Seq::new(self.num_txns as nat, |i: int| false)
    }

    closed spec fn arrived_flags(&self) -> Seq<bool> {
        Seq::new(self.num_txns as nat, |i: int| true)
    }

    closed spec fn valid(&self) -> bool {
        true
    }

    closed spec fn block_id(&self) -> Seq<u8> {
        self.block_id@
    }

    /// Unsharded execution counts as shard 0.
    open spec fn shard(&self) -> usize {
        0
    }

    fn end_txn_idx(&self) -> (end: TxnIndex) {
        self.num_txns
    }

    fn num_txns(&self) -> (n: usize) {
        proof {
            lemma_count_all_local(self.local_flags());
        }
        self.num_txns as usize
    }

    fn first_txn(&self) -> (idx: TxnIndex) {
        0
    }

    fn next_txn(&self, idx: TxnIndex) -> (next: TxnIndex) {
        if idx < self.num_txns {
            proof {
                lemma_next_local(self.local_flags(), idx + 1);
            }
            idx + 1
        } else {
            self.num_txns
        }
    }

    fn txns(&self) -> (list: Vec<TxnIndex>) {
        let mut list: Vec<TxnIndex> = Vec::new();
        let mut i: TxnIndex = 0;
        while i < self.num_txns
            invariant
                i <= self.num_txns,
                list.len() == i,
                forall|p: int| 0 <= p < i ==> list[p] == p,
            decreases self.num_txns - i,
        {
            list.push(i);
            i += 1;
        }
        proof {
            assert forall|k: int|
                0 <= k < self.local_flags().len() && self.local_flags()[k] implies list@.contains(
                k as TxnIndex,
            ) by {
                assert(list@[k] == k as TxnIndex);
            }
        }
        list
    }

    fn txns_and_deps(&self) -> (list: Vec<TxnIndex>) {
        let list = self.txns();
        proof {
            assert(either(self.local_flags(), self.awaited_flags()) =~= self.local_flags());
        }
        list
    }

    fn local_index(&self, idx: TxnIndex) -> (position: usize) {
        proof {
            lemma_count_all_local(self.local_flags());
            if idx <= self.num_txns {
                lemma_count_all_local(self.local_flags().take(idx as int));
            }
        }
        if idx <= self.num_txns {
            idx as usize
        } else {
            self.num_txns as usize
        }
    }

    /// Always true: nothing is executed elsewhere.
    fn is_local(&self, idx: TxnIndex) -> (local: bool)
        ensures
            local,
    {
        true
    }

    /// Always true: no output is awaited.
    fn txn_output_has_arrived(&self, txn_idx: TxnIndex) -> (arrived: bool)
        ensures
            arrived,
    {
        true
    }

    fn block_idx(&self) -> (id: &[u8]) {
        self.block_id.as_slice()
    }

    fn shard_idx(&self) -> (shard: usize) {
        0
    }
}

/// Sharded execution: the local transactions are those that the partition
/// assigns to this shard, and outputs are awaited from the transactions that
/// the remote dependencies name.
pub struct ShardedTxnProvider {
    block_id: Vec<u8>,
    shard: usize,
    local: Vec<bool>,
    awaited: Vec<bool>,
    arrived: Vec<bool>,
    /// For each index up to the end, the number of local transactions below it.
    rank: Vec<usize>,
    dependencies: Vec<RemoteDependency>,
}

/// Why a partition could not be taken.
#[derive(Clone, Copy, Debug, PartialEq, Eq, Structural)]
pub enum PartitionError {
    /// The block has more transactions than a transaction index can count.
    BlockTooLong,
    /// The remote dependency at this position names a transaction of this
    /// shard, or one outside the block.
    InvalidRemoteDependency(usize),
}

/// For each of `len` indices, whether one of the dependencies names it.
pub open spec fn named_by(deps: Seq<RemoteDependency>, len: nat) -> Seq<bool> {
    Seq::new(len, |i: int| exists|p: int| 0 <= p < deps.len() && #[trigger] deps[p].txn_idx == i)
}

impl ShardedTxnProvider {
    /// The provider of shard `shard` for a block whose transaction `i` is
    /// assigned to shard `assignment[i]`, and which awaits the given remote
    /// dependencies.
    pub fn new(
        block_id: Vec<u8>,
        shard: usize,
        assignment: &Vec<usize>,
        remote_dependencies: &Vec<RemoteDependency>,
    ) -> (result: Result<ShardedTxnProvider, PartitionError>)
        ensures
            match result {
                Ok(provider) => {
                    &&& provider.valid()
                    &&& assignment.len() <= u32::MAX
                    &&& provider.local_flags() == Seq::new(
                        assignment@.len(),
                        |i: int| assignment[i] == shard,
                    )
                    &&& provider.awaited_flags() == named_by(
                        remote_dependencies@,
                        assignment@.len(),
                    )
                    &&& provider.arrived_flags() == Seq::new(assignment@.len(), |i: int| false)
                    &&& provider.block_id() == block_id@
                    &&& provider.shard() == shard
                    &&& provider.awaited() == remote_dependencies@
                    &&& forall|p: int|
                        0 <= p < remote_dependencies.len() ==> (
                        #[trigger] remote_dependencies[p]).txn_idx < assignment.len()
                            && assignment[remote_dependencies[p].txn_idx as int] != shard
                },
                Err(PartitionError::BlockTooLong) => assignment.len() > u32::MAX,
                Err(PartitionError::InvalidRemoteDependency(p)) => {
                    &&& assignment.len() <= u32::MAX
                    &&& p < remote_dependencies.len()
                    &&& !(remote_dependencies[p as int].txn_idx < assignment.len()
                        && assignment[remote_dependencies[p as int].txn_idx as int] != shard)
                    &&& forall|q: int|
                        0 <= q < p ==> (#[trigger] remote_dependencies[q]).txn_idx
                            < assignment.len() && assignment[remote_dependencies[q].txn_idx as int]
                            != shard
                },
            },
    {
        let n = assignment.len();
        if n > u32::MAX as usize {
            return Err(PartitionError::BlockTooLong);
        }
        let mut local: Vec<bool> = Vec::new();
        let mut awaited: Vec<bool> = Vec::new();
        let mut arrived: Vec<bool> = Vec::new();
        let mut rank: Vec<usize> = Vec::new();
        let mut count: usize = 0;
        let mut i: usize = 0;
        while i < n
            invariant
                i <= n == assignment.len(),
                local.len() == i,
                awaited.len() == i,
                arrived.len() == i,
                rank.len() == i,
                count == count_local(local@),
                count <= i,
                forall|j: int| 0 <= j < i ==> local[j] == (assignment[j] == shard),
                forall|j: int| 0 <= j < i ==> !awaited[j] && !arrived[j],
                forall|j: int| 0 <= j < i ==> rank[j] == count_local(local@.take(j)),
            decreases n - i,
        {
            let mine = assignment[i] == shard;
            let ghost before = local@;
            rank.push(count);
            local.push(mine);
            awaited.push(false);
            arrived.push(false);
            proof {
                assert(local@.drop_last() == before);
                assert(local@.take(i as int) == before);
                assert forall|j: int| 0 <= j <= i implies rank[j] == count_local(
                    local@.take(j),
                ) by {
                    if j < i {
                        assert(local@.take(j) == before.take(j));
                    }
                }
            }
            if mine {
                count += 1;
            }
            i += 1;
        }
        rank.push(count);
        proof {
            assert(local@.take(n as int) == local@);
        }
        let ghost deps = remote_dependencies@;
        let mut p: usize = 0;
        while p < remote_dependencies.len()
            invariant
                p <= remote_dependencies.len(),
                deps == remote_dependencies@,
                n == assignment.len(),
                n <= u32::MAX,
                awaited.len() == n,
                local.len() == n,
                forall|j: int| 0 <= j < n ==> local[j] == (assignment[j] == shard),
                forall|j: int| 0 <= j < n ==> awaited[j] == named_by(deps.take(p as int), n as nat)[j],
                forall|q: int|
                    0 <= q < p ==> (#[trigger] deps[q]).txn_idx < n && assignment[deps[q].txn_idx as int]
                        != shard,
            decreases remote_dependencies.len() - p,
        {
            let r = remote_dependencies[p].txn_idx as usize;
            if r >= n || local[r] {
                return Err(PartitionError::InvalidRemoteDependency(p));
            }
            let ghost before = deps.take(p as int);
            let ghost after = deps.take(p + 1);
            awaited[r] = true;
            p += 1;
            proof {
                assert forall|j: int| 0 <= j < n implies awaited[j] == named_by(after, n as nat)[j] by {
                    if named_by(before, n as nat)[j] {
                        let q = choose|q: int|
                            0 <= q < before.len() && #[trigger] before[q].txn_idx == j;
                        assert(after[q].txn_idx == j);
                    }
                    if named_by(after, n as nat)[j] {
                        let q = choose|q: int|
                            0 <= q < after.len() && #[trigger] after[q].txn_idx == j;
                        if q < before.len() {
                            assert(before[q].txn_idx == j);
                        }
                    }
                    if j == r {
                        assert(after[p - 1].txn_idx == j);
                    }
                }
            }
        }
        proof {
            assert(deps.take(deps.len() as int) == deps);
        }
        let mut dependencies: Vec<RemoteDependency> = Vec::new();
        let mut q: usize = 0;
        while q < remote_dependencies.len()
            invariant
                q <= remote_dependencies.len(),
                dependencies@ == remote_dependencies@.take(q as int),
            decreases remote_dependencies.len() - q,
        {
            dependencies.push(remote_dependencies[q]);
            q += 1;
            assert(dependencies@ == remote_dependencies@.take(q as int));
        }
        assert(remote_dependencies@.take(remote_dependencies@.len() as int)
            == remote_dependencies@);
        let provider = ShardedTxnProvider {
            block_id,
            shard,
            local,
            awaited,
            arrived,
            rank,
            dependencies,
        };
        proof {
            assert(provider.local_flags() =~= Seq::new(
                assignment@.len(),
                |i: int| assignment[i] == shard,
            ));
            assert(provider.awaited_flags() =~= named_by(deps, assignment@.len()));
            assert(provider.arrived_flags() =~= Seq::new(assignment@.len(), |i: int| false));
        }
        Ok(provider)
    }

    /// Notes that the output of the remote transaction `txn_idx` has arrived.
    /// Returns whether the output of that transaction is awaited here; only
    /// then does anything change.
    pub fn mark_output_arrived(&mut self, txn_idx: TxnIndex) -> (awaited: bool)
        requires
            old(self).valid(),
        ensures
            final(self).valid(),
            awaited == (txn_idx < old(self).awaited_flags().len() && old(
                self,
            ).awaited_flags()[txn_idx as int]),
            final(self).local_flags() == old(self).local_flags(),
            final(self).awaited_flags() == old(self).awaited_flags(),
            final(self).block_id() == old(self).block_id(),
            final(self).shard() == old(self).shard(),
            final(self).awaited() == old(self).awaited(),
            final(self).arrived_flags() == (if awaited {
                old(self).arrived_flags().update(txn_idx as int, true)
            } else {
                old(self).arrived_flags()
            }),
    {
        let i = txn_idx as usize;
        if i < self.awaited.len() && self.awaited[i] {
            self.arrived[i] = true;
            true
        } else {
            false
        }
    }

    /// The keys awaited from transactions that are executed elsewhere, as
    /// they were declared.
    pub closed spec fn awaited(&self) -> Seq<RemoteDependency> {
        self.dependencies@
    }

    /// The keys that this shard must receive before the local transactions
    /// that read them can be validated.
    pub fn remote_dependencies(&self) -> (dependencies: &Vec<RemoteDependency>)
        ensures
            dependencies@ == self.awaited(),
    {
        &self.dependencies
    }

    /// The indices below the end whose flag is set, in increasing order.
    fn collect(flags: &Vec<bool>) -> (list: Vec<TxnIndex>)
        requires
            flags.len() <= u32::MAX,
        ensures
            lists_flagged(list@, flags@),
    {
        let mut list: Vec<TxnIndex> = Vec::new();
        let mut i: usize = 0;
        while i < flags.len()
            invariant
                i <= flags.len() <= u32::MAX,
                forall|p: int, q: int| 0 <= p < q < list.len() ==> list[p] < list[q],
                forall|p: int| 0 <= p < list.len() ==> list[p] < i && flags[list[p] as int],
                forall|k: int| 0 <= k < i && flags[k] ==> list@.contains(k as TxnIndex),
            decreases flags.len() - i,
        {
            if flags[i] {
                let ghost before = list@;
                list.push(i as TxnIndex);
                proof {
                    assert(list@[before.len() as int] == i as TxnIndex);
                    assert forall|k: int| 0 <= k <= i && flags[k] implies list@.contains(
                        k as TxnIndex,
                    ) by {
                        if k < i {
                            let q = choose|q: int| 0 <= q < before.len() && before[q] == k as TxnIndex;
                            assert(list@[q] == k as TxnIndex);
                        }
                    }
                }
            }
            i += 1;
        }
        list
    }
}

impl TxnIndexProvider for ShardedTxnProvider {
    closed spec fn local_flags(&self) -> Seq<bool> {
        self.local@
    }

    closed spec fn awaited_flags(&self) -> Seq<bool> {
        self.awaited@
    }

    closed spec fn arrived_flags(&self) -> Seq<bool> {
        self.arrived@
    }

    closed spec fn block_id(&self) -> Seq<u8> {
        self.block_id@
    }

    closed spec fn shard(&self) -> usize {
        self.shard
    }

    closed spec fn valid(&self) -> bool {
        &&& self.local.len() <= u32::MAX
        &&& self.awaited.len() == self.local.len()
        &&& self.arrived.len() == self.local.len()
        &&& self.rank.len() == self.local.len() + 1
        &&& forall|j: int|
            0 <= j <= self.local.len() ==> self.rank[j] == count_local(self.local@.take(j))
    }

    fn end_txn_idx(&self) -> (end: TxnIndex) {
        self.local.len() as TxnIndex
    }

    fn num_txns(&self) -> (n: usize) {
        assert(self.local@.take(self.local.len() as int) == self.local@);
        self.rank[self.local.len()]
    }

    fn first_txn(&self) -> (idx: TxnIndex) {
        self.scan_from(0)
    }

    fn next_txn(&self, idx: TxnIndex) -> (next: TxnIndex) {
        if (idx as usize) < self.local.len() {
            self.scan_from(idx as usize + 1)
        } else {
            self.local.len() as TxnIndex
        }
    }

    fn txns(&self) -> (list: Vec<TxnIndex>) {
        Self::collect(&self.local)
    }

    fn txns_and_deps(&self) -> (list: Vec<TxnIndex>) {
        let mut flags: Vec<bool> = Vec::new();
        let mut i: usize = 0;
        while i < self.local.len()
            invariant
                i <= self.local.len(),
                self.valid(),
                flags.len() == i,
                forall|j: int| 0 <= j < i ==> flags[j] == (self.local[j] || self.awaited[j]),
            decreases self.local.len() - i,
        {
            flags.push(self.local[i] || self.awaited[i]);
            i += 1;
        }
        assert(flags@ =~= either(self.local_flags(), self.awaited_flags()));
        Self::collect(&flags)
    }

    fn local_index(&self, idx: TxnIndex) -> (position: usize) {
        assert(self.local@.take(self.local.len() as int) == self.local@);
        if (idx as usize) <= self.local.len() {
            self.rank[idx as usize]
        } else {
            self.rank[self.local.len()]
        }
    }

    /// Whether the partition assigns the transaction to this shard; false
    /// outside the block.
    fn is_local(&self, idx: TxnIndex) -> (local: bool)
        ensures
            idx >= self.local_flags().len() ==> !local,
    {
        (idx as usize) < self.local.len() && self.local[idx as usize]
    }

    /// Whether the output of the transaction was noted as arrived; false
    /// outside the block.
    fn txn_output_has_arrived(&self, txn_idx: TxnIndex) -> (arrived: bool)
        ensures
            txn_idx >= self.arrived_flags().len() ==> !arrived,
    {
        (txn_idx as usize) < self.arrived.len() && self.arrived[txn_idx as usize]
    }

    fn block_idx(&self) -> (id: &[u8]) {
        self.block_id.as_slice()
    }

    fn shard_idx(&self) -> (shard: usize) {
        self.shard
    }
}

impl ShardedTxnProvider {
    /// The first local index from `from` on, or the end index.
    fn scan_from(&self, from: usize) -> (idx: TxnIndex)
        requires
            self.valid(),
            from <= self.local.len(),
        ensures
            idx == next_local(self.local@, from as int),
    {
        let mut i = from;
        while i < self.local.len() && !self.local[i]
            invariant
                from <= i <= self.local.len() <= u32::MAX,
                next_local(self.local@, from as int) == next_local(self.local@, i as int),
            decreases self.local.len() - i,
        {
            i += 1;
        }
        i as TxnIndex
    }
}

} // verus!
