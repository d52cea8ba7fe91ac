use aptos_core::block_executor::executor::BlockExecutor;
use aptos_core::block_executor::sharding::{
    BlockSTMPlugin, CommitNotification, InterShardDependency, RemoteWrite, ShardingPlugin,
};
use aptos_core::block_executor::txn_provider::{
    provider_flags, DefaultTxnProvider, ShardedTxnProvider, TxnIndexProvider,
};
use aptos_core::block_executor::types::{NextAction, WriteOp};
use aptos_core::block_executor::worker::{
    run_worker, ExecutionStatus, LatestView, TransactionExecutor, ViewRead, WorkerExit,
};

const NUM_KEYS: u64 = 5;
const NUM_SHARDS: usize = 3;

struct Lcg(u64);

impl Lcg {
    fn below(&mut self, n: u64) -> u64 {
        self.0 = self.0.wrapping_mul(6364136223846793005).wrapping_add(1442695040888963407);
        (self.0 >> 33) % n
    }
}

#[derive(Clone, Copy)]
struct Txn {
    first: u64,
    target: u64,
    add: u64,
}

fn value_written(txn: &Txn, v1: u64, v2: u64) -> u64 {
    v1 * 3 + v2 + txn.add
}

fn sequential(txns: &[Txn]) -> Vec<Option<u64>> {
    let mut state: Vec<Option<u64>> = vec![None; NUM_KEYS as usize];
    for txn in txns {
        let v1 = state[txn.first as usize].unwrap_or(0);
        let v2 = state[(v1 % NUM_KEYS) as usize].unwrap_or(0);
        state[txn.target as usize] = Some(value_written(txn, v1, v2));
    }
    state
}

struct Vm {
    txns: Vec<Txn>,
}

impl TransactionExecutor for Vm {
    fn execute(&self, txn_idx: u32, _incarnation: u32, view: &mut LatestView<'_>) -> ExecutionStatus {
        let txn = &self.txns[txn_idx as usize];
        let v1 = match view.read(txn.first) {
            ViewRead::Value(v) => v,
            ViewRead::FromStorage => 0,
            ViewRead::Blocked(_) => return ExecutionStatus::SpeculativeAbort,
        };
        let v2 = match view.read(v1 % NUM_KEYS) {
            ViewRead::Value(v) => v,
            ViewRead::FromStorage => 0,
            ViewRead::Blocked(_) => return ExecutionStatus::SpeculativeAbort,
        };
        ExecutionStatus::Success(vec![WriteOp { key: txn.target, value: value_written(txn, v1, v2) }])
    }
}

struct Shard {
    plugin: ShardingPlugin<Txn>,
    executor: BlockExecutor,
    pending: NextAction,
    inbox: Vec<RemoteWrite>,
    announced: u32,
    done: bool,
}

fn announce(shard: &mut Shard) -> Vec<CommitNotification> {
    let committed = shard.executor.scheduler().commit_idx();
    let mut outbox = Vec::new();
    for idx in shard.announced..committed {
        if let Some(writes) = shard.executor.committed_writes(idx) {
            outbox.extend(shard.plugin.on_local_commit(idx, writes));
        }
    }
    shard.announced = committed;
    outbox
}

#[test]
fn shards_that_exchange_their_commits_reach_the_sequential_state() {
    let mut rng = Lcg(2024);
    for round in 0..150 {
        let n = 1 + (round % 9) as usize;
        let txns: Vec<Txn> = (0..n)
            .map(|_| Txn {
                first: rng.below(NUM_KEYS),
                target: rng.below(NUM_KEYS),
                add: rng.below(4),
            })
            .collect();
        let assignment: Vec<usize> = (0..n).map(|_| rng.below(NUM_SHARDS as u64) as usize).collect();
        // Every shard awaits every write of every other shard.
        let mut declared = Vec::new();
        for (idx, txn) in txns.iter().enumerate() {
            for shard in 0..NUM_SHARDS {
                if shard != assignment[idx] {
                    declared.push(InterShardDependency {
                        dependent_shard: shard,
                        txn_idx: idx as u32,
                        key: txn.target,
                    });
                }
            }
        }
        let vm = Vm { txns: txns.clone() };
        let mut shards: Vec<Shard> = (0..NUM_SHARDS)
            .map(|shard| {
                let awaited: Vec<_> = declared
                    .iter()
                    .filter(|d| d.dependent_shard == shard)
                    .map(|d| aptos_core::block_executor::executor_model::RemoteDependency {
                        txn_idx: d.txn_idx,
                        key: d.key,
                    })
                    .collect();
                let provider =
                    ShardedTxnProvider::new(vec![round as u8], shard, &assignment, &awaited).unwrap();
                let local = provider_flags(&provider);
                let plugin = ShardingPlugin::new(shard, &declared, &local, txns.clone());
                assert_eq!(plugin.txn(0).target, txns[0].target);
                assert_eq!(plugin.remote_dependencies(), awaited);
                let executor =
                    BlockExecutor::with_provider(&provider, &plugin.remote_dependencies()).unwrap();
                Shard { plugin, executor, pending: NextAction::Nothing, inbox: vec![], announced: 0, done: false }
            })
            .collect();

        let mut steps = 0;
        while !shards.iter().all(|s| s.done && s.inbox.is_empty()) {
            let pick = rng.below(NUM_SHARDS as u64) as usize;
            let outbox = {
                let shard = &mut shards[pick];
                if !shard.inbox.is_empty() && rng.below(2) == 0 {
                    // Deliver a part of what has come in.
                    let count = 1 + rng.below(shard.inbox.len() as u64) as usize;
                    let batch: Vec<RemoteWrite> = shard.inbox.drain(..count).collect();
                    let taken = shard.plugin.run_sharding_msg_loop(&mut shard.executor, &batch);
                    assert_eq!(taken, batch.len());
                    vec![]
                } else {
                    let report = run_worker(&mut shard.executor, &vm, shard.pending, 1);
                    shard.pending = report.pending;
                    shard.done = report.exit == WorkerExit::Done;
                    assert!(!matches!(report.exit, WorkerExit::Halted(_)));
                    announce(shard)
                }
            };
            for note in outbox {
                assert_eq!(note.origin_shard, pick);
                shards[note.dest_shard].inbox.push(RemoteWrite {
                    txn_idx: note.txn_idx,
                    key: note.key,
                    value: note.value,
                    origin_shard: note.origin_shard,
                });
            }
            steps += 1;
            assert!(steps < 200_000, "no progress in round {}", round);
        }

        let expected = sequential(&txns);
        for shard in &shards {
            for key in 0..NUM_KEYS {
                assert_eq!(
                    shard.executor.final_value(key),
                    expected[key as usize],
                    "round {} key {}",
                    round,
                    key
                );
            }
        }
    }
}

#[test]
fn a_block_is_set_up_from_its_provider() {
    let provider = DefaultTxnProvider::new(3, vec![]);
    let mut executor = BlockExecutor::with_provider(&provider, &vec![]).unwrap();
    assert_eq!(executor.scheduler().num_txns(), 3);
    assert_eq!(provider.end_txn_idx(), 3);
    let vm = Vm {
        txns: vec![
            Txn { first: 0, target: 1, add: 1 },
            Txn { first: 1, target: 1, add: 0 },
            Txn { first: 1, target: 2, add: 5 },
        ],
    };
    assert_eq!(executor.final_value(1), None);
    let report = run_worker(&mut executor, &vm, NextAction::Nothing, 100);
    assert_eq!(report.exit, WorkerExit::Done);
    // Transaction 0 writes 1; transaction 1 reads 1 twice and writes 3 + 1;
    // transaction 2 reads 4, then key 4, which nobody wrote, and writes 12 + 0 + 5.
    assert_eq!(executor.final_value(1), Some(4));
    assert_eq!(executor.final_value(2), Some(17));
    assert_eq!(executor.final_value(0), None);
}
