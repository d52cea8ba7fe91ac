use vstd::prelude::*;

verus! {

/// Position of a transaction in the block's total order.
pub type TxnIndex = u32;

/// Ordinal of an execution attempt of one transaction.
pub type Incarnation = u32;

/// Storage key, as the handle by which the domain identifies a location.
pub type Key = u64;

/// Stored value, as the handle by which the domain identifies a content.
pub type Value = u64;

/// Identity of one execution attempt, attached to every write it makes.
#[derive(Clone, Copy, Debug, PartialEq, Eq, Structural)]
pub struct Version {
    pub txn_idx: TxnIndex,
    pub incarnation: Incarnation,
}

/// One write of a transaction.
#[derive(Clone, Copy, Debug, PartialEq, Eq, Structural)]
pub struct WriteOp {
    pub key: Key,
    pub value: Value,
}

/// Where a transaction stands in its life cycle.
#[derive(Clone, Copy, Debug, PartialEq, Eq, Structural)]
pub enum TxnStatus {
    /// Waiting to be handed out for execution.
    PendingExecution,
    /// Handed out; a worker is executing the current incarnation.
    Executing,
    /// The incarnation finished and its output is recorded.
    Executed(Incarnation),
    /// The incarnation was abandoned while waiting on a blocking transaction.
    Aborting(Incarnation),
    /// Final: the output can no longer change.
    Committed,
}

/// Why a block stopped before every transaction committed.
#[derive(Clone, Copy, Debug, PartialEq, Eq, Structural)]
pub enum HaltReason {
    /// The execution capability reported a failure that no retry can mend.
    FatalExecution(u64),
    /// A transaction waited on a remote write that did not arrive in time.
    DependencyTimeout(TxnIndex),
    /// A report did not fit the state it was made against.
    InvariantViolation,
}

/// What a worker is asked to do next.
#[derive(Clone, Copy, Debug, PartialEq, Eq, Structural)]
pub enum SchedulerTask {
    Execute(TxnIndex, Incarnation),
    Validate(TxnIndex, Incarnation),
    /// Nothing can be handed out now; other work is still in progress.
    Wait,
    /// Every local transaction has committed.
    Done,
    /// The block stopped on an error.
    Halt(HaltReason),
}

/// Follow-up work that a report hands straight back to the reporting worker.
#[derive(Clone, Copy, Debug, PartialEq, Eq, Structural)]
pub enum NextAction {
    Execute(TxnIndex, Incarnation),
    Validate(TxnIndex, Incarnation),
    Nothing,
}

} // verus!
