//! The record of what each transaction read and wrote in its last execution.

use crate::block_executor::types::{Incarnation, Key, TxnIndex, WriteOp};
use crate::block_executor::versioned_store::ReadResult;
use vstd::prelude::*;

verus! {

/// One read of an execution: the key, and what the store gave for it.
#[derive(Clone, Copy, Debug, PartialEq, Eq, Structural)]
pub struct ReadDescriptor {
    pub key: Key,
    pub observed: ReadResult,
}

/// Inputs and outputs of one execution attempt.
pub struct TxnRecord {
    pub incarnation: Incarnation,
    pub read_set: Vec<ReadDescriptor>,
    pub write_set: Vec<WriteOp>,
    /// Set once the output is final; the record is then never replaced.
    pub committed: bool,
}

/// Per transaction, the record of its most recent execution.
pub struct TxnLastInputOutput {
    records: Vec<Option<TxnRecord>>,
}

impl View for TxnLastInputOutput {
    type V = Seq<Option<TxnRecord>>;

    closed spec fn view(&self) -> Seq<Option<TxnRecord>> {
        self.records@
    }
}

impl TxnLastInputOutput {
    /// A tracker for `num_txns` transactions, none of them recorded yet.
    pub fn new(num_txns: usize) -> (tracker: TxnLastInputOutput)
        ensures
            tracker@.len() == num_txns,
            forall|i: int| 0 <= i < num_txns ==> tracker@[i] == None::<TxnRecord>,
    {
        let mut records: Vec<Option<TxnRecord>> = Vec::new();
        let mut i: usize = 0;
        while i < num_txns
            invariant
                i <= num_txns,
                records@.len() == i,
                forall|j: int| 0 <= j < i ==> records@[j] == None::<TxnRecord>,
            decreases num_txns - i,
        {
            records.push(None);
            i += 1;
        }
        TxnLastInputOutput { records }
    }

    /// Stores the sets of the attempt `incarnation` of transaction `idx`,
    /// replacing the record of any earlier attempt. A final record is kept:
    /// the call then changes nothing and returns `false`, as it does for an
    /// index outside the block.
    pub fn record(
        &mut self,
        idx: TxnIndex,
        incarnation: Incarnation,
        read_set: Vec<ReadDescriptor>,
        write_set: Vec<WriteOp>,
    ) -> (stored: bool)
        ensures
            stored == (idx < old(self)@.len() && !(old(self)@[idx as int] matches Some(r)
                && r.committed)),
            stored ==> final(self)@ == old(self)@.update(
                idx as int,
                Some(TxnRecord { incarnation, read_set, write_set, committed: false }),
            ),
            !stored ==> final(self)@ == old(self)@,
    {
        let i = idx as usize;
        if i >= self.records.len() {
            return false;
        }
        let is_final = match &self.records[i] {
            Some(r) => r.committed,
            None => false,
        };
        if is_final {
            return false;
        }
        self.records[i] = Some(TxnRecord { incarnation, read_set, write_set, committed: false });
        true
    }

    /// The incarnation whose sets are recorded for `idx`.
    pub fn incarnation(&self, idx: TxnIndex) -> (result: Option<Incarnation>)
        ensures
            result == (if idx < self@.len() && self@[idx as int] is Some {
                Some(self@[idx as int]->0.incarnation)
            } else {
                None
            }),
    {
        let i = idx as usize;
        if i >= self.records.len() {
            return None;
        }
        match &self.records[i] {
            Some(r) => Some(r.incarnation),
            None => None,
        }
    }

    /// The read set of the last execution of `idx`.
    pub fn read_set(&self, idx: TxnIndex) -> (result: Option<&Vec<ReadDescriptor>>)
        ensures
            result == (if idx < self@.len() && self@[idx as int] is Some {
                Some(&self@[idx as int]->0.read_set)
            } else {
                None
            }),
    {
        let i = idx as usize;
        if i >= self.records.len() {
            return None;
        }
        match &self.records[i] {
            Some(r) => Some(&r.read_set),
            None => None,
        }
    }

    /// The write set of the last execution of `idx`.
    pub fn write_set(&self, idx: TxnIndex) -> (result: Option<&Vec<WriteOp>>)
        ensures
            result == (if idx < self@.len() && self@[idx as int] is Some {
                Some(&self@[idx as int]->0.write_set)
            } else {
                None
            }),
    {
        let i = idx as usize;
        if i >= self.records.len() {
            return None;
        }
        match &self.records[i] {
            Some(r) => Some(&r.write_set),
            None => None,
        }
    }

    /// Declares the record of `idx` final. Returns whether a record was there
    /// and was not final before; only then does anything change.
    pub fn on_commit(&mut self, idx: TxnIndex) -> (finalised: bool)
        ensures
            finalised == (idx < old(self)@.len() && (old(self)@[idx as int] matches Some(r)
                && !r.committed)),
            finalised ==> final(self)@ == old(self)@.update(
                idx as int,
                Some(TxnRecord { committed: true, ..old(self)@[idx as int]->0 }),
            ),
            !finalised ==> final(self)@ == old(self)@,
    {
        let i = idx as usize;
        if i >= self.records.len() {
            return false;
        }
        match &mut self.records[i] {
            Some(r) => {
                if r.committed {
                    false
                } else {
                    r.committed = true;
                    true
                }
            },
            None => false,
        }
    }
}

} // verus!
