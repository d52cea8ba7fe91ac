//! The multi-version store: for every key a list of versions, one per
//! transaction that wrote the key, ordered by transaction index.
//!
//! The mathematical model of the store is a map from `(key, transaction
//! index)` to a [`Cell`]. A reader at index `i` sees, for a key, the cell of
//! the highest index strictly below `i` that has one.

use crate::block_executor::types::{Incarnation, Key, TxnIndex, Value, Version};
use std::collections::HashMap;
use vstd::prelude::*;

verus! {

/// What the store holds for one key at one transaction index.
#[derive(Clone, Copy, Debug, PartialEq, Eq, Structural)]
pub struct Cell {
    /// The incarnation that wrote the value.
    pub incarnation: Incarnation,
    pub value: Value,
    /// Set while the writer is being re-executed: the value is a guess that
    /// the write will be made again, and readers must wait for it.
    pub estimate: bool,
}

/// The store as a map from `(key, transaction index)` to the cell held there.
pub type StoreMap = Map<(Key, TxnIndex), Cell>;

/// Outcome of a read below a transaction index.
#[derive(Clone, Copy, Debug, PartialEq, Eq, Structural)]
pub enum ReadResult {
    /// The highest version below the reader, and its value.
    Resolved(Version, Value),
    /// The highest version below the reader is an estimate of this transaction.
    Dependency(TxnIndex),
    /// No transaction below the reader has written the key.
    NotFound,
}

/// The highest transaction index strictly below `idx` that holds a cell for `key`.
pub open spec fn latest_below(m: StoreMap, key: Key, idx: TxnIndex) -> Option<TxnIndex>
    decreases idx,
{
    if idx == 0 {
        None
    } else {
        let t = (idx - 1) as TxnIndex;
        if m.contains_key((key, t)) {
            Some(t)
        } else {
            latest_below(m, key, t)
        }
    }
}

/// What a reader at `idx` sees for `key`.
pub open spec fn read_spec(m: StoreMap, key: Key, idx: TxnIndex) -> ReadResult {
    match latest_below(m, key, idx) {
        None => ReadResult::NotFound,
        Some(t) => {
            let c = m[(key, t)];
            if c.estimate {
                ReadResult::Dependency(t)
            } else {
                ReadResult::Resolved(Version { txn_idx: t, incarnation: c.incarnation }, c.value)
            }
        },
    }
}

/// `latest_below` is the one index below `idx` that holds the key and has no
/// holder between itself and `idx`; it is `None` exactly when no index below
/// `idx` holds the key.
pub proof fn lemma_latest_below_props(m: StoreMap, key: Key, idx: TxnIndex)
    ensures
        match latest_below(m, key, idx) {
            Some(t) => t < idx && m.contains_key((key, t)) && forall|u: TxnIndex|
                t < u < idx ==> !m.contains_key((key, u)),
            None => forall|u: TxnIndex| u < idx ==> !m.contains_key((key, u)),
        },
    decreases idx,
{
    if idx > 0 {
        let t = (idx - 1) as TxnIndex;
        if !m.contains_key((key, t)) {
            lemma_latest_below_props(m, key, t);
        }
    }
}

/// An index that holds the key, with no holder between it and `idx`, is the latest below `idx`.
pub proof fn lemma_latest_below_is(m: StoreMap, key: Key, idx: TxnIndex, t: TxnIndex)
    requires
        t < idx,
        m.contains_key((key, t)),
        forall|u: TxnIndex| t < u < idx ==> !m.contains_key((key, u)),
    ensures
        latest_below(m, key, idx) == Some(t),
{
    lemma_latest_below_props(m, key, idx);
}

/// Where no index below `idx` holds the key, nothing is found.
pub proof fn lemma_latest_below_none(m: StoreMap, key: Key, idx: TxnIndex)
    requires
        forall|u: TxnIndex| u < idx ==> !m.contains_key((key, u)),
    ensures
        latest_below(m, key, idx) == None::<TxnIndex>,
{
    lemma_latest_below_props(m, key, idx);
}

/// Two stores that hold a key at the same indices below `idx` have the same latest index there.
pub proof fn lemma_latest_below_same_holders(m1: StoreMap, m2: StoreMap, key: Key, idx: TxnIndex)
    requires
        forall|u: TxnIndex|
            #![trigger m1.contains_key((key, u))]
            #![trigger m2.contains_key((key, u))]
            u < idx ==> m1.contains_key((key, u)) == m2.contains_key((key, u)),
    ensures
        latest_below(m1, key, idx) == latest_below(m2, key, idx),
    decreases idx,
{
    if idx > 0 {
        let t = (idx - 1) as TxnIndex;
        if !m1.contains_key((key, t)) {
            lemma_latest_below_same_holders(m1, m2, key, t);
        }
    }
}

/// A read depends only on the cells of its key below the reader.
pub proof fn lemma_read_frame(m1: StoreMap, m2: StoreMap, key: Key, idx: TxnIndex)
    requires
        forall|u: TxnIndex|
            #![trigger m1.contains_key((key, u))]
            #![trigger m2.contains_key((key, u))]
            u < idx ==> m1.contains_key((key, u)) == m2.contains_key((key, u)) && (
            m1.contains_key((key, u)) ==> m1[(key, u)] == m2[(key, u)]),
    ensures
        read_spec(m1, key, idx) == read_spec(m2, key, idx),
{
    lemma_latest_below_same_holders(m1, m2, key, idx);
    lemma_latest_below_props(m1, key, idx);
}

struct Entry {
    txn_idx: TxnIndex,
    incarnation: Incarnation,
    value: Value,
    estimate: bool,
}

spec fn cell_of(e: Entry) -> Cell {
    Cell { incarnation: e.incarnation, value: e.value, estimate: e.estimate }
}

spec fn sorted(s: Seq<Entry>) -> bool {
    forall|i: int, j: int| 0 <= i < j < s.len() ==> s[i].txn_idx < s[j].txn_idx
}

spec fn has_txn(s: Seq<Entry>, t: TxnIndex) -> bool {
    exists|i: int| 0 <= i < s.len() && #[trigger] s[i].txn_idx == t
}

spec fn pos_of(s: Seq<Entry>, t: TxnIndex) -> int {
    choose|i: int| 0 <= i < s.len() && #[trigger] s[i].txn_idx == t
}

proof fn lemma_pos_of(s: Seq<Entry>, i: int)
    requires
        sorted(s),
        0 <= i < s.len(),
    ensures
        has_txn(s, s[i].txn_idx),
        pos_of(s, s[i].txn_idx) == i,
{
    let t = s[i].txn_idx;
    let p = pos_of(s, t);
    assert(0 <= p < s.len() && s[p].txn_idx == t);
    if p < i {
        assert(s[p].txn_idx < s[i].txn_idx);
    } else if i < p {
        assert(s[i].txn_idx < s[p].txn_idx);
    }
}

/// The cells that a table of version lists holds.
spec fn model(d: Map<Key, Vec<Entry>>) -> StoreMap {
    Map::new(
        |p: (Key, TxnIndex)| d.contains_key(p.0) && has_txn(d[p.0]@, p.1),
        |p: (Key, TxnIndex)| cell_of(d[p.0]@[pos_of(d[p.0]@, p.1)]),
    )
}

/// The multi-version store.
pub struct VersionedStore {
    data: HashMap<Key, Vec<Entry>>,
}

impl View for VersionedStore {
    type V = StoreMap;

    closed spec fn view(&self) -> StoreMap {
        model(self.data@)
    }
}

/// First position of a sorted version list whose transaction index is at least `idx`.
fn lower_bound(list: &Vec<Entry>, idx: TxnIndex) -> (p: usize)
    requires
        sorted(list@),
    ensures
        p <= list.len(),
        forall|i: int| 0 <= i < p ==> list[i].txn_idx < idx,
        forall|i: int| p <= i < list.len() ==> list[i].txn_idx >= idx,
{
    let mut lo: usize = 0;
    let mut hi: usize = list.len();
    while lo < hi
        invariant
            lo <= hi <= list.len(),
            sorted(list@),
            forall|i: int| 0 <= i < lo ==> list[i].txn_idx < idx,
            forall|i: int| hi <= i < list.len() ==> list[i].txn_idx >= idx,
        decreases hi - lo,
    {
        let mid: usize = lo + (hi - lo) / 2;
        if list[mid].txn_idx < idx {
            lo = mid + 1;
        } else {
            hi = mid;
        }
    }
    lo
}

impl VersionedStore {
    /// Every version list is ordered by transaction index, one entry per index.
    pub closed spec fn wf(&self) -> bool {
        forall|k: Key| #[trigger] self.data@.contains_key(k) ==> sorted(self.data@[k]@)
    }

    /// An empty store.
    pub fn new() -> (store: VersionedStore)
        ensures
            store.wf(),
            store@ == StoreMap::empty(),
    {
        let store = VersionedStore { data: HashMap::new() };
        assert(store@ =~= StoreMap::empty());
        store
    }

    /// Reads `key` as transaction `txn_idx` sees it: the highest version
    /// strictly below `txn_idx`, a dependency where that version is an
    /// estimate, or nothing where no lower transaction wrote the key.
    pub fn read(&self, key: Key, txn_idx: TxnIndex) -> (result: ReadResult)
        requires
            self.wf(),
        ensures
            result == read_spec(self@, key, txn_idx),
    {
        match self.data.get(&key) {
            None => {
                proof {
                    lemma_latest_below_none(self@, key, txn_idx);
                }
                ReadResult::NotFound
            },
            Some(list) => {
                let p = lower_bound(list, txn_idx);
                if p == 0 {
                    proof {
                        lemma_latest_below_none(self@, key, txn_idx);
                    }
                    ReadResult::NotFound
                } else {
                    let e = &list[p - 1];
                    proof {
                        lemma_pos_of(list@, p - 1);
                        lemma_latest_below_is(self@, key, txn_idx, e.txn_idx);
                    }
                    if e.estimate {
                        ReadResult::Dependency(e.txn_idx)
                    } else {
                        ReadResult::Resolved(
                            Version { txn_idx: e.txn_idx, incarnation: e.incarnation },
                            e.value,
                        )
                    }
                }
            },
        }
    }

    /// The cell held for `key` at `txn_idx`, if any.
    pub fn get(&self, key: Key, txn_idx: TxnIndex) -> (result: Option<Cell>)
        requires
            self.wf(),
        ensures
            result == (if self@.contains_key((key, txn_idx)) {
                Some(self@[(key, txn_idx)])
            } else {
                None
            }),
    {
        match self.data.get(&key) {
            None => None,
            Some(list) => {
                let p = lower_bound(list, txn_idx);
                if p < list.len() && list[p].txn_idx == txn_idx {
                    let e = &list[p];
                    proof {
                        lemma_pos_of(list@, p as int);
                    }
                    Some(Cell { incarnation: e.incarnation, value: e.value, estimate: e.estimate })
                } else {
                    None
                }
            },
        }
    }

    /// Inserts or overwrites the cell for `(key, txn_idx)` with a value
    /// written by `incarnation`. No other cell changes.
    pub fn write(&mut self, key: Key, txn_idx: TxnIndex, incarnation: Incarnation, value: Value)
        requires
            old(self).wf(),
        ensures
            final(self).wf(),
            final(self)@ == old(self)@.insert(
                (key, txn_idx),
                (Cell { incarnation, value, estimate: false }),
            ),
    {
        let ghost before = self.data@;
        let mut list = match self.data.remove(&key) {
            Some(l) => l,
            None => Vec::new(),
        };
        let ghost old_list = list@;
        let p = lower_bound(&list, txn_idx);
        let entry = Entry { txn_idx, incarnation, value, estimate: false };
        if p < list.len() && list[p].txn_idx == txn_idx {
            list.set(p, entry);
        } else {
            list.insert(p, entry);
        }
        proof {
            lemma_put(old_list, list@, p as int, entry);
        }
        self.data.insert(key, list);
        proof {
            let cell = Cell { incarnation, value, estimate: false };
            assert(self@ =~= old(self)@.insert((key, txn_idx), cell));
        }
    }

    /// Turns the cell for `(key, txn_idx)` into an estimate, keeping what it
    /// holds. Returns whether there was such a cell.
    pub fn mark_estimate(&mut self, key: Key, txn_idx: TxnIndex) -> (marked: bool)
        requires
            old(self).wf(),
        ensures
            final(self).wf(),
            marked == old(self)@.contains_key((key, txn_idx)),
            marked ==> final(self)@ == old(self)@.insert(
                (key, txn_idx),
                (Cell { estimate: true, ..old(self)@[(key, txn_idx)] }),
            ),
            !marked ==> final(self)@ == old(self)@,
    {
        let ghost before = self.data@;
        let mut list = match self.data.remove(&key) {
            Some(l) => l,
            None => {
                assert(self@ =~= old(self)@);
                return false;
            },
        };
        let ghost old_list = list@;
        let p = lower_bound(&list, txn_idx);
        if p < list.len() && list[p].txn_idx == txn_idx {
            let entry = Entry {
                txn_idx,
                incarnation: list[p].incarnation,
                value: list[p].value,
                estimate: true,
            };
            list.set(p, entry);
            proof {
                lemma_pos_of(old_list, p as int);
                lemma_put(old_list, list@, p as int, entry);
            }
            self.data.insert(key, list);
            proof {
                let cell = Cell { estimate: true, ..old(self)@[(key, txn_idx)] };
                    assert(self@ =~= old(self)@.insert((key, txn_idx), cell));
            }
            true
        } else {
            self.data.insert(key, list);
            proof {
                assert(self.data@ =~= before);
                assert(self@ =~= old(self)@);
                assert(!has_txn(old_list, txn_idx)) by {
                    if has_txn(old_list, txn_idx) {
                        let q = pos_of(old_list, txn_idx);
                        assert(old_list[q].txn_idx == txn_idx);
                    }
                }
            }
            false
        }
    }

    /// Removes the cell for `(key, txn_idx)`. Returns whether there was one.
    pub fn remove(&mut self, key: Key, txn_idx: TxnIndex) -> (removed: bool)
        requires
            old(self).wf(),
        ensures
            final(self).wf(),
            removed == old(self)@.contains_key((key, txn_idx)),
            final(self)@ == old(self)@.remove((key, txn_idx)),
    {
        let ghost before = self.data@;
        let mut list = match self.data.remove(&key) {
            Some(l) => l,
            None => {
                assert(self@ =~= old(self)@.remove((key, txn_idx)));
                return false;
            },
        };
        let ghost old_list = list@;
        let p = lower_bound(&list, txn_idx);
        let found = p < list.len() && list[p].txn_idx == txn_idx;
        if found {
            list.remove(p);
        }
        proof {
            lemma_take(old_list, list@, p as int, txn_idx, found);
        }
        self.data.insert(key, list);
        proof {
            assert(self@ =~= old(self)@.remove((key, txn_idx)));
        }
        found
    }
}

/// Putting an entry at its place in a sorted list keeps the list sorted,
/// adds or replaces the entry's own index and leaves every other index alone.
proof fn lemma_put(before: Seq<Entry>, after: Seq<Entry>, p: int, e: Entry)
    requires
        sorted(before),
        0 <= p <= before.len(),
        forall|i: int| 0 <= i < p ==> before[i].txn_idx < e.txn_idx,
        forall|i: int| p <= i < before.len() ==> before[i].txn_idx >= e.txn_idx,
        after == (if p < before.len() && before[p].txn_idx == e.txn_idx {
            before.update(p, e)
        } else {
            before.insert(p, e)
        }),
    ensures
        sorted(after),
        has_txn(after, e.txn_idx),
        after[pos_of(after, e.txn_idx)] == e,
        forall|t: TxnIndex| t != e.txn_idx ==> has_txn(after, t) == has_txn(before, t),
        forall|t: TxnIndex|
            t != e.txn_idx && has_txn(before, t) ==> after[pos_of(after, t)] == before[pos_of(
                before,
                t,
            )],
{
    let replaced = p < before.len() && before[p].txn_idx == e.txn_idx;
    assert(sorted(after)) by {
        assert forall|i: int, j: int| 0 <= i < j < after.len() implies after[i].txn_idx
            < after[j].txn_idx by {
            if !replaced {
                let bi = if i < p { i } else { i - 1 };
                let bj = if j < p { j } else { j - 1 };
                if i != p && j != p {
                    assert(before[bi].txn_idx < before[bj].txn_idx);
                }
            }
        }
    }
    assert(after[p] == e);
    lemma_pos_of(after, p);
    assert forall|t: TxnIndex| t != e.txn_idx implies has_txn(after, t) == has_txn(before, t) && (
    has_txn(before, t) ==> after[pos_of(after, t)] == before[pos_of(before, t)]) by {
        if has_txn(before, t) {
            let q = pos_of(before, t);
            let q2 = if replaced || q < p { q } else { q + 1 };
            assert(after[q2] == before[q]);
            lemma_pos_of(after, q2);
        }
        if has_txn(after, t) {
            let q = pos_of(after, t);
            let q0 = if replaced || q < p { q } else { q - 1 };
            assert(before[q0] == after[q]);
            lemma_pos_of(before, q0);
        }
    }
}

/// Taking an index out of a sorted list keeps the list sorted, removes that
/// index and leaves every other index alone.
proof fn lemma_take(before: Seq<Entry>, after: Seq<Entry>, p: int, t0: TxnIndex, found: bool)
    requires
        sorted(before),
        0 <= p <= before.len(),
        forall|i: int| 0 <= i < p ==> before[i].txn_idx < t0,
        forall|i: int| p <= i < before.len() ==> before[i].txn_idx >= t0,
        found == (p < before.len() && before[p].txn_idx == t0),
        after == (if found {
            before.remove(p)
        } else {
            before
        }),
    ensures
        sorted(after),
        found == has_txn(before, t0),
        !has_txn(after, t0),
        forall|t: TxnIndex| t != t0 ==> has_txn(after, t) == has_txn(before, t),
        forall|t: TxnIndex|
            t != t0 && has_txn(before, t) ==> after[pos_of(after, t)] == before[pos_of(before, t)],
{
    if has_txn(before, t0) {
        let q = pos_of(before, t0);
        assert(before[q].txn_idx == t0);
        assert(q == p);
    }
    if found {
        lemma_pos_of(before, p);
    }
    assert(sorted(after)) by {
        assert forall|i: int, j: int| 0 <= i < j < after.len() implies after[i].txn_idx
            < after[j].txn_idx by {
            if found {
                let bi = if i < p { i } else { i + 1 };
                let bj = if j < p { j } else { j + 1 };
                assert(before[bi].txn_idx < before[bj].txn_idx);
            }
        }
    }
    if has_txn(after, t0) {
        let q = pos_of(after, t0);
        let q0 = if !found || q < p { q } else { q + 1 };
        assert(before[q0].txn_idx == t0);
    }
    assert forall|t: TxnIndex| t != t0 implies has_txn(after, t) == has_txn(before, t) && (
    has_txn(before, t) ==> after[pos_of(after, t)] == before[pos_of(before, t)]) by {
        if has_txn(before, t) {
            let q = pos_of(before, t);
            let q2 = if !found || q < p { q } else { q - 1 };
            assert(after[q2] == before[q]);
            lemma_pos_of(after, q2);
        }
        if has_txn(after, t) {
            let q = pos_of(after, t);
            let q0 = if !found || q < p { q } else { q + 1 };
            assert(before[q0] == after[q]);
            lemma_pos_of(before, q0);
        }
    }
}

} // verus!
