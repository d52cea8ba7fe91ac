use aptos_core::block_executor::types::Version;
use aptos_core::block_executor::versioned_store::{ReadResult, VersionedStore};

#[test]
fn read_sees_highest_version_below_reader() {
    let mut store = VersionedStore::new();
    store.write(7, 1, 0, 10);
    store.write(7, 3, 2, 30);
    assert_eq!(store.read(7, 0), ReadResult::NotFound);
    assert_eq!(store.read(7, 1), ReadResult::NotFound);
    assert_eq!(
        store.read(7, 2),
        ReadResult::Resolved(Version { txn_idx: 1, incarnation: 0 }, 10)
    );
    assert_eq!(
        store.read(7, 3),
        ReadResult::Resolved(Version { txn_idx: 1, incarnation: 0 }, 10)
    );
    assert_eq!(
        store.read(7, 4),
        ReadResult::Resolved(Version { txn_idx: 3, incarnation: 2 }, 30)
    );
    assert_eq!(store.read(8, 4), ReadResult::NotFound);
}
