//! A compaction index over sparse storage containers: a set of (slot,
//! container) pairs is normalized into a dense, contiguous table so that
//! "which container, if any, occupies slot S?" is answered in constant time.

pub mod slots;
pub mod sorted_storages;
pub mod storage;

pub use slots::Slot;
pub use sorted_storages::SortedStorages;
pub use sorted_storages::SortedStoragesError;
pub use storage::AccountStorageEntry;
pub use storage::SnapshotStorage;
