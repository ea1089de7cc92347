//! The storage containers that the index points at. The index never looks
//! inside a container beyond its first entry's slot number, so a container is
//! modelled as a vector of entries, each carrying the slot it belongs to.

use vstd::prelude::*;
use crate::slots::Slot;

verus! {

/// One entry of a storage container. The index reads nothing of an entry but
/// the slot number it carries.
#[derive(Clone, Copy, Debug, PartialEq, Eq, Structural)]
pub struct AccountStorageEntry {
    /// The slot this entry belongs to.
    pub slot: Slot,
}

impl AccountStorageEntry {
    /// Creates an entry for the given slot.
    pub fn new(slot: Slot) -> (e: AccountStorageEntry)
        ensures
            e.slot == slot,
    {
        AccountStorageEntry { slot }
    }

    /// The slot this entry belongs to.
    pub fn slot(&self) -> (s: Slot)
        ensures
            s == self.slot,
    {
        self.slot
    }
}

/// A storage container: an externally-owned sequence of entries. A non-empty
/// container's representative slot is its first entry's slot.
pub type SnapshotStorage = Vec<AccountStorageEntry>;

} // verus!
