//! The dense slot index itself: built once from (container, slot) pairs,
//! queried many times. The table holds one optional container reference per
//! slot in the half-open range `[min, max + 1)`; a `None` entry is a hole.

use vstd::prelude::*;
use core::ops::Range;
use crate::slots::{Slot, has_duplicate, max_slot, min_slot};
use crate::slots::{lemma_max_slot_bounds, lemma_max_slot_push, lemma_min_slot_bounds, lemma_min_slot_push};
use crate::storage::SnapshotStorage;

verus! {

/// Why a construction attempt was rejected. Queries never fail; every variant
/// is a construction-time contract violation by the caller.
#[derive(Clone, Copy, Debug, PartialEq, Eq, Structural)]
pub enum SortedStoragesError {
    /// A supplied container has no entry to derive its slot from.
    EmptyContainer,
    /// The container sequence and the slot sequence differ in length.
    LengthMismatch,
    /// Two supplied containers map to the same slot.
    DuplicateSlot,
}

impl SortedStoragesError {
    /// A human-readable description of which precondition failed.
    pub fn message(&self) -> (m: &'static str)
        ensures
            *self == SortedStoragesError::EmptyContainer ==> m@ =~= "SnapshotStorage.is_empty()"@,
            *self == SortedStoragesError::LengthMismatch ==> m@ =~= "source and slots are different lengths"@,
            *self == SortedStoragesError::DuplicateSlot ==> m@ =~= "slots are not unique"@,
    {
        match self {
            SortedStoragesError::EmptyContainer => "SnapshotStorage.is_empty()",
            SortedStoragesError::LengthMismatch => "source and slots are different lengths",
            SortedStoragesError::DuplicateSlot => "slots are not unique",
        }
    }
}

/// The value each table entry stands for: the referenced container, if any.
pub open spec fn table_view(entries: Seq<Option<&SnapshotStorage>>) -> Seq<Option<SnapshotStorage>> {
    Seq::new(entries.len(), |i: int| match entries[i] {
        Option::Some(r) => Option::Some(*r),
        Option::None => Option::None,
    })
}

/// The slots each non-empty container would derive for itself: its first
/// entry's slot.
pub open spec fn derived_slots(source: Seq<SnapshotStorage>) -> Seq<Slot> {
    Seq::new(source.len(), |i: int| source[i]@[0].slot)
}

/// A dense, immutable view over borrowed storage containers, addressable by
/// slot. Holds at most one container reference per slot of its range.
#[derive(Debug)]
pub struct SortedStorages<'a> {
    range: Range<Slot>,
    storages: Vec<Option<&'a SnapshotStorage>>,
    slot_count: usize,
}

impl<'a> SortedStorages<'a> {
    /// Structural soundness: the range is ordered and the table covers it,
    /// one entry per slot.
    #[verifier::type_invariant]
    pub closed spec fn inv(self) -> bool {
        &&& self.range.start <= self.range.end
        &&& self.storages@.len() == self.range.end - self.range.start
    }

    /// First slot of the range (inclusive).
    pub closed spec fn spec_start(self) -> Slot {
        self.range.start
    }

    /// End slot of the range (exclusive).
    pub closed spec fn spec_end(self) -> Slot {
        self.range.end
    }

    /// Number of containers actually supplied (holes excluded).
    pub closed spec fn spec_slot_count(self) -> usize {
        self.slot_count
    }

    /// The dense table: entry `i` describes slot `spec_start() + i`.
    pub closed spec fn spec_table(self) -> Seq<Option<SnapshotStorage>> {
        table_view(self.storages@)
    }

    /// What a lookup of `slot` yields: the table entry when the slot is in
    /// range, absent otherwise.
    pub open spec fn spec_get(self, slot: Slot) -> Option<SnapshotStorage> {
        if self.spec_start() <= slot < self.spec_end() {
            self.spec_table()[slot - self.spec_start()]
        } else {
            Option::None
        }
    }

    /// The constructors' full postcondition on success: the view was built
    /// from exactly these (container, slot) pairs.
    pub open spec fn built_from(self, source: Seq<SnapshotStorage>, slots: Seq<Slot>) -> bool {
        &&& source.len() == slots.len()
        &&& !has_duplicate(slots)
        &&& self.spec_slot_count() == source.len()
        &&& if slots.len() == 0 {
            self.spec_start() == 0 && self.spec_end() == 0
        } else {
            self.spec_start() == min_slot(slots) && self.spec_end() == max_slot(slots) + 1
        }
        &&& self.spec_table().len() == self.spec_end() - self.spec_start()
        &&& forall|i: int|
            0 <= i < slots.len() ==> self.spec_table()[#[trigger] slots[i] - self.spec_start()]
                == Option::Some(source[i])
        &&& forall|k: int|
            0 <= k < self.spec_table().len() && #[trigger] self.spec_table()[k] is Some
                ==> exists|i: int| 0 <= i < slots.len() && #[trigger] slots[i] == self.spec_start() + k
    }

    /// The container at `slot`, if the slot is in range and occupied; absent
    /// for out-of-range slots and holes alike.
    pub fn get(&self, slot: Slot) -> (r: Option<&SnapshotStorage>)
        ensures
            match r {
                Option::Some(s) => self.spec_get(slot) == Option::Some(*s),
                Option::None => self.spec_get(slot) is None,
            },
    {
        proof {
            use_type_invariant(self);
        }
        if slot < self.range.start || slot >= self.range.end {
            None
        } else {
            let len = self.storages.len();
            proof {
                assert(slot - self.range.start < len);
            }
            let index = (slot - self.range.start) as usize;
            self.storages[index]
        }
    }

    /// Width of the slot range; `0` for the empty view.
    pub fn range_width(&self) -> (w: Slot)
        ensures
            w == self.spec_end() - self.spec_start(),
    {
        proof {
            use_type_invariant(self);
        }
        self.range.end - self.range.start
    }

    /// The half-open slot range `[start, end)` the table covers.
    pub fn range(&self) -> (r: &Range<Slot>)
        ensures
            r.start == self.spec_start(),
            r.end == self.spec_end(),
            r.start <= r.end,
    {
        proof {
            use_type_invariant(self);
        }
        &self.range
    }

    /// Builds the view from containers alone, deriving each container's slot
    /// from its first entry. Rejects any empty container; duplicates among
    /// the derived slots are rejected as in `new_with_slots`.
    pub fn new(source: &'a [SnapshotStorage]) -> (r: Result<
        SortedStorages<'a>,
        SortedStoragesError,
    >)
        requires
            (forall|i: int| 0 <= i < source@.len() ==> #[trigger] source@[i]@.len() > 0) ==> {
                &&& forall|i: int|
                    0 <= i < source@.len() ==> #[trigger] derived_slots(source@)[i] < Slot::MAX
                &&& forall|i: int, j: int|
                    0 <= i < source@.len() && 0 <= j < source@.len() ==> #[trigger] derived_slots(
                        source@,
                    )[i] + 1 - #[trigger] derived_slots(source@)[j] <= usize::MAX
            },
        ensures
            r == Err::<SortedStorages<'a>, SortedStoragesError>(
                SortedStoragesError::EmptyContainer,
            ) <==> exists|i: int| 0 <= i < source@.len() && #[trigger] source@[i]@.len() == 0,
            r == Err::<SortedStorages<'a>, SortedStoragesError>(
                SortedStoragesError::DuplicateSlot,
            ) <==> ((forall|i: int| 0 <= i < source@.len() ==> #[trigger] source@[i]@.len() > 0)
                && has_duplicate(derived_slots(source@))),
            r is Ok <==> ((forall|i: int| 0 <= i < source@.len() ==> #[trigger] source@[i]@.len()
                > 0) && !has_duplicate(derived_slots(source@))),
            r matches Ok(v) ==> v.built_from(source@, derived_slots(source@)),
    {
        let n = source.len();
        let mut slots: Vec<Slot> = Vec::new();
        let mut i: usize = 0;
        while i < n
            invariant
                i <= n,
                n == source@.len(),
                slots@.len() == i,
                forall|t: int| 0 <= t < i ==> #[trigger] source@[t]@.len() > 0,
                forall|t: int| 0 <= t < i ==> #[trigger] slots@[t] == derived_slots(source@)[t],
            decreases n - i,
        {
            let storage = &source[i];
            if storage.len() == 0 {
                return Err(SortedStoragesError::EmptyContainer);
            }
            let first = &storage[0];
            slots.push(first.slot());
            i += 1;
        }
        proof {
            assert(slots@ =~= derived_slots(source@));
        }
        Self::new_with_slots(source, slots.as_slice())
    }

    /// Builds the view from `source[i]` at explicit slot `slots[i]`.
    /// Rejects input sequences of different lengths and duplicated slots;
    /// empty input is the designated degenerate case, not an error.
    #[verifier::rlimit(50)]
    pub fn new_with_slots(source: &'a [SnapshotStorage], slots: &[Slot]) -> (r: Result<
        SortedStorages<'a>,
        SortedStoragesError,
    >)
        requires
            forall|i: int| 0 <= i < slots@.len() ==> #[trigger] slots@[i] < Slot::MAX,
            forall|i: int, j: int|
                0 <= i < slots@.len() && 0 <= j < slots@.len() ==> #[trigger] slots@[i] + 1
                    - #[trigger] slots@[j] <= usize::MAX,
        ensures
            r == Err::<SortedStorages<'a>, SortedStoragesError>(
                SortedStoragesError::LengthMismatch,
            ) <==> source@.len() != slots@.len(),
            r == Err::<SortedStorages<'a>, SortedStoragesError>(
                SortedStoragesError::DuplicateSlot,
            ) <==> (source@.len() == slots@.len() && has_duplicate(slots@)),
            r is Ok <==> (source@.len() == slots@.len() && !has_duplicate(slots@)),
            r matches Ok(v) ==> v.built_from(source@, slots@),
    {
        if source.len() != slots.len() {
            return Err(SortedStoragesError::LengthMismatch);
        }
        let n = slots.len();
        if n == 0 {
            let storages: Vec<Option<&'a SnapshotStorage>> = Vec::new();
            return Ok(SortedStorages { range: Range { start: 0, end: 0 }, storages, slot_count: 0 });
        }
        let mut min: Slot = slots[0];
        let mut max: Slot = slots[0] + 1;
        let mut j: usize = 1;
        while j < n
            invariant
                1 <= j <= n,
                n == slots@.len(),
                forall|i: int| 0 <= i < n ==> #[trigger] slots@[i] < Slot::MAX,
                min as int == min_slot(slots@.take(j as int)),
                max as int == max_slot(slots@.take(j as int)) + 1,
            decreases n - j,
        {
            proof {
                assert(slots@.take(j + 1) =~= slots@.take(j as int).push(slots@[j as int]));
                lemma_min_slot_push(slots@.take(j as int), slots@[j as int]);
                lemma_max_slot_push(slots@.take(j as int), slots@[j as int]);
            }
            let s = slots[j];
            if s < min {
                min = s;
            }
            if s + 1 > max {
                max = s + 1;
            }
            j += 1;
        }
        proof {
            assert(slots@.take(n as int) =~= slots@);
            lemma_min_slot_bounds(slots@);
            lemma_max_slot_bounds(slots@);
            let im = choose|t: int| 0 <= t < slots@.len() && slots@[t] as int == min_slot(slots@);
            let ix = choose|t: int| 0 <= t < slots@.len() && slots@[t] as int == max_slot(slots@);
            assert(slots@[ix] + 1 - slots@[im] <= usize::MAX);
        }
        let width = max - min;
        let width_us = width as usize;
        proof {
            assert(width_us == max - min);
        }
        let mut storages: Vec<Option<&'a SnapshotStorage>> = Vec::new();
        let mut k: usize = 0;
        while k < width_us
            invariant
                k <= width_us,
                storages@.len() == k,
                forall|t: int| 0 <= t < k ==> #[trigger] storages@[t] is None,
            decreases width_us - k,
        {
            storages.push(None);
            k += 1;
        }
        let mut i: usize = 0;
        while i < n
            invariant
                i <= n,
                n == slots@.len(),
                n == source@.len(),
                n > 0,
                min as int == min_slot(slots@),
                max as int == max_slot(slots@) + 1,
                width_us == max - min,
                storages@.len() == width_us,
                forall|t: int| 0 <= t < n ==> min <= #[trigger] slots@[t],
                forall|t: int| 0 <= t < n ==> #[trigger] slots@[t] as int <= max_slot(slots@),
                forall|t: int|
                    0 <= t < i ==> table_view(storages@)[#[trigger] slots@[t] - min] == Option::Some(
                        source@[t],
                    ),
                forall|kk: int|
                    0 <= kk < storages@.len() && #[trigger] table_view(storages@)[kk] is Some
                        ==> exists|t: int| 0 <= t < i && #[trigger] slots@[t] == min + kk,
                forall|t1: int, t2: int| 0 <= t1 < t2 < i ==> slots@[t1] != slots@[t2],
            decreases n - i,
        {
            let idx = (slots[i] - min) as usize;
            proof {
                assert(slots@[i as int] - min < width_us);
                assert(idx == slots@[i as int] - min);
            }
            if storages[idx].is_some() {
                proof {
                    assert(table_view(storages@)[idx as int] is Some);
                    let t = choose|t: int| 0 <= t < i && #[trigger] slots@[t] == min + idx;
                    assert(slots@[t] == slots@[i as int]);
                    assert(has_duplicate(slots@));
                }
                return Err(SortedStoragesError::DuplicateSlot);
            }
            proof {
                if exists|t: int| 0 <= t < i && #[trigger] slots@[t] == slots@[i as int] {
                    let t = choose|t: int| 0 <= t < i && #[trigger] slots@[t] == slots@[i as int];
                    assert(table_view(storages@)[slots@[t] - min] == Option::Some(source@[t]));
                    assert(false);
                }
            }
            let ghost old_entries = storages@;
            storages[idx] = Some(&source[i]);
            proof {
                assert forall|kk: int|
                    0 <= kk < storages@.len() && kk != idx implies table_view(storages@)[kk]
                    == table_view(old_entries)[kk] by {
                    assert(storages@[kk] == old_entries[kk]);
                }
                assert(table_view(storages@)[idx as int] == Option::Some(source@[i as int]));
                assert forall|kk: int|
                    0 <= kk < storages@.len() && #[trigger] table_view(storages@)[kk] is Some
                    implies exists|t: int| 0 <= t < i + 1 && #[trigger] slots@[t] == min + kk by {
                    if kk == idx {
                        assert(slots@[i as int] == min + kk);
                    } else {
                        assert(table_view(old_entries)[kk] is Some);
                        let t = choose|t: int| 0 <= t < i && #[trigger] slots@[t] == min + kk;
                        assert(0 <= t < i + 1 && slots@[t] == min + kk);
                    }
                }
            }
            i += 1;
        }
        proof {
            if has_duplicate(slots@) {
                let (t1, t2) = choose|t1: int, t2: int|
                    0 <= t1 < t2 < slots@.len() && slots@[t1] == slots@[t2];
                assert(false);
            }
        }
        let result = SortedStorages { range: Range { start: min, end: max }, storages, slot_count: n };
        proof {
            assert(result.built_from(source@, slots@));
        }
        Ok(result)
    }

    /// Number of containers supplied at construction, independent of the
    /// range width.
    pub fn slot_count(&self) -> (c: usize)
        ensures
            c == self.spec_slot_count(),
    {
        self.slot_count
    }
}

/// Law: lookup is sound. Every supplied (container, slot) pair is found
/// again: looking up the pair's slot yields exactly that container.
pub proof fn lemma_lookup_finds_each_pair(
    v: SortedStorages,
    source: Seq<SnapshotStorage>,
    slots: Seq<Slot>,
    i: int,
)
    requires
        v.built_from(source, slots),
        0 <= i < slots.len(),
    ensures
        v.spec_get(slots[i]) == Option::Some(source[i]),
{
    lemma_min_slot_bounds(slots);
    lemma_max_slot_bounds(slots);
    assert(v.spec_start() <= slots[i] < v.spec_end());
}

/// Law: lookup of any slot outside the view's range is absent.
pub proof fn lemma_lookup_outside_range_absent(v: SortedStorages, slot: Slot)
    requires
        !(v.spec_start() <= slot < v.spec_end()),
    ensures
        v.spec_get(slot) is None,
{
}

/// Law: holes are detected. A slot inside the range that no supplied pair
/// occupies looks up as absent.
pub proof fn lemma_lookup_hole_absent(
    v: SortedStorages,
    source: Seq<SnapshotStorage>,
    slots: Seq<Slot>,
    slot: Slot,
)
    requires
        v.built_from(source, slots),
        v.spec_start() <= slot < v.spec_end(),
        forall|i: int| 0 <= i < slots.len() ==> #[trigger] slots[i] != slot,
    ensures
        v.spec_get(slot) is None,
{
    if v.spec_get(slot) is Some {
        assert(v.spec_table()[slot - v.spec_start()] is Some);
        let i = choose|i: int|
            0 <= i < slots.len() && #[trigger] slots[i] == v.spec_start() + (slot
                - v.spec_start());
        assert(slots[i] == slot);
    }
}

/// Law: empty input is degenerate, not an error. A view built from zero
/// pairs has the canonical empty range, zero width, zero count, and every
/// lookup, slot `0` included, is absent.
pub proof fn lemma_empty_input_degenerate(
    v: SortedStorages,
    source: Seq<SnapshotStorage>,
    slots: Seq<Slot>,
    slot: Slot,
)
    requires
        v.built_from(source, slots),
        slots.len() == 0,
    ensures
        v.spec_start() == 0,
        v.spec_end() == 0,
        v.spec_end() - v.spec_start() == 0,
        v.spec_slot_count() == 0,
        v.spec_get(slot) is None,
{
}

} // verus!
