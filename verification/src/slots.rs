//! Slot numbers and the mathematical facts about sequences of them that the
//! index's contracts are stated over: the minimum and maximum of a non-empty
//! slot sequence, and duplicate detection.

use vstd::prelude::*;

verus! {

/// A slot number: a non-negative integer identifying one unit of sequential
/// data. The index uses slots purely as array offsets after normalization.
pub type Slot = u64;

/// The smallest slot in a non-empty sequence.
pub open spec fn min_slot(slots: Seq<Slot>) -> int
    recommends
        slots.len() > 0,
    decreases slots.len(),
{
    if slots.len() <= 1 {
        slots[0] as int
    } else {
        let rest = min_slot(slots.drop_last());
        if slots.last() as int <= rest {
            slots.last() as int
        } else {
            rest
        }
    }
}

/// The largest slot in a non-empty sequence.
pub open spec fn max_slot(slots: Seq<Slot>) -> int
    recommends
        slots.len() > 0,
    decreases slots.len(),
{
    if slots.len() <= 1 {
        slots[0] as int
    } else {
        let rest = max_slot(slots.drop_last());
        if slots.last() as int >= rest {
            slots.last() as int
        } else {
            rest
        }
    }
}

/// Whether some slot occurs twice in the sequence.
pub open spec fn has_duplicate(slots: Seq<Slot>) -> bool {
    exists|i: int, j: int| 0 <= i < j < slots.len() && slots[i] == slots[j]
}

/// `min_slot` is a lower bound and is attained by some element.
pub proof fn lemma_min_slot_bounds(slots: Seq<Slot>)
    requires
        slots.len() > 0,
    ensures
        forall|i: int| 0 <= i < slots.len() ==> min_slot(slots) <= #[trigger] slots[i] as int,
        exists|i: int| 0 <= i < slots.len() && slots[i] as int == min_slot(slots),
    decreases slots.len(),
{
    if slots.len() > 1 {
        lemma_min_slot_bounds(slots.drop_last());
        assert forall|i: int| 0 <= i < slots.len() implies min_slot(slots) <= #[trigger] slots[i] as int by {
            if i < slots.len() - 1 {
                assert(slots.drop_last()[i] == slots[i]);
            }
        }
        if min_slot(slots) == slots.last() as int {
            assert(slots[slots.len() - 1] as int == min_slot(slots));
        } else {
            let w = choose|i: int|
                0 <= i < slots.drop_last().len() && slots.drop_last()[i] as int == min_slot(
                    slots.drop_last(),
                );
            assert(slots[w] as int == min_slot(slots));
        }
    } else {
        assert(slots[0] as int == min_slot(slots));
    }
}

/// `max_slot` is an upper bound and is attained by some element.
pub proof fn lemma_max_slot_bounds(slots: Seq<Slot>)
    requires
        slots.len() > 0,
    ensures
        forall|i: int| 0 <= i < slots.len() ==> #[trigger] slots[i] as int <= max_slot(slots),
        exists|i: int| 0 <= i < slots.len() && slots[i] as int == max_slot(slots),
    decreases slots.len(),
{
    if slots.len() > 1 {
        lemma_max_slot_bounds(slots.drop_last());
        assert forall|i: int| 0 <= i < slots.len() implies #[trigger] slots[i] as int <= max_slot(
            slots,
        ) by {
            if i < slots.len() - 1 {
                assert(slots.drop_last()[i] == slots[i]);
            }
        }
        if max_slot(slots) == slots.last() as int {
            assert(slots[slots.len() - 1] as int == max_slot(slots));
        } else {
            let w = choose|i: int|
                0 <= i < slots.drop_last().len() && slots.drop_last()[i] as int == max_slot(
                    slots.drop_last(),
                );
            assert(slots[w] as int == max_slot(slots));
        }
    } else {
        assert(slots[0] as int == max_slot(slots));
    }
}

/// Appending one slot updates the minimum in the obvious way.
pub proof fn lemma_min_slot_push(slots: Seq<Slot>, x: Slot)
    requires
        slots.len() > 0,
    ensures
        min_slot(slots.push(x)) == if (x as int) <= min_slot(slots) {
            x as int
        } else {
            min_slot(slots)
        },
{
    assert(slots.push(x).drop_last() =~= slots);
    assert(slots.push(x).last() == x);
}

/// Appending one slot updates the maximum in the obvious way.
pub proof fn lemma_max_slot_push(slots: Seq<Slot>, x: Slot)
    requires
        slots.len() > 0,
    ensures
        max_slot(slots.push(x)) == if (x as int) >= max_slot(slots) {
            x as int
        } else {
            max_slot(slots)
        },
{
    assert(slots.push(x).drop_last() =~= slots);
    assert(slots.push(x).last() == x);
}

} // verus!
