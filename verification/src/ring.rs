//! Index arithmetic on a ring of slots.

use vstd::prelude::*;
use vstd::arithmetic::div_mod::lemma_mod_sub_multiples_vanish;
use vstd::arithmetic::div_mod::lemma_small_mod;

verus! {

/// The slot that lies `offset` places after `start` on a ring of `capacity` slots.
pub open spec fn slot(start: int, offset: int, capacity: int) -> int {
    (start + offset) % capacity
}

/// Going round the ring takes at most one wrap, so the remainder is a single
/// comparison and subtraction.
pub proof fn slot_unfold(start: int, offset: int, capacity: int)
    requires
        0 <= start < capacity,
        0 <= offset <= capacity,
    ensures
        slot(start, offset, capacity) == if start + offset < capacity {
            start + offset
        } else {
            start + offset - capacity
        },
        0 <= slot(start, offset, capacity) < capacity,
{
    if start + offset < capacity {
        lemma_small_mod((start + offset) as nat, capacity as nat);
    } else {
        lemma_mod_sub_multiples_vanish(start + offset, capacity);
        lemma_small_mod((start + offset - capacity) as nat, capacity as nat);
    }
}

/// Two different offsets below the capacity never share a slot.
pub proof fn slots_distinct(start: int, a: int, b: int, capacity: int)
    requires
        0 <= start < capacity,
        0 <= a < capacity,
        0 <= b < capacity,
        a != b,
    ensures
        slot(start, a, capacity) != slot(start, b, capacity),
{
    slot_unfold(start, a, capacity);
    slot_unfold(start, b, capacity);
}

/// Stepping `a` places and then `b` places is stepping `a + b` places.
pub proof fn slot_compose(start: int, a: int, b: int, capacity: int)
    requires
        0 <= start < capacity,
        0 <= a,
        0 <= b,
        a + b <= capacity,
    ensures
        slot(slot(start, a, capacity), b, capacity) == slot(start, a + b, capacity),
{
    slot_unfold(start, a, capacity);
    slot_unfold(slot(start, a, capacity), b, capacity);
    slot_unfold(start, a + b, capacity);
}

/// Computes `(start + offset) mod capacity` without leaving the range of `usize`.
pub fn ring_index(start: usize, offset: usize, capacity: usize) -> (r: usize)
    requires
        start < capacity,
        offset <= capacity,
    ensures
        r == slot(start as int, offset as int, capacity as int),
        r < capacity,
{
    proof {
        slot_unfold(start as int, offset as int, capacity as int);
    }
    let room: usize = capacity - start;
    if offset < room {
        start + offset
    } else {
        offset - room
    }
}

} // verus!
