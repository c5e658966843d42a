//! Fixed K-slot ring of engine restore points.

use vstd::prelude::*;

use vstd::arithmetic::div_mod::lemma_fundamental_div_mod_converse;

use crate::chain::position::Position;

verus! {

/// One restore point: the fold state and the cursor it was taken at.
#[derive(Debug)]
pub struct Slot<F> {
    pub fold: F,
    pub cursor: Option<Position>,
}

/// Number of occupied slots.
pub open spec fn occupied<F>(s: Seq<Option<Slot<F>>>) -> nat
    decreases s.len(),
{
    if s.len() == 0 {
        0
    } else {
        occupied(s.drop_last()) + if s.last() is Some {
            1nat
        } else {
            0nat
        }
    }
}

/// Physical index of the slot `step` places after `next`, wrapping round.
pub open spec fn forward_index(len: int, next: int, step: int) -> int {
    (next + step) % len
}

/// Physical index of the slot `step` places before `next`, wrapping round:
/// step 0 is the most recently written slot.
pub open spec fn backward_index(len: int, next: int, step: int) -> int {
    (next + len - 1 - step) % len
}

/// First occupied slot at or after `step` places from `next`: oldest first.
pub open spec fn scan_forward<F>(s: Seq<Option<Slot<F>>>, next: int, step: int) -> Option<Slot<F>>
    decreases s.len() - step,
{
    if step < 0 || step >= s.len() {
        None
    } else if s[forward_index(s.len() as int, next, step)] is Some {
        s[forward_index(s.len() as int, next, step)]
    } else {
        scan_forward(s, next, step + 1)
    }
}

/// The slot may serve as a restore point at or below `block`: its cursor is
/// at or below `block`, or it has no cursor.
pub open spec fn at_or_below<F>(slot: Option<Slot<F>>, block: u64) -> bool {
    match slot {
        Some(inner) => match inner.cursor {
            Some(cursor) => cursor.block <= block,
            None => true,
        },
        None => false,
    }
}

/// First slot at or after `step` places back from `next` that qualifies
/// for `block`: newest first.
pub open spec fn scan_backward<F>(s: Seq<Option<Slot<F>>>, next: int, block: u64, step: int) -> Option<
    Slot<F>,
>
    decreases s.len() - step,
{
    if step < 0 || step >= s.len() {
        None
    } else if at_or_below(s[backward_index(s.len() as int, next, step)], block) {
        s[backward_index(s.len() as int, next, step)]
    } else {
        scan_backward(s, next, block, step + 1)
    }
}

/// The oldest retained slot of a ring.
pub open spec fn ring_oldest<F>(s: Seq<Option<Slot<F>>>, next: int) -> Option<Slot<F>> {
    scan_forward(s, next, 0)
}

/// The newest slot whose cursor is at or below `block`.
pub open spec fn ring_best<F>(s: Seq<Option<Slot<F>>>, next: int, block: u64) -> Option<Slot<F>> {
    scan_backward(s, next, block, 0)
}

/// The slot is dropped by `drop_above(block)`: its cursor is strictly above.
pub open spec fn above<F>(slot: Option<Slot<F>>, block: u64) -> bool {
    match slot {
        Some(inner) => match inner.cursor {
            Some(cursor) => cursor.block > block,
            None => false,
        },
        None => false,
    }
}

/// The slots after `drop_above(block)`.
pub open spec fn ring_drop_above<F>(s: Seq<Option<Slot<F>>>, block: u64) -> Seq<Option<Slot<F>>> {
    Seq::new(s.len(), |i: int| if above(s[i], block) { None } else { s[i] })
}

/// The slots and write position after `store(slot)`.
pub open spec fn ring_store<F>(s: Seq<Option<Slot<F>>>, next: int, slot: Slot<F>) -> (Seq<Option<Slot<F>>>, int) {
    if s.len() == 0 {
        (s, next)
    } else {
        (s.update(next, Some(slot)), (next + 1) % (s.len() as int))
    }
}


/// Reduction of an index that wrapped round the ring at most once.
proof fn lemma_wrap(x: int, len: int)
    requires
        0 < len,
        0 <= x < 2 * len,
    ensures
        x % len == if x < len {
            x
        } else {
            x - len
        },
{
    if x < len {
        lemma_fundamental_div_mod_converse(x, len, 0, x);
    } else {
        lemma_fundamental_div_mod_converse(x, len, 1, x - len);
    }
}

/// Every physical slot is visited exactly at one forward step.
proof fn lemma_forward_covers(len: int, next: int, i: int)
    requires
        0 <= next < len,
        0 <= i < len,
    ensures
        forward_index(len, next, if i >= next {
            i - next
        } else {
            i + len - next
        }) == i,
{
    let k = if i >= next {
        i - next
    } else {
        i + len - next
    };
    lemma_wrap(next + k, len);
}

/// Every physical slot is visited exactly at one backward step.
proof fn lemma_backward_covers(len: int, next: int, i: int)
    requires
        0 <= next < len,
        0 <= i < len,
    ensures
        backward_index(len, next, if i <= next - 1 {
            next - 1 - i
        } else {
            next + len - 1 - i
        }) == i,
{
    let k = if i <= next - 1 {
        next - 1 - i
    } else {
        next + len - 1 - i
    };
    lemma_wrap(next + len - 1 - k, len);
}

/// Forward steps stay inside the ring.
proof fn lemma_forward_in_range(len: int, next: int, k: int)
    requires
        0 <= next < len,
        0 <= k < len,
    ensures
        0 <= forward_index(len, next, k) < len,
{
    lemma_wrap(next + k, len);
}

/// Backward steps stay inside the ring.
proof fn lemma_backward_in_range(len: int, next: int, k: int)
    requires
        0 <= next < len,
        0 <= k < len,
    ensures
        0 <= backward_index(len, next, k) < len,
{
    lemma_wrap(next + len - 1 - k, len);
}

/// The forward scan finds nothing exactly when every slot it visits is empty.
proof fn lemma_scan_forward_none<F>(s: Seq<Option<Slot<F>>>, next: int, step: int)
    requires
        0 <= step,
    ensures
        scan_forward(s, next, step) is None <==> forall|k: int|
            step <= k < s.len() ==> #[trigger] s[forward_index(s.len() as int, next, k)] is None,
    decreases s.len() - step,
{
    if step < s.len() {
        lemma_scan_forward_none(s, next, step + 1);
    }
}

/// The backward scan finds nothing exactly when no slot it visits qualifies.
proof fn lemma_scan_backward_none<F>(s: Seq<Option<Slot<F>>>, next: int, block: u64, step: int)
    requires
        0 <= step,
    ensures
        scan_backward(s, next, block, step) is None <==> forall|k: int|
            step <= k < s.len() ==> !at_or_below(
                #[trigger] s[backward_index(s.len() as int, next, k)],
                block,
            ),
    decreases s.len() - step,
{
    if step < s.len() {
        lemma_scan_backward_none(s, next, block, step + 1);
    }
}

/// The oldest slot exists exactly when some slot is occupied.
pub proof fn lemma_oldest_exists_iff_occupied<F>(s: Seq<Option<Slot<F>>>, next: int)
    requires
        0 <= next < s.len() || (s.len() == 0 && next == 0),
    ensures
        ring_oldest(s, next) is None <==> forall|i: int| 0 <= i < s.len() ==> #[trigger] s[i] is None,
{
    lemma_scan_forward_none(s, next, 0);
    let len = s.len() as int;
    if forall|i: int| 0 <= i < len ==> #[trigger] s[i] is None {
        assert forall|k: int| 0 <= k < len implies #[trigger] s[forward_index(len, next, k)] is None by {
            lemma_forward_in_range(len, next, k);
        }
    }
    if ring_oldest(s, next) is None {
        assert forall|i: int| 0 <= i < len implies #[trigger] s[i] is None by {
            lemma_forward_covers(len, next, i);
            let k = if i >= next {
                i - next
            } else {
                i + len - next
            };
            assert(s[forward_index(len, next, k)] is None);
        }
    }
}

/// A restore point at or below `block` exists exactly when some occupied
/// slot qualifies.
pub proof fn lemma_best_exists_iff_qualifying<F>(s: Seq<Option<Slot<F>>>, next: int, block: u64)
    requires
        0 <= next < s.len() || (s.len() == 0 && next == 0),
    ensures
        ring_best(s, next, block) is None <==> forall|i: int|
            0 <= i < s.len() ==> !at_or_below(#[trigger] s[i], block),
{
    lemma_scan_backward_none(s, next, block, 0);
    let len = s.len() as int;
    if forall|i: int| 0 <= i < len ==> !at_or_below(#[trigger] s[i], block) {
        assert forall|k: int| 0 <= k < len implies !at_or_below(
            #[trigger] s[backward_index(len, next, k)],
            block,
        ) by {
            lemma_backward_in_range(len, next, k);
        }
    }
    if ring_best(s, next, block) is None {
        assert forall|i: int| 0 <= i < len implies !at_or_below(#[trigger] s[i], block) by {
            lemma_backward_covers(len, next, i);
            let k = if i <= next - 1 {
                next - 1 - i
            } else {
                next + len - 1 - i
            };
            assert(!at_or_below(s[backward_index(len, next, k)], block));
        }
    }
}

/// A stored slot is the newest: right after `store`, the newest-first scan
/// for any block at or above its cursor returns it.
pub proof fn lemma_stored_slot_is_newest<F>(s: Seq<Option<Slot<F>>>, next: int, slot: Slot<F>, block: u64)
    requires
        0 <= next < s.len(),
        at_or_below(Some(slot), block),
    ensures
        ring_best(ring_store(s, next, slot).0, ring_store(s, next, slot).1, block) == Some(slot),
{
    let len = s.len() as int;
    lemma_wrap(next + 1, len);
    let n2 = (next + 1) % len;
    lemma_wrap(n2 + len - 1, len);
    assert(backward_index(len, n2, 0) == next);
}

/// When every slot is occupied, the oldest slot is the one at the write
/// position, and storing overwrites exactly that slot.
pub proof fn lemma_full_ring_overwrites_oldest<F>(s: Seq<Option<Slot<F>>>, next: int, slot: Slot<F>)
    requires
        0 <= next < s.len(),
        forall|i: int| 0 <= i < s.len() ==> #[trigger] s[i] is Some,
    ensures
        ring_oldest(s, next) == s[next],
        ring_store(s, next, slot).0 == s.update(next, Some(slot)),
{
    lemma_wrap(next, s.len() as int);
}

/// After dropping every slot above `block`, a restore point at or below
/// `block` exists exactly when any slot is left.
pub proof fn lemma_best_after_drop_above<F>(s: Seq<Option<Slot<F>>>, next: int, block: u64)
    requires
        0 <= next < s.len() || (s.len() == 0 && next == 0),
    ensures
        ring_best(ring_drop_above(s, block), next, block) is None <==> forall|i: int|
            0 <= i < s.len() ==> #[trigger] ring_drop_above(s, block)[i] is None,
{
    let d = ring_drop_above(s, block);
    lemma_best_exists_iff_qualifying(d, next, block);
    assert forall|i: int| 0 <= i < s.len() implies (at_or_below(#[trigger] d[i], block) <==> d[i] is Some) by {}
}

/// The oldest-first and newest-first scans mirror each other: with no
/// block bound, both find a slot exactly when the ring holds one.
pub proof fn lemma_scans_mirror<F>(s: Seq<Option<Slot<F>>>, next: int)
    requires
        0 <= next < s.len() || (s.len() == 0 && next == 0),
    ensures
        ring_oldest(s, next) is None <==> ring_best(s, next, u64::MAX) is None,
{
    lemma_oldest_exists_iff_occupied(s, next);
    lemma_best_exists_iff_qualifying(s, next, u64::MAX);
    assert forall|i: int| 0 <= i < s.len() implies (at_or_below(#[trigger] s[i], u64::MAX) <==> s[i] is Some) by {}
}

/// A ring with every slot empty counts no slots.
pub proof fn lemma_empty_slots_count_zero<F>(s: Seq<Option<Slot<F>>>)
    requires
        forall|i: int| 0 <= i < s.len() ==> #[trigger] s[i] is None,
    ensures
        occupied(s) == 0,
    decreases s.len(),
{
    if s.len() > 0 {
        assert forall|i: int| 0 <= i < s.drop_last().len() implies #[trigger] s.drop_last()[i] is None by {
            assert(s.drop_last()[i] == s[i]);
        }
        lemma_empty_slots_count_zero(s.drop_last());
    }
}

/// The count never exceeds the number of slots.
pub proof fn lemma_count_bounded<F>(s: Seq<Option<Slot<F>>>)
    ensures
        occupied(s) <= s.len(),
    decreases s.len(),
{
    if s.len() > 0 {
        lemma_count_bounded(s.drop_last());
    }
}

/// Replacing one slot changes the count by what left and what came in.
proof fn lemma_occupied_update<F>(s: Seq<Option<Slot<F>>>, i: int, v: Option<Slot<F>>)
    requires
        0 <= i < s.len(),
    ensures
        occupied(s.update(i, v)) + (if s[i] is Some {
            1nat
        } else {
            0nat
        }) == occupied(s) + (if v is Some {
            1nat
        } else {
            0nat
        }),
    decreases s.len(),
{
    let t = s.update(i, v);
    if i == s.len() - 1 {
        assert(t.drop_last() =~= s.drop_last());
    } else {
        lemma_occupied_update(s.drop_last(), i, v);
        assert(t.drop_last() =~= s.drop_last().update(i, v));
    }
}

/// Storing into a ring fills one more slot when the write position was
/// empty, and keeps the count when it overwrites a retained slot.
pub proof fn lemma_store_count<F>(s: Seq<Option<Slot<F>>>, next: int, slot: Slot<F>)
    requires
        0 <= next < s.len(),
    ensures
        occupied(ring_store(s, next, slot).0) == occupied(s) + if s[next] is None {
            1nat
        } else {
            0nat
        },
{
    lemma_occupied_update(s, next, Some(slot));
}

/// After `drop_above(block)` no retained slot lies above `block`, and every
/// slot that is left is the one that was there.
pub proof fn lemma_drop_above_keeps_nothing_above<F>(s: Seq<Option<Slot<F>>>, block: u64)
    ensures
        ring_drop_above(s, block).len() == s.len(),
        forall|i: int| 0 <= i < s.len() ==> !above(#[trigger] ring_drop_above(s, block)[i], block),
        forall|i: int|
            0 <= i < s.len() && #[trigger] ring_drop_above(s, block)[i] is Some ==> ring_drop_above(
                s,
                block,
            )[i] == s[i],
{
}

/// A ring counts no slots exactly when every slot is empty.
pub proof fn lemma_count_zero_iff_empty<F>(s: Seq<Option<Slot<F>>>)
    ensures
        occupied(s) == 0 <==> forall|i: int| 0 <= i < s.len() ==> #[trigger] s[i] is None,
    decreases s.len(),
{
    if s.len() > 0 {
        lemma_count_zero_iff_empty(s.drop_last());
        if occupied(s) == 0 {
            assert forall|i: int| 0 <= i < s.len() implies #[trigger] s[i] is None by {
                if i < s.len() - 1 {
                    assert(s.drop_last()[i] == s[i]);
                }
            }
        }
        if forall|i: int| 0 <= i < s.len() ==> #[trigger] s[i] is None {
            assert forall|i: int| 0 <= i < s.drop_last().len() implies #[trigger] s.drop_last()[i] is None by {
                assert(s.drop_last()[i] == s[i]);
            }
        }
    } else {
        lemma_empty_slots_count_zero(s);
    }
}

/// The oldest slot is absent exactly when the ring counts no slots.
pub proof fn lemma_oldest_none_iff_count_zero<F>(s: Seq<Option<Slot<F>>>, next: int)
    requires
        0 <= next < s.len() || (s.len() == 0 && next == 0),
    ensures
        ring_oldest(s, next) is None <==> occupied(s) == 0,
{
    lemma_oldest_exists_iff_occupied(s, next);
    lemma_count_zero_iff_empty(s);
}

/// The positions of a ring in age order, oldest first: the write position
/// holds the oldest retained slot, or the slot the next store fills.
pub open spec fn age_order<F>(s: Seq<Option<Slot<F>>>, next: int) -> Seq<Option<Slot<F>>> {
    Seq::new(s.len(), |j: int| s[forward_index(s.len() as int, next, j)])
}

/// Storing drops whatever held the oldest position and appends the stored
/// slot as the newest; every other position keeps its place in age order.
pub proof fn lemma_store_age_order<F>(s: Seq<Option<Slot<F>>>, next: int, slot: Slot<F>)
    requires
        0 <= next < s.len(),
    ensures
        age_order(ring_store(s, next, slot).0, ring_store(s, next, slot).1) == age_order(
            s,
            next,
        ).drop_first().push(Some(slot)),
{
    let len = s.len() as int;
    let t = ring_store(s, next, slot).0;
    let n2 = ring_store(s, next, slot).1;
    lemma_wrap(next + 1, len);
    let before = age_order(s, next);
    let after = age_order(t, n2);
    let expected = before.drop_first().push(Some(slot));
    assert forall|j: int| 0 <= j < len implies after[j] == expected[j] by {
        lemma_wrap(n2 + j, len);
        lemma_wrap(next + j + 1, len);
        if j < len - 1 {
            assert(forward_index(len, n2, j) == forward_index(len, next, j + 1));
            assert(forward_index(len, next, j + 1) != next);
        } else {
            assert(forward_index(len, n2, j) == next);
        }
    }
    assert(after =~= expected);
}

/// The slots and write position after storing each of `slots` in turn.
pub open spec fn ring_store_all<F>(s: Seq<Option<Slot<F>>>, next: int, slots: Seq<Slot<F>>) -> (Seq<Option<Slot<F>>>, int)
    decreases slots.len(),
{
    if slots.len() == 0 {
        (s, next)
    } else {
        let prior = ring_store_all(s, next, slots.drop_last());
        ring_store(prior.0, prior.1, slots.last())
    }
}

/// Stores into a fresh ring fill its positions in order from the start.
proof fn lemma_store_all_fills_in_order<F>(s: Seq<Option<Slot<F>>>, slots: Seq<Slot<F>>)
    requires
        s.len() > 0,
        forall|i: int| 0 <= i < s.len() ==> #[trigger] s[i] is None,
    ensures
        ring_store_all(s, 0, slots).0.len() == s.len(),
        ring_store_all(s, 0, slots).1 == (slots.len() as int) % (s.len() as int),
        forall|i: int|
            0 <= i < s.len() ==> (#[trigger] ring_store_all(s, 0, slots).0[i] is Some <==> i < slots.len()),
        occupied(ring_store_all(s, 0, slots).0) == if slots.len() < s.len() {
            slots.len()
        } else {
            s.len()
        },
    decreases slots.len(),
{
    let k = s.len() as int;
    if slots.len() == 0 {
        lemma_empty_slots_count_zero(s);
    } else {
        let n = slots.len() as int;
        lemma_store_all_fills_in_order(s, slots.drop_last());
        let prior = ring_store_all(s, 0, slots.drop_last());
        assert(0 <= prior.1 < k);
        lemma_store_count(prior.0, prior.1, slots.last());
        vstd::arithmetic::div_mod::lemma_add_mod_noop(n - 1, 1, k);
        if k > 1 {
            vstd::arithmetic::div_mod::lemma_small_mod(1nat, k as nat);
        } else {
            lemma_fundamental_div_mod_converse(n, 1, n, 0);
            lemma_fundamental_div_mod_converse(prior.1 + 1, 1, prior.1 + 1, 0);
        }
        lemma_wrap(prior.1 + 1, k);
        if n - 1 < k {
            vstd::arithmetic::div_mod::lemma_small_mod((n - 1) as nat, k as nat);
        }
    }
}

/// A fresh ring of `k` slots counts `min(n, k)` slots after `n` stores.
pub proof fn lemma_count_after_stores<F>(s: Seq<Option<Slot<F>>>, slots: Seq<Slot<F>>)
    requires
        forall|i: int| 0 <= i < s.len() ==> #[trigger] s[i] is None,
    ensures
        occupied(ring_store_all(s, 0, slots).0) == if slots.len() < s.len() {
            slots.len()
        } else {
            s.len()
        },
    decreases slots.len(),
{
    if s.len() > 0 {
        lemma_store_all_fills_in_order(s, slots);
    } else {
        lemma_store_all_keeps_empty_ring(s, slots);
        lemma_empty_slots_count_zero(s);
    }
}

/// Storing into a ring with no slots changes nothing.
proof fn lemma_store_all_keeps_empty_ring<F>(s: Seq<Option<Slot<F>>>, slots: Seq<Slot<F>>)
    requires
        s.len() == 0,
    ensures
        ring_store_all(s, 0, slots) == (s, 0int),
    decreases slots.len(),
{
    if slots.len() > 0 {
        lemma_store_all_keeps_empty_ring(s, slots.drop_last());
    }
}

/// The backward scan from `step` returns the first qualifying slot it
/// visits: every slot visited before it fails to qualify.
proof fn lemma_scan_backward_first<F>(s: Seq<Option<Slot<F>>>, next: int, block: u64, step: int)
    requires
        0 <= step,
    ensures
        scan_backward(s, next, block, step) matches Some(x) ==> exists|found: int|
            step <= found < s.len() && s[backward_index(s.len() as int, next, found)] == Some(x)
                && at_or_below(Some(x), block) && forall|j: int|
                step <= j < found ==> !at_or_below(
                    #[trigger] s[backward_index(s.len() as int, next, j)],
                    block,
                ),
    decreases s.len() - step,
{
    if step < s.len() && !at_or_below(s[backward_index(s.len() as int, next, step)], block) {
        lemma_scan_backward_first(s, next, block, step + 1);
        if scan_backward(s, next, block, step) is Some {
            let found = choose|found: int|
                step + 1 <= found < s.len() && s[backward_index(s.len() as int, next, found)]
                    == scan_backward(s, next, block, step) && at_or_below(
                    scan_backward(s, next, block, step),
                    block,
                ) && forall|j: int|
                    step + 1 <= j < found ==> !at_or_below(
                        #[trigger] s[backward_index(s.len() as int, next, j)],
                        block,
                    );
            assert forall|j: int| step <= j < found implies !at_or_below(
                #[trigger] s[backward_index(s.len() as int, next, j)],
                block,
            ) by {}
        }
    }
}

/// `best_at_or_below` gives the newest qualifying slot: it qualifies, and
/// no slot stored after it qualifies.
pub proof fn lemma_best_is_newest_qualifying<F>(s: Seq<Option<Slot<F>>>, next: int, block: u64)
    ensures
        ring_best(s, next, block) matches Some(x) ==> exists|found: int|
            0 <= found < s.len() && s[backward_index(s.len() as int, next, found)] == Some(x)
                && at_or_below(Some(x), block) && forall|j: int|
                0 <= j < found ==> !at_or_below(
                    #[trigger] s[backward_index(s.len() as int, next, j)],
                    block,
                ),
{
    lemma_scan_backward_first(s, next, block, 0);
}

/// The backward scans of a ring and of what `drop_above(block)` leaves of
/// it agree from every step on.
proof fn lemma_scan_backward_after_drop<F>(s: Seq<Option<Slot<F>>>, next: int, block: u64, step: int)
    requires
        0 <= next < s.len(),
        0 <= step,
    ensures
        scan_backward(ring_drop_above(s, block), next, block, step) == scan_backward(
            s,
            next,
            block,
            step,
        ),
    decreases s.len() - step,
{
    if step < s.len() {
        lemma_backward_in_range(s.len() as int, next, step);
        lemma_scan_backward_after_drop(s, next, block, step + 1);
    }
}

/// `drop_above(block)` keeps what `best_at_or_below(block)` gives, and a
/// second call changes nothing.
pub proof fn lemma_drop_above_keeps_best<F>(s: Seq<Option<Slot<F>>>, next: int, block: u64)
    requires
        0 <= next < s.len() || (s.len() == 0 && next == 0),
    ensures
        ring_best(ring_drop_above(s, block), next, block) == ring_best(s, next, block),
        ring_drop_above(ring_drop_above(s, block), block) == ring_drop_above(s, block),
{
    if s.len() > 0 {
        lemma_scan_backward_after_drop(s, next, block, 0);
    }
    assert(ring_drop_above(ring_drop_above(s, block), block) =~= ring_drop_above(s, block));
}

/// Restore points are judged by their cursor's block alone, whatever its
/// log index. `best_at_or_below(block)` returns a retained slot with no
/// cursor or a cursor in a block at most `block`, and every slot stored
/// after it is empty or has its cursor in a later block; it returns nothing
/// exactly when every retained slot has its cursor in a later block.
/// `drop_above(block)` empties exactly the slots whose cursor lies in a
/// block after `block`.
pub proof fn lemma_restore_points_go_by_cursor_block<F>(s: Seq<Option<Slot<F>>>, next: int, block: u64)
    requires
        0 <= next < s.len() || (s.len() == 0 && next == 0),
    ensures
        ring_best(s, next, block) is Some ==> exists|found: int|
            0 <= found < s.len() && s[backward_index(s.len() as int, next, found)] == ring_best(
                s,
                next,
                block,
            ) && (ring_best(s, next, block)->0.cursor is Some ==> ring_best(
                s,
                next,
                block,
            )->0.cursor->0.block <= block) && forall|j: int|
                0 <= j < found ==> (#[trigger] s[backward_index(s.len() as int, next, j)] is Some
                    ==> s[backward_index(s.len() as int, next, j)]->0.cursor is Some && s[backward_index(
                    s.len() as int,
                    next,
                    j,
                )]->0.cursor->0.block > block),
        ring_best(s, next, block) is None <==> forall|i: int|
            0 <= i < s.len() ==> (#[trigger] s[i] is Some ==> s[i]->0.cursor is Some
                && s[i]->0.cursor->0.block > block),
        forall|i: int|
            0 <= i < s.len() ==> #[trigger] ring_drop_above(s, block)[i] == if s[i] is Some
                && s[i]->0.cursor is Some && s[i]->0.cursor->0.block > block {
                None
            } else {
                s[i]
            },
{
    lemma_best_is_newest_qualifying(s, next, block);
    lemma_best_exists_iff_qualifying(s, next, block);
    if ring_best(s, next, block) is Some {
        let found = choose|found: int|
            0 <= found < s.len() && s[backward_index(s.len() as int, next, found)] == ring_best(
                s,
                next,
                block,
            ) && at_or_below(ring_best(s, next, block), block) && forall|j: int|
                0 <= j < found ==> !at_or_below(
                    #[trigger] s[backward_index(s.len() as int, next, j)],
                    block,
                );
        assert forall|j: int| 0 <= j < found implies (#[trigger] s[backward_index(
            s.len() as int,
            next,
            j,
        )] is Some ==> s[backward_index(s.len() as int, next, j)]->0.cursor is Some && s[backward_index(
            s.len() as int,
            next,
            j,
        )]->0.cursor->0.block > block) by {
            assert(!at_or_below(s[backward_index(s.len() as int, next, j)], block));
        }
    }
    assert forall|i: int| 0 <= i < s.len() implies (!at_or_below(#[trigger] s[i], block) <==> (s[i] is Some
        ==> s[i]->0.cursor is Some && s[i]->0.cursor->0.block > block)) by {}
}

/// Fixed K-slot ring of engine restore points.
#[derive(Debug)]
pub struct CheckpointRing<F> {
    slots: Vec<Option<Slot<F>>>,
    next: usize,
}

impl<F> CheckpointRing<F> {
    /// The slots, in physical order.
    pub closed spec fn slots_view(&self) -> Seq<Option<Slot<F>>> {
        self.slots@
    }

    /// Physical index the next store writes to.
    pub closed spec fn next_view(&self) -> int {
        self.next as int
    }

    /// The write position lies inside the ring (or is 0 for an empty ring).
    pub closed spec fn wf(&self) -> bool {
        &&& (self.next < self.slots@.len()) || (self.slots@.len() == 0 && self.next == 0)
        &&& self.slots@.len() <= usize::MAX / 2
    }

    /// A ring of `slots` empty slots.
    pub fn new(slots: usize) -> (r: Self)
        requires
            slots <= usize::MAX / 2,
        ensures
            r.wf(),
            r.slots_view().len() == slots,
            r.next_view() == 0,
            forall|i: int| 0 <= i < slots ==> #[trigger] r.slots_view()[i] is None,
    {
        let mut buffer: Vec<Option<Slot<F>>> = Vec::with_capacity(slots);
        let mut i: usize = 0;
        while i < slots
            invariant
                i <= slots,
                buffer@.len() == i,
                forall|j: int| 0 <= j < i ==> #[trigger] buffer@[j] is None,
            decreases slots - i,
        {
            buffer.push(None);
            i = i + 1;
        }
        Self { slots: buffer, next: 0 }
    }

    /// Number of occupied slots.
    pub fn count(&self) -> (n: usize)
        ensures
            n == occupied(self.slots_view()),
    {
        let mut n: usize = 0;
        let mut i: usize = 0;
        while i < self.slots.len()
            invariant
                i <= self.slots@.len(),
                n <= i,
                n == occupied(self.slots@.subrange(0, i as int)),
            decreases self.slots@.len() - i,
        {
            proof {
                assert(self.slots@.subrange(0, i + 1).drop_last() =~= self.slots@.subrange(
                    0,
                    i as int,
                ));
            }
            if self.slots[i].is_some() {
                n = n + 1;
            }
            i = i + 1;
        }
        proof {
            assert(self.slots@.subrange(0, i as int) =~= self.slots@);
        }
        n
    }

    /// Stores a slot at the next write position; overwrites the oldest when full.
    pub fn store(&mut self, slot: Slot<F>)
        requires
            old(self).wf(),
        ensures
            final(self).wf(),
            (final(self).slots_view(), final(self).next_view()) == ring_store(
                old(self).slots_view(),
                old(self).next_view(),
                slot,
            ),
    {
        let len = self.slots.len();
        if len == 0 {
            return;
        }
        let next = self.next;
        self.slots.set(next, Some(slot));
        self.next = (next + 1) % len;
    }

    /// Oldest retained slot; the mirror of `best_at_or_below`'s newest-first scan.
    pub fn oldest(&self) -> (r: Option<&Slot<F>>)
        requires
            self.wf(),
        ensures
            match ring_oldest(self.slots_view(), self.next_view()) {
                None => r is None,
                Some(s) => r matches Some(x) && *x == s,
            },
    {
        let len = self.slots.len();
        let mut step: usize = 0;
        while step < len
            invariant
                self.wf(),
                len == self.slots@.len(),
                step <= len,
                scan_forward(self.slots@, self.next as int, 0) == scan_forward(
                    self.slots@,
                    self.next as int,
                    step as int,
                ),
            decreases len - step,
        {
            let index = (self.next + step) % len;
            match &self.slots[index] {
                Some(slot) => {
                    return Some(slot);
                },
                None => {},
            }
            step = step + 1;
        }
        None
    }

    /// Newest slot with cursor block at or below the argument; empty-cursor
    /// slots always qualify.
    pub fn best_at_or_below(&self, block: u64) -> (r: Option<&Slot<F>>)
        requires
            self.wf(),
        ensures
            match ring_best(self.slots_view(), self.next_view(), block) {
                None => r is None,
                Some(s) => r matches Some(x) && *x == s,
            },
    {
        let len = self.slots.len();
        if len == 0 {
            return None;
        }
        let mut step: usize = 0;
        while step < len
            invariant
                self.wf(),
                len == self.slots@.len(),
                len > 0,
                step <= len,
                scan_backward(self.slots@, self.next as int, block, 0) == scan_backward(
                    self.slots@,
                    self.next as int,
                    block,
                    step as int,
                ),
            decreases len - step,
        {
            let index = (self.next + len - 1 - step) % len;
            match &self.slots[index] {
                Some(slot) => {
                    let qualifies = match slot.cursor {
                        Some(cursor) => cursor.block <= block,
                        None => true,
                    };
                    if qualifies {
                        return Some(slot);
                    }
                },
                None => {},
            }
            step = step + 1;
        }
        None
    }

    /// Drops slots with cursor block strictly above the argument.
    pub fn drop_above(&mut self, block: u64)
        requires
            old(self).wf(),
        ensures
            final(self).wf(),
            final(self).next_view() == old(self).next_view(),
            final(self).slots_view() == ring_drop_above(old(self).slots_view(), block),
    {
        let len = self.slots.len();
        let mut i: usize = 0;
        while i < len
            invariant
                len == self.slots@.len(),
                len == old(self).slots@.len(),
                len <= usize::MAX / 2,
                self.next == old(self).next,
                i <= len,
                forall|j: int|
                    0 <= j < i ==> #[trigger] self.slots@[j] == (if above(old(self).slots@[j], block) {
                        None
                    } else {
                        old(self).slots@[j]
                    }),
                forall|j: int| i <= j < len ==> #[trigger] self.slots@[j] == old(self).slots@[j],
            decreases len - i,
        {
            let drop = match &self.slots[i] {
                Some(inner) => match inner.cursor {
                    Some(cursor) => cursor.block > block,
                    None => false,
                },
                None => false,
            };
            if drop {
                self.slots.set(i, None);
            }
            i = i + 1;
        }
        proof {
            assert(self.slots@ =~= ring_drop_above(old(self).slots@, block));
        }
    }

    /// Empties every slot.
    pub fn clear(&mut self)
        requires
            old(self).wf(),
        ensures
            final(self).wf(),
            final(self).next_view() == old(self).next_view(),
            final(self).slots_view().len() == old(self).slots_view().len(),
            forall|i: int| 0 <= i < final(self).slots_view().len() ==> #[trigger] final(self).slots_view()[i] is None,
    {
        let len = self.slots.len();
        let mut i: usize = 0;
        while i < len
            invariant
                len == self.slots@.len(),
                len == old(self).slots@.len(),
                len <= usize::MAX / 2,
                self.next == old(self).next,
                i <= len,
                forall|j: int| 0 <= j < i ==> #[trigger] self.slots@[j] is None,
            decreases len - i,
        {
            self.slots.set(i, None);
            i = i + 1;
        }
    }
}

} // verus!
