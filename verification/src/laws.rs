//! The pool's guarantees, stated and proved over the model that the
//! operations' contracts speak of. Each operation requires and re-establishes
//! [`crate::pool::inv`], so whatever follows from the invariant holds at every
//! observable instant.

use vstd::prelude::*;

use crate::pool::{
    has_lease, idle_count, in_use_count, inv, is_validating, lemma_state_counts,
    slot_matches_lease, same_lease, Lease, PoolModel, Slot,
};

verus! {

/// For every reachable pool state, `idle + in_use <= max_connections`: every
/// slot is idle, in use, or validating, the table never outgrows the ceiling,
/// and opens in flight are counted against it too.
pub proof fn lemma_capacity_bound(m: PoolModel)
    requires
        inv(m),
    ensures
        idle_count(m.slots) + in_use_count(m.slots) <= m.cfg.max_connections,
{
    lemma_state_counts(m.slots);
    crate::counting::lemma_count_bounds(m.slots, |s: Slot| is_validating(s));
}

/// Once warm-up completes, the pool never falls below `min_connections`,
/// counting replacement opens in flight — the transient state while a broken
/// connection's replacement is being opened. The floor is suspended only when
/// replacing failed beyond the retry budget (`degraded`), until
/// [`crate::pool::Pool::warmup`] re-arms it.
pub proof fn lemma_warm_floor(m: PoolModel)
    requires
        inv(m),
        m.mode is Running,
        m.warmed,
        !m.degraded,
    ensures
        m.slots.len() + m.opens.len() >= m.cfg.min_connections,
{
}

/// Waiters stand in the queue in arrival order: ticket ids are issued from a
/// counter when an acquirer enqueues, so an earlier waiter has the smaller
/// id and stands closer to the head. Together with
/// [`lemma_grant_serves_oldest`] and the contracts of
/// [`crate::pool::Pool::release`] and [`crate::pool::Pool::finish_open`] —
/// every hand-off goes to the head of the queue and drops exactly it — a
/// waiter that enqueued strictly before another is granted a connection no
/// later than it.
pub proof fn lemma_fifo_order(m: PoolModel, i: int, j: int)
    requires
        inv(m),
        0 <= i < j < m.queue.len(),
    ensures
        m.queue[i].ticket_id < m.queue[j].ticket_id,
{
}

/// The waiter at the head of the queue — the one every hand-off serves — is
/// the oldest: its ticket id is smaller than every other queued ticket's.
pub proof fn lemma_grant_serves_oldest(m: PoolModel)
    requires
        inv(m),
        m.queue.len() > 0,
    ensures
        forall|j: int|
            1 <= j < m.queue.len() ==> m.queue[0].ticket_id < (#[trigger] m.queue[j]).ticket_id,
{
    assert forall|j: int|
        1 <= j < m.queue.len() implies m.queue[0].ticket_id < (
    #[trigger] m.queue[j]).ticket_id by {
        lemma_fifo_order(m, 0, j);
    }
}

/// A release revokes its lease: once the slot that backed lease `l` is
/// rewritten to anything that no longer carries `l` (idle, or in use under a
/// fresh lease), no slot in the pool backs `l` — lease ids are unique across
/// the table. A second release of `l` therefore finds nothing and, by the
/// contract of [`crate::pool::Pool::release`], reports `DoubleRelease` and
/// leaves the pool unchanged.
pub proof fn lemma_lease_revoked_by_update(m: PoolModel, l: Lease, k: int, s2: Slot)
    requires
        inv(m),
        0 <= k < m.slots.len(),
        slot_matches_lease(m.slots[k], l),
        !slot_matches_lease(s2, l),
    ensures
        !has_lease(PoolModel { slots: m.slots.update(k, s2), ..m }, l),
{
    let slots2 = m.slots.update(k, s2);
    assert forall|i: int| 0 <= i < slots2.len() implies !slot_matches_lease(
        #[trigger] slots2[i],
        l,
    ) by {
        if i != k && slot_matches_lease(m.slots[i], l) {
            assert(same_lease(m.slots[i], m.slots[k]));
            if i < k {
                assert(!same_lease(m.slots[i], m.slots[k]));
            } else {
                assert(!same_lease(m.slots[k], m.slots[i]));
            }
        }
    }
}

/// As [`lemma_lease_revoked_by_update`], for the disposal path: once the slot
/// that backed lease `l` leaves the table, no slot backs `l`.
pub proof fn lemma_lease_revoked_by_removal(m: PoolModel, l: Lease, k: int)
    requires
        inv(m),
        0 <= k < m.slots.len(),
        slot_matches_lease(m.slots[k], l),
    ensures
        !has_lease(PoolModel { slots: m.slots.remove(k), ..m }, l),
{
    let slots2 = m.slots.remove(k);
    m.slots.remove_ensures(k);
    assert forall|i: int| 0 <= i < slots2.len() implies !slot_matches_lease(
        #[trigger] slots2[i],
        l,
    ) by {
        let i0 = if i < k {
            i
        } else {
            i + 1
        };
        assert(slots2[i] == m.slots[i0]);
        if slot_matches_lease(m.slots[i0], l) {
            assert(same_lease(m.slots[i0], m.slots[k]));
            if i0 < k {
                assert(!same_lease(m.slots[i0], m.slots[k]));
            } else {
                assert(!same_lease(m.slots[k], m.slots[i0]));
            }
        }
    }
}

/// A disposed connection is gone for good: when the slot holding connection
/// `c` is removed — a broken release, or a failed checkout probe — no
/// remaining slot holds `c`, since connection ids are unique across the
/// table. No later acquire can hand `c` out, because grants only ever name
/// connections present in the table.
pub proof fn lemma_disposed_connection_absent(m: PoolModel, k: int)
    requires
        inv(m),
        0 <= k < m.slots.len(),
    ensures
        forall|i: int|
            0 <= i < m.slots.remove(k).len() ==> (#[trigger] m.slots.remove(k)[i]).conn_id
                != m.slots[k].conn_id,
{
    let slots2 = m.slots.remove(k);
    m.slots.remove_ensures(k);
    assert forall|i: int| 0 <= i < slots2.len() implies (#[trigger] slots2[i]).conn_id
        != m.slots[k].conn_id by {
        let i0 = if i < k {
            i
        } else {
            i + 1
        };
        assert(slots2[i] == m.slots[i0]);
    }
}

} // verus!
