//! The connection pool: a bounded set of slots, a FIFO wait queue, and the
//! bookkeeping for opens that are in flight.
//!
//! Every operation is one atomic bookkeeping transition; network work
//! (opening, probing, closing connections) is described to the caller by the
//! returned tickets and actions, and its outcome is handed back through a
//! follow-up operation. Connections are identified by `conn_id`; the caller
//! keeps the map from `conn_id` to its live session.

use vstd::prelude::*;

use crate::config::PoolConfig;
use crate::counting::count_matching;

verus! {

/// Health of a connection as last observed.
#[derive(Clone, Copy, Debug, PartialEq, Eq, Structural)]
pub enum Health {
    /// Not probed since it was last used.
    Unknown,
    /// The last probe or use succeeded.
    Healthy,
    /// Reported or detected broken; such a connection is discarded.
    Broken,
}

/// State tag of one slot. A connection whose slot is removed is closed; the
/// table holds live connections only.
#[derive(Clone, Copy, Debug, PartialEq, Eq, Structural)]
pub enum SlotState {
    /// In the pool, available for checkout.
    Idle,
    /// Lent out under exactly one lease.
    InUse { lease_id: u64 },
    /// Undergoing a checkout-time health probe.
    Validating { probe_id: u64 },
}

/// Bookkeeping for one live connection.
#[derive(Clone, Copy, Debug)]
pub struct Slot {
    /// Identifies the connection to the caller.
    pub conn_id: u64,
    /// When the connection was opened.
    pub created_at: u64,
    /// Last hand-out or check-in time; drives staleness and idle reaping.
    pub last_used: u64,
    /// Health as last observed.
    pub health: Health,
    /// Current state tag.
    pub state: SlotState,
}

/// Lifecycle of the pool as a whole.
#[derive(Clone, Copy, Debug, PartialEq, Eq, Structural)]
pub enum Mode {
    /// Serving acquires.
    Running,
    /// Shutting down: new acquires fail, outstanding leases drain.
    Closing,
    /// Drained and fully closed.
    Closed,
}

/// Everything that can go wrong at the pool's interface.
#[derive(Clone, Copy, Debug, PartialEq, Eq, Structural)]
pub enum PoolError {
    /// Opening a connection failed, surfaced to the acquire that needed it.
    OpenFailed,
    /// The acquire deadline elapsed while queued.
    AcquireTimeout,
    /// The operation arrived during or after shutdown.
    PoolClosed,
    /// A lease was released twice; the second release reports this and
    /// changes nothing.
    DoubleRelease,
    /// Internal classification of a failed health probe. It is never returned
    /// by a pool operation: a failed probe triggers disposal and a fresh open,
    /// and only an exhausted retry budget surfaces, as `ExhaustedRetries`.
    ValidationFailed,
    /// The retry budget for replacing a connection that failed validation was
    /// used up.
    ExhaustedRetries,
}

/// A caller's right to use one pooled connection, until released once.
#[derive(Debug)]
pub struct Lease {
    /// Unique id of this checkout; release is matched against it.
    pub lease_id: u64,
    /// The connection lent out.
    pub conn_id: u64,
}

/// A queued acquirer, waiting for a connection to free up.
#[derive(Clone, Copy, Debug)]
pub struct WaitTicket {
    /// Unique, increasing with arrival order.
    pub ticket_id: u64,
    /// When the acquirer joined the queue.
    pub enqueued_at: u64,
    /// Absolute deadline, `None` to wait forever.
    pub deadline: Option<u64>,
}

/// Instruction to open one new connection and report back through
/// [`Pool::finish_open`]. Issued by the pool; not meant to be copied.
#[derive(Debug)]
pub struct OpenTicket {
    /// Identifies the pending open.
    pub open_id: u64,
}

/// Instruction to probe one idle-gone-stale connection and report back
/// through [`Pool::finish_validate`].
#[derive(Debug)]
pub struct ProbeTicket {
    /// Identifies the pending probe.
    pub probe_id: u64,
    /// The connection to probe.
    pub conn_id: u64,
}

/// Why an open is in flight.
#[derive(Clone, Copy, Debug, PartialEq, Eq, Structural)]
pub enum OpenPurpose {
    /// An acquirer is waiting on this open for its lease. `after_validation`
    /// records that the open replaces a connection that failed its checkout
    /// probe, which changes the surfaced error on exhaustion.
    ForCaller { after_validation: bool },
    /// Restores the warm floor or serves the wait queue; nobody is
    /// synchronously waiting on it.
    Replacement,
}

/// One open in flight, counted against `max_connections`.
#[derive(Clone, Copy, Debug)]
pub struct PendingOpen {
    /// Matches the [`OpenTicket`] held by the caller.
    pub open_id: u64,
    /// Why the open was started.
    pub purpose: OpenPurpose,
    /// Fresh attempts left after the current one fails.
    pub retries_left: u64,
}

/// Counters reported by [`Pool::stats`].
#[derive(Clone, Copy, Debug, PartialEq, Eq, Structural)]
pub struct PoolStats {
    /// Live connections (idle, in use, or validating).
    pub total: usize,
    /// Connections available for checkout.
    pub idle: usize,
    /// Connections lent out.
    pub in_use: usize,
    /// Acquirers in the wait queue.
    pub waiting: usize,
}

/// The pool's state as contracts speak of it: the exact bookkeeping, with
/// sequences in place of vectors.
pub struct PoolModel {
    /// Configuration the pool was created with.
    pub cfg: PoolConfig,
    /// The slot table: one entry per live connection.
    pub slots: Seq<Slot>,
    /// The FIFO wait queue, oldest first.
    pub queue: Seq<WaitTicket>,
    /// Opens in flight, each counted against `max_connections`.
    pub opens: Seq<PendingOpen>,
    /// Lifecycle state.
    pub mode: Mode,
    /// Whether warm-up has completed: `total` has reached `min_connections`
    /// at least once (immediately, when the floor is zero).
    pub warmed: bool,
    /// Whether the warm floor is suspended because replacing a connection
    /// failed beyond the retry budget; warm-up re-arms it.
    pub degraded: bool,
    /// Latest time the pool has observed on the caller's monotonic clock.
    pub clock: u64,
    /// Next fresh connection id.
    pub next_conn_id: u64,
    /// Next fresh lease id.
    pub next_lease_id: u64,
    /// Next fresh wait-ticket id.
    pub next_ticket_id: u64,
    /// Next fresh open id.
    pub next_open_id: u64,
    /// Next fresh probe id.
    pub next_probe_id: u64,
}

/// The slot is available for checkout.
pub open spec fn is_idle(s: Slot) -> bool {
    s.state is Idle
}

/// The slot is lent out.
pub open spec fn is_in_use(s: Slot) -> bool {
    s.state is InUse
}

/// The slot is being probed.
pub open spec fn is_validating(s: Slot) -> bool {
    s.state is Validating
}

/// Connections available for checkout.
pub open spec fn idle_count(slots: Seq<Slot>) -> int {
    count_matching(slots, |s: Slot| is_idle(s))
}

/// Connections lent out.
pub open spec fn in_use_count(slots: Seq<Slot>) -> int {
    count_matching(slots, |s: Slot| is_in_use(s))
}

/// Connections being probed.
pub open spec fn validating_count(slots: Seq<Slot>) -> int {
    count_matching(slots, |s: Slot| is_validating(s))
}

/// Every slot is in exactly one of the three states, so the three counts
/// partition the table.
pub proof fn lemma_state_counts(slots: Seq<Slot>)
    ensures
        idle_count(slots) + in_use_count(slots) + validating_count(slots) == slots.len(),
    decreases slots.len(),
{
    if slots.len() > 0 {
        lemma_state_counts(slots.drop_last());
    }
}

/// The slot currently backs this lease.
pub open spec fn slot_matches_lease(s: Slot, l: Lease) -> bool {
    &&& s.conn_id == l.conn_id
    &&& s.state matches SlotState::InUse { lease_id } && lease_id == l.lease_id
}

/// Some slot currently backs this lease.
pub open spec fn has_lease(m: PoolModel, l: Lease) -> bool {
    exists|i: int| 0 <= i < m.slots.len() && slot_matches_lease(#[trigger] m.slots[i], l)
}

/// Both slots are lent out under the same lease id; forbidden between
/// distinct slots.
pub open spec fn same_lease(a: Slot, b: Slot) -> bool {
    &&& a.state matches SlotState::InUse { lease_id: la }
    &&& b.state matches SlotState::InUse { lease_id: lb }
    &&& la == lb
}

/// Both slots are being probed under the same probe id; forbidden between
/// distinct slots.
pub open spec fn same_probe(a: Slot, b: Slot) -> bool {
    &&& a.state matches SlotState::Validating { probe_id: pa }
    &&& b.state matches SlotState::Validating { probe_id: pb }
    &&& pa == pb
}

/// Two distinct slots never share a connection, a lease, or a probe.
pub open spec fn slots_distinct(slots: Seq<Slot>) -> bool {
    forall|i: int, j: int|
        0 <= i < j < slots.len() ==> {
            &&& (#[trigger] slots[i]).conn_id != (#[trigger] slots[j]).conn_id
            &&& !same_lease(slots[i], slots[j])
            &&& !same_probe(slots[i], slots[j])
        }
}

/// Per-slot bookkeeping bounds: ids already issued, timestamps not in the
/// future.
pub open spec fn slot_bounded(m: PoolModel, s: Slot) -> bool {
    &&& s.conn_id < m.next_conn_id
    &&& s.created_at <= m.clock
    &&& s.last_used <= m.clock
    &&& (s.state matches SlotState::InUse { lease_id } ==> lease_id < m.next_lease_id)
    &&& (s.state matches SlotState::Validating { probe_id } ==> probe_id < m.next_probe_id)
}

/// All slots bounded and pairwise distinct.
pub open spec fn slots_ok(m: PoolModel) -> bool {
    &&& forall|i: int| 0 <= i < m.slots.len() ==> slot_bounded(m, #[trigger] m.slots[i])
    &&& slots_distinct(m.slots)
}

/// Queue tickets arrived in id order: strictly increasing, oldest first.
pub open spec fn queue_sorted(q: Seq<WaitTicket>) -> bool {
    forall|i: int, j: int|
        0 <= i < j < q.len() ==> (#[trigger] q[i]).ticket_id < (#[trigger] q[j]).ticket_id
}

/// Queue bookkeeping: ids issued, arrival times not in the future, FIFO
/// order by id.
pub open spec fn queue_ok(m: PoolModel) -> bool {
    &&& forall|i: int|
        0 <= i < m.queue.len() ==> {
            &&& (#[trigger] m.queue[i]).ticket_id < m.next_ticket_id
            &&& m.queue[i].enqueued_at <= m.clock
        }
    &&& queue_sorted(m.queue)
}

/// Opens in flight: ids issued and pairwise distinct.
pub open spec fn opens_ok(m: PoolModel) -> bool {
    &&& forall|i: int| 0 <= i < m.opens.len() ==> (#[trigger] m.opens[i]).open_id < m.next_open_id
    &&& forall|i: int, j: int|
        0 <= i < j < m.opens.len() ==> (#[trigger] m.opens[i]).open_id != (
        #[trigger] m.opens[j]).open_id
}

/// The pool's invariant: every operation requires it of the state before and
/// establishes it of the state after.
pub open spec fn inv(m: PoolModel) -> bool {
    &&& m.cfg.wf()
    &&& m.slots.len() + m.opens.len() <= m.cfg.max_connections
    &&& (m.mode is Running && m.warmed && !m.degraded ==> m.slots.len() + m.opens.len()
        >= m.cfg.min_connections)
    &&& (m.mode !is Running ==> m.queue.len() == 0 && m.opens.len() == 0)
    &&& (m.mode is Closed ==> m.slots.len() == 0)
    &&& (m.cfg.min_connections == 0 ==> m.warmed)
    &&& slots_ok(m)
    &&& queue_ok(m)
    &&& opens_ok(m)
}

/// Fresh ids remain; a machine limit, trivially true for any realistic use.
pub open spec fn ids_available(m: PoolModel) -> bool {
    &&& m.next_conn_id < u64::MAX
    &&& m.next_lease_id < u64::MAX
    &&& m.next_ticket_id < u64::MAX
    &&& m.next_open_id < u64::MAX
    &&& m.next_probe_id < u64::MAX
}

/// `k` is the index of the first idle slot.
pub open spec fn first_idle_at(slots: Seq<Slot>, k: int) -> bool {
    &&& 0 <= k < slots.len()
    &&& is_idle(slots[k])
    &&& forall|m: int| 0 <= m < k ==> !is_idle(#[trigger] slots[m])
}

/// No slot is available for checkout.
pub open spec fn no_idle(slots: Seq<Slot>) -> bool {
    forall|i: int| 0 <= i < slots.len() ==> !is_idle(#[trigger] slots[i])
}

/// The slot has sat idle past the validation interval, so it is probed before
/// being handed out. Never stale when no interval is configured.
pub open spec fn is_stale(s: Slot, now: u64, cfg: PoolConfig) -> bool {
    cfg.validation_interval_ms matches Some(v) && now - s.last_used > v
}

/// The slot has sat idle past `idle_timeout_ms` and is a candidate for the
/// reaper.
pub open spec fn reap_expired(s: Slot, now: u64, cfg: PoolConfig) -> bool {
    is_idle(s) && now - s.last_used > cfg.idle_timeout_ms
}

/// `s` is one of the slots of `slots0`.
pub open spec fn from_table(slots0: Seq<Slot>, s: Slot) -> bool {
    exists|j: int| 0 <= j < slots0.len() && #[trigger] slots0[j] == s
}

/// `m` held an idle connection `c` that had expired at `now`: the reaper
/// closes only such connections.
pub open spec fn was_reaped(m: PoolModel, c: u64, now: u64) -> bool {
    exists|j: int|
        0 <= j < m.slots.len() && (#[trigger] m.slots[j]).conn_id == c && reap_expired(
            m.slots[j],
            now,
            m.cfg,
        )
}

/// What one acquire step asks of the caller.
pub enum AcquireOutcome {
    /// An idle connection was checked out.
    Granted(Lease),
    /// An idle connection went stale: probe it and report through
    /// [`Pool::finish_validate`].
    MustValidate(ProbeTicket),
    /// There is room for a new connection: open one and report through
    /// [`Pool::finish_open`].
    MustOpen(OpenTicket),
    /// The pool is full: the acquirer joined the wait queue.
    Enqueued(WaitTicket),
    /// The pool is shutting down (`PoolClosed`).
    Failed(PoolError),
}

/// An open with this id is in flight.
pub open spec fn has_open(m: PoolModel, open_id: u64) -> bool {
    exists|i: int| 0 <= i < m.opens.len() && (#[trigger] m.opens[i]).open_id == open_id
}

/// The error surfaced when an open's retry budget runs out: the open that
/// replaces a connection which failed its checkout probe surfaces
/// `ExhaustedRetries`, any other failed open surfaces `OpenFailed`.
pub open spec fn surfaced_error(p: OpenPurpose) -> PoolError {
    match p {
        OpenPurpose::ForCaller { after_validation } => if after_validation {
            PoolError::ExhaustedRetries
        } else {
            PoolError::OpenFailed
        },
        OpenPurpose::Replacement => PoolError::OpenFailed,
    }
}

/// The slot is being probed under this probe id.
pub open spec fn slot_matches_probe(s: Slot, probe_id: u64) -> bool {
    s.state matches SlotState::Validating { probe_id: p } && p == probe_id
}

/// Some slot is being probed under this probe id.
pub open spec fn has_probe(m: PoolModel, probe_id: u64) -> bool {
    exists|i: int| 0 <= i < m.slots.len() && slot_matches_probe(#[trigger] m.slots[i], probe_id)
}

/// How the pool resolved the outcome of one open attempt.
pub enum OpenResolution {
    /// The new connection was checked out to the acquirer that asked for it.
    Granted(Lease),
    /// The new connection went to the idle pool.
    Pooled {
        /// The connection that went idle.
        conn_id: u64,
    },
    /// The new connection went to the oldest waiter; deliver the lease to the
    /// waiter holding `ticket_id`.
    HandedOff {
        /// The waiter served, always the head of the queue.
        ticket_id: u64,
        /// The waiter's new lease.
        lease: Lease,
    },
    /// The attempt failed but budget remains: open again and report back with
    /// this ticket.
    Retry(OpenTicket),
    /// `PoolClosed` when the open is no longer wanted (shutdown); otherwise
    /// the retry budget ran out and the open's failure is surfaced. If the
    /// attempt had succeeded, close the connection just opened.
    Failed(PoolError),
}

/// How the pool resolved the outcome of one health probe.
pub enum ValidateResolution {
    /// The connection probed healthy and was checked out.
    Granted(Lease),
    /// The probe failed: close the probed connection; a fresh open for the
    /// same acquirer is scheduled, to report through [`Pool::finish_open`].
    ReplaceThenGrant {
        /// The broken connection to close.
        closed_conn_id: u64,
        /// The open that replaces it, for the same acquirer.
        open: OpenTicket,
    },
    /// `PoolClosed`: the probe is no longer wanted (shutdown).
    Failed(PoolError),
}

/// What the caller must do after a successful release.
pub enum ReleaseAction {
    /// The connection went back to the idle pool.
    Returned {
        /// The connection that went idle.
        conn_id: u64,
    },
    /// The connection went straight to the oldest waiter, skipping the idle
    /// state; deliver the new lease to the waiter holding `ticket_id`.
    HandedOff {
        /// The waiter served, always the head of the queue.
        ticket_id: u64,
        /// The waiter's new lease on the released connection.
        lease: Lease,
    },
    /// The connection left the pool: close it.
    Disposed {
        /// The connection to close.
        conn_id: u64,
    },
    /// The connection left the pool: close it, and open a replacement,
    /// reporting through [`Pool::finish_open`].
    DisposedScheduleOpen {
        /// The connection to close.
        conn_id: u64,
        /// The replacement open to perform in the background.
        open: OpenTicket,
    },
}

proof fn lemma_slots_ok_update(m1: PoolModel, m2: PoolModel, k: int, s2: Slot)
    requires
        slots_ok(m1),
        0 <= k < m1.slots.len(),
        m2.slots == m1.slots.update(k, s2),
        m2.next_conn_id >= m1.next_conn_id,
        m2.next_lease_id >= m1.next_lease_id,
        m2.next_probe_id >= m1.next_probe_id,
        m2.clock >= m1.clock,
        s2.conn_id == m1.slots[k].conn_id,
        s2.created_at <= m2.clock,
        s2.last_used <= m2.clock,
        s2.state matches SlotState::InUse { lease_id } ==> m1.next_lease_id <= lease_id
            < m2.next_lease_id,
        s2.state matches SlotState::Validating { probe_id } ==> m1.next_probe_id <= probe_id
            < m2.next_probe_id,
    ensures
        slots_ok(m2),
{
    assert forall|i: int| 0 <= i < m2.slots.len() implies slot_bounded(
        m2,
        #[trigger] m2.slots[i],
    ) by {
        if i != k {
            assert(m2.slots[i] == m1.slots[i]);
            assert(slot_bounded(m1, m1.slots[i]));
        }
    }
    assert forall|i: int, j: int| 0 <= i < j < m2.slots.len() implies {
        &&& (#[trigger] m2.slots[i]).conn_id != (#[trigger] m2.slots[j]).conn_id
        &&& !same_lease(m2.slots[i], m2.slots[j])
        &&& !same_probe(m2.slots[i], m2.slots[j])
    } by {
        if i != k {
            assert(m2.slots[i] == m1.slots[i]);
            assert(slot_bounded(m1, m1.slots[i]));
        }
        if j != k {
            assert(m2.slots[j] == m1.slots[j]);
            assert(slot_bounded(m1, m1.slots[j]));
        }
    }
}

proof fn lemma_slots_ok_remove(m1: PoolModel, m2: PoolModel, k: int)
    requires
        slots_ok(m1),
        0 <= k < m1.slots.len(),
        m2.slots == m1.slots.remove(k),
        m2.next_conn_id >= m1.next_conn_id,
        m2.next_lease_id >= m1.next_lease_id,
        m2.next_probe_id >= m1.next_probe_id,
        m2.clock >= m1.clock,
    ensures
        slots_ok(m2),
{
    m1.slots.remove_ensures(k);
    assert forall|i: int| 0 <= i < m2.slots.len() implies slot_bounded(
        m2,
        #[trigger] m2.slots[i],
    ) by {
        let i0 = if i < k {
            i
        } else {
            i + 1
        };
        assert(m2.slots[i] == m1.slots[i0]);
        assert(slot_bounded(m1, m1.slots[i0]));
    }
    assert forall|i: int, j: int| 0 <= i < j < m2.slots.len() implies {
        &&& (#[trigger] m2.slots[i]).conn_id != (#[trigger] m2.slots[j]).conn_id
        &&& !same_lease(m2.slots[i], m2.slots[j])
        &&& !same_probe(m2.slots[i], m2.slots[j])
    } by {
        let i0 = if i < k {
            i
        } else {
            i + 1
        };
        let j0 = if j < k {
            j
        } else {
            j + 1
        };
        assert(m2.slots[i] == m1.slots[i0]);
        assert(m2.slots[j] == m1.slots[j0]);
    }
}

proof fn lemma_slots_ok_push(m1: PoolModel, m2: PoolModel, s2: Slot)
    requires
        slots_ok(m1),
        m2.slots == m1.slots.push(s2),
        m2.next_conn_id >= m1.next_conn_id,
        m2.next_lease_id >= m1.next_lease_id,
        m2.next_probe_id >= m1.next_probe_id,
        m2.clock >= m1.clock,
        m1.next_conn_id <= s2.conn_id < m2.next_conn_id,
        s2.created_at <= m2.clock,
        s2.last_used <= m2.clock,
        s2.state matches SlotState::InUse { lease_id } ==> m1.next_lease_id <= lease_id
            < m2.next_lease_id,
        s2.state matches SlotState::Validating { probe_id } ==> m1.next_probe_id <= probe_id
            < m2.next_probe_id,
    ensures
        slots_ok(m2),
{
    assert forall|i: int| 0 <= i < m2.slots.len() implies slot_bounded(
        m2,
        #[trigger] m2.slots[i],
    ) by {
        if i < m1.slots.len() {
            assert(m2.slots[i] == m1.slots[i]);
            assert(slot_bounded(m1, m1.slots[i]));
        }
    }
    assert forall|i: int, j: int| 0 <= i < j < m2.slots.len() implies {
        &&& (#[trigger] m2.slots[i]).conn_id != (#[trigger] m2.slots[j]).conn_id
        &&& !same_lease(m2.slots[i], m2.slots[j])
        &&& !same_probe(m2.slots[i], m2.slots[j])
    } by {
        assert(m2.slots[i] == m1.slots[i]);
        assert(slot_bounded(m1, m1.slots[i]));
        if j < m1.slots.len() {
            assert(m2.slots[j] == m1.slots[j]);
            assert(slot_bounded(m1, m1.slots[j]));
        }
    }
}

proof fn lemma_slots_ok_frame(m1: PoolModel, m2: PoolModel)
    requires
        slots_ok(m1),
        m2.slots == m1.slots,
        m2.next_conn_id >= m1.next_conn_id,
        m2.next_lease_id >= m1.next_lease_id,
        m2.next_probe_id >= m1.next_probe_id,
        m2.clock >= m1.clock,
    ensures
        slots_ok(m2),
{
    assert forall|i: int| 0 <= i < m2.slots.len() implies slot_bounded(
        m2,
        #[trigger] m2.slots[i],
    ) by {
        assert(slot_bounded(m1, m1.slots[i]));
    }
}

proof fn lemma_queue_ok_frame(m1: PoolModel, m2: PoolModel)
    requires
        queue_ok(m1),
        m2.queue == m1.queue,
        m2.next_ticket_id >= m1.next_ticket_id,
        m2.clock >= m1.clock,
    ensures
        queue_ok(m2),
{
}

proof fn lemma_queue_ok_push(m1: PoolModel, m2: PoolModel, w: WaitTicket)
    requires
        queue_ok(m1),
        m2.queue == m1.queue.push(w),
        m1.next_ticket_id <= w.ticket_id < m2.next_ticket_id,
        w.enqueued_at <= m2.clock,
        m2.clock >= m1.clock,
    ensures
        queue_ok(m2),
{
    assert forall|i: int| 0 <= i < m2.queue.len() implies {
        &&& (#[trigger] m2.queue[i]).ticket_id < m2.next_ticket_id
        &&& m2.queue[i].enqueued_at <= m2.clock
    } by {
        if i < m1.queue.len() {
            assert(m2.queue[i] == m1.queue[i]);
        }
    }
    assert forall|i: int, j: int| 0 <= i < j < m2.queue.len() implies (
    #[trigger] m2.queue[i]).ticket_id < (#[trigger] m2.queue[j]).ticket_id by {
        assert(m2.queue[i] == m1.queue[i]);
        if j < m1.queue.len() {
            assert(m2.queue[j] == m1.queue[j]);
        }
    }
}

proof fn lemma_queue_ok_remove(m1: PoolModel, m2: PoolModel, k: int)
    requires
        queue_ok(m1),
        0 <= k < m1.queue.len(),
        m2.queue == m1.queue.remove(k),
        m2.next_ticket_id >= m1.next_ticket_id,
        m2.clock >= m1.clock,
    ensures
        queue_ok(m2),
{
    m1.queue.remove_ensures(k);
    assert forall|i: int| 0 <= i < m2.queue.len() implies {
        &&& (#[trigger] m2.queue[i]).ticket_id < m2.next_ticket_id
        &&& m2.queue[i].enqueued_at <= m2.clock
    } by {
        let i0 = if i < k {
            i
        } else {
            i + 1
        };
        assert(m2.queue[i] == m1.queue[i0]);
    }
    assert forall|i: int, j: int| 0 <= i < j < m2.queue.len() implies (
    #[trigger] m2.queue[i]).ticket_id < (#[trigger] m2.queue[j]).ticket_id by {
        let i0 = if i < k {
            i
        } else {
            i + 1
        };
        let j0 = if j < k {
            j
        } else {
            j + 1
        };
        assert(m2.queue[i] == m1.queue[i0]);
        assert(m2.queue[j] == m1.queue[j0]);
    }
}

proof fn lemma_opens_ok_frame(m1: PoolModel, m2: PoolModel)
    requires
        opens_ok(m1),
        m2.opens == m1.opens,
        m2.next_open_id >= m1.next_open_id,
    ensures
        opens_ok(m2),
{
}

proof fn lemma_opens_ok_push(m1: PoolModel, m2: PoolModel, p: PendingOpen)
    requires
        opens_ok(m1),
        m2.opens == m1.opens.push(p),
        m1.next_open_id <= p.open_id < m2.next_open_id,
    ensures
        opens_ok(m2),
{
    assert forall|i: int| 0 <= i < m2.opens.len() implies (#[trigger] m2.opens[i]).open_id
        < m2.next_open_id by {
        if i < m1.opens.len() {
            assert(m2.opens[i] == m1.opens[i]);
        }
    }
    assert forall|i: int, j: int| 0 <= i < j < m2.opens.len() implies (
    #[trigger] m2.opens[i]).open_id != (#[trigger] m2.opens[j]).open_id by {
        assert(m2.opens[i] == m1.opens[i]);
        if j < m1.opens.len() {
            assert(m2.opens[j] == m1.opens[j]);
        }
    }
}

proof fn lemma_opens_ok_remove(m1: PoolModel, m2: PoolModel, k: int)
    requires
        opens_ok(m1),
        0 <= k < m1.opens.len(),
        m2.opens == m1.opens.remove(k),
        m2.next_open_id >= m1.next_open_id,
    ensures
        opens_ok(m2),
{
    m1.opens.remove_ensures(k);
    assert forall|i: int| 0 <= i < m2.opens.len() implies (#[trigger] m2.opens[i]).open_id
        < m2.next_open_id by {
        let i0 = if i < k {
            i
        } else {
            i + 1
        };
        assert(m2.opens[i] == m1.opens[i0]);
    }
    assert forall|i: int, j: int| 0 <= i < j < m2.opens.len() implies (
    #[trigger] m2.opens[i]).open_id != (#[trigger] m2.opens[j]).open_id by {
        let i0 = if i < k {
            i
        } else {
            i + 1
        };
        let j0 = if j < k {
            j
        } else {
            j + 1
        };
        assert(m2.opens[i] == m1.opens[i0]);
        assert(m2.opens[j] == m1.opens[j0]);
    }
}

proof fn lemma_opens_ok_update(m1: PoolModel, m2: PoolModel, k: int, p: PendingOpen)
    requires
        opens_ok(m1),
        0 <= k < m1.opens.len(),
        m2.opens == m1.opens.update(k, p),
        p.open_id == m1.opens[k].open_id,
        m2.next_open_id >= m1.next_open_id,
    ensures
        opens_ok(m2),
{
    assert forall|i: int| 0 <= i < m2.opens.len() implies (#[trigger] m2.opens[i]).open_id
        < m2.next_open_id by {
        if i != k {
            assert(m2.opens[i] == m1.opens[i]);
        }
    }
    assert forall|i: int, j: int| 0 <= i < j < m2.opens.len() implies (
    #[trigger] m2.opens[i]).open_id != (#[trigger] m2.opens[j]).open_id by {
        if i != k {
            assert(m2.opens[i] == m1.opens[i]);
        }
        if j != k {
            assert(m2.opens[j] == m1.opens[j]);
        }
    }
}

/// The connection pool. See the crate documentation for the checkout
/// discipline and the ticket protocol.
pub struct Pool {
    cfg: PoolConfig,
    slots: Vec<Slot>,
    queue: Vec<WaitTicket>,
    opens: Vec<PendingOpen>,
    mode: Mode,
    warmed: bool,
    degraded: bool,
    clock: u64,
    next_conn_id: u64,
    next_lease_id: u64,
    next_ticket_id: u64,
    next_open_id: u64,
    next_probe_id: u64,
}

impl View for Pool {
    type V = PoolModel;

    closed spec fn view(&self) -> PoolModel {
        PoolModel {
            cfg: self.cfg,
            slots: self.slots@,
            queue: self.queue@,
            opens: self.opens@,
            mode: self.mode,
            warmed: self.warmed,
            degraded: self.degraded,
            clock: self.clock,
            next_conn_id: self.next_conn_id,
            next_lease_id: self.next_lease_id,
            next_ticket_id: self.next_ticket_id,
            next_open_id: self.next_open_id,
            next_probe_id: self.next_probe_id,
        }
    }
}

impl Pool {
    /// The pool's invariant, as callers state it.
    pub open spec fn wf(self) -> bool {
        inv(self@)
    }

    /// A new, empty pool. Warm-up has completed trivially when the floor is
    /// zero; otherwise call [`Pool::warmup`] to start opening the floor.
    pub fn new(cfg: PoolConfig, now: u64) -> (r: Pool)
        requires
            cfg.wf(),
        ensures
            r.wf(),
            r@.cfg == cfg,
            r@.slots.len() == 0,
            r@.queue.len() == 0,
            r@.opens.len() == 0,
            r@.mode is Running,
            r@.warmed == (cfg.min_connections == 0),
            !r@.degraded,
            r@.clock == now,
            r@.next_conn_id == 0,
            r@.next_lease_id == 0,
            r@.next_ticket_id == 0,
            r@.next_open_id == 0,
            r@.next_probe_id == 0,
    {
        Pool {
            cfg,
            slots: Vec::new(),
            queue: Vec::new(),
            opens: Vec::new(),
            mode: Mode::Running,
            warmed: cfg.min_connections == 0,
            degraded: false,
            clock: now,
            next_conn_id: 0,
            next_lease_id: 0,
            next_ticket_id: 0,
            next_open_id: 0,
            next_probe_id: 0,
        }
    }

    /// The configuration the pool was created with.
    pub fn config(&self) -> (r: PoolConfig)
        ensures
            r == self@.cfg,
    {
        self.cfg
    }

    /// The pool's lifecycle state.
    pub fn mode(&self) -> (r: Mode)
        ensures
            r == self@.mode,
    {
        self.mode
    }

    /// Observability counters; exact at every instant, failure paths
    /// included, since they are computed from the state itself.
    pub fn stats(&self) -> (r: PoolStats)
        requires
            self.wf(),
        ensures
            r.total == self@.slots.len(),
            r.idle == idle_count(self@.slots),
            r.in_use == in_use_count(self@.slots),
            r.waiting == self@.queue.len(),
    {
        let ghost gslots = self.slots@;
        let mut idle: usize = 0;
        let mut in_use: usize = 0;
        let mut i: usize = 0;
        proof {
            assert(gslots.take(0) =~= Seq::<Slot>::empty());
        }
        while i < self.slots.len()
            invariant
                0 <= i <= gslots.len(),
                self.slots@ == gslots,
                idle == idle_count(gslots.take(i as int)),
                in_use == in_use_count(gslots.take(i as int)),
                idle + in_use <= i,
            decreases gslots.len() - i,
        {
            let s = self.slots[i];
            proof {
                crate::counting::lemma_count_take_step(gslots, |s: Slot| is_idle(s), i as int);
                crate::counting::lemma_count_take_step(gslots, |s: Slot| is_in_use(s), i as int);
            }
            match s.state {
                SlotState::Idle => {
                    idle = idle + 1;
                },
                SlotState::InUse { .. } => {
                    in_use = in_use + 1;
                },
                SlotState::Validating { .. } => {},
            }
            i = i + 1;
        }
        proof {
            crate::counting::lemma_count_take_all(gslots, |s: Slot| is_idle(s));
            crate::counting::lemma_count_take_all(gslots, |s: Slot| is_in_use(s));
        }
        PoolStats { total: self.slots.len(), idle, in_use, waiting: self.queue.len() }
    }

    /// One acquisition step. In order of preference: check out the first idle
    /// connection (probing it first if stale), ask the caller to open a new
    /// one while there is room, or join the FIFO wait queue. Fails with
    /// `PoolClosed` during and after shutdown.
    pub fn acquire(&mut self, now: u64) -> (r: AcquireOutcome)
        requires
            old(self).wf(),
            now >= old(self)@.clock,
            ids_available(old(self)@),
            now + old(self)@.cfg.acquire_timeout_ms <= u64::MAX,
        ensures
            final(self).wf(),
            final(self)@.cfg == old(self)@.cfg,
            final(self)@.mode == old(self)@.mode,
            final(self)@.warmed == old(self)@.warmed,
            final(self)@.degraded == old(self)@.degraded,
            final(self)@.next_conn_id == old(self)@.next_conn_id,
            ({
                let m1 = old(self)@;
                let m2 = final(self)@;
                match r {
                    AcquireOutcome::Failed(e) => {
                        &&& e == PoolError::PoolClosed
                        &&& m1.mode !is Running
                        &&& m2 == m1
                    },
                    AcquireOutcome::Granted(lease) => {
                        &&& m1.mode is Running
                        &&& lease.lease_id == m1.next_lease_id
                        &&& exists|k: int|
                            #[trigger] first_idle_at(m1.slots, k) && !is_stale(
                                m1.slots[k],
                                now,
                                m1.cfg,
                            ) && lease.conn_id == m1.slots[k].conn_id && m2.slots
                                == m1.slots.update(
                                k,
                                Slot {
                                    state: SlotState::InUse { lease_id: lease.lease_id },
                                    last_used: now,
                                    ..m1.slots[k]
                                },
                            )
                        &&& m2.queue == m1.queue
                        &&& m2.opens == m1.opens
                        &&& m2.next_lease_id == m1.next_lease_id + 1
                        &&& m2.next_ticket_id == m1.next_ticket_id
                        &&& m2.next_open_id == m1.next_open_id
                        &&& m2.next_probe_id == m1.next_probe_id
                        &&& m2.clock == now
                    },
                    AcquireOutcome::MustValidate(p) => {
                        &&& m1.mode is Running
                        &&& p.probe_id == m1.next_probe_id
                        &&& exists|k: int|
                            #[trigger] first_idle_at(m1.slots, k) && is_stale(
                                m1.slots[k],
                                now,
                                m1.cfg,
                            ) && p.conn_id == m1.slots[k].conn_id && m2.slots == m1.slots.update(
                                k,
                                Slot {
                                    state: SlotState::Validating { probe_id: p.probe_id },
                                    ..m1.slots[k]
                                },
                            )
                        &&& m2.queue == m1.queue
                        &&& m2.opens == m1.opens
                        &&& m2.next_lease_id == m1.next_lease_id
                        &&& m2.next_ticket_id == m1.next_ticket_id
                        &&& m2.next_open_id == m1.next_open_id
                        &&& m2.next_probe_id == m1.next_probe_id + 1
                        &&& m2.clock == now
                    },
                    AcquireOutcome::MustOpen(t) => {
                        &&& m1.mode is Running
                        &&& no_idle(m1.slots)
                        &&& m1.slots.len() + m1.opens.len() < m1.cfg.max_connections
                        &&& t.open_id == m1.next_open_id
                        &&& m2.opens == m1.opens.push(
                            PendingOpen {
                                open_id: t.open_id,
                                purpose: OpenPurpose::ForCaller { after_validation: false },
                                retries_left: m1.cfg.max_retries,
                            },
                        )
                        &&& m2.slots == m1.slots
                        &&& m2.queue == m1.queue
                        &&& m2.next_lease_id == m1.next_lease_id
                        &&& m2.next_ticket_id == m1.next_ticket_id
                        &&& m2.next_open_id == m1.next_open_id + 1
                        &&& m2.next_probe_id == m1.next_probe_id
                        &&& m2.clock == now
                    },
                    AcquireOutcome::Enqueued(w) => {
                        &&& m1.mode is Running
                        &&& no_idle(m1.slots)
                        &&& m1.slots.len() + m1.opens.len() >= m1.cfg.max_connections
                        &&& w.ticket_id == m1.next_ticket_id
                        &&& w.enqueued_at == now
                        &&& w.deadline == (if m1.cfg.acquire_timeout_ms == 0 {
                            Option::<u64>::None
                        } else {
                            Option::Some((now + m1.cfg.acquire_timeout_ms) as u64)
                        })
                        &&& m2.queue == m1.queue.push(w)
                        &&& m2.slots == m1.slots
                        &&& m2.opens == m1.opens
                        &&& m2.next_lease_id == m1.next_lease_id
                        &&& m2.next_ticket_id == m1.next_ticket_id + 1
                        &&& m2.next_open_id == m1.next_open_id
                        &&& m2.next_probe_id == m1.next_probe_id
                        &&& m2.clock == now
                    },
                }
            }),
    {
        if !matches!(self.mode, Mode::Running) {
            return AcquireOutcome::Failed(PoolError::PoolClosed);
        }
        let mut idle_at: Option<usize> = None;
        let mut i: usize = 0;
        let n = self.slots.len();
        while i < n
            invariant
                *self == *old(self),
                n == self.slots@.len(),
                0 <= i <= n,
                match idle_at {
                    Option::None => forall|m: int| 0 <= m < i ==> !is_idle(#[trigger] self.slots@[m]),
                    Option::Some(k) => k < i && first_idle_at(self.slots@, k as int),
                },
            decreases n - i,
        {
            if idle_at.is_none() {
                if matches!(self.slots[i].state, SlotState::Idle) {
                    idle_at = Some(i);
                }
            }
            i = i + 1;
        }
        match idle_at {
            Some(k) => {
                let s = self.slots[k];
                proof {
                    assert(slot_bounded(old(self)@, old(self)@.slots[k as int]));
                }
                let stale = match self.cfg.validation_interval_ms {
                    Some(v) => now - s.last_used > v,
                    None => false,
                };
                if stale {
                    let pid = self.next_probe_id;
                    self.next_probe_id = pid + 1;
                    self.slots[k] = Slot { state: SlotState::Validating { probe_id: pid }, ..s };
                    self.clock = now;
                    proof {
                        let m1 = old(self)@;
                        let m2 = self@;
                        lemma_slots_ok_update(
                            m1,
                            m2,
                            k as int,
                            Slot { state: SlotState::Validating { probe_id: pid }, ..s },
                        );
                        lemma_queue_ok_frame(m1, m2);
                        lemma_opens_ok_frame(m1, m2);
                        assert(first_idle_at(m1.slots, k as int));
                    }
                    AcquireOutcome::MustValidate(ProbeTicket { probe_id: pid, conn_id: s.conn_id })
                } else {
                    let lid = self.next_lease_id;
                    self.next_lease_id = lid + 1;
                    self.slots[k] = Slot {
                        state: SlotState::InUse { lease_id: lid },
                        last_used: now,
                        ..s
                    };
                    self.clock = now;
                    proof {
                        let m1 = old(self)@;
                        let m2 = self@;
                        lemma_slots_ok_update(
                            m1,
                            m2,
                            k as int,
                            Slot { state: SlotState::InUse { lease_id: lid }, last_used: now, ..s },
                        );
                        lemma_queue_ok_frame(m1, m2);
                        lemma_opens_ok_frame(m1, m2);
                        assert(first_idle_at(m1.slots, k as int));
                    }
                    AcquireOutcome::Granted(Lease { lease_id: lid, conn_id: s.conn_id })
                }
            },
            None => {
                if self.slots.len() + self.opens.len() < self.cfg.max_connections {
                    let oid = self.next_open_id;
                    self.next_open_id = oid + 1;
                    self.opens.push(
                        PendingOpen {
                            open_id: oid,
                            purpose: OpenPurpose::ForCaller { after_validation: false },
                            retries_left: self.cfg.max_retries,
                        },
                    );
                    self.clock = now;
                    proof {
                        let m1 = old(self)@;
                        let m2 = self@;
                        lemma_slots_ok_frame(m1, m2);
                        lemma_queue_ok_frame(m1, m2);
                        lemma_opens_ok_push(
                            m1,
                            m2,
                            PendingOpen {
                                open_id: oid,
                                purpose: OpenPurpose::ForCaller { after_validation: false },
                                retries_left: self.cfg.max_retries,
                            },
                        );
                    }
                    AcquireOutcome::MustOpen(OpenTicket { open_id: oid })
                } else {
                    let tid = self.next_ticket_id;
                    self.next_ticket_id = tid + 1;
                    let deadline = if self.cfg.acquire_timeout_ms == 0 {
                        None
                    } else {
                        Some(now + self.cfg.acquire_timeout_ms)
                    };
                    let w = WaitTicket { ticket_id: tid, enqueued_at: now, deadline };
                    self.queue.push(w);
                    self.clock = now;
                    proof {
                        let m1 = old(self)@;
                        let m2 = self@;
                        lemma_slots_ok_frame(m1, m2);
                        lemma_queue_ok_push(m1, m2, w);
                        lemma_opens_ok_frame(m1, m2);
                    }
                    AcquireOutcome::Enqueued(w)
                }
            },
        }
    }

    /// Check a leased connection back in, with its health as the caller last
    /// observed it. A healthy connection goes to the oldest waiter if any,
    /// else back to idle; a broken one is disposed of, never handed to a
    /// waiter, and a replacement open is scheduled when the warm floor or the
    /// queue needs it. During shutdown every released connection is disposed
    /// of. A lease that no slot backs (already released, or the pool fully
    /// closed) yields `DoubleRelease` and changes nothing.
    pub fn release(&mut self, lease: &Lease, health: Health, now: u64) -> (r: Result<
        ReleaseAction,
        PoolError,
    >)
        requires
            old(self).wf(),
            now >= old(self)@.clock,
            ids_available(old(self)@),
        ensures
            final(self).wf(),
            final(self)@.cfg == old(self)@.cfg,
            final(self)@.mode == old(self)@.mode,
            final(self)@.warmed == old(self)@.warmed,
            final(self)@.degraded == old(self)@.degraded,
            final(self)@.next_conn_id == old(self)@.next_conn_id,
            final(self)@.next_ticket_id == old(self)@.next_ticket_id,
            final(self)@.next_probe_id == old(self)@.next_probe_id,
            ({
                let m1 = old(self)@;
                let m2 = final(self)@;
                match r {
                    Err(e) => {
                        &&& e == PoolError::DoubleRelease
                        &&& !has_lease(m1, *lease)
                        &&& m2 == m1
                    },
                    Ok(ReleaseAction::Returned { conn_id }) => {
                        &&& health !is Broken
                        &&& m1.mode is Running
                        &&& m1.queue.len() == 0
                        &&& conn_id == lease.conn_id
                        &&& exists|k: int|
                            0 <= k < m1.slots.len() && slot_matches_lease(
                                #[trigger] m1.slots[k],
                                *lease,
                            ) && m2.slots == m1.slots.update(
                                k,
                                Slot {
                                    state: SlotState::Idle,
                                    last_used: now,
                                    health: health,
                                    ..m1.slots[k]
                                },
                            )
                        &&& m2.queue == m1.queue
                        &&& m2.opens == m1.opens
                        &&& m2.next_lease_id == m1.next_lease_id
                        &&& m2.next_open_id == m1.next_open_id
                        &&& m2.clock == now
                    },
                    Ok(ReleaseAction::HandedOff { ticket_id, lease: granted }) => {
                        &&& health !is Broken
                        &&& m1.mode is Running
                        &&& m1.queue.len() > 0
                        &&& ticket_id == m1.queue[0].ticket_id
                        &&& granted.lease_id == m1.next_lease_id
                        &&& granted.conn_id == lease.conn_id
                        &&& exists|k: int|
                            0 <= k < m1.slots.len() && slot_matches_lease(
                                #[trigger] m1.slots[k],
                                *lease,
                            ) && m2.slots == m1.slots.update(
                                k,
                                Slot {
                                    state: SlotState::InUse { lease_id: granted.lease_id },
                                    last_used: now,
                                    health: health,
                                    ..m1.slots[k]
                                },
                            )
                        &&& m2.queue == m1.queue.drop_first()
                        &&& m2.opens == m1.opens
                        &&& m2.next_lease_id == m1.next_lease_id + 1
                        &&& m2.next_open_id == m1.next_open_id
                        &&& m2.clock == now
                    },
                    Ok(ReleaseAction::Disposed { conn_id }) => {
                        &&& (health is Broken || m1.mode !is Running)
                        &&& conn_id == lease.conn_id
                        &&& exists|k: int|
                            0 <= k < m1.slots.len() && slot_matches_lease(
                                #[trigger] m1.slots[k],
                                *lease,
                            ) && m2.slots == m1.slots.remove(k)
                        &&& (m1.mode is Running ==> m1.queue.len() == 0 && m1.slots.len() - 1
                            + m1.opens.len() >= m1.cfg.min_connections)
                        &&& m2.queue == m1.queue
                        &&& m2.opens == m1.opens
                        &&& m2.next_lease_id == m1.next_lease_id
                        &&& m2.next_open_id == m1.next_open_id
                        &&& m2.clock == now
                    },
                    Ok(ReleaseAction::DisposedScheduleOpen { conn_id, open }) => {
                        &&& health is Broken
                        &&& m1.mode is Running
                        &&& conn_id == lease.conn_id
                        &&& (m1.queue.len() > 0 || m1.slots.len() - 1 + m1.opens.len()
                            < m1.cfg.min_connections)
                        &&& open.open_id == m1.next_open_id
                        &&& exists|k: int|
                            0 <= k < m1.slots.len() && slot_matches_lease(
                                #[trigger] m1.slots[k],
                                *lease,
                            ) && m2.slots == m1.slots.remove(k)
                        &&& m2.queue == m1.queue
                        &&& m2.opens == m1.opens.push(
                            PendingOpen {
                                open_id: open.open_id,
                                purpose: OpenPurpose::Replacement,
                                retries_left: m1.cfg.max_retries,
                            },
                        )
                        &&& m2.next_lease_id == m1.next_lease_id
                        &&& m2.next_open_id == m1.next_open_id + 1
                        &&& m2.clock == now
                    },
                }
            }),
    {
        let mut found: Option<usize> = None;
        let mut i: usize = 0;
        let n = self.slots.len();
        while i < n
            invariant
                *self == *old(self),
                n == self.slots@.len(),
                0 <= i <= n,
                match found {
                    Option::None => forall|m: int|
                        0 <= m < i ==> !slot_matches_lease(#[trigger] self.slots@[m], *lease),
                    Option::Some(k) => k < n && slot_matches_lease(self.slots@[k as int], *lease),
                },
            decreases n - i,
        {
            if found.is_none() {
                let s = self.slots[i];
                if s.conn_id == lease.conn_id {
                    match s.state {
                        SlotState::InUse { lease_id } => {
                            if lease_id == lease.lease_id {
                                found = Some(i);
                            }
                        },
                        _ => {},
                    }
                }
            }
            i = i + 1;
        }
        match found {
            None => Err(PoolError::DoubleRelease),
            Some(k) => {
                let s = self.slots[k];
                proof {
                    assert(slot_bounded(old(self)@, old(self)@.slots[k as int]));
                }
                let broken = matches!(health, Health::Broken);
                let running = matches!(self.mode, Mode::Running);
                if broken || !running {
                    let _removed = self.slots.remove(k);
                    let need = running && (self.queue.len() > 0 || self.slots.len()
                        + self.opens.len() < self.cfg.min_connections);
                    if need {
                        let oid = self.next_open_id;
                        self.next_open_id = oid + 1;
                        self.opens.push(
                            PendingOpen {
                                open_id: oid,
                                purpose: OpenPurpose::Replacement,
                                retries_left: self.cfg.max_retries,
                            },
                        );
                        self.clock = now;
                        proof {
                            let m1 = old(self)@;
                            let m2 = self@;
                            lemma_slots_ok_remove(m1, m2, k as int);
                            lemma_queue_ok_frame(m1, m2);
                            lemma_opens_ok_push(
                                m1,
                                m2,
                                PendingOpen {
                                    open_id: oid,
                                    purpose: OpenPurpose::Replacement,
                                    retries_left: self.cfg.max_retries,
                                },
                            );
                        }
                        Ok(
                            ReleaseAction::DisposedScheduleOpen {
                                conn_id: lease.conn_id,
                                open: OpenTicket { open_id: oid },
                            },
                        )
                    } else {
                        self.clock = now;
                        proof {
                            let m1 = old(self)@;
                            let m2 = self@;
                            lemma_slots_ok_remove(m1, m2, k as int);
                            lemma_queue_ok_frame(m1, m2);
                            lemma_opens_ok_frame(m1, m2);
                        }
                        Ok(ReleaseAction::Disposed { conn_id: lease.conn_id })
                    }
                } else {
                    if self.queue.len() > 0 {
                        let w = self.queue.remove(0);
                        let lid = self.next_lease_id;
                        self.next_lease_id = lid + 1;
                        self.slots[k] = Slot {
                            state: SlotState::InUse { lease_id: lid },
                            last_used: now,
                            health: health,
                            ..s
                        };
                        self.clock = now;
                        proof {
                            let m1 = old(self)@;
                            let m2 = self@;
                            lemma_slots_ok_update(
                                m1,
                                m2,
                                k as int,
                                Slot {
                                    state: SlotState::InUse { lease_id: lid },
                                    last_used: now,
                                    health: health,
                                    ..s
                                },
                            );
                            lemma_queue_ok_remove(m1, m2, 0);
                            lemma_opens_ok_frame(m1, m2);
                            assert(m1.queue.remove(0) =~= m1.queue.drop_first());
                        }
                        Ok(
                            ReleaseAction::HandedOff {
                                ticket_id: w.ticket_id,
                                lease: Lease { lease_id: lid, conn_id: lease.conn_id },
                            },
                        )
                    } else {
                        self.slots[k] = Slot {
                            state: SlotState::Idle,
                            last_used: now,
                            health: health,
                            ..s
                        };
                        self.clock = now;
                        proof {
                            let m1 = old(self)@;
                            let m2 = self@;
                            lemma_slots_ok_update(
                                m1,
                                m2,
                                k as int,
                                Slot {
                                    state: SlotState::Idle,
                                    last_used: now,
                                    health: health,
                                    ..s
                                },
                            );
                            lemma_queue_ok_frame(m1, m2);
                            lemma_opens_ok_frame(m1, m2);
                        }
                        Ok(ReleaseAction::Returned { conn_id: lease.conn_id })
                    }
                }
            },
        }
    }

    /// Report the outcome of the open that `ticket` asked for. A successful
    /// open becomes a live connection: checked out to the acquirer that
    /// triggered it, or — for a background replacement — handed to the oldest
    /// waiter, else pooled idle. A failed open is retried while budget
    /// remains, then surfaced. A ticket the pool no longer tracks (shutdown
    /// cleared it) resolves to `PoolClosed`.
    pub fn finish_open(&mut self, ticket: OpenTicket, opened_ok: bool, now: u64) -> (r:
        OpenResolution)
        requires
            old(self).wf(),
            now >= old(self)@.clock,
            ids_available(old(self)@),
        ensures
            final(self).wf(),
            final(self)@.cfg == old(self)@.cfg,
            final(self)@.mode == old(self)@.mode,
            final(self)@.next_ticket_id == old(self)@.next_ticket_id,
            final(self)@.next_probe_id == old(self)@.next_probe_id,
            final(self)@.next_open_id == old(self)@.next_open_id,
            ({
                let m1 = old(self)@;
                let m2 = final(self)@;
                match r {
                    OpenResolution::Granted(l) => {
                        &&& m1.mode is Running
                        &&& opened_ok
                        &&& l.conn_id == m1.next_conn_id
                        &&& l.lease_id == m1.next_lease_id
                        &&& exists|i: int|
                            0 <= i < m1.opens.len() && (#[trigger] m1.opens[i]).open_id
                                == ticket.open_id && m1.opens[i].purpose is ForCaller && m2.opens
                                == m1.opens.remove(i)
                        &&& m2.slots == m1.slots.push(
                            Slot {
                                conn_id: l.conn_id,
                                created_at: now,
                                last_used: now,
                                health: Health::Healthy,
                                state: SlotState::InUse { lease_id: l.lease_id },
                            },
                        )
                        &&& m2.queue == m1.queue
                        &&& m2.next_conn_id == m1.next_conn_id + 1
                        &&& m2.next_lease_id == m1.next_lease_id + 1
                        &&& m2.warmed == (m1.warmed || m1.slots.len() + 1
                            >= m1.cfg.min_connections)
                        &&& m2.degraded == (m1.degraded && m1.slots.len() + m1.opens.len()
                            < m1.cfg.min_connections)
                        &&& m2.clock == now
                    },
                    OpenResolution::Pooled { conn_id } => {
                        &&& m1.mode is Running
                        &&& opened_ok
                        &&& m1.queue.len() == 0
                        &&& conn_id == m1.next_conn_id
                        &&& exists|i: int|
                            0 <= i < m1.opens.len() && (#[trigger] m1.opens[i]).open_id
                                == ticket.open_id && m1.opens[i].purpose is Replacement
                                && m2.opens == m1.opens.remove(i)
                        &&& m2.slots == m1.slots.push(
                            Slot {
                                conn_id: conn_id,
                                created_at: now,
                                last_used: now,
                                health: Health::Healthy,
                                state: SlotState::Idle,
                            },
                        )
                        &&& m2.queue == m1.queue
                        &&& m2.next_conn_id == m1.next_conn_id + 1
                        &&& m2.next_lease_id == m1.next_lease_id
                        &&& m2.warmed == (m1.warmed || m1.slots.len() + 1
                            >= m1.cfg.min_connections)
                        &&& m2.degraded == (m1.degraded && m1.slots.len() + m1.opens.len()
                            < m1.cfg.min_connections)
                        &&& m2.clock == now
                    },
                    OpenResolution::HandedOff { ticket_id, lease: l } => {
                        &&& m1.mode is Running
                        &&& opened_ok
                        &&& m1.queue.len() > 0
                        &&& ticket_id == m1.queue[0].ticket_id
                        &&& l.conn_id == m1.next_conn_id
                        &&& l.lease_id == m1.next_lease_id
                        &&& exists|i: int|
                            0 <= i < m1.opens.len() && (#[trigger] m1.opens[i]).open_id
                                == ticket.open_id && m1.opens[i].purpose is Replacement
                                && m2.opens == m1.opens.remove(i)
                        &&& m2.slots == m1.slots.push(
                            Slot {
                                conn_id: l.conn_id,
                                created_at: now,
                                last_used: now,
                                health: Health::Healthy,
                                state: SlotState::InUse { lease_id: l.lease_id },
                            },
                        )
                        &&& m2.queue == m1.queue.drop_first()
                        &&& m2.next_conn_id == m1.next_conn_id + 1
                        &&& m2.next_lease_id == m1.next_lease_id + 1
                        &&& m2.warmed == (m1.warmed || m1.slots.len() + 1
                            >= m1.cfg.min_connections)
                        &&& m2.degraded == (m1.degraded && m1.slots.len() + m1.opens.len()
                            < m1.cfg.min_connections)
                        &&& m2.clock == now
                    },
                    OpenResolution::Retry(t2) => {
                        &&& m1.mode is Running
                        &&& !opened_ok
                        &&& t2.open_id == ticket.open_id
                        &&& exists|i: int|
                            0 <= i < m1.opens.len() && (#[trigger] m1.opens[i]).open_id
                                == ticket.open_id && m1.opens[i].retries_left > 0 && m2.opens
                                == m1.opens.update(
                                i,
                                PendingOpen {
                                    retries_left: (m1.opens[i].retries_left - 1) as u64,
                                    ..m1.opens[i]
                                },
                            )
                        &&& m2.slots == m1.slots
                        &&& m2.queue == m1.queue
                        &&& m2.next_conn_id == m1.next_conn_id
                        &&& m2.next_lease_id == m1.next_lease_id
                        &&& m2.warmed == m1.warmed
                        &&& m2.degraded == m1.degraded
                        &&& m2.clock == now
                    },
                    OpenResolution::Failed(e) => {
                        ||| {
                            &&& e == PoolError::PoolClosed
                            &&& !has_open(m1, ticket.open_id)
                            &&& m2 == m1
                        }
                        ||| {
                            &&& m1.mode is Running
                            &&& !opened_ok
                            &&& exists|i: int|
                                0 <= i < m1.opens.len() && (#[trigger] m1.opens[i]).open_id
                                    == ticket.open_id && m1.opens[i].retries_left == 0 && e
                                    == surfaced_error(m1.opens[i].purpose) && m2.opens
                                    == m1.opens.remove(i)
                            &&& m2.slots == m1.slots
                            &&& m2.queue == m1.queue
                            &&& m2.next_conn_id == m1.next_conn_id
                            &&& m2.next_lease_id == m1.next_lease_id
                            &&& m2.warmed == m1.warmed
                            &&& m2.degraded == (m1.degraded || (m1.warmed && m1.slots.len()
                                + m1.opens.len() - 1 < m1.cfg.min_connections))
                            &&& m2.clock == now
                        }
                    },
                }
            }),
    {
        let mut found: Option<usize> = None;
        let mut i: usize = 0;
        let n = self.opens.len();
        while i < n
            invariant
                *self == *old(self),
                n == self.opens@.len(),
                0 <= i <= n,
                match found {
                    Option::None => forall|m: int|
                        0 <= m < i ==> (#[trigger] self.opens@[m]).open_id != ticket.open_id,
                    Option::Some(k) => k < n && self.opens@[k as int].open_id == ticket.open_id,
                },
            decreases n - i,
        {
            if found.is_none() {
                if self.opens[i].open_id == ticket.open_id {
                    found = Some(i);
                }
            }
            i = i + 1;
        }
        match found {
            None => OpenResolution::Failed(PoolError::PoolClosed),
            Some(idx) => {
                let p = self.opens[idx];
                proof {
                    assert(old(self)@.mode is Running);
                }
                if opened_ok {
                    let _removed = self.opens.remove(idx);
                    let cid = self.next_conn_id;
                    self.next_conn_id = cid + 1;
                    match p.purpose {
                        OpenPurpose::ForCaller { .. } => {
                            let lid = self.next_lease_id;
                            self.next_lease_id = lid + 1;
                            self.slots.push(
                                Slot {
                                    conn_id: cid,
                                    created_at: now,
                                    last_used: now,
                                    health: Health::Healthy,
                                    state: SlotState::InUse { lease_id: lid },
                                },
                            );
                            if self.slots.len() >= self.cfg.min_connections {
                                self.warmed = true;
                            }
                            if self.slots.len() + self.opens.len() >= self.cfg.min_connections {
                                self.degraded = false;
                            }
                            self.clock = now;
                            proof {
                                let m1 = old(self)@;
                                let m2 = self@;
                                lemma_slots_ok_push(
                                    m1,
                                    m2,
                                    Slot {
                                        conn_id: cid,
                                        created_at: now,
                                        last_used: now,
                                        health: Health::Healthy,
                                        state: SlotState::InUse { lease_id: lid },
                                    },
                                );
                                lemma_queue_ok_frame(m1, m2);
                                lemma_opens_ok_remove(m1, m2, idx as int);
                            }
                            OpenResolution::Granted(Lease { lease_id: lid, conn_id: cid })
                        },
                        OpenPurpose::Replacement => {
                            if self.queue.len() > 0 {
                                let w = self.queue.remove(0);
                                let lid = self.next_lease_id;
                                self.next_lease_id = lid + 1;
                                self.slots.push(
                                    Slot {
                                        conn_id: cid,
                                        created_at: now,
                                        last_used: now,
                                        health: Health::Healthy,
                                        state: SlotState::InUse { lease_id: lid },
                                    },
                                );
                                if self.slots.len() >= self.cfg.min_connections {
                                    self.warmed = true;
                                }
                                if self.slots.len() + self.opens.len()
                                    >= self.cfg.min_connections {
                                    self.degraded = false;
                                }
                                self.clock = now;
                                proof {
                                    let m1 = old(self)@;
                                    let m2 = self@;
                                    lemma_slots_ok_push(
                                        m1,
                                        m2,
                                        Slot {
                                            conn_id: cid,
                                            created_at: now,
                                            last_used: now,
                                            health: Health::Healthy,
                                            state: SlotState::InUse { lease_id: lid },
                                        },
                                    );
                                    lemma_queue_ok_remove(m1, m2, 0);
                                    lemma_opens_ok_remove(m1, m2, idx as int);
                                    assert(m1.queue.remove(0) =~= m1.queue.drop_first());
                                }
                                OpenResolution::HandedOff {
                                    ticket_id: w.ticket_id,
                                    lease: Lease { lease_id: lid, conn_id: cid },
                                }
                            } else {
                                self.slots.push(
                                    Slot {
                                        conn_id: cid,
                                        created_at: now,
                                        last_used: now,
                                        health: Health::Healthy,
                                        state: SlotState::Idle,
                                    },
                                );
                                if self.slots.len() >= self.cfg.min_connections {
                                    self.warmed = true;
                                }
                                if self.slots.len() + self.opens.len()
                                    >= self.cfg.min_connections {
                                    self.degraded = false;
                                }
                                self.clock = now;
                                proof {
                                    let m1 = old(self)@;
                                    let m2 = self@;
                                    lemma_slots_ok_push(
                                        m1,
                                        m2,
                                        Slot {
                                            conn_id: cid,
                                            created_at: now,
                                            last_used: now,
                                            health: Health::Healthy,
                                            state: SlotState::Idle,
                                        },
                                    );
                                    lemma_queue_ok_frame(m1, m2);
                                    lemma_opens_ok_remove(m1, m2, idx as int);
                                }
                                OpenResolution::Pooled { conn_id: cid }
                            }
                        },
                    }
                } else {
                    if p.retries_left > 0 {
                        self.opens[idx] = PendingOpen {
                            open_id: p.open_id,
                            purpose: p.purpose,
                            retries_left: p.retries_left - 1,
                        };
                        self.clock = now;
                        proof {
                            let m1 = old(self)@;
                            let m2 = self@;
                            lemma_slots_ok_frame(m1, m2);
                            lemma_queue_ok_frame(m1, m2);
                            lemma_opens_ok_update(
                                m1,
                                m2,
                                idx as int,
                                PendingOpen {
                                    open_id: p.open_id,
                                    purpose: p.purpose,
                                    retries_left: (p.retries_left - 1) as u64,
                                },
                            );
                        }
                        OpenResolution::Retry(ticket)
                    } else {
                        let _removed = self.opens.remove(idx);
                        if self.warmed && self.slots.len() + self.opens.len()
                            < self.cfg.min_connections {
                            self.degraded = true;
                        }
                        self.clock = now;
                        proof {
                            let m1 = old(self)@;
                            let m2 = self@;
                            lemma_slots_ok_frame(m1, m2);
                            lemma_queue_ok_frame(m1, m2);
                            lemma_opens_ok_remove(m1, m2, idx as int);
                        }
                        let e = match p.purpose {
                            OpenPurpose::ForCaller { after_validation } => if after_validation {
                                PoolError::ExhaustedRetries
                            } else {
                                PoolError::OpenFailed
                            },
                            OpenPurpose::Replacement => PoolError::OpenFailed,
                        };
                        OpenResolution::Failed(e)
                    }
                }
            },
        }
    }

    /// Report the outcome of the checkout probe that `ticket` asked for. A
    /// healthy connection is checked out to the waiting acquirer; a broken
    /// one is disposed of and a fresh open for the same acquirer is scheduled
    /// in its place, counted against the ceiling. A probe the pool no longer
    /// tracks, or one resolved during shutdown, yields `PoolClosed`.
    pub fn finish_validate(&mut self, ticket: ProbeTicket, healthy: bool, now: u64) -> (r:
        ValidateResolution)
        requires
            old(self).wf(),
            now >= old(self)@.clock,
            ids_available(old(self)@),
        ensures
            final(self).wf(),
            final(self)@.cfg == old(self)@.cfg,
            final(self)@.mode == old(self)@.mode,
            final(self)@.warmed == old(self)@.warmed,
            final(self)@.degraded == old(self)@.degraded,
            final(self)@.next_conn_id == old(self)@.next_conn_id,
            final(self)@.next_ticket_id == old(self)@.next_ticket_id,
            final(self)@.next_probe_id == old(self)@.next_probe_id,
            ({
                let m1 = old(self)@;
                let m2 = final(self)@;
                match r {
                    ValidateResolution::Failed(e) => {
                        &&& e == PoolError::PoolClosed
                        &&& (m1.mode !is Running || !has_probe(m1, ticket.probe_id))
                        &&& m2 == m1
                    },
                    ValidateResolution::Granted(l) => {
                        &&& m1.mode is Running
                        &&& healthy
                        &&& l.lease_id == m1.next_lease_id
                        &&& exists|k: int|
                            0 <= k < m1.slots.len() && slot_matches_probe(
                                #[trigger] m1.slots[k],
                                ticket.probe_id,
                            ) && l.conn_id == m1.slots[k].conn_id && m2.slots == m1.slots.update(
                                k,
                                Slot {
                                    state: SlotState::InUse { lease_id: l.lease_id },
                                    last_used: now,
                                    health: Health::Healthy,
                                    ..m1.slots[k]
                                },
                            )
                        &&& m2.queue == m1.queue
                        &&& m2.opens == m1.opens
                        &&& m2.next_lease_id == m1.next_lease_id + 1
                        &&& m2.next_open_id == m1.next_open_id
                        &&& m2.clock == now
                    },
                    ValidateResolution::ReplaceThenGrant { closed_conn_id, open } => {
                        &&& m1.mode is Running
                        &&& !healthy
                        &&& open.open_id == m1.next_open_id
                        &&& exists|k: int|
                            0 <= k < m1.slots.len() && slot_matches_probe(
                                #[trigger] m1.slots[k],
                                ticket.probe_id,
                            ) && closed_conn_id == m1.slots[k].conn_id && m2.slots
                                == m1.slots.remove(k)
                        &&& m2.queue == m1.queue
                        &&& m2.opens == m1.opens.push(
                            PendingOpen {
                                open_id: open.open_id,
                                purpose: OpenPurpose::ForCaller { after_validation: true },
                                retries_left: m1.cfg.max_retries,
                            },
                        )
                        &&& m2.next_lease_id == m1.next_lease_id
                        &&& m2.next_open_id == m1.next_open_id + 1
                        &&& m2.clock == now
                    },
                }
            }),
    {
        if !matches!(self.mode, Mode::Running) {
            return ValidateResolution::Failed(PoolError::PoolClosed);
        }
        let mut found: Option<usize> = None;
        let mut i: usize = 0;
        let n = self.slots.len();
        while i < n
            invariant
                *self == *old(self),
                n == self.slots@.len(),
                0 <= i <= n,
                match found {
                    Option::None => forall|m: int|
                        0 <= m < i ==> !slot_matches_probe(
                            #[trigger] self.slots@[m],
                            ticket.probe_id,
                        ),
                    Option::Some(k) => k < n && slot_matches_probe(
                        self.slots@[k as int],
                        ticket.probe_id,
                    ),
                },
            decreases n - i,
        {
            if found.is_none() {
                match self.slots[i].state {
                    SlotState::Validating { probe_id } => {
                        if probe_id == ticket.probe_id {
                            found = Some(i);
                        }
                    },
                    _ => {},
                }
            }
            i = i + 1;
        }
        match found {
            None => ValidateResolution::Failed(PoolError::PoolClosed),
            Some(k) => {
                let s = self.slots[k];
                proof {
                    assert(slot_bounded(old(self)@, old(self)@.slots[k as int]));
                }
                if healthy {
                    let lid = self.next_lease_id;
                    self.next_lease_id = lid + 1;
                    self.slots[k] = Slot {
                        state: SlotState::InUse { lease_id: lid },
                        last_used: now,
                        health: Health::Healthy,
                        ..s
                    };
                    self.clock = now;
                    proof {
                        let m1 = old(self)@;
                        let m2 = self@;
                        lemma_slots_ok_update(
                            m1,
                            m2,
                            k as int,
                            Slot {
                                state: SlotState::InUse { lease_id: lid },
                                last_used: now,
                                health: Health::Healthy,
                                ..s
                            },
                        );
                        lemma_queue_ok_frame(m1, m2);
                        lemma_opens_ok_frame(m1, m2);
                    }
                    ValidateResolution::Granted(Lease { lease_id: lid, conn_id: s.conn_id })
                } else {
                    let _removed = self.slots.remove(k);
                    let oid = self.next_open_id;
                    self.next_open_id = oid + 1;
                    self.opens.push(
                        PendingOpen {
                            open_id: oid,
                            purpose: OpenPurpose::ForCaller { after_validation: true },
                            retries_left: self.cfg.max_retries,
                        },
                    );
                    self.clock = now;
                    proof {
                        let m1 = old(self)@;
                        let m2 = self@;
                        lemma_slots_ok_remove(m1, m2, k as int);
                        lemma_queue_ok_frame(m1, m2);
                        lemma_opens_ok_push(
                            m1,
                            m2,
                            PendingOpen {
                                open_id: oid,
                                purpose: OpenPurpose::ForCaller { after_validation: true },
                                retries_left: self.cfg.max_retries,
                            },
                        );
                    }
                    ValidateResolution::ReplaceThenGrant {
                        closed_conn_id: s.conn_id,
                        open: OpenTicket { open_id: oid },
                    }
                }
            },
        }
    }

    /// Resolve a waiter's deadline against the clock: if the ticket is still
    /// queued and its deadline has passed, it leaves the queue and the
    /// acquire fails with `AcquireTimeout` — exactly then. A ticket without a
    /// deadline waits forever.
    pub fn expire_wait(&mut self, ticket: &WaitTicket, now: u64) -> (r: Option<PoolError>)
        requires
            old(self).wf(),
            now >= old(self)@.clock,
        ensures
            final(self).wf(),
            final(self)@.cfg == old(self)@.cfg,
            final(self)@.mode == old(self)@.mode,
            final(self)@.warmed == old(self)@.warmed,
            final(self)@.degraded == old(self)@.degraded,
            final(self)@.slots == old(self)@.slots,
            final(self)@.opens == old(self)@.opens,
            final(self)@.next_conn_id == old(self)@.next_conn_id,
            final(self)@.next_lease_id == old(self)@.next_lease_id,
            final(self)@.next_ticket_id == old(self)@.next_ticket_id,
            final(self)@.next_open_id == old(self)@.next_open_id,
            final(self)@.next_probe_id == old(self)@.next_probe_id,
            ({
                let m1 = old(self)@;
                let m2 = final(self)@;
                match r {
                    Some(e) => {
                        &&& e == PoolError::AcquireTimeout
                        &&& exists|i: int|
                            0 <= i < m1.queue.len() && (#[trigger] m1.queue[i]).ticket_id
                                == ticket.ticket_id && (m1.queue[i].deadline matches Some(d) && now
                                >= d) && m2.queue == m1.queue.remove(i)
                        &&& m2.clock == now
                    },
                    None => {
                        &&& m2 == m1
                        &&& forall|i: int|
                            0 <= i < m1.queue.len() && (#[trigger] m1.queue[i]).ticket_id
                                == ticket.ticket_id ==> !(m1.queue[i].deadline matches Some(d)
                                && now >= d)
                    },
                }
            }),
    {
        let mut found: Option<usize> = None;
        let mut i: usize = 0;
        let n = self.queue.len();
        while i < n
            invariant
                *self == *old(self),
                n == self.queue@.len(),
                0 <= i <= n,
                match found {
                    Option::None => forall|m: int|
                        0 <= m < i ==> (#[trigger] self.queue@[m]).ticket_id != ticket.ticket_id,
                    Option::Some(k) => k < n && self.queue@[k as int].ticket_id
                        == ticket.ticket_id,
                },
            decreases n - i,
        {
            if found.is_none() {
                if self.queue[i].ticket_id == ticket.ticket_id {
                    found = Some(i);
                }
            }
            i = i + 1;
        }
        match found {
            None => None,
            Some(k) => {
                let expired = match self.queue[k].deadline {
                    Some(d) => now >= d,
                    None => false,
                };
                if expired {
                    let _removed = self.queue.remove(k);
                    self.clock = now;
                    proof {
                        let m1 = old(self)@;
                        let m2 = self@;
                        lemma_slots_ok_frame(m1, m2);
                        lemma_queue_ok_remove(m1, m2, k as int);
                        lemma_opens_ok_frame(m1, m2);
                    }
                    Some(PoolError::AcquireTimeout)
                } else {
                    proof {
                        let m1 = old(self)@;
                        assert forall|j: int|
                            0 <= j < m1.queue.len() && (#[trigger] m1.queue[j]).ticket_id
                                == ticket.ticket_id implies !(m1.queue[j].deadline matches Some(d)
                            && now >= d) by {
                            if j < k as int {
                            } else if j > k as int {
                                assert(m1.queue[k as int].ticket_id < m1.queue[j].ticket_id);
                            }
                        }
                    }
                    None
                }
            },
        }
    }

    /// Withdraw a waiter from the queue before it is served. Returns whether
    /// the ticket was still queued; when it was not, a hand-off has already
    /// happened (or the ticket expired), and a caller abandoning its acquire
    /// must release the lease it was granted. Safe to repeat.
    pub fn cancel_wait(&mut self, ticket: &WaitTicket) -> (r: bool)
        requires
            old(self).wf(),
        ensures
            final(self).wf(),
            final(self)@.cfg == old(self)@.cfg,
            final(self)@.mode == old(self)@.mode,
            final(self)@.warmed == old(self)@.warmed,
            final(self)@.degraded == old(self)@.degraded,
            final(self)@.slots == old(self)@.slots,
            final(self)@.opens == old(self)@.opens,
            final(self)@.clock == old(self)@.clock,
            final(self)@.next_conn_id == old(self)@.next_conn_id,
            final(self)@.next_lease_id == old(self)@.next_lease_id,
            final(self)@.next_ticket_id == old(self)@.next_ticket_id,
            final(self)@.next_open_id == old(self)@.next_open_id,
            final(self)@.next_probe_id == old(self)@.next_probe_id,
            ({
                let m1 = old(self)@;
                let m2 = final(self)@;
                if r {
                    exists|i: int|
                        0 <= i < m1.queue.len() && (#[trigger] m1.queue[i]).ticket_id
                            == ticket.ticket_id && m2.queue == m1.queue.remove(i)
                } else {
                    &&& m2 == m1
                    &&& forall|i: int|
                        0 <= i < m1.queue.len() ==> (#[trigger] m1.queue[i]).ticket_id
                            != ticket.ticket_id
                }
            }),
    {
        let mut found: Option<usize> = None;
        let mut i: usize = 0;
        let n = self.queue.len();
        while i < n
            invariant
                *self == *old(self),
                n == self.queue@.len(),
                0 <= i <= n,
                match found {
                    Option::None => forall|m: int|
                        0 <= m < i ==> (#[trigger] self.queue@[m]).ticket_id != ticket.ticket_id,
                    Option::Some(k) => k < n && self.queue@[k as int].ticket_id
                        == ticket.ticket_id,
                },
            decreases n - i,
        {
            if found.is_none() {
                if self.queue[i].ticket_id == ticket.ticket_id {
                    found = Some(i);
                }
            }
            i = i + 1;
        }
        match found {
            None => false,
            Some(k) => {
                let _removed = self.queue.remove(k);
                proof {
                    let m1 = old(self)@;
                    let m2 = self@;
                    lemma_slots_ok_frame(m1, m2);
                    lemma_queue_ok_remove(m1, m2, k as int);
                    lemma_opens_ok_frame(m1, m2);
                }
                true
            },
        }
    }

    /// Start warm-up, and re-arm the warm floor after a degradation: while
    /// the pool is running, schedules enough background opens to bring live
    /// connections plus opens in flight up to `min_connections`, and returns
    /// their tickets for the caller to perform.
    pub fn warmup(&mut self) -> (r: Vec<OpenTicket>)
        requires
            old(self).wf(),
            old(self)@.next_open_id + old(self)@.cfg.min_connections <= u64::MAX,
        ensures
            final(self).wf(),
            final(self)@.cfg == old(self)@.cfg,
            final(self)@.mode == old(self)@.mode,
            final(self)@.warmed == old(self)@.warmed,
            final(self)@.slots == old(self)@.slots,
            final(self)@.queue == old(self)@.queue,
            final(self)@.clock == old(self)@.clock,
            final(self)@.next_conn_id == old(self)@.next_conn_id,
            final(self)@.next_lease_id == old(self)@.next_lease_id,
            final(self)@.next_ticket_id == old(self)@.next_ticket_id,
            final(self)@.next_probe_id == old(self)@.next_probe_id,
            ({
                let m1 = old(self)@;
                let m2 = final(self)@;
                if m1.mode is Running {
                    let have = m1.slots.len() + m1.opens.len();
                    let deficit = if have < m1.cfg.min_connections {
                        m1.cfg.min_connections - have
                    } else {
                        0
                    };
                    &&& r@.len() == deficit
                    &&& m2.opens.len() == m1.opens.len() + deficit
                    &&& (forall|i: int| 0 <= i < m1.opens.len() ==> #[trigger] m2.opens[i]
                        == m1.opens[i])
                    &&& (forall|i: int|
                        m1.opens.len() <= i < m2.opens.len() ==> #[trigger] m2.opens[i]
                            == (PendingOpen {
                            open_id: (m1.next_open_id + (i - m1.opens.len())) as u64,
                            purpose: OpenPurpose::Replacement,
                            retries_left: m1.cfg.max_retries,
                        }))
                    &&& (forall|i: int|
                        0 <= i < r@.len() ==> (#[trigger] r@[i]).open_id == (m1.next_open_id
                            + i) as u64)
                    &&& m2.next_open_id == m1.next_open_id + deficit
                    &&& !m2.degraded
                } else {
                    &&& m2 == m1
                    &&& r@.len() == 0
                }
            }),
    {
        let mut r: Vec<OpenTicket> = Vec::new();
        if !matches!(self.mode, Mode::Running) {
            return r;
        }
        while self.slots.len() + self.opens.len() < self.cfg.min_connections
            invariant
                inv(self@),
                old(self)@.next_open_id + old(self)@.cfg.min_connections <= u64::MAX,
                self@.cfg == old(self)@.cfg,
                self@.mode == old(self)@.mode,
                self@.mode is Running,
                self@.warmed == old(self)@.warmed,
                self@.degraded == old(self)@.degraded,
                self@.slots == old(self)@.slots,
                self@.queue == old(self)@.queue,
                self@.clock == old(self)@.clock,
                self@.next_conn_id == old(self)@.next_conn_id,
                self@.next_lease_id == old(self)@.next_lease_id,
                self@.next_ticket_id == old(self)@.next_ticket_id,
                self@.next_probe_id == old(self)@.next_probe_id,
                self@.opens.len() == old(self)@.opens.len() + r@.len(),
                forall|i: int|
                    0 <= i < old(self)@.opens.len() ==> #[trigger] self@.opens[i]
                        == old(self)@.opens[i],
                forall|i: int|
                    old(self)@.opens.len() <= i < self@.opens.len() ==> #[trigger] self@.opens[i]
                        == (PendingOpen {
                        open_id: (old(self)@.next_open_id + (i - old(self)@.opens.len())) as u64,
                        purpose: OpenPurpose::Replacement,
                        retries_left: old(self)@.cfg.max_retries,
                    }),
                forall|i: int|
                    0 <= i < r@.len() ==> (#[trigger] r@[i]).open_id == (old(self)@.next_open_id
                        + i) as u64,
                self@.next_open_id == old(self)@.next_open_id + r@.len(),
                old(self)@.slots.len() + old(self)@.opens.len() <= self@.slots.len()
                    + self@.opens.len(),
                self@.slots.len() + self@.opens.len() <= old(self)@.slots.len()
                    + old(self)@.opens.len() || self@.slots.len() + self@.opens.len()
                    <= self@.cfg.min_connections,
            decreases self.cfg.min_connections - self.slots.len() - self.opens.len(),
        {
            proof {
                assert(r@.len() == self@.opens.len() - old(self)@.opens.len());
                assert(r@.len() < self@.cfg.min_connections);
                assert(self@.next_open_id == old(self)@.next_open_id + r@.len());
                assert(self@.next_open_id < u64::MAX);
            }
            let ghost m_before = self@;
            let oid = self.next_open_id;
            self.next_open_id = oid + 1;
            let p = PendingOpen {
                open_id: oid,
                purpose: OpenPurpose::Replacement,
                retries_left: self.cfg.max_retries,
            };
            self.opens.push(p);
            r.push(OpenTicket { open_id: oid });
            proof {
                let m2 = self@;
                lemma_slots_ok_frame(m_before, m2);
                lemma_queue_ok_frame(m_before, m2);
                lemma_opens_ok_push(m_before, m2, p);
            }
        }
        self.degraded = false;
        proof {
            let m1 = old(self)@;
            let m2 = self@;
            lemma_slots_ok_frame(m1, m2);
        }
        r
    }

    /// One pass of the idle reaper, to run on a fixed interval: closes idle
    /// connections unused for longer than `idle_timeout_ms`, but never
    /// evicts below `min_connections`. Returns the ids of the connections to
    /// close. In-use and validating slots, the queue, and opens in flight are
    /// untouched; a slot being handed to a waiter is never seen idle, since
    /// hand-off happens inside the release transition itself.
    pub fn reap_idle(&mut self, now: u64) -> (r: Vec<u64>)
        requires
            old(self).wf(),
            now >= old(self)@.clock,
        ensures
            final(self).wf(),
            final(self)@.cfg == old(self)@.cfg,
            final(self)@.mode == old(self)@.mode,
            final(self)@.warmed == old(self)@.warmed,
            final(self)@.degraded == old(self)@.degraded,
            final(self)@.queue == old(self)@.queue,
            final(self)@.opens == old(self)@.opens,
            final(self)@.next_conn_id == old(self)@.next_conn_id,
            final(self)@.next_lease_id == old(self)@.next_lease_id,
            final(self)@.next_ticket_id == old(self)@.next_ticket_id,
            final(self)@.next_open_id == old(self)@.next_open_id,
            final(self)@.next_probe_id == old(self)@.next_probe_id,
            final(self)@.clock == now,
            ({
                let m1 = old(self)@;
                let m2 = final(self)@;
                &&& r@.len() == m1.slots.len() - m2.slots.len()
                &&& (forall|t: int| 0 <= t < r@.len() ==> was_reaped(m1, #[trigger] r@[t], now))
                &&& (forall|i: int|
                    0 <= i < m2.slots.len() ==> from_table(m1.slots, #[trigger] m2.slots[i]))
                &&& in_use_count(m2.slots) == in_use_count(m1.slots)
                &&& validating_count(m2.slots) == validating_count(m1.slots)
                &&& (m1.slots.len() <= m1.cfg.min_connections ==> m2.slots == m1.slots)
                &&& (m1.slots.len() > m1.cfg.min_connections ==> m2.slots.len()
                    >= m1.cfg.min_connections)
                &&& (m2.slots.len() > m1.cfg.min_connections ==> forall|i: int|
                    0 <= i < m2.slots.len() ==> !reap_expired(#[trigger] m2.slots[i], now, m1.cfg))
            }),
    {
        let mut r: Vec<u64> = Vec::new();
        let mut i: usize = 0;
        while i < self.slots.len()
            invariant
                inv(self@),
                now >= old(self)@.clock,
                self@.clock == old(self)@.clock,
                self@.cfg == old(self)@.cfg,
                self@.mode == old(self)@.mode,
                self@.warmed == old(self)@.warmed,
                self@.degraded == old(self)@.degraded,
                self@.queue == old(self)@.queue,
                self@.opens == old(self)@.opens,
                self@.next_conn_id == old(self)@.next_conn_id,
                self@.next_lease_id == old(self)@.next_lease_id,
                self@.next_ticket_id == old(self)@.next_ticket_id,
                self@.next_open_id == old(self)@.next_open_id,
                self@.next_probe_id == old(self)@.next_probe_id,
                0 <= i <= self@.slots.len(),
                r@.len() == old(self)@.slots.len() - self@.slots.len(),
                forall|t: int|
                    0 <= t < r@.len() ==> was_reaped(old(self)@, #[trigger] r@[t], now),
                forall|idx: int|
                    0 <= idx < self@.slots.len() ==> from_table(
                        old(self)@.slots,
                        #[trigger] self@.slots[idx],
                    ),
                in_use_count(self@.slots) == in_use_count(old(self)@.slots),
                validating_count(self@.slots) == validating_count(old(self)@.slots),
                old(self)@.slots.len() <= old(self)@.cfg.min_connections ==> self@.slots
                    == old(self)@.slots,
                self@.slots.len() >= old(self)@.cfg.min_connections || self@.slots
                    == old(self)@.slots,
                self@.slots.len() > old(self)@.cfg.min_connections ==> forall|k: int|
                    0 <= k < i ==> !reap_expired(#[trigger] self@.slots[k], now, old(self)@.cfg),
            decreases self@.slots.len() - i,
        {
            let s = self.slots[i];
            proof {
                assert(slot_bounded(self@, self@.slots[i as int]));
            }
            let expired = matches!(s.state, SlotState::Idle) && now - s.last_used
                > self.cfg.idle_timeout_ms;
            if expired && self.slots.len() > self.cfg.min_connections {
                let ghost m_b = self@;
                let _removed = self.slots.remove(i);
                r.push(s.conn_id);
                proof {
                    let m2 = self@;
                    lemma_slots_ok_remove(m_b, m2, i as int);
                    lemma_queue_ok_frame(m_b, m2);
                    lemma_opens_ok_frame(m_b, m2);
                    crate::counting::lemma_count_remove(
                        m_b.slots,
                        |x: Slot| is_in_use(x),
                        i as int,
                    );
                    crate::counting::lemma_count_remove(
                        m_b.slots,
                        |x: Slot| is_validating(x),
                        i as int,
                    );
                    m_b.slots.remove_ensures(i as int);
                    assert forall|idx: int| 0 <= idx < m2.slots.len() implies from_table(
                        old(self)@.slots,
                        #[trigger] m2.slots[idx],
                    ) by {
                        let idx0 = if idx < i as int {
                            idx
                        } else {
                            idx + 1
                        };
                        assert(m2.slots[idx] == m_b.slots[idx0]);
                        assert(from_table(old(self)@.slots, m_b.slots[idx0]));
                    }
                    assert forall|t: int| 0 <= t < r@.len() implies was_reaped(
                        old(self)@,
                        #[trigger] r@[t],
                        now,
                    ) by {
                        if t == r@.len() - 1 {
                            assert(r@[t] == s.conn_id);
                            assert(s == m_b.slots[i as int]);
                            assert(from_table(old(self)@.slots, s));
                            let j0 = choose|j: int|
                                0 <= j < old(self)@.slots.len() && #[trigger] old(
                                    self,
                                )@.slots[j] == s;
                            assert(old(self)@.slots[j0].conn_id == s.conn_id);
                            assert(reap_expired(old(self)@.slots[j0], now, old(self)@.cfg));
                        }
                    }
                }
            } else {
                i = i + 1;
            }
        }
        let ghost m_l = self@;
        self.clock = now;
        proof {
            lemma_slots_ok_frame(m_l, self@);
            lemma_queue_ok_frame(m_l, self@);
            lemma_opens_ok_frame(m_l, self@);
        }
        r
    }

    /// Begin shutdown: from `Running`, the pool moves to `Closing`, every
    /// queued waiter is woken with `PoolClosed` (their ticket ids are
    /// returned, in queue order), and opens in flight are abandoned (their
    /// `finish_open` will resolve to `PoolClosed`). Outstanding leases drain
    /// through [`Pool::release`]; finish with [`Pool::shutdown_finish`].
    /// Called in any other mode, it changes nothing.
    pub fn shutdown_begin(&mut self, now: u64) -> (r: Vec<u64>)
        requires
            old(self).wf(),
            now >= old(self)@.clock,
        ensures
            final(self).wf(),
            final(self)@.cfg == old(self)@.cfg,
            final(self)@.warmed == old(self)@.warmed,
            final(self)@.degraded == old(self)@.degraded,
            final(self)@.slots == old(self)@.slots,
            final(self)@.next_conn_id == old(self)@.next_conn_id,
            final(self)@.next_lease_id == old(self)@.next_lease_id,
            final(self)@.next_ticket_id == old(self)@.next_ticket_id,
            final(self)@.next_open_id == old(self)@.next_open_id,
            final(self)@.next_probe_id == old(self)@.next_probe_id,
            ({
                let m1 = old(self)@;
                let m2 = final(self)@;
                if m1.mode is Running {
                    &&& m2.mode is Closing
                    &&& m2.queue.len() == 0
                    &&& m2.opens.len() == 0
                    &&& r@.len() == m1.queue.len()
                    &&& (forall|i: int|
                        0 <= i < r@.len() ==> #[trigger] r@[i] == m1.queue[i].ticket_id)
                    &&& m2.clock == now
                } else {
                    &&& m2 == m1
                    &&& r@.len() == 0
                }
            }),
    {
        let mut r: Vec<u64> = Vec::new();
        if !matches!(self.mode, Mode::Running) {
            return r;
        }
        let mut i: usize = 0;
        let n = self.queue.len();
        while i < n
            invariant
                *self == *old(self),
                n == self.queue@.len(),
                0 <= i <= n,
                r@.len() == i,
                forall|j: int| 0 <= j < i ==> #[trigger] r@[j] == self.queue@[j].ticket_id,
            decreases n - i,
        {
            r.push(self.queue[i].ticket_id);
            i = i + 1;
        }
        self.queue.clear();
        self.opens.clear();
        self.mode = Mode::Closing;
        self.clock = now;
        proof {
            let m1 = old(self)@;
            let m2 = self@;
            lemma_slots_ok_frame(m1, m2);
        }
        r
    }

    /// Complete shutdown once every lease has drained: from `Closing` with no
    /// connection in use, the pool moves to `Closed` and hands back the ids
    /// of all remaining connections for the caller to close. Otherwise
    /// returns `None` and changes nothing — leases are still out, or
    /// shutdown has not begun (or already completed).
    pub fn shutdown_finish(&mut self) -> (r: Option<Vec<u64>>)
        requires
            old(self).wf(),
        ensures
            final(self).wf(),
            final(self)@.cfg == old(self)@.cfg,
            final(self)@.queue == old(self)@.queue,
            final(self)@.opens == old(self)@.opens,
            final(self)@.warmed == old(self)@.warmed,
            final(self)@.degraded == old(self)@.degraded,
            final(self)@.clock == old(self)@.clock,
            final(self)@.next_conn_id == old(self)@.next_conn_id,
            final(self)@.next_lease_id == old(self)@.next_lease_id,
            final(self)@.next_ticket_id == old(self)@.next_ticket_id,
            final(self)@.next_open_id == old(self)@.next_open_id,
            final(self)@.next_probe_id == old(self)@.next_probe_id,
            ({
                let m1 = old(self)@;
                let m2 = final(self)@;
                match r {
                    None => {
                        &&& m2 == m1
                        &&& !(m1.mode is Closing && in_use_count(m1.slots) == 0)
                    },
                    Some(conns) => {
                        &&& m1.mode is Closing
                        &&& in_use_count(m1.slots) == 0
                        &&& m2.mode is Closed
                        &&& m2.slots.len() == 0
                        &&& conns@.len() == m1.slots.len()
                        &&& (forall|i: int|
                            0 <= i < conns@.len() ==> #[trigger] conns@[i]
                                == m1.slots[i].conn_id)
                    },
                }
            }),
    {
        if !matches!(self.mode, Mode::Closing) {
            return None;
        }
        let st = self.stats();
        if st.in_use > 0 {
            return None;
        }
        let mut conns: Vec<u64> = Vec::new();
        let mut i: usize = 0;
        let n = self.slots.len();
        while i < n
            invariant
                *self == *old(self),
                n == self.slots@.len(),
                0 <= i <= n,
                conns@.len() == i,
                forall|j: int| 0 <= j < i ==> #[trigger] conns@[j] == self.slots@[j].conn_id,
            decreases n - i,
        {
            conns.push(self.slots[i].conn_id);
            i = i + 1;
        }
        self.slots.clear();
        self.mode = Mode::Closed;
        proof {
            let m1 = old(self)@;
            let m2 = self@;
            lemma_queue_ok_frame(m1, m2);
            lemma_opens_ok_frame(m1, m2);
        }
        Some(conns)
    }
}

} // verus!
