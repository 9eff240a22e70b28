use connpool::config::PoolConfig;
use connpool::pool::{
    AcquireOutcome, Health, Lease, Mode, OpenResolution, Pool, PoolError, ReleaseAction,
    ValidateResolution,
};

fn cfg(min: usize, max: usize, acquire_timeout_ms: u64) -> PoolConfig {
    PoolConfig {
        min_connections: min,
        max_connections: max,
        acquire_timeout_ms,
        idle_timeout_ms: 1000,
        connect_timeout_ms: 50,
        validation_interval_ms: None,
        max_retries: 2,
    }
}

fn acquire_fresh(p: &mut Pool, now: u64) -> Lease {
    match p.acquire(now) {
        AcquireOutcome::MustOpen(t) => match p.finish_open(t, true, now) {
            OpenResolution::Granted(l) => l,
            _ => panic!("open for a fresh acquire must grant its lease"),
        },
        AcquireOutcome::Granted(l) => l,
        _ => panic!("expected an immediate grant or an open"),
    }
}

#[test]
fn config_validity() {
    assert!(cfg(0, 1, 0).is_valid());
    assert!(cfg(2, 2, 0).is_valid());
    assert!(!cfg(0, 0, 0).is_valid());
    assert!(!cfg(3, 2, 0).is_valid());
}

#[test]
fn capacity_ceiling_is_never_exceeded() {
    let mut p = Pool::new(cfg(0, 2, 0), 0);
    let check = |p: &Pool| {
        let s = p.stats();
        assert!(s.idle + s.in_use <= 2);
    };
    check(&p);
    let l1 = acquire_fresh(&mut p, 1);
    check(&p);
    let l2 = acquire_fresh(&mut p, 2);
    check(&p);
    // the pool is full: a third acquire must queue, not open
    match p.acquire(3) {
        AcquireOutcome::Enqueued(w) => {
            assert_eq!(w.enqueued_at, 3);
            assert!(w.deadline.is_none());
        }
        _ => panic!("a full pool must enqueue"),
    }
    let s = p.stats();
    assert_eq!(s.total, 2);
    assert_eq!(s.in_use, 2);
    assert_eq!(s.idle, 0);
    assert_eq!(s.waiting, 1);
    drop(l1);
    drop(l2);
}

#[test]
fn warm_floor_is_kept_through_replacement() {
    let mut p = Pool::new(cfg(2, 3, 0), 0);
    let tickets = p.warmup();
    assert_eq!(tickets.len(), 2);
    for t in tickets {
        match p.finish_open(t, true, 0) {
            OpenResolution::Pooled { .. } => {}
            _ => panic!("warm-up opens must pool idle connections"),
        }
    }
    assert_eq!(p.stats().total, 2);
    // break one connection; the pool schedules a replacement at once
    let l = match p.acquire(1) {
        AcquireOutcome::Granted(l) => l,
        _ => panic!("an idle connection must be granted"),
    };
    let open = match p.release(&l, Health::Broken, 2) {
        Ok(ReleaseAction::DisposedScheduleOpen { conn_id, open }) => {
            assert_eq!(conn_id, l.conn_id);
            open
        }
        _ => panic!("a broken release below the floor must schedule a replacement"),
    };
    // live connections plus the open in flight cover the floor throughout
    assert_eq!(p.stats().total, 1);
    match p.finish_open(open, true, 3) {
        OpenResolution::Pooled { conn_id } => assert_ne!(conn_id, l.conn_id),
        _ => panic!("the replacement must pool idle"),
    }
    assert_eq!(p.stats().total, 2);
    assert_eq!(p.stats().idle, 2);
}

#[test]
fn fifo_waiters_are_served_in_arrival_order() {
    let mut p = Pool::new(cfg(0, 1, 0), 0);
    let holder = acquire_fresh(&mut p, 0);
    let wa = match p.acquire(1) {
        AcquireOutcome::Enqueued(w) => w,
        _ => panic!("waiter A must enqueue"),
    };
    let wb = match p.acquire(2) {
        AcquireOutcome::Enqueued(w) => w,
        _ => panic!("waiter B must enqueue"),
    };
    assert!(wa.ticket_id < wb.ticket_id);
    // the first release serves A, the second serves B
    let la = match p.release(&holder, Health::Healthy, 3) {
        Ok(ReleaseAction::HandedOff { ticket_id, lease }) => {
            assert_eq!(ticket_id, wa.ticket_id);
            lease
        }
        _ => panic!("a release with waiters must hand off"),
    };
    match p.release(&la, Health::Healthy, 4) {
        Ok(ReleaseAction::HandedOff { ticket_id, .. }) => assert_eq!(ticket_id, wb.ticket_id),
        _ => panic!("the next release must serve waiter B"),
    }
}

#[test]
fn double_release_is_detected_and_harmless() {
    let mut p = Pool::new(cfg(0, 1, 0), 0);
    let l = acquire_fresh(&mut p, 0);
    assert!(p.release(&l, Health::Healthy, 1).is_ok());
    let before = p.stats();
    match p.release(&l, Health::Healthy, 2) {
        Err(PoolError::DoubleRelease) => {}
        _ => panic!("the second release must report DoubleRelease"),
    }
    let after = p.stats();
    assert_eq!(before, after);
    // and the slot is still usable
    match p.acquire(3) {
        AcquireOutcome::Granted(_) => {}
        _ => panic!("the slot must still be available"),
    }
}

#[test]
fn acquire_timeout_fires_exactly_at_the_deadline() {
    let mut p = Pool::new(cfg(0, 1, 100), 0);
    let _holder = acquire_fresh(&mut p, 0);
    let w = match p.acquire(0) {
        AcquireOutcome::Enqueued(w) => w,
        _ => panic!("the second acquire must enqueue"),
    };
    assert_eq!(w.deadline, Some(100));
    assert_eq!(p.expire_wait(&w, 99), None);
    assert_eq!(p.stats().waiting, 1);
    match p.expire_wait(&w, 100) {
        Some(PoolError::AcquireTimeout) => {}
        _ => panic!("the deadline must surface AcquireTimeout"),
    }
    assert_eq!(p.stats().waiting, 0);
    // once expired, the ticket is gone
    assert_eq!(p.expire_wait(&w, 200), None);
}

#[test]
fn wait_without_deadline_never_expires() {
    let mut p = Pool::new(cfg(0, 1, 0), 0);
    let _holder = acquire_fresh(&mut p, 0);
    let w = match p.acquire(1) {
        AcquireOutcome::Enqueued(w) => w,
        _ => panic!("must enqueue"),
    };
    assert!(w.deadline.is_none());
    assert_eq!(p.expire_wait(&w, u64::MAX), None);
    assert_eq!(p.stats().waiting, 1);
}

#[test]
fn cancel_wait_is_idempotent() {
    let mut p = Pool::new(cfg(0, 1, 0), 0);
    let _holder = acquire_fresh(&mut p, 0);
    let w = match p.acquire(1) {
        AcquireOutcome::Enqueued(w) => w,
        _ => panic!("must enqueue"),
    };
    assert!(p.cancel_wait(&w));
    assert_eq!(p.stats().waiting, 0);
    assert!(!p.cancel_wait(&w));
}

#[test]
fn three_grants_then_block_then_handoff() {
    // min=1, max=3: one warm idle plus two fresh opens succeed immediately;
    // the fourth acquire blocks until a release hands its connection over.
    let mut p = Pool::new(cfg(1, 3, 0), 0);
    let tickets = p.warmup();
    assert_eq!(tickets.len(), 1);
    for t in tickets {
        assert!(matches!(p.finish_open(t, true, 0), OpenResolution::Pooled { .. }));
    }
    let l1 = match p.acquire(1) {
        AcquireOutcome::Granted(l) => l,
        _ => panic!("the warm connection must be granted at once"),
    };
    let l2 = acquire_fresh(&mut p, 2);
    let l3 = acquire_fresh(&mut p, 3);
    assert_eq!(p.stats().in_use, 3);
    let w = match p.acquire(4) {
        AcquireOutcome::Enqueued(w) => w,
        _ => panic!("the fourth acquire must block"),
    };
    match p.release(&l2, Health::Healthy, 5) {
        Ok(ReleaseAction::HandedOff { ticket_id, lease }) => {
            assert_eq!(ticket_id, w.ticket_id);
            assert_eq!(lease.conn_id, l2.conn_id);
        }
        _ => panic!("the release must go straight to the waiter"),
    }
    drop(l1);
    drop(l3);
}

#[test]
fn broken_connection_is_never_handed_out_again() {
    let mut p = Pool::new(cfg(1, 2, 0), 0);
    for t in p.warmup() {
        assert!(matches!(p.finish_open(t, true, 0), OpenResolution::Pooled { .. }));
    }
    let total_before = p.stats().total;
    let l = match p.acquire(1) {
        AcquireOutcome::Granted(l) => l,
        _ => panic!("must grant the warm connection"),
    };
    let broken_conn = l.conn_id;
    let open = match p.release(&l, Health::Broken, 2) {
        Ok(ReleaseAction::DisposedScheduleOpen { conn_id, open }) => {
            assert_eq!(conn_id, broken_conn);
            open
        }
        _ => panic!("a broken release below the floor must replace"),
    };
    match p.finish_open(open, true, 3) {
        OpenResolution::Pooled { conn_id } => assert_ne!(conn_id, broken_conn),
        _ => panic!("the replacement must pool idle"),
    }
    // the cycle leaves total unchanged, and the next grant is a new connection
    assert_eq!(p.stats().total, total_before);
    match p.acquire(4) {
        AcquireOutcome::Granted(l2) => assert_ne!(l2.conn_id, broken_conn),
        _ => panic!("must grant the replacement"),
    }
}

#[test]
fn shutdown_drains_leases_then_closes() {
    let mut p = Pool::new(cfg(0, 2, 0), 0);
    let l1 = acquire_fresh(&mut p, 0);
    let l2 = acquire_fresh(&mut p, 1);
    let woken = p.shutdown_begin(2);
    assert!(woken.is_empty());
    assert_eq!(p.mode(), Mode::Closing);
    // new acquires fail immediately
    match p.acquire(3) {
        AcquireOutcome::Failed(PoolError::PoolClosed) => {}
        _ => panic!("acquire during shutdown must fail with PoolClosed"),
    }
    // shutdown cannot finish while leases are out
    assert!(p.shutdown_finish().is_none());
    assert!(matches!(p.release(&l1, Health::Healthy, 4), Ok(ReleaseAction::Disposed { .. })));
    assert!(p.shutdown_finish().is_none());
    assert!(matches!(p.release(&l2, Health::Healthy, 5), Ok(ReleaseAction::Disposed { .. })));
    let remaining = p.shutdown_finish().expect("drained pool must finish shutdown");
    assert!(remaining.is_empty());
    assert_eq!(p.mode(), Mode::Closed);
    match p.acquire(6) {
        AcquireOutcome::Failed(PoolError::PoolClosed) => {}
        _ => panic!("acquire after shutdown must fail with PoolClosed"),
    }
}

#[test]
fn shutdown_wakes_waiters_and_closes_idle() {
    let mut p = Pool::new(cfg(0, 1, 0), 0);
    let holder = acquire_fresh(&mut p, 0);
    let w = match p.acquire(1) {
        AcquireOutcome::Enqueued(w) => w,
        _ => panic!("must enqueue"),
    };
    let woken = p.shutdown_begin(2);
    assert_eq!(woken, vec![w.ticket_id]);
    // the holder releases; its connection is disposed, not parked idle
    let conn = holder.conn_id;
    match p.release(&holder, Health::Healthy, 3) {
        Ok(ReleaseAction::Disposed { conn_id }) => assert_eq!(conn_id, conn),
        _ => panic!("a release during shutdown must dispose"),
    }
    let remaining = p.shutdown_finish().expect("must finish");
    assert!(remaining.is_empty());
}

#[test]
fn shutdown_finish_reports_idle_connections() {
    let mut p = Pool::new(cfg(2, 2, 0), 0);
    let mut ids = Vec::new();
    for t in p.warmup() {
        match p.finish_open(t, true, 0) {
            OpenResolution::Pooled { conn_id } => ids.push(conn_id),
            _ => panic!("warm-up must pool"),
        }
    }
    p.shutdown_begin(1);
    let remaining = p.shutdown_finish().expect("no leases are out");
    assert_eq!(remaining, ids);
    assert_eq!(p.mode(), Mode::Closed);
}

#[test]
fn stale_idle_connection_is_probed_before_handout() {
    let mut c = cfg(0, 1, 0);
    c.validation_interval_ms = Some(10);
    let mut p = Pool::new(c, 0);
    let l = acquire_fresh(&mut p, 0);
    assert!(p.release(&l, Health::Healthy, 0).is_ok());
    // well within the interval: granted without a probe
    match p.acquire(5) {
        AcquireOutcome::Granted(l2) => {
            assert!(p.release(&l2, Health::Healthy, 5).is_ok());
        }
        _ => panic!("a fresh idle connection needs no probe"),
    }
    // past the interval: the pool asks for a probe first
    let probe = match p.acquire(100) {
        AcquireOutcome::MustValidate(t) => t,
        _ => panic!("a stale idle connection must be probed"),
    };
    assert_eq!(probe.conn_id, l.conn_id);
    match p.finish_validate(probe, true, 100) {
        ValidateResolution::Granted(l3) => assert_eq!(l3.conn_id, l.conn_id),
        _ => panic!("a healthy probe must grant"),
    }
}

#[test]
fn failed_probe_replaces_the_connection() {
    let mut c = cfg(0, 1, 0);
    c.validation_interval_ms = Some(10);
    let mut p = Pool::new(c, 0);
    let l = acquire_fresh(&mut p, 0);
    assert!(p.release(&l, Health::Healthy, 0).is_ok());
    let probe = match p.acquire(50) {
        AcquireOutcome::MustValidate(t) => t,
        _ => panic!("must probe the stale connection"),
    };
    let open = match p.finish_validate(probe, false, 50) {
        ValidateResolution::ReplaceThenGrant { closed_conn_id, open } => {
            assert_eq!(closed_conn_id, l.conn_id);
            open
        }
        _ => panic!("a failed probe must dispose and replace"),
    };
    match p.finish_open(open, true, 51) {
        OpenResolution::Granted(l2) => assert_ne!(l2.conn_id, l.conn_id),
        _ => panic!("the replacement open must grant the waiting acquirer"),
    }
}

#[test]
fn open_failures_are_retried_then_surfaced() {
    let mut c = cfg(0, 1, 0);
    c.max_retries = 1;
    let mut p = Pool::new(c, 0);
    let t = match p.acquire(0) {
        AcquireOutcome::MustOpen(t) => t,
        _ => panic!("must open"),
    };
    let t2 = match p.finish_open(t, false, 1) {
        OpenResolution::Retry(t2) => t2,
        _ => panic!("the first failure is retried"),
    };
    match p.finish_open(t2, false, 2) {
        OpenResolution::Failed(PoolError::OpenFailed) => {}
        _ => panic!("an exhausted open surfaces OpenFailed"),
    }
    assert_eq!(p.stats().total, 0);
}

#[test]
fn exhausted_validation_replacement_surfaces_exhausted_retries() {
    let mut c = cfg(0, 1, 0);
    c.validation_interval_ms = Some(10);
    c.max_retries = 0;
    let mut p = Pool::new(c, 0);
    let l = acquire_fresh(&mut p, 0);
    assert!(p.release(&l, Health::Healthy, 0).is_ok());
    let probe = match p.acquire(50) {
        AcquireOutcome::MustValidate(t) => t,
        _ => panic!("must probe"),
    };
    let open = match p.finish_validate(probe, false, 50) {
        ValidateResolution::ReplaceThenGrant { open, .. } => open,
        _ => panic!("must replace"),
    };
    match p.finish_open(open, false, 51) {
        OpenResolution::Failed(PoolError::ExhaustedRetries) => {}
        _ => panic!("a failed replacement after a failed probe surfaces ExhaustedRetries"),
    }
}

#[test]
fn stale_open_ticket_resolves_pool_closed() {
    let mut p = Pool::new(cfg(0, 2, 0), 0);
    let t = match p.acquire(0) {
        AcquireOutcome::MustOpen(t) => t,
        _ => panic!("must open"),
    };
    p.shutdown_begin(1);
    match p.finish_open(t, true, 2) {
        OpenResolution::Failed(PoolError::PoolClosed) => {}
        _ => panic!("an abandoned open resolves PoolClosed"),
    }
}

#[test]
fn reaper_closes_expired_idle_down_to_the_floor() {
    let mut c = cfg(1, 3, 0);
    c.idle_timeout_ms = 100;
    let mut p = Pool::new(c, 0);
    // three idle connections, all last used at time 0
    let l1 = acquire_fresh(&mut p, 0);
    let l2 = acquire_fresh(&mut p, 0);
    let l3 = acquire_fresh(&mut p, 0);
    assert!(p.release(&l1, Health::Healthy, 0).is_ok());
    assert!(p.release(&l2, Health::Healthy, 0).is_ok());
    assert!(p.release(&l3, Health::Healthy, 0).is_ok());
    assert_eq!(p.stats().idle, 3);
    // nothing has expired yet
    assert!(p.reap_idle(100).is_empty());
    assert_eq!(p.stats().idle, 3);
    // all three are expired, but the floor keeps one
    let closed = p.reap_idle(101);
    assert_eq!(closed.len(), 2);
    assert_eq!(p.stats().idle, 1);
    assert_eq!(p.stats().total, 1);
}

#[test]
fn reaper_spares_recently_used_connections() {
    let mut c = cfg(0, 2, 0);
    c.idle_timeout_ms = 100;
    let mut p = Pool::new(c, 0);
    let l1 = acquire_fresh(&mut p, 0);
    let l2 = acquire_fresh(&mut p, 0);
    assert!(p.release(&l1, Health::Healthy, 0).is_ok());
    assert!(p.release(&l2, Health::Healthy, 150).is_ok());
    let closed = p.reap_idle(200);
    assert_eq!(closed, vec![l1.conn_id]);
    assert_eq!(p.stats().idle, 1);
}

#[test]
fn warmup_rearms_after_exhausted_replacement() {
    let mut c = cfg(1, 1, 0);
    c.max_retries = 0;
    let mut p = Pool::new(c, 0);
    for t in p.warmup() {
        assert!(matches!(p.finish_open(t, true, 0), OpenResolution::Pooled { .. }));
    }
    let l = match p.acquire(1) {
        AcquireOutcome::Granted(l) => l,
        _ => panic!("must grant"),
    };
    let open = match p.release(&l, Health::Broken, 2) {
        Ok(ReleaseAction::DisposedScheduleOpen { open, .. }) => open,
        _ => panic!("must replace the broken connection"),
    };
    match p.finish_open(open, false, 3) {
        OpenResolution::Failed(PoolError::OpenFailed) => {}
        _ => panic!("budget zero surfaces the failure at once"),
    }
    assert_eq!(p.stats().total, 0);
    // warm-up re-arms the floor with a fresh open
    let again = p.warmup();
    assert_eq!(again.len(), 1);
    for t in again {
        assert!(matches!(p.finish_open(t, true, 4), OpenResolution::Pooled { .. }));
    }
    assert_eq!(p.stats().total, 1);
}

#[test]
fn replacement_open_serves_waiting_acquirer() {
    let mut p = Pool::new(cfg(0, 1, 0), 0);
    let holder = acquire_fresh(&mut p, 0);
    let w = match p.acquire(1) {
        AcquireOutcome::Enqueued(w) => w,
        _ => panic!("must enqueue"),
    };
    // the holder's connection breaks: a replacement is scheduled because a
    // waiter needs it, and on success it goes straight to the waiter
    let open = match p.release(&holder, Health::Broken, 2) {
        Ok(ReleaseAction::DisposedScheduleOpen { open, .. }) => open,
        _ => panic!("a broken release with waiters must replace"),
    };
    match p.finish_open(open, true, 3) {
        OpenResolution::HandedOff { ticket_id, lease } => {
            assert_eq!(ticket_id, w.ticket_id);
            assert_ne!(lease.conn_id, holder.conn_id);
        }
        _ => panic!("the replacement must serve the waiter"),
    }
}
