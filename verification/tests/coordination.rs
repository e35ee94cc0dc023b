//! Single-flight coordination, the permit pool, and the progress tally.

use media_core::coordinator::{DerivKey, InFlightRegistry, Progress, RegisterOutcome};
use media_core::limiter::PermitPool;

#[test]
fn one_leader_many_followers_one_fanout() {
    let key = DerivKey { id: 7, w: 100, h: 100 };
    let mut reg = InFlightRegistry::new();
    assert!(!reg.is_in_flight(key));

    // the first caller leads; every concurrent caller follows
    assert_eq!(reg.register(key), RegisterOutcome::Leader);
    assert!(reg.is_in_flight(key));
    let t0 = reg.register(key);
    let t1 = reg.register(key);
    let t2 = reg.register(key);
    assert_eq!(t0, RegisterOutcome::Follower(0));
    assert_eq!(t1, RegisterOutcome::Follower(1));
    assert_eq!(t2, RegisterOutcome::Follower(2));

    // completion hands back every waiter exactly once and frees the key
    let waiters = reg.complete(key).expect("key was in flight");
    assert_eq!(waiters, vec![0, 1, 2]);
    assert!(!reg.is_in_flight(key));

    // a later request starts a fresh attempt: the key is not poisoned
    assert_eq!(reg.register(key), RegisterOutcome::Leader);
    let waiters = reg.complete(key).expect("key was in flight");
    assert!(waiters.is_empty());
}

#[test]
fn unrelated_keys_lead_independently() {
    let a = DerivKey { id: 1, w: 64, h: 64 };
    let b = DerivKey { id: 2, w: 64, h: 64 };
    let c = DerivKey { id: 1, w: 32, h: 64 };
    let mut reg = InFlightRegistry::new();
    assert_eq!(reg.register(a), RegisterOutcome::Leader);
    assert_eq!(reg.register(b), RegisterOutcome::Leader);
    assert_eq!(reg.register(c), RegisterOutcome::Leader);
    assert_eq!(reg.register(b), RegisterOutcome::Follower(0));
    assert_eq!(reg.complete(b).expect("in flight"), vec![0]);
    assert!(reg.is_in_flight(a));
    assert!(!reg.is_in_flight(b));
    assert!(reg.is_in_flight(c));
}

#[test]
fn completing_an_absent_key_reports_nothing() {
    let key = DerivKey { id: 9, w: 10, h: 10 };
    let mut reg = InFlightRegistry::new();
    assert!(reg.complete(key).is_none());
}

#[test]
fn permits_never_exceed_capacity() {
    let mut pool = PermitPool::new(2);
    assert_eq!(pool.capacity(), 2);
    assert!(pool.try_acquire());
    assert!(pool.try_acquire());
    assert!(!pool.try_acquire());
    assert_eq!(pool.available(), 0);
    pool.release();
    assert_eq!(pool.available(), 1);
    assert!(pool.try_acquire());
    assert!(!pool.try_acquire());
}

#[test]
fn empty_pool_grants_nothing() {
    let mut pool = PermitPool::new(0);
    assert!(!pool.try_acquire());
    assert_eq!(pool.available(), 0);
}

#[test]
fn progress_tallies_outcomes() {
    let mut p = Progress::new(3);
    assert!(!p.finished());
    p.record(true);
    p.record(false);
    assert!(!p.finished());
    p.record(true);
    assert!(p.finished());
    assert_eq!(p.total, 3);
    assert_eq!(p.done, 2);
    assert_eq!(p.failed, 1);
}
