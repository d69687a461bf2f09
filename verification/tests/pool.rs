use cortex::model::Runtime;
use cortex::pool::{pool_kind, Parked, PoolKind, PoolLimits, WorkerPool};

fn limits(max_idle: usize, max_jobs: u32) -> PoolLimits {
    PoolLimits { max_idle, max_jobs }
}

#[test]
fn kinds_and_slots() {
    assert_eq!(pool_kind(Runtime::Python), PoolKind::Python);
    assert_eq!(pool_kind(Runtime::Javascript), PoolKind::Node);
    assert_eq!(pool_kind(Runtime::Typescript), PoolKind::Node);
    assert_eq!(PoolKind::Python.index(), 0);
    assert_eq!(PoolKind::Node.index(), 1);
}

#[test]
fn limits_come_from_settings_or_defaults() {
    assert_eq!(PoolLimits::from_settings(None, None), limits(8, 128));
    assert_eq!(PoolLimits::from_settings(Some("2"), Some("5")), limits(2, 5));
    assert_eq!(PoolLimits::from_settings(Some("x"), Some("-1")), limits(8, 128));
    assert_eq!(PoolLimits::from_settings(None, Some("4294967301")), limits(8, 5));
}

#[test]
fn checked_in_worker_is_reused_first() {
    let mut pool: WorkerPool<&str> = WorkerPool::new(limits(8, 128));
    assert!(pool.checkout(PoolKind::Python).is_none());
    assert!(pool.checkin(Parked { worker: "w1", kind: PoolKind::Python, jobs_served: 0 }));
    assert!(pool.checkin(Parked { worker: "w2", kind: PoolKind::Python, jobs_served: 3 }));
    assert_eq!(pool.idle_count(PoolKind::Python), 2);
    assert_eq!(pool.idle_count(PoolKind::Node), 0);
    let p = pool.checkout(PoolKind::Python).unwrap();
    assert_eq!(p.worker, "w2");
    assert_eq!(p.jobs_served, 4);
    assert_eq!(pool.idle_count(PoolKind::Python), 1);
}

#[test]
fn workers_retire_and_pool_is_bounded() {
    let mut pool: WorkerPool<u32> = WorkerPool::new(limits(1, 3));
    assert!(!pool.checkin(Parked { worker: 1, kind: PoolKind::Node, jobs_served: 2 }), "third job retires");
    assert!(pool.checkin(Parked { worker: 2, kind: PoolKind::Node, jobs_served: 0 }));
    assert!(!pool.checkin(Parked { worker: 3, kind: PoolKind::Node, jobs_served: 0 }), "pool is full");
    assert_eq!(pool.idle_count(PoolKind::Node), 1);
}
