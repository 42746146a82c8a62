use micro_sandbox_native::scheduler::{Capacity, ResourceRequest, Scheduler};

#[test]
fn refuses_overcommit_and_releases_capacity_when_reservation_drops() {
    let mut scheduler = Scheduler::new(Capacity {
        memory_bytes: 100,
        cpu_millis: 1_000,
        pids: 10,
    });
    let first = scheduler
        .reserve(ResourceRequest {
            memory_bytes: 70,
            cpu_millis: 500,
            pids: 5,
        })
        .unwrap();

    assert_eq!(scheduler.reserved().memory_bytes, 70);
    assert_eq!(
        scheduler
            .reserve(ResourceRequest {
                memory_bytes: 31,
                cpu_millis: 100,
                pids: 1
            })
            .unwrap_err()
            .code(),
        "CAPACITY_EXCEEDED"
    );
    first.release(&mut scheduler);
    assert_eq!(scheduler.reserved().memory_bytes, 0);
    assert!(
        scheduler
            .reserve(ResourceRequest {
                memory_bytes: 100,
                cpu_millis: 1_000,
                pids: 10
            })
            .is_ok()
    );
}

fn capacity(memory_bytes: u64, cpu_millis: u64, pids: u64) -> Capacity {
    Capacity {
        memory_bytes,
        cpu_millis,
        pids,
    }
}

#[test]
fn available_is_the_limit_less_what_is_reserved() {
    let mut scheduler = Scheduler::new(capacity(100, 1_000, 10));
    let a = scheduler.reserve(capacity(40, 250, 2)).unwrap();
    assert_eq!(scheduler.available(), capacity(60, 750, 8));
    let b = scheduler.reserve(capacity(60, 750, 8)).unwrap();
    assert_eq!(scheduler.available(), capacity(0, 0, 0));
    a.release(&mut scheduler);
    assert_eq!(scheduler.reserved(), capacity(60, 750, 8));
    b.release(&mut scheduler);
    assert_eq!(scheduler.reserved(), capacity(0, 0, 0));
}

#[test]
fn any_dimension_refuses_an_overcommit() {
    let mut scheduler = Scheduler::new(capacity(100, 100, 100));
    assert!(scheduler.reserve(capacity(100, 101, 0)).is_err());
    assert!(scheduler.reserve(capacity(0, 0, 101)).is_err());
    assert_eq!(scheduler.reserved(), capacity(0, 0, 0));
    let _held = scheduler.reserve(capacity(1, 0, 0)).unwrap();
    assert_eq!(
        scheduler.reserve(capacity(u64::MAX, 0, 0)).unwrap_err().code(),
        "CAPACITY_EXCEEDED"
    );
    assert_eq!(scheduler.reserved(), capacity(1, 0, 0));
}

#[test]
fn live_capacity_also_bounds_a_request() {
    let mut scheduler = Scheduler::new(capacity(100, 100, 100));
    assert!(
        scheduler
            .reserve_with_limit(capacity(50, 50, 50), capacity(40, 100, 100))
            .is_err()
    );
    assert_eq!(scheduler.reserved(), capacity(0, 0, 0));
    let held = scheduler
        .reserve_with_limit(capacity(50, 50, 50), capacity(50, 50, 50))
        .unwrap();
    assert_eq!(scheduler.reserved(), capacity(50, 50, 50));
    held.release(&mut scheduler);
    assert_eq!(scheduler.reserved(), capacity(0, 0, 0));
}

#[test]
fn fits_within_compares_every_dimension() {
    assert!(capacity(1, 2, 3).fits_within(capacity(1, 2, 3)));
    assert!(!capacity(1, 2, 4).fits_within(capacity(1, 2, 3)));
    assert!(!capacity(2, 0, 0).fits_within(capacity(1, 2, 3)));
}
