use inquirynet::cron::{now_ms, Cron, PeriodicTask, Task, MAX_SLEEP_MS};

type TestCron = Cron<&'static str, &'static str, &'static str>;

fn name(t: Task<&'static str, &'static str, &'static str>) -> &'static str {
    match t {
        Task::OneShot(s) => s,
        Task::Dynamic(s) => s,
        Task::Periodical(p) => p.func,
    }
}

#[test]
fn earliest_due_task_runs_first() {
    let mut c = TestCron::new();
    c.enqueue_at(100, 50, Task::OneShot("b"));
    c.enqueue_at(100, 10, Task::OneShot("a"));
    c.enqueue_at(100, 50, Task::Dynamic("c"));
    assert!(c.pop_due(109).is_none());
    assert_eq!(name(c.pop_due(110).unwrap()), "a");
    // equal times come out in the order they were queued
    assert_eq!(name(c.pop_due(1000).unwrap()), "b");
    assert_eq!(name(c.pop_due(1000).unwrap()), "c");
    assert!(c.pop_due(u64::MAX).is_none());
}

#[test]
fn sleep_until_earliest_event() {
    let mut c = TestCron::new();
    assert_eq!(c.sleep_ms(0), -1);
    c.enqueue_at(1000, 500, Task::OneShot("x"));
    assert_eq!(c.sleep_ms(1000), 500);
    assert_eq!(c.sleep_ms(1500), 0);
    assert_eq!(c.sleep_ms(2000), 0);
    c.enqueue_at(0, 100_000, Task::OneShot("far"));
    assert_eq!(c.sleep_ms(1200), 300);
    c.pop_due(1500);
    assert_eq!(c.sleep_ms(0), MAX_SLEEP_MS);
    c.clear();
    assert_eq!(c.sleep_ms(0), -1);
}

#[test]
fn periodic_ids_and_unregistering() {
    let mut c = TestCron::new();
    let a = c.register_periodic_task(10, "a");
    let b = c.register_periodic_task(20, "b");
    assert_eq!(a, 0);
    assert_eq!(b, 1);
    assert!(c.unregister_periodic_task(a));
    assert!(!c.unregister_periodic_task(a));
    assert!(!c.unregister_periodic_task(42));
    // the queued run of the unregistered task is dropped, never handed out
    let far = now_ms() + 1_000_000;
    let only = c.pop_due(far).unwrap();
    assert!(c.pop_due(far).is_none());
    match only {
        Task::Periodical(p) => {
            assert_eq!(p.id, b);
            assert_eq!(p.func, "b");
            c.reschedule_periodic(p);
            // still registered: queued again
            assert!(c.pop_due(far).is_some());
        }
        _ => panic!("not periodic"),
    }
}

#[test]
fn unregistered_task_already_popped_is_not_queued_again() {
    let mut c = TestCron::new();
    let a = c.register_periodic_task(10, "a");
    let far = now_ms() + 1_000_000;
    let t = c.pop_due(far).unwrap();
    assert!(c.unregister_periodic_task(a));
    match t {
        Task::Periodical(p) => c.reschedule_periodic(p),
        _ => panic!("not periodic"),
    }
    assert!(c.pop_due(far).is_none());
    assert_eq!(c.sleep_ms(0), -1);
}

#[test]
fn stale_runs_queued_by_hand_are_dropped() {
    let mut c = TestCron::new();
    c.enqueue_at(0, 5, Task::Periodical(PeriodicTask { id: 77, func: "ghost", interval: 5 }));
    c.enqueue_at(0, 9, Task::OneShot("real"));
    assert_eq!(name(c.pop_due(100).unwrap()), "real");
    assert!(c.pop_due(100).is_none());
}

#[test]
fn dynamic_task_stops_at_zero() {
    let mut c = TestCron::new();
    c.reschedule_dynamic("d", 0);
    assert_eq!(c.sleep_ms(0), -1);
    c.reschedule_dynamic("d", 5);
    let now = now_ms();
    assert!(c.sleep_ms(now) <= 5);
    assert_eq!(name(c.pop_due(now + 5).unwrap()), "d");
}

#[test]
fn enqueue_reads_the_clock() {
    let before = now_ms();
    let mut c = TestCron::new();
    c.enqueue_oneshot(1_000, "o");
    c.enqueue_dynamic_periodic_task(2_000, "d");
    let after = now_ms();
    assert!(before <= after);
    assert!(after <= u64::MAX / 1_000_000);
    assert!(c.pop_due(before + 999).is_none());
    assert_eq!(name(c.pop_due(after + 1_000).unwrap()), "o");
    assert_eq!(name(c.pop_due(after + 2_000).unwrap()), "d");
}

#[test]
fn periodic_task_fields() {
    let mut c = TestCron::new();
    let id = c.register_periodic_task(9, "f");
    match c.pop_due(now_ms() + 1_000).unwrap() {
        Task::Periodical(q) => {
            assert_eq!(q.id, id);
            assert_eq!(q.func, "f");
            assert_eq!(q.interval, 9);
        }
        _ => panic!("not periodic"),
    }
}

#[test]
fn periodic_ids_follow_call_order() {
    let mut c = TestCron::new();
    // ids not yet returned are not registered
    assert!(!c.unregister_periodic_task(0));
    assert!(!c.unregister_periodic_task(3));
    for n in 0..5u32 {
        assert_eq!(c.register_periodic_task(1, "p"), n);
    }
    assert!(!c.unregister_periodic_task(5));
    assert!(c.unregister_periodic_task(3));
    // unregistering does not disturb the count
    assert_eq!(c.register_periodic_task(1, "p"), 5);
}
