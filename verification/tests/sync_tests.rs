use deadlock_guard::resource::Resource;
use deadlock_guard::resource::ResourceCounter;
use deadlock_guard::safety::is_safe;
use deadlock_guard::sync::sys_condvar_create;
use deadlock_guard::sync::sys_condvar_signal;
use deadlock_guard::sync::sys_condvar_wait;
use deadlock_guard::sync::sys_enable_deadlock_detect;
use deadlock_guard::sync::sys_mutex_create;
use deadlock_guard::sync::sys_mutex_lock;
use deadlock_guard::sync::sys_mutex_unlock;
use deadlock_guard::sync::sys_semaphore_create;
use deadlock_guard::sync::sys_semaphore_down;
use deadlock_guard::sync::sys_semaphore_up;
use deadlock_guard::sync::ProcessSyncState;
use deadlock_guard::sync::DEADLOCK_CODE;

#[test]
fn counter_increase_and_get() {
    let mut c = ResourceCounter::new();
    assert_eq!(c.get(Resource::Mutex(0)), 0);
    c.increase(Resource::Mutex(0), 2);
    c.increase(Resource::Semaphore(0), 5);
    assert_eq!(c.get(Resource::Mutex(0)), 2);
    assert_eq!(c.get(Resource::Semaphore(0)), 5);
    assert_eq!(c.get(Resource::Mutex(1)), 0);
}

#[test]
fn counter_take_caps_at_current_count() {
    let mut c = ResourceCounter::new();
    c.increase(Resource::Mutex(3), 2);
    assert_eq!(c.take(Resource::Mutex(3), 5), 2);
    assert_eq!(c.get(Resource::Mutex(3)), 0);
    assert_eq!(c.take(Resource::Mutex(3), 1), 0);
    assert_eq!(c.take(Resource::Semaphore(9), 1), 0);
}

#[test]
fn counter_take_all_clears_entry() {
    let mut c = ResourceCounter::new();
    c.increase(Resource::Semaphore(1), 7);
    assert_eq!(c.take(Resource::Semaphore(1), usize::MAX), 7);
    assert_eq!(c.get(Resource::Semaphore(1)), 0);
}

#[test]
fn counter_le_all_and_duplicate() {
    let mut small = ResourceCounter::new();
    let mut big = ResourceCounter::new();
    small.increase(Resource::Mutex(0), 1);
    big.increase(Resource::Mutex(0), 2);
    big.increase(Resource::Semaphore(0), 1);
    assert!(small.le_all(&big));
    assert!(!big.le_all(&small));
    let copy = big.duplicate();
    assert_eq!(copy.get(Resource::Mutex(0)), 2);
    assert_eq!(copy.get(Resource::Semaphore(0)), 1);
}

#[test]
fn empty_state_is_safe() {
    let available = ResourceCounter::new();
    let allocation: Vec<ResourceCounter> = Vec::new();
    let need: Vec<ResourceCounter> = Vec::new();
    assert!(is_safe(&available, &allocation, &need));
}

#[test]
fn needs_covered_by_available_are_safe() {
    // Two threads each needing only resources that are already available.
    let mut available = ResourceCounter::new();
    available.increase(Resource::Mutex(0), 1);
    available.increase(Resource::Mutex(1), 1);
    let mut need0 = ResourceCounter::new();
    need0.increase(Resource::Mutex(0), 1);
    let mut need1 = ResourceCounter::new();
    need1.increase(Resource::Mutex(1), 1);
    let allocation = vec![ResourceCounter::new(), ResourceCounter::new()];
    let need = vec![need0, need1];
    assert!(is_safe(&available, &allocation, &need));
}

#[test]
fn chained_release_is_safe() {
    // Thread 1 can finish outright; what it releases lets thread 0 finish.
    let available = ResourceCounter::new();
    let mut alloc0 = ResourceCounter::new();
    alloc0.increase(Resource::Mutex(0), 1);
    let mut need0 = ResourceCounter::new();
    need0.increase(Resource::Mutex(1), 1);
    let mut alloc1 = ResourceCounter::new();
    alloc1.increase(Resource::Mutex(1), 1);
    let allocation = vec![alloc0, alloc1];
    let need = vec![need0, ResourceCounter::new()];
    assert!(is_safe(&available, &allocation, &need));
}

#[test]
fn circular_wait_is_unsafe() {
    // Thread 0 holds mutex 0 and needs mutex 1; thread 1 holds mutex 1 and
    // needs mutex 0; both mutexes have capacity 1 and nothing is available.
    let available = ResourceCounter::new();
    let mut alloc0 = ResourceCounter::new();
    alloc0.increase(Resource::Mutex(0), 1);
    let mut need0 = ResourceCounter::new();
    need0.increase(Resource::Mutex(1), 1);
    let mut alloc1 = ResourceCounter::new();
    alloc1.increase(Resource::Mutex(1), 1);
    let mut need1 = ResourceCounter::new();
    need1.increase(Resource::Mutex(0), 1);
    let allocation = vec![alloc0, alloc1];
    let need = vec![need0, need1];
    assert!(!is_safe(&available, &allocation, &need));
}

#[test]
fn mutex_create_returns_sequential_ids() {
    let mut proc = ProcessSyncState::new();
    assert_eq!(sys_mutex_create(&mut proc, false), 0);
    assert_eq!(sys_mutex_create(&mut proc, true), 1);
    assert_eq!(proc.available_count(Resource::Mutex(0)), 1);
    assert_eq!(proc.available_count(Resource::Mutex(1)), 1);
}

#[test]
fn mutex_allocation_exclusive_over_sequences() {
    // A mutex is a binary resource: across every snapshot of a
    // create/lock/unlock sequence the threads together hold at most one unit.
    let mut proc = ProcessSyncState::new();
    let m = sys_mutex_create(&mut proc, true) as usize;
    let held = |p: &ProcessSyncState| {
        p.allocation_count(0, Resource::Mutex(0)) + p.allocation_count(1, Resource::Mutex(0))
            + p.allocation_count(2, Resource::Mutex(0))
    };
    assert!(held(&proc) <= 1);
    assert_eq!(sys_mutex_lock(&mut proc, 0, m), 0);
    assert!(held(&proc) <= 1);
    assert_eq!(sys_mutex_lock(&mut proc, 1, m), 0);
    assert!(held(&proc) <= 1);
    assert_eq!(sys_mutex_unlock(&mut proc, 0, m), 0);
    assert!(held(&proc) <= 1);
    assert_eq!(sys_mutex_lock(&mut proc, 2, m), 0);
    assert!(held(&proc) <= 1);
    assert_eq!(sys_mutex_unlock(&mut proc, 2, m), 0);
    assert!(held(&proc) <= 1);
}

#[test]
fn lock_unlock_round_trip_restores_available() {
    let mut proc = ProcessSyncState::new();
    let m = sys_mutex_create(&mut proc, true) as usize;
    let r = Resource::Mutex(m);
    let before = proc.available_count(r);
    assert_eq!(sys_mutex_lock(&mut proc, 0, m), 0);
    assert_eq!(proc.allocation_count(0, r), 1);
    assert_eq!(sys_mutex_unlock(&mut proc, 0, m), 0);
    assert_eq!(proc.available_count(r), before);
    assert_eq!(proc.allocation_count(0, r), 0);
    assert_eq!(proc.need_count(0, r), 0);
}

#[test]
fn contended_lock_unlock_round_trip() {
    // The round trip also holds when no unit was free: the lock records a
    // need, the unlock clears it, and the available count is unchanged.
    let mut proc = ProcessSyncState::new();
    let m = sys_mutex_create(&mut proc, true) as usize;
    let r = Resource::Mutex(m);
    assert_eq!(sys_mutex_lock(&mut proc, 0, m), 0);
    let before = proc.available_count(r);
    assert_eq!(before, 0);
    assert_eq!(sys_mutex_lock(&mut proc, 1, m), 0);
    assert_eq!(proc.need_count(1, r), 1);
    assert_eq!(sys_mutex_unlock(&mut proc, 1, m), 0);
    assert_eq!(proc.available_count(r), before);
    assert_eq!(proc.allocation_count(1, r), 0);
    assert_eq!(proc.need_count(1, r), 0);
}

#[test]
fn unlock_by_non_holder_frees_nothing() {
    let mut proc = ProcessSyncState::new();
    let m = sys_mutex_create(&mut proc, true) as usize;
    let r = Resource::Mutex(m);
    assert_eq!(sys_mutex_unlock(&mut proc, 4, m), 0);
    assert_eq!(proc.available_count(r), 1);
    assert_eq!(proc.allocation_count(4, r), 0);
}

#[test]
fn lock_rejects_bad_handle() {
    let mut proc = ProcessSyncState::new();
    assert_eq!(sys_mutex_lock(&mut proc, 0, 0), -1);
    assert_eq!(sys_mutex_unlock(&mut proc, 0, 3), -1);
    assert_eq!(sys_semaphore_down(&mut proc, 0, 0), -1);
    assert_eq!(sys_semaphore_up(&mut proc, 0, 7), -1);
}

#[test]
fn detection_denies_circular_wait() {
    // With detection on, the lock call that would close the circular wait
    // returns the deadlock code instead of admitting the request, so no
    // thread is handed on to the blocking primitive.
    let mut proc = ProcessSyncState::new();
    assert_eq!(sys_enable_deadlock_detect(&mut proc, 1), 0);
    let m0 = sys_mutex_create(&mut proc, true) as usize;
    let m1 = sys_mutex_create(&mut proc, true) as usize;
    assert_eq!(sys_mutex_lock(&mut proc, 0, m0), 0);
    assert_eq!(sys_mutex_lock(&mut proc, 1, m1), 0);
    assert_eq!(sys_mutex_lock(&mut proc, 0, m1), 0);
    assert_eq!(sys_mutex_lock(&mut proc, 1, m0), -DEADLOCK_CODE);
    assert_eq!(-DEADLOCK_CODE, -0xDEAD);
}

#[test]
fn detection_off_admits_deadlocking_sequence() {
    // The identical sequence is admitted when detection is off: every call
    // reports success and the accounting records the outstanding needs.
    let mut proc = ProcessSyncState::new();
    let m0 = sys_mutex_create(&mut proc, true) as usize;
    let m1 = sys_mutex_create(&mut proc, true) as usize;
    assert_eq!(sys_mutex_lock(&mut proc, 0, m0), 0);
    assert_eq!(sys_mutex_lock(&mut proc, 1, m1), 0);
    assert_eq!(sys_mutex_lock(&mut proc, 0, m1), 0);
    assert_eq!(sys_mutex_lock(&mut proc, 1, m0), 0);
    assert_eq!(proc.need_count(0, Resource::Mutex(m1)), 1);
    assert_eq!(proc.need_count(1, Resource::Mutex(m0)), 1);
}

#[test]
fn toggle_rejects_bad_values_and_keeps_flag() {
    let mut proc = ProcessSyncState::new();
    assert!(!proc.detection_enabled());
    assert_eq!(sys_enable_deadlock_detect(&mut proc, 2), -1);
    assert!(!proc.detection_enabled());
    assert_eq!(sys_enable_deadlock_detect(&mut proc, 1), 0);
    assert!(proc.detection_enabled());
    assert_eq!(sys_enable_deadlock_detect(&mut proc, 99), -1);
    assert!(proc.detection_enabled());
    assert_eq!(sys_enable_deadlock_detect(&mut proc, 0), 0);
    assert!(!proc.detection_enabled());
}

#[test]
fn semaphore_admits_exactly_initial_count() {
    // A semaphore created with three units admits exactly three
    // down-without-up accountings before its available count reaches zero.
    let mut proc = ProcessSyncState::new();
    let s = sys_semaphore_create(&mut proc, 0, 3) as usize;
    let r = Resource::Semaphore(s);
    assert_eq!(proc.available_count(r), 3);
    assert_eq!(sys_semaphore_down(&mut proc, 0, s), 0);
    assert_eq!(proc.available_count(r), 2);
    assert_eq!(sys_semaphore_down(&mut proc, 1, s), 0);
    assert_eq!(proc.available_count(r), 1);
    assert_eq!(sys_semaphore_down(&mut proc, 2, s), 0);
    assert_eq!(proc.available_count(r), 0);
    assert_eq!(sys_semaphore_down(&mut proc, 3, s), 0);
    assert_eq!(proc.available_count(r), 0);
    assert_eq!(proc.need_count(3, r), 1);
}

#[test]
fn semaphore_up_returns_unit() {
    let mut proc = ProcessSyncState::new();
    let s = sys_semaphore_create(&mut proc, 0, 1) as usize;
    let r = Resource::Semaphore(s);
    assert_eq!(sys_semaphore_down(&mut proc, 0, s), 0);
    assert_eq!(proc.available_count(r), 0);
    assert_eq!(proc.allocation_count(0, r), 1);
    assert_eq!(sys_semaphore_up(&mut proc, 0, s), 0);
    assert_eq!(proc.available_count(r), 1);
    assert_eq!(proc.allocation_count(0, r), 0);
}

#[test]
fn condvar_calls_check_handles() {
    let mut proc = ProcessSyncState::new();
    assert_eq!(sys_condvar_signal(&proc, 0), -1);
    let c = sys_condvar_create(&mut proc) as usize;
    assert_eq!(c, 0);
    assert_eq!(sys_condvar_signal(&proc, c), 0);
    assert_eq!(sys_condvar_wait(&proc, c, 0), -1);
    let m = sys_mutex_create(&mut proc, true) as usize;
    assert_eq!(sys_condvar_wait(&proc, c, m), 0);
    assert_eq!(sys_condvar_wait(&proc, 5, m), -1);
}
