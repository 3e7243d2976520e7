use deadlock_guard::process::sys_mmap;
use deadlock_guard::process::sys_munmap;
use deadlock_guard::process::sys_sbrk;
use deadlock_guard::process::TaskInfo;
use deadlock_guard::process::TimeVal;
use deadlock_guard::task::TaskControlBlock;
use deadlock_guard::task::TaskStatus;
use deadlock_guard::task::PAGE_SIZE;

#[test]
fn new_task_starts_ready_with_empty_heap() {
    let task = TaskControlBlock::new(0x80000, 42);
    assert!(matches!(task.task_status, TaskStatus::Ready));
    assert_eq!(task.base_size, 0x80000);
    assert_eq!(task.heap_bottom, 0x80000);
    assert_eq!(task.program_brk, 0x80000);
    assert_eq!(task.get_user_token(), 42);
    assert_eq!(task.memory_set.areas.len(), 1);
    assert_eq!(task.memory_set.areas[0].start_vpn, 0x80000 / PAGE_SIZE);
    assert_eq!(task.memory_set.areas[0].end_vpn, 0x80000 / PAGE_SIZE);
    assert!(task.time.is_none());
    assert!(task.syscall_times.iter().all(|&n| n == 0));
}

#[test]
fn mmap_maps_an_aligned_range() {
    let mut task = TaskControlBlock::new(0x80000, 0);
    assert_eq!(sys_mmap(&mut task, 0x10000000, 2 * PAGE_SIZE, 0x3), 0);
    let area = task.memory_set.areas[task.memory_set.areas.len() - 1];
    assert_eq!(area.start_vpn, 0x10000000 / PAGE_SIZE);
    assert_eq!(area.end_vpn, 0x10000000 / PAGE_SIZE + 2);
    // port 0x3 becomes read and write bits shifted into place, plus user.
    assert_eq!(area.perm, (0x3 << 1) | 0x10);
}

#[test]
fn mmap_rejects_malformed_requests() {
    let mut task = TaskControlBlock::new(0x80000, 0);
    // unaligned start
    assert_eq!(sys_mmap(&mut task, 0x10000001, PAGE_SIZE, 0x3), -1);
    // permission bits outside the low three
    assert_eq!(sys_mmap(&mut task, 0x10000000, PAGE_SIZE, 0x8), -1);
    // empty permission set
    assert_eq!(sys_mmap(&mut task, 0x10000000, PAGE_SIZE, 0x0), -1);
    // empty range
    assert_eq!(sys_mmap(&mut task, 0x10000000, 0, 0x3), -1);
    assert_eq!(task.memory_set.areas.len(), 1);
}

#[test]
fn mmap_rejects_overlapping_range() {
    let mut task = TaskControlBlock::new(0x80000, 0);
    assert_eq!(sys_mmap(&mut task, 0x10000000, 4 * PAGE_SIZE, 0x1), 0);
    assert_eq!(sys_mmap(&mut task, 0x10000000 + 2 * PAGE_SIZE, 4 * PAGE_SIZE, 0x1), -1);
    assert_eq!(task.memory_set.areas.len(), 2);
}

#[test]
fn munmap_removes_exactly_matching_range() {
    let mut task = TaskControlBlock::new(0x80000, 0);
    assert_eq!(sys_mmap(&mut task, 0x10000000, 2 * PAGE_SIZE, 0x3), 0);
    // a different span does not match
    assert_eq!(sys_munmap(&mut task, 0x10000000, PAGE_SIZE), -1);
    assert_eq!(sys_munmap(&mut task, 0x10000000, 2 * PAGE_SIZE), 0);
    assert_eq!(task.memory_set.areas.len(), 1);
    // already unmapped
    assert_eq!(sys_munmap(&mut task, 0x10000000, 2 * PAGE_SIZE), -1);
}

#[test]
fn sbrk_moves_the_program_break() {
    let mut task = TaskControlBlock::new(0x80000, 0);
    let grown = sys_sbrk(&mut task, PAGE_SIZE as i32);
    assert_eq!(grown, 0x80000);
    assert_eq!(task.program_brk, 0x80000 + PAGE_SIZE);
    let shrunk = sys_sbrk(&mut task, -(PAGE_SIZE as i32));
    assert_eq!(shrunk, (0x80000 + PAGE_SIZE) as isize);
    assert_eq!(task.program_brk, 0x80000);
    // below the heap bottom
    assert_eq!(sys_sbrk(&mut task, -(PAGE_SIZE as i32)), -1);
    assert_eq!(task.program_brk, 0x80000);
}

#[test]
fn memory_free_rejects_unaligned_start() {
    let mut task = TaskControlBlock::new(0x80000, 0);
    assert!(!task.memory_free(0x10000001, 0x10000000 + PAGE_SIZE));
}

#[test]
fn time_val_splits_microseconds() {
    let t = TimeVal::from_microseconds(2_500_000);
    assert_eq!(t.sec, 2);
    assert_eq!(t.usec, 500_000);
    let zero = TimeVal::from_microseconds(0);
    assert_eq!(zero.sec, 0);
    assert_eq!(zero.usec, 0);
}

#[test]
fn task_info_charges_running_time() {
    let mut task = TaskControlBlock::new(0x80000, 0);
    task.time = Some(100);
    task.task_status = TaskStatus::Running;
    let info = TaskInfo::collect(&task, 350);
    assert!(matches!(info.status, TaskStatus::Running));
    assert_eq!(info.time, 250);
    task.time = None;
    let info2 = TaskInfo::collect(&task, 350);
    assert_eq!(info2.time, 350);
}
