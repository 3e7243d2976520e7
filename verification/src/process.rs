//! Process management syscalls that decide over a task's control block,
//! and the plain records the time and info syscalls hand to user space.

use vstd::prelude::*;

use crate::task::MapArea;
use crate::task::MAX_SYSCALL_NUM;
use crate::task::PAGE_SIZE;
use crate::task::TaskControlBlock;
use crate::task::TaskStatus;
use crate::task::area_overlaps;
use crate::task::va_ceil;
use crate::task::va_floor;

verus! {

/// A wall-clock instant split into whole seconds and the microseconds left.
#[derive(Clone, Copy, PartialEq, Eq, Structural, Debug)]
pub struct TimeVal {
    pub sec: usize,
    pub usec: usize,
}

impl TimeVal {
    /// Splits a count of microseconds, as the external timer reports it,
    /// into seconds and the microsecond remainder.
    pub fn from_microseconds(us: usize) -> (time: TimeVal)
        ensures
            time.sec == us / 1_000_000,
            time.usec == us % 1_000_000,
            time.usec < 1_000_000,
    {
        TimeVal { sec: us / 1_000_000, usec: us % 1_000_000 }
    }
}

/// What the task-info syscall reports about a task: its status, its syscall
/// counts and its running time in milliseconds.
pub struct TaskInfo {
    pub status: TaskStatus,
    pub syscall_times: [u32; MAX_SYSCALL_NUM],
    pub time: usize,
}

impl TaskInfo {
    /// Gathers a task's info at the instant `now_ms`, as the external timer
    /// reports it; a task that never recorded a start time is charged from
    /// instant zero.
    pub fn collect(task: &TaskControlBlock, now_ms: usize) -> (info: TaskInfo)
        requires
            task.time is Some ==> task.time->Some_0 <= now_ms,
        ensures
            info.status == task.task_status,
            info.syscall_times == task.syscall_times,
            info.time == now_ms - (if task.time is Some {
                task.time->Some_0
            } else {
                0
            }),
    {
        let started = match task.time {
            Some(ms) => ms,
            None => 0,
        };
        TaskInfo { status: task.task_status, syscall_times: task.syscall_times, time: now_ms - started }
    }
}

/// Maps `[start, start + len)` into the task's address space with the
/// permission bits of `port`.  Returns `0` on success and `-1` when the
/// request is malformed or the range intersects an area already mapped.
pub fn sys_mmap(task: &mut TaskControlBlock, start: usize, len: usize, port: usize) -> (code:
    isize)
    requires
        old(task).wf(),
        start + len <= usize::MAX,
    ensures
        final(task).wf(),
        final(task).program_brk == old(task).program_brk,
        final(task).memory_set.token == old(task).memory_set.token,
        ({
            let rejected = start as int % (PAGE_SIZE as int) != 0 || port & !0x7 != 0 || port & 0x7
                == 0 || start >= start + len;
            let s = va_floor(start as int);
            let e = va_ceil(start + len);
            let conflict = exists|i: int|
                0 <= i < old(task).memory_set.areas@.len() && area_overlaps(
                    #[trigger] old(task).memory_set.areas@[i],
                    s,
                    e,
                );
            &&& (code == 0 <==> !rejected && !conflict)
            &&& (code == -1 <==> rejected || conflict)
            &&& (code == -1 ==> final(task).memory_set.areas@ == old(task).memory_set.areas@)
            &&& (code == 0 ==> final(task).memory_set.areas@ == old(task).memory_set.areas@.push(
                MapArea {
                    start_vpn: s as usize,
                    end_vpn: e as usize,
                    perm: ((port as u8) << 1) | 0x10,
                },
            ))
        }),
{
    if task.memory_alloc(start, start + len, port) {
        return 0;
    }
    -1
}

/// Unmaps the area spanning exactly `[start, start + len)`.  Returns `0`
/// when such an area was mapped and `-1` otherwise.
pub fn sys_munmap(task: &mut TaskControlBlock, start: usize, len: usize) -> (code: isize)
    requires
        start + len <= usize::MAX,
    ensures
        final(task).program_brk == old(task).program_brk,
        final(task).memory_set.token == old(task).memory_set.token,
        ({
            let s = va_floor(start as int);
            let e = va_ceil(start + len);
            let present = start as int % (PAGE_SIZE as int) == 0 && exists|i: int|
                0 <= i < old(task).memory_set.areas@.len() && (#[trigger] old(
                    task,
                ).memory_set.areas@[i]).start_vpn == s && old(task).memory_set.areas@[i].end_vpn
                    == e;
            &&& (code == 0 <==> present)
            &&& (code == -1 <==> !present)
            &&& (code == -1 ==> final(task).memory_set.areas@ == old(task).memory_set.areas@)
            &&& (code == 0 ==> exists|i: int|
                {
                    &&& 0 <= i < old(task).memory_set.areas@.len()
                    &&& (#[trigger] old(task).memory_set.areas@[i]).start_vpn == s
                    &&& old(task).memory_set.areas@[i].end_vpn == e
                    &&& final(task).memory_set.areas@ == old(task).memory_set.areas@.remove(i)
                })
        }),
{
    if task.memory_free(start, start + len) {
        return 0;
    }
    -1
}

/// Moves the task's program break by `size` bytes.  Returns the break's
/// previous location on success and `-1` when the move would fall below
/// the heap bottom or no heap area is mapped.
pub fn sys_sbrk(task: &mut TaskControlBlock, size: i32) -> (code: isize)
    requires
        old(task).wf(),
        old(task).program_brk + size <= isize::MAX,
    ensures
        final(task).wf(),
        final(task).memory_set.token == old(task).memory_set.token,
        final(task).heap_bottom == old(task).heap_bottom,
        ({
            let new_brk = old(task).program_brk + size;
            let s = va_floor(old(task).heap_bottom as int);
            let resized = new_brk >= old(task).heap_bottom && exists|i: int|
                0 <= i < old(task).memory_set.areas@.len() && (#[trigger] old(
                    task,
                ).memory_set.areas@[i]).start_vpn == s;
            &&& (resized ==> code == old(task).program_brk && final(task).program_brk == new_brk)
            &&& (!resized ==> code == -1 && final(task).program_brk == old(task).program_brk
                && final(task).memory_set.areas@ == old(task).memory_set.areas@)
        }),
{
    let prior = task.change_program_brk(size);
    match prior {
        Some(old_brk) => old_brk as isize,
        None => -1,
    }
}

} // verus!
