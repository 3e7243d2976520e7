//! Task control blocks and the address-space bookkeeping their memory
//! syscalls decide over.
//!
//! The crate models an address space as the list of framed areas the task
//! has mapped, in page units; loading a program image, page-table walks and
//! frame allocation are external collaborators, so a new task is built from
//! the values they report (its user stack top and page-table token).

use vstd::prelude::*;

verus! {

/// Bytes per page of the virtual address space.
pub const PAGE_SIZE: usize = 4096;

/// Number of syscall ids whose call counts a task records.
pub const MAX_SYSCALL_NUM: usize = 500;

/// The page containing `va` (its virtual page number).
pub open spec fn va_floor(va: int) -> int {
    va / (PAGE_SIZE as int)
}

/// The first page boundary at or above `va`, as a page number.
pub open spec fn va_ceil(va: int) -> int {
    if va % (PAGE_SIZE as int) == 0 {
        va / (PAGE_SIZE as int)
    } else {
        va / (PAGE_SIZE as int) + 1
    }
}

/// The page containing `va`.
pub fn vpn_floor(va: usize) -> (vpn: usize)
    ensures
        vpn == va_floor(va as int),
{
    va / PAGE_SIZE
}

/// The first page boundary at or above `va`, as a page number.
pub fn vpn_ceil(va: usize) -> (vpn: usize)
    ensures
        vpn == va_ceil(va as int),
{
    if va % PAGE_SIZE == 0 {
        va / PAGE_SIZE
    } else {
        proof {
            assert(va / PAGE_SIZE < usize::MAX) by (nonlinear_arith)
                requires
                    va <= usize::MAX,
            ;
        }
        va / PAGE_SIZE + 1
    }
}

/// One mapped area of the address space: the half-open page range
/// `[start_vpn, end_vpn)` with its permission bits.
#[derive(Clone, Copy, PartialEq, Eq, Structural, Debug)]
pub struct MapArea {
    pub start_vpn: usize,
    pub end_vpn: usize,
    pub perm: u8,
}

/// Whether an area intersects the half-open page range `[start, end)`.
pub open spec fn area_overlaps(a: MapArea, start: int, end: int) -> bool {
    a.start_vpn < end && start < a.end_vpn
}

/// The mapped areas of one task's address space, and the token naming its
/// page table to the hardware.
pub struct MemorySet {
    pub areas: Vec<MapArea>,
    pub token: usize,
}

impl MemorySet {
    /// Every area spans a forward page range.
    pub open spec fn wf(&self) -> bool {
        forall|i: int|
            0 <= i < self.areas@.len() ==> (#[trigger] self.areas@[i]).start_vpn
                <= self.areas@[i].end_vpn
    }

    /// Whether some mapped area intersects the page range `[start, end)`.
    pub fn find_conflicts(&self, start_vpn: usize, end_vpn: usize) -> (conflict: bool)
        ensures
            conflict == exists|i: int|
                0 <= i < self.areas@.len() && area_overlaps(#[trigger] self.areas@[i], start_vpn as int, end_vpn as int),
    {
        let n = self.areas.len();
        let mut i: usize = 0;
        while i < n
            invariant
                i <= n,
                n == self.areas@.len(),
                forall|j: int|
                    0 <= j < i ==> !area_overlaps(#[trigger] self.areas@[j], start_vpn as int, end_vpn as int),
            decreases n - i,
        {
            let a = self.areas[i];
            if a.start_vpn < end_vpn && start_vpn < a.end_vpn {
                return true;
            }
            i = i + 1;
        }
        false
    }

    /// Maps the page range `[start, end)` as a new framed area.
    pub fn insert_framed_area(&mut self, start_vpn: usize, end_vpn: usize, perm: u8)
        requires
            start_vpn <= end_vpn,
        ensures
            final(self).areas@ == old(self).areas@.push(
                MapArea { start_vpn, end_vpn, perm },
            ),
            final(self).token == old(self).token,
    {
        self.areas.push(MapArea { start_vpn, end_vpn, perm });
    }

    /// Unmaps the area spanning exactly the page range `[start, end)`, if
    /// one is mapped; reports whether one was.
    pub fn remove_framed_area(&mut self, start_vpn: usize, end_vpn: usize) -> (removed: bool)
        ensures
            final(self).token == old(self).token,
            removed == exists|i: int|
                0 <= i < old(self).areas@.len() && (#[trigger] old(self).areas@[i]).start_vpn
                    == start_vpn && old(self).areas@[i].end_vpn == end_vpn,
            !removed ==> final(self).areas@ == old(self).areas@,
            removed ==> exists|i: int|
                {
                    &&& 0 <= i < old(self).areas@.len()
                    &&& (#[trigger] old(self).areas@[i]).start_vpn == start_vpn
                    &&& old(self).areas@[i].end_vpn == end_vpn
                    &&& (forall|j: int|
                        0 <= j < i ==> !((#[trigger] old(self).areas@[j]).start_vpn == start_vpn
                            && old(self).areas@[j].end_vpn == end_vpn))
                    &&& final(self).areas@ == old(self).areas@.remove(i)
                },
    {
        let n = self.areas.len();
        let mut i: usize = 0;
        while i < n
            invariant
                i <= n,
                n == self.areas@.len(),
                *self == *old(self),
                forall|j: int|
                    0 <= j < i ==> !((#[trigger] self.areas@[j]).start_vpn == start_vpn
                        && self.areas@[j].end_vpn == end_vpn),
            decreases n - i,
        {
            let a = self.areas[i];
            if a.start_vpn == start_vpn && a.end_vpn == end_vpn {
                self.areas.remove(i);
                proof {
                    assert((old(self).areas@[i as int]).start_vpn == start_vpn);
                }
                return true;
            }
            i = i + 1;
        }
        false
    }

    /// Moves the end of the area starting at page `start_vpn` (the heap
    /// area, for the program break) to `new_end_vpn`; reports whether such
    /// an area was mapped.
    pub fn set_area_end(&mut self, start_vpn: usize, new_end_vpn: usize) -> (resized: bool)
        requires
            start_vpn <= new_end_vpn,
        ensures
            final(self).token == old(self).token,
            resized == exists|i: int|
                0 <= i < old(self).areas@.len() && (#[trigger] old(self).areas@[i]).start_vpn
                    == start_vpn,
            !resized ==> final(self).areas@ == old(self).areas@,
            resized ==> exists|i: int|
                {
                    &&& 0 <= i < old(self).areas@.len()
                    &&& (#[trigger] old(self).areas@[i]).start_vpn == start_vpn
                    &&& (forall|j: int|
                        0 <= j < i ==> (#[trigger] old(self).areas@[j]).start_vpn != start_vpn)
                    &&& final(self).areas@ == old(self).areas@.update(
                        i,
                        MapArea {
                            start_vpn,
                            end_vpn: new_end_vpn,
                            perm: old(self).areas@[i].perm,
                        },
                    )
                },
    {
        let n = self.areas.len();
        let mut i: usize = 0;
        while i < n
            invariant
                i <= n,
                n == self.areas@.len(),
                *self == *old(self),
                forall|j: int| 0 <= j < i ==> (#[trigger] self.areas@[j]).start_vpn != start_vpn,
            decreases n - i,
        {
            let a = self.areas[i];
            if a.start_vpn == start_vpn {
                self.areas[i] = MapArea { start_vpn, end_vpn: new_end_vpn, perm: a.perm };
                proof {
                    assert((old(self).areas@[i as int]).start_vpn == start_vpn);
                }
                return true;
            }
            i = i + 1;
        }
        false
    }
}

/// A task's execution status over its life cycle.
#[derive(Clone, Copy, PartialEq, Eq, Structural, Debug)]
pub enum TaskStatus {
    UnInit,
    Ready,
    Running,
    Exited,
}

/// The control block of one task: its status, the model of its address
/// space, its heap bounds and the bookkeeping its info syscall reports.
pub struct TaskControlBlock {
    pub task_status: TaskStatus,
    pub memory_set: MemorySet,
    pub base_size: usize,
    pub heap_bottom: usize,
    pub program_brk: usize,
    pub syscall_times: [u32; MAX_SYSCALL_NUM],
    pub time: Option<usize>,
}

impl TaskControlBlock {
    /// The heap never outgrows its bounds and the break stays addressable.
    pub open spec fn wf(&self) -> bool {
        &&& self.heap_bottom <= self.program_brk
        &&& self.program_brk <= isize::MAX
        &&& self.memory_set.wf()
    }

    /// Builds the control block of a freshly loaded task from what the
    /// loader reports: the top of its user stack (which starts the heap)
    /// and its page-table token.  The heap area starts empty.
    pub fn new(user_sp: usize, token: usize) -> (task: TaskControlBlock)
        requires
            user_sp <= isize::MAX,
        ensures
            task.wf(),
            task.task_status == TaskStatus::Ready,
            task.base_size == user_sp,
            task.heap_bottom == user_sp,
            task.program_brk == user_sp,
            task.memory_set.token == token,
            task.memory_set.areas@.len() == 1,
            task.memory_set.areas@[0].start_vpn == va_floor(user_sp as int),
            task.memory_set.areas@[0].end_vpn == va_floor(user_sp as int),
            task.time is None,
            forall|i: int| 0 <= i < MAX_SYSCALL_NUM ==> task.syscall_times@[i] == 0,
    {
        let heap_vpn = vpn_floor(user_sp);
        let mut areas: Vec<MapArea> = Vec::new();
        areas.push(MapArea { start_vpn: heap_vpn, end_vpn: heap_vpn, perm: 0 });
        TaskControlBlock {
            task_status: TaskStatus::Ready,
            memory_set: MemorySet { areas, token },
            base_size: user_sp,
            heap_bottom: user_sp,
            program_brk: user_sp,
            syscall_times: [0; MAX_SYSCALL_NUM],
            time: None,
        }
    }

    /// The page-table identifier of the task's address space.
    pub fn get_user_token(&self) -> (token: usize)
        ensures
            token == self.memory_set.token,
    {
        self.memory_set.token
    }

    /// Unmaps the framed area spanning `[start_va, end_va)`: rejects an
    /// unaligned start, otherwise removes the area covering exactly those
    /// pages.  Reports whether an area was removed.
    pub fn memory_free(&mut self, start_va: usize, end_va: usize) -> (freed: bool)
        ensures
            final(self).task_status == old(self).task_status,
            final(self).base_size == old(self).base_size,
            final(self).heap_bottom == old(self).heap_bottom,
            final(self).program_brk == old(self).program_brk,
            final(self).syscall_times == old(self).syscall_times,
            final(self).time == old(self).time,
            final(self).memory_set.token == old(self).memory_set.token,
            start_va as int % (PAGE_SIZE as int) != 0 ==> !freed && final(self).memory_set.areas@
                == old(self).memory_set.areas@,
            start_va as int % (PAGE_SIZE as int) == 0 ==> ({
                let s = va_floor(start_va as int);
                let e = va_ceil(end_va as int);
                &&& freed == exists|i: int|
                    0 <= i < old(self).memory_set.areas@.len() && (#[trigger] old(
                        self,
                    ).memory_set.areas@[i]).start_vpn == s && old(self).memory_set.areas@[i].end_vpn
                        == e
                &&& (!freed ==> final(self).memory_set.areas@ == old(self).memory_set.areas@)
                &&& (freed ==> exists|i: int|
                    {
                        &&& 0 <= i < old(self).memory_set.areas@.len()
                        &&& (#[trigger] old(self).memory_set.areas@[i]).start_vpn == s
                        &&& old(self).memory_set.areas@[i].end_vpn == e
                        &&& final(self).memory_set.areas@ == old(self).memory_set.areas@.remove(i)
                    })
            }),
    {
        if start_va % PAGE_SIZE != 0 {
            return false;
        }
        let start_vpn = vpn_floor(start_va);
        let end_vpn = vpn_ceil(end_va);
        self.memory_set.remove_framed_area(start_vpn, end_vpn)
    }

    /// Maps `[start_va, end_va)` as a new framed area with the permission
    /// bits of `port`: rejects an unaligned start, port bits outside the
    /// low three, an empty permission set, or an empty range; rejects a
    /// range that intersects an area already mapped.  Reports success.
    pub fn memory_alloc(&mut self, start_va: usize, end_va: usize, port: usize) -> (mapped: bool)
        requires
            old(self).wf(),
        ensures
            final(self).wf(),
            final(self).task_status == old(self).task_status,
            final(self).base_size == old(self).base_size,
            final(self).heap_bottom == old(self).heap_bottom,
            final(self).program_brk == old(self).program_brk,
            final(self).syscall_times == old(self).syscall_times,
            final(self).time == old(self).time,
            final(self).memory_set.token == old(self).memory_set.token,
            ({
                let rejected = start_va as int % (PAGE_SIZE as int) != 0 || port & !0x7 != 0
                    || port & 0x7 == 0 || start_va >= end_va;
                let s = va_floor(start_va as int);
                let e = va_ceil(end_va as int);
                let conflict = exists|i: int|
                    0 <= i < old(self).memory_set.areas@.len() && area_overlaps(
                        #[trigger] old(self).memory_set.areas@[i],
                        s,
                        e,
                    );
                &&& (rejected ==> !mapped && final(self).memory_set.areas@ == old(
                    self,
                ).memory_set.areas@)
                &&& (!rejected && conflict ==> !mapped && final(self).memory_set.areas@ == old(
                    self,
                ).memory_set.areas@)
                &&& (!rejected && !conflict ==> mapped && final(self).memory_set.areas@ == old(
                    self,
                ).memory_set.areas@.push(
                    MapArea {
                        start_vpn: s as usize,
                        end_vpn: e as usize,
                        perm: ((port as u8) << 1) | 0x10,
                    },
                ))
            }),
    {
        if start_va % PAGE_SIZE != 0 || port & !0x7 != 0 || port & 0x7 == 0 || start_va >= end_va {
            return false;
        }
        let start_vpn = vpn_floor(start_va);
        let end_vpn = vpn_ceil(end_va);
        if self.memory_set.find_conflicts(start_vpn, end_vpn) {
            return false;
        }
        let perm: u8 = ((port as u8) << 1) | 0x10;
        proof {
            assert(start_vpn <= end_vpn) by (nonlinear_arith)
                requires
                    start_va < end_va,
                    start_vpn == start_va as int / (PAGE_SIZE as int),
                    end_vpn == va_ceil(end_va as int),
                    PAGE_SIZE == 4096,
            ;
        }
        self.memory_set.insert_framed_area(start_vpn, end_vpn, perm);
        true
    }

    /// Moves the program break by `size` bytes: refuses to shrink below the
    /// heap bottom, otherwise resizes the heap area to the new break and
    /// returns the break's previous location.
    pub fn change_program_brk(&mut self, size: i32) -> (prior: Option<usize>)
        requires
            old(self).wf(),
            old(self).program_brk + size <= isize::MAX,
        ensures
            final(self).wf(),
            final(self).task_status == old(self).task_status,
            final(self).base_size == old(self).base_size,
            final(self).heap_bottom == old(self).heap_bottom,
            final(self).syscall_times == old(self).syscall_times,
            final(self).time == old(self).time,
            final(self).memory_set.token == old(self).memory_set.token,
            ({
                let new_brk = old(self).program_brk + size;
                let s = va_floor(old(self).heap_bottom as int);
                let resized = exists|i: int|
                    0 <= i < old(self).memory_set.areas@.len() && (#[trigger] old(
                        self,
                    ).memory_set.areas@[i]).start_vpn == s;
                &&& (new_brk < old(self).heap_bottom ==> prior is None && final(self).program_brk
                    == old(self).program_brk && final(self).memory_set.areas@ == old(
                    self,
                ).memory_set.areas@)
                &&& (new_brk >= old(self).heap_bottom && !resized ==> prior is None && final(self).program_brk == old(self).program_brk && final(self).memory_set.areas@ == old(
                    self,
                ).memory_set.areas@)
                &&& (new_brk >= old(self).heap_bottom && resized ==> {
                    &&& prior == Some(old(self).program_brk)
                    &&& final(self).program_brk == new_brk
                    &&& exists|i: int|
                        {
                            &&& 0 <= i < old(self).memory_set.areas@.len()
                            &&& (#[trigger] old(self).memory_set.areas@[i]).start_vpn == s
                            &&& final(self).memory_set.areas@ == old(
                                self,
                            ).memory_set.areas@.update(
                                i,
                                MapArea {
                                    start_vpn: s as usize,
                                    end_vpn: va_ceil(new_brk) as usize,
                                    perm: old(self).memory_set.areas@[i].perm,
                                },
                            )
                        }
                })
            }),
    {
        let old_break = self.program_brk;
        let new_brk = self.program_brk as isize + size as isize;
        if new_brk < self.heap_bottom as isize {
            return None;
        }
        let heap_vpn = vpn_floor(self.heap_bottom);
        let new_end_vpn = vpn_ceil(new_brk as usize);
        proof {
            let hb = self.heap_bottom;
            assert(heap_vpn <= new_end_vpn) by (nonlinear_arith)
                requires
                    hb <= new_brk,
                    heap_vpn == hb as int / (PAGE_SIZE as int),
                    new_end_vpn == va_ceil(new_brk as int),
                    PAGE_SIZE == 4096,
            ;
        }
        let resized = self.memory_set.set_area_end(heap_vpn, new_end_vpn);
        if resized {
            self.program_brk = new_brk as usize;
            Some(old_break)
        } else {
            None
        }
    }
}

} // verus!
