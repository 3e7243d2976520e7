//! Synchronization syscalls: the registry of mutex / semaphore / condition
//! variable slots, the per-thread accounting tables, and the admission and
//! release protocols that guard the external blocking primitives.
//!
//! Each syscall updates the accounting under the process's exclusive access
//! and reports through its result code whether the caller should go on to
//! invoke the external primitive.  The primitives' own queueing and wakeup
//! are outside this crate: a result of `0` from a lock, down, unlock, up,
//! signal or wait call means "admitted: now perform the primitive call".

use vstd::prelude::*;

use crate::resource::Resource;
use crate::resource::ResourceCounter;
use crate::safety::count_at;
use crate::safety::is_safe;
use crate::safety::is_safe_state;
use crate::safety::lemma_count_at_le_table;
use crate::safety::lemma_table_sum_push;
use crate::safety::lemma_table_sum_update;
use crate::safety::table_sum;

verus! {

/// Result code of a lock or down request denied by the safety check; the
/// syscall returns its negation, distinct from the `-1` of a bad handle.
pub const DEADLOCK_CODE: isize = 0xDEAD;

/// Which flavour of external mutex a registry slot refers to.
#[derive(Clone, Copy, PartialEq, Eq, Structural, Debug)]
pub enum MutexKind {
    Spin,
    Blocking,
}

/// A registry slot holding a handle to an external condition variable.
#[derive(Clone, Copy, PartialEq, Eq, Structural, Debug)]
pub struct CondvarSlot {}

/// One unit is granted when at least one is available.
pub open spec fn grant_amount(avail: nat) -> nat {
    if avail > 0 {
        1
    } else {
        0
    }
}

/// One unit is released when the thread holds at least one.
pub open spec fn release_amount(alloc: nat) -> nat {
    if alloc > 0 {
        1
    } else {
        0
    }
}

/// The admission bookkeeping for one thread and one resource: claim a free
/// unit if there is one, otherwise record an outstanding need of one unit.
/// The triple is (available, allocation, need) for that thread and resource.
pub open spec fn lock_step(avail: nat, alloc: nat, need: nat) -> (nat, nat, nat) {
    let got = grant_amount(avail);
    ((avail - got) as nat, alloc + got, (need + 1 - got) as nat)
}

/// The release bookkeeping for one thread and one resource: return the held
/// unit (if any) to the available pool and clear any residual need.
pub open spec fn unlock_step(avail: nat, alloc: nat, need: nat) -> (nat, nat, nat) {
    let freed = release_amount(alloc);
    (avail + freed, (alloc - freed) as nat, 0nat)
}

/// Units of `r` that exist for the process: one per occupied mutex slot,
/// the creation count for an occupied semaphore slot, none otherwise.
pub open spec fn resource_units(
    mutexes: Seq<Option<MutexKind>>,
    semaphores: Seq<Option<usize>>,
    r: Resource,
) -> nat {
    match r {
        Resource::Mutex(id) => {
            if id < mutexes.len() && mutexes[id as int] is Some {
                1
            } else {
                0
            }
        },
        Resource::Semaphore(id) => {
            if id < semaphores.len() && semaphores[id as int] is Some {
                semaphores[id as int]->Some_0 as nat
            } else {
                0
            }
        },
    }
}

/// The per-process synchronization state: the registry of primitive slots,
/// the accounting tables and the deadlock-detection flag, shared by all
/// threads of one process under its exclusive-access section.
pub struct ProcessSyncState {
    mutex_list: Vec<Option<MutexKind>>,
    semaphore_list: Vec<Option<usize>>,
    condvar_list: Vec<Option<CondvarSlot>>,
    available: ResourceCounter,
    allocation: Vec<ResourceCounter>,
    need: Vec<ResourceCounter>,
    enable_deadlock_detect: bool,
}

impl ProcessSyncState {
    /// The counter of units not held by any thread.
    pub closed spec fn available_counter(&self) -> ResourceCounter {
        self.available
    }

    /// Per-thread counters of held units, indexed by tid.
    pub closed spec fn alloc_table(&self) -> Seq<ResourceCounter> {
        self.allocation@
    }

    /// Per-thread counters of outstanding requests, indexed by tid.
    pub closed spec fn need_table(&self) -> Seq<ResourceCounter> {
        self.need@
    }

    /// The mutex registry slots.
    pub closed spec fn mutex_slots(&self) -> Seq<Option<MutexKind>> {
        self.mutex_list@
    }

    /// The semaphore registry slots, each recording its creation count.
    pub closed spec fn sem_slots(&self) -> Seq<Option<usize>> {
        self.semaphore_list@
    }

    /// The condition-variable registry slots.
    pub closed spec fn condvar_slots(&self) -> Seq<Option<CondvarSlot>> {
        self.condvar_list@
    }

    /// Whether lock and down requests run the safety check.
    pub closed spec fn detect_on(&self) -> bool {
        self.enable_deadlock_detect
    }

    /// Units of `r` not currently held by any thread.
    pub open spec fn avail(&self, r: Resource) -> nat {
        self.available_counter().count(r)
    }

    /// Units of `r` held by thread `tid`; zero outside the tables.
    pub open spec fn alloc_of(&self, tid: int, r: Resource) -> nat {
        count_at(self.alloc_table(), tid, r)
    }

    /// Units of `r` thread `tid` is blocked requesting; zero outside the tables.
    pub open spec fn need_of(&self, tid: int, r: Resource) -> nat {
        count_at(self.need_table(), tid, r)
    }

    /// Number of thread slots the tables currently cover.
    pub open spec fn threads(&self) -> int {
        self.alloc_table().len() as int
    }

    /// Units of `r` that exist for this process.
    pub open spec fn units(&self, r: Resource) -> nat {
        resource_units(self.mutex_slots(), self.sem_slots(), r)
    }

    /// Whether the accounting state admits a completion order for every
    /// known thread (the Banker's-algorithm safety property).
    pub open spec fn safe(&self) -> bool {
        is_safe_state(self.available_counter(), self.alloc_table(), self.need_table())
    }

    /// The mutex registry has an occupied slot `id`.
    pub open spec fn mutex_ok(&self, id: usize) -> bool {
        id < self.mutex_slots().len() && self.mutex_slots()[id as int] is Some
    }

    /// The semaphore registry has an occupied slot `id`.
    pub open spec fn sem_ok(&self, id: usize) -> bool {
        id < self.sem_slots().len() && self.sem_slots()[id as int] is Some
    }

    /// The condition-variable registry has an occupied slot `id`.
    pub open spec fn condvar_ok(&self, id: usize) -> bool {
        id < self.condvar_slots().len() && self.condvar_slots()[id as int] is Some
    }

    /// The accounting invariant: the tables are aligned and their counters
    /// well-formed, and for every resource the available units plus the
    /// units held across all threads equal the units created for it.
    pub closed spec fn wf(&self) -> bool {
        &&& self.available.wf()
        &&& self.allocation@.len() == self.need@.len()
        &&& (forall|t: int| 0 <= t < self.allocation@.len() ==> (#[trigger] self.allocation@[t]).wf())
        &&& (forall|t: int| 0 <= t < self.need@.len() ==> (#[trigger] self.need@[t]).wf())
        &&& (forall|r: Resource|
            #[trigger] self.available.count(r) + table_sum(self.allocation@, r) == resource_units(
                self.mutex_list@,
                self.semaphore_list@,
                r,
            ))
    }

    /// Units of `r` not currently held by any thread.
    pub fn available_count(&self, r: Resource) -> (amount: usize)
        requires
            self.wf(),
        ensures
            amount == self.avail(r),
    {
        self.available.get(r)
    }

    /// Units of `r` the accounting records as held by thread `tid`.
    pub fn allocation_count(&self, tid: usize, r: Resource) -> (amount: usize)
        requires
            self.wf(),
        ensures
            amount == self.alloc_of(tid as int, r),
    {
        if tid < self.allocation.len() {
            self.allocation[tid].get(r)
        } else {
            0
        }
    }

    /// Units of `r` the accounting records thread `tid` as blocked requesting.
    pub fn need_count(&self, tid: usize, r: Resource) -> (amount: usize)
        requires
            self.wf(),
        ensures
            amount == self.need_of(tid as int, r),
    {
        if tid < self.need.len() {
            self.need[tid].get(r)
        } else {
            0
        }
    }

    /// Whether deadlock detection is currently switched on.
    pub fn detection_enabled(&self) -> (on: bool)
        ensures
            on == self.detect_on(),
    {
        self.enable_deadlock_detect
    }

    /// Grows the accounting tables so that index `tid` exists; new threads
    /// start with empty counters, so no recorded count changes.
    fn extend_tables(&mut self, tid: usize)
        requires
            old(self).wf(),
            tid < usize::MAX,
        ensures
            final(self).wf(),
            final(self).alloc_table().len() == if old(self).threads() >= tid + 1 {
                old(self).threads()
            } else {
                tid + 1
            },
            final(self).need_table().len() == final(self).alloc_table().len(),
            tid < final(self).alloc_table().len(),
            forall|t: int, r: Resource|
                #[trigger] final(self).alloc_of(t, r) == old(self).alloc_of(t, r),
            forall|t: int, r: Resource|
                #[trigger] final(self).need_of(t, r) == old(self).need_of(t, r),
            forall|r: Resource|
                #[trigger] table_sum(final(self).alloc_table(), r) == table_sum(
                    old(self).alloc_table(),
                    r,
                ),
            final(self).available_counter() == old(self).available_counter(),
            final(self).mutex_slots() == old(self).mutex_slots(),
            final(self).sem_slots() == old(self).sem_slots(),
            final(self).condvar_slots() == old(self).condvar_slots(),
            final(self).detect_on() == old(self).detect_on(),
    {
        let base = self.allocation.len();
        while self.allocation.len() < tid + 1
            invariant
                tid < usize::MAX,
                base == old(self).allocation@.len(),
                self.allocation@.len() >= base,
                base < tid + 1 ==> self.allocation@.len() <= tid + 1,
                base >= tid + 1 ==> self.allocation@.len() == base,
                self.need@.len() == self.allocation@.len(),
                old(self).need@.len() == base,
                forall|t: int| 0 <= t < base ==> self.allocation@[t] == old(self).allocation@[t],
                forall|t: int| 0 <= t < base ==> self.need@[t] == old(self).need@[t],
                forall|t: int|
                    base <= t < self.allocation@.len() ==> (#[trigger] self.allocation@[t]).wf()
                        && forall|r: Resource| self.allocation@[t].count(r) == 0,
                forall|t: int|
                    base <= t < self.need@.len() ==> (#[trigger] self.need@[t]).wf() && forall|
                        r: Resource,
                    | self.need@[t].count(r) == 0,
                forall|r: Resource|
                    #[trigger] table_sum(self.allocation@, r) == table_sum(
                        old(self).allocation@,
                        r,
                    ),
                self.available == old(self).available,
                self.mutex_list@ == old(self).mutex_list@,
                self.semaphore_list@ == old(self).semaphore_list@,
                self.condvar_list@ == old(self).condvar_list@,
                self.enable_deadlock_detect == old(self).enable_deadlock_detect,
            decreases tid + 1 - self.allocation@.len(),
        {
            let ghost pre = self.allocation@;
            self.allocation.push(ResourceCounter::new());
            self.need.push(ResourceCounter::new());
            proof {
                assert forall|r: Resource|
                    #[trigger] table_sum(self.allocation@, r) == table_sum(
                        old(self).allocation@,
                        r,
                    ) by {
                    lemma_table_sum_push(pre, self.allocation@.last(), r);
                }
            }
        }
        proof {
            assert(old(self).wf());
            assert forall|t: int, r: Resource|
                #[trigger] count_at(self.allocation@, t, r) == count_at(
                old(self).allocation@,
                t,
                r,
            ) by {}
            assert forall|t: int, r: Resource|
                #[trigger] count_at(self.need@, t, r) == count_at(old(self).need@, t, r) by {}
        }
    }

    /// Admission protocol for a lock or down request: claim a free unit of
    /// `r` for thread `tid` if one is available, otherwise record one unit
    /// of outstanding need; when detection is on and the resulting state is
    /// unsafe, report the denial code.  The bookkeeping is not reverted on
    /// denial: the caller sees the denial code and must not assume the
    /// accounting is unchanged.
    fn admit_request(&mut self, tid: usize, r: Resource) -> (code: isize)
        requires
            old(self).wf(),
            tid < usize::MAX,
            old(self).need_of(tid as int, r) < usize::MAX,
        ensures
            final(self).wf(),
            final(self).mutex_slots() == old(self).mutex_slots(),
            final(self).sem_slots() == old(self).sem_slots(),
            final(self).condvar_slots() == old(self).condvar_slots(),
            final(self).detect_on() == old(self).detect_on(),
            final(self).threads() == if old(self).threads() >= tid + 1 {
                old(self).threads()
            } else {
                tid + 1
            },
            final(self).need_table().len() == final(self).alloc_table().len(),
            ({
                let step = lock_step(
                    old(self).avail(r),
                    old(self).alloc_of(tid as int, r),
                    old(self).need_of(tid as int, r),
                );
                &&& final(self).avail(r) == step.0
                &&& final(self).alloc_of(tid as int, r) == step.1
                &&& final(self).need_of(tid as int, r) == step.2
            }),
            forall|r2: Resource| r2 != r ==> final(self).avail(r2) == old(self).avail(r2),
            forall|t2: int, r2: Resource|
                t2 != tid || r2 != r ==> #[trigger] final(self).alloc_of(t2, r2) == old(
                    self,
                ).alloc_of(t2, r2),
            forall|t2: int, r2: Resource|
                t2 != tid || r2 != r ==> #[trigger] final(self).need_of(t2, r2) == old(
                    self,
                ).need_of(t2, r2),
            code == -DEADLOCK_CODE <==> old(self).detect_on() && !final(self).safe(),
            code == 0 <==> !(old(self).detect_on() && !final(self).safe()),
    {
        self.extend_tables(tid);
        let ghost s0 = *self;
        proof {
            lemma_units_bounded(self.mutex_list@, self.semaphore_list@);
            lemma_count_at_le_table(self.allocation@, tid as int, r);
        }
        let got = self.available.take(r, 1);
        let ghost s1 = *self;
        let alloc_tid = &mut self.allocation[tid];
        alloc_tid.increase(r, got);
        proof {
            assert(self.allocation@ == s1.allocation@.update(
                tid as int,
                self.allocation@[tid as int],
            ));
            assert forall|r2: Resource|
                #[trigger] self.available.count(r2) + table_sum(self.allocation@, r2)
                    == resource_units(self.mutex_list@, self.semaphore_list@, r2) by {
                lemma_table_sum_update(
                    s1.allocation@,
                    tid as int,
                    self.allocation@[tid as int],
                    r2,
                );
                assert(s0.available.count(r2) + table_sum(s0.allocation@, r2) == resource_units(
                    s0.mutex_list@,
                    s0.semaphore_list@,
                    r2,
                ));
            }
        }
        let ghost s2 = *self;
        proof {
            assert(s2.need@ == s0.need@);
            assert(s0.need_of(tid as int, r) == old(self).need_of(tid as int, r));
            assert(s2.need@[tid as int].count(r) == count_at(s0.need@, tid as int, r));
        }
        let need_tid = &mut self.need[tid];
        need_tid.increase(r, 1 - got);
        proof {
            assert(self.need@ == s2.need@.update(tid as int, self.need@[tid as int]));
            assert(self.wf());
            lemma_units_bounded(self.mutex_list@, self.semaphore_list@);
            let s3 = *self;
            assert(tid < s3.allocation@.len());
            assert(tid < s3.need@.len());
            assert(s0.avail(r) == old(self).avail(r));
            assert(s0.alloc_of(tid as int, r) == old(self).alloc_of(tid as int, r));
            assert(s0.alloc_of(tid as int, r) == s0.allocation@[tid as int].count(r));
            assert(s0.need_of(tid as int, r) == s0.need@[tid as int].count(r));
            assert(s3.available.count(r) == s0.available.count(r) - got);
            assert(s3.allocation@[tid as int].count(r) == s0.allocation@[tid as int].count(r)
                + got);
            assert(s3.need@[tid as int].count(r) == s0.need@[tid as int].count(r) + (1 - got));
            assert forall|r2: Resource| r2 != r implies s3.avail(r2) == old(self).avail(r2) by {
                assert(s0.avail(r2) == old(self).avail(r2));
            }
            assert forall|t2: int, r2: Resource|
                t2 != tid || r2 != r implies #[trigger] s3.alloc_of(t2, r2) == old(self).alloc_of(
                t2,
                r2,
            ) by {
                assert(s0.alloc_of(t2, r2) == old(self).alloc_of(t2, r2));
                if 0 <= t2 < s3.allocation@.len() && t2 != tid {
                    assert(s3.allocation@[t2] == s0.allocation@[t2]);
                }
            }
            assert forall|t2: int, r2: Resource|
                t2 != tid || r2 != r implies #[trigger] s3.need_of(t2, r2) == old(self).need_of(
                t2,
                r2,
            ) by {
                assert(s0.need_of(t2, r2) == old(self).need_of(t2, r2));
                if 0 <= t2 < s3.need@.len() && t2 != tid {
                    assert(s3.need@[t2] == s0.need@[t2]);
                }
            }
        }
        if self.enable_deadlock_detect && !is_safe(&self.available, &self.allocation, &self.need) {
            return -DEADLOCK_CODE;
        }
        0
    }

    /// Release protocol for an unlock or up request: move the one held unit
    /// of `r` (none if the thread holds none) back to the available pool and
    /// clear any residual outstanding need of the thread for `r`.
    fn release_resource(&mut self, tid: usize, r: Resource)
        requires
            old(self).wf(),
            tid < usize::MAX,
        ensures
            final(self).wf(),
            final(self).mutex_slots() == old(self).mutex_slots(),
            final(self).sem_slots() == old(self).sem_slots(),
            final(self).condvar_slots() == old(self).condvar_slots(),
            final(self).detect_on() == old(self).detect_on(),
            final(self).threads() == if old(self).threads() >= tid + 1 {
                old(self).threads()
            } else {
                tid + 1
            },
            final(self).need_table().len() == final(self).alloc_table().len(),
            ({
                let step = unlock_step(
                    old(self).avail(r),
                    old(self).alloc_of(tid as int, r),
                    old(self).need_of(tid as int, r),
                );
                &&& final(self).avail(r) == step.0
                &&& final(self).alloc_of(tid as int, r) == step.1
                &&& final(self).need_of(tid as int, r) == step.2
            }),
            forall|r2: Resource| r2 != r ==> final(self).avail(r2) == old(self).avail(r2),
            forall|t2: int, r2: Resource|
                t2 != tid || r2 != r ==> #[trigger] final(self).alloc_of(t2, r2) == old(
                    self,
                ).alloc_of(t2, r2),
            forall|t2: int, r2: Resource|
                t2 != tid || r2 != r ==> #[trigger] final(self).need_of(t2, r2) == old(
                    self,
                ).need_of(t2, r2),
    {
        self.extend_tables(tid);
        let ghost s0 = *self;
        proof {
            lemma_units_bounded(self.mutex_list@, self.semaphore_list@);
            lemma_count_at_le_table(self.allocation@, tid as int, r);
        }
        let alloc_tid = &mut self.allocation[tid];
        let freed = alloc_tid.take(r, 1);
        proof {
            assert(self.allocation@ == s0.allocation@.update(
                tid as int,
                self.allocation@[tid as int],
            ));
            assert forall|r2: Resource|
                #[trigger] table_sum(self.allocation@, r2) == table_sum(s0.allocation@, r2) - (
                if r2 == r {
                    freed as nat
                } else {
                    0
                }) by {
                lemma_table_sum_update(
                    s0.allocation@,
                    tid as int,
                    self.allocation@[tid as int],
                    r2,
                );
            }
        }
        proof {
            assert(self.available.count(r) + freed <= usize::MAX) by {
                assert(s0.available.count(r) + table_sum(s0.allocation@, r) == resource_units(
                    s0.mutex_list@,
                    s0.semaphore_list@,
                    r,
                ));
                assert(freed <= s0.allocation@[tid as int].count(r));
                assert(s0.allocation@[tid as int].count(r) <= table_sum(s0.allocation@, r));
                assert(resource_units(s0.mutex_list@, s0.semaphore_list@, r) <= usize::MAX);
            }
        }
        self.available.increase(r, freed);
        let ghost s2 = *self;
        proof {
            assert(s2.need@ == s0.need@);
            assert(s2.need@[tid as int].count(r) == count_at(s0.need@, tid as int, r));
            s2.need@[tid as int].lemma_counts_bounded();
        }
        let need_tid = &mut self.need[tid];
        need_tid.take(r, usize::MAX);
        proof {
            assert(self.need@ == s2.need@.update(tid as int, self.need@[tid as int]));
            assert(self.wf());
            let s3 = *self;
            assert(tid < s3.allocation@.len());
            assert(tid < s3.need@.len());
            assert(s0.avail(r) == old(self).avail(r));
            assert(s0.alloc_of(tid as int, r) == old(self).alloc_of(tid as int, r));
            assert(s0.alloc_of(tid as int, r) == s0.allocation@[tid as int].count(r));
            assert(s0.need_of(tid as int, r) == s0.need@[tid as int].count(r));
            assert(s3.available.count(r) == s0.available.count(r) + freed);
            assert(s3.allocation@[tid as int].count(r) == s0.allocation@[tid as int].count(r)
                - freed);
            assert(s3.need@[tid as int].count(r) == 0);
            assert forall|r2: Resource| r2 != r implies s3.avail(r2) == old(self).avail(r2) by {
                assert(s0.avail(r2) == old(self).avail(r2));
            }
            assert forall|t2: int, r2: Resource|
                t2 != tid || r2 != r implies #[trigger] s3.alloc_of(t2, r2) == old(self).alloc_of(
                t2,
                r2,
            ) by {
                assert(s0.alloc_of(t2, r2) == old(self).alloc_of(t2, r2));
                if 0 <= t2 < s3.allocation@.len() && t2 != tid {
                    assert(s3.allocation@[t2] == s0.allocation@[t2]);
                }
            }
            assert forall|t2: int, r2: Resource|
                t2 != tid || r2 != r implies #[trigger] s3.need_of(t2, r2) == old(self).need_of(
                t2,
                r2,
            ) by {
                assert(s0.need_of(t2, r2) == old(self).need_of(t2, r2));
                if 0 <= t2 < s3.need@.len() && t2 != tid {
                    assert(s3.need@[t2] == s0.need@[t2]);
                }
            }
        }
    }

    /// A fresh process starts with empty registries, empty tables and the
    /// deadlock detection switched off.
    pub fn new() -> (state: ProcessSyncState)
        ensures
            state.wf(),
            state.mutex_slots() == Seq::<Option<MutexKind>>::empty(),
            state.sem_slots() == Seq::<Option<usize>>::empty(),
            state.condvar_slots() == Seq::<Option<CondvarSlot>>::empty(),
            state.threads() == 0,
            state.need_table().len() == 0,
            forall|r: Resource| state.avail(r) == 0,
            !state.detect_on(),
    {
        ProcessSyncState {
            mutex_list: Vec::new(),
            semaphore_list: Vec::new(),
            condvar_list: Vec::new(),
            available: ResourceCounter::new(),
            allocation: Vec::new(),
            need: Vec::new(),
            enable_deadlock_detect: false,
        }
    }
}

/// The first free registry slot, if any slot is free.
fn find_free_slot<T>(slots: &Vec<Option<T>>) -> (free: Option<usize>)
    ensures
        match free {
            Some(i) => i < slots@.len() && slots@[i as int] is None && forall|j: int|
                0 <= j < i ==> (#[trigger] slots@[j]) is Some,
            None => forall|j: int| 0 <= j < slots@.len() ==> (#[trigger] slots@[j]) is Some,
        },
{
    let n = slots.len();
    let mut i: usize = 0;
    while i < n
        invariant
            i <= n,
            n == slots@.len(),
            forall|j: int| 0 <= j < i ==> (#[trigger] slots@[j]) is Some,
        decreases n - i,
    {
        if slots[i].is_none() {
            return Some(i);
        }
        i = i + 1;
    }
    None
}

/// Stores `value` in the first free slot, growing the registry only when
/// every slot is occupied; freed slots are reused before the list grows.
fn alloc_slot<T>(slots: &mut Vec<Option<T>>, value: T) -> (id: usize)
    requires
        old(slots)@.len() < usize::MAX,
    ensures
        id <= old(slots)@.len(),
        forall|j: int| 0 <= j < id ==> (#[trigger] old(slots)@[j]) is Some,
        id < old(slots)@.len() ==> old(slots)@[id as int] is None && final(slots)@ == old(
            slots,
        )@.update(id as int, Some(value)),
        id == old(slots)@.len() ==> final(slots)@ == old(slots)@.push(Some(value)),
{
    match find_free_slot(slots) {
        Some(i) => {
            slots[i] = Some(value);
            i
        },
        None => {
            slots.push(Some(value));
            slots.len() - 1
        },
    }
}

/// Creates a mutex: stores a handle of the requested kind in the first free
/// mutex slot (spin-waiting when `blocking` is false, queue-blocking
/// otherwise) and registers its one unit as available.  Returns the slot id.
pub fn sys_mutex_create(proc: &mut ProcessSyncState, blocking: bool) -> (slot: isize)
    requires
        old(proc).wf(),
        old(proc).mutex_slots().len() < isize::MAX,
    ensures
        final(proc).wf(),
        slot >= 0,
        ({
            let id = slot as int;
            let kind = if blocking {
                MutexKind::Blocking
            } else {
                MutexKind::Spin
            };
            &&& id <= old(proc).mutex_slots().len()
            &&& (forall|j: int| 0 <= j < id ==> (#[trigger] old(proc).mutex_slots()[j]) is Some)
            &&& (id < old(proc).mutex_slots().len() ==> old(proc).mutex_slots()[id] is None
                && final(proc).mutex_slots() == old(proc).mutex_slots().update(id, Some(kind)))
            &&& (id == old(proc).mutex_slots().len() ==> final(proc).mutex_slots() == old(
                proc,
            ).mutex_slots().push(Some(kind)))
            &&& final(proc).mutex_ok(slot as usize)
            &&& final(proc).avail(Resource::Mutex(slot as usize)) == 1
            &&& (forall|r2: Resource|
                r2 != Resource::Mutex(slot as usize) ==> final(proc).avail(r2) == old(proc).avail(
                    r2,
                ))
        }),
        final(proc).sem_slots() == old(proc).sem_slots(),
        final(proc).condvar_slots() == old(proc).condvar_slots(),
        final(proc).alloc_table() == old(proc).alloc_table(),
        final(proc).need_table() == old(proc).need_table(),
        final(proc).detect_on() == old(proc).detect_on(),
{
    let kind = if blocking {
        MutexKind::Blocking
    } else {
        MutexKind::Spin
    };
    let id = alloc_slot(&mut proc.mutex_list, kind);
    proof {
        let r = Resource::Mutex(id);
        assert(old(proc).available.count(r) + table_sum(old(proc).allocation@, r)
            == resource_units(old(proc).mutex_list@, old(proc).semaphore_list@, r));
        assert(resource_units(old(proc).mutex_list@, old(proc).semaphore_list@, r) == 0);
        assert(proc.available.count(r) == 0);
    }
    proc.available.increase(Resource::Mutex(id), 1);
    proof {
        assert forall|r2: Resource|
            #[trigger] proc.available.count(r2) + table_sum(proc.allocation@, r2)
                == resource_units(proc.mutex_list@, proc.semaphore_list@, r2) by {
            assert(old(proc).available.count(r2) + table_sum(old(proc).allocation@, r2)
                == resource_units(old(proc).mutex_list@, old(proc).semaphore_list@, r2));
            match r2 {
                Resource::Mutex(id2) => {
                    if id2 != id {
                        assert(resource_units(proc.mutex_list@, proc.semaphore_list@, r2)
                            == resource_units(old(proc).mutex_list@, old(proc).semaphore_list@, r2));
                    }
                },
                Resource::Semaphore(_) => {},
            }
        }
    }
    id as isize
}

/// Locks a mutex for thread `tid`: runs the admission protocol on the
/// mutex's one unit.  Returns `0` when admitted (the caller must then invoke
/// the external mutex's lock, which may suspend the thread), the negated
/// denial code when the safety check refuses the request, and `-1` for a
/// handle that names no occupied mutex slot (the state is then unchanged).
/// A denied call fails without suspending anyone but keeps the provisional
/// accounting of steps already taken, as the contract states: the caller
/// must not assume the state is clean after a denial.
pub fn sys_mutex_lock(proc: &mut ProcessSyncState, tid: usize, mutex_id: usize) -> (code: isize)
    requires
        old(proc).wf(),
        tid < usize::MAX,
        old(proc).need_of(tid as int, Resource::Mutex(mutex_id)) < usize::MAX,
    ensures
        final(proc).wf(),
        !old(proc).mutex_ok(mutex_id) ==> code == -1 && *final(proc) == *old(proc),
        old(proc).mutex_ok(mutex_id) ==> ({
            let r = Resource::Mutex(mutex_id);
            let step = lock_step(
                old(proc).avail(r),
                old(proc).alloc_of(tid as int, r),
                old(proc).need_of(tid as int, r),
            );
            &&& final(proc).avail(r) == step.0
            &&& final(proc).alloc_of(tid as int, r) == step.1
            &&& final(proc).need_of(tid as int, r) == step.2
            &&& (forall|r2: Resource| r2 != r ==> final(proc).avail(r2) == old(proc).avail(r2))
            &&& (forall|t2: int, r2: Resource|
                t2 != tid || r2 != r ==> #[trigger] final(proc).alloc_of(t2, r2) == old(
                    proc,
                ).alloc_of(t2, r2))
            &&& (forall|t2: int, r2: Resource|
                t2 != tid || r2 != r ==> #[trigger] final(proc).need_of(t2, r2) == old(
                    proc,
                ).need_of(t2, r2))
            &&& final(proc).threads() == if old(proc).threads() >= tid + 1 {
                old(proc).threads()
            } else {
                tid + 1
            }
            &&& final(proc).mutex_slots() == old(proc).mutex_slots()
            &&& final(proc).sem_slots() == old(proc).sem_slots()
            &&& final(proc).condvar_slots() == old(proc).condvar_slots()
            &&& final(proc).detect_on() == old(proc).detect_on()
            &&& (code == -DEADLOCK_CODE <==> old(proc).detect_on() && !final(proc).safe())
            &&& (code == 0 <==> !(old(proc).detect_on() && !final(proc).safe()))
        }),
{
    if mutex_id >= proc.mutex_list.len() {
        return -1;
    }
    if proc.mutex_list[mutex_id].is_none() {
        return -1;
    }
    proc.admit_request(tid, Resource::Mutex(mutex_id))
}

/// Unlocks a mutex for thread `tid`: runs the release protocol on the
/// mutex's unit.  Returns `0` when the handle names an occupied mutex slot
/// (the caller must then invoke the external mutex's unlock, which wakes a
/// suspended thread), and `-1` otherwise, leaving the state unchanged.
pub fn sys_mutex_unlock(proc: &mut ProcessSyncState, tid: usize, mutex_id: usize) -> (code: isize)
    requires
        old(proc).wf(),
        tid < usize::MAX,
    ensures
        final(proc).wf(),
        !old(proc).mutex_ok(mutex_id) ==> code == -1 && *final(proc) == *old(proc),
        old(proc).mutex_ok(mutex_id) ==> code == 0 && ({
            let r = Resource::Mutex(mutex_id);
            let step = unlock_step(
                old(proc).avail(r),
                old(proc).alloc_of(tid as int, r),
                old(proc).need_of(tid as int, r),
            );
            &&& final(proc).avail(r) == step.0
            &&& final(proc).alloc_of(tid as int, r) == step.1
            &&& final(proc).need_of(tid as int, r) == step.2
            &&& (forall|r2: Resource| r2 != r ==> final(proc).avail(r2) == old(proc).avail(r2))
            &&& (forall|t2: int, r2: Resource|
                t2 != tid || r2 != r ==> #[trigger] final(proc).alloc_of(t2, r2) == old(
                    proc,
                ).alloc_of(t2, r2))
            &&& (forall|t2: int, r2: Resource|
                t2 != tid || r2 != r ==> #[trigger] final(proc).need_of(t2, r2) == old(
                    proc,
                ).need_of(t2, r2))
            &&& final(proc).threads() == if old(proc).threads() >= tid + 1 {
                old(proc).threads()
            } else {
                tid + 1
            }
            &&& final(proc).mutex_slots() == old(proc).mutex_slots()
            &&& final(proc).sem_slots() == old(proc).sem_slots()
            &&& final(proc).condvar_slots() == old(proc).condvar_slots()
            &&& final(proc).detect_on() == old(proc).detect_on()
        }),
{
    if mutex_id >= proc.mutex_list.len() {
        return -1;
    }
    if proc.mutex_list[mutex_id].is_none() {
        return -1;
    }
    proc.release_resource(tid, Resource::Mutex(mutex_id));
    0
}

/// Creates a semaphore with `res_count` initial units: the accounting
/// tables are first extended to cover `tid`, a handle is stored in the
/// first free semaphore slot, and `res_count` units become available.
/// Returns the slot id.
pub fn sys_semaphore_create(proc: &mut ProcessSyncState, tid: usize, res_count: usize) -> (slot:
    isize)
    requires
        old(proc).wf(),
        tid < usize::MAX,
        old(proc).sem_slots().len() < isize::MAX,
    ensures
        final(proc).wf(),
        slot >= 0,
        ({
            let id = slot as int;
            &&& id <= old(proc).sem_slots().len()
            &&& (forall|j: int| 0 <= j < id ==> (#[trigger] old(proc).sem_slots()[j]) is Some)
            &&& (id < old(proc).sem_slots().len() ==> old(proc).sem_slots()[id] is None && final(proc).sem_slots() == old(proc).sem_slots().update(id, Some(res_count)))
            &&& (id == old(proc).sem_slots().len() ==> final(proc).sem_slots() == old(
                proc,
            ).sem_slots().push(Some(res_count)))
            &&& final(proc).sem_ok(slot as usize)
            &&& final(proc).avail(Resource::Semaphore(slot as usize)) == res_count
            &&& (forall|r2: Resource|
                r2 != Resource::Semaphore(slot as usize) ==> final(proc).avail(r2) == old(
                    proc,
                ).avail(r2))
        }),
        final(proc).mutex_slots() == old(proc).mutex_slots(),
        final(proc).condvar_slots() == old(proc).condvar_slots(),
        final(proc).detect_on() == old(proc).detect_on(),
        final(proc).threads() == if old(proc).threads() >= tid + 1 {
            old(proc).threads()
        } else {
            tid + 1
        },
        final(proc).need_table().len() == final(proc).alloc_table().len(),
        forall|t2: int, r2: Resource|
            #[trigger] final(proc).alloc_of(t2, r2) == old(proc).alloc_of(t2, r2),
        forall|t2: int, r2: Resource|
            #[trigger] final(proc).need_of(t2, r2) == old(proc).need_of(t2, r2),
{
    proc.extend_tables(tid);
    let ghost s0 = *proc;
    let id = alloc_slot(&mut proc.semaphore_list, res_count);
    proof {
        let r = Resource::Semaphore(id);
        assert(s0.available.count(r) + table_sum(s0.allocation@, r) == resource_units(
            s0.mutex_list@,
            s0.semaphore_list@,
            r,
        ));
        assert(resource_units(s0.mutex_list@, s0.semaphore_list@, r) == 0);
        assert(proc.available.count(r) == 0);
    }
    proc.available.increase(Resource::Semaphore(id), res_count);
    proof {
        assert forall|r2: Resource|
            #[trigger] proc.available.count(r2) + table_sum(proc.allocation@, r2)
                == resource_units(proc.mutex_list@, proc.semaphore_list@, r2) by {
            assert(s0.available.count(r2) + table_sum(s0.allocation@, r2) == resource_units(
                s0.mutex_list@,
                s0.semaphore_list@,
                r2,
            ));
            match r2 {
                Resource::Semaphore(id2) => {
                    if id2 != id {
                        assert(resource_units(proc.mutex_list@, proc.semaphore_list@, r2)
                            == resource_units(s0.mutex_list@, s0.semaphore_list@, r2));
                    }
                },
                Resource::Mutex(_) => {},
            }
        }
        assert forall|t2: int, r2: Resource|
            #[trigger] proc.alloc_of(t2, r2) == old(proc).alloc_of(t2, r2) by {
            assert(s0.alloc_of(t2, r2) == old(proc).alloc_of(t2, r2));
            assert(proc.allocation@ == s0.allocation@);
        }
        assert forall|t2: int, r2: Resource|
            #[trigger] proc.need_of(t2, r2) == old(proc).need_of(t2, r2) by {
            assert(s0.need_of(t2, r2) == old(proc).need_of(t2, r2));
            assert(proc.need@ == s0.need@);
        }
    }
    id as isize
}

/// Releases one semaphore unit held by thread `tid` (the release protocol).
/// Returns `0` when the handle names an occupied semaphore slot (the caller
/// must then invoke the external semaphore's up, which wakes a suspended
/// thread), and `-1` otherwise, leaving the state unchanged.
pub fn sys_semaphore_up(proc: &mut ProcessSyncState, tid: usize, sem_id: usize) -> (code: isize)
    requires
        old(proc).wf(),
        tid < usize::MAX,
    ensures
        final(proc).wf(),
        !old(proc).sem_ok(sem_id) ==> code == -1 && *final(proc) == *old(proc),
        old(proc).sem_ok(sem_id) ==> code == 0 && ({
            let r = Resource::Semaphore(sem_id);
            let step = unlock_step(
                old(proc).avail(r),
                old(proc).alloc_of(tid as int, r),
                old(proc).need_of(tid as int, r),
            );
            &&& final(proc).avail(r) == step.0
            &&& final(proc).alloc_of(tid as int, r) == step.1
            &&& final(proc).need_of(tid as int, r) == step.2
            &&& (forall|r2: Resource| r2 != r ==> final(proc).avail(r2) == old(proc).avail(r2))
            &&& (forall|t2: int, r2: Resource|
                t2 != tid || r2 != r ==> #[trigger] final(proc).alloc_of(t2, r2) == old(
                    proc,
                ).alloc_of(t2, r2))
            &&& (forall|t2: int, r2: Resource|
                t2 != tid || r2 != r ==> #[trigger] final(proc).need_of(t2, r2) == old(
                    proc,
                ).need_of(t2, r2))
            &&& final(proc).threads() == if old(proc).threads() >= tid + 1 {
                old(proc).threads()
            } else {
                tid + 1
            }
            &&& final(proc).mutex_slots() == old(proc).mutex_slots()
            &&& final(proc).sem_slots() == old(proc).sem_slots()
            &&& final(proc).condvar_slots() == old(proc).condvar_slots()
            &&& final(proc).detect_on() == old(proc).detect_on()
        }),
{
    if sem_id >= proc.semaphore_list.len() {
        return -1;
    }
    if proc.semaphore_list[sem_id].is_none() {
        return -1;
    }
    proc.release_resource(tid, Resource::Semaphore(sem_id));
    0
}

/// Claims one semaphore unit for thread `tid` (the admission protocol).
/// Returns `0` when admitted (the caller must then invoke the external
/// semaphore's down, which may suspend the thread), the negated denial code
/// when the safety check refuses the request, and `-1` for a handle that
/// names no occupied semaphore slot (the state is then unchanged).  As with
/// a mutex lock, a denied call keeps the provisional accounting.
pub fn sys_semaphore_down(proc: &mut ProcessSyncState, tid: usize, sem_id: usize) -> (code: isize)
    requires
        old(proc).wf(),
        tid < usize::MAX,
        old(proc).need_of(tid as int, Resource::Semaphore(sem_id)) < usize::MAX,
    ensures
        final(proc).wf(),
        !old(proc).sem_ok(sem_id) ==> code == -1 && *final(proc) == *old(proc),
        old(proc).sem_ok(sem_id) ==> ({
            let r = Resource::Semaphore(sem_id);
            let step = lock_step(
                old(proc).avail(r),
                old(proc).alloc_of(tid as int, r),
                old(proc).need_of(tid as int, r),
            );
            &&& final(proc).avail(r) == step.0
            &&& final(proc).alloc_of(tid as int, r) == step.1
            &&& final(proc).need_of(tid as int, r) == step.2
            &&& (forall|r2: Resource| r2 != r ==> final(proc).avail(r2) == old(proc).avail(r2))
            &&& (forall|t2: int, r2: Resource|
                t2 != tid || r2 != r ==> #[trigger] final(proc).alloc_of(t2, r2) == old(
                    proc,
                ).alloc_of(t2, r2))
            &&& (forall|t2: int, r2: Resource|
                t2 != tid || r2 != r ==> #[trigger] final(proc).need_of(t2, r2) == old(
                    proc,
                ).need_of(t2, r2))
            &&& final(proc).threads() == if old(proc).threads() >= tid + 1 {
                old(proc).threads()
            } else {
                tid + 1
            }
            &&& final(proc).mutex_slots() == old(proc).mutex_slots()
            &&& final(proc).sem_slots() == old(proc).sem_slots()
            &&& final(proc).condvar_slots() == old(proc).condvar_slots()
            &&& final(proc).detect_on() == old(proc).detect_on()
            &&& (code == -DEADLOCK_CODE <==> old(proc).detect_on() && !final(proc).safe())
            &&& (code == 0 <==> !(old(proc).detect_on() && !final(proc).safe()))
        }),
{
    if sem_id >= proc.semaphore_list.len() {
        return -1;
    }
    if proc.semaphore_list[sem_id].is_none() {
        return -1;
    }
    proc.admit_request(tid, Resource::Semaphore(sem_id))
}

/// Creates a condition variable: stores a handle in the first free condvar
/// slot.  No accounting is registered — waiting on a condition variable is
/// not a countable need.  Returns the slot id.
pub fn sys_condvar_create(proc: &mut ProcessSyncState) -> (slot: isize)
    requires
        old(proc).wf(),
        old(proc).condvar_slots().len() < isize::MAX,
    ensures
        final(proc).wf(),
        slot >= 0,
        ({
            let id = slot as int;
            &&& id <= old(proc).condvar_slots().len()
            &&& (forall|j: int| 0 <= j < id ==> (#[trigger] old(proc).condvar_slots()[j]) is Some)
            &&& (id < old(proc).condvar_slots().len() ==> old(proc).condvar_slots()[id] is None
                && final(proc).condvar_slots() == old(proc).condvar_slots().update(
                id,
                Some(CondvarSlot {  }),
            ))
            &&& (id == old(proc).condvar_slots().len() ==> final(proc).condvar_slots() == old(
                proc,
            ).condvar_slots().push(Some(CondvarSlot {  })))
            &&& final(proc).condvar_ok(slot as usize)
        }),
        final(proc).mutex_slots() == old(proc).mutex_slots(),
        final(proc).sem_slots() == old(proc).sem_slots(),
        final(proc).available_counter() == old(proc).available_counter(),
        final(proc).alloc_table() == old(proc).alloc_table(),
        final(proc).need_table() == old(proc).need_table(),
        final(proc).detect_on() == old(proc).detect_on(),
{
    let id = alloc_slot(&mut proc.condvar_list, CondvarSlot {  });
    id as isize
}

/// Signals a condition variable.  Returns `0` when the handle names an
/// occupied condvar slot (the caller must then invoke the external condition
/// variable's signal), and `-1` otherwise.  No accounting changes.
pub fn sys_condvar_signal(proc: &ProcessSyncState, condvar_id: usize) -> (code: isize)
    ensures
        code == 0 <==> proc.condvar_ok(condvar_id),
        code == -1 <==> !proc.condvar_ok(condvar_id),
{
    if condvar_id >= proc.condvar_list.len() {
        return -1;
    }
    if proc.condvar_list[condvar_id].is_none() {
        return -1;
    }
    0
}

/// Waits on a condition variable with an associated mutex.  Returns `0`
/// when both handles name occupied slots (the caller must then invoke the
/// external condition variable's wait, passing the mutex so the primitive
/// atomically releases it before suspending and reacquires it before
/// returning), and `-1` otherwise.  No accounting changes: a thread waiting
/// on a condition variable holds or requests no countable resource.
pub fn sys_condvar_wait(proc: &ProcessSyncState, condvar_id: usize, mutex_id: usize) -> (code:
    isize)
    ensures
        code == 0 <==> proc.condvar_ok(condvar_id) && proc.mutex_ok(mutex_id),
        code == -1 <==> !(proc.condvar_ok(condvar_id) && proc.mutex_ok(mutex_id)),
{
    if condvar_id >= proc.condvar_list.len() {
        return -1;
    }
    if proc.condvar_list[condvar_id].is_none() {
        return -1;
    }
    if mutex_id >= proc.mutex_list.len() {
        return -1;
    }
    if proc.mutex_list[mutex_id].is_none() {
        return -1;
    }
    0
}

/// Switches deadlock detection on (`1`) or off (`0`).  Any other argument
/// is rejected with `-1` and leaves the flag — and everything else — at its
/// prior value.  The effect applies to the next lock or down call; threads
/// already suspended are not re-checked.
pub fn sys_enable_deadlock_detect(proc: &mut ProcessSyncState, enabled: usize) -> (code: isize)
    requires
        old(proc).wf(),
    ensures
        final(proc).wf(),
        enabled == 0 || enabled == 1 ==> ({
            &&& code == 0
            &&& final(proc).detect_on() == (enabled == 1)
            &&& final(proc).mutex_slots() == old(proc).mutex_slots()
            &&& final(proc).sem_slots() == old(proc).sem_slots()
            &&& final(proc).condvar_slots() == old(proc).condvar_slots()
            &&& final(proc).available_counter() == old(proc).available_counter()
            &&& final(proc).alloc_table() == old(proc).alloc_table()
            &&& final(proc).need_table() == old(proc).need_table()
        }),
        !(enabled == 0 || enabled == 1) ==> code == -1 && *final(proc) == *old(proc),
{
    match enabled {
        0 | 1 => {},
        _ => {
            return -1;
        },
    }
    proc.enable_deadlock_detect = enabled == 1;
    0
}

/// Every resource's unit total fits in a machine word: a mutex contributes
/// one unit and a semaphore its creation count.
proof fn lemma_units_bounded(mutexes: Seq<Option<MutexKind>>, semaphores: Seq<Option<usize>>)
    ensures
        forall|r: Resource| #[trigger] resource_units(mutexes, semaphores, r) <= usize::MAX,
{
    assert forall|r: Resource| #[trigger] resource_units(mutexes, semaphores, r)
        <= usize::MAX by {
        match r {
            Resource::Mutex(_) => {},
            Resource::Semaphore(_) => {},
        }
    }
}

/// Conservation law: in a well-formed state the available units of a
/// resource plus the units held across all threads equal the units created
/// for it.
pub proof fn lemma_units_conserved(state: &ProcessSyncState, r: Resource)
    requires
        state.wf(),
    ensures
        state.avail(r) + table_sum(state.alloc_table(), r) == state.units(r),
{
}

/// Mutual exclusion law: a mutex contributes one unit in total, so across
/// every accounting snapshot of a well-formed state the threads together
/// hold at most one unit of it — at most one thread holds the mutex.
pub proof fn lemma_mutex_held_at_most_once(state: &ProcessSyncState, id: usize)
    requires
        state.wf(),
    ensures
        table_sum(state.alloc_table(), Resource::Mutex(id)) <= 1,
{
    lemma_units_conserved(state, Resource::Mutex(id));
}

/// Round-trip law: a lock admission followed by a release by the same
/// thread, starting from a snapshot in which the thread holds no unit of
/// the resource, restores the available count to its pre-lock value and
/// leaves both the thread's allocation and its need entry cleared — whether
/// or not a free unit was granted.
pub proof fn lemma_lock_unlock_round_trip(avail: nat, need: nat)
    ensures
        ({
            let granted = lock_step(avail, 0, need);
            let released = unlock_step(granted.0, granted.1, granted.2);
            released.0 == avail && released.1 == 0 && released.2 == 0
        }),
{
}

/// Available units of a semaphore after `k` lock-step admissions, each by a
/// thread holding and needing nothing beforehand.
pub open spec fn avail_after_downs(avail: nat, k: nat) -> nat
    decreases k,
{
    if k == 0 {
        avail
    } else {
        lock_step(avail_after_downs(avail, (k - 1) as nat), 0, 0).0
    }
}

/// Exhaustion law: a semaphore created with `n` units admits exactly `n`
/// down accountings before its available count reaches zero — after `k <= n`
/// downs without an up, `n - k` units remain, so the first `n` downs each
/// find a free unit and the next one records an outstanding need instead.
pub proof fn lemma_semaphore_downs_exhaust(n: nat, k: nat)
    requires
        k <= n,
    ensures
        avail_after_downs(n, k) == n - k,
    decreases k,
{
    if k > 0 {
        lemma_semaphore_downs_exhaust(n, (k - 1) as nat);
    }
}

} // verus!
