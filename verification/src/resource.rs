//! Identified, countable resources and the sparse counter that maps each
//! resource to a non-negative amount.

use vstd::prelude::*;

verus! {

/// A countable resource guarded by the accounting layer: one mutex slot or
/// one semaphore slot of the process's registry.  Two resources with
/// different tags or different slot ids are distinct.  Condition variables
/// are not resources: waiting on one registers no allocation or need.
#[derive(Clone, Copy, PartialEq, Eq, Structural, Debug)]
pub enum Resource {
    Mutex(usize),
    Semaphore(usize),
}

/// The amount that a single counter entry contributes to resource `r`.
pub open spec fn entry_count(e: (Resource, usize), r: Resource) -> nat {
    if e.0 == r {
        e.1 as nat
    } else {
        0
    }
}

/// Sum of the amounts that the entries of `s` record for resource `r`.
pub open spec fn entries_count(s: Seq<(Resource, usize)>, r: Resource) -> nat
    decreases s.len(),
{
    if s.len() == 0 {
        0
    } else {
        entries_count(s.drop_last(), r) + entry_count(s.last(), r)
    }
}

/// A sparse, order-irrelevant mapping from resources to non-negative counts.
/// A resource without an entry counts as zero; entries are created lazily by
/// `increase` and never go negative.
pub struct ResourceCounter {
    entries: Vec<(Resource, usize)>,
}

impl ResourceCounter {
    /// Each resource is recorded by at most one entry, so the stored amount
    /// of a present key is that entry's value.
    pub closed spec fn wf(&self) -> bool {
        forall|i: int, j: int|
            0 <= i < j < self.entries@.len() ==> (#[trigger] self.entries@[i]).0 != (
            #[trigger] self.entries@[j]).0
    }

    /// The count stored for resource `r`; absent keys count zero.
    pub closed spec fn count(&self, r: Resource) -> nat {
        entries_count(self.entries@, r)
    }

    /// An empty counter: every resource counts zero.
    pub fn new() -> (c: ResourceCounter)
        ensures
            c.wf(),
            forall|r: Resource| c.count(r) == 0,
    {
        ResourceCounter { entries: Vec::new() }
    }

    /// Index of the entry recording `r`, if one is present.
    fn find(&self, r: Resource) -> (found: Option<usize>)
        ensures
            match found {
                Some(i) => i < self.entries@.len() && self.entries@[i as int].0 == r,
                None => forall|i: int| 0 <= i < self.entries@.len() ==> (#[trigger] self.entries@[i]).0 != r,
            },
    {
        let n = self.entries.len();
        let mut i: usize = 0;
        while i < n
            invariant
                i <= n,
                n == self.entries@.len(),
                forall|j: int| 0 <= j < i ==> (#[trigger] self.entries@[j]).0 != r,
            decreases n - i,
        {
            if self.entries[i].0 == r {
                return Some(i);
            }
            i = i + 1;
        }
        None
    }

    /// The current count for `r`.
    pub fn get(&self, r: Resource) -> (amount: usize)
        requires
            self.wf(),
        ensures
            amount == self.count(r),
    {
        match self.find(r) {
            Some(i) => {
                proof {
                    lemma_entries_count_present(self.entries@, i as int, r);
                }
                self.entries[i].1
            },
            None => {
                proof {
                    lemma_entries_count_absent(self.entries@, r);
                }
                0
            },
        }
    }

    /// Adds `n` units of `r`, creating the entry if absent.
    pub fn increase(&mut self, r: Resource, n: usize)
        requires
            old(self).wf(),
            old(self).count(r) + n <= usize::MAX,
        ensures
            final(self).wf(),
            final(self).count(r) == old(self).count(r) + n,
            forall|r2: Resource| r2 != r ==> final(self).count(r2) == old(self).count(r2),
    {
        match self.find(r) {
            Some(i) => {
                proof {
                    lemma_entries_count_present(self.entries@, i as int, r);
                }
                let c = self.entries[i].1;
                self.entries[i] = (r, c + n);
                proof {
                    lemma_entries_count_update(old(self).entries@, i as int, (r, (c + n) as usize));
                }
            },
            None => {
                proof {
                    lemma_entries_count_absent(self.entries@, r);
                }
                self.entries.push((r, n));
                proof {
                    assert(self.entries@.drop_last() =~= old(self).entries@);
                }
            },
        }
    }

    /// Removes `min(count, n)` units of `r` and returns the amount removed;
    /// the entry never goes negative.  Passing `usize::MAX` therefore clears
    /// the stored count entirely and returns its prior value.
    pub fn take(&mut self, r: Resource, n: usize) -> (removed: usize)
        requires
            old(self).wf(),
        ensures
            final(self).wf(),
            removed == if old(self).count(r) <= n as nat {
                old(self).count(r)
            } else {
                n as nat
            },
            final(self).count(r) == old(self).count(r) - removed,
            forall|r2: Resource| r2 != r ==> final(self).count(r2) == old(self).count(r2),
    {
        match self.find(r) {
            Some(i) => {
                proof {
                    lemma_entries_count_present(self.entries@, i as int, r);
                }
                let c = self.entries[i].1;
                let removed = if c <= n {
                    c
                } else {
                    n
                };
                self.entries[i] = (r, c - removed);
                proof {
                    lemma_entries_count_update(old(self).entries@, i as int, (r, (c - removed) as usize));
                }
                removed
            },
            None => {
                proof {
                    lemma_entries_count_absent(self.entries@, r);
                }
                0
            },
        }
    }

    /// Adds every count recorded by `other` into `self`.
    pub fn add_all(&mut self, other: &ResourceCounter)
        requires
            old(self).wf(),
            forall|r: Resource| old(self).count(r) + other.count(r) <= usize::MAX,
        ensures
            final(self).wf(),
            forall|r: Resource| final(self).count(r) == old(self).count(r) + other.count(r),
    {
        let n = other.entries.len();
        let mut i: usize = 0;
        while i < n
            invariant
                i <= n,
                n == other.entries@.len(),
                self.wf(),
                forall|r: Resource|
                    #[trigger] self.count(r) == old(self).count(r) + entries_count(
                        other.entries@.take(i as int),
                        r,
                    ),
                forall|r: Resource| old(self).count(r) + other.count(r) <= usize::MAX,
            decreases n - i,
        {
            let (r, amount) = other.entries[i];
            proof {
                lemma_entries_count_take_succ(other.entries@, i as int, r);
                lemma_entries_count_take_le(other.entries@, i as int + 1, r);
                assert(entry_count(other.entries@[i as int], r) == amount);
                assert(entries_count(other.entries@.take(i as int + 1), r) == entries_count(
                    other.entries@.take(i as int),
                    r,
                ) + amount);
                assert(self.count(r) + amount <= old(self).count(r) + entries_count(
                    other.entries@.take(i as int + 1),
                    r,
                ));
                assert(old(self).count(r) + other.count(r) <= usize::MAX);
            }
            self.increase(r, amount);
            proof {
                assert forall|r2: Resource|
                    #[trigger] self.count(r2) == old(self).count(r2) + entries_count(
                        other.entries@.take(i as int + 1),
                        r2,
                    ) by {
                    lemma_entries_count_take_succ(other.entries@, i as int, r2);
                }
            }
            i = i + 1;
        }
        proof {
            assert(other.entries@.take(n as int) =~= other.entries@);
        }
    }

    /// Whether every count of `self` is covered by `other`.
    pub fn le_all(&self, other: &ResourceCounter) -> (covered: bool)
        requires
            self.wf(),
            other.wf(),
        ensures
            covered == forall|r: Resource| self.count(r) <= other.count(r),
    {
        let n = self.entries.len();
        let mut i: usize = 0;
        while i < n
            invariant
                i <= n,
                n == self.entries@.len(),
                self.wf(),
                other.wf(),
                forall|j: int|
                    0 <= j < i ==> (#[trigger] self.entries@[j]).1 as nat <= other.count(
                        self.entries@[j].0,
                    ),
            decreases n - i,
        {
            let (r, amount) = self.entries[i];
            if amount > other.get(r) {
                proof {
                    lemma_entries_count_present(self.entries@, i as int, r);
                }
                return false;
            }
            i = i + 1;
        }
        proof {
            assert forall|r: Resource| self.count(r) <= other.count(r) by {
                if exists|j: int| 0 <= j < self.entries@.len() && (#[trigger] self.entries@[j]).0
                    == r {
                    let j = choose|j: int|
                        0 <= j < self.entries@.len() && (#[trigger] self.entries@[j]).0 == r;
                    lemma_entries_count_present(self.entries@, j, r);
                } else {
                    lemma_entries_count_absent(self.entries@, r);
                }
            }
        }
        true
    }

    /// Every stored count fits in a machine word, since each is held by a
    /// single entry.
    pub proof fn lemma_counts_bounded(&self)
        requires
            self.wf(),
        ensures
            forall|r: Resource| self.count(r) <= usize::MAX,
    {
        lemma_entries_count_bounded(self.entries@);
    }

    /// A counter with the same count for every resource.
    pub fn duplicate(&self) -> (c: ResourceCounter)
        requires
            self.wf(),
        ensures
            c.wf(),
            forall|r: Resource| c.count(r) == self.count(r),
    {
        proof {
            lemma_entries_count_bounded(self.entries@);
        }
        let mut c = ResourceCounter::new();
        c.add_all(self);
        c
    }
}

/// If no entry records `r`, the stored count for `r` is zero.
proof fn lemma_entries_count_absent(s: Seq<(Resource, usize)>, r: Resource)
    requires
        forall|i: int| 0 <= i < s.len() ==> (#[trigger] s[i]).0 != r,
    ensures
        entries_count(s, r) == 0,
    decreases s.len(),
{
    if s.len() > 0 {
        lemma_entries_count_absent(s.drop_last(), r);
    }
}

/// With pairwise-distinct keys, the stored count of a present key is the
/// value of its one entry.
proof fn lemma_entries_count_present(s: Seq<(Resource, usize)>, i: int, r: Resource)
    requires
        forall|i1: int, j1: int| 0 <= i1 < j1 < s.len() ==> (#[trigger] s[i1]).0 != (#[trigger] s[j1]).0,
        0 <= i < s.len(),
        s[i].0 == r,
    ensures
        entries_count(s, r) == s[i].1,
    decreases s.len(),
{
    if i == s.len() - 1 {
        lemma_entries_count_absent(s.drop_last(), r);
    } else {
        lemma_entries_count_present(s.drop_last(), i, r);
    }
}

/// Replacing entry `i` shifts the count of each resource by the difference
/// between the new and the old entry's contribution.
proof fn lemma_entries_count_update(s: Seq<(Resource, usize)>, i: int, e: (Resource, usize))
    requires
        0 <= i < s.len(),
    ensures
        forall|r: Resource|
            #[trigger] entries_count(s.update(i, e), r) == entries_count(s, r) - entry_count(
                s[i],
                r,
            ) + entry_count(e, r),
    decreases s.len(),
{
    let t = s.update(i, e);
    if i == s.len() - 1 {
        assert(t.drop_last() =~= s.drop_last());
        assert forall|r: Resource|
            #[trigger] entries_count(t, r) == entries_count(s, r) - entry_count(s[i], r)
                + entry_count(e, r) by {
            assert(entries_count(t, r) == entries_count(t.drop_last(), r) + entry_count(t.last(), r));
            assert(entries_count(s, r) == entries_count(s.drop_last(), r) + entry_count(s.last(), r));
        }
    } else {
        lemma_entries_count_update(s.drop_last(), i, e);
        assert(t.drop_last() =~= s.drop_last().update(i, e));
        assert forall|r: Resource|
            #[trigger] entries_count(t, r) == entries_count(s, r) - entry_count(s[i], r)
                + entry_count(e, r) by {
            assert(entries_count(t.drop_last(), r) == entries_count(s.drop_last(), r)
                - entry_count(s.drop_last()[i], r) + entry_count(e, r));
            assert(s.drop_last()[i] == s[i]);
            assert(t.last() == s.last());
            assert(entries_count(t, r) == entries_count(t.drop_last(), r) + entry_count(t.last(), r));
            assert(entries_count(s, r) == entries_count(s.drop_last(), r) + entry_count(s.last(), r));
        }
    }
}

/// Taking one more entry adds exactly that entry's contribution.
proof fn lemma_entries_count_take_succ(s: Seq<(Resource, usize)>, i: int, r: Resource)
    requires
        0 <= i < s.len(),
    ensures
        entries_count(s.take(i + 1), r) == entries_count(s.take(i), r) + entry_count(s[i], r),
{
    assert(s.take(i + 1).drop_last() =~= s.take(i));
    assert(s.take(i + 1).last() == s[i]);
}

/// A prefix never records more of a resource than the whole sequence.
proof fn lemma_entries_count_take_le(s: Seq<(Resource, usize)>, i: int, r: Resource)
    requires
        0 <= i <= s.len(),
    ensures
        entries_count(s.take(i), r) <= entries_count(s, r),
    decreases s.len() - i,
{
    if i == s.len() {
        assert(s.take(i) =~= s);
    } else {
        lemma_entries_count_take_succ(s, i, r);
        lemma_entries_count_take_le(s, i + 1, r);
    }
}

/// With pairwise-distinct keys every stored count fits in a `usize`.
proof fn lemma_entries_count_bounded(s: Seq<(Resource, usize)>)
    requires
        forall|i1: int, j1: int| 0 <= i1 < j1 < s.len() ==> (#[trigger] s[i1]).0 != (#[trigger] s[j1]).0,
    ensures
        forall|r: Resource| entries_count(s, r) <= usize::MAX,
    decreases s.len(),
{
    if s.len() > 0 {
        assert forall|i1: int, j1: int| 0 <= i1 < j1 < s.drop_last().len() implies (
        #[trigger] s.drop_last()[i1]).0 != (#[trigger] s.drop_last()[j1]).0 by {
            assert(s.drop_last()[i1] == s[i1]);
            assert(s.drop_last()[j1] == s[j1]);
        }
        lemma_entries_count_bounded(s.drop_last());
        assert forall|r: Resource| entries_count(s, r) <= usize::MAX by {
            if s.last().0 == r {
                lemma_entries_count_present(s, s.len() - 1, r);
            } else {
                assert(entries_count(s, r) == entries_count(s.drop_last(), r));
                assert(entries_count(s.drop_last(), r) <= usize::MAX);
            }
        }
    }
}

} // verus!
