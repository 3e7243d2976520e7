//! The Banker's-algorithm safety analysis over the accounting tables.
//!
//! A state is *safe* when some order exists in which every known thread can
//! finish: each thread in turn finds its outstanding needs covered by the
//! available units plus everything released by the threads ordered before it.
//! `is_safe` decides that property exactly; a lock or down request that would
//! leave the state unsafe is denied by the admission protocol.

use vstd::prelude::*;

use crate::resource::Resource;
use crate::resource::ResourceCounter;

verus! {

/// The allocation recorded for thread `t`, or zero outside the table.
pub open spec fn count_at(table: Seq<ResourceCounter>, t: int, r: Resource) -> nat {
    if 0 <= t < table.len() {
        table[t].count(r)
    } else {
        0
    }
}

/// Units of `r` held in total by the threads listed in `picked`.
pub open spec fn picked_sum(table: Seq<ResourceCounter>, picked: Seq<int>, r: Resource) -> nat
    decreases picked.len(),
{
    if picked.len() == 0 {
        0
    } else {
        picked_sum(table, picked.drop_last(), r) + count_at(table, picked.last(), r)
    }
}

/// Units of `r` free for further completion once the threads of `picked`
/// have finished and released everything they hold.
pub open spec fn work_of(
    available: ResourceCounter,
    allocation: Seq<ResourceCounter>,
    picked: Seq<int>,
    r: Resource,
) -> nat {
    available.count(r) + picked_sum(allocation, picked, r)
}

/// Units of `r` held in total by the first `m` threads of the table.
pub open spec fn table_sum_upto(table: Seq<ResourceCounter>, m: int, r: Resource) -> nat
    decreases m,
{
    if m <= 0 {
        0
    } else {
        table_sum_upto(table, m - 1, r) + count_at(table, m - 1, r)
    }
}

/// Units of `r` held in total by all threads of the table.
pub open spec fn table_sum(table: Seq<ResourceCounter>, r: Resource) -> nat {
    table_sum_upto(table, table.len() as int, r)
}

/// `order` lists distinct known threads such that each one's outstanding
/// needs are covered by the work freed once its predecessors finished.
pub open spec fn order_ok(
    available: ResourceCounter,
    allocation: Seq<ResourceCounter>,
    need: Seq<ResourceCounter>,
    order: Seq<int>,
) -> bool {
    &&& forall|k: int| 0 <= k < order.len() ==> 0 <= #[trigger] order[k] < allocation.len()
    &&& forall|k1: int, k2: int| 0 <= k1 < k2 < order.len() ==> order[k1] != order[k2]
    &&& forall|k: int, r: Resource|
        0 <= k < order.len() ==> #[trigger] need[order[k]].count(r) <= work_of(
            available,
            allocation,
            order.take(k),
            r,
        )
}

/// The order names every thread of the table.
pub open spec fn covers_all(order: Seq<int>, n: int) -> bool {
    forall|t: int| 0 <= t < n ==> order.contains(t)
}

/// The state admits a completion order for every known thread: granting the
/// outstanding requests cannot leave a set of threads waiting forever.
pub open spec fn is_safe_state(
    available: ResourceCounter,
    allocation: Seq<ResourceCounter>,
    need: Seq<ResourceCounter>,
) -> bool {
    exists|order: Seq<int>|
        #[trigger] order_ok(available, allocation, need, order) && covers_all(
            order,
            allocation.len() as int,
        )
}

/// Number of threads already marked finished.
pub open spec fn count_true(s: Seq<bool>) -> nat
    decreases s.len(),
{
    if s.len() == 0 {
        0
    } else {
        count_true(s.drop_last()) + if s.last() {
            1nat
        } else {
            0
        }
    }
}

proof fn lemma_count_true_le(s: Seq<bool>)
    ensures
        count_true(s) <= s.len(),
    decreases s.len(),
{
    if s.len() > 0 {
        lemma_count_true_le(s.drop_last());
    }
}

proof fn lemma_count_true_update(s: Seq<bool>, i: int)
    requires
        0 <= i < s.len(),
        !s[i],
    ensures
        count_true(s.update(i, true)) == count_true(s) + 1,
    decreases s.len(),
{
    let t = s.update(i, true);
    if i == s.len() - 1 {
        assert(t.drop_last() =~= s.drop_last());
    } else {
        lemma_count_true_update(s.drop_last(), i);
        assert(t.drop_last() =~= s.drop_last().update(i, true));
        assert(t.last() == s.last());
    }
}

/// Removing the entry at `p` removes exactly that thread's contribution.
proof fn lemma_picked_sum_remove(table: Seq<ResourceCounter>, picked: Seq<int>, p: int, r: Resource)
    requires
        0 <= p < picked.len(),
    ensures
        picked_sum(table, picked, r) == picked_sum(table, picked.remove(p), r) + count_at(
            table,
            picked[p],
            r,
        ),
    decreases picked.len(),
{
    picked.remove_ensures(p);
    if p == picked.len() - 1 {
        assert(picked.remove(p) =~= picked.drop_last());
    } else {
        lemma_picked_sum_remove(table, picked.drop_last(), p, r);
        assert(picked.remove(p).drop_last() =~= picked.drop_last().remove(p));
        assert(picked.remove(p).last() == picked.last());
    }
}

/// A sequence still contains every value other than the one removed.
proof fn lemma_remove_still_contains(s: Seq<int>, p: int, y: int)
    requires
        0 <= p < s.len(),
        s.contains(y),
        s[p] != y,
    ensures
        s.remove(p).contains(y),
{
    s.remove_ensures(p);
    let q = choose|q: int| 0 <= q < s.len() && s[q] == y;
    if q < p {
        assert(s.remove(p)[q] == y);
    } else {
        assert(s.remove(p)[q - 1] == y);
    }
}

/// Removing an entry keeps the remaining entries pairwise distinct.
proof fn lemma_remove_distinct(s: Seq<int>, p: int)
    requires
        0 <= p < s.len(),
        forall|k1: int, k2: int| 0 <= k1 < k2 < s.len() ==> s[k1] != s[k2],
    ensures
        forall|k1: int, k2: int|
            0 <= k1 < k2 < s.remove(p).len() ==> s.remove(p)[k1] != s.remove(p)[k2],
{
    s.remove_ensures(p);
    assert forall|k1: int, k2: int|
        0 <= k1 < k2 < s.remove(p).len() implies s.remove(p)[k1] != s.remove(p)[k2] by {
        let j1: int = if k1 < p {
            k1
        } else {
            k1 + 1
        };
        let j2: int = if k2 < p {
            k2
        } else {
            k2 + 1
        };
        assert(s.remove(p)[k1] == s[j1]);
        assert(s.remove(p)[k2] == s[j2]);
    }
}

/// Threads hold non-negative amounts, so a selection of threads never sums
/// to more than any selection containing it.
proof fn lemma_picked_sum_subset(
    table: Seq<ResourceCounter>,
    a: Seq<int>,
    b: Seq<int>,
    r: Resource,
)
    requires
        forall|k1: int, k2: int| 0 <= k1 < k2 < a.len() ==> a[k1] != a[k2],
        forall|k1: int, k2: int| 0 <= k1 < k2 < b.len() ==> b[k1] != b[k2],
        forall|x: int| a.contains(x) ==> b.contains(x),
    ensures
        picked_sum(table, a, r) <= picked_sum(table, b, r),
    decreases a.len(),
{
    if a.len() > 0 {
        let x = a.last();
        let a2 = a.drop_last();
        assert(a.contains(x)) by {
            assert(a[a.len() - 1] == x);
        }
        let p = choose|p: int| 0 <= p < b.len() && b[p] == x;
        let b2 = b.remove(p);
        lemma_picked_sum_remove(table, b, p, r);
        lemma_remove_distinct(b, p);
        assert forall|y: int| a2.contains(y) implies b2.contains(y) by {
            let j = choose|j: int| 0 <= j < a2.len() && a2[j] == y;
            assert(a[j] == y);
            assert(y != x);
            assert(b.contains(y)) by {
                assert(a.contains(y));
            }
            lemma_remove_still_contains(b, p, y);
        }
        lemma_picked_sum_subset(table, a2, b2, r);
    }
}

/// Picking threads `0` to `m - 1` in table order sums the table prefix.
proof fn lemma_picked_sum_id(table: Seq<ResourceCounter>, m: int, r: Resource)
    requires
        0 <= m,
    ensures
        picked_sum(table, Seq::new(m as nat, |i: int| i), r) == table_sum_upto(table, m, r),
    decreases m,
{
    let ids = Seq::new(m as nat, |i: int| i);
    if m > 0 {
        lemma_picked_sum_id(table, m - 1, r);
        assert(ids.drop_last() =~= Seq::new((m - 1) as nat, |i: int| i));
        assert(ids.last() == m - 1);
    }
}

/// A selection of distinct known threads holds at most the whole table.
proof fn lemma_picked_sum_le_table(table: Seq<ResourceCounter>, picked: Seq<int>, r: Resource)
    requires
        forall|k1: int, k2: int| 0 <= k1 < k2 < picked.len() ==> picked[k1] != picked[k2],
        forall|k: int| 0 <= k < picked.len() ==> 0 <= #[trigger] picked[k] < table.len(),
    ensures
        picked_sum(table, picked, r) <= table_sum(table, r),
{
    let n = table.len() as int;
    let ids = Seq::new(n as nat, |i: int| i);
    assert forall|x: int| picked.contains(x) implies ids.contains(x) by {
        assert(ids[x] == x);
    }
    lemma_picked_sum_subset(table, picked, ids, r);
    lemma_picked_sum_id(table, n, r);
}

/// The first position of `sigma`, from `i` on, whose thread is not yet
/// finished; every earlier thread is finished.
proof fn first_outside_from(sigma: Seq<int>, done: Seq<int>, i: int) -> (k: int)
    requires
        0 <= i <= sigma.len(),
        forall|j: int| 0 <= j < i ==> done.contains(#[trigger] sigma[j]),
        exists|j: int| i <= j < sigma.len() && !done.contains(#[trigger] sigma[j]),
    ensures
        i <= k < sigma.len(),
        !done.contains(sigma[k]),
        forall|j: int| 0 <= j < k ==> done.contains(#[trigger] sigma[j]),
    decreases sigma.len() - i,
{
    if !done.contains(sigma[i]) {
        i
    } else {
        first_outside_from(sigma, done, i + 1)
    }
}

/// When every unfinished thread has some need above the work freed by the
/// finished ones, no completion order exists: the state is unsafe.
proof fn lemma_stuck_unsafe(
    available: ResourceCounter,
    allocation: Seq<ResourceCounter>,
    need: Seq<ResourceCounter>,
    done: Seq<int>,
    stuck: int,
)
    requires
        order_ok(available, allocation, need, done),
        0 <= stuck < allocation.len(),
        !done.contains(stuck),
        forall|t: int|
            0 <= t < allocation.len() && !done.contains(t) ==> exists|r: Resource|
                #[trigger] need[t].count(r) > work_of(available, allocation, done, r),
    ensures
        !is_safe_state(available, allocation, need),
{
    if is_safe_state(available, allocation, need) {
        let sigma = choose|order: Seq<int>|
            #[trigger] order_ok(available, allocation, need, order) && covers_all(
                order,
                allocation.len() as int,
            );
        assert(sigma.contains(stuck));
        let j0 = choose|j: int| 0 <= j < sigma.len() && sigma[j] == stuck;
        assert(!done.contains(sigma[j0]));
        let k = first_outside_from(sigma, done, 0);
        let t0 = sigma[k];
        let prefix = sigma.take(k);
        assert(forall|j: int| 0 <= j < prefix.len() ==> prefix[j] == sigma[j]);
        assert forall|x: int| prefix.contains(x) implies done.contains(x) by {
            let j = choose|j: int| 0 <= j < prefix.len() && prefix[j] == x;
            assert(done.contains(sigma[j]));
        }
        assert(forall|k1: int, k2: int| 0 <= k1 < k2 < prefix.len() ==> prefix[k1] != prefix[k2]);
        assert(forall|k1: int, k2: int| 0 <= k1 < k2 < done.len() ==> done[k1] != done[k2]);
        let r0 = choose|r: Resource|
            #[trigger] need[t0].count(r) > work_of(available, allocation, done, r);
        lemma_picked_sum_subset(allocation, prefix, done, r0);
        assert(need[t0].count(r0) <= work_of(available, allocation, prefix, r0));
        assert(false);
    }
}

/// Decides whether the accounting state is safe: whether some order exists
/// in which every known thread can finish, each using only the units still
/// available plus those released by threads finishing before it.  This is
/// the classical Banker's-algorithm analysis; the greedy scan below is
/// insensitive to the order in which eligible threads are picked, so its
/// verdict equals the existence of any completion order.
pub fn is_safe(
    available: &ResourceCounter,
    allocation: &Vec<ResourceCounter>,
    need: &Vec<ResourceCounter>,
) -> (safe: bool)
    requires
        available.wf(),
        forall|t: int| 0 <= t < allocation@.len() ==> (#[trigger] allocation@[t]).wf(),
        forall|t: int| 0 <= t < need@.len() ==> (#[trigger] need@[t]).wf(),
        need@.len() == allocation@.len(),
        forall|r: Resource| available.count(r) + table_sum(allocation@, r) <= usize::MAX,
    ensures
        safe == is_safe_state(*available, allocation@, need@),
{
    let n = allocation.len();
    let mut finish: Vec<bool> = Vec::new();
    let mut i: usize = 0;
    while i < n
        invariant
            i <= n,
            finish@.len() == i,
            forall|t: int| 0 <= t < i ==> !(#[trigger] finish@[t]),
        decreases n - i,
    {
        finish.push(false);
        i = i + 1;
    }
    proof {
        lemma_count_true_all_false(finish@);
    }
    let mut work = available.duplicate();
    let ghost mut done: Seq<int> = Seq::empty();
    let mut changed = true;
    while changed
        invariant
            n == allocation@.len(),
            n == need@.len(),
            available.wf(),
            forall|t: int| 0 <= t < allocation@.len() ==> (#[trigger] allocation@[t]).wf(),
            forall|t: int| 0 <= t < need@.len() ==> (#[trigger] need@[t]).wf(),
            forall|r: Resource| available.count(r) + table_sum(allocation@, r) <= usize::MAX,
            finish@.len() == n,
            work.wf(),
            forall|r: Resource| #[trigger] work.count(r) == work_of(*available, allocation@, done, r),
            order_ok(*available, allocation@, need@, done),
            forall|t: int| 0 <= t < n ==> #[trigger] finish@[t] == done.contains(t),
            done.len() == count_true(finish@),
            count_true(finish@) <= n,
            !changed ==> forall|t: int|
                0 <= t < n && !finish@[t] ==> exists|r: Resource|
                    #[trigger] need@[t].count(r) > work.count(r),
        decreases n - done.len() + (if changed {
            1int
        } else {
            0
        }),
    {
        let ghost pass_start = done.len();
        changed = false;
        let mut t: usize = 0;
        while t < n
            invariant
                t <= n,
                n == allocation@.len(),
                n == need@.len(),
                available.wf(),
                forall|t2: int| 0 <= t2 < allocation@.len() ==> (#[trigger] allocation@[t2]).wf(),
                forall|t2: int| 0 <= t2 < need@.len() ==> (#[trigger] need@[t2]).wf(),
                forall|r: Resource| available.count(r) + table_sum(allocation@, r) <= usize::MAX,
                finish@.len() == n,
                work.wf(),
                forall|r: Resource|
                    #[trigger] work.count(r) == work_of(*available, allocation@, done, r),
                order_ok(*available, allocation@, need@, done),
                forall|t2: int| 0 <= t2 < n ==> #[trigger] finish@[t2] == done.contains(t2),
                done.len() == count_true(finish@),
                count_true(finish@) <= n,
                done.len() >= pass_start,
                changed == (done.len() > pass_start),
                !changed ==> forall|t2: int|
                    0 <= t2 < t && !finish@[t2] ==> exists|r: Resource|
                        #[trigger] need@[t2].count(r) > work.count(r),
            decreases n - t,
        {
            if !finish[t] {
                if need[t].le_all(&work) {
                    proof {
                        lemma_work_fits(*available, allocation@, done, t as int);
                    }
                    work.add_all(&allocation[t]);
                    let ghost finish_pre = finish@;
                    finish[t] = true;
                    proof {
                        lemma_count_true_update(finish_pre, t as int);
                        lemma_count_true_le(finish@);
                        let prev = done;
                        done = done.push(t as int);
                        assert(done.drop_last() =~= prev);
                        assert(done.last() == t as int);
                        assert forall|r: Resource|
                            #[trigger] work.count(r) == work_of(*available, allocation@, done, r) by {
                            assert(count_at(allocation@, t as int, r) == allocation@[t as int].count(r));
                        }
                        assert forall|k: int, r: Resource|
                            0 <= k < done.len() implies #[trigger] need@[done[k]].count(r) <= work_of(
                            *available,
                            allocation@,
                            done.take(k),
                            r,
                        ) by {
                            if k < prev.len() {
                                assert(done.take(k) =~= prev.take(k));
                                assert(done[k] == prev[k]);
                            } else {
                                assert(done.take(k) =~= prev);
                                assert(done[k] == t as int);
                            }
                        }
                        assert forall|k1: int, k2: int|
                            0 <= k1 < k2 < done.len() implies done[k1] != done[k2] by {
                            if k2 == done.len() - 1 {
                                assert(done[k1] == prev[k1]);
                                assert(prev.contains(prev[k1]));
                                assert(!prev.contains(t as int));
                            }
                        }
                        assert forall|t2: int| 0 <= t2 < n implies #[trigger] finish@[t2]
                            == done.contains(t2) by {
                            if t2 == t as int {
                                assert(done[done.len() - 1] == t as int);
                            } else {
                                if done.contains(t2) {
                                    let j = choose|j: int| 0 <= j < done.len() && done[j] == t2;
                                    assert(prev[j] == t2);
                                    assert(prev.contains(t2));
                                }
                                if prev.contains(t2) {
                                    let j = choose|j: int| 0 <= j < prev.len() && prev[j] == t2;
                                    assert(done[j] == t2);
                                }
                            }
                        }
                    }
                    changed = true;
                }
            }
            t = t + 1;
        }
    }
    let mut all = true;
    let mut t: usize = 0;
    while t < n
        invariant
            t <= n,
            finish@.len() == n,
            all == (forall|t2: int| 0 <= t2 < t ==> #[trigger] finish@[t2]),
        decreases n - t,
    {
        if !finish[t] {
            all = false;
        }
        t = t + 1;
    }
    if all {
        proof {
            assert forall|t2: int| 0 <= t2 < n implies done.contains(t2) by {
                assert(finish@[t2]);
            }
            assert(covers_all(done, allocation@.len() as int));
            assert(is_safe_state(*available, allocation@, need@));
        }
        true
    } else {
        proof {
            let t0 = choose|t2: int| 0 <= t2 < n && !finish@[t2];
            assert(!done.contains(t0));
            assert forall|t2: int|
                0 <= t2 < allocation@.len() && !done.contains(t2) implies exists|r: Resource|
                #[trigger] need@[t2].count(r) > work_of(*available, allocation@, done, r) by {
                assert(!finish@[t2]);
                let r = choose|r: Resource| #[trigger] need@[t2].count(r) > work.count(r);
                assert(work.count(r) == work_of(*available, allocation@, done, r));
                assert(need@[t2].count(r) > work_of(*available, allocation@, done, r));
            }
            lemma_stuck_unsafe(*available, allocation@, need@, done, t0);
        }
        false
    }
}

/// Adding an unfinished thread's holdings to the work counter stays within
/// the machine bound, because work plus that thread's holdings is at most
/// the available units plus the whole table.
proof fn lemma_work_fits(
    available: ResourceCounter,
    allocation: Seq<ResourceCounter>,
    done: Seq<int>,
    t: int,
)
    requires
        forall|k1: int, k2: int| 0 <= k1 < k2 < done.len() ==> done[k1] != done[k2],
        forall|k: int| 0 <= k < done.len() ==> 0 <= #[trigger] done[k] < allocation.len(),
        0 <= t < allocation.len(),
        !done.contains(t),
    ensures
        forall|r: Resource|
            work_of(available, allocation, done, r) + allocation[t].count(r) <= available.count(r)
                + table_sum(allocation, r),
{
    let ext = done.push(t);
    assert(ext.drop_last() =~= done);
    assert forall|k1: int, k2: int| 0 <= k1 < k2 < ext.len() implies ext[k1] != ext[k2] by {
        if k2 == ext.len() - 1 {
            assert(ext[k1] == done[k1]);
            assert(!done.contains(t));
            if done[k1] == t {
                assert(done.contains(t));
            }
        }
    }
    assert forall|r: Resource|
        work_of(available, allocation, done, r) + allocation[t].count(r) <= available.count(r)
            + table_sum(allocation, r) by {
        assert(picked_sum(allocation, ext, r) == picked_sum(allocation, done, r) + count_at(
            allocation,
            t,
            r,
        ));
        lemma_picked_sum_le_table(allocation, ext, r);
    }
}

/// Tables that agree on their first `m` threads sum those threads alike.
proof fn lemma_table_sum_upto_agree(
    t1: Seq<ResourceCounter>,
    t2: Seq<ResourceCounter>,
    m: int,
    r: Resource,
)
    requires
        forall|j: int| 0 <= j < m ==> count_at(t1, j, r) == count_at(t2, j, r),
    ensures
        table_sum_upto(t1, m, r) == table_sum_upto(t2, m, r),
    decreases m,
{
    if m > 0 {
        lemma_table_sum_upto_agree(t1, t2, m - 1, r);
    }
}

/// Appending a thread adds exactly its holdings to the table sum.
pub proof fn lemma_table_sum_push(table: Seq<ResourceCounter>, c: ResourceCounter, r: Resource)
    ensures
        table_sum(table.push(c), r) == table_sum(table, r) + c.count(r),
{
    let t2 = table.push(c);
    lemma_table_sum_upto_agree(table, t2, table.len() as int, r);
    assert(count_at(t2, table.len() as int, r) == c.count(r));
}

/// Replacing one thread's counter shifts the table sum by the difference.
pub proof fn lemma_table_sum_update(
    table: Seq<ResourceCounter>,
    t: int,
    c: ResourceCounter,
    r: Resource,
)
    requires
        0 <= t < table.len(),
    ensures
        table_sum(table.update(t, c), r) == table_sum(table, r) - table[t].count(r) + c.count(r),
    decreases table.len(),
{
    let t2 = table.update(t, c);
    if t == table.len() - 1 {
        lemma_table_sum_upto_agree(table, t2, table.len() - 1, r);
        assert(table_sum_upto(table, table.len() as int, r) == table_sum_upto(
            table,
            table.len() - 1,
            r,
        ) + count_at(table, table.len() - 1, r));
        assert(count_at(t2, t, r) == c.count(r));
    } else {
        assert(t2.drop_last() =~= table.drop_last().update(t, c));
        lemma_table_sum_update(table.drop_last(), t, c, r);
        lemma_table_sum_upto_agree(table.drop_last(), table, table.len() - 1, r);
        lemma_table_sum_upto_agree(t2.drop_last(), t2, table.len() - 1, r);
        assert(count_at(t2, table.len() - 1, r) == count_at(table, table.len() - 1, r));
    }
}

/// The table prefix sum never shrinks as the prefix grows.
proof fn lemma_table_sum_upto_mono(table: Seq<ResourceCounter>, k: int, m: int, r: Resource)
    requires
        0 <= k <= m,
    ensures
        table_sum_upto(table, k, r) <= table_sum_upto(table, m, r),
    decreases m - k,
{
    if k < m {
        lemma_table_sum_upto_mono(table, k + 1, m, r);
    }
}

/// No single thread holds more of a resource than the whole table.
pub proof fn lemma_count_at_le_table(table: Seq<ResourceCounter>, t: int, r: Resource)
    requires
        0 <= t < table.len(),
    ensures
        table[t].count(r) <= table_sum(table, r),
{
    assert(table_sum_upto(table, t + 1, r) == table_sum_upto(table, t, r) + count_at(table, t, r));
    lemma_table_sum_upto_mono(table, t + 1, table.len() as int, r);
}

/// A state in which every thread's outstanding needs are already covered by
/// the available units alone is safe: the threads can finish in table order,
/// since finishing only adds to the work.
pub proof fn lemma_needs_covered_implies_safe(
    available: ResourceCounter,
    allocation: Seq<ResourceCounter>,
    need: Seq<ResourceCounter>,
)
    requires
        allocation.len() == need.len(),
        forall|t: int, r: Resource|
            0 <= t < need.len() ==> #[trigger] need[t].count(r) <= available.count(r),
    ensures
        is_safe_state(available, allocation, need),
{
    let n = allocation.len() as int;
    let ids = Seq::new(n as nat, |i: int| i);
    assert forall|t: int| 0 <= t < n implies ids.contains(t) by {
        assert(ids[t] == t);
    }
    assert forall|k: int, r: Resource|
        0 <= k < ids.len() implies #[trigger] need[ids[k]].count(r) <= work_of(
        available,
        allocation,
        ids.take(k),
        r,
    ) by {
        assert(need[k].count(r) <= available.count(r));
    }
    assert(order_ok(available, allocation, need, ids) && covers_all(ids, n));
}

/// A table with no thread marked finished counts zero finished threads.
proof fn lemma_count_true_all_false(s: Seq<bool>)
    requires
        forall|t: int| 0 <= t < s.len() ==> !(#[trigger] s[t]),
    ensures
        count_true(s) == 0,
    decreases s.len(),
{
    if s.len() > 0 {
        lemma_count_true_all_false(s.drop_last());
    }
}

} // verus!
