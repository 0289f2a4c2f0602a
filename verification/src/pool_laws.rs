//! What holds of the terrain pool over any run of allocations and releases.
use vstd::prelude::*;

use crate::pool;
use crate::pool::{PoolView, Slot};

verus! {

/// Whether one of two slots begins where the other ends.
pub open spec fn touch(a: Slot, b: Slot) -> bool {
    a.abuts(b) || b.abuts(a)
}

/// Whether no two of the slots touch.
pub open spec fn settled(slots: Seq<Slot>) -> bool {
    forall|j: int, k: int|
        0 <= j < k < slots.len() ==> !touch(#[trigger] slots[j], #[trigger] slots[k])
}

/// Whether each slot has vertices and ends by the given marks.
spec fn under(slots: Seq<Slot>, high_v: int, high_i: int) -> bool {
    forall|k: int| #![trigger slots[k]]
        0 <= k < slots.len() ==> inside(slots[k], high_v, high_i)
}

spec fn inside(s: Slot, high_v: int, high_i: int) -> bool {
    s.v_count > 0 && s.end_v() <= high_v && s.end_i() <= high_i
}

spec fn apart_from_all(slots: Seq<Slot>, s: Slot) -> bool {
    forall|k: int| 0 <= k < slots.len() ==> s.apart(#[trigger] slots[k])
}

spec fn pairwise_apart(slots: Seq<Slot>) -> bool {
    forall|j: int, k: int|
        0 <= j < k < slots.len() ==> (#[trigger] slots[j]).apart(#[trigger] slots[k])
}

proof fn joined_stays_apart(a: Slot, b: Slot, o: Slot)
    requires
        a.abuts(b),
        a.v_count > 0,
        b.v_count > 0,
        o.v_count > 0,
        a.countable(),
        b.countable(),
        o.apart(a),
        o.apart(b),
    ensures
        o.apart(a.joined(b)),
        a.joined(b).countable(),
        a.joined(b).v_count > 0,
        a.joined(b).end_v() == b.end_v(),
        a.joined(b).end_i() == b.end_i(),
{
}

/// A slot apart from all free slots and from the one that joins them stays
/// apart from what a walk makes of them.
proof fn walk_keeps_a_slot_apart(free: Seq<Slot>, s: Slot, o: Slot, high_v: int, high_i: int)
    requires
        high_v <= u32::MAX,
        high_i <= u32::MAX,
        inside(s, high_v, high_i),
        inside(o, high_v, high_i),
        under(free, high_v, high_i),
        o.apart(s),
        apart_from_all(free, o),
    ensures
        ({
            let (kept, t) = pool::merge_pass(free, s);
            &&& inside(t, high_v, high_i)
            &&& o.apart(t)
            &&& apart_from_all(kept, o)
        }),
    decreases free.len(),
{
    if free.len() > 0 {
        let init = free.drop_last();
        assert forall|k: int| 0 <= k < init.len() implies o.apart(#[trigger] init[k]) by {
            assert(init[k] == free[k]);
        }
        assert forall|k: int| #![trigger init[k]] 0 <= k < init.len() implies inside(
            init[k],
            high_v,
            high_i,
        ) by {
            assert(init[k] == free[k]);
        }
        walk_keeps_a_slot_apart(init, s, o, high_v, high_i);
        let (kept, t) = pool::merge_pass(init, s);
        let f = free.last();
        assert(f == free[free.len() - 1]);
        if f.abuts(t) {
            joined_stays_apart(f, t, o);
        } else if t.abuts(f) {
            joined_stays_apart(t, f, o);
        }
    }
}

/// A walk keeps the free slots apart, from one another and from the slot that
/// joins them.
proof fn walk_keeps_all_apart(free: Seq<Slot>, s: Slot, high_v: int, high_i: int)
    requires
        high_v <= u32::MAX,
        high_i <= u32::MAX,
        inside(s, high_v, high_i),
        under(free, high_v, high_i),
        pairwise_apart(free),
        apart_from_all(free, s),
    ensures
        ({
            let (kept, t) = pool::merge_pass(free, s);
            &&& inside(t, high_v, high_i)
            &&& under(kept, high_v, high_i)
            &&& pairwise_apart(kept)
            &&& apart_from_all(kept, t)
            &&& kept.len() <= free.len()
        }),
    decreases free.len(),
{
    if free.len() > 0 {
        let init = free.drop_last();
        let f = free.last();
        assert(f == free[free.len() - 1]);
        assert forall|k: int| 0 <= k < init.len() implies f.apart(#[trigger] init[k]) by {
            assert(init[k] == free[k]);
            assert(free[k].apart(free[free.len() - 1]));
        }
        assert forall|k: int| 0 <= k < init.len() implies s.apart(#[trigger] init[k]) by {
            assert(init[k] == free[k]);
        }
        assert forall|k: int| #![trigger init[k]] 0 <= k < init.len() implies inside(
            init[k],
            high_v,
            high_i,
        ) by {
            assert(init[k] == free[k]);
        }
        assert forall|j: int, k: int| 0 <= j < k < init.len() implies (
        #[trigger] init[j]).apart(#[trigger] init[k]) by {
            assert(init[j] == free[j] && init[k] == free[k]);
        }
        assert(s.apart(f));
        walk_keeps_a_slot_apart(init, s, f, high_v, high_i);
        walk_keeps_all_apart(init, s, high_v, high_i);
        let (kept, t) = pool::merge_pass(init, s);
        if f.abuts(t) {
            assert forall|k: int| 0 <= k < kept.len() implies f.joined(t).apart(
                #[trigger] kept[k],
            ) by {
                assert(t.apart(kept[k]) && f.apart(kept[k]));
                joined_stays_apart(f, t, kept[k]);
            }
            assert(inside(f.joined(t), high_v, high_i));
        } else if t.abuts(f) {
            assert forall|k: int| 0 <= k < kept.len() implies t.joined(f).apart(
                #[trigger] kept[k],
            ) by {
                assert(t.apart(kept[k]) && f.apart(kept[k]));
                joined_stays_apart(t, f, kept[k]);
            }
        } else {
            let all = kept.push(f);
            assert forall|j: int, k: int| 0 <= j < k < all.len() implies (
            #[trigger] all[j]).apart(#[trigger] all[k]) by {
                if k == kept.len() {
                    assert(f.apart(kept[j]));
                } else {
                    assert(kept[j].apart(kept[k]));
                }
            }
        }
    }
}

proof fn coalescing_keeps_all_apart(
    free: Seq<Slot>,
    s: Slot,
    others: Seq<Slot>,
    high_v: int,
    high_i: int,
)
    requires
        high_v <= u32::MAX,
        high_i <= u32::MAX,
        inside(s, high_v, high_i),
        under(free, high_v, high_i),
        under(others, high_v, high_i),
        pairwise_apart(free),
        apart_from_all(free, s),
        apart_from_all(others, s),
        forall|j: int, k: int|
            0 <= j < others.len() && 0 <= k < free.len() ==> (#[trigger] others[j]).apart(
                #[trigger] free[k],
            ),
    ensures
        under(pool::coalesced(free, s), high_v, high_i),
        pairwise_apart(pool::coalesced(free, s)),
        forall|j: int, k: int|
            0 <= j < others.len() && 0 <= k < pool::coalesced(free, s).len() ==> (
            #[trigger] others[j]).apart(#[trigger] pool::coalesced(free, s)[k]),
    decreases free.len(),
{
    let (kept, t) = pool::merge_pass(free, s);
    walk_keeps_all_apart(free, s, high_v, high_i);
    if kept.len() < free.len() {
        assert forall|j: int| 0 <= j < others.len() implies {
            &&& apart_from_all(kept, #[trigger] others[j])
            &&& t.apart(others[j])
        } by {
            assert(apart_from_all(free, others[j]));
            walk_keeps_a_slot_apart(free, s, others[j], high_v, high_i);
        }
        coalescing_keeps_all_apart(kept, t, others, high_v, high_i);
    } else {
        let all = free.push(s);
        assert forall|j: int, k: int| 0 <= j < k < all.len() implies (#[trigger] all[j]).apart(
            #[trigger] all[k],
        ) by {
            if k == free.len() {
                assert(s.apart(free[j]));
            } else {
                assert(free[j].apart(free[k]));
            }
        }
        assert forall|j: int, k: int| 0 <= j < others.len() && 0 <= k < all.len() implies (
        #[trigger] others[j]).apart(#[trigger] all[k]) by {
            if k == free.len() {
                assert(s.apart(others[j]));
            } else {
                assert(others[j].apart(free[k]));
            }
        }
    }
}

/// Giving a slot back that shares nothing with the others leaves the others as
/// they were, with nothing shared.
proof fn release_keeps_others(p: PoolView, s: Slot, others: Seq<Slot>)
    requires
        p.laid_out(others),
        inside(s, p.high_v, p.high_i),
        apart_from_all(others, s),
        apart_from_all(p.free, s),
    ensures
        p.released(s).laid_out(others),
{
    let q = p.released(s);
    if s.end_v() == p.high_v && s.end_i() == p.high_i {
        assert forall|k: int| #![trigger others[k]] 0 <= k < others.len() implies {
            &&& others[k].end_v() <= q.high_v
            &&& others[k].end_i() <= q.high_i
        } by {
            assert(s.apart(others[k]));
        }
        assert forall|k: int| #![trigger q.free[k]] 0 <= k < q.free.len() implies {
            &&& q.free[k].end_v() <= q.high_v
            &&& q.free[k].end_i() <= q.high_i
        } by {
            assert(s.apart(p.free[k]));
        }
    } else {
        assert(under(p.free, p.high_v, p.high_i));
        assert(under(others, p.high_v, p.high_i));
        coalescing_keeps_all_apart(p.free, s, others, p.high_v, p.high_i);
        assert forall|k: int| 0 <= k < q.free.len() implies (
        #[trigger] q.free[k]).countable() by {
            assert(inside(q.free[k], p.high_v, p.high_i));
        }
        assert forall|k: int| #![trigger q.free[k]] 0 <= k < q.free.len() implies inside(
            q.free[k],
            q.high_v,
            q.high_i,
        ) by {}
    }
}

/// Releasing one of the slots in use leaves the others in use, and no two
/// slots of the pool share a vertex or an index.
pub proof fn releasing_keeps_slots_apart(p: PoolView, live: Seq<Slot>, k: int)
    requires
        p.laid_out(live),
        0 <= k < live.len(),
    ensures
        p.released(live[k]).laid_out(live.remove(k)),
{
    let s = live[k];
    let others = live.remove(k);
    assert forall|j: int| 0 <= j < others.len() implies s.apart(#[trigger] others[j]) by {
        if j < k {
            assert(others[j] == live[j]);
            assert(live[j].apart(live[k]));
        } else {
            assert(others[j] == live[j + 1]);
            assert(live[k].apart(live[j + 1]));
        }
    }
    assert forall|i: int, j: int| 0 <= i < j < others.len() implies (#[trigger] others[i]).apart(
        #[trigger] others[j],
    ) by {
        let a = if i < k { i } else { i + 1 };
        let b = if j < k { j } else { j + 1 };
        assert(others[i] == live[a] && others[j] == live[b]);
        assert(live[a].apart(live[b]));
    }
    assert forall|i: int| #![trigger others[i]] 0 <= i < others.len() implies inside(
        others[i],
        p.high_v,
        p.high_i,
    ) by {
        let a = if i < k { i } else { i + 1 };
        assert(others[i] == live[a]);
    }
    assert forall|i: int, j: int| 0 <= i < others.len() && 0 <= j < p.free.len() implies (
    #[trigger] others[i]).apart(#[trigger] p.free[j]) by {
        let a = if i < k { i } else { i + 1 };
        assert(others[i] == live[a]);
        assert(live[a].apart(p.free[j]));
    }
    assert forall|j: int| 0 <= j < p.free.len() implies s.apart(#[trigger] p.free[j]) by {
        assert(live[k].apart(p.free[j]));
    }
    release_keeps_others(p, s, others);
}

/// A walk loses no vertex and no index: what it keeps and what it has grown into
/// sum up to what was there.
proof fn walk_keeps_totals(free: Seq<Slot>, s: Slot)
    requires
        s.countable(),
        forall|k: int| 0 <= k < free.len() ==> (#[trigger] free[k]).countable(),
    ensures
        ({
            let (kept, t) = pool::merge_pass(free, s);
            &&& t.countable()
            &&& forall|k: int| 0 <= k < kept.len() ==> (#[trigger] kept[k]).countable()
            &&& pool::sum_v(kept) + t.v_count == pool::sum_v(free) + s.v_count
            &&& pool::sum_i(kept) + t.i_count == pool::sum_i(free) + s.i_count
        }),
    decreases free.len(),
{
    if free.len() > 0 {
        let init = free.drop_last();
        assert forall|k: int| 0 <= k < init.len() implies (#[trigger] init[k]).countable() by {
            assert(init[k] == free[k]);
        }
        walk_keeps_totals(init, s);
        let (kept, t) = pool::merge_pass(init, s);
        let f = free.last();
        assert(f == free[free.len() - 1]);
        assert(kept.push(f).drop_last() =~= kept);
    }
}

proof fn coalescing_keeps_totals(free: Seq<Slot>, s: Slot)
    requires
        s.countable(),
        forall|k: int| 0 <= k < free.len() ==> (#[trigger] free[k]).countable(),
    ensures
        pool::sum_v(pool::coalesced(free, s)) == pool::sum_v(free) + s.v_count,
        pool::sum_i(pool::coalesced(free, s)) == pool::sum_i(free) + s.i_count,
    decreases free.len(),
{
    walk_keeps_totals(free, s);
    let (kept, t) = pool::merge_pass(free, s);
    if kept.len() < free.len() {
        coalescing_keeps_totals(kept, t);
    } else {
        assert(free.push(s).drop_last() =~= free);
    }
}

/// Releasing a slot with vertices frees exactly its counts: they join the free
/// totals, or come off the high-water marks where the slot ends at both. A slot
/// without vertices changes nothing.
pub proof fn releasing_frees_what_the_slot_holds(p: PoolView, slot: Slot)
    requires
        p.wf(),
        slot.countable(),
    ensures
        ({
            let q = p.released(slot);
            if slot.v_count == 0 {
                q == p
            } else if slot.end_v() == p.high_v && slot.end_i() == p.high_i {
                &&& q.free == p.free
                &&& q.high_v == p.high_v - slot.v_count
                &&& q.high_i == p.high_i - slot.i_count
            } else {
                &&& pool::sum_v(q.free) == pool::sum_v(p.free) + slot.v_count
                &&& pool::sum_i(q.free) == pool::sum_i(p.free) + slot.i_count
                &&& q.high_v == p.high_v
                &&& q.high_i == p.high_i
            }
        }),
{
    coalescing_keeps_totals(p.free, slot);
}

proof fn sums_of_the_rest(slots: Seq<Slot>, k: int)
    requires
        0 <= k < slots.len(),
    ensures
        pool::sum_v(slots) == pool::sum_v(slots.remove(k)) + slots[k].v_count,
        pool::sum_i(slots) == pool::sum_i(slots.remove(k)) + slots[k].i_count,
    decreases slots.len(),
{
    let init = slots.drop_last();
    let rest = slots.remove(k);
    if k == slots.len() - 1 {
        assert(rest =~= init);
    } else {
        sums_of_the_rest(init, k);
        assert(rest.drop_last() =~= init.remove(k));
        assert(rest.last() == slots.last());
    }
}

proof fn sums_add_up(a: Seq<Slot>, b: Seq<Slot>)
    ensures
        pool::sum_v(a + b) == pool::sum_v(a) + pool::sum_v(b),
        pool::sum_i(a + b) == pool::sum_i(a) + pool::sum_i(b),
    decreases b.len(),
{
    if b.len() == 0 {
        assert(a + b =~= a);
    } else {
        sums_add_up(a, b.drop_last());
        assert((a + b).drop_last() =~= a + b.drop_last());
        assert((a + b).last() == b.last());
    }
}

/// The place of the slot that ends last.
proof fn hindmost(slots: Seq<Slot>) -> (m: int)
    requires
        slots.len() > 0,
    ensures
        0 <= m < slots.len(),
        forall|k: int| 0 <= k < slots.len() ==> (#[trigger] slots[k]).end_v() <= slots[m].end_v(),
    decreases slots.len(),
{
    let n = slots.len() - 1;
    if n == 0 {
        0
    } else {
        let init = slots.drop_last();
        let m = hindmost(init);
        let r = if slots[n].end_v() > slots[m].end_v() {
            n
        } else {
            m
        };
        assert forall|k: int| 0 <= k < slots.len() implies (#[trigger] slots[k]).end_v()
            <= slots[r].end_v() by {
            if k < n {
                assert(init[k] == slots[k]);
            }
        }
        r
    }
}

/// Slots that share nothing hold together no more than what lies below the marks.
proof fn apart_slots_fit(slots: Seq<Slot>, high_v: int, high_i: int)
    requires
        0 <= high_v,
        0 <= high_i,
        under(slots, high_v, high_i),
        pairwise_apart(slots),
    ensures
        pool::sum_v(slots) <= high_v,
        pool::sum_i(slots) <= high_i,
    decreases slots.len(),
{
    if slots.len() > 0 {
        let m = hindmost(slots);
        let s = slots[m];
        let rest = slots.remove(m);
        assert(inside(s, high_v, high_i));
        assert forall|k: int| #![trigger rest[k]] 0 <= k < rest.len() implies inside(
            rest[k],
            s.base_v as int,
            s.base_i as int,
        ) by {
            let j = if k < m { k } else { k + 1 };
            assert(rest[k] == slots[j]);
            assert(inside(slots[j], high_v, high_i));
            if j < m {
                assert(slots[j].apart(slots[m]));
            } else {
                assert(slots[m].apart(slots[j]));
            }
            assert(slots[j].end_v() <= s.end_v());
        }
        assert forall|i: int, j: int| 0 <= i < j < rest.len() implies (#[trigger] rest[i]).apart(
            #[trigger] rest[j],
        ) by {
            let a = if i < m { i } else { i + 1 };
            let b = if j < m { j } else { j + 1 };
            assert(rest[i] == slots[a] && rest[j] == slots[b]);
            assert(slots[a].apart(slots[b]));
        }
        apart_slots_fit(rest, s.base_v as int, s.base_i as int);
        sums_of_the_rest(slots, m);
    }
}

/// What is free and what is in use lies below the high-water marks, all together. So
/// the free capacity of a pool can be counted.
pub proof fn slots_fit_below_the_marks(p: PoolView, live: Seq<Slot>)
    requires
        p.laid_out(live),
    ensures
        pool::sum_v(p.free) + pool::sum_v(live) <= p.high_v,
        pool::sum_i(p.free) + pool::sum_i(live) <= p.high_i,
        pool::sum_v(p.free) <= u32::MAX,
        pool::sum_i(p.free) <= u32::MAX,
{
    let all = live + p.free;
    assert forall|k: int| #![trigger all[k]] 0 <= k < all.len() implies inside(
        all[k],
        p.high_v,
        p.high_i,
    ) by {
        if k < live.len() {
            assert(all[k] == live[k]);
        } else {
            assert(all[k] == p.free[k - live.len()]);
        }
    }
    assert forall|j: int, k: int| 0 <= j < k < all.len() implies (#[trigger] all[j]).apart(
        #[trigger] all[k],
    ) by {
        if k < live.len() {
            assert(live[j].apart(live[k]));
        } else if j < live.len() {
            assert(live[j].apart(p.free[k - live.len()]));
        } else {
            assert(p.free[j - live.len()].apart(p.free[k - live.len()]));
        }
    }
    apart_slots_fit(all, p.high_v, p.high_i);
    apart_slots_fit(p.free, p.high_v, p.high_i);
    sums_add_up(live, p.free);
}

/// An allocation never touches a slot in use: the slot it hands out shares
/// nothing with any of them, nor with what stays free, and the pool stays
/// inside its limits.
pub proof fn allocating_keeps_slots_apart(p: PoolView, live: Seq<Slot>, need_v: u32, need_i: u32)
    requires
        p.laid_out(live),
        need_v > 0,
        need_i > 0,
        p.allocated(need_v as int, need_i as int) is Some,
    ensures
        p.after_alloc(need_v as int, need_i as int).laid_out(
            live.push(p.allocated(need_v as int, need_i as int)->0),
        ),
{
    let s = p.allocated(need_v as int, need_i as int)->0;
    let all = live.push(s);
    let q = p.after_alloc(need_v as int, need_i as int);
    if p.has_headroom(need_v as int, need_i as int) {
        assert forall|j: int, k: int| 0 <= j < k < all.len() implies (#[trigger] all[j]).apart(
            #[trigger] all[k],
        ) by {
            if k < live.len() {
                assert(live[j].apart(live[k]));
            } else {
                assert(inside(live[j], p.high_v, p.high_i));
            }
        }
        assert forall|j: int, k: int| 0 <= j < all.len() && 0 <= k < q.free.len() implies (
        #[trigger] all[j]).apart(#[trigger] q.free[k]) by {
            if j < live.len() {
                assert(live[j].apart(p.free[k]));
            } else {
                assert(inside(p.free[k], p.high_v, p.high_i));
            }
        }
        assert forall|j: int| #![trigger all[j]] 0 <= j < all.len() implies inside(
            all[j],
            q.high_v,
            q.high_i,
        ) by {
            if j < live.len() {
                assert(inside(live[j], p.high_v, p.high_i));
            }
        }
        assert forall|j: int| #![trigger q.free[j]] 0 <= j < q.free.len() implies inside(
            q.free[j],
            q.high_v,
            q.high_i,
        ) by {
            assert(inside(p.free[j], p.high_v, p.high_i));
        }
    } else {
        best_fit_exists(p.free, need_v as int, need_i as int);
        let b = pool::best_fit(p.free, need_v as int, need_i as int);
        let f = p.free[b];
        let mid = PoolView { free: p.free.remove(b), ..p };
        assert(inside(f, p.high_v, p.high_i));
        assert forall|j: int| #![trigger mid.free[j]] 0 <= j < mid.free.len() implies {
            &&& inside(mid.free[j], p.high_v, p.high_i)
            &&& mid.free[j].apart(f)
            &&& mid.free[j].countable()
        } by {
            let a = if j < b { j } else { j + 1 };
            assert(mid.free[j] == p.free[a]);
            if a < b {
                assert(p.free[a].apart(p.free[b]));
            } else {
                assert(p.free[b].apart(p.free[a]));
            }
        }
        assert forall|i: int, j: int| 0 <= i < j < mid.free.len() implies (
        #[trigger] mid.free[i]).apart(#[trigger] mid.free[j]) by {
            let a = if i < b { i } else { i + 1 };
            let c = if j < b { j } else { j + 1 };
            assert(mid.free[i] == p.free[a] && mid.free[j] == p.free[c]);
            assert(p.free[a].apart(p.free[c]));
        }
        assert forall|j: int| 0 <= j < live.len() implies f.apart(#[trigger] live[j]) by {
            assert(live[j].apart(p.free[b]));
        }
        assert forall|j: int, k: int| 0 <= j < k < all.len() implies (#[trigger] all[j]).apart(
            #[trigger] all[k],
        ) by {
            if k < live.len() {
                assert(live[j].apart(live[k]));
            } else {
                assert(f.apart(live[j]));
            }
        }
        assert forall|j: int, k: int| 0 <= j < all.len() && 0 <= k < mid.free.len() implies (
        #[trigger] all[j]).apart(#[trigger] mid.free[k]) by {
            let a = if k < b { k } else { k + 1 };
            assert(mid.free[k] == p.free[a]);
            if j < live.len() {
                assert(live[j].apart(p.free[a]));
            } else {
                assert(mid.free[k].apart(f));
            }
        }
        assert forall|j: int| #![trigger all[j]] 0 <= j < all.len() implies inside(
            all[j],
            p.high_v,
            p.high_i,
        ) by {
            if j < live.len() {
                assert(inside(live[j], p.high_v, p.high_i));
            }
        }
        assert(mid.laid_out(all));
        if f.v_count > need_v || f.i_count > need_i {
            let tail = f.rest(need_v as int, need_i as int);
            if tail.v_count > 0 {
                assert forall|j: int| 0 <= j < all.len() implies tail.apart(
                    #[trigger] all[j],
                ) by {
                    if j < live.len() {
                        assert(f.apart(live[j]));
                    }
                }
                assert forall|j: int| 0 <= j < mid.free.len() implies tail.apart(
                    #[trigger] mid.free[j],
                ) by {
                    assert(mid.free[j].apart(f));
                }
                release_keeps_others(mid, tail, all);
            }
        }
    }
}

/// Where a slot fits, there is a best one.
proof fn best_fit_exists(free: Seq<Slot>, need_v: int, need_i: int)
    requires
        pool::some_fit(free, need_v, need_i),
    ensures
        pool::is_best_fit(free, need_v, need_i, pool::best_fit(free, need_v, need_i)),
{
    let k = smallest_fit(free, need_v, need_i);
    pool::best_fit_is_unique(free, need_v, need_i, k);
}

proof fn smallest_fit(free: Seq<Slot>, need_v: int, need_i: int) -> (k: int)
    requires
        pool::some_fit(free, need_v, need_i),
    ensures
        pool::is_best_fit(free, need_v, need_i, k),
    decreases free.len(),
{
    let init = free.drop_last();
    let n = free.len() - 1;
    assert forall|j: int| 0 <= j < n implies init[j] == #[trigger] free[j] by {}
    if pool::some_fit(init, need_v, need_i) {
        let b = smallest_fit(init, need_v, need_i);
        let k = if free[n].fits(need_v, need_i) && free[n].v_count < free[b].v_count {
            n
        } else {
            b
        };
        assert forall|j: int| #![trigger free[j]]
            0 <= j < free.len() && free[j].fits(need_v, need_i) implies {
            &&& free[k].v_count <= free[j].v_count
            &&& j < k ==> free[k].v_count < free[j].v_count
        } by {
            if j < n {
                assert(init[j].fits(need_v, need_i));
            }
        }
        k
    } else {
        let j0 = choose|j: int| 0 <= j < free.len() && (#[trigger] free[j]).fits(need_v, need_i);
        if j0 < n {
            assert(init[j0].fits(need_v, need_i));
        }
        assert forall|j: int| #![trigger free[j]]
            0 <= j < free.len() && free[j].fits(need_v, need_i) implies j == n by {
            if j < n {
                assert(init[j].fits(need_v, need_i));
            }
        }
        n
    }
}

/// A slot taken at the tail and given back at once leaves the pool as it was.
pub proof fn release_undoes_a_tail_allocation(p: PoolView, need_v: u32, need_i: u32)
    requires
        p.wf(),
        need_v > 0,
        p.has_headroom(need_v as int, need_i as int),
    ensures
        p.after_alloc(need_v as int, need_i as int).released(
            p.allocated(need_v as int, need_i as int)->0,
        ) == p,
{
}

proof fn walk_keeps_untouched(free: Seq<Slot>, s: Slot, o: Slot)
    requires
        forall|k: int| 0 <= k < free.len() ==> !touch(#[trigger] free[k], o),
    ensures
        forall|k: int| 0 <= k < pool::merge_pass(free, s).0.len() ==> !touch(
            #[trigger] pool::merge_pass(free, s).0[k],
            o,
        ),
    decreases free.len(),
{
    if free.len() > 0 {
        let init = free.drop_last();
        assert forall|k: int| 0 <= k < init.len() implies !touch(#[trigger] init[k], o) by {
            assert(init[k] == free[k]);
        }
        walk_keeps_untouched(init, s, o);
        let f = free.last();
        assert(f == free[free.len() - 1]);
        let (kept, t) = pool::merge_pass(init, s);
        let all = pool::merge_pass(free, s).0;
        assert forall|k: int| 0 <= k < all.len() implies !touch(#[trigger] all[k], o) by {
            if k < kept.len() {
                assert(all[k] == kept[k]);
            } else {
                assert(all[k] == f);
            }
        }
    }
}

proof fn walk_keeps_settled(free: Seq<Slot>, s: Slot)
    requires
        settled(free),
    ensures
        settled(pool::merge_pass(free, s).0),
        pool::merge_pass(free, s).0.len() <= free.len(),
        pool::merge_pass(free, s).0.len() == free.len() ==> pool::merge_pass(free, s).1 == s && forall|k: int|
            0 <= k < free.len() ==> !touch(#[trigger] free[k], s),
    decreases free.len(),
{
    if free.len() > 0 {
        let init = free.drop_last();
        let f = free.last();
        assert forall|k: int| 0 <= k < init.len() implies !touch(#[trigger] init[k], f) by {
            assert(init[k] == free[k] && f == free[free.len() - 1]);
            assert(!touch(free[k], free[free.len() - 1]));
        }
        assert(settled(init)) by {
            assert forall|j: int, k: int| 0 <= j < k < init.len() implies !touch(
                #[trigger] init[j],
                #[trigger] init[k],
            ) by {
                assert(init[j] == free[j] && init[k] == free[k]);
            }
        }
        walk_keeps_settled(init, s);
        walk_keeps_untouched(init, s, f);
        let (kept, t) = pool::merge_pass(init, s);
        if !f.abuts(t) && !t.abuts(f) {
            let all = kept.push(f);
            assert forall|j: int, k: int| 0 <= j < k < all.len() implies !touch(
                #[trigger] all[j],
                #[trigger] all[k],
            ) by {
                if k == kept.len() {
                    assert(!touch(kept[j], f));
                } else {
                    assert(!touch(kept[j], kept[k]));
                }
            }
            assert forall|k: int|
                all.len() == free.len() && 0 <= k < free.len() implies !touch(
                #[trigger] free[k],
                s,
            ) by {
                if k < init.len() {
                    assert(init[k] == free[k]);
                } else {
                    assert(free[k] == f);
                }
            }
        }
    }
}

proof fn coalescing_settles(free: Seq<Slot>, s: Slot)
    requires
        settled(free),
    ensures
        settled(pool::coalesced(free, s)),
    decreases free.len(),
{
    walk_keeps_settled(free, s);
    let (kept, t) = pool::merge_pass(free, s);
    if kept.len() < free.len() {
        coalescing_settles(kept, t);
    } else {
        let all = free.push(s);
        assert forall|j: int, k: int| 0 <= j < k < all.len() implies !touch(
            #[trigger] all[j],
            #[trigger] all[k],
        ) by {
            if k == free.len() {
                assert(!touch(free[j], s));
            } else {
                assert(!touch(free[j], free[k]));
            }
        }
    }
}

/// No two slots of the free list ever lie against one another: releasing merges
/// them.
pub proof fn releasing_leaves_nothing_to_merge(p: PoolView, slot: Slot)
    requires
        settled(p.free),
    ensures
        settled(p.released(slot).free),
{
    coalescing_settles(p.free, slot);
}

/// Allocating, too, leaves no two free slots against one another.
pub proof fn allocating_leaves_nothing_to_merge(p: PoolView, need_v: u32, need_i: u32)
    requires
        settled(p.free),
    ensures
        settled(p.after_alloc(need_v as int, need_i as int).free),
{
    if !p.has_headroom(need_v as int, need_i as int) && pool::some_fit(
        p.free,
        need_v as int,
        need_i as int,
    ) {
        best_fit_exists(p.free, need_v as int, need_i as int);
        let b = pool::best_fit(p.free, need_v as int, need_i as int);
        let rest = p.free.remove(b);
        assert forall|i: int, j: int| 0 <= i < j < rest.len() implies !touch(
            #[trigger] rest[i],
            #[trigger] rest[j],
        ) by {
            let a = if i < b { i } else { i + 1 };
            let c = if j < b { j } else { j + 1 };
            assert(rest[i] == p.free[a] && rest[j] == p.free[c]);
            assert(!touch(p.free[a], p.free[c]));
        }
        let f = p.free[b];
        let mid = PoolView { free: rest, ..p };
        releasing_leaves_nothing_to_merge(mid, f.rest(need_v as int, need_i as int));
    }
}

/// A slot is taken at the tail while there is room; else at the front of a free one, the
/// smallest that is big enough; and only where none is big enough, not at all.
pub proof fn slots_come_from_the_tail_or_the_smallest_fit(
    p: PoolView,
    need_v: u32,
    need_i: u32,
    j: int,
)
    requires
        p.wf(),
    ensures
        ({
            let tail = p.high_v + need_v <= p.vert_cap && p.high_i + need_i <= p.idx_cap;
            let r = p.allocated(need_v as int, need_i as int);
            let fits = 0 <= j < p.free.len() && p.free[j].v_count >= need_v && p.free[j].i_count
                >= need_i;
            &&& r matches Some(s) ==> s.v_count == need_v && s.i_count == need_i
            &&& tail ==> (r matches Some(s) && s.base_v == p.high_v && s.base_i == p.high_i)
            &&& tail ==> p.after_alloc(need_v as int, need_i as int) == (PoolView {
                high_v: p.high_v + need_v,
                high_i: p.high_i + need_i,
                ..p
            })
            &&& !tail && fits ==> r is Some
            &&& !tail && r is None ==> p.after_alloc(need_v as int, need_i as int) == p
            &&& !tail && r is Some ==> exists|k: int|
                0 <= k < p.free.len() && (#[trigger] p.free[k]).base_v == r->Some_0.base_v
                    && p.free[k].base_i == r->Some_0.base_i && p.free[k].v_count >= need_v
                    && p.free[k].i_count >= need_i && (fits ==> p.free[k].v_count
                    <= p.free[j].v_count)
        }),
{
    let v = need_v as int;
    let i = need_i as int;
    if !p.has_headroom(v, i) {
        if 0 <= j < p.free.len() {
            assert(p.free[j].fits(v, i) ==> pool::some_fit(p.free, v, i));
        }
        if pool::some_fit(p.free, v, i) {
            best_fit_exists(p.free, v, i);
            let k = pool::best_fit(p.free, v, i);
            assert(pool::is_best_fit(p.free, v, i, k));
            assert(p.free[k].base_v == p.allocated(v, i)->Some_0.base_v);
        }
    }
}

/// What is left of a free slot is what was not taken of it.
pub proof fn rests_are_what_is_left(s: Slot, use_v: u32, use_i: u32)
    requires
        s.base_v + s.v_count <= u32::MAX,
        s.base_i + s.i_count <= u32::MAX,
        use_v <= s.v_count,
        use_i <= s.i_count,
    ensures
        ({
            let r = s.rest(use_v as int, use_i as int);
            &&& r.base_v == s.base_v + use_v
            &&& r.base_i == s.base_i + use_i
            &&& r.base_v + r.v_count == s.base_v + s.v_count
            &&& r.base_i + r.i_count == s.base_i + s.i_count
        }),
{
}

/// A slot that is given back at the tail lowers the marks to where it began; one without
/// vertices changes nothing.
pub proof fn slots_at_the_tail_lower_the_marks(p: PoolView, s: Slot)
    ensures
        s.v_count == 0 ==> p.released(s) == p,
        s.v_count > 0 && s.base_v + s.v_count == p.high_v && s.base_i + s.i_count == p.high_i
            ==> p.released(s) == (PoolView {
            high_v: s.base_v as int,
            high_i: s.base_i as int,
            ..p
        }),
        s.v_count > 0 && !(s.base_v + s.v_count == p.high_v && s.base_i + s.i_count == p.high_i)
            ==> p.released(s).high_v == p.high_v && p.released(s).high_i == p.high_i,
{
}

/// An allocation takes exactly the vertices that were asked for from what is free below
/// the marks or above them: nothing is lost. Of the indices the same holds, but for those
/// of a free slot whose vertices are used up, which go with it.
pub proof fn allocating_takes_what_is_asked(p: PoolView, need_v: u32, need_i: u32)
    requires
        p.wf(),
        p.allocated(need_v as int, need_i as int) is Some,
    ensures
        ({
            let q = p.after_alloc(need_v as int, need_i as int);
            let f = p.free[pool::best_fit(p.free, need_v as int, need_i as int)];
            let spare = if p.has_headroom(need_v as int, need_i as int) || f.v_count > need_v {
                0
            } else {
                f.i_count - need_i
            };
            &&& q.high_v - pool::sum_v(q.free) == p.high_v - pool::sum_v(p.free) + need_v
            &&& q.high_i - pool::sum_i(q.free) == p.high_i - pool::sum_i(p.free) + need_i + spare
            &&& q.vert_cap == p.vert_cap
            &&& q.idx_cap == p.idx_cap
        }),
{
    let v = need_v as int;
    let i = need_i as int;
    if !p.has_headroom(v, i) {
        best_fit_exists(p.free, v, i);
        let k = pool::best_fit(p.free, v, i);
        assert(pool::is_best_fit(p.free, v, i, k));
        let f = p.free[k];
        let without = PoolView { free: p.free.remove(k), ..p };
        sums_of_the_rest(p.free, k);
        assert(f.countable());
        assert forall|j: int| 0 <= j < without.free.len() implies (
        #[trigger] without.free[j]).countable() by {
            if j < k {
                assert(p.free[j].countable());
            } else {
                assert(p.free[j + 1].countable());
            }
        }
        releasing_frees_what_the_slot_holds(without, f.rest(v, i));
    }
}

} // verus!
