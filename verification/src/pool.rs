//! The slot allocator of the terrain pool.
//!
//! Chunk meshes share one vertex buffer and one index buffer. A mesh owns a
//! slot: a contiguous range in both. The allocator appends at the high-water
//! mark while there is headroom, and otherwise takes the best fitting slot of
//! its free list, where released slots wait, merged with their neighbours.
use vstd::prelude::*;

verus! {

/// A contiguous range of the pool, in both buffers.
#[derive(Clone, Copy, PartialEq, Eq, Structural, Debug)]
pub struct Slot {
    pub base_v: u32,
    pub base_i: u32,
    /// Number of vertices in the slot.
    pub v_count: u32,
    /// Number of indices in the slot.
    pub i_count: u32,
}

impl Slot {
    /// The first vertex past the slot.
    pub open spec fn end_v(self) -> int {
        self.base_v + self.v_count
    }

    /// The first index past the slot.
    pub open spec fn end_i(self) -> int {
        self.base_i + self.i_count
    }

    /// Whether the ends of the slot can be counted.
    pub open spec fn countable(self) -> bool {
        self.end_v() <= u32::MAX && self.end_i() <= u32::MAX
    }

    /// Whether `next` begins exactly where this slot ends, in both buffers.
    pub open spec fn abuts(self, next: Slot) -> bool {
        self.end_v() == next.base_v && self.end_i() == next.base_i
    }

    /// This slot and `next`, which abuts it, as one.
    pub open spec fn joined(self, next: Slot) -> Slot {
        Slot {
            base_v: self.base_v,
            base_i: self.base_i,
            v_count: (self.v_count + next.v_count) as u32,
            i_count: (self.i_count + next.i_count) as u32,
        }
    }

    /// Whether this slot lies before `other`, in both buffers.
    pub open spec fn precedes(self, other: Slot) -> bool {
        self.end_v() <= other.base_v && self.end_i() <= other.base_i
    }

    /// Whether two slots share nothing, and lie in the same order in both buffers.
    pub open spec fn apart(self, other: Slot) -> bool {
        self.precedes(other) || other.precedes(self)
    }

    /// Whether the slot can hold so many vertices and indices.
    pub open spec fn fits(self, need_v: int, need_i: int) -> bool {
        self.v_count >= need_v && self.i_count >= need_i
    }

    /// What is left of the slot when its first `use_v` vertices and `use_i`
    /// indices are taken.
    pub open spec fn rest(self, use_v: int, use_i: int) -> Slot {
        Slot {
            base_v: (self.base_v + use_v) as u32,
            base_i: (self.base_i + use_i) as u32,
            v_count: (self.v_count - use_v) as u32,
            i_count: (self.i_count - use_i) as u32,
        }
    }

    /// The unused tail of this slot when only `use_v` vertices and `use_i`
    /// indices of it are taken; `None` when it is used up exactly.
    pub fn tail(&self, use_v: u32, use_i: u32) -> (r: Option<Slot>)
        requires
            self.countable(),
            self.fits(use_v as int, use_i as int),
        ensures
            r == (if self.v_count > use_v || self.i_count > use_i {
                Some(self.rest(use_v as int, use_i as int))
            } else {
                None
            }),
    {
        if self.v_count > use_v || self.i_count > use_i {
            Some(
                Slot {
                    base_v: self.base_v + use_v,
                    base_i: self.base_i + use_i,
                    v_count: self.v_count - use_v,
                    i_count: self.i_count - use_i,
                },
            )
        } else {
            None
        }
    }
}

/// What an allocator holds: its high-water marks, its free list, its limits.
#[verifier::ext_equal]
pub struct PoolView {
    pub high_v: int,
    pub high_i: int,
    pub free: Seq<Slot>,
    pub vert_cap: int,
    pub idx_cap: int,
}

/// The slot allocator of the terrain pool.
pub struct TerrainPool {
    high_v: u32,
    high_i: u32,
    free: Vec<Slot>,
    vert_cap: u32,
    idx_cap: u32,
}

/// One walk over the free slots, front to back: each slot that lies against
/// `s`, as grown so far, is merged into it; the others are kept.
pub open spec fn merge_pass(free: Seq<Slot>, s: Slot) -> (Seq<Slot>, Slot)
    decreases free.len(),
{
    if free.len() == 0 {
        (free, s)
    } else {
        let (kept, t) = merge_pass(free.drop_last(), s);
        let f = free.last();
        if f.abuts(t) {
            (kept, f.joined(t))
        } else if t.abuts(f) {
            (kept, t.joined(f))
        } else {
            (kept.push(f), t)
        }
    }
}

/// The free list once `s` has joined it: walked until nothing merges any more.
pub open spec fn coalesced(free: Seq<Slot>, s: Slot) -> Seq<Slot>
    decreases free.len(),
{
    let (kept, t) = merge_pass(free, s);
    if kept.len() < free.len() {
        coalesced(kept, t)
    } else {
        free.push(s)
    }
}

/// Whether free slot `k` is the one to use: the smallest in vertices of those
/// that fit, and the first of these.
pub open spec fn is_best_fit(free: Seq<Slot>, need_v: int, need_i: int, k: int) -> bool {
    &&& 0 <= k < free.len()
    &&& free[k].fits(need_v, need_i)
    &&& forall|j: int|
        #![trigger free[j]]
        0 <= j < free.len() && free[j].fits(need_v, need_i) ==> {
            &&& free[k].v_count <= free[j].v_count
            &&& j < k ==> free[k].v_count < free[j].v_count
        }
}

/// The free slot to use, where one fits.
pub open spec fn best_fit(free: Seq<Slot>, need_v: int, need_i: int) -> int {
    choose|k: int| is_best_fit(free, need_v, need_i, k)
}

/// Whether some free slot fits.
pub open spec fn some_fit(free: Seq<Slot>, need_v: int, need_i: int) -> bool {
    exists|j: int| 0 <= j < free.len() && (#[trigger] free[j]).fits(need_v, need_i)
}

/// The sum of the vertex counts.
pub open spec fn sum_v(free: Seq<Slot>) -> int
    decreases free.len(),
{
    if free.len() == 0 {
        0
    } else {
        sum_v(free.drop_last()) + free.last().v_count
    }
}

/// The sum of the index counts.
pub open spec fn sum_i(free: Seq<Slot>) -> int
    decreases free.len(),
{
    if free.len() == 0 {
        0
    } else {
        sum_i(free.drop_last()) + free.last().i_count
    }
}

impl PoolView {
    /// Whether there is headroom for so many vertices and indices at the tail.
    pub open spec fn has_headroom(self, need_v: int, need_i: int) -> bool {
        self.high_v + need_v <= self.vert_cap && self.high_i + need_i <= self.idx_cap
    }

    /// The pool once `slot` is given back: a slot without vertices is dropped,
    /// one that ends at both high-water marks rewinds them, any other joins the
    /// free list.
    pub open spec fn released(self, slot: Slot) -> PoolView {
        if slot.v_count == 0 {
            self
        } else if slot.end_v() == self.high_v && slot.end_i() == self.high_i {
            PoolView { high_v: slot.base_v as int, high_i: slot.base_i as int, ..self }
        } else {
            PoolView { free: coalesced(self.free, slot), ..self }
        }
    }

    /// The slot that an allocation gets.
    pub open spec fn allocated(self, need_v: int, need_i: int) -> Option<Slot> {
        if self.has_headroom(need_v, need_i) {
            Some(
                Slot {
                    base_v: self.high_v as u32,
                    base_i: self.high_i as u32,
                    v_count: need_v as u32,
                    i_count: need_i as u32,
                },
            )
        } else if some_fit(self.free, need_v, need_i) {
            let f = self.free[best_fit(self.free, need_v, need_i)];
            Some(
                Slot {
                    base_v: f.base_v,
                    base_i: f.base_i,
                    v_count: need_v as u32,
                    i_count: need_i as u32,
                },
            )
        } else {
            None
        }
    }

    /// The pool after that allocation: the tail has moved, or the best fitting
    /// free slot is gone and what it has left over is given back.
    pub open spec fn after_alloc(self, need_v: int, need_i: int) -> PoolView {
        if self.has_headroom(need_v, need_i) {
            PoolView { high_v: self.high_v + need_v, high_i: self.high_i + need_i, ..self }
        } else if some_fit(self.free, need_v, need_i) {
            let k = best_fit(self.free, need_v, need_i);
            let f = self.free[k];
            let without = PoolView { free: self.free.remove(k), ..self };
            if f.v_count > need_v || f.i_count > need_i {
                without.released(f.rest(need_v, need_i))
            } else {
                without
            }
        } else {
            self
        }
    }

    /// Whether the marks are inside the limits and the free slots countable.
    pub open spec fn wf(self) -> bool {
        &&& 0 <= self.high_v <= self.vert_cap <= u32::MAX
        &&& 0 <= self.high_i <= self.idx_cap <= u32::MAX
        &&& forall|k: int| 0 <= k < self.free.len() ==> (#[trigger] self.free[k]).countable()
    }

    /// Whether `slots` lie below both high-water marks and apart from one another,
    /// none of them without vertices.
    pub open spec fn spread(self, slots: Seq<Slot>) -> bool {
        &&& forall|k: int| #![trigger slots[k]]
            0 <= k < slots.len() ==> {
                &&& slots[k].v_count > 0
                &&& slots[k].end_v() <= self.high_v
                &&& slots[k].end_i() <= self.high_i
            }
        &&& forall|j: int, k: int|
            0 <= j < k < slots.len() ==> (#[trigger] slots[j]).apart(#[trigger] slots[k])
    }

    /// Whether the slots in use and the free ones share nothing.
    pub open spec fn laid_out(self, live: Seq<Slot>) -> bool {
        &&& self.wf()
        &&& self.spread(live)
        &&& self.spread(self.free)
        &&& forall|j: int, k: int|
            0 <= j < live.len() && 0 <= k < self.free.len() ==> (#[trigger] live[j]).apart(
                #[trigger] self.free[k],
            )
    }
}

/// The best fit is one slot alone.
pub proof fn best_fit_is_unique(free: Seq<Slot>, need_v: int, need_i: int, k: int)
    requires
        is_best_fit(free, need_v, need_i, k),
    ensures
        best_fit(free, need_v, need_i) == k,
        some_fit(free, need_v, need_i),
{
    let b = best_fit(free, need_v, need_i);
    assert(is_best_fit(free, need_v, need_i, b));
    assert(free[b].fits(need_v, need_i));
    assert(free[k].fits(need_v, need_i));
}

proof fn merge_pass_properties(free: Seq<Slot>, s: Slot)
    requires
        s.countable(),
        forall|k: int| 0 <= k < free.len() ==> (#[trigger] free[k]).countable(),
    ensures
        ({
            let (kept, t) = merge_pass(free, s);
            &&& t.countable()
            &&& kept.len() <= free.len()
            &&& forall|k: int| 0 <= k < kept.len() ==> (#[trigger] kept[k]).countable()
            &&& kept.len() == free.len() ==> kept == free && t == s
        }),
    decreases free.len(),
{
    if free.len() > 0 {
        merge_pass_properties(free.drop_last(), s);
        let (kept, t) = merge_pass(free.drop_last(), s);
        let f = free.last();
        assert(f == free[free.len() - 1]);
        if !f.abuts(t) && !t.abuts(f) {
            if kept.len() == free.len() - 1 {
                assert(kept.push(f) =~= free);
            }
        }
    }
}

impl View for TerrainPool {
    type V = PoolView;

    closed spec fn view(&self) -> PoolView {
        PoolView {
            high_v: self.high_v as int,
            high_i: self.high_i as int,
            free: self.free@,
            vert_cap: self.vert_cap as int,
            idx_cap: self.idx_cap as int,
        }
    }
}

impl TerrainPool {
    /// An empty pool with room for `vert_cap` vertices and `idx_cap` indices.
    pub fn new(vert_cap: u32, idx_cap: u32) -> (p: TerrainPool)
        ensures
            p@ == (PoolView {
                high_v: 0,
                high_i: 0,
                free: Seq::empty(),
                vert_cap: vert_cap as int,
                idx_cap: idx_cap as int,
            }),
            p@.wf(),
    {
        TerrainPool { high_v: 0, high_i: 0, free: Vec::new(), vert_cap, idx_cap }
    }

    /// The high-water marks: vertices, indices.
    pub fn used(&self) -> (r: (u32, u32))
        ensures
            r.0 == self@.high_v,
            r.1 == self@.high_i,
    {
        (self.high_v, self.high_i)
    }

    /// The limits: vertices, indices.
    pub fn caps(&self) -> (r: (u32, u32))
        ensures
            r.0 == self@.vert_cap,
            r.1 == self@.idx_cap,
    {
        (self.vert_cap, self.idx_cap)
    }

    /// Everything in use lies at the front, up to the given marks, and nothing is
    /// free below them.
    pub fn repack(&mut self, high_v: u32, high_i: u32)
        requires
            old(self)@.wf(),
            high_v <= old(self)@.vert_cap,
            high_i <= old(self)@.idx_cap,
        ensures
            final(self)@.wf(),
            final(self)@ == (PoolView {
                high_v: high_v as int,
                high_i: high_i as int,
                free: Seq::empty(),
                ..old(self)@
            }),
    {
        self.high_v = high_v;
        self.high_i = high_i;
        self.free.clear();
        assert(self@.free =~= Seq::<Slot>::empty());
    }

    /// Number of slots on the free list.
    pub fn free_slots(&self) -> (n: usize)
        ensures
            n == self@.free.len(),
    {
        self.free.len()
    }

    /// Total free capacity on the free list: vertices, indices.
    pub fn free_total(&self) -> (r: (u32, u32))
        requires
            sum_v(self@.free) <= u32::MAX,
            sum_i(self@.free) <= u32::MAX,
        ensures
            r.0 == sum_v(self@.free),
            r.1 == sum_i(self@.free),
    {
        let mut v: u32 = 0;
        let mut i: u32 = 0;
        let mut k: usize = 0;
        while k < self.free.len()
            invariant
                k <= self.free@.len(),
                self@.free == self.free@,
                v == sum_v(self.free@.take(k as int)),
                i == sum_i(self.free@.take(k as int)),
                sum_v(self.free@) <= u32::MAX,
                sum_i(self.free@) <= u32::MAX,
            decreases self.free@.len() - k,
        {
            proof {
                sum_grows(self.free@, k as int + 1);
                let next = self.free@.take(k as int + 1);
                assert(next.drop_last() =~= self.free@.take(k as int));
                assert(next.last() == self.free@[k as int]);
            }
            v = v + self.free[k].v_count;
            i = i + self.free[k].i_count;
            k = k + 1;
        }
        assert(self.free@.take(k as int) =~= self.free@);
        (v, i)
    }

    /// Takes a slot for `need_v` vertices and `need_i` indices, without evicting
    /// anything: at the tail where there is headroom, else the best fitting free
    /// slot, whose left over part goes back to the free list.
    pub fn allocate(&mut self, need_v: u32, need_i: u32) -> (r: Option<Slot>)
        requires
            old(self)@.wf(),
            need_v > 0,
            need_i > 0,
        ensures
            final(self)@.wf(),
            r == old(self)@.allocated(need_v as int, need_i as int),
            final(self)@ == old(self)@.after_alloc(need_v as int, need_i as int),
            r is Some ==> r->0.countable(),
    {
        if self.high_v as u64 + need_v as u64 <= self.vert_cap as u64 && self.high_i as u64
            + need_i as u64 <= self.idx_cap as u64 {
            let s = Slot {
                base_v: self.high_v,
                base_i: self.high_i,
                v_count: need_v,
                i_count: need_i,
            };
            self.high_v = self.high_v + need_v;
            self.high_i = self.high_i + need_i;
            return Some(s);
        }
        let mut best: Option<usize> = None;
        let mut k: usize = 0;
        while k < self.free.len()
            invariant
                k <= self.free@.len(),
                *self == *old(self),
                match best {
                    Some(b) => b < k && is_best_fit(
                        self.free@.take(k as int),
                        need_v as int,
                        need_i as int,
                        b as int,
                    ),
                    None => !some_fit(self.free@.take(k as int), need_v as int, need_i as int),
                },
            decreases self.free@.len() - k,
        {
            let f = self.free[k];
            let ghost seen = self.free@.take(k as int);
            let ghost next = self.free@.take(k as int + 1);
            proof {
                assert forall|j: int| 0 <= j < k implies next[j] == #[trigger] seen[j] by {}
                assert(next[k as int] == f);
            }
            if f.v_count >= need_v && f.i_count >= need_i {
                match best {
                    Some(b) => {
                        assert(seen[b as int] == self.free@[b as int]);
                        if f.v_count < self.free[b].v_count {
                            best = Some(k);
                            proof {
                                assert forall|j: int|
                                    #![trigger next[j]]
                                    0 <= j < next.len() && next[j].fits(
                                        need_v as int,
                                        need_i as int,
                                    ) implies {
                                    &&& f.v_count <= next[j].v_count
                                    &&& j < k ==> f.v_count < next[j].v_count
                                } by {
                                    if j < k {
                                        assert(seen[j].fits(need_v as int, need_i as int));
                                    }
                                }
                            }
                        } else {
                            proof {
                                assert forall|j: int|
                                    #![trigger next[j]]
                                    0 <= j < next.len() && next[j].fits(
                                        need_v as int,
                                        need_i as int,
                                    ) implies {
                                    &&& next[b as int].v_count <= next[j].v_count
                                    &&& j < b ==> next[b as int].v_count < next[j].v_count
                                } by {
                                    if j < k {
                                        assert(seen[j].fits(need_v as int, need_i as int));
                                    }
                                }
                            }
                        }
                    },
                    None => {
                        best = Some(k);
                        proof {
                            assert forall|j: int|
                                #![trigger next[j]]
                                0 <= j < next.len() && next[j].fits(
                                    need_v as int,
                                    need_i as int,
                                ) implies j == k by {
                                if j < k {
                                    assert(seen[j].fits(need_v as int, need_i as int));
                                }
                            }
                        }
                    },
                }
            } else {
                proof {
                    match best {
                        Some(b) => {
                            assert forall|j: int|
                                #![trigger next[j]]
                                0 <= j < next.len() && next[j].fits(
                                    need_v as int,
                                    need_i as int,
                                ) implies {
                                &&& next[b as int].v_count <= next[j].v_count
                                &&& j < b ==> next[b as int].v_count < next[j].v_count
                            } by {
                                assert(j < k);
                                assert(seen[j].fits(need_v as int, need_i as int));
                            }
                        },
                        None => {
                            assert forall|j: int| 0 <= j < next.len() implies !(
                            #[trigger] next[j]).fits(need_v as int, need_i as int) by {
                                if j < k {
                                    assert(!seen[j].fits(need_v as int, need_i as int));
                                }
                            }
                        },
                    }
                }
            }
            k = k + 1;
        }
        assert(self.free@.take(k as int) =~= self.free@);
        match best {
            None => None,
            Some(b) => {
                proof {
                    best_fit_is_unique(self.free@, need_v as int, need_i as int, b as int);
                }
                let s = self.free.remove(b);
                match s.tail(need_v, need_i) {
                    Some(tail) => {
                        self.release(tail);
                    },
                    None => {},
                }
                Some(
                    Slot {
                        base_v: s.base_v,
                        base_i: s.base_i,
                        v_count: need_v,
                        i_count: need_i,
                    },
                )
            },
        }
    }

    /// Gives a slot back. One that ends at the high-water marks rewinds them; any
    /// other joins the free list, merged with the free slots it lies against.
    pub fn release(&mut self, slot: Slot)
        requires
            old(self)@.wf(),
            slot.countable(),
        ensures
            final(self)@.wf(),
            final(self)@ == old(self)@.released(slot),
    {
        if slot.v_count == 0 {
            return;
        }
        if slot.base_v + slot.v_count == self.high_v && slot.base_i + slot.i_count
            == self.high_i {
            self.high_v = slot.base_v;
            self.high_i = slot.base_i;
            assert(self@.free == old(self)@.free);
            return;
        }
        let mut s = slot;
        let mut merged: bool = true;
        while merged
            invariant
                self@.wf(),
                s.countable(),
                self.high_v == old(self).high_v,
                self.high_i == old(self).high_i,
                self.vert_cap == old(self).vert_cap,
                self.idx_cap == old(self).idx_cap,
                coalesced(old(self).free@, slot) == (if merged {
                    coalesced(self.free@, s)
                } else {
                    self.free@.push(s)
                }),
            decreases self.free@.len() + (if merged { 1int } else { 0int }),
        {
            let ghost free = self.free@;
            let ghost start = s;
            assert(self@.free == free);
            merged = false;
            let mut kept: Vec<Slot> = Vec::new();
            let mut k: usize = 0;
            while k < self.free.len()
                invariant
                    k <= self.free@.len(),
                    self.free@ == free,
                    s.countable(),
                    forall|j: int| 0 <= j < free.len() ==> (#[trigger] free[j]).countable(),
                    (kept@, s) == merge_pass(free.take(k as int), start),
                    merged <==> kept@.len() < k,
                    kept@.len() <= k,
                    start.countable(),
                decreases free.len() - k,
            {
                let f = self.free[k];
                proof {
                    let next = free.take(k as int + 1);
                    assert(next.drop_last() =~= free.take(k as int));
                    assert(next.last() == f);
                    merge_pass_properties(next, start);
                }
                if f.base_v + f.v_count == s.base_v && f.base_i + f.i_count == s.base_i {
                    s = Slot {
                        base_v: f.base_v,
                        base_i: f.base_i,
                        v_count: f.v_count + s.v_count,
                        i_count: f.i_count + s.i_count,
                    };
                    merged = true;
                } else if s.base_v + s.v_count == f.base_v && s.base_i + s.i_count == f.base_i {
                    s = Slot {
                        base_v: s.base_v,
                        base_i: s.base_i,
                        v_count: s.v_count + f.v_count,
                        i_count: s.i_count + f.i_count,
                    };
                    merged = true;
                } else {
                    kept.push(f);
                }
                k = k + 1;
            }
            proof {
                assert(free.take(k as int) =~= free);
                merge_pass_properties(free, start);
            }
            self.free = kept;
        }
        let ghost before = self@.free;
        self.free.push(s);
        proof {
            assert(self@.free == coalesced(old(self)@.free, slot));
            assert(self@.free.drop_last() =~= before);
            assert forall|k: int| 0 <= k < self@.free.len() implies (
            #[trigger] self@.free[k]).countable() by {
                if k < before.len() {
                    assert(self@.free[k] == before[k]);
                }
            }
            assert(self@ =~= old(self)@.released(slot));
        }
    }

    /// Whether the free list holds a slot that fits.
    pub fn free_fits(&self, need_v: u32, need_i: u32) -> (r: bool)
        ensures
            r == some_fit(self@.free, need_v as int, need_i as int),
    {
        let mut k: usize = 0;
        while k < self.free.len()
            invariant
                k <= self.free@.len(),
                self@.free == self.free@,
                forall|j: int|
                    0 <= j < k ==> !(#[trigger] self.free@[j]).fits(need_v as int, need_i as int),
            decreases self.free@.len() - k,
        {
            if self.free[k].v_count >= need_v && self.free[k].i_count >= need_i {
                assert(self.free@[k as int].fits(need_v as int, need_i as int));
                return true;
            }
            k = k + 1;
        }
        false
    }

    /// Empties the pool.
    pub fn reset(&mut self)
        ensures
            final(self)@ == (PoolView {
                high_v: 0,
                high_i: 0,
                free: Seq::empty(),
                ..old(self)@
            }),
            old(self)@.wf() ==> final(self)@.wf(),
    {
        self.high_v = 0;
        self.high_i = 0;
        self.free.clear();
        assert(self@.free =~= Seq::<Slot>::empty());
    }
}

proof fn sum_grows(free: Seq<Slot>, n: int)
    requires
        0 <= n <= free.len(),
    ensures
        0 <= sum_v(free.take(n)) <= sum_v(free),
        0 <= sum_i(free.take(n)) <= sum_i(free),
    decreases free.len(),
{
    if n == free.len() {
        assert(free.take(n) =~= free);
        if n > 0 {
            sum_grows(free.drop_last(), n - 1);
            assert(free.drop_last().take(n - 1) =~= free.drop_last());
        }
    } else {
        sum_grows(free.drop_last(), n);
        assert(free.drop_last().take(n) =~= free.take(n));
    }
}

} // verus!
