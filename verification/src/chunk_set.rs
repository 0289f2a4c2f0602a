//! Sets of chunks, and how far chunks are from one another.
use std::collections::HashMap;

use vstd::prelude::*;

use crate::coords;
use crate::coords::{pack, ChunkPos};

verus! {

broadcast use {vstd::std_specs::hash::group_hash_axioms, crate::coords::packed_unpacks};

/// The larger of two numbers.
pub open spec fn larger(a: int, b: int) -> int {
    if a >= b {
        a
    } else {
        b
    }
}

/// How far two numbers are apart.
pub open spec fn apart(a: int, b: int) -> int {
    if a >= b {
        a - b
    } else {
        b - a
    }
}

/// How far a chunk is from a cell, in chunks, along the axis where that is most.
pub open spec fn distance(c: ChunkPos, cell: (i32, i32, i32)) -> int {
    larger(
        larger(apart(c.x as int, cell.0 as int), apart(c.y as int, cell.1 as int)),
        apart(c.z as int, cell.2 as int),
    )
}

/// How far a chunk is from a cell, whatever the heights.
pub open spec fn distance_h(c: ChunkPos, cell: (i32, i32, i32)) -> int {
    larger(apart(c.x as int, cell.0 as int), apart(c.z as int, cell.2 as int))
}

fn gap(a: i32, b: i32) -> (r: i64)
    ensures
        r == apart(a as int, b as int),
{
    if a >= b {
        a as i64 - b as i64
    } else {
        b as i64 - a as i64
    }
}

/// How far a chunk is from a cell.
pub fn chunk_dist(c: ChunkPos, cell: (i32, i32, i32)) -> (r: i64)
    ensures
        r == distance(c, cell),
        r >= 0,
{
    let h: i64 = chunk_dist_h(c, cell);
    let v: i64 = gap(c.y, cell.1);
    if h >= v {
        h
    } else {
        v
    }
}

/// How far a chunk is from a cell, whatever the heights.
pub fn chunk_dist_h(c: ChunkPos, cell: (i32, i32, i32)) -> (r: i64)
    ensures
        r == distance_h(c, cell),
        r >= 0,
{
    let a: i64 = gap(c.x, cell.0);
    let b: i64 = gap(c.z, cell.2);
    if a >= b {
        a
    } else {
        b
    }
}

/// A longer list holds what the shorter one did, and its last item.
pub(crate) proof fn contains_of_push(s: Seq<ChunkPos>, c: ChunkPos, d: ChunkPos)
    ensures
        s.push(c).contains(d) == (s.contains(d) || d == c),
{
    let t = s.push(c);
    assert(t[s.len() as int] == c);
    if s.contains(d) {
        let j = choose|j: int| 0 <= j < s.len() && s[j] == d;
        assert(t[j] == d);
    }
    if t.contains(d) && d != c {
        let j = choose|j: int| 0 <= j < t.len() && t[j] == d;
        assert(s[j] == d);
    }
}

/// A set of chunks, which lists them in the order in which they came.
pub struct ChunkSet {
    list: Vec<ChunkPos>,
    index: HashMap<u128, bool>,
}

spec fn key(c: ChunkPos) -> u128 {
    coords::packed(c.x, c.y, c.z)
}

proof fn keys_differ(a: ChunkPos, b: ChunkPos)
    requires
        key(a) == key(b),
    ensures
        a == b,
{
    assert(coords::packed_x(key(a)) == a.x && coords::packed_x(key(b)) == b.x);
    assert(coords::packed_y(key(a)) == a.y && coords::packed_y(key(b)) == b.y);
    assert(coords::packed_z(key(a)) == a.z && coords::packed_z(key(b)) == b.z);
}

impl View for ChunkSet {
    type V = Set<ChunkPos>;

    closed spec fn view(&self) -> Set<ChunkPos> {
        self.list@.to_set()
    }
}

impl ChunkSet {
    /// Whether each chunk is listed once, and the index knows just those.
    pub closed spec fn wf(self) -> bool {
        &&& self.list@.no_duplicates()
        &&& forall|c: ChunkPos|
            (#[trigger] self.index@.contains_key(key(c))) == self.list@.contains(c)
    }

    /// The chunks, in the order in which they came.
    pub closed spec fn listed(self) -> Seq<ChunkPos> {
        self.list@
    }

    /// The list has each chunk of the set once.
    pub proof fn list_is_the_set(self)
        requires
            self.wf(),
        ensures
            self.listed().no_duplicates(),
            self.listed().to_set() == self@,
    {
    }

    /// The empty set.
    pub fn new() -> (s: ChunkSet)
        ensures
            s.wf(),
            s@ == Set::<ChunkPos>::empty(),
    {
        let s = ChunkSet { list: Vec::new(), index: HashMap::new() };
        assert(s@ =~= Set::<ChunkPos>::empty());
        s
    }

    /// Whether a chunk is in the set.
    pub fn contains(&self, c: ChunkPos) -> (r: bool)
        requires
            self.wf(),
        ensures
            r == self@.contains(c),
    {
        assert(self.index@.contains_key(key(c)) == self.list@.contains(c));
        self.index.contains_key(&pack(c.x, c.y, c.z))
    }

    /// Puts a chunk into the set. Returns whether it was not there.
    pub fn insert(&mut self, c: ChunkPos) -> (r: bool)
        requires
            old(self).wf(),
        ensures
            final(self).wf(),
            r == !old(self)@.contains(c),
            final(self)@ == old(self)@.insert(c),
    {
        if self.contains(c) {
            assert(self@ =~= self@.insert(c));
            return false;
        }
        let ghost before = self.list@;
        let ghost known = self.index@;
        self.list.push(c);
        self.index.insert(pack(c.x, c.y, c.z), true);
        proof {
            let after = self.list@;
            assert(after[before.len() as int] == c);
            assert forall|d: ChunkPos| after.contains(d) == (before.contains(d) || d == c) by {
                if before.contains(d) {
                    let i = choose|i: int| 0 <= i < before.len() && before[i] == d;
                    assert(after[i] == d);
                }
                if after.contains(d) && d != c {
                    let i = choose|i: int| 0 <= i < after.len() && after[i] == d;
                    assert(before[i] == d);
                }
            }
            assert forall|d: ChunkPos|
                (#[trigger] self.index@.contains_key(key(d))) == after.contains(d) by {
                assert(known.contains_key(key(d)) == before.contains(d));
                if key(d) == key(c) {
                    keys_differ(d, c);
                }
            }
            assert(self@ =~= old(self)@.insert(c));
        }
        true
    }

    /// Number of chunks.
    pub fn len(&self) -> (n: usize)
        requires
            self.wf(),
        ensures
            self@.finite(),
            n == self@.len(),
    {
        proof {
            self.list@.unique_seq_to_set();
        }
        self.list.len()
    }

    /// The chunks.
    pub fn items(&self) -> (v: &[ChunkPos])
        requires
            self.wf(),
        ensures
            v@ == self.listed(),
            v@.no_duplicates(),
            v@.to_set() == self@,
    {
        self.list.as_slice()
    }

    /// Drops the chunks farther from a cell than `r`.
    pub fn retain_near(&mut self, cell: (i32, i32, i32), r: i64)
        requires
            old(self).wf(),
        ensures
            final(self).wf(),
            final(self)@ == old(self)@.filter(|c: ChunkPos| distance(c, cell) <= r),
    {
        let mut kept = ChunkSet::new();
        let mut i: usize = 0;
        let ghost near = |c: ChunkPos| distance(c, cell) <= r;
        while i < self.list.len()
            invariant
                i <= self.list@.len(),
                self.list@ == old(self).list@,
                kept.wf(),
                near == (|c: ChunkPos| distance(c, cell) <= r),
                forall|c: ChunkPos|
                    (#[trigger] kept@.contains(c)) == (self.list@.take(i as int).contains(c)
                        && near(c)),
            decreases self.list@.len() - i,
        {
            let c = self.list[i];
            let ghost before = kept@;
            if chunk_dist(c, cell) <= r {
                let _ = kept.insert(c);
            }
            proof {
                let part = self.list@.take(i as int);
                let more = self.list@.take(i as int + 1);
                assert(more =~= part.push(c));
                assert forall|d: ChunkPos| (#[trigger] kept@.contains(d)) == (more.contains(d)
                    && near(d)) by {
                    assert(before.contains(d) == (part.contains(d) && near(d)));
                    if part.contains(d) {
                        let j = choose|j: int| 0 <= j < part.len() && part[j] == d;
                        assert(more[j] == d);
                    }
                    if more.contains(d) && d != c {
                        let j = choose|j: int| 0 <= j < more.len() && more[j] == d;
                        assert(part[j] == d);
                    }
                    if d == c {
                        assert(more[i as int] == d);
                    }
                }
            }
            i = i + 1;
        }
        assert(self.list@.take(i as int) =~= self.list@);
        assert(kept@ =~= old(self)@.filter(near)) by {
            assert forall|c: ChunkPos| kept@.contains(c) == old(self)@.filter(near).contains(c) by {
                assert(old(self)@.contains(c) == old(self).list@.contains(c));
            }
        }
        *self = kept;
    }

    /// Drops a chunk. Returns whether it was there.
    pub fn remove(&mut self, c: ChunkPos) -> (r: bool)
        requires
            old(self).wf(),
        ensures
            final(self).wf(),
            r == old(self)@.contains(c),
            final(self)@ == old(self)@.remove(c),
    {
        if !self.contains(c) {
            assert(self@.remove(c) =~= self@);
            return false;
        }
        let ghost before = self.list@;
        let ghost known = self.index@;
        let mut i: usize = 0;
        while i < self.list.len() && self.list[i] != c
            invariant
                i <= self.list@.len(),
                self.list@ == before,
                self.index@ == known,
                forall|k: int| 0 <= k < i ==> before[k] != c,
            decreases self.list@.len() - i,
        {
            i = i + 1;
        }
        proof {
            let k = choose|k: int| 0 <= k < before.len() && before[k] == c;
            assert(before[k] == c);
        }
        let _ = self.list.remove(i);
        let _ = self.index.remove(&pack(c.x, c.y, c.z));
        proof {
            let after = self.list@;
            assert(after =~= before.remove(i as int));
            assert forall|d: ChunkPos| after.contains(d) == (before.contains(d) && d != c) by {
                if after.contains(d) {
                    let k = choose|k: int| 0 <= k < after.len() && after[k] == d;
                    let j = if k < i {
                        k
                    } else {
                        k + 1
                    };
                    assert(before[j] == d);
                    assert(before[j] != before[i as int]);
                }
                if before.contains(d) && d != c {
                    let k = choose|k: int| 0 <= k < before.len() && before[k] == d;
                    let j = if k < i {
                        k
                    } else {
                        k - 1
                    };
                    assert(after[j] == d);
                }
            }
            assert(after.no_duplicates()) by {
                assert forall|a: int, b: int|
                    0 <= a < after.len() && 0 <= b < after.len() && a != b implies after[a]
                    != after[b] by {
                    let x = if a < i {
                        a
                    } else {
                        a + 1
                    };
                    let y = if b < i {
                        b
                    } else {
                        b + 1
                    };
                    assert(after[a] == before[x] && after[b] == before[y]);
                }
            }
            assert forall|d: ChunkPos|
                (#[trigger] self.index@.contains_key(key(d))) == after.contains(d) by {
                assert(known.contains_key(key(d)) == before.contains(d));
                if key(d) == key(c) {
                    keys_differ(d, c);
                }
            }
            assert(self@ =~= old(self)@.remove(c));
        }
        true
    }
}

// ---- Laws ------------------------------------------------------------------------

/// Distance is symmetric, and nothing only for a chunk and its own cell.
pub proof fn distance_is_one(a: ChunkPos, b: ChunkPos)
    ensures
        distance(a, (b.x, b.y, b.z)) == distance(b, (a.x, a.y, a.z)),
        distance(a, (b.x, b.y, b.z)) == 0 <==> a == b,
        distance_h(a, (b.x, b.y, b.z)) <= distance(a, (b.x, b.y, b.z)),
{
}

} // verus!
