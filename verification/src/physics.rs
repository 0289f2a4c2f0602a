//! Which blocks stop an agent.
//!
//! An agent's body covers a box of cells. What moves the body is arithmetic on its
//! position; which cells it covers, and where it has to stop, is decided here.
use vstd::prelude::*;

use crate::coords::BlockPos;
use crate::world;
use crate::world::World;

verus! {

/// A box of cells, with its ends.
#[derive(Clone, Copy, PartialEq, Eq, Structural, Debug)]
pub struct CellBox {
    pub x0: i32,
    pub x1: i32,
    pub y0: i32,
    pub y1: i32,
    pub z0: i32,
    pub z1: i32,
}

/// The axes.
#[derive(Clone, Copy, PartialEq, Eq, Structural, Debug)]
pub enum Axis {
    East,
    Up,
    South,
}

impl CellBox {
    /// Whether a cell lies in the box.
    pub open spec fn covers(self, p: BlockPos) -> bool {
        &&& self.x0 <= p.x <= self.x1
        &&& self.y0 <= p.y <= self.y1
        &&& self.z0 <= p.z <= self.z1
    }
}

/// Whether a cell of a box is solid.
pub open spec fn blocks(w: world::WorldView, b: CellBox, p: BlockPos) -> bool {
    b.covers(p) && w.content(p).spec_is_solid()
}

/// Whether anything in a box is solid.
pub open spec fn blocked(w: world::WorldView, b: CellBox) -> bool {
    exists|p: BlockPos| #[trigger] blocks(w, b, p)
}

/// Where a cell lies along an axis.
pub open spec fn along(axis: Axis, p: BlockPos) -> i32 {
    match axis {
        Axis::East => p.x,
        Axis::Up => p.y,
        Axis::South => p.z,
    }
}

/// Whether a cell is met first, or as soon, on the way along an axis.
pub open spec fn no_later(a: i32, b: i32, forward: bool) -> bool {
    if forward {
        a <= b
    } else {
        a >= b
    }
}

/// Whether two worlds are the same, but that more of the first may be materialised.
pub open spec fn same_blocks(a: world::WorldView, b: world::WorldView) -> bool {
    &&& a.seed == b.seed
    &&& a.edits == b.edits
    &&& a.pending == b.pending
    &&& b.chunks.subset_of(a.chunks)
}

fn met(axis: Axis, p: BlockPos) -> (c: i32)
    ensures
        c == along(axis, p),
{
    match axis {
        Axis::East => p.x,
        Axis::Up => p.y,
        Axis::South => p.z,
    }
}

/// The first solid cell that a body in a box meets on the way along an axis, by
/// where it lies along it.
pub fn first_met(w: &mut World, b: CellBox, axis: Axis, forward: bool) -> (r: Option<i32>)
    requires
        old(w).wf(),
    ensures
        final(w).wf(),
        same_blocks(final(w)@, old(w)@),
        match r {
            Some(c) => {
                &&& exists|p: BlockPos| #[trigger] blocks(old(w)@, b, p) && along(axis, p) == c
                &&& forall|p: BlockPos| #[trigger]
                    blocks(old(w)@, b, p) ==> no_later(c, along(axis, p), forward)
            },
            None => !blocked(old(w)@, b),
        },
{
    let ghost v = w@;
    let mut best: Option<i32> = None;
    let mut y: i64 = b.y0 as i64;
    while y <= b.y1 as i64
        invariant
            w.wf(),
            v == old(w)@,
            same_blocks(w@, v),
            b.y0 <= y <= b.y1 + 1 || y == b.y0,
            is_first(v, b, axis, forward, best, |p: BlockPos| p.y < y),
        decreases b.y1 - y + 1,
    {
        let mut z: i64 = b.z0 as i64;
        while z <= b.z1 as i64
            invariant
                w.wf(),
                v == old(w)@,
                same_blocks(w@, v),
                b.y0 <= y <= b.y1,
                b.z0 <= z <= b.z1 + 1 || z == b.z0,
                is_first(
                    v,
                    b,
                    axis,
                    forward,
                    best,
                    |p: BlockPos| p.y < y || (p.y == y && p.z < z),
                ),
            decreases b.z1 - z + 1,
        {
            let mut x: i64 = b.x0 as i64;
            while x <= b.x1 as i64
                invariant
                    w.wf(),
                    v == old(w)@,
                    same_blocks(w@, v),
                    b.y0 <= y <= b.y1,
                    b.z0 <= z <= b.z1,
                    b.x0 <= x <= b.x1 + 1 || x == b.x0,
                    is_first(
                        v,
                        b,
                        axis,
                        forward,
                        best,
                        |p: BlockPos|
                            p.y < y || (p.y == y && (p.z < z || (p.z == z && p.x < x))),
                    ),
                decreases b.x1 - x + 1,
            {
                let p = BlockPos { x: x as i32, y: y as i32, z: z as i32 };
                let ghost before = w@;
                let block = w.block_at(p);
                assert(before.content(p) == v.content(p));
                let ghost earlier = best;
                if block.is_solid() {
                    let c: i32 = met(axis, p);
                    best = match best {
                        None => Some(c),
                        Some(o) => if (forward && c < o) || (!forward && c > o) {
                            Some(c)
                        } else {
                            Some(o)
                        },
                    };
                }
                proof {
                    one_more_cell(v, b, axis, forward, earlier, best, p);
                    let seen = |q: BlockPos|
                        q.y < y || (q.y == y && (q.z < z || (q.z == z && q.x < x)));
                    let next = |q: BlockPos|
                        q.y < y || (q.y == y && (q.z < z || (q.z == z && q.x < x + 1)));
                    add_cell(v, b, axis, forward, earlier, best, p, seen, next);
                }
                x = x + 1;
            }
            proof {
                let seen = |q: BlockPos|
                    q.y < y || (q.y == y && (q.z < z || (q.z == z && q.x < x)));
                let next = |q: BlockPos| q.y < y || (q.y == y && q.z < z + 1);
                same_cells(v, b, axis, forward, best, seen, next);
            }
            z = z + 1;
        }
        proof {
            let seen = |q: BlockPos| q.y < y || (q.y == y && q.z < z);
            let next = |q: BlockPos| q.y < y + 1;
            same_cells(v, b, axis, forward, best, seen, next);
        }
        y = y + 1;
    }
    proof {
        let seen = |q: BlockPos| q.y < y;
        if best is None {
            assert forall|p: BlockPos| !#[trigger] blocks(v, b, p) by {
                if blocks(v, b, p) {
                    assert(seen(p));
                }
            }
        }
    }
    best
}

/// Whether `best` is the first solid cell met of those that were seen.
spec fn is_first(
    w: world::WorldView,
    b: CellBox,
    axis: Axis,
    forward: bool,
    best: Option<i32>,
    seen: spec_fn(BlockPos) -> bool,
) -> bool {
    match best {
        Some(c) => {
            &&& exists|p: BlockPos| #[trigger] blocks(w, b, p) && along(axis, p) == c
            &&& forall|p: BlockPos| #[trigger]
                blocks(w, b, p) && seen(p) ==> no_later(c, along(axis, p), forward)
        },
        None => forall|p: BlockPos| #[trigger] blocks(w, b, p) ==> !seen(p),
    }
}

proof fn one_more_cell(
    w: world::WorldView,
    b: CellBox,
    axis: Axis,
    forward: bool,
    earlier: Option<i32>,
    best: Option<i32>,
    p: BlockPos,
)
    requires
        b.covers(p),
        best == (if w.content(p).spec_is_solid() {
            match earlier {
                None => Some(along(axis, p)),
                Some(o) => if (forward && along(axis, p) < o) || (!forward && along(axis, p)
                    > o) {
                    Some(along(axis, p))
                } else {
                    Some(o)
                },
            }
        } else {
            earlier
        }),
    ensures
        w.content(p).spec_is_solid() ==> best is Some && no_later(
            best->Some_0,
            along(axis, p),
            forward,
        ),
        earlier is Some ==> best is Some && no_later(best->Some_0, earlier->Some_0, forward),
{
}

proof fn add_cell(
    w: world::WorldView,
    b: CellBox,
    axis: Axis,
    forward: bool,
    earlier: Option<i32>,
    best: Option<i32>,
    p: BlockPos,
    seen: spec_fn(BlockPos) -> bool,
    next: spec_fn(BlockPos) -> bool,
)
    requires
        b.covers(p),
        is_first(w, b, axis, forward, earlier, seen),
        forall|q: BlockPos| #[trigger] next(q) ==> seen(q) || q == p,
        w.content(p).spec_is_solid() ==> best is Some && no_later(
            best->Some_0,
            along(axis, p),
            forward,
        ),
        earlier is Some ==> best is Some && no_later(best->Some_0, earlier->Some_0, forward),
        best == earlier || (w.content(p).spec_is_solid() && best == Some(along(axis, p))),
    ensures
        is_first(w, b, axis, forward, best, next),
{
    if best != earlier {
        assert(blocks(w, b, p));
    }
    assert forall|q: BlockPos| #[trigger] blocks(w, b, q) && next(q) implies best is Some
        && no_later(best->Some_0, along(axis, q), forward) by {
        if q != p {
            assert(seen(q));
        }
    }
}

proof fn same_cells(
    w: world::WorldView,
    b: CellBox,
    axis: Axis,
    forward: bool,
    best: Option<i32>,
    seen: spec_fn(BlockPos) -> bool,
    next: spec_fn(BlockPos) -> bool,
)
    requires
        is_first(w, b, axis, forward, best, seen),
        forall|q: BlockPos| b.covers(q) && #[trigger] next(q) ==> seen(q),
    ensures
        is_first(w, b, axis, forward, best, next),
{
    assert forall|q: BlockPos| #[trigger] blocks(w, b, q) && next(q) implies seen(q) by {}
}

/// Whether a body in a box is in something solid.
pub fn collides(w: &mut World, b: CellBox) -> (r: bool)
    requires
        old(w).wf(),
    ensures
        final(w).wf(),
        same_blocks(final(w)@, old(w)@),
        r == blocked(old(w)@, b),
{
    match first_met(w, b, Axis::Up, true) {
        Some(_) => true,
        None => false,
    }
}

/// Whether the cell of a body's centre is water.
pub fn in_water(w: &mut World, body: BlockPos) -> (r: bool)
    requires
        old(w).wf(),
    ensures
        final(w).wf(),
        same_blocks(final(w)@, old(w)@),
        r == old(w)@.content(body).spec_is_water(),
{
    w.block_at(body).is_water()
}

// ---- Laws ------------------------------------------------------------------------

/// A body that fits keeps fitting in any smaller box: shrinking a box removes
/// obstacles, never adds any.
pub proof fn smaller_boxes_are_freer(w: world::WorldView, a: CellBox, b: CellBox)
    requires
        !blocked(w, a),
        forall|p: BlockPos| b.covers(p) ==> #[trigger] a.covers(p),
    ensures
        !blocked(w, b),
{
    assert forall|p: BlockPos| !#[trigger] blocks(w, b, p) by {
        if blocks(w, b, p) {
            assert(a.covers(p));
            assert(blocks(w, a, p));
        }
    }
}

/// A body stopped before the first solid cell that it meets on its way is in
/// nothing solid: the part of the box before that cell is free.
pub proof fn stopping_before_the_first_is_free(w: world::WorldView, b: CellBox, c: i32)
    requires
        c > i32::MIN,
        forall|p: BlockPos| #[trigger] blocks(w, b, p) ==> c <= p.x,
    ensures
        !blocked(w, CellBox { x1: (c - 1) as i32, ..b }) || c - 1 > b.x1,
{
    let a = CellBox { x1: (c - 1) as i32, ..b };
    if c - 1 <= b.x1 {
        assert forall|p: BlockPos| !#[trigger] blocks(w, a, p) by {
            if blocks(w, a, p) {
                assert(blocks(w, b, p));
            }
        }
    }
}

} // verus!
