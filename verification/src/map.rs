//! The map of the world from above.
//!
//! Each column shows its topmost block. The map works from the terrain and the
//! history of edits alone: it never touches the world itself, so that it can be
//! drawn while the world moves on.
use std::collections::HashMap;

use vstd::prelude::*;

use crate::block::Block;
use crate::column_top;
use crate::column_top::{column_top_base, column_top_edited};
use crate::coords;
use crate::coords::{pack, BlockPos, WORLD_HEIGHT};
use crate::terrain;
use crate::terrain::{HeightCache, WorldGen};
use crate::world;
use crate::world::Edit;

verus! {

broadcast use {vstd::std_specs::hash::group_hash_axioms, crate::coords::packed_unpacks};

/// No side of a map is longer.
pub const MAP_MAX: i32 = 256;

/// No side of a map is shorter.
pub const MAP_MIN: i32 = 16;

/// The height shown for a column without any block.
pub const UNKNOWN: u8 = 255;

/// A piece of the map. Each column has two bytes, the height of its topmost block
/// and the id, in rows from west to east, the northmost first.
pub struct MapRegion {
    pub x0: i32,
    pub z0: i32,
    pub w: i32,
    pub h: i32,
    pub cols: Vec<u8>,
}

/// What a map is drawn from.
#[verifier::ext_equal]
pub struct MapView {
    pub seed: u64,
    /// The edits that it knows of, oldest first.
    pub edits: Seq<Edit>,
}

/// What the map is drawn from: the terrain, and for each edited column the blocks
/// that were put there.
pub struct MapState {
    gen: WorldGen,
    heights: HeightCache,
    columns: HashMap<u128, Vec<(i32, Block)>>,
    synced: Ghost<Seq<Edit>>,
}

/// A side of a map when `n` was asked for.
pub open spec fn side(n: int) -> int {
    if n < MAP_MIN {
        MAP_MIN as int
    } else if n > MAP_MAX {
        MAP_MAX as int
    } else {
        n
    }
}

/// Whether an edit was made in a column.
pub open spec fn touched(edits: Seq<Edit>, x: i32, z: i32) -> bool {
    exists|i: int|
        0 <= i < edits.len() && (#[trigger] edits[i]).pos.x == x && edits[i].pos.z == z
}

/// What the map takes the block of an edited column to be: the last edit there, or
/// else the plain terrain.
pub open spec fn shown(v: MapView, x: i32, y: i32, z: i32) -> Block {
    match world::last_edit(v.edits, BlockPos { x, y, z }) {
        Some(b) => b,
        None => column_top::plain_block(
            x as int,
            y as int,
            z as int,
            terrain::column_height(v.seed, x as int, z as int),
            terrain::roots_near(v.seed, x as int, z as int),
        ),
    }
}

/// Whether height and id are those of a column's topmost block. In a column without
/// edits that is the waterline, the canopy of its own tree or the surface.
pub open spec fn is_top(v: MapView, x: i32, z: i32, top: (u8, u8)) -> bool {
    if touched(v.edits, x, z) {
        if top.0 == UNKNOWN {
            &&& top.1 == 0
            &&& forall|y: i32|
                0 <= y < WORLD_HEIGHT ==> #[trigger] shown(v, x, y, z) == Block::Air
        } else {
            &&& top.0 < WORLD_HEIGHT
            &&& shown(v, x, top.0 as i32, z) != Block::Air
            &&& top.1 == shown(v, x, top.0 as i32, z).id()
            &&& forall|y: i32|
                top.0 < y < WORLD_HEIGHT ==> #[trigger] shown(v, x, y, z) == Block::Air
        }
    } else {
        let base = column_top::base_top(
            v.seed,
            x as int,
            z as int,
            terrain::column_height(v.seed, x as int, z as int),
        );
        top.0 == base.0 && top.1 == base.1.id()
    }
}

impl MapRegion {
    /// What a region shows in a column, by row and place in the row.
    pub open spec fn at(self, i: int, j: int) -> (u8, u8) {
        column_bytes(self.cols@, self.w as int, i, j)
    }
}

/// The two bytes of a column of a region with rows of `w` columns.
pub open spec fn column_bytes(cols: Seq<u8>, w: int, i: int, j: int) -> (u8, u8) {
    (cols[2 * (j * w + i)], cols[2 * (j * w + i) + 1])
}

spec fn column_key(x: i32, z: i32) -> u128 {
    coords::packed(x, 0, z)
}

/// Whether a list holds what was put in a column.
spec fn overlays(edits: Seq<Edit>, x: i32, z: i32, list: Seq<(i32, Block)>) -> bool {
    forall|y: i32|
        #[trigger] column_top::edit_at(list, y as int) == world::last_edit(
            edits,
            BlockPos { x, y, z },
        )
}

proof fn edit_at_of_push(list: Seq<(i32, Block)>, e: (i32, Block), y: int)
    ensures
        column_top::edit_at(list.push(e), y) == (match column_top::edit_at(list, y) {
            Some(b) => Some(b),
            None => if e.0 == y {
                Some(e.1)
            } else {
                None
            },
        }),
    decreases list.len(),
{
    if list.len() > 0 {
        edit_at_of_push(list.skip(1), e, y);
        assert(list.push(e).skip(1) =~= list.skip(1).push(e));
    } else {
        assert(list.push(e).skip(1) =~= Seq::<(i32, Block)>::empty());
        reveal_with_fuel(column_top::edit_at, 2);
    }
}

proof fn edit_at_of_update(list: Seq<(i32, Block)>, i: int, b: Block, y: int)
    requires
        0 <= i < list.len(),
        forall|k: int| 0 <= k < i ==> (#[trigger] list[k]).0 != list[i].0,
    ensures
        column_top::edit_at(list.update(i, (list[i].0, b)), y) == (if y == list[i].0 {
            Some(b)
        } else {
            column_top::edit_at(list, y)
        }),
    decreases i,
{
    let e = (list[i].0, b);
    if i == 0 {
        assert(list.update(0, e).skip(1) =~= list.skip(1));
    } else {
        let rest = list.skip(1);
        assert(rest[i - 1] == list[i]);
        assert forall|k: int| 0 <= k < i - 1 implies (#[trigger] rest[k]).0 != rest[i - 1].0 by {
            assert(rest[k] == list[k + 1]);
        }
        edit_at_of_update(rest, i - 1, b, y);
        assert(list.update(i, e).skip(1) =~= rest.update(i - 1, e));
        assert(list.update(i, e)[0] == list[0]);
        assert(list[0].0 != list[i].0);
    }
}

proof fn edit_at_is_none(list: Seq<(i32, Block)>, y: int)
    requires
        forall|k: int| 0 <= k < list.len() ==> (#[trigger] list[k]).0 != y,
    ensures
        column_top::edit_at(list, y) is None,
    decreases list.len(),
{
    if list.len() > 0 {
        let rest = list.skip(1);
        assert forall|k: int| 0 <= k < rest.len() implies (#[trigger] rest[k]).0 != y by {
            assert(rest[k] == list[k + 1]);
        }
        assert(list[0].0 != y);
        edit_at_is_none(rest, y);
    }
}

proof fn untouched_columns_have_no_edit(edits: Seq<Edit>, x: i32, y: i32, z: i32)
    requires
        !touched(edits, x, z),
    ensures
        world::last_edit(edits, BlockPos { x, y, z }) is None,
    decreases edits.len(),
{
    if edits.len() > 0 {
        let init = edits.drop_last();
        assert(edits[edits.len() - 1].pos.x != x || edits[edits.len() - 1].pos.z != z);
        if touched(init, x, z) {
            let i = choose|i: int|
                0 <= i < init.len() && (#[trigger] init[i]).pos.x == x && init[i].pos.z == z;
            assert(edits[i] == init[i]);
        }
        untouched_columns_have_no_edit(init, x, y, z);
    }
}

/// Puts a block in a column's list, in place of what was there at that height.
fn put(list: &mut Vec<(i32, Block)>, y: i32, b: Block)
    ensures
        forall|k: int|
            #[trigger] column_top::edit_at(final(list)@, k) == (if k == y {
                Some(b)
            } else {
                column_top::edit_at(old(list)@, k)
            }),
{
    let mut i: usize = 0;
    while i < list.len()
        invariant
            i <= list@.len(),
            list@ == old(list)@,
            forall|k: int| 0 <= k < i ==> (#[trigger] list@[k]).0 != y,
        decreases list@.len() - i,
    {
        if list[i].0 == y {
            let ghost before = list@;
            list.set(i, (y, b));
            assert forall|k: int| #[trigger] column_top::edit_at(list@, k) == (if k == y {
                Some(b)
            } else {
                column_top::edit_at(old(list)@, k)
            }) by {
                edit_at_of_update(before, i as int, b, k);
            }
            return;
        }
        i = i + 1;
    }
    let ghost before = list@;
    list.push((y, b));
    assert forall|k: int| #[trigger] column_top::edit_at(list@, k) == (if k == y {
        Some(b)
    } else {
        column_top::edit_at(old(list)@, k)
    }) by {
        edit_at_of_push(before, (y, b), k);
        if k == y {
            edit_at_is_none(before, k);
        }
    }
}

impl View for MapState {
    type V = MapView;

    closed spec fn view(&self) -> MapView {
        MapView { seed: self.gen.spec_seed(), edits: self.synced@ }
    }
}

impl MapState {
    /// Whether the columns hold the edits that the map knows of.
    pub closed spec fn wf(self) -> bool {
        &&& self.heights.agrees(self.gen.spec_seed())
        &&& forall|x: i32, z: i32|
            (#[trigger] self.columns@.contains_key(column_key(x, z))) == touched(
                self.synced@,
                x,
                z,
            )
        &&& forall|x: i32, z: i32|
            #[trigger] self.columns@.contains_key(column_key(x, z)) ==> overlays(
                self.synced@,
                x,
                z,
                self.columns@[column_key(x, z)]@,
            )
    }

    /// The map of a seed, without edits.
    pub fn new(seed: u64) -> (m: MapState)
        ensures
            m.wf(),
            m@ == (MapView { seed, edits: Seq::empty() }),
    {
        MapState {
            gen: WorldGen::new(seed),
            heights: HeightCache::new(),
            columns: HashMap::new(),
            synced: Ghost(Seq::empty()),
        }
    }

    /// Takes note of an edit.
    fn sync_edit(&mut self, e: Edit)
        requires
            old(self).wf(),
        ensures
            final(self).wf(),
            final(self)@ == (MapView { edits: old(self)@.edits.push(e), ..old(self)@ }),
    {
        let ghost before = self.synced@;
        let key: u128 = pack(e.pos.x, 0, e.pos.z);
        let mut list: Vec<(i32, Block)> = match self.columns.remove(&key) {
            Some(list) => list,
            None => Vec::new(),
        };
        let ghost known = list@;
        proof {
            assert(key == column_key(e.pos.x, e.pos.z));
            if !touched(before, e.pos.x, e.pos.z) {
                assert forall|y: i32| #[trigger]
                    column_top::edit_at(known, y as int) == world::last_edit(
                        before,
                        BlockPos { x: e.pos.x, y, z: e.pos.z },
                    ) by {
                    untouched_columns_have_no_edit(before, e.pos.x, y, e.pos.z);
                }
            }
            assert(overlays(before, e.pos.x, e.pos.z, known));
        }
        put(&mut list, e.pos.y, e.block);
        let ghost after = list@;
        self.columns.insert(key, list);
        self.synced = Ghost(self.synced@.push(e));
        proof {
            let edits = self.synced@;
            assert(edits.drop_last() =~= before);
            assert forall|x: i32, z: i32|
                (#[trigger] self.columns@.contains_key(column_key(x, z))) == touched(
                    edits,
                    x,
                    z,
                ) by {
                one_more_touch(before, e, x, z);
                if column_key(x, z) == key {
                    assert(x == e.pos.x && z == e.pos.z);
                } else {
                    assert(old(self).columns@.contains_key(column_key(x, z))
                        == self.columns@.contains_key(column_key(x, z)));
                }
            }
            assert forall|x: i32, z: i32| #[trigger]
                self.columns@.contains_key(column_key(x, z)) implies overlays(
                edits,
                x,
                z,
                self.columns@[column_key(x, z)]@,
            ) by {
                if column_key(x, z) == key {
                    assert(x == e.pos.x && z == e.pos.z);
                    assert forall|y: i32| #[trigger]
                        column_top::edit_at(after, y as int) == world::last_edit(
                            edits,
                            BlockPos { x, y, z },
                        ) by {
                        assert(column_top::edit_at(known, y as int) == world::last_edit(
                            before,
                            BlockPos { x, y, z },
                        ));
                    }
                } else {
                    assert(old(self).columns@.contains_key(column_key(x, z)));
                    let list = self.columns@[column_key(x, z)]@;
                    assert(overlays(before, x, z, list));
                    assert forall|y: i32| #[trigger]
                        column_top::edit_at(list, y as int) == world::last_edit(
                            edits,
                            BlockPos { x, y, z },
                        ) by {
                        assert(e.pos != (BlockPos { x, y, z }));
                    }
                }
            }
        }
    }

    /// Takes note of edits, oldest first.
    pub fn sync_edits(&mut self, edits: &[Edit])
        requires
            old(self).wf(),
        ensures
            final(self).wf(),
            final(self)@ == (MapView { edits: old(self)@.edits + edits@, ..old(self)@ }),
    {
        let mut k: usize = 0;
        assert(edits@.take(0) =~= Seq::<Edit>::empty());
        assert(self@.edits + Seq::<Edit>::empty() =~= self@.edits);
        while k < edits.len()
            invariant
                k <= edits@.len(),
                self.wf(),
                self@ == (MapView { edits: old(self)@.edits + edits@.take(k as int), ..old(self)@ }),
            decreases edits@.len() - k,
        {
            self.sync_edit(edits[k]);
            assert(edits@.take(k as int + 1) =~= edits@.take(k as int).push(edits@[k as int]));
            assert(self@.edits =~= old(self)@.edits + edits@.take(k as int + 1));
            k = k + 1;
        }
        assert(edits@.take(k as int) =~= edits@);
    }

    /// The top of a column.
    fn top_of(&mut self, x: i32, z: i32) -> (top: (u8, u8))
        requires
            old(self).wf(),
        ensures
            final(self).wf(),
            final(self)@ == old(self)@,
            is_top(old(self)@, x, z, top),
    {
        let h: i32 = self.gen.height_cached(x, z, &mut self.heights);
        let key: u128 = pack(x, 0, z);
        proof {
            assert(key == column_key(x, z));
            assert(self.columns@.contains_key(column_key(x, z)) == touched(self.synced@, x, z));
        }
        match self.columns.get(&key) {
            None => {
                let (y, b) = column_top_base(x, z, h, &self.gen, &mut self.heights);
                proof {
                    top_fits(self.gen.spec_seed(), x as int, z as int, h as int);
                }
                (y as u8, b.as_u8())
            },
            Some(list) => {
                let ghost v = old(self)@;
                let ghost roots = terrain::roots_near(v.seed, x as int, z as int);
                assert(overlays(v.edits, x, z, list@));
                assert forall|y: i32| 0 <= y < WORLD_HEIGHT implies #[trigger] shown(v, x, y, z)
                    == column_top::spec_cell_block(
                    x as int,
                    y as int,
                    z as int,
                    h as int,
                    roots,
                    list@,
                ) by {
                    assert(column_top::edit_at(list@, y as int) == world::last_edit(
                        v.edits,
                        BlockPos { x, y, z },
                    ));
                }
                match column_top_edited(x, z, h, list.as_slice(), &self.gen, &mut self.heights) {
                    Some((y, b)) => {
                        assert(shown(v, x, y, z) == b);
                        (y as u8, b.as_u8())
                    },
                    None => (UNKNOWN, 0),
                }
            },
        }
    }

    /// The piece of the map round a column. Its sides are brought between the
    /// shortest and the longest that there are.
    pub fn top_map(&mut self, cx: i32, cz: i32, w: i32, h: i32) -> (r: MapRegion)
        requires
            old(self).wf(),
            i32::MIN <= cx - side(w as int) / 2,
            cx - side(w as int) / 2 + side(w as int) <= i32::MAX,
            i32::MIN <= cz - side(h as int) / 2,
            cz - side(h as int) / 2 + side(h as int) <= i32::MAX,
        ensures
            final(self).wf(),
            final(self)@ == old(self)@,
            r.w == side(w as int),
            r.h == side(h as int),
            r.x0 == cx - r.w as int / 2,
            r.z0 == cz - r.h as int / 2,
            r.cols@.len() == 2 * (r.w * r.h),
            forall|i: int, j: int|
                0 <= i < r.w && 0 <= j < r.h ==> is_top(
                    old(self)@,
                    (r.x0 + i) as i32,
                    (r.z0 + j) as i32,
                    #[trigger] r.at(i, j),
                ),
    {
        let w: i32 = if w < MAP_MIN {
            MAP_MIN
        } else if w > MAP_MAX {
            MAP_MAX
        } else {
            w
        };
        let h: i32 = if h < MAP_MIN {
            MAP_MIN
        } else if h > MAP_MAX {
            MAP_MAX
        } else {
            h
        };
        let x0: i32 = cx - w / 2;
        let z0: i32 = cz - h / 2;
        let mut cols: Vec<u8> = Vec::new();
        let mut j: i32 = 0;
        while j < h
            invariant
                self.wf(),
                self@ == old(self)@,
                0 <= j <= h,
                16 <= w <= 256,
                16 <= h <= 256,
                x0 + w <= i32::MAX,
                z0 + h <= i32::MAX,
                cols@.len() == 2 * (j * w),
                forall|a: int, b: int|
                    0 <= a < w && 0 <= b < j ==> is_top(
                        old(self)@,
                        (x0 + a) as i32,
                        (z0 + b) as i32,
                        #[trigger] column_bytes(cols@, w as int, a, b),
                    ),
            decreases h - j,
        {
            let mut i: i32 = 0;
            while i < w
                invariant
                    self.wf(),
                    self@ == old(self)@,
                    0 <= j < h,
                    0 <= i <= w,
                    16 <= w <= 256,
                    16 <= h <= 256,
                    x0 + w <= i32::MAX,
                    z0 + h <= i32::MAX,
                    cols@.len() == 2 * (j * w + i),
                    forall|a: int, b: int|
                        0 <= a < w && 0 <= b < h && (b < j || (b == j && a < i)) ==> is_top(
                            old(self)@,
                            (x0 + a) as i32,
                            (z0 + b) as i32,
                            #[trigger] column_bytes(cols@, w as int, a, b),
                        ),
                decreases w - i,
            {
                let top = self.top_of(x0 + i, z0 + j);
                let ghost before = cols@;
                cols.push(top.0);
                cols.push(top.1);
                assert forall|a: int, b: int|
                    0 <= a < w && 0 <= b < h && (b < j || (b == j && a < i + 1)) implies is_top(
                    old(self)@,
                    (x0 + a) as i32,
                    (z0 + b) as i32,
                    #[trigger] column_bytes(cols@, w as int, a, b),
                ) by {
                    assert(b < j ==> b * w + a < j * w) by (nonlinear_arith)
                        requires
                            0 <= a < w,
                            0 <= b,
                    ;
                    assert(0 <= b * w) by (nonlinear_arith)
                        requires
                            0 <= b,
                            0 <= w,
                    ;
                    if b < j || a < i {
                        assert(column_bytes(cols@, w as int, a, b) == column_bytes(
                            before,
                            w as int,
                            a,
                            b,
                        ));
                    }
                }
                i = i + 1;
            }
            assert((j + 1) * w == j * w + w) by (nonlinear_arith);
            j = j + 1;
        }
        let r = MapRegion { x0, z0, w, h, cols };
        assert(w * h == h * w) by (nonlinear_arith);
        assert forall|a: int, b: int| 0 <= a < r.w && 0 <= b < r.h implies is_top(
            old(self)@,
            (r.x0 + a) as i32,
            (r.z0 + b) as i32,
            #[trigger] r.at(a, b),
        ) by {
            assert(r.at(a, b) == column_bytes(r.cols@, w as int, a, b));
        }
        r
    }
}

proof fn one_more_touch(edits: Seq<Edit>, e: Edit, x: i32, z: i32)
    ensures
        touched(edits.push(e), x, z) == (touched(edits, x, z) || (e.pos.x == x && e.pos.z == z)),
{
    let more = edits.push(e);
    if touched(edits, x, z) {
        let i = choose|i: int|
            0 <= i < edits.len() && (#[trigger] edits[i]).pos.x == x && edits[i].pos.z == z;
        assert(more[i] == edits[i]);
    }
    if e.pos.x == x && e.pos.z == z {
        assert(more[edits.len() as int] == e);
    }
    if touched(more, x, z) {
        let i = choose|i: int|
            0 <= i < more.len() && (#[trigger] more[i]).pos.x == x && more[i].pos.z == z;
        if i < edits.len() {
            assert(edits[i] == more[i]);
        }
    }
}

/// An edited column has a height with a last edit.
proof fn a_last_edit(edits: Seq<Edit>, x: i32, z: i32) -> (y: i32)
    requires
        touched(edits, x, z),
    ensures
        world::last_edit(edits, BlockPos { x, y, z }) is Some,
    decreases edits.len(),
{
    let last = edits.last();
    let init = edits.drop_last();
    assert(edits =~= init.push(last));
    if last.pos.x == x && last.pos.z == z {
        assert(last.pos == BlockPos { x, y: last.pos.y, z });
        last.pos.y
    } else {
        one_more_touch(init, last, x, z);
        a_last_edit(init, x, z)
    }
}

/// Where there is a last edit, the column is edited.
pub(crate) proof fn last_edits_touch(edits: Seq<Edit>, p: BlockPos)
    requires
        world::last_edit(edits, p) is Some,
    ensures
        touched(edits, p.x, p.z),
    decreases edits.len(),
{
    let last = edits.last();
    let init = edits.drop_last();
    assert(edits =~= init.push(last));
    one_more_touch(init, last, p.x, p.z);
    if last.pos != p {
        last_edits_touch(init, p);
    }
}

proof fn top_fits(seed: u64, x: int, z: int, h: int)
    requires
        h == terrain::column_height(seed, x, z),
    ensures
        0 <= column_top::base_top(seed, x, z, h).0 < WORLD_HEIGHT,
{
    terrain::heights_are_bounded(seed, x, z);
    if terrain::tree_of(seed, x, z) is Some {
        terrain::trees_grow_on_flat_grass(seed, x, z);
    }
}

// ---- Laws ----------------------------------------------------------------------

/// Terrain and edits alone decide what a column shows: two maps of one seed show the
/// same there if the last edits in the column are the same, whatever came before them
/// and whatever was edited elsewhere.
pub proof fn maps_are_determined(
    v: MapView,
    w: MapView,
    x: i32,
    z: i32,
    a: (u8, u8),
    b: (u8, u8),
)
    requires
        v.seed == w.seed,
        forall|y: i32| #[trigger]
            world::last_edit(v.edits, BlockPos { x, y, z }) == world::last_edit(
                w.edits,
                BlockPos { x, y, z },
            ),
        is_top(v, x, z, a),
        is_top(w, x, z, b),
    ensures
        a == b,
{
    if touched(v.edits, x, z) {
        let y = a_last_edit(v.edits, x, z);
        last_edits_touch(w.edits, BlockPos { x, y, z });
    } else if touched(w.edits, x, z) {
        let y = a_last_edit(w.edits, x, z);
        last_edits_touch(v.edits, BlockPos { x, y, z });
    }
    assert forall|y: i32| #[trigger] shown(v, x, y, z) == shown(w, x, y, z) by {}
    if touched(v.edits, x, z) {
        if a.0 < b.0 {
            if b.0 == UNKNOWN {
                assert(shown(w, x, a.0 as i32, z) == Block::Air);
            } else {
                assert(shown(v, x, b.0 as i32, z) == Block::Air);
            }
        } else if b.0 < a.0 {
            if a.0 == UNKNOWN {
                assert(shown(v, x, b.0 as i32, z) == Block::Air);
            } else {
                assert(shown(w, x, a.0 as i32, z) == Block::Air);
            }
        }
    }
}

/// A column whose lowest block was not edited shows a block.
pub proof fn columns_are_known(v: MapView, x: i32, z: i32, top: (u8, u8))
    requires
        is_top(v, x, z, top),
        world::last_edit(v.edits, BlockPos { x, y: 0, z }) is None,
    ensures
        top.0 < WORLD_HEIGHT,
{
    let h = terrain::column_height(v.seed, x as int, z as int);
    terrain::heights_are_bounded(v.seed, x as int, z as int);
    if touched(v.edits, x, z) {
        if top.0 == UNKNOWN {
            assert(shown(v, x, 0, z) == Block::Air);
        }
    } else {
        top_fits(v.seed, x as int, z as int, h);
    }
}

/// A block put above everything in a column is what the column shows then.
pub proof fn towers_show(v: MapView, p: BlockPos, b: Block, before: (u8, u8), after: (u8, u8))
    requires
        p.spec_in_world_y(),
        b != Block::Air,
        touched(v.edits, p.x, p.z),
        is_top(v, p.x, p.z, before),
        before.0 < p.y || before.0 == UNKNOWN,
        is_top(
            MapView { edits: v.edits.push(Edit { pos: p, block: b }), ..v },
            p.x,
            p.z,
            after,
        ),
    ensures
        after == (p.y as u8, b.id()),
{
    let e = Edit { pos: p, block: b };
    let w = MapView { edits: v.edits.push(e), ..v };
    assert(w.edits.drop_last() =~= v.edits);
    one_more_touch(v.edits, e, p.x, p.z);
    assert(shown(w, p.x, p.y, p.z) == b);
    assert forall|y: i32| p.y < y < WORLD_HEIGHT implies #[trigger] shown(w, p.x, y, p.z)
        == Block::Air by {
        assert(shown(v, p.x, y, p.z) == Block::Air);
        assert(shown(w, p.x, y, p.z) == shown(v, p.x, y, p.z));
    }
    assert(is_top(w, p.x, p.z, (p.y as u8, b.id()))) by {
        assert(shown(w, p.x, (p.y as u8) as i32, p.z) == b);
    }
    maps_are_determined(w, w, p.x, p.z, after, (p.y as u8, b.id()));
}

} // verus!
