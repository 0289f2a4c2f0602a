//! What a world, its map and the view that is streamed of it come down to, said of
//! blocks, chunks and numbers.
use vstd::prelude::*;

use crate::block::Block;
use crate::chunk_set;
use crate::column_top;
use crate::coords::{BlockPos, ChunkPos};
use crate::map::{MapRegion, MapView};
use crate::physics;
use crate::physics::{Axis, CellBox};
use crate::stream;
use crate::terrain;
use crate::world;
use crate::world::{Edit, Step, WorldView};

verus! {

// ---- Blocks ----------------------------------------------------------------------------

/// A block that nobody edited is that of the terrain of the world's seed.
pub proof fn untouched_blocks_are_the_terrain(w: WorldView, p: BlockPos)
    requires
        forall|i: int| 0 <= i < w.edits.len() ==> (#[trigger] w.edits[i]).pos != p,
    ensures
        w.content(p) == terrain::terrain_block(w.seed, p.x as int, p.y as int, p.z as int),
{
    no_edit(w.edits, p);
}

proof fn no_edit(edits: Seq<Edit>, p: BlockPos)
    requires
        forall|i: int| 0 <= i < edits.len() ==> (#[trigger] edits[i]).pos != p,
    ensures
        world::last_edit(edits, p) is None,
    decreases edits.len(),
{
    if edits.len() > 0 {
        let init = edits.drop_last();
        assert forall|i: int| 0 <= i < init.len() implies (#[trigger] init[i]).pos != p by {
            assert(init[i] == edits[i]);
        }
        no_edit(init, p);
        assert(edits[edits.len() - 1].pos != p);
    }
}

/// Of several edits of one block the last one counts.
pub proof fn the_last_edit_counts(w: WorldView, i: int)
    requires
        0 <= i < w.edits.len(),
        forall|j: int| i < j < w.edits.len() ==> (#[trigger] w.edits[j]).pos != w.edits[i].pos,
    ensures
        w.content(w.edits[i].pos) == w.edits[i].block,
{
    last_of(w.edits, i);
}

proof fn last_of(edits: Seq<Edit>, i: int)
    requires
        0 <= i < edits.len(),
        forall|j: int| i < j < edits.len() ==> (#[trigger] edits[j]).pos != edits[i].pos,
    ensures
        world::last_edit(edits, edits[i].pos) == Some(edits[i].block),
    decreases edits.len(),
{
    let last = edits.len() - 1;
    if i < last {
        let init = edits.drop_last();
        assert(edits[last].pos != edits[i].pos);
        assert forall|j: int| i < j < init.len() implies (#[trigger] init[j]).pos
            != init[i].pos by {
            assert(init[j] == edits[j] && init[i] == edits[i]);
        }
        last_of(init, i);
    }
}

/// An edit outside the height of the world changes nothing, and one inside changes its
/// own block alone and adds itself to the history.
pub proof fn edits_change_one_block(w: WorldView, p: BlockPos, b: Block, q: BlockPos)
    ensures
        p.y < 0 || p.y >= 64 ==> w.with_edit(p, b) == w,
        0 <= p.y < 64 ==> w.with_edit(p, b).content(p) == b,
        q != p ==> w.with_edit(p, b).content(q) == w.content(q),
        0 <= p.y < 64 ==> w.with_edit(p, b).edits == w.edits.push(Edit { pos: p, block: b }),
        w.with_edit(p, b).chunks == w.chunks,
        w.with_edit(p, b).seed == w.seed,
{
    world::edits_read_back(w, p, b, q);
    world::edits_read_back(w, p, b, p);
}

/// Looking at a block materialises its chunk and no other, and changes no block. A
/// chunk above the world is never materialised.
pub proof fn looking_makes_chunks(w: WorldView, p: BlockPos, c: ChunkPos)
    ensures
        w.looked_at(p).edits == w.edits,
        w.looked_at(p).pending == w.pending,
        w.looked_at(p).seed == w.seed,
        w.looked_at(p).chunks.contains(c) <==> w.chunks.contains(c) || (0 <= p.y < 64 && 16 * c.x
            <= p.x < 16 * c.x + 16 && 16 * c.y <= p.y < 16 * c.y + 16 && 16 * c.z <= p.z < 16 * c.z
            + 16),
        w.with_chunk(c).chunks.contains(c) <==> w.chunks.contains(c) || c.y < 4,
{
}

/// Of a block in the world nothing is known until its chunk is made or it is edited;
/// outside the world all is known to be air.
pub proof fn blocks_are_known_when_made_or_edited(w: WorldView, p: BlockPos)
    ensures
        w.known(p) <==> {
            ||| p.y < 0
            ||| p.y >= 64
            ||| w.pending.contains(p)
            ||| exists|c: ChunkPos| #[trigger]
                w.chunks.contains(c) && 16 * c.x <= p.x < 16 * c.x + 16 && 16 * c.y <= p.y < 16
                    * c.y + 16 && 16 * c.z <= p.z < 16 * c.z + 16
        },
{
    if exists|c: ChunkPos| #[trigger]
        w.chunks.contains(c) && 16 * c.x <= p.x < 16 * c.x + 16 && 16 * c.y <= p.y < 16 * c.y + 16
            && 16 * c.z <= p.z < 16 * c.z + 16 {
        let c = choose|c: ChunkPos| #[trigger]
            w.chunks.contains(c) && 16 * c.x <= p.x < 16 * c.x + 16 && 16 * c.y <= p.y < 16 * c.y
                + 16 && 16 * c.z <= p.z < 16 * c.z + 16;
        assert(ChunkPos::spec_of(p) == c);
    }
    if w.chunks.contains(ChunkPos::spec_of(p)) {
        let c = ChunkPos::spec_of(p);
        assert(16 * c.x <= p.x < 16 * c.x + 16);
    }
}

/// A region has the chunk in its middle and five blocks of what is round it on every
/// side. What is not materialised reads as air.
pub proof fn regions_have_a_border_of_five(w: WorldView, c: ChunkPos, x: int, y: int, z: int)
    requires
        c.in_limits(),
        0 <= x < 26,
        0 <= y < 26,
        0 <= z < 26,
    ensures
        ({
            let p = world::region_block(c, x, y, z);
            &&& p.x == 16 * c.x + x - 5
            &&& p.y == 16 * c.y + y - 5
            &&& p.z == 16 * c.z + z - 5
            &&& ChunkPos::spec_of(p) == c <==> 5 <= x < 21 && 5 <= y < 21 && 5 <= z < 21
            &&& w.chunks.contains(ChunkPos::spec_of(p)) ==> w.region_cell(c, x, y, z) == w.content(
                p,
            ).id()
            &&& !w.chunks.contains(ChunkPos::spec_of(p)) ==> w.region_cell(c, x, y, z)
                == Block::Air.id()
        }),
{
}

/// An edit changes what is shown of its own chunk, and on a face of that chunk also of
/// those against it; of no other chunk, and never of one below the world.
pub proof fn edits_show_in_few_chunks(p: BlockPos, c: ChunkPos)
    requires
        world::dirtied(p).contains(c),
    ensures
        ({
            let own = ChunkPos::spec_of(p);
            &&& 0 <= p.y < 64
            &&& c.y >= 0
            &&& {
                ||| c == own
                ||| c.y == own.y && c.z == own.z && (c.x == own.x + 1 || c.x == own.x - 1)
                ||| c.x == own.x && c.z == own.z && (c.y == own.y + 1 || c.y == own.y - 1)
                ||| c.x == own.x && c.y == own.y && (c.z == own.z + 1 || c.z == own.z - 1)
            }
            &&& 16 * own.x < p.x < 16 * own.x + 15 && 16 * own.y < p.y < 16 * own.y + 15 && 16
                * own.z < p.z < 16 * own.z + 15 ==> c == own
        }),
{
    let i = choose|i: int| 0 <= i < world::dirtied(p).len() && world::dirtied(p)[i] == c;
    assert(ChunkPos::spec_of(p).has_blocks());
}

/// Steps go to the next block in their direction, short of the ends of the numbers.
pub proof fn steps_go_one_block(p: BlockPos)
    requires
        i32::MIN < p.x < i32::MAX,
        i32::MIN < p.y < i32::MAX,
        i32::MIN < p.z < i32::MAX,
    ensures
        world::stepped(p, Step::East) == (BlockPos { x: (p.x + 1) as i32, ..p }),
        world::stepped(p, Step::West) == (BlockPos { x: (p.x - 1) as i32, ..p }),
        world::stepped(p, Step::Up) == (BlockPos { y: (p.y + 1) as i32, ..p }),
        world::stepped(p, Step::Down) == (BlockPos { y: (p.y - 1) as i32, ..p }),
        world::stepped(p, Step::South) == (BlockPos { z: (p.z + 1) as i32, ..p }),
        world::stepped(p, Step::North) == (BlockPos { z: (p.z - 1) as i32, ..p }),
{
}

// ---- Bodies ----------------------------------------------------------------------------

/// A body is stopped by solid blocks in the cells that it covers, all of them and no
/// others; water and flowers stop nobody.
pub proof fn bodies_meet_solid_blocks(w: WorldView, b: CellBox, p: BlockPos)
    ensures
        b.x0 <= p.x <= b.x1 && b.y0 <= p.y <= b.y1 && b.z0 <= p.z <= b.z1 && w.content(p)
            != Block::Air && w.content(p) != Block::Water && w.content(p) != Block::FlowerRed
            && w.content(p) != Block::FlowerYellow ==> physics::blocked(w, b),
        physics::blocks(w, b, p) ==> b.x0 <= p.x <= b.x1 && b.y0 <= p.y <= b.y1 && b.z0 <= p.z
            <= b.z1 && w.content(p) != Block::Air && w.content(p) != Block::Water && w.content(p)
            != Block::FlowerRed && w.content(p) != Block::FlowerYellow,
{
    if b.covers(p) && w.content(p).spec_is_solid() {
        assert(physics::blocks(w, b, p));
    }
}

/// Who moves forward meets the lowest block first, who moves back the highest, each by
/// its coordinate on the axis of the move.
pub proof fn moves_meet_the_nearest_first(p: BlockPos, a: i32, b: i32)
    ensures
        physics::along(Axis::East, p) == p.x,
        physics::along(Axis::Up, p) == p.y,
        physics::along(Axis::South, p) == p.z,
        physics::no_later(a, b, true) <==> a <= b,
        physics::no_later(a, b, false) <==> b <= a,
{
}

// ---- Views -----------------------------------------------------------------------------

/// The distance between chunks is how far they are apart on the axis where they are
/// farthest; on the ground, height does not count.
pub proof fn distances_are_the_longest_way(c: ChunkPos, cell: (i32, i32, i32), r: int)
    requires
        r >= 0,
    ensures
        chunk_set::distance(c, cell) <= r <==> -r <= c.x - cell.0 <= r && -r <= c.y - cell.1 <= r
            && -r <= c.z - cell.2 <= r,
        chunk_set::distance_h(c, cell) <= r <==> -r <= c.x - cell.0 <= r && -r <= c.z - cell.2
            <= r,
        chunk_set::distance(c, cell) >= 0,
        chunk_set::distance_h(c, cell) >= 0,
{
}

/// A viewer sees the chunks of the world at most seven to the side of their own, at
/// every height, and is owed those of them that were not sent; the nearest come first.
pub proof fn viewers_see_seven_chunks_far(
    sent: Set<ChunkPos>,
    c: ChunkPos,
    d: ChunkPos,
    cell: (i32, i32, i32),
)
    ensures
        stream::owed(sent, c, cell) <==> !sent.contains(c) && 0 <= c.y < 4 && -7 <= c.x - cell.0
            <= 7 && -7 <= c.z - cell.2 <= 7,
        stream::is_next(sent, c, cell) && stream::owed(sent, d, cell) ==> stream::owed(
            sent,
            c,
            cell,
        ) && chunk_set::distance(c, cell) <= chunk_set::distance(d, cell),
{
}

/// Before a chunk is sent, it and all that touch it in the world are materialised, so
/// that the whole of its region is there.
pub proof fn chunks_are_sent_with_their_surroundings(c: ChunkPos, d: ChunkPos)
    ensures
        stream::around(c).contains(d) <==> -1 <= d.x - c.x <= 1 && -1 <= d.y - c.y <= 1 && -1 <= d.z
            - c.z <= 1 && d.y < 4,
{
}

/// What is sent of a chunk is, byte for byte, the blocks of its region as they are.
pub proof fn what_is_sent_is_the_world(
    w: WorldView,
    c: ChunkPos,
    data: Seq<u8>,
    x: int,
    y: int,
    z: int,
)
    requires
        c.in_limits(),
        stream::shows(w, c, data),
        0 <= x < 26,
        0 <= y < 26,
        0 <= z < 26,
    ensures
        data.len() == 26 * 26 * 26,
        data[x + 26 * z + 676 * y] == w.content(
            BlockPos {
                x: (16 * c.x + x - 5) as i32,
                y: (16 * c.y + y - 5) as i32,
                z: (16 * c.z + z - 5) as i32,
            },
        ).id(),
{
    assert(world::region_byte(data, x, y, z) == data[x + 26 * z + 676 * y]);
}

// ---- The map ---------------------------------------------------------------------------

/// A map has two bytes for each column, row by row from north to south and from west to
/// east in each row: the height of the top, and its block.
pub proof fn maps_are_written_row_by_row(r: MapRegion, i: int, j: int)
    ensures
        r.at(i, j) == (r.cols@[2 * (j * r.w + i)], r.cols@[2 * (j * r.w + i) + 1]),
{
}

/// The sides of a map are what is asked for, from 16 to 256.
pub proof fn maps_are_as_big_as_asked(n: int)
    ensures
        16 <= n <= 256 ==> crate::map::side(n) == n,
        n < 16 ==> crate::map::side(n) == 16,
        n > 256 ==> crate::map::side(n) == 256,
{
}

/// The map of a column that nobody edited shows the waterline over a lake, the leaves at
/// the top of a tree's trunk, or else the surface block that the terrain has.
pub proof fn maps_show_the_land(v: MapView, x: i32, z: i32, top: (u8, u8))
    requires
        crate::map::is_top(v, x, z, top),
        forall|i: int|
            0 <= i < v.edits.len() ==> (#[trigger] v.edits[i]).pos.x != x || v.edits[i].pos.z != z,
    ensures
        ({
            let h = terrain::column_height(v.seed, x as int, z as int);
            &&& h < 21 ==> top == (21u8, Block::Water.id())
            &&& terrain::tree_of(v.seed, x as int, z as int) matches Some(t) ==> top == (
                (h + t.trunk) as u8,
                Block::Leaves.id(),
            )
            &&& h >= 21 && terrain::tree_of(v.seed, x as int, z as int) is None ==> top == (
                h as u8,
                terrain::terrain_block(v.seed, x as int, h, z as int).id(),
            )
        }),
{
    let h = terrain::column_height(v.seed, x as int, z as int);
    terrain::heights_are_bounded(v.seed, x as int, z as int);
    column_top::untouched_tops_are_the_terrain(v.seed, x as int, z as int, 0);
    if terrain::tree_of(v.seed, x as int, z as int) is Some {
        terrain::trees_grow_on_flat_grass(v.seed, x as int, z as int);
    }
}

/// The map shows the bottom of a pit: where everything in a column above a block of the
/// ground was taken away, and no tree is near, that block is the top.
pub proof fn maps_show_pits(v: MapView, x: i32, z: i32, top: (u8, u8), y: i32)
    requires
        crate::map::is_top(v, x, z, top),
        0 <= y < terrain::column_height(v.seed, x as int, z as int),
        world::last_edit(v.edits, BlockPos { x, y, z }) is None,
        terrain::roots_near(v.seed, x as int, z as int).len() == 0,
        forall|k: i32|
            y < k < 64 ==> {
                ||| #[trigger] world::last_edit(v.edits, BlockPos { x, y: k, z }) == Some(
                    Block::Air,
                )
                ||| world::last_edit(v.edits, BlockPos { x, y: k, z }) is None && k
                    > terrain::column_height(v.seed, x as int, z as int) && k > 21
            },
    ensures
        top.0 == y,
        y < terrain::column_height(v.seed, x as int, z as int) - 3 ==> top.1 == Block::Stone.id(),
{
    let h = terrain::column_height(v.seed, x as int, z as int);
    terrain::heights_are_bounded(v.seed, x as int, z as int);
    let roots = terrain::roots_near(v.seed, x as int, z as int);
    column_top::columns_are_solid(x as int, y as int, z as int, h, roots);
    assert(world::last_edit(v.edits, BlockPos { x, y: (y + 1) as i32, z }) == Some(Block::Air));
    crate::map::last_edits_touch(v.edits, BlockPos { x, y: (y + 1) as i32, z });
    assert(crate::map::shown(v, x, y, z) != Block::Air);
    assert forall|k: i32| y < k < 64 implies #[trigger] crate::map::shown(v, x, k, z)
        == Block::Air by {
        assert(world::last_edit(v.edits, BlockPos { x, y: k, z }) == Some(Block::Air)
            || world::last_edit(v.edits, BlockPos { x, y: k, z }) is None);
        if world::last_edit(v.edits, BlockPos { x, y: k, z }) is None {
            column_top::columns_end_at_their_height(x as int, k as int, z as int, h, roots);
        }
    }
    if top.0 == crate::map::UNKNOWN {
        assert(crate::map::shown(v, x, y, z) == Block::Air);
    } else if top.0 < y {
        assert(crate::map::shown(v, x, y, z) == Block::Air);
    } else if top.0 > y {
        assert(crate::map::shown(v, x, top.0 as i32, z) == Block::Air);
    }
}

/// An edit is kept aside exactly where its chunk is not there yet; no other edit is
/// touched by that.
pub proof fn edits_wait_for_their_chunk(w: WorldView, p: BlockPos, b: Block, q: BlockPos)
    requires
        0 <= p.y < 64,
    ensures
        w.with_edit(p, b).pending.contains(p) <==> !w.chunks.contains(ChunkPos::spec_of(p)),
        q != p ==> w.with_edit(p, b).pending.contains(q) == w.pending.contains(q),
        w.with_edit(p, b).chunks == w.chunks,
        w.with_edit(p, b).seed == w.seed,
{
}

/// In a column that was edited, the map reads each edited block as its last edit made it,
/// and the others as they are in the land: the ground, and parts of trees where there are
/// any.
pub proof fn maps_show_edits_in_the_land(v: MapView, x: i32, y: i32, z: i32)
    ensures
        ({
            let h = terrain::column_height(v.seed, x as int, z as int);
            let there = terrain::terrain_block(v.seed, x as int, y as int, z as int);
            let shown = crate::map::shown(v, x, y, z);
            let edit = world::last_edit(v.edits, BlockPos { x, y, z });
            &&& edit matches Some(b) ==> shown == b
            &&& edit is None && (there == Block::Log || there == Block::Leaves) ==> shown
                == Block::Log || shown == Block::Leaves
            &&& edit is None && h - 3 <= y <= h ==> shown == there
            &&& edit is None && 0 <= y < h - 3 ==> shown == Block::Stone
            &&& edit is None && y > h && terrain::roots_near(v.seed, x as int, z as int).len() == 0
                ==> shown == (if y <= 21 {
                Block::Water
            } else {
                Block::Air
            })
        }),
{
    let h = terrain::column_height(v.seed, x as int, z as int);
    let roots = terrain::roots_near(v.seed, x as int, z as int);
    terrain::heights_are_bounded(v.seed, x as int, z as int);
    column_top::columns_show_trees(v.seed, x as int, y as int, z as int);
    if 0 <= y <= h {
        column_top::columns_are_solid(x as int, y as int, z as int, h, roots);
    }
    if y <= h {
        column_top::columns_are_the_terrain_without_caves(
            v.seed,
            x as int,
            y as int,
            z as int,
        );
    } else if y < 64 {
        column_top::columns_end_at_their_height(x as int, y as int, z as int, h, roots);
    }
}

/// A ray goes step by step: it begins where it starts, and each step leads on from where
/// the last one ended.
pub proof fn rays_go_step_by_step(start: BlockPos, steps: Seq<Step>, n: int)
    requires
        0 <= n < steps.len(),
    ensures
        world::walked(start, steps, 0) == start,
        world::walked(start, steps, n + 1) == world::stepped(
            world::walked(start, steps, n),
            steps[n],
        ),
{
}

/// A ray that looks at blocks makes the chunk of each of them in the world, and nothing
/// else.
pub proof fn rays_make_the_chunks_they_cross(
    w: WorldView,
    start: BlockPos,
    steps: Seq<Step>,
    n: int,
    c: ChunkPos,
)
    requires
        0 <= n <= steps.len(),
    ensures
        w.looked(start, steps, n).chunks.contains(c) <==> w.chunks.contains(c) || exists|m: int|
            0 <= m <= n && 0 <= (#[trigger] world::walked(start, steps, m)).y < 64
                && ChunkPos::spec_of(world::walked(start, steps, m)) == c,
        w.looked(start, steps, n).edits == w.edits,
        w.looked(start, steps, n).seed == w.seed,
        w.looked(start, steps, n).pending == w.pending,
    decreases n,
{
    let here = world::walked(start, steps, n);
    let before = w.looked(start, steps, n - 1);
    if n > 0 {
        rays_make_the_chunks_they_cross(w, start, steps, n - 1, c);
    } else {
        assert(before == w);
    }
    assert(w.looked(start, steps, n) == before.looked_at(here));
    if 0 <= here.y < 64 {
        assert(!ChunkPos::spec_of(here).spec_guaranteed_air());
    }
    if before.chunks.contains(c) && !w.chunks.contains(c) {
        let m = choose|m: int|
            0 <= m <= n - 1 && 0 <= (#[trigger] world::walked(start, steps, m)).y < 64
                && ChunkPos::spec_of(world::walked(start, steps, m)) == c;
        assert(0 <= m <= n);
    }
}

/// Looking about for what a body meets changes no block: it only makes chunks.
pub proof fn looking_about_changes_no_block(a: WorldView, b: WorldView, p: BlockPos)
    requires
        physics::same_blocks(a, b),
    ensures
        a.content(p) == b.content(p),
        b.chunks.contains(ChunkPos::spec_of(p)) ==> a.chunks.contains(ChunkPos::spec_of(p)),
        a.pending == b.pending,
{
}

/// A column of which nothing is left is shown as unknown, and only such a column is.
pub proof fn emptied_columns_are_unknown(v: MapView, x: i32, z: i32, top: (u8, u8))
    requires
        crate::map::is_top(v, x, z, top),
        crate::map::touched(v.edits, x, z),
    ensures
        top.0 == 255 <==> forall|y: i32|
            0 <= y < 64 ==> #[trigger] crate::map::shown(v, x, y, z) == Block::Air,
        top.0 == 255 ==> top.1 == 0,
        top.0 != 255 ==> top.0 < 64 && crate::map::shown(v, x, top.0 as i32, z) != Block::Air
            && top.1 == crate::map::shown(v, x, top.0 as i32, z).id(),
{
    if top.0 != 255 {
        assert(crate::map::shown(v, x, top.0 as i32, z) != Block::Air);
    }
}

} // verus!
