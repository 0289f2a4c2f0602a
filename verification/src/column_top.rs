//! The topmost block of a column, for the minimap.
//!
//! Three things are simplified, all of them too small to see at one pixel per
//! block: caves are not modelled, nor flowers, and a column without edits shows
//! its own tree only, not the canopy of a neighbour's.
use vstd::prelude::*;

use crate::block::Block;
use crate::coords::WORLD_HEIGHT;
use crate::terrain;
use crate::terrain::{
    sub_top_block, top_block, HeightCache, Root, WorldGen, SEA_LEVEL, SNOW_LEVEL,
};

verus! {

/// The top of a column of height `h` without edits: the waterline of a low one,
/// the canopy of its own tree, or its surface.
pub open spec fn base_top(seed: u64, x: int, z: int, h: int) -> (int, Block) {
    if h < SEA_LEVEL {
        (SEA_LEVEL as int, Block::Water)
    } else if h < SNOW_LEVEL && terrain::tree_of(seed, x, z) is Some {
        (h + terrain::tree_of(seed, x, z)->0.trunk, Block::Leaves)
    } else {
        (h, terrain::spec_top_block(h))
    }
}

/// The top of a column of height `h` without edits.
pub fn column_top_base(x: i32, z: i32, h: i32, gen: &WorldGen, heights: &mut HeightCache) -> (r: (
    i32,
    Block,
))
    requires
        old(heights).agrees(gen.spec_seed()),
    ensures
        final(heights).agrees(gen.spec_seed()),
        (r.0 as int, r.1) == base_top(gen.spec_seed(), x as int, z as int, h as int),
{
    if h < SEA_LEVEL {
        return (SEA_LEVEL, Block::Water);
    }
    if h < SNOW_LEVEL {
        match gen.tree_at_cached(x, z, heights) {
            Some(t) => {
                return (h + t.trunk, Block::Leaves);
            },
            None => {},
        }
    }
    (h, top_block(h))
}

/// The first edit of a list that is at height `y`.
pub open spec fn edit_at(edits: Seq<(i32, Block)>, y: int) -> Option<Block>
    decreases edits.len(),
{
    if edits.len() == 0 {
        None
    } else if edits[0].0 == y {
        Some(edits[0].1)
    } else {
        edit_at(edits.skip(1), y)
    }
}

/// The part that the first reaching tree of a list has in a cell.
pub open spec fn plain_tree_block(roots: Seq<Root>, x: int, y: int, z: int) -> Option<Block>
    decreases roots.len(),
{
    if roots.len() == 0 {
        None
    } else if roots[0].is_trunk(x, y, z) {
        Some(Block::Log)
    } else if roots[0].is_canopy(x, y, z) {
        Some(Block::Leaves)
    } else {
        plain_tree_block(roots.skip(1), x, y, z)
    }
}

/// The terrain of a column of height `h` without caves, flowers and cut corners.
pub open spec fn plain_block(x: int, y: int, z: int, h: int, roots: Seq<Root>) -> Block {
    if y < 0 || y >= WORLD_HEIGHT {
        Block::Air
    } else if y > h {
        if y <= SEA_LEVEL {
            Block::Water
        } else {
            match plain_tree_block(roots, x, y, z) {
                Some(b) => b,
                None => Block::Air,
            }
        }
    } else if y == 0 {
        Block::Stone
    } else if y == h {
        terrain::spec_top_block(h)
    } else if y >= h - 3 {
        terrain::spec_sub_top_block(h)
    } else {
        Block::Stone
    }
}

/// A cell of a column: its edit, where it has one, else the plain terrain.
pub open spec fn spec_cell_block(
    x: int,
    y: int,
    z: int,
    h: int,
    roots: Seq<Root>,
    edits: Seq<(i32, Block)>,
) -> Block {
    match edit_at(edits, y) {
        Some(b) => b,
        None => plain_block(x, y, z, h, roots),
    }
}

/// Whether `top` is the highest cell of the column that is not air, if one is.
pub open spec fn is_edited_top(
    x: int,
    z: int,
    h: int,
    roots: Seq<Root>,
    edits: Seq<(i32, Block)>,
    top: Option<(i32, Block)>,
) -> bool {
    match top {
        Some((y, b)) => {
            &&& 0 <= y < WORLD_HEIGHT
            &&& b == spec_cell_block(x, y as int, z, h, roots, edits)
            &&& b != Block::Air
            &&& forall|k: int|
                y < k < WORLD_HEIGHT ==> #[trigger] spec_cell_block(x, k, z, h, roots, edits)
                    == Block::Air
        },
        None => forall|k: int|
            0 <= k < WORLD_HEIGHT ==> #[trigger] spec_cell_block(x, k, z, h, roots, edits)
                == Block::Air,
    }
}

/// The top of an edited column of height `h`: edits override the terrain cell by
/// cell, and the canopies of the trees around it count.
pub fn column_top_edited(
    x: i32,
    z: i32,
    h: i32,
    edits: &[(i32, Block)],
    gen: &WorldGen,
    heights: &mut HeightCache,
) -> (r: Option<(i32, Block)>)
    requires
        old(heights).agrees(gen.spec_seed()),
    ensures
        final(heights).agrees(gen.spec_seed()),
        is_edited_top(
            x as int,
            z as int,
            h as int,
            terrain::roots_near(gen.spec_seed(), x as int, z as int),
            edits@,
            r,
        ),
{
    let roots = gen.roots_of(x as i64, z as i64, heights);
    proof {
        terrain::roots_are_near(gen.spec_seed(), x as int, z as int, 25);
    }
    let mut y: i32 = WORLD_HEIGHT;
    while y > 0
        invariant
            0 <= y <= WORLD_HEIGHT,
            heights.agrees(gen.spec_seed()),
            roots@ == terrain::roots_near(gen.spec_seed(), x as int, z as int),
            forall|k: int| #![trigger roots@[k]]
                0 <= k < roots@.len() ==> {
                    &&& x - 2 <= roots@[k].x <= x + 2
                    &&& z - 2 <= roots@[k].z <= z + 2
                    &&& 0 <= roots@[k].tree.base <= 64
                    &&& 0 <= roots@[k].tree.trunk <= 6
                },
            forall|k: int|
                y <= k < WORLD_HEIGHT ==> #[trigger] spec_cell_block(
                    x as int,
                    k,
                    z as int,
                    h as int,
                    roots@,
                    edits@,
                ) == Block::Air,
        decreases y,
    {
        y = y - 1;
        let b = cell_block(x, y, z, h, &roots, edits);
        if b != Block::Air {
            return Some((y, b));
        }
    }
    None
}

/// The block of a cell of a column: an edit for that very cell, or the terrain
/// without its caves.
pub fn cell_block(
    x: i32,
    y: i32,
    z: i32,
    h: i32,
    roots: &Vec<Root>,
    edits: &[(i32, Block)],
) -> (b: Block)
    requires
        forall|k: int| #![trigger roots@[k]]
            0 <= k < roots@.len() ==> {
                &&& x - 2 <= roots@[k].x <= x + 2
                &&& z - 2 <= roots@[k].z <= z + 2
                &&& 0 <= roots@[k].tree.base <= 64
                &&& 0 <= roots@[k].tree.trunk <= 6
            },
    ensures
        b == spec_cell_block(x as int, y as int, z as int, h as int, roots@, edits@),
{
    let mut i: usize = 0;
    assert(edits@.skip(0) =~= edits@);
    while i < edits.len()
        invariant
            i <= edits@.len(),
            edit_at(edits@, y as int) == edit_at(edits@.skip(i as int), y as int),
        decreases edits@.len() - i,
    {
        proof {
            assert(edits@.skip(i as int)[0] == edits@[i as int]);
            assert(edits@.skip(i as int).skip(1) =~= edits@.skip(i as int + 1));
        }
        if edits[i].0 == y {
            return edits[i].1;
        }
        i = i + 1;
    }
    if y < 0 || y >= WORLD_HEIGHT {
        return Block::Air;
    }
    if y > h {
        if y <= SEA_LEVEL {
            return Block::Water;
        }
        let mut k: usize = 0;
        assert(roots@.skip(0) =~= roots@);
        while k < roots.len()
            invariant
                k <= roots@.len(),
                0 <= y < WORLD_HEIGHT,
                y > h,
                y > SEA_LEVEL,
                edit_at(edits@, y as int) is None,
                forall|k: int| #![trigger roots@[k]]
                    0 <= k < roots@.len() ==> {
                        &&& x - 2 <= roots@[k].x <= x + 2
                        &&& z - 2 <= roots@[k].z <= z + 2
                        &&& 0 <= roots@[k].tree.base <= 64
                        &&& 0 <= roots@[k].tree.trunk <= 6
                    },
                plain_tree_block(roots@, x as int, y as int, z as int) == plain_tree_block(
                    roots@.skip(k as int),
                    x as int,
                    y as int,
                    z as int,
                ),
            decreases roots@.len() - k,
        {
            let r = roots[k];
            proof {
                assert(roots@.skip(k as int)[0] == r);
                assert(roots@.skip(k as int).skip(1) =~= roots@.skip(k as int + 1));
            }
            let dx: i64 = x as i64 - r.x;
            let dz: i64 = z as i64 - r.z;
            let dy: i32 = y - r.tree.base;
            let trunk: i32 = r.tree.trunk;
            if dx == 0 && dz == 0 && 1 <= dy && dy <= trunk {
                return Block::Log;
            }
            if dy == trunk && -2 <= dx && dx <= 2 && -2 <= dz && dz <= 2 {
                return Block::Leaves;
            }
            if dy == trunk + 1 && -1 <= dx && dx <= 1 && -1 <= dz && dz <= 1 && !(dx == 0 && dz
                == 0) {
                return Block::Leaves;
            }
            k = k + 1;
        }
        return Block::Air;
    }
    if y == 0 {
        return Block::Stone;
    }
    if y == h {
        return top_block(h);
    }
    if y as i64 >= h as i64 - 3 {
        return sub_top_block(h);
    }
    Block::Stone
}

/// A column always has a top while its lowest cell is not edited away: that cell
/// is stone.
pub proof fn a_column_has_a_top(
    x: int,
    z: int,
    h: int,
    roots: Seq<Root>,
    edits: Seq<(i32, Block)>,
    top: Option<(i32, Block)>,
)
    requires
        h >= 0,
        edit_at(edits, 0) is None,
        is_edited_top(x, z, h, roots, edits, top),
    ensures
        top is Some,
{
    assert(spec_cell_block(x, 0, z, h, roots, edits) != Block::Air);
}

/// Below its height a column is solid, without a gap: its surface, what lies under the
/// surface, and stone from the fourth block down.
pub proof fn columns_are_solid(x: int, y: int, z: int, h: int, roots: Seq<Root>)
    requires
        0 <= y <= h < 64,
    ensures
        plain_block(x, y, z, h, roots) != Block::Air,
        y < h - 3 ==> plain_block(x, y, z, h, roots) == Block::Stone,
        y == 0 ==> plain_block(x, y, z, h, roots) == Block::Stone,
        0 < y && h - 3 <= y ==> plain_block(x, y, z, h, roots) == (if h < 21 {
            Block::Sand
        } else if y < h {
            Block::Dirt
        } else if h < 33 {
            Block::Grass
        } else {
            Block::SnowGrass
        }),
{
}

/// Above its height a column holds water up to the waterline, and nothing over it but
/// what trees have there.
pub proof fn columns_end_at_their_height(x: int, y: int, z: int, h: int, roots: Seq<Root>)
    requires
        y > h,
        0 <= y < 64,
    ensures
        y <= 21 ==> plain_block(x, y, z, h, roots) == Block::Water,
        y > 21 && roots.len() == 0 ==> plain_block(x, y, z, h, roots) == Block::Air,
        y > 21 && roots.len() == 1 ==> plain_block(x, y, z, h, roots) == (if roots[0].x == x
            && roots[0].z == z && 1 <= y - roots[0].tree.base <= roots[0].tree.trunk {
            Block::Log
        } else if y - roots[0].tree.base == roots[0].tree.trunk && -2 <= x - roots[0].x <= 2 && -2
            <= z - roots[0].z <= 2 {
            Block::Leaves
        } else if y - roots[0].tree.base == roots[0].tree.trunk + 1 && -1 <= x - roots[0].x <= 1
            && -1 <= z - roots[0].z <= 1 && (x != roots[0].x || z != roots[0].z) {
            Block::Leaves
        } else {
            Block::Air
        }),
{
    if roots.len() == 1 {
        assert(plain_tree_block(roots.skip(1), x, y, z) is None);
    }
}

/// The block that counts for a cell is that of the first edit there; a cell that no
/// edit names shows the terrain.
pub proof fn edits_stand_for_their_cells(
    x: int,
    y: int,
    z: int,
    h: int,
    roots: Seq<Root>,
    edits: Seq<(i32, Block)>,
    i: int,
)
    requires
        0 <= i <= edits.len(),
        forall|j: int| 0 <= j < i ==> (#[trigger] edits[j]).0 != y,
    ensures
        i < edits.len() && edits[i].0 == y ==> edit_at(edits, y) == Some(edits[i].1)
            && spec_cell_block(x, y, z, h, roots, edits) == edits[i].1,
        i == edits.len() ==> edit_at(edits, y) is None && spec_cell_block(
            x,
            y,
            z,
            h,
            roots,
            edits,
        ) == plain_block(x, y, z, h, roots),
    decreases edits.len(),
{
    if edits.len() > 0 && i > 0 {
        let rest = edits.skip(1);
        assert forall|j: int| 0 <= j < i - 1 implies (#[trigger] rest[j]).0 != y by {
            assert(rest[j] == edits[j + 1]);
        }
        edits_stand_for_their_cells(x, y, z, h, roots, rest, i - 1);
        if i < edits.len() {
            assert(rest[i - 1] == edits[i]);
        }
    }
}

/// Who digs a pit sees its bottom: where all blocks of a column above a height are
/// gone, and no tree is near, the block at that height is the top.
pub proof fn pits_show_their_bottom(
    x: int,
    z: int,
    h: int,
    roots: Seq<Root>,
    edits: Seq<(i32, Block)>,
    top: Option<(i32, Block)>,
    y: int,
)
    requires
        0 <= y <= h < 64,
        is_edited_top(x, z, h, roots, edits, top),
        edit_at(edits, y) is None,
        forall|k: int|
            y < k < 64 ==> {
                ||| #[trigger] edit_at(edits, k) == Some(Block::Air)
                ||| edit_at(edits, k) is None && k > h && k > 21 && roots.len() == 0
            },
    ensures
        top is Some,
        (top->Some_0).0 == y,
        y < h - 3 ==> (top->Some_0).1 == Block::Stone,
        y == h && y > 0 ==> (top->Some_0).1 == (if h < 21 {
            Block::Sand
        } else if h < 33 {
            Block::Grass
        } else {
            Block::SnowGrass
        }),
{
    assert(spec_cell_block(x, y, z, h, roots, edits) != Block::Air);
    assert forall|k: int| y < k < 64 implies #[trigger] spec_cell_block(x, k, z, h, roots, edits)
        == Block::Air by {
        assert(edit_at(edits, k) == Some(Block::Air) || edit_at(edits, k) is None);
    }
    if top is Some {
        if (top->Some_0).0 < y {
            assert(spec_cell_block(x, y, z, h, roots, edits) == Block::Air);
        }
    }
}

/// A block that is put above everything else in a column is its top.
pub proof fn towers_show_their_top(
    x: int,
    z: int,
    h: int,
    roots: Seq<Root>,
    edits: Seq<(i32, Block)>,
    top: Option<(i32, Block)>,
    y: int,
    b: Block,
)
    requires
        0 <= h < y < 64,
        is_edited_top(x, z, h, roots, edits, top),
        b != Block::Air,
        edit_at(edits, y) == Some(b),
        forall|k: int|
            y < k < 64 ==> {
                ||| #[trigger] edit_at(edits, k) == Some(Block::Air)
                ||| edit_at(edits, k) is None && k > 21 && roots.len() == 0
            },
    ensures
        top == Some((y as i32, b)),
{
    assert(spec_cell_block(x, y, z, h, roots, edits) == b);
    assert forall|k: int| y < k < 64 implies #[trigger] spec_cell_block(x, k, z, h, roots, edits)
        == Block::Air by {
        assert(edit_at(edits, k) == Some(Block::Air) || edit_at(edits, k) is None);
    }
    if top is Some {
        if (top->Some_0).0 < y {
            assert(spec_cell_block(x, y, z, h, roots, edits) == Block::Air);
        }
    }
}

/// The map's column is the terrain's, cell by cell, but for caves, which read as stone.
/// Above the ground the same holds with no tree near and no flower.
pub proof fn columns_are_the_terrain_without_caves(seed: u64, x: int, y: int, z: int)
    requires
        y <= terrain::column_height(seed, x, z) || (terrain::roots_near(seed, x, z).len() == 0
            && terrain::flower_of(seed, x, z) is None),
    ensures
        ({
            let h = terrain::column_height(seed, x, z);
            let shown = plain_block(x, y, z, h, terrain::roots_near(seed, x, z));
            let there = terrain::terrain_block(seed, x, y, z);
            shown == there || (shown == Block::Stone && there == Block::Air && 0 < y < h - 3)
        }),
{
    reveal(terrain::terrain_block);
    terrain::heights_are_bounded(seed, x, z);
}

/// The top of a column without edits is what the terrain has there, with only air
/// above it: the waterline of a lake, or the surface. A column with a tree shows the
/// leaves at the top of the trunk.
pub proof fn untouched_tops_are_the_terrain(seed: u64, x: int, z: int, y: int)
    ensures
        ({
            let h = terrain::column_height(seed, x, z);
            let top = base_top(seed, x, z, h);
            &&& h < 21 ==> top == (21int, Block::Water)
            &&& terrain::tree_of(seed, x, z) is None && h >= 21 ==> top.0 == h && top.1
                == terrain::terrain_block(seed, x, h, z)
            &&& terrain::tree_of(seed, x, z) matches Some(t) ==> top == (
                h + t.trunk,
                Block::Leaves,
            )
            &&& h < 21 ==> terrain::terrain_block(seed, x, 21, z) == Block::Water
            &&& top.0 < y && terrain::roots_near(seed, x, z).len() == 0 && terrain::flower_of(
                seed,
                x,
                z,
            ) is None ==> terrain::terrain_block(seed, x, y, z) == Block::Air
        }),
{
    reveal(terrain::terrain_block);
    reveal(terrain::tree_of);
    terrain::heights_are_bounded(seed, x, z);
}

/// Where the terrain has a part of a tree, so has the map's column; and where the map's
/// column has one, a tree near by has its trunk or its crown there.
pub proof fn columns_show_trees(seed: u64, x: int, y: int, z: int)
    ensures
        ({
            let h = terrain::column_height(seed, x, z);
            let roots = terrain::roots_near(seed, x, z);
            let shown = plain_block(x, y, z, h, roots);
            let there = terrain::terrain_block(seed, x, y, z);
            &&& there == Block::Log || there == Block::Leaves ==> shown == Block::Log || shown
                == Block::Leaves
            &&& shown == Block::Log || shown == Block::Leaves ==> exists|k: int|
                0 <= k < roots.len() && {
                    let r = #[trigger] roots[k];
                    let dx = x - r.x;
                    let dz = z - r.z;
                    let dy = y - r.tree.base;
                    ||| dx == 0 && dz == 0 && 1 <= dy <= r.tree.trunk
                    ||| dy == r.tree.trunk && -2 <= dx <= 2 && -2 <= dz <= 2
                    ||| dy == r.tree.trunk + 1 && -1 <= dx <= 1 && -1 <= dz <= 1
                }
        }),
{
    reveal(terrain::terrain_block);
    terrain::heights_are_bounded(seed, x, z);
    trees_show_in_columns(seed, terrain::roots_near(seed, x, z), x, y, z);
    if plain_tree_block(terrain::roots_near(seed, x, z), x, y, z) is Some {
        let _ = columns_have_trees(terrain::roots_near(seed, x, z), x, y, z);
    }
    if terrain::flower_of(seed, x, z) is Some {
        reveal(terrain::flower_of);
    }
}

proof fn trees_show_in_columns(seed: u64, roots: Seq<Root>, x: int, y: int, z: int)
    ensures
        terrain::tree_block(seed, roots, x, y, z) is Some ==> plain_tree_block(roots, x, y, z)
            is Some,
        plain_tree_block(roots, x, y, z) matches Some(b) ==> b == Block::Log || b == Block::Leaves,
        terrain::tree_block(seed, roots, x, y, z) matches Some(b) ==> b == Block::Log || b
            == Block::Leaves,
    decreases roots.len(),
{
    if roots.len() > 0 {
        trees_show_in_columns(seed, roots.skip(1), x, y, z);
    }
}

proof fn columns_have_trees(roots: Seq<Root>, x: int, y: int, z: int) -> (k: int)
    requires
        plain_tree_block(roots, x, y, z) is Some,
    ensures
        0 <= k < roots.len(),
        roots[k].is_trunk(x, y, z) || roots[k].is_canopy(x, y, z),
    decreases roots.len(),
{
    if roots[0].is_trunk(x, y, z) || roots[0].is_canopy(x, y, z) {
        0
    } else {
        let k = columns_have_trees(roots.skip(1), x, y, z);
        assert(roots.skip(1)[k] == roots[k + 1]);
        k + 1
    }
}

} // verus!
