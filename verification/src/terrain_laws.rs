//! What the land of every seed looks like: what lies under the ground, on it and
//! above it, and how the noise behind it behaves.
use vstd::prelude::*;

use crate::block::Block;
use crate::terrain;
use crate::terrain::Root;

verus! {

// ---- Under the ground ----------------------------------------------------------------

/// Below the dirt the ground is solid stone, but for the caves: a cell is hollow
/// exactly where the cave noise is high, and stone everywhere else.
pub proof fn caves_are_carved_in_stone(seed: u64, x: int, y: int, z: int)
    requires
        0 < y < terrain::column_height(seed, x, z) - 3,
    ensures
        terrain::terrain_block(seed, x, y, z) == Block::Air <==> terrain::space_noise(
            seed,
            terrain::CAVES,
            8,
            x,
            y,
            z,
        ) >= 190,
        terrain::terrain_block(seed, x, y, z) != Block::Air ==> terrain::terrain_block(
            seed,
            x,
            y,
            z,
        ) == Block::Stone,
{
    reveal(terrain::terrain_block);
    terrain::heights_are_bounded(seed, x, z);
}

/// The top four layers of the ground are never hollow: sand all through under a lake,
/// else grass over dirt, and snow in place of grass on high ground.
pub proof fn the_ground_is_covered(seed: u64, x: int, y: int, z: int)
    requires
        terrain::column_height(seed, x, z) - 3 <= y <= terrain::column_height(seed, x, z),
    ensures
        ({
            let h = terrain::column_height(seed, x, z);
            terrain::terrain_block(seed, x, y, z) == (if h < 21 {
                Block::Sand
            } else if y < h {
                Block::Dirt
            } else if h < 33 {
                Block::Grass
            } else {
                Block::SnowGrass
            })
        }),
{
    reveal(terrain::terrain_block);
    terrain::heights_are_bounded(seed, x, z);
}

/// A column has ground from the bottom of the world up to its height, and none above:
/// only a cave is missing below, and above there is nothing but water, air, trees and
/// flowers.
pub proof fn ground_ends_at_the_height(seed: u64, x: int, y: int, z: int)
    requires
        0 <= y < 64,
    ensures
        ({
            let b = terrain::terrain_block(seed, x, y, z);
            if y <= terrain::column_height(seed, x, z) {
                ||| b == Block::Stone
                ||| b == Block::Dirt
                ||| b == Block::Sand
                ||| b == Block::Grass
                ||| b == Block::SnowGrass
                ||| b == Block::Air && 0 < y < terrain::column_height(seed, x, z) - 3
            } else {
                ||| b == Block::Air
                ||| b == Block::Water && y <= 21
                ||| b == Block::Log && y > 21
                ||| b == Block::Leaves && y > 21
                ||| b == Block::FlowerRed && y == terrain::column_height(seed, x, z) + 1
                ||| b == Block::FlowerYellow && y == terrain::column_height(seed, x, z) + 1
            }
        }),
{
    reveal(terrain::terrain_block);
    terrain::heights_are_bounded(seed, x, z);
    if y > terrain::column_height(seed, x, z) && y > 21 {
        let roots = terrain::roots_near(seed, x, z);
        if terrain::tree_block(seed, roots, x, y, z) is Some {
            let k = tree_of_block(seed, roots, x, y, z);
        }
        reveal(terrain::flower_of);
    }
}

/// Nothing of the terrain lies outside the height of the world.
pub proof fn the_world_ends_above_and_below(seed: u64, x: int, y: int, z: int)
    requires
        y < 0 || y >= 64,
    ensures
        terrain::terrain_block(seed, x, y, z) == Block::Air,
{
    reveal(terrain::terrain_block);
}

// ---- Trees and flowers ------------------------------------------------------------------

/// Which of the trees put its block into a cell.
proof fn tree_of_block(seed: u64, roots: Seq<Root>, x: int, y: int, z: int) -> (k: int)
    requires
        terrain::tree_block(seed, roots, x, y, z) is Some,
    ensures
        0 <= k < roots.len(),
        roots[k].part(seed, x, y, z) == terrain::tree_block(seed, roots, x, y, z),
    decreases roots.len(),
{
    if roots[0].part(seed, x, y, z) is Some {
        0
    } else {
        let k = tree_of_block(seed, roots.skip(1), x, y, z);
        assert(roots.skip(1)[k] == roots[k + 1]);
        k + 1
    }
}

/// Where one of the trees has a part, a tree puts its block.
proof fn parts_are_put(seed: u64, roots: Seq<Root>, x: int, y: int, z: int, k: int)
    requires
        0 <= k < roots.len(),
        roots[k].part(seed, x, y, z) is Some,
    ensures
        terrain::tree_block(seed, roots, x, y, z) is Some,
    decreases roots.len(),
{
    if roots[0].part(seed, x, y, z) is None {
        assert(roots.skip(1)[k - 1] == roots[k]);
        parts_are_put(seed, roots.skip(1), x, y, z, k - 1);
    }
}

/// Whether a root is the tree of its own column.
spec fn is_rooted(seed: u64, r: Root) -> bool {
    terrain::tree_of(seed, r.x as int, r.z as int) == Some(r.tree)
}

proof fn roots_are_rooted(seed: u64, x: int, z: int, n: int)
    requires
        -0xF0_0000_0000 <= x <= 0xF0_0000_0000,
        -0xF0_0000_0000 <= z <= 0xF0_0000_0000,
        0 <= n <= 25,
    ensures
        forall|k: int| #![trigger terrain::roots_among(seed, x, z, n)[k]]
            0 <= k < terrain::roots_among(seed, x, z, n).len() ==> is_rooted(
                seed,
                terrain::roots_among(seed, x, z, n)[k],
            ),
    decreases n,
{
    if n > 0 {
        roots_are_rooted(seed, x, z, n - 1);
        let before = terrain::roots_among(seed, x, z, n - 1);
        let all = terrain::roots_among(seed, x, z, n);
        assert forall|k: int| #![trigger all[k]] 0 <= k < all.len() implies is_rooted(
            seed,
            all[k],
        ) by {
            if k < before.len() {
                assert(all[k] == before[k]);
            }
        }
    }
}

/// A tree at most two columns away is among those that reach a column.
proof fn near_trees_are_among(seed: u64, x: int, z: int, rx: int, rz: int, n: int) -> (k: int)
    requires
        -0xF0_0000_0000 <= x <= 0xF0_0000_0000,
        -0xF0_0000_0000 <= z <= 0xF0_0000_0000,
        -2 <= rx - x <= 2,
        -2 <= rz - z <= 2,
        (rz - z + 2) * 5 + (rx - x + 2) < n <= 25,
        terrain::tree_of(seed, rx, rz) is Some,
    ensures
        0 <= k < terrain::roots_among(seed, x, z, n).len(),
        terrain::roots_among(seed, x, z, n)[k] == (Root {
            x: rx as i64,
            z: rz as i64,
            tree: terrain::tree_of(seed, rx, rz)->0,
        }),
    decreases n,
{
    let at = (rz - z + 2) * 5 + (rx - x + 2);
    if at == n - 1 {
        assert((n - 1) % 5 == rx - x + 2 && (n - 1) / 5 == rz - z + 2);
        terrain::roots_among(seed, x, z, n).len() - 1
    } else {
        let k = near_trees_are_among(seed, x, z, rx, rz, n - 1);
        assert(terrain::roots_among(seed, x, z, n)[k] == terrain::roots_among(
            seed,
            x,
            z,
            n - 1,
        )[k]);
        k
    }
}

/// Every tree stands whole: its trunk rises over its root, and its canopy spreads
/// five by five round the top of the trunk and three by three above, wherever the
/// ground leaves room. Only corners of the wide layer may be missing.
pub proof fn trees_stand_whole(seed: u64, rx: int, rz: int, x: int, y: int, z: int)
    requires
        -0xE0_0000_0000 <= rx <= 0xE0_0000_0000,
        -0xE0_0000_0000 <= rz <= 0xE0_0000_0000,
        terrain::tree_of(seed, rx, rz) is Some,
        terrain::column_height(seed, x, z) < y,
        ({
            let t = terrain::tree_of(seed, rx, rz)->0;
            let up = y - terrain::column_height(seed, rx, rz);
            ||| x == rx && z == rz && 1 <= up <= t.trunk
            ||| up == t.trunk && -2 <= x - rx <= 2 && -2 <= z - rz <= 2 && (-1 <= x - rx <= 1
                || -1 <= z - rz <= 1)
            ||| up == t.trunk + 1 && -1 <= x - rx <= 1 && -1 <= z - rz <= 1 && (x != rx || z != rz)
        }),
    ensures
        terrain::terrain_block(seed, x, y, z) == Block::Log || terrain::terrain_block(
            seed,
            x,
            y,
            z,
        ) == Block::Leaves,
{
    terrain::trees_grow_on_flat_grass(seed, rx, rz);
    terrain::heights_are_bounded(seed, rx, rz);
    let roots = terrain::roots_near(seed, x, z);
    let k = near_trees_are_among(seed, x, z, rx, rz, 25);
    assert(roots[k].part(seed, x, y, z) is Some);
    parts_are_put(seed, roots, x, y, z, k);
    let j = tree_of_block(seed, roots, x, y, z);
    reveal(terrain::terrain_block);
}

/// A trunk stands only in the column of its tree, from the ground up to its length.
pub proof fn trunks_have_roots(seed: u64, x: int, y: int, z: int)
    requires
        -0xE0_0000_0000 <= x <= 0xE0_0000_0000,
        -0xE0_0000_0000 <= z <= 0xE0_0000_0000,
        terrain::terrain_block(seed, x, y, z) == Block::Log,
    ensures
        terrain::tree_of(seed, x, z) is Some,
        1 <= y - terrain::column_height(seed, x, z) <= terrain::tree_of(seed, x, z)->0.trunk,
{
    reveal(terrain::terrain_block);
    terrain::heights_are_bounded(seed, x, z);
    reveal(terrain::flower_of);
    let roots = terrain::roots_near(seed, x, z);
    let k = tree_of_block(seed, roots, x, y, z);
    roots_are_rooted(seed, x, z, 25);
    assert(is_rooted(seed, roots[k]));
    terrain::trees_grow_on_flat_grass(seed, x, z);
}

/// Leaves hang only from a tree at most two columns away, at the top of its trunk or
/// one above.
pub proof fn leaves_have_trees(seed: u64, x: int, y: int, z: int)
    requires
        -0xE0_0000_0000 <= x <= 0xE0_0000_0000,
        -0xE0_0000_0000 <= z <= 0xE0_0000_0000,
        terrain::terrain_block(seed, x, y, z) == Block::Leaves,
    ensures
        exists|rx: int, rz: int|
            {
                &&& (#[trigger] terrain::tree_of(seed, rx, rz)) is Some
                &&& -2 <= rx - x <= 2
                &&& -2 <= rz - z <= 2
                &&& 0 <= y - terrain::column_height(seed, rx, rz) - terrain::tree_of(
                    seed,
                    rx,
                    rz,
                )->0.trunk <= 1
            },
{
    reveal(terrain::terrain_block);
    terrain::heights_are_bounded(seed, x, z);
    reveal(terrain::flower_of);
    let roots = terrain::roots_near(seed, x, z);
    let k = tree_of_block(seed, roots, x, y, z);
    roots_are_rooted(seed, x, z, 25);
    assert(is_rooted(seed, roots[k]));
    let (rx, rz) = (roots[k].x as int, roots[k].z as int);
    terrain::trees_grow_on_flat_grass(seed, rx, rz);
    assert(terrain::tree_of(seed, rx, rz) is Some);
}

/// One in eighty of the columns where a tree can grow has one: grass, between the
/// waterline and the snow, with four neighbours at most one block higher or lower.
pub proof fn trees_grow_where_they_can(seed: u64, x: int, z: int)
    ensures
        ({
            let h = terrain::column_height(seed, x, z);
            terrain::tree_of(seed, x, z) is Some <==> {
                &&& 21 <= h < 33
                &&& -1 <= terrain::column_height(seed, x + 1, z) - h <= 1
                &&& -1 <= terrain::column_height(seed, x - 1, z) - h <= 1
                &&& -1 <= terrain::column_height(seed, x, z + 1) - h <= 1
                &&& -1 <= terrain::column_height(seed, x, z - 1) - h <= 1
                &&& terrain::spec_hash(seed, terrain::TREES, x, 0, z) % 80 == 0
            }
        }),
{
    reveal(terrain::tree_of);
}

/// One in forty of the grass columns without a tree has a flower, red or yellow, and
/// it shows unless a tree's leaves hang there.
pub proof fn flowers_grow_on_grass(seed: u64, x: int, z: int)
    ensures
        ({
            let h = terrain::column_height(seed, x, z);
            let b = terrain::terrain_block(seed, x, h + 1, z);
            let word = terrain::spec_hash(seed, terrain::FLOWERS, x, 0, z);
            let here = 21 <= h < 33 && word % 40 == 0 && terrain::tree_of(seed, x, z) is None;
            &&& here ==> b == Block::FlowerRed || b == Block::FlowerYellow || b == Block::Leaves
                || b == Block::Log
            &&& !here ==> b != Block::FlowerRed && b != Block::FlowerYellow
            &&& here && terrain::roots_near(seed, x, z).len() == 0 ==> b == (if (word >> 32) % 2
                == 0 {
                Block::FlowerRed
            } else {
                Block::FlowerYellow
            })
        }),
{
    reveal(terrain::terrain_block);
    reveal(terrain::flower_of);
    terrain::heights_are_bounded(seed, x, z);
    let h = terrain::column_height(seed, x, z);
    let roots = terrain::roots_near(seed, x, z);
    if terrain::tree_block(seed, roots, x, h + 1, z) is Some {
        let k = tree_of_block(seed, roots, x, h + 1, z);
    }
}

/// Above the ground and the waterline, with no tree near and no flower, is air.
pub proof fn the_sky_is_clear(seed: u64, x: int, y: int, z: int)
    requires
        y > terrain::column_height(seed, x, z),
        y > 21,
        terrain::roots_near(seed, x, z).len() == 0,
        y > terrain::column_height(seed, x, z) + 1 || terrain::flower_of(seed, x, z) is None,
    ensures
        terrain::terrain_block(seed, x, y, z) == Block::Air,
{
    reveal(terrain::terrain_block);
}

// ---- Heights and noise ---------------------------------------------------------------------

/// The higher the hills and the detail on them, the higher the column, from 8 where
/// both are lowest to 47 where both are highest. Hills count for 32 blocks, detail
/// for 7.
pub proof fn heights_follow_the_noise(seed: u64, x: int, z: int, a: int, c: int)
    requires
        terrain::plane_noise(seed, terrain::HILLS, 32, x, z) <= terrain::plane_noise(
            seed,
            terrain::HILLS,
            32,
            a,
            c,
        ),
        terrain::plane_noise(seed, terrain::DETAIL, 8, x, z) <= terrain::plane_noise(
            seed,
            terrain::DETAIL,
            8,
            a,
            c,
        ),
    ensures
        terrain::column_height(seed, x, z) <= terrain::column_height(seed, a, c),
        terrain::plane_noise(seed, terrain::HILLS, 32, x, z) == 0 && terrain::plane_noise(
            seed,
            terrain::DETAIL,
            8,
            x,
            z,
        ) == 0 ==> terrain::column_height(seed, x, z) == 8,
        terrain::plane_noise(seed, terrain::HILLS, 32, x, z) == 255 ==> terrain::column_height(
            seed,
            x,
            z,
        ) >= 40,
        terrain::plane_noise(seed, terrain::HILLS, 32, x, z) == 255 && terrain::plane_noise(
            seed,
            terrain::DETAIL,
            8,
            x,
            z,
        ) == 255 ==> terrain::column_height(seed, x, z) == 47,
{
    reveal(terrain::column_height);
    terrain::noise_is_bounded(seed, terrain::HILLS, 32, x, z);
    terrain::noise_is_bounded(seed, terrain::DETAIL, 8, x, z);
}

proof fn blends_lie_between(a: int, b: int, f: int, n: int, low: int, high: int)
    by (nonlinear_arith)
    requires
        low <= a <= high,
        low <= b <= high,
        0 <= f <= n,
    ensures
        low * n <= a * (n - f) + b * f <= high * n,
{
    assert(low * (n - f) <= a * (n - f) <= high * (n - f));
    assert(low * f <= b * f <= high * f);
    assert(low * (n - f) + low * f == low * n);
    assert(high * (n - f) + high * f == high * n);
}

/// At the points of its lattice the noise is the random value of the point.
pub proof fn noise_meets_its_lattice(seed: u64, field: u64, x: int, y: int, z: int)
    ensures
        terrain::plane_noise(seed, field, 32, 32 * x, 32 * z) == terrain::lattice(
            seed,
            field,
            x,
            0,
            z,
        ),
        terrain::plane_noise(seed, field, 8, 8 * x, 8 * z) == terrain::lattice(
            seed,
            field,
            x,
            0,
            z,
        ),
        terrain::space_noise(seed, field, 8, 8 * x, 8 * y, 8 * z) == terrain::lattice(
            seed,
            field,
            x,
            y,
            z,
        ),
{
    assert((32 * x) / 32 == x && (32 * x) % 32 == 0);
    assert((32 * z) / 32 == z && (32 * z) % 32 == 0);
    assert((8 * x) / 8 == x && (8 * x) % 8 == 0);
    assert((8 * y) / 8 == y && (8 * y) % 8 == 0);
    assert((8 * z) / 8 == z && (8 * z) % 8 == 0);
    let v = terrain::lattice(seed, field, x, 0, z);
    let w = terrain::lattice(seed, field, x, y, z);
    blend_of_nothing(v, terrain::lattice(seed, field, x + 1, 0, z), 32);
    blend_of_nothing(v, terrain::lattice(seed, field, x + 1, 0, z), 8);
    blend_of_nothing(w, terrain::lattice(seed, field, x + 1, y, z), 8);
    let far = |n: int, h: int|
        terrain::blend(
            terrain::lattice(seed, field, x, h, z + 1),
            terrain::lattice(seed, field, x + 1, h, z + 1),
            0,
            n,
        );
    blend_of_nothing(v * 32, far(32, 0), 32);
    blend_of_nothing(v * 8, far(8, 0), 8);
    blend_of_nothing(w * 8, far(8, y), 8);
    assert(terrain::layer(seed, field, 32, 32 * x, 0, 32 * z) == v * 32 * 32);
    assert(terrain::layer(seed, field, 8, 8 * x, 0, 8 * z) == v * 8 * 8);
    assert(terrain::layer(seed, field, 8, 8 * x, y, 8 * z) == w * 8 * 8);
    blend_of_nothing(w * 8 * 8, terrain::layer(seed, field, 8, 8 * x, y + 1, 8 * z), 8);
    assert(32int * 32int == 1024int && 8int * 8int == 64int && 64int * 8int == 512int);
}

proof fn blend_of_nothing(a: int, b: int, n: int)
    ensures
        terrain::blend(a, b, 0, n) == a * n,
{
    assert(b * 0 == 0) by (nonlinear_arith);
}

/// Between the points of the lattice the noise is never outside the values of the four
/// round it, so hills roll: a place where all four are low is low.
pub proof fn noise_stays_between_its_corners(
    seed: u64,
    field: u64,
    n: int,
    x: int,
    z: int,
    low: int,
    high: int,
)
    requires
        n == 8 || n == 32,
        low <= terrain::lattice(seed, field, x / n, 0, z / n) <= high,
        low <= terrain::lattice(seed, field, x / n + 1, 0, z / n) <= high,
        low <= terrain::lattice(seed, field, x / n, 0, z / n + 1) <= high,
        low <= terrain::lattice(seed, field, x / n + 1, 0, z / n + 1) <= high,
    ensures
        low <= terrain::plane_noise(seed, field, n, x, z) <= high,
{
    let cx = x / n;
    let cz = z / n;
    let a = terrain::lattice(seed, field, cx, 0, cz);
    let b = terrain::lattice(seed, field, cx + 1, 0, cz);
    let c = terrain::lattice(seed, field, cx, 0, cz + 1);
    let d = terrain::lattice(seed, field, cx + 1, 0, cz + 1);
    let f = x % n;
    let g = z % n;
    blends_lie_between(a, b, f, n, low, high);
    blends_lie_between(c, d, f, n, low, high);
    let e = terrain::blend(a, b, f, n);
    let h = terrain::blend(c, d, f, n);
    blends_lie_between(e, h, g, n, low * n, high * n);
    let v = terrain::layer(seed, field, n, x, 0, z);
    assert(v == terrain::blend(e, h, g, n));
    if n == 8 {
        assert(n * n == 64) by (nonlinear_arith)
            requires
                n == 8,
        ;
        assert(low * 64 <= v <= high * 64);
    } else {
        assert(n * n == 1024) by (nonlinear_arith)
            requires
                n == 32,
        ;
        assert(low * 1024 <= v <= high * 1024);
    }
}

/// The crown of a tree is two layers of leaves: five by five round the top of the trunk,
/// and three by three above it, open in the middle. A corner of the wide layer is cut out
/// where its number is even.
pub proof fn crowns_are_two_layers(r: Root, seed: u64, x: int, y: int, z: int)
    ensures
        ({
            let dx = x - r.x;
            let dz = z - r.z;
            let dy = y - r.tree.base;
            let trunk = dx == 0 && dz == 0 && 1 <= dy <= r.tree.trunk;
            let wide = dy == r.tree.trunk && -2 <= dx <= 2 && -2 <= dz <= 2;
            let narrow = dy == r.tree.trunk + 1 && -1 <= dx <= 1 && -1 <= dz <= 1 && (dx != 0 || dz
                != 0);
            let corner = (dx == 2 || dx == -2) && (dz == 2 || dz == -2);
            let cut = terrain::spec_hash(seed, 507, x, y, z) % 2 == 0;
            &&& r.part(seed, x, y, z) == Some(Block::Log) <==> trunk
            &&& r.part(seed, x, y, z) == Some(Block::Leaves) <==> !trunk && (narrow || (wide
                && !(corner && cut)))
            &&& r.part(seed, x, y, z) is None <==> !trunk && !narrow && !(wide && !(corner && cut))
        }),
{
}

/// A tree has its root in the ground, and a trunk of four to six logs by its number.
pub proof fn trunks_are_four_to_six_high(seed: u64, x: int, z: int)
    ensures
        terrain::tree_of(seed, x, z) matches Some(t) ==> t.base == terrain::column_height(
            seed,
            x,
            z,
        ) && t.trunk == 4 + terrain::spec_hash(seed, 504, x, 0, z) % 3 && 4 <= t.trunk <= 6,
        terrain::tree_of(seed, x, z) is Some ==> terrain::spec_hash(seed, 503, x, 0, z) % 80 == 0,
{
    reveal(terrain::tree_of);
}

/// A flower stands on grass, where no tree does, once in forty; half of them are red.
pub proof fn flowers_stand_by_their_numbers(seed: u64, x: int, z: int)
    ensures
        ({
            let h = terrain::column_height(seed, x, z);
            let word = terrain::spec_hash(seed, 506, x, 0, z);
            let f = terrain::flower_of(seed, x, z);
            &&& f is Some <==> 21 <= h <= 32 && word % 40 == 0 && terrain::tree_of(seed, x, z)
                is None
            &&& f == Some(Block::FlowerRed) ==> (word >> 32u64) % 2 == 0
            &&& f == Some(Block::FlowerYellow) ==> (word >> 32u64) % 2 == 1
            &&& f is Some ==> f == Some(Block::FlowerRed) || f == Some(Block::FlowerYellow)
        }),
{
    reveal(terrain::flower_of);
}

/// The number of a place is mixed from the seed and the field, and then, one after the
/// other, from how far east, how high and how far south it is. Mixing is that of a
/// well-known generator, whose first number from zero is this one.
pub proof fn places_have_their_numbers(seed: u64, field: u64, x: i64, y: i64, z: i64)
    ensures
        ({
            let column = terrain::spec_mix(terrain::spec_mix(seed ^ field) ^ (x as u64));
            terrain::spec_hash(seed, field, x as int, y as int, z as int) == terrain::spec_mix(
                terrain::spec_mix(column ^ (y as u64)) ^ (z as u64),
            )
        }),
        terrain::spec_mix(0) == 0xE220A8397B1DCDAF,
        0 <= terrain::lattice(seed, field, x as int, y as int, z as int) <= 255,
{
    reveal(terrain::spec_mix);
    let a: u64 = 0x9E3779B97F4A7C15;
    assert(0u64.wrapping_add(0x9E3779B97F4A7C15) == a);
    assert(a ^ (a >> 30) == 0x9E3779BB07979AF0) by (bit_vector)
        requires
            a == 0x9E3779B97F4A7C15u64,
    ;
    let b: u64 = 0x6F68261B57E7A770;
    assert(0x9E3779BB07979AF0u64.wrapping_mul(0xBF58476D1CE4E5B9) == b);
    assert(b ^ (b >> 27) == 0x6F682616BAE3641A) by (bit_vector)
        requires
            b == 0x6F68261B57E7A770u64,
    ;
    let c: u64 = 0xE220A838BF5C9DDE;
    assert(0x6F682616BAE3641Au64.wrapping_mul(0x94D049BB133111EB) == c);
    assert(c ^ (c >> 31) == 0xE220A8397B1DCDAF) by (bit_vector)
        requires
            c == 0xE220A838BF5C9DDEu64,
    ;
}

proof fn even_shares(e: int, n: int)
    requires
        n == 8 || n == 32,
    ensures
        (e * n) / (n * n) == e / n,
        (e * n * n) / (n * n * n) == e / n,
{
    if n == 8 {
        assert((e * 8) / 64 == e / 8);
        assert((e * 8 * 8) / 512 == e / 8);
    } else {
        assert((e * 32) / 1024 == e / 32);
        assert((e * 32 * 32) / 32768 == e / 32);
    }
}

/// Along the lines between two points of the lattice, noise goes over from the number of
/// the one to the number of the other in even steps: eastward along lines to the east,
/// and southward along lines to the south.
pub proof fn noise_goes_over_evenly(seed: u64, field: u64, n: int, x: int, z: int)
    requires
        n == 8 || n == 32,
    ensures
        ({
            let here = terrain::lattice(seed, field, x / n, 0, z / n);
            let east = terrain::lattice(seed, field, x / n + 1, 0, z / n);
            let south = terrain::lattice(seed, field, x / n, 0, z / n + 1);
            &&& z % n == 0 ==> terrain::plane_noise(seed, field, n, x, z) == (here * (n - x % n)
                + east * (x % n)) / n
            &&& x % n == 0 ==> terrain::plane_noise(seed, field, n, x, z) == (here * (n - z % n)
                + south * (z % n)) / n
        }),
{
    layers_go_over_evenly(seed, field, n, x, 0, z);
    let here = terrain::lattice(seed, field, x / n, 0, z / n);
    let east = terrain::lattice(seed, field, x / n + 1, 0, z / n);
    let south = terrain::lattice(seed, field, x / n, 0, z / n + 1);
    even_shares(here * (n - x % n) + east * (x % n), n);
    even_shares(here * (n - z % n) + south * (z % n), n);
}

proof fn layers_go_over_evenly(seed: u64, field: u64, n: int, x: int, y: int, z: int)
    requires
        n == 8 || n == 32,
    ensures
        ({
            let here = terrain::lattice(seed, field, x / n, y, z / n);
            let east = terrain::lattice(seed, field, x / n + 1, y, z / n);
            let south = terrain::lattice(seed, field, x / n, y, z / n + 1);
            &&& z % n == 0 ==> terrain::layer(seed, field, n, x, y, z) == (here * (n - x % n)
                + east * (x % n)) * n
            &&& x % n == 0 ==> terrain::layer(seed, field, n, x, y, z) == (here * (n - z % n)
                + south * (z % n)) * n
        }),
{
    let cx = x / n;
    let cz = z / n;
    let a = terrain::lattice(seed, field, cx, y, cz);
    let b = terrain::lattice(seed, field, cx + 1, y, cz);
    let c = terrain::lattice(seed, field, cx, y, cz + 1);
    let d = terrain::lattice(seed, field, cx + 1, y, cz + 1);
    let top = terrain::blend(a, b, x % n, n);
    let low = terrain::blend(c, d, x % n, n);
    if z % n == 0 {
        blend_of_nothing(top, low, n);
    }
    if x % n == 0 {
        blend_of_nothing(a, b, n);
        blend_of_nothing(c, d, n);
        let f = z % n;
        assert((a * n) * (n - f) + (c * n) * f == (a * (n - f) + c * f) * n) by (nonlinear_arith);
    }
}

/// Underground the same holds upward as well.
pub proof fn caves_go_over_evenly(seed: u64, field: u64, n: int, x: int, y: int, z: int)
    requires
        n == 8,
    ensures
        ({
            let here = terrain::lattice(seed, field, x / n, y / n, z / n);
            let east = terrain::lattice(seed, field, x / n + 1, y / n, z / n);
            let above = terrain::lattice(seed, field, x / n, y / n + 1, z / n);
            let south = terrain::lattice(seed, field, x / n, y / n, z / n + 1);
            let r = terrain::space_noise(seed, field, n, x, y, z);
            &&& y % n == 0 && z % n == 0 ==> r == (here * (n - x % n) + east * (x % n)) / n
            &&& x % n == 0 && z % n == 0 ==> r == (here * (n - y % n) + above * (y % n)) / n
            &&& x % n == 0 && y % n == 0 ==> r == (here * (n - z % n) + south * (z % n)) / n
        }),
{
    let low = terrain::layer(seed, field, n, x, y / n, z);
    let high = terrain::layer(seed, field, n, x, y / n + 1, z);
    let here = terrain::lattice(seed, field, x / n, y / n, z / n);
    let east = terrain::lattice(seed, field, x / n + 1, y / n, z / n);
    let above = terrain::lattice(seed, field, x / n, y / n + 1, z / n);
    let south = terrain::lattice(seed, field, x / n, y / n, z / n + 1);
    layers_go_over_evenly(seed, field, n, x, y / n, z);
    layers_go_over_evenly(seed, field, n, x, y / n + 1, z);
    even_shares(here * (n - x % n) + east * (x % n), n);
    even_shares(here * (n - y % n) + above * (y % n), n);
    even_shares(here * (n - z % n) + south * (z % n), n);
    if y % n == 0 {
        blend_of_nothing(low, high, n);
    }
    if x % n == 0 && z % n == 0 {
        let f = y % n;
        assert(here * (n - 0) + east * 0 == here * n) by (nonlinear_arith);
        let beside = terrain::lattice(seed, field, x / n + 1, y / n + 1, z / n);
        assert(above * (n - 0) + beside * 0 == above * n) by (nonlinear_arith);
        assert((here * n * n) * (n - f) + (above * n * n) * f == (here * (n - f) + above * f) * n
            * n) by (nonlinear_arith);
    }
}

/// The numbers of the four points of the lattice round a column, each weighed by how near
/// the column is to it.
pub open spec fn weighed(seed: u64, field: u64, n: int, x: int, y: int, z: int) -> int {
    let e = x % n;
    let s = z % n;
    terrain::lattice(seed, field, x / n, y, z / n) * (n - e) * (n - s) + terrain::lattice(
        seed,
        field,
        x / n + 1,
        y,
        z / n,
    ) * e * (n - s) + terrain::lattice(seed, field, x / n, y, z / n + 1) * (n - e) * s
        + terrain::lattice(seed, field, x / n + 1, y, z / n + 1) * e * s
}

/// Noise weighs the points of the lattice round a place: four on the plane, and eight in
/// space.
pub proof fn noise_weighs_its_corners(seed: u64, field: u64, n: int, x: int, y: int, z: int)
    ensures
        terrain::plane_noise(seed, field, n, x, z) == weighed(seed, field, n, x, 0, z) / (n * n),
        terrain::space_noise(seed, field, n, x, y, z) == (weighed(seed, field, n, x, y / n, z) * (n
            - y % n) + weighed(seed, field, n, x, y / n + 1, z) * (y % n)) / (n * n * n),
{
    layers_weigh_four_corners(seed, field, n, x, 0, z);
    layers_weigh_four_corners(seed, field, n, x, y / n, z);
    layers_weigh_four_corners(seed, field, n, x, y / n + 1, z);
}

proof fn layers_weigh_four_corners(seed: u64, field: u64, n: int, x: int, y: int, z: int)
    ensures
        terrain::layer(seed, field, n, x, y, z) == weighed(seed, field, n, x, y, z),
{
    let e = x % n;
    let s = z % n;
    let a = terrain::lattice(seed, field, x / n, y, z / n);
    let b = terrain::lattice(seed, field, x / n + 1, y, z / n);
    let c = terrain::lattice(seed, field, x / n, y, z / n + 1);
    let d = terrain::lattice(seed, field, x / n + 1, y, z / n + 1);
    assert((a * (n - e) + b * e) * (n - s) + (c * (n - e) + d * e) * s == a * (n - e) * (n - s) + b
        * e * (n - s) + c * (n - e) * s + d * e * s) by (nonlinear_arith);
}

} // verus!
