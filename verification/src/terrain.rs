//! Deterministic terrain: every block is a function of the seed and of its
//! coordinates alone, so chunks agree across their boundaries.
//!
//! Columns rise to a height of layered value noise. Below sea level they fill up
//! with water; high ones carry snow; the grassland between has trees and
//! flowers. Caves are carved well below the surface.
use std::collections::HashMap;

use vstd::prelude::*;

use crate::block::Block;
use crate::coords::{BlockPos, ChunkPos, CHUNK_BLOCKS, WORLD_HEIGHT};

verus! {

broadcast use vstd::std_specs::hash::group_hash_axioms;

/// Water fills low columns up to here.
pub const SEA_LEVEL: i32 = 21;

/// Columns this high are capped with snow.
pub const SNOW_LEVEL: i32 = 33;

/// The lowest column height.
pub const MIN_HEIGHT: i32 = 8;

/// The highest column height.
pub const MAX_HEIGHT: i32 = 47;

// What tells the random fields of one seed apart.
pub const HILLS: u64 = 501;

pub const DETAIL: u64 = 502;

pub const TREES: u64 = 503;

pub const TRUNKS: u64 = 504;

pub const CAVES: u64 = 505;

pub const FLOWERS: u64 = 506;

pub const CUTOUTS: u64 = 507;

/// Cave noise from this level on is hollow.
pub const CAVE_LEVEL: i64 = 190;

/// A tree: the height of the column it stands on, and the length of its trunk.
#[derive(Clone, Copy, PartialEq, Eq, Structural, Debug)]
pub struct Tree {
    pub base: i32,
    pub trunk: i32,
}

/// A tree with the column it is rooted in.
#[derive(Clone, Copy, PartialEq, Eq, Structural, Debug)]
pub struct Root {
    pub x: i64,
    pub z: i64,
    pub tree: Tree,
}

/// The surface block of a column of height `h`.
pub open spec fn spec_top_block(h: int) -> Block {
    if h < SEA_LEVEL {
        Block::Sand
    } else if h < SNOW_LEVEL {
        Block::Grass
    } else {
        Block::SnowGrass
    }
}

/// The surface block of a column of height `h`: sand under the waterline, snow
/// from the snowline on, grass between.
pub fn top_block(h: i32) -> (b: Block)
    ensures
        b == spec_top_block(h as int),
{
    if h < SEA_LEVEL {
        Block::Sand
    } else if h < SNOW_LEVEL {
        Block::Grass
    } else {
        Block::SnowGrass
    }
}

/// What lies directly under the surface of a column of height `h`.
pub open spec fn spec_sub_top_block(h: int) -> Block {
    if h < SEA_LEVEL {
        Block::Sand
    } else {
        Block::Dirt
    }
}

/// What lies directly under the surface of a column of height `h`.
pub fn sub_top_block(h: i32) -> (b: Block)
    ensures
        b == spec_sub_top_block(h as int),
{
    if h < SEA_LEVEL {
        Block::Sand
    } else {
        Block::Dirt
    }
}

// ---- Noise ---------------------------------------------------------------

/// Scrambles the bits of a word.
#[verifier::opaque]
pub open spec fn spec_mix(v: u64) -> u64 {
    let a = v.wrapping_add(0x9E3779B97F4A7C15);
    let b = (a ^ (a >> 30)).wrapping_mul(0xBF58476D1CE4E5B9);
    let c = (b ^ (b >> 27)).wrapping_mul(0x94D049BB133111EB);
    c ^ (c >> 31)
}

fn mix(v: u64) -> (r: u64)
    ensures
        r == spec_mix(v),
{
    proof {
        reveal(spec_mix);
    }
    let a: u64 = v.wrapping_add(0x9E3779B97F4A7C15);
    let b: u64 = (a ^ (a >> 30)).wrapping_mul(0xBF58476D1CE4E5B9);
    let c: u64 = (b ^ (b >> 27)).wrapping_mul(0x94D049BB133111EB);
    c ^ (c >> 31)
}

/// The random word of a lattice point in one of the fields of a seed.
pub open spec fn spec_hash(seed: u64, field: u64, x: int, y: int, z: int) -> u64 {
    let a = spec_mix(seed ^ field);
    let b = spec_mix(a ^ ((x as i64) as u64));
    let c = spec_mix(b ^ ((y as i64) as u64));
    spec_mix(c ^ ((z as i64) as u64))
}

fn hash(seed: u64, field: u64, x: i64, y: i64, z: i64) -> (r: u64)
    ensures
        r == spec_hash(seed, field, x as int, y as int, z as int),
{
    let a: u64 = mix(seed ^ field);
    let b: u64 = mix(a ^ (x as u64));
    let c: u64 = mix(b ^ (y as u64));
    mix(c ^ (z as u64))
}

/// The value of a lattice point, from 0 to 255.
pub open spec fn lattice(seed: u64, field: u64, x: int, y: int, z: int) -> int {
    ((spec_hash(seed, field, x, y, z) >> 32) % 256) as int
}

fn lattice_value(seed: u64, field: u64, x: i64, y: i64, z: i64) -> (r: i64)
    ensures
        r == lattice(seed, field, x as int, y as int, z as int),
        0 <= r <= 255,
{
    ((hash(seed, field, x, y, z) >> 32) % 256) as i64
}

/// `a` and `b`, mixed in the proportion of `n - f` to `f`, times `n`.
pub open spec fn blend(a: int, b: int, f: int, n: int) -> int {
    a * (n - f) + b * f
}

proof fn blend_is_bounded(a: int, b: int, f: int, n: int, m: int)
    by (nonlinear_arith)
    requires
        0 <= a <= m,
        0 <= b <= m,
        0 <= f <= n,
    ensures
        0 <= a * (n - f) <= m * n,
        0 <= b * f <= m * n,
        0 <= blend(a, b, f, n) <= m * n,
{
    assert(a * (n - f) <= m * (n - f));
    assert(b * f <= m * f);
    assert(m * (n - f) + m * f == m * n);
}

/// Four lattice points of one layer, blended along x and then along z, times
/// the square of the scale.
pub open spec fn layer(seed: u64, field: u64, n: int, x: int, y: int, z: int) -> int {
    let cx = x / n;
    let cz = z / n;
    blend(
        blend(lattice(seed, field, cx, y, cz), lattice(seed, field, cx + 1, y, cz), x % n, n),
        blend(
            lattice(seed, field, cx, y, cz + 1),
            lattice(seed, field, cx + 1, y, cz + 1),
            x % n,
            n,
        ),
        z % n,
        n,
    )
}

/// Value noise on a plane, from 0 to 255: the lattice has one point every `n`
/// blocks, with linear interpolation between them.
pub open spec fn plane_noise(seed: u64, field: u64, n: int, x: int, z: int) -> int {
    layer(seed, field, n, x, 0, z) / (n * n)
}

/// Value noise in space, from 0 to 255.
pub open spec fn space_noise(seed: u64, field: u64, n: int, x: int, y: int, z: int) -> int {
    blend(layer(seed, field, n, x, y / n, z), layer(seed, field, n, x, y / n + 1, z), y % n, n) / (
    n * n * n)
}

/// Far inside the machine's range, and far beyond any block.
spec fn near(x: int) -> bool {
    -0x100_0000_0000 <= x <= 0x100_0000_0000
}

/// A lattice spacing that the terrain uses.
pub(crate) open spec fn spacing(n: int) -> bool {
    n == 8 || n == 32
}

fn lattice_cell(x: i64, n: i64) -> (r: (i64, i64))
    requires
        near(x as int),
        spacing(n as int),
    ensures
        r.0 == (x as int) / (n as int),
        r.1 == (x as int) % (n as int),
        0 <= r.1 < n,
        near(r.0 as int),
{
    if n == 8 {
        let q: i64 = if x >= 0 {
            x / 8
        } else {
            -((7 - x) / 8)
        };
        (q, x - q * 8)
    } else {
        let q: i64 = if x >= 0 {
            x / 32
        } else {
            -((31 - x) / 32)
        };
        (q, x - q * 32)
    }
}

fn blend_values(a: i64, b: i64, f: i64, n: i64, m: i64) -> (r: i64)
    requires
        0 <= a <= m,
        0 <= b <= m,
        0 <= f <= n,
        spacing(n as int),
        m <= 0x10_0000,
    ensures
        r == blend(a as int, b as int, f as int, n as int),
        0 <= r <= m * n,
{
    proof {
        blend_is_bounded(a as int, b as int, f as int, n as int, m as int);
        if n == 8 {
        } else {
        }
    }
    a * (n - f) + b * f
}

fn layer_value(seed: u64, field: u64, n: i64, x: i64, y: i64, z: i64) -> (r: i64)
    requires
        near(x as int),
        near(z as int),
        spacing(n as int),
    ensures
        r == layer(seed, field, n as int, x as int, y as int, z as int),
        0 <= r <= 255 * n * n,
{
    let (cx, fx) = lattice_cell(x, n);
    let (cz, fz) = lattice_cell(z, n);
    let a: i64 = lattice_value(seed, field, cx, y, cz);
    let b: i64 = lattice_value(seed, field, cx + 1, y, cz);
    let c: i64 = lattice_value(seed, field, cx, y, cz + 1);
    let d: i64 = lattice_value(seed, field, cx + 1, y, cz + 1);
    let near_row: i64 = blend_values(a, b, fx, n, 255);
    let far_row: i64 = blend_values(c, d, fx, n, 255);
    blend_values(near_row, far_row, fz, n, 255 * n)
}

fn plane_noise_value(seed: u64, field: u64, n: i64, x: i64, z: i64) -> (r: i64)
    requires
        near(x as int),
        near(z as int),
        spacing(n as int),
    ensures
        r == plane_noise(seed, field, n as int, x as int, z as int),
        0 <= r <= 255,
{
    let v: i64 = layer_value(seed, field, n, x, 0, z);
    if n == 8 {
        v / 64
    } else {
        v / 1024
    }
}

fn cave_noise_value(seed: u64, x: i64, y: i64, z: i64) -> (r: i64)
    requires
        near(x as int),
        near(y as int),
        near(z as int),
    ensures
        r == space_noise(seed, CAVES, 8, x as int, y as int, z as int),
        0 <= r <= 255,
{
    let (cy, fy) = lattice_cell(y, 8);
    let low: i64 = layer_value(seed, CAVES, 8, x, cy, z);
    let high: i64 = layer_value(seed, CAVES, 8, x, cy + 1, z);
    blend_values(low, high, fy, 8, 255 * 8 * 8) / 512
}

// ---- Columns -------------------------------------------------------------

/// The height of a column: the y of its topmost ground block. Rolling hills and
/// a finer detail, from 8 to 47.
#[verifier::opaque]
pub open spec fn column_height(seed: u64, x: int, z: int) -> int {
    8 + (plane_noise(seed, HILLS, 32, x, z) * 32 + plane_noise(seed, DETAIL, 8, x, z) * 7) / 255
}

/// Heights differ by at most one block from a column to its four neighbours.
pub open spec fn flat(seed: u64, x: int, z: int) -> bool {
    let h = column_height(seed, x, z);
    &&& -1 <= column_height(seed, x + 1, z) - h <= 1
    &&& -1 <= column_height(seed, x - 1, z) - h <= 1
    &&& -1 <= column_height(seed, x, z + 1) - h <= 1
    &&& -1 <= column_height(seed, x, z - 1) - h <= 1
}

/// Columns where trees and flowers can grow: grassland.
pub open spec fn grassland(h: int) -> bool {
    SEA_LEVEL <= h < SNOW_LEVEL
}

/// The tree rooted in a column: one in eighty flat grass columns has one, with a
/// trunk of four to six blocks.
#[verifier::opaque]
pub open spec fn tree_of(seed: u64, x: int, z: int) -> Option<Tree> {
    if grassland(column_height(seed, x, z)) && spec_hash(seed, TREES, x, 0, z) % 80 == 0 && flat(
        seed,
        x,
        z,
    ) {
        Some(
            Tree {
                base: column_height(seed, x, z) as i32,
                trunk: (4 + spec_hash(seed, TRUNKS, x, 0, z) % 3) as i32,
            },
        )
    } else {
        None
    }
}

/// The trees whose canopy can reach a column: those rooted at most two columns
/// away on either axis. The first `n` of the 25 columns are looked at, row by row.
pub open spec fn roots_among(seed: u64, x: int, z: int, n: int) -> Seq<Root>
    decreases n,
{
    if n <= 0 {
        Seq::empty()
    } else {
        let rx = x + (n - 1) % 5 - 2;
        let rz = z + (n - 1) / 5 - 2;
        match tree_of(seed, rx, rz) {
            Some(tree) => roots_among(seed, x, z, n - 1).push(
                Root { x: rx as i64, z: rz as i64, tree },
            ),
            None => roots_among(seed, x, z, n - 1),
        }
    }
}

/// The trees whose canopy can reach a column.
pub open spec fn roots_near(seed: u64, x: int, z: int) -> Seq<Root> {
    roots_among(seed, x, z, 25)
}

pub open spec fn abs(x: int) -> int {
    if x < 0 {
        -x
    } else {
        x
    }
}

impl Root {
    /// The trunk: the cells over the root, up to the trunk's length.
    pub open spec fn is_trunk(self, x: int, y: int, z: int) -> bool {
        x == self.x && z == self.z && 1 <= y - self.tree.base <= self.tree.trunk
    }

    /// The canopy: five by five around the top of the trunk, and three by three
    /// above it but for the centre.
    pub open spec fn is_canopy(self, x: int, y: int, z: int) -> bool {
        let dx = abs(x - self.x);
        let dz = abs(z - self.z);
        let dy = y - self.tree.base;
        ||| dy == self.tree.trunk && dx <= 2 && dz <= 2
        ||| dy == self.tree.trunk + 1 && dx <= 1 && dz <= 1 && !(dx == 0 && dz == 0)
    }

    /// A corner of the wide canopy layer.
    pub open spec fn is_corner(self, x: int, y: int, z: int) -> bool {
        abs(x - self.x) == 2 && abs(z - self.z) == 2
    }

    /// The block that this tree puts into a cell; some corners are left out.
    pub open spec fn part(self, seed: u64, x: int, y: int, z: int) -> Option<Block> {
        if self.is_trunk(x, y, z) {
            Some(Block::Log)
        } else if self.is_canopy(x, y, z) && !(self.is_corner(x, y, z) && spec_hash(
            seed,
            CUTOUTS,
            x,
            y,
            z,
        ) % 2 == 0) {
            Some(Block::Leaves)
        } else {
            None
        }
    }
}

/// The block of the first of the trees that reaches a cell.
pub open spec fn tree_block(seed: u64, roots: Seq<Root>, x: int, y: int, z: int) -> Option<Block>
    decreases roots.len(),
{
    if roots.len() == 0 {
        None
    } else {
        match roots[0].part(seed, x, y, z) {
            Some(b) => Some(b),
            None => tree_block(seed, roots.skip(1), x, y, z),
        }
    }
}

/// The flower on a column, if it has one: some grass columns without a tree do.
#[verifier::opaque]
pub open spec fn flower_of(seed: u64, x: int, z: int) -> Option<Block> {
    let word = spec_hash(seed, FLOWERS, x, 0, z);
    if !grassland(column_height(seed, x, z)) || word % 40 != 0 || tree_of(seed, x, z) is Some {
        None
    } else if (word >> 32) % 2 == 0 {
        Some(Block::FlowerRed)
    } else {
        Some(Block::FlowerYellow)
    }
}

/// The block of the terrain at a position.
#[verifier::opaque]
pub open spec fn terrain_block(seed: u64, x: int, y: int, z: int) -> Block {
    let h = column_height(seed, x, z);
    if y < 0 || y >= WORLD_HEIGHT {
        Block::Air
    } else if y > h {
        if y <= SEA_LEVEL {
            Block::Water
        } else {
            match tree_block(seed, roots_near(seed, x, z), x, y, z) {
                Some(b) => b,
                None => if y == h + 1 && flower_of(seed, x, z) is Some {
                    flower_of(seed, x, z)->0
                } else {
                    Block::Air
                },
            }
        }
    } else if y == 0 {
        Block::Stone
    } else if y == h {
        spec_top_block(h)
    } else if y >= h - 3 {
        spec_sub_top_block(h)
    } else if space_noise(seed, CAVES, 8, x, y, z) >= CAVE_LEVEL {
        Block::Air
    } else {
        Block::Stone
    }
}

/// Heights of columns, kept once computed. Terrain never moves, so an entry
/// stays true.
pub struct HeightCache {
    heights: HashMap<u128, i32>,
}

spec fn column_key(x: int, z: int) -> int {
    (x + 0x1000_0000_0000) * 0x1_0000_0000_0000 + (z + 0x1000_0000_0000)
}

impl HeightCache {
    /// Whether every height that is kept is the one of this seed's terrain.
    pub closed spec fn agrees(self, seed: u64) -> bool {
        forall|x: int, z: int|
            near(x) && near(z) && self.heights@.dom().contains(
                #[trigger] column_key(x, z) as u128,
            ) ==> self.heights@[column_key(x, z) as u128] == column_height(seed, x, z)
    }

    /// An empty cache, true of every seed.
    pub fn new() -> (c: HeightCache)
        ensures
            forall|seed: u64| #[trigger] c.agrees(seed),
    {
        HeightCache { heights: HashMap::new() }
    }
}

/// The terrain of one seed.
#[derive(Clone, Copy, Debug)]
pub struct WorldGen {
    seed: u64,
}

impl WorldGen {
    /// The seed of this terrain.
    pub closed spec fn spec_seed(self) -> u64 {
        self.seed
    }

    pub fn new(seed: u64) -> (g: WorldGen)
        ensures
            g.spec_seed() == seed,
    {
        WorldGen { seed }
    }

    pub fn seed(&self) -> (seed: u64)
        ensures
            seed == self.spec_seed(),
    {
        self.seed
    }

    fn height_of(&self, x: i64, z: i64) -> (h: i32)
        requires
            near(x as int),
            near(z as int),
        ensures
            h == column_height(self.spec_seed(), x as int, z as int),
            MIN_HEIGHT <= h <= MAX_HEIGHT,
    {
        proof {
            reveal(column_height);
        }
        let hills: i64 = plane_noise_value(self.seed, HILLS, 32, x, z);
        let detail: i64 = plane_noise_value(self.seed, DETAIL, 8, x, z);
        (8 + (hills * 32 + detail * 7) / 255) as i32
    }

    /// The height of a column.
    pub fn height(&self, x: i32, z: i32) -> (h: i32)
        ensures
            h == column_height(self.spec_seed(), x as int, z as int),
            MIN_HEIGHT <= h <= MAX_HEIGHT,
    {
        self.height_of(x as i64, z as i64)
    }

    pub(crate) fn height_of_cached(&self, x: i64, z: i64, cache: &mut HeightCache) -> (h: i32)
        requires
            old(cache).agrees(self.spec_seed()),
            -0x100_0000_0000 <= x <= 0x100_0000_0000,
            -0x100_0000_0000 <= z <= 0x100_0000_0000,
        ensures
            final(cache).agrees(self.spec_seed()),
            h == column_height(self.spec_seed(), x as int, z as int),
            MIN_HEIGHT <= h <= MAX_HEIGHT,
    {
        let key: u128 = ((x + 0x1000_0000_0000) as u128) * 0x1_0000_0000_0000 + ((z
            + 0x1000_0000_0000) as u128);
        assert(key == column_key(x as int, z as int));
        proof {
            heights_are_bounded(self.spec_seed(), x as int, z as int);
        }
        match cache.heights.get(&key) {
            Some(h) => {
                return *h;
            },
            None => {},
        }
        let h: i32 = self.height_of(x, z);
        cache.heights.insert(key, h);
        proof {
            assert forall|a: int, b: int|
                near(a) && near(b) && cache.heights@.dom().contains(
                    #[trigger] column_key(a, b) as u128,
                ) implies cache.heights@[column_key(a, b) as u128] == column_height(
                self.spec_seed(),
                a,
                b,
            ) by {
                if column_key(a, b) == key {
                    assert(a == x && b == z);
                }
            }
        }
        h
    }

    /// The height of a column, from the cache where it is known.
    pub fn height_cached(&self, x: i32, z: i32, cache: &mut HeightCache) -> (h: i32)
        requires
            old(cache).agrees(self.spec_seed()),
        ensures
            final(cache).agrees(self.spec_seed()),
            h == column_height(self.spec_seed(), x as int, z as int),
            MIN_HEIGHT <= h <= MAX_HEIGHT,
    {
        self.height_of_cached(x as i64, z as i64, cache)
    }

    pub(crate) fn tree_of_cached(&self, x: i64, z: i64, cache: &mut HeightCache) -> (t: Option<
        Tree,
    >)
        requires
            old(cache).agrees(self.spec_seed()),
            -0xFF_0000_0000 <= x <= 0xFF_0000_0000,
            -0xFF_0000_0000 <= z <= 0xFF_0000_0000,
        ensures
            final(cache).agrees(self.spec_seed()),
            t == tree_of(self.spec_seed(), x as int, z as int),
            t is Some ==> 4 <= t->0.trunk <= 6 && grassland(t->0.base as int),
    {
        proof {
            reveal(tree_of);
        }
        if hash(self.seed, TREES, x, 0, z) % 80 != 0 {
            return None;
        }
        let h: i32 = self.height_of_cached(x, z, cache);
        if h < SEA_LEVEL || h >= SNOW_LEVEL {
            return None;
        }
        let east: i32 = self.height_of_cached(x + 1, z, cache);
        let west: i32 = self.height_of_cached(x - 1, z, cache);
        let south: i32 = self.height_of_cached(x, z + 1, cache);
        let north: i32 = self.height_of_cached(x, z - 1, cache);
        if east - h > 1 || h - east > 1 || west - h > 1 || h - west > 1 || south - h > 1 || h
            - south > 1 || north - h > 1 || h - north > 1 {
            return None;
        }
        let word: u64 = hash(self.seed, TRUNKS, x, 0, z);
        Some(Tree { base: h, trunk: 4 + (word % 3) as i32 })
    }

    /// The tree rooted in a column, if any.
    pub fn tree_at(&self, x: i32, z: i32) -> (t: Option<Tree>)
        ensures
            t == tree_of(self.spec_seed(), x as int, z as int),
            t is Some ==> 4 <= t->0.trunk <= 6 && grassland(t->0.base as int),
    {
        let mut cache = HeightCache::new();
        assert(cache.agrees(self.spec_seed()));
        self.tree_of_cached(x as i64, z as i64, &mut cache)
    }

    /// The tree rooted in a column, if any, with heights from the cache.
    pub fn tree_at_cached(&self, x: i32, z: i32, cache: &mut HeightCache) -> (t: Option<Tree>)
        requires
            old(cache).agrees(self.spec_seed()),
        ensures
            final(cache).agrees(self.spec_seed()),
            t == tree_of(self.spec_seed(), x as int, z as int),
            t is Some ==> 4 <= t->0.trunk <= 6 && grassland(t->0.base as int),
    {
        self.tree_of_cached(x as i64, z as i64, cache)
    }

    /// The trees whose canopy can reach a column, row by row.
    pub(crate) fn roots_of(&self, x: i64, z: i64, cache: &mut HeightCache) -> (roots: Vec<Root>)
        requires
            old(cache).agrees(self.spec_seed()),
            -0xF0_0000_0000 <= x <= 0xF0_0000_0000,
            -0xF0_0000_0000 <= z <= 0xF0_0000_0000,
        ensures
            final(cache).agrees(self.spec_seed()),
            roots@ == roots_near(self.spec_seed(), x as int, z as int),
    {
        let mut roots: Vec<Root> = Vec::new();
        let mut n: i64 = 0;
        while n < 25
            invariant
                0 <= n <= 25,
                cache.agrees(self.spec_seed()),
                -0xF0_0000_0000 <= x <= 0xF0_0000_0000,
                -0xF0_0000_0000 <= z <= 0xF0_0000_0000,
                roots@ == roots_among(self.spec_seed(), x as int, z as int, n as int),
            decreases 25 - n,
        {
            let rx: i64 = x + n % 5 - 2;
            let rz: i64 = z + n / 5 - 2;
            match self.tree_of_cached(rx, rz, cache) {
                Some(tree) => {
                    roots.push(Root { x: rx, z: rz, tree });
                },
                None => {},
            }
            n = n + 1;
        }
        roots
    }

    fn flower_at(&self, x: i64, z: i64, h: i32, cache: &mut HeightCache) -> (f: Option<Block>)
        requires
            old(cache).agrees(self.spec_seed()),
            -0xF0_0000_0000 <= x <= 0xF0_0000_0000,
            -0xF0_0000_0000 <= z <= 0xF0_0000_0000,
            h == column_height(self.spec_seed(), x as int, z as int),
        ensures
            final(cache).agrees(self.spec_seed()),
            f == flower_of(self.spec_seed(), x as int, z as int),
    {
        proof {
            reveal(flower_of);
        }
        let word: u64 = hash(self.seed, FLOWERS, x, 0, z);
        if h < SEA_LEVEL || h >= SNOW_LEVEL || word % 40 != 0 {
            return None;
        }
        match self.tree_of_cached(x, z, cache) {
            Some(_) => None,
            None => if (word >> 32) % 2 == 0 {
                Some(Block::FlowerRed)
            } else {
                Some(Block::FlowerYellow)
            },
        }
    }

    /// The part of the first tree that reaches a cell.
    fn tree_block_at(&self, roots: &Vec<Root>, x: i64, y: i64, z: i64) -> (b: Option<Block>)
        requires
            near(x as int),
            0 <= y < WORLD_HEIGHT,
            near(z as int),
            forall|k: int| #![trigger roots@[k]]
                0 <= k < roots@.len() ==> {
                    &&& near(roots@[k].x as int)
                    &&& near(roots@[k].z as int)
                    &&& 0 <= roots@[k].tree.base <= 64
                    &&& 0 <= roots@[k].tree.trunk <= 6
                },
        ensures
            b == tree_block(self.spec_seed(), roots@, x as int, y as int, z as int),
    {
        let mut k: usize = 0;
        proof {
            assert(roots@.skip(0) =~= roots@);
        }
        while k < roots.len()
            invariant
                k <= roots@.len(),
                near(x as int),
                0 <= y < WORLD_HEIGHT,
                near(z as int),
                forall|k: int| #![trigger roots@[k]]
                    0 <= k < roots@.len() ==> {
                        &&& near(roots@[k].x as int)
                        &&& near(roots@[k].z as int)
                        &&& 0 <= roots@[k].tree.base <= 64
                        &&& 0 <= roots@[k].tree.trunk <= 6
                    },
                tree_block(self.spec_seed(), roots@, x as int, y as int, z as int) == tree_block(
                    self.spec_seed(),
                    roots@.skip(k as int),
                    x as int,
                    y as int,
                    z as int,
                ),
            decreases roots@.len() - k,
        {
            let r = roots[k];
            proof {
                assert(roots@.skip(k as int)[0] == r);
                assert(roots@.skip(k as int).skip(1) =~= roots@.skip(k as int + 1));
            }
            let dx: i64 = if x < r.x {
                r.x - x
            } else {
                x - r.x
            };
            let dz: i64 = if z < r.z {
                r.z - z
            } else {
                z - r.z
            };
            let dy: i64 = y - r.tree.base as i64;
            let trunk: i64 = r.tree.trunk as i64;
            if dx == 0 && dz == 0 && 1 <= dy && dy <= trunk {
                return Some(Block::Log);
            }
            let wide: bool = dy == trunk && dx <= 2 && dz <= 2;
            let cap: bool = dy == trunk + 1 && dx <= 1 && dz <= 1 && !(dx == 0 && dz == 0);
            if wide || cap {
                let cut: bool = dx == 2 && dz == 2 && hash(self.seed, CUTOUTS, x, y, z) % 2 == 0;
                if !cut {
                    return Some(Block::Leaves);
                }
            }
            k = k + 1;
        }
        None
    }

    /// A cell of a column whose height, trees and flower are known.
    fn cell(
        &self,
        x: i64,
        y: i64,
        z: i64,
        h: i32,
        roots: &Vec<Root>,
        flower: Option<Block>,
    ) -> (b: Block)
        requires
            -0xF0_0000_0000 <= x <= 0xF0_0000_0000,
            -0xF0_0000_0000 <= z <= 0xF0_0000_0000,
            h == column_height(self.spec_seed(), x as int, z as int),
            MIN_HEIGHT <= h <= MAX_HEIGHT,
            roots@ == roots_near(self.spec_seed(), x as int, z as int),
            flower == flower_of(self.spec_seed(), x as int, z as int),
        ensures
            b == terrain_block(self.spec_seed(), x as int, y as int, z as int),
    {
        proof {
            reveal(terrain_block);
        }
        if y < 0 || y >= WORLD_HEIGHT as i64 {
            return Block::Air;
        }
        if y > h as i64 {
            if y <= SEA_LEVEL as i64 {
                return Block::Water;
            }
            proof {
                roots_are_near(self.spec_seed(), x as int, z as int, 25);
            }
            match self.tree_block_at(roots, x, y, z) {
                Some(b) => {
                    return b;
                },
                None => {},
            }
            match flower {
                Some(f) => if y == h as i64 + 1 {
                    return f;
                },
                None => {},
            }
            return Block::Air;
        }
        if y == 0 {
            return Block::Stone;
        }
        if y == h as i64 {
            return top_block(h);
        }
        if y >= h as i64 - 3 {
            return sub_top_block(h);
        }
        if cave_noise_value(self.seed, x, y, z) >= CAVE_LEVEL {
            Block::Air
        } else {
            Block::Stone
        }
    }

    /// The block of the terrain at a position.
    pub fn block_at(&self, x: i32, y: i32, z: i32) -> (b: Block)
        ensures
            b == terrain_block(self.spec_seed(), x as int, y as int, z as int),
    {
        let mut cache = HeightCache::new();
        assert(cache.agrees(self.spec_seed()));
        let h: i32 = self.height_of_cached(x as i64, z as i64, &mut cache);
        let roots = self.roots_of(x as i64, z as i64, &mut cache);
        let flower = self.flower_at(x as i64, z as i64, h, &mut cache);
        self.cell(x as i64, y as i64, z as i64, h, &roots, flower)
    }

    /// The buffer of a chunk.
    pub fn generate_chunk(&self, cx: i32, cy: i32, cz: i32) -> (data: Vec<u8>)
        ensures
            is_chunk_of(self.spec_seed(), cx as int, cy as int, cz as int, data@),
    {
        let mut cache = HeightCache::new();
        assert(cache.agrees(self.spec_seed()));
        self.generate_chunk_cached(cx, cy, cz, &mut cache)
    }

    /// The buffer of a chunk, with heights from the cache.
    pub fn generate_chunk_cached(
        &self,
        cx: i32,
        cy: i32,
        cz: i32,
        cache: &mut HeightCache,
    ) -> (data: Vec<u8>)
        requires
            old(cache).agrees(self.spec_seed()),
        ensures
            final(cache).agrees(self.spec_seed()),
            is_chunk_of(self.spec_seed(), cx as int, cy as int, cz as int, data@),
    {
        let ghost seed = self.spec_seed();
        let mut data: Vec<u8> = vec![0u8; CHUNK_BLOCKS];
        let mut column: usize = 0;
        while column < 256
            invariant
                column <= 256,
                seed == self.spec_seed(),
                cache.agrees(seed),
                data@.len() == CHUNK_BLOCKS,
                forall|lx: int, ly: int, lz: int|
                    0 <= lx < 16 && 0 <= ly < 16 && 0 <= lz < 16 && lz * 16 + lx < column ==> (
                    #[trigger] chunk_cell(data@, lx, ly, lz)) == terrain_block(
                        seed,
                        cx * 16 + lx,
                        cy * 16 + ly,
                        cz * 16 + lz,
                    ).id(),
            decreases 256 - column,
        {
            let x: i64 = cx as i64 * 16 + (column % 16) as i64;
            let z: i64 = cz as i64 * 16 + (column / 16) as i64;
            let h: i32 = self.height_of_cached(x, z, cache);
            let roots = self.roots_of(x, z, cache);
            let flower = self.flower_at(x, z, h, cache);
            let mut ly: usize = 0;
            while ly < 16
                invariant
                    ly <= 16,
                    column < 256,
                    seed == self.spec_seed(),
                    x == cx * 16 + column % 16,
                    z == cz * 16 + column / 16,
                    h == column_height(seed, x as int, z as int),
                    MIN_HEIGHT <= h <= MAX_HEIGHT,
                    roots@ == roots_near(seed, x as int, z as int),
                    flower == flower_of(seed, x as int, z as int),
                    data@.len() == CHUNK_BLOCKS,
                    forall|lx: int, ky: int, lz: int|
                        0 <= lx < 16 && 0 <= ky < 16 && 0 <= lz < 16 && (lz * 16 + lx < column || (
                        lz * 16 + lx == column && ky < ly)) ==> (#[trigger] chunk_cell(
                            data@,
                            lx,
                            ky,
                            lz,
                        )) == terrain_block(seed, cx * 16 + lx, cy * 16 + ky, cz * 16 + lz).id(),
                decreases 16 - ly,
            {
                let y: i64 = cy as i64 * 16 + ly as i64;
                let b = self.cell(x, y, z, h, &roots, flower);
                let ghost before = data@;
                data.set(ly * 256 + column, b.as_u8());
                proof {
                    assert forall|lx: int, ky: int, lz: int|
                        0 <= lx < 16 && 0 <= ky < 16 && 0 <= lz < 16 && (lz * 16 + lx < column || (
                        lz * 16 + lx == column && ky < ly + 1)) implies (#[trigger] chunk_cell(
                        data@,
                        lx,
                        ky,
                        lz,
                    )) == terrain_block(seed, cx * 16 + lx, cy * 16 + ky, cz * 16 + lz).id() by {
                        if lz * 16 + lx == column && ky == ly {
                        } else {
                            assert(chunk_cell(before, lx, ky, lz) == chunk_cell(data@, lx, ky, lz));
                        }
                    }
                }
                ly = ly + 1;
            }
            column = column + 1;
        }
        data
    }
}

/// The byte of a chunk buffer at a position inside the chunk.
pub open spec fn chunk_cell(data: Seq<u8>, x: int, y: int, z: int) -> u8 {
    data[(y * 16 + z) * 16 + x]
}

/// Whether a buffer holds the terrain of a chunk, cell by cell.
pub open spec fn is_chunk_of(seed: u64, cx: int, cy: int, cz: int, data: Seq<u8>) -> bool {
    &&& data.len() == CHUNK_BLOCKS
    &&& forall|x: int, y: int, z: int|
        0 <= x < 16 && 0 <= y < 16 && 0 <= z < 16 ==> (#[trigger] chunk_cell(data, x, y, z))
            == terrain_block(seed, cx * 16 + x, cy * 16 + y, cz * 16 + z).id()
}

/// A chunk's buffer holds, for each of its blocks, what the terrain has at the
/// block's own position: so two chunks never disagree, on a canopy that overhangs
/// their boundary no more than on anything else.
pub proof fn chunk_matches_the_terrain(seed: u64, p: BlockPos, data: Seq<u8>)
    requires
        is_chunk_of(
            seed,
            ChunkPos::spec_of(p).x as int,
            ChunkPos::spec_of(p).y as int,
            ChunkPos::spec_of(p).z as int,
            data,
        ),
    ensures
        data[crate::coords::spec_chunk_index(p.spec_local())] == terrain_block(
            seed,
            p.x as int,
            p.y as int,
            p.z as int,
        ).id(),
{
    let l = p.spec_local();
    assert(chunk_cell(data, l.x as int, l.y as int, l.z as int) == data[(l.y * 16 + l.z) * 16
        + l.x]);
}

/// Trees grow on grass alone, above the beaches and below the snow, where the
/// ground rises or falls by at most one block; their trunks have four to six.
pub proof fn trees_grow_on_flat_grass(seed: u64, x: int, z: int)
    requires
        tree_of(seed, x, z) is Some,
    ensures
        tree_of(seed, x, z)->0.base == column_height(seed, x, z),
        spec_top_block(column_height(seed, x, z)) == Block::Grass,
        flat(seed, x, z),
        4 <= tree_of(seed, x, z)->0.trunk <= 6,
{
    reveal(tree_of);
    heights_are_bounded(seed, x, z);
}

/// Columns below sea level are filled with water up to one flat surface, over a
/// bed of sand.
pub proof fn lakes_are_filled_to_the_waterline(seed: u64, x: int, y: int, z: int)
    requires
        column_height(seed, x, z) < y <= SEA_LEVEL,
    ensures
        terrain_block(seed, x, y, z) == Block::Water,
        terrain_block(seed, x, column_height(seed, x, z), z) == Block::Sand,
{
    reveal(terrain_block);
    heights_are_bounded(seed, x, z);
}

/// The lowest layer of the world is stone, whatever is carved above it.
pub proof fn the_lowest_layer_is_stone(seed: u64, x: int, z: int)
    ensures
        terrain_block(seed, x, 0, z) == Block::Stone,
{
    reveal(terrain_block);
    heights_are_bounded(seed, x, z);
}

pub(crate) proof fn roots_are_near(seed: u64, x: int, z: int, n: int)
    requires
        -0xF0_0000_0000 <= x <= 0xF0_0000_0000,
        -0xF0_0000_0000 <= z <= 0xF0_0000_0000,
        0 <= n <= 25,
    ensures
        forall|k: int| #![trigger roots_among(seed, x, z, n)[k]]
            0 <= k < roots_among(seed, x, z, n).len() ==> {
                let r = roots_among(seed, x, z, n)[k];
                &&& x - 2 <= r.x <= x + 2
                &&& z - 2 <= r.z <= z + 2
                &&& grassland(r.tree.base as int)
                &&& 4 <= r.tree.trunk <= 6
            },
    decreases n,
{
    if n > 0 {
        roots_are_near(seed, x, z, n - 1);
        let rx = x + (n - 1) % 5 - 2;
        let rz = z + (n - 1) / 5 - 2;
        reveal(tree_of);
        heights_are_bounded(seed, rx, rz);
        let before = roots_among(seed, x, z, n - 1);
        let all = roots_among(seed, x, z, n);
        assert forall|k: int| #![trigger all[k]] 0 <= k < all.len() implies {
            &&& x - 2 <= all[k].x <= x + 2
            &&& z - 2 <= all[k].z <= z + 2
            &&& grassland(all[k].tree.base as int)
            &&& 4 <= all[k].tree.trunk <= 6
        } by {
            if k < before.len() {
                assert(all[k] == before[k]);
            }
        }
    }
}

/// Every column is between 8 and 47 blocks high.
pub proof fn heights_are_bounded(seed: u64, x: int, z: int)
    ensures
        MIN_HEIGHT <= column_height(seed, x, z) <= MAX_HEIGHT,
{
    reveal(column_height);
    noise_is_bounded(seed, HILLS, 32, x, z);
    noise_is_bounded(seed, DETAIL, 8, x, z);
}

pub(crate) proof fn noise_is_bounded(seed: u64, field: u64, n: int, x: int, z: int)
    requires
        spacing(n),
    ensures
        0 <= plane_noise(seed, field, n, x, z) <= 255,
{
    let cx = x / n;
    let cz = z / n;
    let a = lattice(seed, field, cx, 0, cz);
    let b = lattice(seed, field, cx + 1, 0, cz);
    let c = lattice(seed, field, cx, 0, cz + 1);
    let d = lattice(seed, field, cx + 1, 0, cz + 1);
    blend_is_bounded(a, b, x % n, n, 255);
    blend_is_bounded(c, d, x % n, n, 255);
    blend_is_bounded(blend(a, b, x % n, n), blend(c, d, x % n, n), z % n, n, 255 * n);
    let v = layer(seed, field, n, x, 0, z);
    if n == 8 {
        assert(n * n == 64) by (nonlinear_arith)
            requires
                n == 8,
        ;
        assert(0 <= v <= 255 * 64);
    } else {
        assert(n * n == 1024) by (nonlinear_arith)
            requires
                n == 32,
        ;
        assert(0 <= v <= 255 * 1024);
    }
}

} // verus!
