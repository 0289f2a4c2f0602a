//! Block and chunk coordinates, and the layouts of chunk and region buffers.
use vstd::prelude::*;

verus! {

/// Side of a chunk, in blocks.
pub const CHUNK: i32 = 16;

/// Number of blocks in a chunk buffer.
pub const CHUNK_BLOCKS: usize = 4096;

/// Blocks that a region shows beyond its chunk, on every side.
pub const REGION_MARGIN: i32 = 5;

/// Side of a region: a chunk and its margin on both sides.
pub const REGION: i32 = 26;

/// Number of blocks in a region payload.
pub const REGION_BLOCKS: usize = 17576;

/// Height of the world: blocks exist at `0 <= y < WORLD_HEIGHT`.
pub const WORLD_HEIGHT: i32 = 64;

/// Chunk coordinates below this bound (in magnitude) leave room for the
/// coordinates of their blocks and of their margins.
pub const CHUNK_LIMIT: i32 = 134_217_720;

/// The position of one block.
#[derive(Clone, Copy, PartialEq, Eq, Structural, Hash, Debug)]
pub struct BlockPos {
    pub x: i32,
    pub y: i32,
    pub z: i32,
}

/// The position of a chunk, in chunks.
#[derive(Clone, Copy, PartialEq, Eq, Structural, Hash, Debug)]
pub struct ChunkPos {
    pub x: i32,
    pub y: i32,
    pub z: i32,
}

/// `x / 16`, rounded towards minus infinity.
pub fn floor_chunk(x: i32) -> (q: i32)
    ensures
        q == (x as int) / 16,
{
    if x >= 0 {
        x / 16
    } else {
        let n: i64 = -(x as i64);
        let up: i64 = (n + 15) / 16;
        -(up as i32)
    }
}

impl BlockPos {
    pub fn new(x: i32, y: i32, z: i32) -> (p: BlockPos)
        ensures
            p == (BlockPos { x, y, z }),
    {
        BlockPos { x, y, z }
    }

    /// Whether the position is inside the world's height.
    pub open spec fn spec_in_world_y(self) -> bool {
        0 <= self.y < WORLD_HEIGHT
    }

    /// Whether the position is inside the world's height.
    pub fn in_world_y(self) -> (r: bool)
        ensures
            r == self.spec_in_world_y(),
    {
        0 <= self.y && self.y < WORLD_HEIGHT
    }

    /// The position inside its chunk: each coordinate modulo the chunk side.
    pub open spec fn spec_local(self) -> BlockPos {
        BlockPos {
            x: (self.x as int % 16) as i32,
            y: (self.y as int % 16) as i32,
            z: (self.z as int % 16) as i32,
        }
    }

    /// The position inside its chunk: each coordinate modulo the chunk side.
    pub fn local(self) -> (p: BlockPos)
        ensures
            p == self.spec_local(),
            p.in_chunk(),
    {
        let cx: i64 = floor_chunk(self.x) as i64;
        let cy: i64 = floor_chunk(self.y) as i64;
        let cz: i64 = floor_chunk(self.z) as i64;
        BlockPos {
            x: (self.x as i64 - cx * 16) as i32,
            y: (self.y as i64 - cy * 16) as i32,
            z: (self.z as i64 - cz * 16) as i32,
        }
    }

    /// Whether this is a position inside a chunk.
    pub open spec fn in_chunk(self) -> bool {
        0 <= self.x < CHUNK && 0 <= self.y < CHUNK && 0 <= self.z < CHUNK
    }

    /// Whether this is a position inside a region.
    pub open spec fn in_region(self) -> bool {
        0 <= self.x < REGION && 0 <= self.y < REGION && 0 <= self.z < REGION
    }
}

impl ChunkPos {
    pub fn new(x: i32, y: i32, z: i32) -> (c: ChunkPos)
        ensures
            c == (ChunkPos { x, y, z }),
    {
        ChunkPos { x, y, z }
    }

    /// The chunk that holds `p`.
    pub open spec fn spec_of(p: BlockPos) -> ChunkPos {
        ChunkPos {
            x: (p.x as int / 16) as i32,
            y: (p.y as int / 16) as i32,
            z: (p.z as int / 16) as i32,
        }
    }

    /// The chunk that holds `p`.
    pub fn of(p: BlockPos) -> (c: ChunkPos)
        ensures
            c == ChunkPos::spec_of(p),
    {
        ChunkPos { x: floor_chunk(p.x), y: floor_chunk(p.y), z: floor_chunk(p.z) }
    }

    /// Whether the block coordinates of the chunk and of its margin exist.
    pub open spec fn in_limits(self) -> bool {
        &&& -CHUNK_LIMIT <= self.x <= CHUNK_LIMIT
        &&& -CHUNK_LIMIT <= self.y <= CHUNK_LIMIT
        &&& -CHUNK_LIMIT <= self.z <= CHUNK_LIMIT
    }

    /// Whether there are blocks with coordinates in this chunk.
    pub open spec fn has_blocks(self) -> bool {
        &&& -134217728 <= self.x < 134217728
        &&& -134217728 <= self.y < 134217728
        &&& -134217728 <= self.z < 134217728
    }

    /// The block of the chunk with the smallest coordinates.
    pub fn origin(self) -> (p: BlockPos)
        requires
            self.in_limits(),
        ensures
            p == (BlockPos {
                x: (self.x * 16) as i32,
                y: (self.y * 16) as i32,
                z: (self.z * 16) as i32,
            }),
    {
        BlockPos { x: self.x * 16, y: self.y * 16, z: self.z * 16 }
    }

    /// Whether the chunk lies wholly above the world, so that no block can
    /// ever be in it.
    pub open spec fn spec_guaranteed_air(self) -> bool {
        self.y * 16 >= WORLD_HEIGHT
    }

    /// Whether the chunk lies wholly above the world, so that no block can
    /// ever be in it.
    pub fn guaranteed_air(self) -> (r: bool)
        ensures
            r == self.spec_guaranteed_air(),
    {
        self.y >= 4
    }

    /// The block of this chunk whose position inside the chunk is `local`.
    pub open spec fn block_of(self, local: BlockPos) -> BlockPos {
        BlockPos {
            x: (self.x * 16 + local.x) as i32,
            y: (self.y * 16 + local.y) as i32,
            z: (self.z * 16 + local.z) as i32,
        }
    }
}

/// Three coordinates as one number.
pub open spec fn packed(x: i32, y: i32, z: i32) -> u128 {
    (((x + 2147483648) * 4294967296 + (y + 2147483648)) * 4294967296 + (z + 2147483648)) as u128
}

/// The first coordinate of a packed number.
pub open spec fn packed_x(k: u128) -> i32 {
    (k as int / 18446744073709551616 - 2147483648) as i32
}

/// The second coordinate of a packed number.
pub open spec fn packed_y(k: u128) -> i32 {
    (k as int / 4294967296 % 4294967296 - 2147483648) as i32
}

/// The third coordinate of a packed number.
pub open spec fn packed_z(k: u128) -> i32 {
    (k as int % 4294967296 - 2147483648) as i32
}

/// Three coordinates as one number.
pub fn pack(x: i32, y: i32, z: i32) -> (k: u128)
    ensures
        k == packed(x, y, z),
{
    let a: u128 = (x as i64 + 2147483648) as u128;
    let b: u128 = (y as i64 + 2147483648) as u128;
    let c: u128 = (z as i64 + 2147483648) as u128;
    (a * 4294967296 + b) * 4294967296 + c
}

/// Coordinates are found again from the number they were packed into.
pub broadcast proof fn packed_unpacks(x: i32, y: i32, z: i32)
    ensures
        packed_x(#[trigger] packed(x, y, z)) == x,
        packed_y(packed(x, y, z)) == y,
        packed_z(packed(x, y, z)) == z,
{
}

/// Where a block lies in a chunk buffer: x runs fastest, then z, then y.
pub open spec fn spec_chunk_index(p: BlockPos) -> int {
    (p.y * 16 + p.z) * 16 + p.x
}

/// Where a block lies in a chunk buffer: x runs fastest, then z, then y.
pub fn chunk_index(p: BlockPos) -> (i: usize)
    requires
        p.in_chunk(),
    ensures
        i == spec_chunk_index(p),
        i < CHUNK_BLOCKS,
{
    ((p.y * 16 + p.z) * 16 + p.x) as usize
}

/// Where a block lies in a region payload: x runs fastest, then z, then y.
pub open spec fn spec_region_index(p: BlockPos) -> int {
    (p.y * 26 + p.z) * 26 + p.x
}

/// Where a block lies in a region payload: x runs fastest, then z, then y.
pub fn region_index(p: BlockPos) -> (i: usize)
    requires
        p.in_region(),
    ensures
        i == spec_region_index(p),
        i < REGION_BLOCKS,
{
    ((p.y * 26 + p.z) * 26 + p.x) as usize
}

/// A block is found again from its chunk and its position in the chunk.
pub proof fn chunk_and_local_give_the_block(p: BlockPos)
    ensures
        p.spec_local().in_chunk(),
        ChunkPos::spec_of(p).has_blocks(),
        ChunkPos::spec_of(p).block_of(p.spec_local()) == p,
{
}

/// A position of a chunk lies in that chunk, at the place it was taken from.
pub proof fn block_of_chunk_is_in_it(c: ChunkPos, local: BlockPos)
    requires
        c.has_blocks(),
        local.in_chunk(),
    ensures
        ChunkPos::spec_of(c.block_of(local)) == c,
        c.block_of(local).spec_local() == local,
{
}

/// Two positions of a chunk never share a place in its buffer.
pub proof fn chunk_index_is_injective(p: BlockPos, q: BlockPos)
    requires
        p.in_chunk(),
        q.in_chunk(),
        spec_chunk_index(p) == spec_chunk_index(q),
    ensures
        p == q,
{
}

/// Two positions of a region never share a place in its payload.
pub proof fn region_index_is_injective(p: BlockPos, q: BlockPos)
    requires
        p.in_region(),
        q.in_region(),
        spec_region_index(p) == spec_region_index(q),
    ensures
        p == q,
{
}

/// Cells are numbered eastward first, then southward, then upward: 16 to a side in a
/// chunk, and 26 in a region.
pub proof fn cells_are_numbered_in_rows(p: BlockPos)
    ensures
        spec_chunk_index(p) == 256 * p.y + 16 * p.z + p.x,
        spec_region_index(p) == 676 * p.y + 26 * p.z + p.x,
        p.in_chunk() <==> 0 <= p.x < 16 && 0 <= p.y < 16 && 0 <= p.z < 16,
        p.in_region() <==> 0 <= p.x < 26 && 0 <= p.y < 26 && 0 <= p.z < 26,
        p.spec_in_world_y() <==> 0 <= p.y < 64,
{
}

/// A block lies in the chunk that begins at most fifteen blocks before it in every
/// direction. Chunks from the fifth layer up are air.
pub proof fn blocks_lie_in_their_chunk(p: BlockPos, c: ChunkPos)
    ensures
        ChunkPos::spec_of(p) == c <==> 0 <= p.x - 16 * c.x < 16 && 0 <= p.y - 16 * c.y < 16 && 0
            <= p.z - 16 * c.z < 16,
        ChunkPos::spec_of(p) == c ==> p.spec_local().x == p.x - 16 * c.x && p.spec_local().y == p.y
            - 16 * c.y && p.spec_local().z == p.z - 16 * c.z,
        c.spec_guaranteed_air() <==> c.y >= 4,
{
}

} // verus!
