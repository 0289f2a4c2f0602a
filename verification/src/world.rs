//! The world: terrain, overlaid with the edits made to it.
//!
//! Chunks are materialised when they are needed. An edit in a chunk that is not
//! is kept aside until the chunk is. What a block is never depends on any of
//! this: it is the last edit made there, or else what the terrain has.
use std::collections::HashMap;

use vstd::prelude::*;

use crate::block::Block;
use crate::coords;
use crate::coords::{
    chunk_index, pack, BlockPos, ChunkPos, CHUNK, CHUNK_BLOCKS, REGION_BLOCKS, REGION_MARGIN,
};
use crate::terrain;
use crate::terrain::{HeightCache, Tree, WorldGen};

verus! {

broadcast use {vstd::std_specs::hash::group_hash_axioms, crate::coords::packed_unpacks};

/// What is sent to a client of the world.
#[derive(Clone, Debug)]
pub enum WorldUpdate {
    /// The region of a chunk appeared or changed.
    Chunk { pos: ChunkPos, data: Vec<u8> },
}

/// One block changed.
#[derive(Clone, Copy, PartialEq, Eq, Structural, Debug)]
pub struct Edit {
    pub pos: BlockPos,
    pub block: Block,
}

/// The last edit made at a position.
pub open spec fn last_edit(edits: Seq<Edit>, p: BlockPos) -> Option<Block>
    decreases edits.len(),
{
    if edits.len() == 0 {
        None
    } else if edits.last().pos == p {
        Some(edits.last().block)
    } else {
        last_edit(edits.drop_last(), p)
    }
}

/// What a world says.
#[verifier::ext_equal]
pub struct WorldView {
    pub seed: u64,
    /// The edits, oldest first.
    pub edits: Seq<Edit>,
    /// The chunks that are materialised.
    pub chunks: Set<ChunkPos>,
    /// The edited blocks that are kept aside.
    pub pending: Set<BlockPos>,
}

impl WorldView {
    /// The block at a position.
    pub open spec fn content(self, p: BlockPos) -> Block {
        match last_edit(self.edits, p) {
            Some(b) => b,
            None => terrain::terrain_block(self.seed, p.x as int, p.y as int, p.z as int),
        }
    }

    /// Whether a block is known without generating anything.
    pub open spec fn known(self, p: BlockPos) -> bool {
        !p.spec_in_world_y() || self.pending.contains(p) || self.chunks.contains(
            ChunkPos::spec_of(p),
        )
    }

    /// The world once a chunk is asked for: it is materialised, unless it lies
    /// above the world.
    pub open spec fn with_chunk(self, c: ChunkPos) -> WorldView {
        if c.spec_guaranteed_air() {
            self
        } else {
            WorldView { chunks: self.chunks.insert(c), ..self }
        }
    }

    /// The world after an edit. One out of the world's height changes nothing.
    pub open spec fn with_edit(self, p: BlockPos, b: Block) -> WorldView {
        if !p.spec_in_world_y() {
            self
        } else {
            WorldView {
                edits: self.edits.push(Edit { pos: p, block: b }),
                pending: if self.chunks.contains(ChunkPos::spec_of(p)) {
                    self.pending.remove(p)
                } else {
                    self.pending.insert(p)
                },
                ..self
            }
        }
    }

    /// The world once a block is looked at: its chunk is materialised.
    pub open spec fn looked_at(self, p: BlockPos) -> WorldView {
        if p.spec_in_world_y() {
            self.with_chunk(ChunkPos::spec_of(p))
        } else {
            self
        }
    }

    /// The world once the blocks along a walk are looked at, up to its `n`-th step.
    pub open spec fn looked(self, start: BlockPos, steps: Seq<Step>, n: int) -> WorldView
        decreases n + 1,
    {
        if n < 0 {
            self
        } else {
            self.looked(start, steps, n - 1).looked_at(walked(start, steps, n))
        }
    }

    /// The byte of a chunk's region at a place: blocks of chunks that are not
    /// materialised show as air.
    pub open spec fn region_cell(self, c: ChunkPos, x: int, y: int, z: int) -> u8 {
        let p = region_block(c, x, y, z);
        if self.chunks.contains(ChunkPos::spec_of(p)) {
            self.content(p).id()
        } else {
            0
        }
    }
}

/// The block at a place of a chunk's region.
pub open spec fn region_block(c: ChunkPos, x: int, y: int, z: int) -> BlockPos {
    BlockPos {
        x: (c.x * 16 - 5 + x) as i32,
        y: (c.y * 16 - 5 + y) as i32,
        z: (c.z * 16 - 5 + z) as i32,
    }
}

/// The byte at a place of a region payload.
pub open spec fn region_byte(data: Seq<u8>, x: int, y: int, z: int) -> u8 {
    data[(y * 26 + z) * 26 + x]
}

/// Whether no block is edited twice in a list.
pub open spec fn one_per_block(edits: Seq<Edit>) -> bool {
    forall|i: int, j: int|
        0 <= i < edits.len() && 0 <= j < edits.len() && i != j ==> (#[trigger] edits[i]).pos != (
        #[trigger] edits[j]).pos
}

/// Whether two lists leave every block of the world the same.
pub open spec fn same_outcome(a: Seq<Edit>, b: Seq<Edit>) -> bool {
    forall|p: BlockPos|
        p.spec_in_world_y() ==> #[trigger] last_edit(a, p) == last_edit(b, p)
}

/// Whether a position in a chunk lies on one of the chunk's faces.
pub open spec fn on_face(local: BlockPos) -> bool {
    ||| local.x == 0
    ||| local.x == 15
    ||| local.y == 0
    ||| local.y == 15
    ||| local.z == 0
    ||| local.z == 15
}

/// The six chunks against a chunk, but for one below the world.
pub open spec fn neighbours(c: ChunkPos) -> Seq<ChunkPos> {
    let sides = seq![
        ChunkPos { x: (c.x + 1) as i32, ..c },
        ChunkPos { x: (c.x - 1) as i32, ..c },
        ChunkPos { z: (c.z + 1) as i32, ..c },
        ChunkPos { z: (c.z - 1) as i32, ..c },
        ChunkPos { y: (c.y + 1) as i32, ..c },
    ];
    if c.y >= 1 {
        sides.push(ChunkPos { y: (c.y - 1) as i32, ..c })
    } else {
        sides
    }
}

/// The chunks to send again after an edit: the edited one, and those against it
/// where the edit is on one of its faces.
pub open spec fn dirtied(p: BlockPos) -> Seq<ChunkPos> {
    let c = ChunkPos::spec_of(p);
    if !p.spec_in_world_y() {
        Seq::empty()
    } else if on_face(p.spec_local()) {
        seq![c] + neighbours(c)
    } else {
        seq![c]
    }
}

/// The world.
pub struct World {
    gen: WorldGen,
    chunks: HashMap<u128, Vec<u8>>,
    deltas: HashMap<u128, Block>,
    edits: Vec<Edit>,
    heights: HeightCache,
}

spec fn chunk_key(c: ChunkPos) -> u128 {
    coords::packed(c.x, c.y, c.z)
}

spec fn block_key(p: BlockPos) -> u128 {
    coords::packed(p.x, p.y, p.z)
}

spec fn key_chunk(k: u128) -> ChunkPos {
    ChunkPos { x: coords::packed_x(k), y: coords::packed_y(k), z: coords::packed_z(k) }
}

spec fn key_block(k: u128) -> BlockPos {
    BlockPos { x: coords::packed_x(k), y: coords::packed_y(k), z: coords::packed_z(k) }
}

impl View for World {
    type V = WorldView;

    closed spec fn view(&self) -> WorldView {
        WorldView {
            seed: self.gen.spec_seed(),
            edits: self.edits@,
            chunks: Set::new(|c: ChunkPos| self.chunks@.contains_key(chunk_key(c))),
            pending: Set::new(|p: BlockPos| self.deltas@.contains_key(block_key(p))),
        }
    }
}

/// Whether a buffer holds the blocks of a chunk.
spec fn holds(view: WorldView, c: ChunkPos, data: Seq<u8>) -> bool {
    &&& data.len() == CHUNK_BLOCKS
    &&& c.has_blocks() ==> forall|x: int, y: int, z: int|
        0 <= x < 16 && 0 <= y < 16 && 0 <= z < 16 ==> (#[trigger] terrain::chunk_cell(data, x, y, z))
            == view.content(cell_of(c, x, y, z)).id()
}

spec fn cell_of(c: ChunkPos, x: int, y: int, z: int) -> BlockPos {
    BlockPos { x: (c.x * 16 + x) as i32, y: (c.y * 16 + y) as i32, z: (c.z * 16 + z) as i32 }
}

impl World {
    /// Whether buffers, pending edits and history agree.
    pub closed spec fn wf(self) -> bool {
        &&& self.heights.agrees(self.gen.spec_seed())
        &&& forall|i: int| 0 <= i < self.edits@.len() ==> (
        #[trigger] self.edits@[i]).pos.spec_in_world_y()
        &&& forall|k: u128| #[trigger]
            self.chunks@.contains_key(k) ==> chunk_key(key_chunk(k)) == k && holds(
                self@,
                key_chunk(k),
                self.chunks@[k]@,
            )
        &&& forall|k: u128| #[trigger]
            self.deltas@.contains_key(k) ==> block_key(key_block(k)) == k && last_edit(
                self.edits@,
                key_block(k),
            ) == Some(self.deltas@[k])
        &&& forall|p: BlockPos|
            (#[trigger] last_edit(self.edits@, p)) is Some ==> self.deltas@.contains_key(
                block_key(p),
            ) || self.chunks@.contains_key(chunk_key(ChunkPos::spec_of(p)))
    }

    /// A world of a seed, with nothing materialised and nothing edited.
    pub fn new(seed: u64) -> (w: World)
        ensures
            w.wf(),
            w@ == (WorldView {
                seed,
                edits: Seq::empty(),
                chunks: Set::empty(),
                pending: Set::empty(),
            }),
    {
        let w = World {
            gen: WorldGen::new(seed),
            chunks: HashMap::new(),
            deltas: HashMap::new(),
            edits: Vec::new(),
            heights: HeightCache::new(),
        };
        assert(w@.chunks =~= Set::<ChunkPos>::empty());
        assert(w@.pending =~= Set::<BlockPos>::empty());
        w
    }

    /// The tree rooted in a column, if any.
    pub fn tree_at(&self, x: i32, z: i32) -> (t: Option<Tree>)
        ensures
            t == terrain::tree_of(self@.seed, x as int, z as int),
    {
        self.gen.tree_at(x, z)
    }

    /// The height of a column of the terrain.
    pub fn height_at(&self, x: i32, z: i32) -> (h: i32)
        ensures
            h == terrain::column_height(self@.seed, x as int, z as int),
            terrain::MIN_HEIGHT <= h <= terrain::MAX_HEIGHT,
    {
        self.gen.height(x, z)
    }

    /// Whether a chunk is materialised.
    pub fn contains(&self, c: &ChunkPos) -> (r: bool)
        ensures
            r == self@.chunks.contains(*c),
    {
        self.chunks.contains_key(&pack(c.x, c.y, c.z))
    }

    /// The edits made so far, oldest first.
    pub fn edits(&self) -> (r: &[Edit])
        ensures
            r@ == self@.edits,
    {
        self.edits.as_slice()
    }
}

impl World {
    /// The edited blocks, each once, as they are now.
    pub fn overrides(&self) -> (r: Vec<Edit>)
        requires
            self.wf(),
        ensures
            one_per_block(r@),
            forall|i: int| 0 <= i < r@.len() ==> (#[trigger] r@[i]).pos.spec_in_world_y(),
            same_outcome(r@, self@.edits),
    {
        let ghost edits = self.edits@;
        let mut seen: HashMap<u128, bool> = HashMap::new();
        let mut out: Vec<Edit> = Vec::new();
        let mut i: usize = self.edits.len();
        assert(edits.take(i as int) =~= edits);
        while i > 0
            invariant
                i <= edits.len(),
                edits == self.edits@,
                self.wf(),
                one_per_block(out@),
                forall|k: int| 0 <= k < out@.len() ==> (#[trigger] out@[k]).pos.spec_in_world_y(),
                forall|k: int|
                    0 <= k < out@.len() ==> seen@.contains_key(block_key((#[trigger] out@[k]).pos)),
                forall|p: BlockPos|
                    #[trigger] last_edit(edits, p) == (if seen@.contains_key(block_key(p)) {
                        last_edit(out@, p)
                    } else {
                        last_edit(edits.take(i as int), p)
                    }),
            decreases i,
        {
            i = i - 1;
            let e = self.edits[i];
            let key: u128 = pack(e.pos.x, e.pos.y, e.pos.z);
            let ghost longer = edits.take(i as int + 1);
            assert(longer.drop_last() =~= edits.take(i as int));
            assert(longer.last() == e);
            assert(key == block_key(e.pos));
            if seen.contains_key(&key) {
                assert forall|p: BlockPos|
                    #[trigger] last_edit(edits, p) == (if seen@.contains_key(block_key(p)) {
                        last_edit(out@, p)
                    } else {
                        last_edit(edits.take(i as int), p)
                    }) by {
                    if !seen@.contains_key(block_key(p)) {
                        assert(p != e.pos);
                    }
                }
            } else {
                let ghost before = out@;
                let ghost known = seen@;
                seen.insert(key, true);
                out.push(e);
                assert(out@.drop_last() =~= before);
                assert forall|p: BlockPos|
                    #[trigger] last_edit(edits, p) == (if seen@.contains_key(block_key(p)) {
                        last_edit(out@, p)
                    } else {
                        last_edit(edits.take(i as int), p)
                    }) by {
                    if p != e.pos {
                        assert(block_key(p) != key) by {
                            assert(key_block(block_key(p)) == p && key_block(block_key(e.pos))
                                == e.pos);
                        }
                    }
                }
                assert forall|a: int, b: int|
                    0 <= a < out@.len() && 0 <= b < out@.len() && a != b implies (
                #[trigger] out@[a]).pos != (#[trigger] out@[b]).pos by {
                    if a < before.len() {
                        assert(before[a] == out@[a]);
                        assert(known.contains_key(block_key(before[a].pos)));
                    }
                    if b < before.len() {
                        assert(before[b] == out@[b]);
                        assert(known.contains_key(block_key(before[b].pos)));
                    }
                }
            }
        }
        assert forall|p: BlockPos| p.spec_in_world_y() implies #[trigger] last_edit(out@, p)
            == last_edit(self@.edits, p) by {
            assert(edits.take(0).len() == 0);
            assert(last_edit(edits, p) == (if seen@.contains_key(block_key(p)) {
                last_edit(out@, p)
            } else {
                last_edit(edits.take(0), p)
            }));
            if !seen@.contains_key(block_key(p)) {
                never_edited(out@, p, seen@);
            }
        }
        out
    }

    /// A world of a seed with edits made to it. Those out of the world's height are
    /// left out.
    pub fn load(seed: u64, edits: &[Edit]) -> (w: World)
        ensures
            w.wf(),
            w@.seed == seed,
            w@.chunks == Set::<ChunkPos>::empty(),
            same_outcome(w@.edits, edits@),
            (forall|i: int| 0 <= i < edits@.len() ==> (#[trigger] edits@[i]).pos.spec_in_world_y())
                ==> w@.edits == edits@,
            forall|p: BlockPos|
                p.spec_in_world_y() && #[trigger] last_edit(edits@, p) is Some ==> w@.known(p),
    {
        let mut w = World::new(seed);
        let mut k: usize = 0;
        assert(edits@.take(0) =~= Seq::<Edit>::empty());
        while k < edits.len()
            invariant
                k <= edits@.len(),
                w.wf(),
                w@.seed == seed,
                w@.chunks == Set::<ChunkPos>::empty(),
                same_outcome(w@.edits, edits@.take(k as int)),
                (forall|i: int|
                    0 <= i < edits@.len() ==> (#[trigger] edits@[i]).pos.spec_in_world_y())
                    ==> w@.edits == edits@.take(k as int),
            decreases edits@.len() - k,
        {
            let e = edits[k];
            let ghost before = w@.edits;
            let ghost part = edits@.take(k as int);
            let _ = w.set_block(e.pos, e.block);
            proof {
                let next = edits@.take(k as int + 1);
                assert(next =~= part.push(e));
                assert(next.drop_last() =~= part);
                assert(before.push(Edit { pos: e.pos, block: e.block }).drop_last() =~= before);
                assert forall|p: BlockPos| p.spec_in_world_y() implies #[trigger] last_edit(
                    w@.edits,
                    p,
                ) == last_edit(next, p) by {
                    assert(last_edit(before, p) == last_edit(part, p));
                }
            }
            k = k + 1;
        }
        assert(edits@.take(k as int) =~= edits@);
        w
    }
}

proof fn never_edited(edits: Seq<Edit>, p: BlockPos, seen: Map<u128, bool>)
    requires
        forall|k: int|
            0 <= k < edits.len() ==> seen.contains_key(block_key((#[trigger] edits[k]).pos)),
        !seen.contains_key(block_key(p)),
    ensures
        last_edit(edits, p) is None,
    decreases edits.len(),
{
    if edits.len() > 0 {
        assert(seen.contains_key(block_key(edits[edits.len() - 1].pos)));
        let init = edits.drop_last();
        assert forall|k: int| 0 <= k < init.len() implies seen.contains_key(
            block_key((#[trigger] init[k]).pos),
        ) by {
            assert(init[k] == edits[k]);
        }
        never_edited(init, p, seen);
    }
}

impl World {
    /// Number of chunks that are materialised.
    pub fn chunks_generated(&self) -> (n: usize)
        requires
            self.wf(),
        ensures
            self@.chunks.finite(),
            n == self@.chunks.len(),
    {
        proof {
            let keys = self.chunks@.dom();
            let f = |k: u128| key_chunk(k);
            assert(vstd::relations::injective_on(f, keys)) by {
                assert forall|a: u128, b: u128|
                    keys.contains(a) && keys.contains(b) && #[trigger] f(a) == #[trigger] f(
                        b,
                    ) implies a == b by {
                    assert(self.chunks@.contains_key(a) && self.chunks@.contains_key(b));
                }
            }
            assert(keys.map(f) =~= self@.chunks) by {
                assert forall|c: ChunkPos| self@.chunks.contains(c) implies keys.map(f).contains(
                    c,
                ) by {
                    assert(keys.contains(chunk_key(c)) && f(chunk_key(c)) == c);
                }
                assert forall|c: ChunkPos| keys.map(f).contains(c) implies self@.chunks.contains(
                    c,
                ) by {
                    let k = choose|k: u128| keys.contains(k) && f(k) == c;
                    assert(self.chunks@.contains_key(k));
                }
            }
            vstd::set_lib::lemma_map_size(keys, self@.chunks, f);
        }
        self.chunks.len()
    }

    /// Number of edited blocks that are kept aside.
    pub fn delta_count(&self) -> (n: usize)
        requires
            self.wf(),
        ensures
            self@.pending.finite(),
            n == self@.pending.len(),
    {
        proof {
            let keys = self.deltas@.dom();
            let f = |k: u128| key_block(k);
            assert(vstd::relations::injective_on(f, keys)) by {
                assert forall|a: u128, b: u128|
                    keys.contains(a) && keys.contains(b) && #[trigger] f(a) == #[trigger] f(
                        b,
                    ) implies a == b by {
                    assert(self.deltas@.contains_key(a) && self.deltas@.contains_key(b));
                }
            }
            assert(keys.map(f) =~= self@.pending) by {
                assert forall|p: BlockPos| self@.pending.contains(p) implies keys.map(f).contains(
                    p,
                ) by {
                    assert(keys.contains(block_key(p)) && f(block_key(p)) == p);
                }
                assert forall|p: BlockPos| keys.map(f).contains(p) implies self@.pending.contains(
                    p,
                ) by {
                    let k = choose|k: u128| keys.contains(k) && f(k) == p;
                    assert(self.deltas@.contains_key(k));
                }
            }
            vstd::set_lib::lemma_map_size(keys, self@.pending, f);
        }
        self.deltas.len()
    }

    /// The buffer of a chunk that is not materialised yet: its terrain, and the
    /// edits kept aside for it.
    fn build(&mut self, c: ChunkPos) -> (data: Vec<u8>)
        requires
            old(self).wf(),
            !old(self)@.chunks.contains(c),
            0 <= c.y < 4,
        ensures
            final(self).wf(),
            final(self)@ == old(self)@,
            final(self).chunks@ == old(self).chunks@,
            final(self).deltas@ == old(self).deltas@,
            holds(old(self)@, c, data@),
    {
        let ghost view = self@;
        let mut data = self.gen.generate_chunk_cached(c.x, c.y, c.z, &mut self.heights);
        assert(self@ =~= view);
        if c.x < -134217728 || c.x >= 134217728 || c.z < -134217728 || c.z >= 134217728 {
            return data;
        }
        let ghost plain = data@;
        let mut i: usize = 0;
        while i < CHUNK_BLOCKS
            invariant
                i <= CHUNK_BLOCKS,
                self.wf(),
                self@ == view,
                view == old(self)@,
                self.chunks@ == old(self).chunks@,
                self.deltas@ == old(self).deltas@,
                !self@.chunks.contains(c),
                c.has_blocks(),
                0 <= c.y < 4,
                terrain::is_chunk_of(view.seed, c.x as int, c.y as int, c.z as int, plain),
                data@.len() == CHUNK_BLOCKS,
                forall|x: int, y: int, z: int|
                    0 <= x < 16 && 0 <= y < 16 && 0 <= z < 16 ==> (#[trigger] terrain::chunk_cell(
                        data@,
                        x,
                        y,
                        z,
                    )) == (if (y * 16 + z) * 16 + x < i {
                        view.content(cell_of(c, x, y, z)).id()
                    } else {
                        terrain::chunk_cell(plain, x, y, z)
                    }),
            decreases CHUNK_BLOCKS - i,
        {
            let x: i32 = (i % 16) as i32;
            let z: i32 = (i / 16 % 16) as i32;
            let y: i32 = (i / 256) as i32;
            let px: i32 = c.x * 16 + x;
            let py: i32 = c.y * 16 + y;
            let pz: i32 = c.z * 16 + z;
            let ghost p = cell_of(c, x as int, y as int, z as int);
            let ghost before = data@;
            proof {
                coords::block_of_chunk_is_in_it(c, BlockPos { x, y, z });
                assert(ChunkPos::spec_of(p) == c);
                assert(p == BlockPos { x: px, y: py, z: pz });
                assert(block_key(p) == coords::packed(px, py, pz));
                assert(key_block(block_key(p)) == p);
                assert(last_edit(view.edits, p) is Some ==> self.deltas@.contains_key(
                    block_key(p),
                ));
                assert((y * 16 + z) * 16 + x == i);
                assert(terrain::chunk_cell(plain, x as int, y as int, z as int)
                    == terrain::terrain_block(
                    view.seed,
                    px as int,
                    py as int,
                    pz as int,
                ).id());
                assert(terrain::chunk_cell(before, x as int, y as int, z as int)
                    == terrain::chunk_cell(plain, x as int, y as int, z as int));
            }
            match self.deltas.get(&pack(px, py, pz)) {
                Some(b) => {
                    let id: u8 = b.as_u8();
                    data.set(i, id);
                },
                None => {},
            }
            proof {
                assert(data@[i as int] == view.content(p).id());
                assert forall|a: int, b: int, d: int|
                    0 <= a < 16 && 0 <= b < 16 && 0 <= d < 16 implies (
                #[trigger] terrain::chunk_cell(data@, a, b, d)) == (if (b * 16 + d) * 16 + a < i
                    + 1 {
                    view.content(cell_of(c, a, b, d)).id()
                } else {
                    terrain::chunk_cell(plain, a, b, d)
                }) by {
                    let old_cell = terrain::chunk_cell(before, a, b, d);
                    if (b * 16 + d) * 16 + a == i {
                        assert(a == x && b == y && d == z);
                    }
                }
            }
            i = i + 1;
        }
        data
    }

    /// Puts a buffer in place for a chunk.
    fn put(&mut self, c: ChunkPos, data: Vec<u8>)
        requires
            old(self).wf(),
            !old(self)@.chunks.contains(c),
            holds(old(self)@, c, data@),
        ensures
            final(self).wf(),
            final(self)@ == (WorldView { chunks: old(self)@.chunks.insert(c), ..old(self)@ }),
            final(self).chunks@ == old(self).chunks@.insert(chunk_key(c), data),
    {
        self.chunks.insert(pack(c.x, c.y, c.z), data);
        proof {
            assert(self@.chunks =~= old(self)@.chunks.insert(c)) by {
                assert forall|d: ChunkPos| self@.chunks.contains(d) implies old(self)@.chunks.insert(c).contains(d) by {
                    if chunk_key(d) == chunk_key(c) {
                        assert(key_chunk(chunk_key(d)) == d && key_chunk(chunk_key(c)) == c);
                    }
                }
            }
            assert(self@.pending =~= old(self)@.pending);
            assert(forall|p: BlockPos| self@.content(p) == old(self)@.content(p));
            assert forall|k: u128| #[trigger] self.chunks@.contains_key(k) implies chunk_key(
                key_chunk(k),
            ) == k && holds(self@, key_chunk(k), self.chunks@[k]@) by {
                if k == chunk_key(c) {
                    assert(key_chunk(k) == c);
                } else {
                    assert(old(self).chunks@.contains_key(k));
                }
            }
        }
    }

    /// Materialises a chunk, unless it is or lies above the world.
    pub fn generate(&mut self, c: ChunkPos)
        requires
            old(self).wf(),
        ensures
            final(self).wf(),
            final(self)@ == old(self)@.with_chunk(c),
    {
        if self.chunks.contains_key(&pack(c.x, c.y, c.z)) {
            assert(self@.chunks.contains(c));
            assert(self@.chunks.insert(c) =~= self@.chunks);
            return;
        }
        if c.guaranteed_air() {
            return;
        }
        if c.y < 0 {
            let data: Vec<u8> = vec![0u8; CHUNK_BLOCKS];
            proof {
                assert forall|x: int, y: int, z: int|
                    c.has_blocks() && 0 <= x < 16 && 0 <= y < 16 && 0 <= z < 16 implies (
                #[trigger] terrain::chunk_cell(data@, x, y, z)) == self@.content(
                    cell_of(c, x, y, z),
                ).id() by {
                    self.out_of_world_is_air(cell_of(c, x, y, z));
                }
            }
            self.put(c, data);
            return;
        }
        let data = self.build(c);
        self.put(c, data);
    }

    proof fn out_of_world_is_air(self, p: BlockPos)
        requires
            self.wf(),
            !p.spec_in_world_y(),
        ensures
            self@.content(p) == Block::Air,
    {
        reveal(terrain::terrain_block);
        no_edit_out_of_world(self.edits@, p);
    }

    /// The block at a position; its chunk is materialised on demand.
    pub fn block_at(&mut self, pos: BlockPos) -> (b: Block)
        requires
            old(self).wf(),
        ensures
            final(self).wf(),
            b == old(self)@.content(pos),
            final(self)@ == old(self)@.looked_at(pos),
    {
        if !pos.in_world_y() {
            proof {
                self.out_of_world_is_air(pos);
            }
            return Block::Air;
        }
        let c = ChunkPos::of(pos);
        self.generate(c);
        let ghost held = self@;
        proof {
            coords::chunk_and_local_give_the_block(pos);
            assert(held.chunks.contains(c));
            assert(held.content(pos) == old(self)@.content(pos));
        }
        self.read(pos)
    }

    /// Reads a block of a materialised chunk.
    fn read(&self, pos: BlockPos) -> (b: Block)
        requires
            self.wf(),
            self@.chunks.contains(ChunkPos::spec_of(pos)),
        ensures
            b == self@.content(pos),
    {
        let c = ChunkPos::of(pos);
        let local = pos.local();
        proof {
            coords::chunk_and_local_give_the_block(pos);
            crate::block::ids_and_blocks_correspond();
            assert(self.chunks@.contains_key(chunk_key(c)));
            assert(key_chunk(chunk_key(c)) == c);
            let cell = terrain::chunk_cell(
                self.chunks@[chunk_key(c)]@,
                local.x as int,
                local.y as int,
                local.z as int,
            );
            assert(cell_of(c, local.x as int, local.y as int, local.z as int) == pos);
            assert(Block::spec_from_u8(self@.content(pos).id()) == self@.content(pos));
        }
        match self.chunks.get(&pack(c.x, c.y, c.z)) {
            Some(data) => Block::from_u8(data[chunk_index(local)]),
            None => Block::Air,
        }
    }

    /// The block at a position, without generating anything; `None` where it is
    /// not known.
    pub fn block_at_opt(&self, pos: BlockPos) -> (r: Option<Block>)
        requires
            self.wf(),
        ensures
            r == (if self@.known(pos) {
                Some(self@.content(pos))
            } else {
                None
            }),
    {
        if !pos.in_world_y() {
            proof {
                self.out_of_world_is_air(pos);
            }
            return Some(Block::Air);
        }
        match self.deltas.get(&pack(pos.x, pos.y, pos.z)) {
            Some(b) => {
                assert(key_block(block_key(pos)) == pos);
                assert(self@.pending.contains(pos));
                return Some(*b);
            },
            None => {},
        }
        let c = ChunkPos::of(pos);
        if self.chunks.contains_key(&pack(c.x, c.y, c.z)) {
            assert(self@.chunks.contains(c));
            Some(self.read(pos))
        } else {
            None
        }
    }
}

proof fn no_edit_out_of_world(edits: Seq<Edit>, p: BlockPos)
    requires
        forall|i: int| 0 <= i < edits.len() ==> (#[trigger] edits[i]).pos.spec_in_world_y(),
        !p.spec_in_world_y(),
    ensures
        last_edit(edits, p) is None,
    decreases edits.len(),
{
    if edits.len() > 0 {
        assert(edits.last() == edits[edits.len() - 1]);
        let init = edits.drop_last();
        assert forall|i: int| 0 <= i < init.len() implies (
        #[trigger] init[i]).pos.spec_in_world_y() by {
            assert(init[i] == edits[i]);
        }
        no_edit_out_of_world(init, p);
    }
}

/// One step of a walk from block to block.
#[derive(Clone, Copy, PartialEq, Eq, Structural, Debug)]
pub enum Step {
    East,
    West,
    Up,
    Down,
    South,
    North,
}

/// Where a step leads; a coordinate that cannot move stays.
pub open spec fn stepped(p: BlockPos, s: Step) -> BlockPos {
    match s {
        Step::East => BlockPos { x: up(p.x), ..p },
        Step::West => BlockPos { x: down(p.x), ..p },
        Step::Up => BlockPos { y: up(p.y), ..p },
        Step::Down => BlockPos { y: down(p.y), ..p },
        Step::South => BlockPos { z: up(p.z), ..p },
        Step::North => BlockPos { z: down(p.z), ..p },
    }
}

pub open spec fn up(v: i32) -> i32 {
    if v < i32::MAX {
        (v + 1) as i32
    } else {
        v
    }
}

pub open spec fn down(v: i32) -> i32 {
    if v > i32::MIN {
        (v - 1) as i32
    } else {
        v
    }
}

/// The block where a walk stands after its first `n` steps.
pub open spec fn walked(start: BlockPos, steps: Seq<Step>, n: int) -> BlockPos
    decreases n,
{
    if n <= 0 {
        start
    } else {
        stepped(walked(start, steps, n - 1), steps[n - 1])
    }
}

fn raised(v: i32) -> (r: i32)
    ensures
        r == up(v),
{
    if v < i32::MAX {
        v + 1
    } else {
        v
    }
}

fn lowered(v: i32) -> (r: i32)
    ensures
        r == down(v),
{
    if v > i32::MIN {
        v - 1
    } else {
        v
    }
}

fn step_from(p: BlockPos, s: Step) -> (r: BlockPos)
    ensures
        r == stepped(p, s),
{
    match s {
        Step::East => BlockPos { x: raised(p.x), ..p },
        Step::West => BlockPos { x: lowered(p.x), ..p },
        Step::Up => BlockPos { y: raised(p.y), ..p },
        Step::Down => BlockPos { y: lowered(p.y), ..p },
        Step::South => BlockPos { z: raised(p.z), ..p },
        Step::North => BlockPos { z: lowered(p.z), ..p },
    }
}

impl World {
    /// Changes a block. Returns the chunks to send again.
    pub fn set_block(&mut self, pos: BlockPos, block: Block) -> (dirty: Vec<ChunkPos>)
        requires
            old(self).wf(),
        ensures
            final(self).wf(),
            final(self)@ == old(self)@.with_edit(pos, block),
            dirty@ == dirtied(pos),
    {
        if !pos.in_world_y() {
            return Vec::new();
        }
        let c = ChunkPos::of(pos);
        let local = pos.local();
        proof {
            coords::chunk_and_local_give_the_block(pos);
        }
        self.apply(pos, block);
        let mut dirty: Vec<ChunkPos> = Vec::new();
        dirty.push(c);
        let near_border: bool = local.x == 0 || local.x == CHUNK - 1 || local.z == 0 || local.z
            == CHUNK - 1 || local.y == 0 || local.y == CHUNK - 1;
        if near_border {
            dirty.push(ChunkPos { x: c.x + 1, ..c });
            dirty.push(ChunkPos { x: c.x - 1, ..c });
            dirty.push(ChunkPos { z: c.z + 1, ..c });
            dirty.push(ChunkPos { z: c.z - 1, ..c });
            dirty.push(ChunkPos { y: c.y + 1, ..c });
            if c.y >= 1 {
                dirty.push(ChunkPos { y: c.y - 1, ..c });
            }
        }
        assert(dirty@ =~= dirtied(pos));
        dirty
    }

    /// Records an edit, in the chunk's buffer where there is one, else aside.
    fn apply(&mut self, pos: BlockPos, block: Block)
        requires
            old(self).wf(),
            pos.spec_in_world_y(),
        ensures
            final(self).wf(),
            final(self)@ == old(self)@.with_edit(pos, block),
    {
        let ghost before = *self;
        let ghost edit = Edit { pos, block };
        let c = ChunkPos::of(pos);
        let local = pos.local();
        proof {
            coords::chunk_and_local_give_the_block(pos);
            assert(cell_of(c, local.x as int, local.y as int, local.z as int) == pos);
        }
        self.edits.push(edit_of(pos, block));
        let ghost edits = self.edits@;
        proof {
            assert(edits.drop_last() =~= before.edits@);
            assert(forall|p: BlockPos|
                #[trigger] last_edit(edits, p) == (if p == pos {
                    Some(block)
                } else {
                    last_edit(before.edits@, p)
                }));
        }
        let key: u128 = pack(c.x, c.y, c.z);
        let spot: u128 = pack(pos.x, pos.y, pos.z);
        assert(key_block(spot) == pos && spot == block_key(pos));
        assert(key_chunk(key) == c && key == chunk_key(c));
        match self.chunks.remove(&key) {
            Some(mut data) => {
                assert(before@.chunks.contains(c));
                assert(before.chunks@.contains_key(key));
                assert(holds(before@, c, data@));
                let ghost was = data@;
                data.set(chunk_index(local), block.as_u8());
                let ghost now = data@;
                self.chunks.insert(key, data);
                self.deltas.remove(&spot);
                proof {
                    assert(self@ =~= before@.with_edit(pos, block)) by {
                        assert(self@.chunks =~= before@.chunks);
                        assert forall|p: BlockPos| self@.pending.contains(p) == (
                        before@.pending.contains(p) && p != pos) by {
                            if block_key(p) == spot {
                                assert(key_block(block_key(p)) == p);
                            }
                        }
                        assert(self@.pending =~= before@.pending.remove(pos));
                    }
                    assert forall|x: int, y: int, z: int|
                        0 <= x < 16 && 0 <= y < 16 && 0 <= z < 16 implies (
                    #[trigger] terrain::chunk_cell(now, x, y, z)) == self@.content(
                        cell_of(c, x, y, z),
                    ).id() by {
                        let old_cell = terrain::chunk_cell(was, x, y, z);
                        let q = BlockPos { x: x as i32, y: y as i32, z: z as i32 };
                        coords::block_of_chunk_is_in_it(c, q);
                        if coords::spec_chunk_index(q) == coords::spec_chunk_index(local) {
                            coords::chunk_index_is_injective(q, local);
                        }
                    }
                    assert forall|k: u128| #[trigger] self.chunks@.contains_key(k) implies
                        chunk_key(key_chunk(k)) == k && holds(
                        self@,
                        key_chunk(k),
                        self.chunks@[k]@,
                    ) by {
                        if k != key {
                            assert(before.chunks@.contains_key(k));
                            other_chunks_keep(before@, self@, key_chunk(k), pos, block);
                        }
                    }
                    assert forall|k: u128| #[trigger] self.deltas@.contains_key(k) implies
                        block_key(key_block(k)) == k && last_edit(self.edits@, key_block(k))
                        == Some(self.deltas@[k]) by {
                        assert(before.deltas@.contains_key(k));
                    }
                    assert forall|p: BlockPos| (#[trigger] last_edit(self.edits@, p)) is Some
                        implies self.deltas@.contains_key(block_key(p))
                        || self.chunks@.contains_key(chunk_key(ChunkPos::spec_of(p))) by {
                        if p != pos {
                            assert(last_edit(before.edits@, p) is Some);
                            if block_key(p) == spot {
                                assert(key_block(block_key(p)) == p);
                            }
                        }
                    }
                }
            },
            None => {
                assert(self.chunks@ =~= before.chunks@);
                assert(!before@.chunks.contains(c));
                self.deltas.insert(spot, block);
                proof {
                    assert(self@ =~= before@.with_edit(pos, block)) by {
                        assert(self@.chunks =~= before@.chunks);
                        assert forall|p: BlockPos| self@.pending.contains(p) == (
                        before@.pending.contains(p) || p == pos) by {
                            if block_key(p) == spot {
                                assert(key_block(block_key(p)) == p);
                            }
                        }
                        assert(self@.pending =~= before@.pending.insert(pos));
                    }
                    assert forall|k: u128| #[trigger] self.chunks@.contains_key(k) implies
                        chunk_key(key_chunk(k)) == k && holds(
                        self@,
                        key_chunk(k),
                        self.chunks@[k]@,
                    ) by {
                        assert(before.chunks@.contains_key(k));
                        assert(k != key);
                        other_chunks_keep(before@, self@, key_chunk(k), pos, block);
                    }
                    assert forall|k: u128| #[trigger] self.deltas@.contains_key(k) implies
                        block_key(key_block(k)) == k && last_edit(self.edits@, key_block(k))
                        == Some(self.deltas@[k]) by {
                        if k != spot {
                            assert(before.deltas@.contains_key(k));
                            assert(key_block(k) != pos);
                        }
                    }
                    assert forall|p: BlockPos| (#[trigger] last_edit(self.edits@, p)) is Some
                        implies self.deltas@.contains_key(block_key(p))
                        || self.chunks@.contains_key(chunk_key(ChunkPos::spec_of(p))) by {
                        if p != pos {
                            assert(last_edit(before.edits@, p) is Some);
                        }
                    }
                }
            },
        }
    }

    /// The payload of a chunk's region: its blocks and those around it, as far as
    /// their chunks are materialised.
    pub fn region(&self, c: ChunkPos) -> (out: Vec<u8>)
        requires
            self.wf(),
            c.in_limits(),
        ensures
            out@.len() == REGION_BLOCKS,
            forall|x: int, y: int, z: int|
                0 <= x < 26 && 0 <= y < 26 && 0 <= z < 26 ==> (#[trigger] region_byte(
                    out@,
                    x,
                    y,
                    z,
                )) == self@.region_cell(c, x, y, z),
    {
        let mut out: Vec<u8> = vec![0u8; REGION_BLOCKS];
        let mut row: usize = 0;
        while row < 676
            invariant
                row <= 676,
                self.wf(),
                c.in_limits(),
                out@.len() == REGION_BLOCKS,
                forall|i: int|
                    0 <= i < row * 26 ==> #[trigger] out@[i] == self@.region_cell(
                        c,
                        i % 26,
                        i / 676,
                        i / 26 % 26,
                    ),
                forall|i: int| row * 26 <= i < REGION_BLOCKS ==> #[trigger] out@[i] == 0,
            decreases 676 - row,
        {
            self.copy_segment(&mut out, c, row, 0, 5);
            self.copy_segment(&mut out, c, row, 5, 16);
            self.copy_segment(&mut out, c, row, 21, 5);
            row = row + 1;
        }
        proof {
            assert forall|x: int, y: int, z: int|
                0 <= x < 26 && 0 <= y < 26 && 0 <= z < 26 implies (#[trigger] region_byte(
                out@,
                x,
                y,
                z,
            )) == self@.region_cell(c, x, y, z) by {
                let i = (y * 26 + z) * 26 + x;
                assert(i % 26 == x && i / 676 == y && i / 26 % 26 == z);
            }
        }
        out
    }

    /// Copies the part of a region's row that one chunk covers.
    #[verifier::rlimit(60)]
    #[verifier::spinoff_prover]
    fn copy_segment(&self, out: &mut Vec<u8>, c: ChunkPos, row: usize, from: usize, len: usize)
        requires
            self.wf(),
            c.in_limits(),
            row < 676,
            (from == 0 && len == 5) || (from == 5 && len == 16) || (from == 21 && len == 5),
            old(out)@.len() == REGION_BLOCKS,
            forall|i: int| 0 <= i < row * 26 + from ==> #[trigger] old(out)@[i]
                == self@.region_cell(c, i % 26, i / 676, i / 26 % 26),
            forall|i: int| row * 26 + from <= i < REGION_BLOCKS ==> #[trigger] old(out)@[i] == 0,
        ensures
            final(out)@.len() == REGION_BLOCKS,
            forall|i: int| 0 <= i < row * 26 + from + len ==> #[trigger] final(out)@[i]
                == self@.region_cell(c, i % 26, i / 676, i / 26 % 26),
            forall|i: int|
                row * 26 + from + len <= i < REGION_BLOCKS ==> #[trigger] final(out)@[i] == 0,
    {
        let y: i32 = (row / 26) as i32;
        let z: i32 = (row % 26) as i32;
        let first = BlockPos {
            x: c.x * 16 - REGION_MARGIN + from as i32,
            y: c.y * 16 - REGION_MARGIN + y,
            z: c.z * 16 - REGION_MARGIN + z,
        };
        let nc = ChunkPos::of(first);
        let local = first.local();
        let start: usize = chunk_index(local);
        let base: usize = row * 26 + from;
        proof {
            coords::chunk_and_local_give_the_block(first);
            assert(local.x + len <= 16);
        }
        match self.chunks.get(&pack(nc.x, nc.y, nc.z)) {
            Some(data) => {
                proof {
                    assert(self.chunks@.contains_key(chunk_key(nc)));
                    assert(key_chunk(chunk_key(nc)) == nc);
                    assert(self@.chunks.contains(nc));
                }
                let mut k: usize = 0;
                while k < len
                    invariant
                        k <= len,
                        row < 676,
                        base == row * 26 + from,
                        base + len <= (row + 1) * 26,
                        c.in_limits(),
                        y == row / 26,
                        z == row % 26,
                        first == region_block(c, from as int, y as int, z as int),
                        nc == ChunkPos::spec_of(first),
                        nc.has_blocks(),
                        local == first.spec_local(),
                        local.in_chunk(),
                        start == coords::spec_chunk_index(local),
                        local.x + len <= 16,
                        self@.chunks.contains(nc),
                        holds(self@, nc, data@),
                        out@.len() == REGION_BLOCKS,
                        from + len <= 26,
                        forall|i: int| 0 <= i < base + k ==> #[trigger] out@[i]
                            == self@.region_cell(c, i % 26, i / 676, i / 26 % 26),
                        forall|i: int|
                            base + k <= i < REGION_BLOCKS ==> #[trigger] out@[i] == 0,
                    decreases len - k,
                {
                    let ghost before = out@;
                    out.set(base + k, data[start + k]);
                    proof {
                        let i = base + k;
                        let p = region_block(c, from + k, y as int, z as int);
                        let cell = terrain::chunk_cell(
                            data@,
                            local.x + k,
                            local.y as int,
                            local.z as int,
                        );
                        assert(cell_of(nc, local.x + k, local.y as int, local.z as int) == p);
                        assert(ChunkPos::spec_of(p) == nc);
                        row_place(row as int, from + k);
                        assert(out@[i as int] == self@.region_cell(c, from + k, y as int, z as int));
                        assert forall|j: int| 0 <= j < base + k + 1 implies #[trigger] out@[j]
                            == self@.region_cell(c, j % 26, j / 676, j / 26 % 26) by {
                            if j != i {
                                assert(before[j] == out@[j]);
                            }
                        }
                    }
                    k = k + 1;
                }
            },
            None => {
                proof {
                    assert(!self@.chunks.contains(nc));
                    assert forall|i: int| 0 <= i < row * 26 + from + len implies
                        #[trigger] out@[i] == self@.region_cell(
                        c,
                        i % 26,
                        i / 676,
                        i / 26 % 26,
                    ) by {
                        if i >= base {
                            let k = i - base;
                            row_place(row as int, from + k);
                            let p = region_block(c, from + k, y as int, z as int);
                            assert(ChunkPos::spec_of(p) == nc);
                        }
                    }
                }
            },
        }
    }

    /// Walks from block to block until one is solid. Returns that block and the
    /// one before it, or `None` where the walk ends in the open. A walk that starts
    /// in a solid block ends there.
    pub fn raycast(&mut self, start: BlockPos, steps: &[Step]) -> (hit: Option<
        (BlockPos, BlockPos),
    >)
        requires
            old(self).wf(),
        ensures
            final(self).wf(),
            match hit {
                Some((at, before)) => exists|n: int|
                    {
                        &&& 0 <= n <= steps@.len()
                        &&& at == #[trigger] walked(start, steps@, n)
                        &&& final(self)@ == old(self)@.looked(start, steps@, n)
                        &&& old(self)@.content(at).spec_is_solid()
                        &&& before == (if n == 0 {
                            start
                        } else {
                            walked(start, steps@, n - 1)
                        })
                        &&& forall|m: int|
                            0 <= m < n ==> !old(self)@.content(
                                #[trigger] walked(start, steps@, m),
                            ).spec_is_solid()
                    },
                None => {
                    &&& final(self)@ == old(self)@.looked(start, steps@, steps@.len() as int)
                    &&& forall|m: int|
                        0 <= m <= steps@.len() ==> !old(self)@.content(
                            #[trigger] walked(start, steps@, m),
                        ).spec_is_solid()
                },
            },
    {
        let ghost view = self@;
        let mut pos = start;
        assert(walked(start, steps@, 0) == start);
        assert(view.looked(start, steps@, -1) == view);
        assert(view.looked(start, steps@, 0) == view.looked_at(start));
        if self.block_at(pos).is_solid() {
            return Some((pos, pos));
        }
        let mut n: usize = 0;
        while n < steps.len()
            invariant
                n <= steps@.len(),
                self.wf(),
                self@ == view.looked(start, steps@, n as int),
                self@.seed == view.seed,
                self@.edits == view.edits,
                view == old(self)@,
                pos == walked(start, steps@, n as int),
                forall|m: int|
                    0 <= m <= n ==> !view.content(
                        #[trigger] walked(start, steps@, m),
                    ).spec_is_solid(),
            decreases steps@.len() - n,
        {
            let prev = pos;
            pos = step_from(pos, steps[n]);
            n = n + 1;
            assert(pos == walked(start, steps@, n as int));
            assert(self@.content(pos) == view.content(pos));
            if self.block_at(pos).is_solid() {
                return Some((pos, prev));
            }
        }
        None
    }
}

proof fn row_place(row: int, x: int)
    requires
        0 <= row < 676,
        0 <= x < 26,
    ensures
        (row * 26 + x) % 26 == x,
        (row * 26 + x) / 676 == row / 26,
        (row * 26 + x) / 26 % 26 == row % 26,
{
}

fn edit_of(pos: BlockPos, block: Block) -> (e: Edit)
    ensures
        e == (Edit { pos, block }),
{
    Edit { pos, block }
}

/// An edit leaves the buffers of the other chunks true.
proof fn other_chunks_keep(
    before: WorldView,
    after: WorldView,
    c: ChunkPos,
    pos: BlockPos,
    block: Block,
)
    requires
        after == before.with_edit(pos, block),
        c != ChunkPos::spec_of(pos),
    ensures
        forall|data: Seq<u8>| #[trigger] holds(before, c, data) ==> holds(after, c, data),
{
    if c.has_blocks() {
        assert forall|x: int, y: int, z: int|
            0 <= x < 16 && 0 <= y < 16 && 0 <= z < 16 implies after.content(
            #[trigger] cell_of(c, x, y, z),
        ) == before.content(cell_of(c, x, y, z)) by {
            coords::block_of_chunk_is_in_it(
                c,
                BlockPos { x: x as i32, y: y as i32, z: z as i32 },
            );
            edits_read_back(before, pos, block, cell_of(c, x, y, z));
        }
        assert forall|data: Seq<u8>| #[trigger] holds(before, c, data) implies holds(
            after,
            c,
            data,
        ) by {
            assert forall|x: int, y: int, z: int|
                0 <= x < 16 && 0 <= y < 16 && 0 <= z < 16 implies (#[trigger] terrain::chunk_cell(
                data,
                x,
                y,
                z,
            )) == after.content(cell_of(c, x, y, z)).id() by {
                let q = cell_of(c, x, y, z);
                assert(after.content(q) == before.content(q));
            }
        }
    }
}

/// A block reads as what it was last changed to, and changing it changes no other
/// block. A change out of the world's height changes nothing.
pub proof fn edits_read_back(w: WorldView, p: BlockPos, b: Block, q: BlockPos)
    ensures
        w.with_edit(p, b).content(q) == (if q == p && p.spec_in_world_y() {
            b
        } else {
            w.content(q)
        }),
{
    if p.spec_in_world_y() {
        let edits = w.edits.push(Edit { pos: p, block: b });
        assert(edits.drop_last() =~= w.edits);
    }
}

/// Materialising chunks never changes a block.
pub proof fn generating_changes_no_block(w: WorldView, c: ChunkPos, q: BlockPos)
    ensures
        w.with_chunk(c).content(q) == w.content(q),
        w.known(q) ==> w.with_chunk(c).known(q),
{
}

/// An edited block is known at once, without its chunk.
pub proof fn edited_blocks_are_known(w: WorldView, p: BlockPos, b: Block)
    ensures
        w.with_edit(p, b).known(p),
{
}

proof fn edits_elsewhere(edits: Seq<Edit>, p: BlockPos)
    requires
        forall|i: int| 0 <= i < edits.len() ==> (#[trigger] edits[i]).pos != p,
    ensures
        last_edit(edits, p) is None,
    decreases edits.len(),
{
    if edits.len() > 0 {
        let part = edits.drop_last();
        assert forall|i: int| 0 <= i < part.len() implies (#[trigger] part[i]).pos != p by {
            assert(part[i] == edits[i]);
        }
        edits_elsewhere(part, p);
        assert(edits[edits.len() - 1].pos != p);
    }
}

/// Out of the world's height there is nothing but air, whatever was edited.
pub proof fn above_the_world_is_air(w: World, p: BlockPos)
    requires
        w.wf(),
        !p.spec_in_world_y(),
    ensures
        w@.content(p) == Block::Air,
{
    edits_elsewhere(w@.edits, p);
    reveal(terrain::terrain_block);
}

/// Wherever a region shows a chunk that is materialised, it shows its blocks.
pub proof fn regions_show_the_blocks(w: WorldView, c: ChunkPos, x: int, y: int, z: int)
    requires
        c.in_limits(),
        0 <= x < 26,
        0 <= y < 26,
        0 <= z < 26,
        w.chunks.contains(ChunkPos::spec_of(region_block(c, x, y, z))),
    ensures
        w.known(region_block(c, x, y, z)),
        Block::spec_from_u8(w.region_cell(c, x, y, z)) == w.content(region_block(c, x, y, z)),
{
    crate::block::ids_and_blocks_correspond();
    let b = w.content(region_block(c, x, y, z));
    assert(Block::spec_from_u8(b.id()) == b);
}

/// The chunk of an edit is sent again, and so is the chunk of every block that has
/// a face against the edited one, but for one below the world.
pub proof fn chunks_against_an_edit_are_sent_again(p: BlockPos, s: Step)
    requires
        p.spec_in_world_y(),
        ChunkPos::spec_of(stepped(p, s)).y >= 0,
    ensures
        dirtied(p).contains(ChunkPos::spec_of(p)),
        dirtied(p).contains(ChunkPos::spec_of(stepped(p, s))),
{
    let c = ChunkPos::spec_of(p);
    let d = ChunkPos::spec_of(stepped(p, s));
    let all = dirtied(p);
    assert(all[0] == c);
    coords::chunk_and_local_give_the_block(p);
    if d != c {
        assert(on_face(p.spec_local()));
        match s {
            Step::East => assert(all[1] == d),
            Step::West => assert(all[2] == d),
            Step::South => assert(all[3] == d),
            Step::North => assert(all[4] == d),
            Step::Up => assert(all[5] == d),
            Step::Down => assert(all[6] == d),
        }
    }
}

/// A world made from the overridden blocks of another one has the same blocks,
/// whatever the history was.
pub proof fn worlds_survive_a_save(a: WorldView, b: WorldView, p: BlockPos)
    requires
        a.seed == b.seed,
        same_outcome(a.edits, b.edits),
        p.spec_in_world_y(),
    ensures
        a.content(p) == b.content(p),
{
    assert(last_edit(a.edits, p) == last_edit(b.edits, p));
}

} // verus!
