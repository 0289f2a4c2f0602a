//! The chunks that are drawn: where each has its place in the terrain pool, and
//! which ones give way when it is full.
//!
//! The table decides; whoever draws copies meshes to the places it is told, and
//! reports the chunks that gave way so that they can be sent again.
use vstd::prelude::*;

use crate::chunk_set;
use crate::chunk_set::{chunk_dist, chunk_dist_h, ChunkSet};
use crate::compaction;
use crate::compaction::compact_pool;
use crate::coords::{ChunkPos, REGION_BLOCKS};
use crate::mesh;
use crate::mesh::{build_chunk_mesh, MeshData};
use crate::pool::{PoolView, Slot, TerrainPool};
use crate::pool_laws;
use crate::world::WorldUpdate;

verus! {

/// Vertices that the pool holds.
pub const TERRAIN_POOL_VERTS: u32 = 2000000;

/// Indices that the pool holds.
pub const TERRAIN_POOL_IDX: u32 = 3000000;

/// How far chunks are streamed round a player, in chunks.
pub const VIEW_RADIUS: i32 = 7;

/// Chunks that are meshed in one frame.
pub const CHUNKS_PER_FRAME: usize = 4;

/// More chunks than this are not remembered as meshed.
pub const MAX_KNOWN: usize = 262144;

/// A chunk in the pool. Its slot has the opaque part first, then the translucent
/// one.
#[derive(Clone, Copy, PartialEq, Eq, Structural, Debug)]
pub struct Entry {
    pub pos: ChunkPos,
    pub slot: Slot,
    /// Vertices and indices of the opaque part.
    pub v: u32,
    pub i: u32,
}

/// What became of a chunk that arrived.
pub enum Built {
    /// It was not a region.
    Ignored,
    /// It has nothing to draw.
    Emptied,
    /// Its mesh goes to a slot.
    Placed { slot: Slot, mesh: MeshData },
    /// There is no room for it, which is worth a warning now and then.
    Refused { warn: bool },
}

/// What became of a chunk, without the mesh.
pub enum Outcome {
    Ignored,
    Emptied,
    Placed(Slot),
    Refused(bool),
}

impl View for Built {
    type V = Outcome;

    open spec fn view(&self) -> Outcome {
        match *self {
            Built::Ignored => Outcome::Ignored,
            Built::Emptied => Outcome::Emptied,
            Built::Placed { slot, mesh } => Outcome::Placed(slot),
            Built::Refused { warn } => Outcome::Refused(warn),
        }
    }
}

/// A piece of the pool to draw.
#[derive(Clone, Copy, PartialEq, Eq, Structural, Debug)]
pub struct Draw {
    /// The indices from the first to before the end.
    pub first: u32,
    pub end: u32,
    /// The vertex that index zero stands for.
    pub base: u32,
}

/// What a table says.
#[verifier::ext_equal]
pub struct TableView {
    pub entries: Seq<Entry>,
    pub pool: PoolView,
    /// Chunks that gave way and were not reported yet.
    pub evicted: Seq<ChunkPos>,
    /// Chunks that had something to draw when they arrived.
    pub known: Set<ChunkPos>,
    /// How often there was no room.
    pub refused: u64,
    /// The cell of the camera.
    pub camera: (i32, i32, i32),
}

/// The slots of chunks.
pub open spec fn slots(entries: Seq<Entry>) -> Seq<Slot> {
    Seq::new(entries.len(), |k: int| entries[k].slot)
}

/// Whether a chunk is at a place of a list.
pub open spec fn is_at(entries: Seq<Entry>, pos: ChunkPos, k: int) -> bool {
    0 <= k < entries.len() && entries[k].pos == pos
}

/// Whether a chunk is in a list.
pub open spec fn held(entries: Seq<Entry>, pos: ChunkPos) -> bool {
    exists|k: int| is_at(entries, pos, k)
}

/// Whether a chunk gives way before another one: it is farther off, or as far and
/// bigger.
pub open spec fn yields(a: Entry, b: Entry, camera: (i32, i32, i32)) -> bool {
    let d = chunk_set::distance(a.pos, camera);
    let e = chunk_set::distance(b.pos, camera);
    d > e || (d == e && a.slot.v_count > b.slot.v_count)
}

/// Whether the chunk at a place is the first to give way: none yields to it, and
/// of those alike it comes first.
pub open spec fn is_victim(entries: Seq<Entry>, camera: (i32, i32, i32), k: int) -> bool {
    &&& 0 <= k < entries.len()
    &&& forall|j: int| #![trigger entries[j]]
        0 <= j < entries.len() ==> !yields(entries[j], entries[k], camera) && (j < k ==> yields(
            entries[k],
            entries[j],
            camera,
        ))
}

/// The first chunk to give way.
pub open spec fn victim(entries: Seq<Entry>, camera: (i32, i32, i32)) -> int {
    choose|k: int| is_victim(entries, camera, k)
}

/// The origin of a chunk.
pub open spec fn origin_of(pos: ChunkPos) -> (i32, i32, i32) {
    ((pos.x * 16) as i32, (pos.y * 16) as i32, (pos.z * 16) as i32)
}

/// Vertices of the opaque part of a chunk.
pub open spec fn opaque_count(pos: ChunkPos, data: Seq<u8>) -> nat {
    mesh::opaque_vertices(data, origin_of(pos), 4096).len()
}

/// Vertices of the translucent part of a chunk.
pub open spec fn translucent_count(pos: ChunkPos, data: Seq<u8>) -> nat {
    mesh::translucent_vertices(data, origin_of(pos), 4096).len()
}

/// Whether a mesh is that of a chunk.
pub open spec fn shows(m: MeshData, pos: ChunkPos, data: Seq<u8>) -> bool {
    &&& m.vertices@ == mesh::opaque_vertices(data, origin_of(pos), 4096)
    &&& m.water_vertices@ == mesh::translucent_vertices(data, origin_of(pos), 4096)
    &&& m.indices@ == mesh::fan_indices(m.vertices@.len())
    &&& m.water_indices@ == mesh::fan_indices(m.water_vertices@.len())
}

impl TableView {
    /// Whether chunks have their places for themselves, each has one, and what is
    /// opaque lies in it.
    pub open spec fn sound(self) -> bool {
        &&& self.pool.laid_out(slots(self.entries))
        &&& forall|j: int, k: int|
            0 <= j < self.entries.len() && 0 <= k < self.entries.len() && j != k ==> (
            #[trigger] self.entries[j]).pos != (#[trigger] self.entries[k]).pos
        &&& forall|k: int| #![trigger self.entries[k]]
            0 <= k < self.entries.len() ==> self.entries[k].v <= self.entries[k].slot.v_count
                && self.entries[k].i <= self.entries[k].slot.i_count
    }

    /// The table without the chunk at a place, whose slot is free again.
    pub open spec fn dropped(self, k: int) -> TableView {
        TableView {
            entries: self.entries.remove(k),
            pool: self.pool.released(self.entries[k].slot),
            ..self
        }
    }

    /// The table without a chunk.
    pub open spec fn without(self, pos: ChunkPos) -> TableView {
        if held(self.entries, pos) {
            self.dropped(choose|k: int| is_at(self.entries, pos, k))
        } else {
            self
        }
    }

    /// The table after the chunk at a place gave way.
    pub open spec fn evict(self, k: int) -> TableView {
        TableView { evicted: self.evicted.push(self.entries[k].pos), ..self.dropped(k) }
    }

    /// The table once a slot is taken.
    pub open spec fn taken(self, need_v: int, need_i: int) -> TableView {
        TableView { pool: self.pool.after_alloc(need_v, need_i), ..self }
    }

    /// The table after chunks gave way, one after the other, until there is a slot,
    /// and the slot.
    pub open spec fn made_room(self, need_v: int, need_i: int) -> (TableView, Option<Slot>)
        decreases self.entries.len(),
    {
        let k = victim(self.entries, self.camera);
        if 0 <= k < self.entries.len() {
            let t = self.evict(k);
            match t.pool.allocated(need_v, need_i) {
                Some(s) => (t.taken(need_v, need_i), Some(s)),
                None => t.made_room(need_v, need_i),
            }
        } else {
            (self, None)
        }
    }

    /// The table once a slot is taken, after chunks gave way where need be.
    pub open spec fn reserved(self, need_v: int, need_i: int) -> (TableView, Option<Slot>) {
        match self.pool.allocated(need_v, need_i) {
            Some(s) => (self.taken(need_v, need_i), Some(s)),
            None => self.made_room(need_v, need_i),
        }
    }

    /// What becomes of the table and of a chunk that arrives.
    pub open spec fn built(self, pos: ChunkPos, data: Seq<u8>) -> (TableView, Outcome) {
        if data.len() != REGION_BLOCKS {
            (self, Outcome::Ignored)
        } else {
            let v = opaque_count(pos, data);
            let w = translucent_count(pos, data);
            let i = v / 4 * 6;
            let base = self.without(pos);
            if v + w == 0 {
                (base, Outcome::Emptied)
            } else {
                let (t, s) = base.reserved((v + w) as int, (i + w / 4 * 6) as int);
                match s {
                    Some(slot) => (
                        TableView {
                            entries: t.entries.push(Entry { pos, slot, v: v as u32, i: i as u32 }),
                            known: t.known.insert(pos),
                            ..t
                        },
                        Outcome::Placed(slot),
                    ),
                    None => {
                        let n = if t.refused < u64::MAX {
                            (t.refused + 1) as u64
                        } else {
                            t.refused
                        };
                        (
                            TableView { evicted: t.evicted.push(pos), refused: n, ..t },
                            Outcome::Refused(n == 1 || n % 120 == 0),
                        )
                    },
                }
            }
        }
    }

    /// The table after the first `n` chunks of a list arrived.
    pub open spec fn fed(self, updates: Seq<(ChunkPos, Seq<u8>)>, n: nat) -> TableView
        decreases n,
    {
        if n == 0 {
            self
        } else {
            self.fed(updates, (n - 1) as nat).built(updates[n - 1].0, updates[n - 1].1).0
        }
    }

    /// The table with only the nearer of very many meshed chunks remembered.
    pub open spec fn trimmed(self) -> TableView {
        if self.known.len() > MAX_KNOWN {
            TableView {
                known: self.known.filter(
                    |c: ChunkPos| chunk_set::distance(c, self.camera) <= VIEW_RADIUS + 2,
                ),
                ..self
            }
        } else {
            self
        }
    }

    /// Whether a chunk that was drawn near the camera is missing.
    pub open spec fn is_hole(self, c: ChunkPos, max_dist: int) -> bool {
        &&& self.known.contains(c)
        &&& chunk_set::distance_h(c, self.camera) <= max_dist
        &&& !held(self.entries, c)
    }
}

/// What is to be drawn of the opaque part of a chunk.
pub open spec fn opaque_draw(e: Entry) -> Draw {
    Draw { first: e.slot.base_i, end: (e.slot.base_i + e.i) as u32, base: e.slot.base_v }
}

/// What is to be drawn of the translucent part of a chunk.
pub open spec fn translucent_draw(e: Entry) -> Draw {
    Draw {
        first: (e.slot.base_i + e.i) as u32,
        end: e.slot.end_i() as u32,
        base: (e.slot.base_v + e.v) as u32,
    }
}

/// What is to be drawn of the translucent parts of chunks.
pub open spec fn translucent_draws(entries: Seq<Entry>) -> Seq<Draw>
    decreases entries.len(),
{
    if entries.len() == 0 {
        Seq::empty()
    } else {
        let e = entries.last();
        let before = translucent_draws(entries.drop_last());
        if e.slot.i_count > e.i {
            before.push(translucent_draw(e))
        } else {
            before
        }
    }
}

/// What each of a list of updates says.
pub open spec fn update_views(v: Seq<(ChunkPos, Vec<u8>)>) -> Seq<(ChunkPos, Seq<u8>)> {
    Seq::new(v.len(), |k: int| (v[k].0, v[k].1@))
}

// ---- Lemmas ------------------------------------------------------------------------

/// Wherever there are chunks, one is the first to give way.
pub proof fn a_victim_exists(entries: Seq<Entry>, camera: (i32, i32, i32))
    requires
        entries.len() > 0,
    ensures
        is_victim(entries, camera, victim(entries, camera)),
    decreases entries.len(),
{
    let last = entries.len() - 1;
    if last == 0 {
        assert(is_victim(entries, camera, 0));
    } else {
        let init = entries.drop_last();
        a_victim_exists(init, camera);
        let k = victim(init, camera);
        assert(init[k] == entries[k]);
        if yields(entries[last], entries[k], camera) {
            assert forall|j: int| #![trigger entries[j]] 0 <= j < entries.len() implies !yields(
                entries[j],
                entries[last],
                camera,
            ) && (j < last ==> yields(entries[last], entries[j], camera)) by {
                if j < last {
                    assert(init[j] == entries[j]);
                }
            }
            assert(is_victim(entries, camera, last));
        } else {
            assert forall|j: int| #![trigger entries[j]] 0 <= j < entries.len() implies !yields(
                entries[j],
                entries[k],
                camera,
            ) && (j < k ==> yields(entries[k], entries[j], camera)) by {
                if j < last {
                    assert(init[j] == entries[j]);
                }
            }
            assert(is_victim(entries, camera, k));
        }
    }
}

/// The first to give way is one chunk alone.
pub proof fn victim_is_one(entries: Seq<Entry>, camera: (i32, i32, i32), k: int)
    requires
        is_victim(entries, camera, k),
    ensures
        victim(entries, camera) == k,
{
    let v = victim(entries, camera);
    assert(is_victim(entries, camera, v));
    assert(!yields(entries[v], entries[k], camera));
    assert(!yields(entries[k], entries[v], camera));
}

proof fn slots_of_remove(entries: Seq<Entry>, k: int)
    requires
        0 <= k < entries.len(),
    ensures
        slots(entries.remove(k)) == slots(entries).remove(k),
{
    assert(slots(entries.remove(k)) =~= slots(entries).remove(k));
}

pub(crate) proof fn dropping_is_sound(t: TableView, k: int)
    requires
        t.sound(),
        0 <= k < t.entries.len(),
    ensures
        t.dropped(k).sound(),
        t.evict(k).sound(),
        t.entries[k].slot.countable(),
        forall|j: int| #![trigger t.dropped(k).entries[j]]
            0 <= j < t.dropped(k).entries.len() ==> t.dropped(k).entries[j].pos
                != t.entries[k].pos,
{
    let live = slots(t.entries);
    slots_of_remove(t.entries, k);
    assert(live[k] == t.entries[k].slot);
    pool_laws::releasing_keeps_slots_apart(t.pool, live, k);
    let rest = t.entries.remove(k);
    assert forall|a: int, b: int| 0 <= a < rest.len() && 0 <= b < rest.len() && a != b implies (
    #[trigger] rest[a]).pos != (#[trigger] rest[b]).pos by {
        let x = if a < k {
            a
        } else {
            a + 1
        };
        let y = if b < k {
            b
        } else {
            b + 1
        };
        assert(rest[a] == t.entries[x] && rest[b] == t.entries[y]);
    }
    assert forall|a: int| #![trigger rest[a]] 0 <= a < rest.len() implies rest[a].v
        <= rest[a].slot.v_count && rest[a].i <= rest[a].slot.i_count && rest[a].pos
        != t.entries[k].pos by {
        let x = if a < k {
            a
        } else {
            a + 1
        };
        assert(rest[a] == t.entries[x]);
    }
}

proof fn adding_is_sound(t: TableView, e: Entry)
    requires
        t.sound(),
        e.slot.v_count > 0,
        e.slot.i_count > 0,
        t.pool.allocated(e.slot.v_count as int, e.slot.i_count as int) == Some(e.slot),
        !held(t.entries, e.pos),
        e.v <= e.slot.v_count,
        e.i <= e.slot.i_count,
    ensures
        (TableView {
            entries: t.entries.push(e),
            ..t.taken(e.slot.v_count as int, e.slot.i_count as int)
        }).sound(),
{
    let all = t.entries.push(e);
    pool_laws::allocating_keeps_slots_apart(
        t.pool,
        slots(t.entries),
        e.slot.v_count,
        e.slot.i_count,
    );
    assert(slots(all) =~= slots(t.entries).push(e.slot));
    assert forall|a: int, b: int| 0 <= a < all.len() && 0 <= b < all.len() && a != b implies (
    #[trigger] all[a]).pos != (#[trigger] all[b]).pos by {
        if a < t.entries.len() {
            assert(all[a] == t.entries[a]);
            if b == t.entries.len() {
                assert(!is_at(t.entries, e.pos, a));
            }
        }
        if b < t.entries.len() {
            assert(all[b] == t.entries[b]);
            if a == t.entries.len() {
                assert(!is_at(t.entries, e.pos, b));
            }
        }
    }
    assert forall|a: int| #![trigger all[a]] 0 <= a < all.len() implies all[a].v
        <= all[a].slot.v_count && all[a].i <= all[a].slot.i_count by {
        if a < t.entries.len() {
            assert(all[a] == t.entries[a]);
        }
    }
}

proof fn dropping_forgets(t: TableView, k: int, pos: ChunkPos)
    requires
        0 <= k < t.entries.len(),
        !held(t.entries, pos),
    ensures
        !held(t.dropped(k).entries, pos),
{
    let rest = t.entries.remove(k);
    if held(rest, pos) {
        let j = choose|j: int| is_at(rest, pos, j);
        let x = if j < k {
            j
        } else {
            j + 1
        };
        assert(is_at(t.entries, pos, x));
    }
}

/// The place of the first chunk to give way.
pub(crate) fn victim_of(entries: &Vec<Entry>, camera: (i32, i32, i32)) -> (k: usize)
    requires
        entries@.len() > 0,
    ensures
        is_victim(entries@, camera, k as int),
{
    let mut best: usize = 0;
    let mut far: i64 = chunk_dist(entries[0].pos, camera);
    let mut k: usize = 1;
    while k < entries.len()
        invariant
            1 <= k <= entries@.len(),
            best < k,
            far == chunk_set::distance(entries@[best as int].pos, camera),
            forall|j: int| #![trigger entries@[j]]
                0 <= j < k ==> !yields(
                    entries@[j],
                    entries@[best as int],
                    camera,
                ) && (j < best ==> yields(
                    entries@[best as int],
                    entries@[j],
                    camera,
                )),
        decreases entries@.len() - k,
    {
        let d: i64 = chunk_dist(entries[k].pos, camera);
        if d > far || (d == far && entries[k].slot.v_count > entries[best].slot.v_count) {
            best = k;
            far = d;
        }
        k = k + 1;
    }
    best
}

// ---- The table ---------------------------------------------------------------------

/// The chunks that are drawn.
pub struct ChunkTable {
    pool: TerrainPool,
    entries: Vec<Entry>,
    evicted: Vec<ChunkPos>,
    known: ChunkSet,
    refused: u64,
    camera: (i32, i32, i32),
    backlog: Vec<(ChunkPos, Vec<u8>)>,
    highlight: Option<(i32, i32, i32)>,
    first_frame: bool,
}

impl View for ChunkTable {
    type V = TableView;

    closed spec fn view(&self) -> TableView {
        TableView {
            entries: self.entries@,
            pool: self.pool@,
            evicted: self.evicted@,
            known: self.known@,
            refused: self.refused,
            camera: self.camera,
        }
    }
}

impl ChunkTable {
    /// Whether places and lists are in order.
    pub closed spec fn wf(self) -> bool {
        &&& self@.sound()
        &&& self.known.wf()
        &&& forall|k: int|
            0 <= k < self.backlog@.len() ==> (#[trigger] self.backlog@[k]).0.in_limits()
    }

    /// The chunks that wait to be meshed.
    pub closed spec fn waiting(self) -> Seq<(ChunkPos, Seq<u8>)> {
        update_views(self.backlog@)
    }

    /// The block that is outlined.
    pub closed spec fn outlined(self) -> Option<(i32, i32, i32)> {
        self.highlight
    }

    /// Whether nothing was drawn yet.
    pub closed spec fn is_first(self) -> bool {
        self.first_frame
    }

    /// A table for a pool of the given size, with nothing in it.
    pub fn new(vert_cap: u32, idx_cap: u32) -> (t: ChunkTable)
        ensures
            t.wf(),
            t@.entries == Seq::<Entry>::empty(),
            t@.evicted == Seq::<ChunkPos>::empty(),
            t@.known == Set::<ChunkPos>::empty(),
            t@.pool == (PoolView {
                high_v: 0,
                high_i: 0,
                free: Seq::empty(),
                vert_cap: vert_cap as int,
                idx_cap: idx_cap as int,
            }),
            t@.refused == 0,
            t@.camera == (0i32, 2i32, 0i32),
            t.waiting() == Seq::<(ChunkPos, Seq<u8>)>::empty(),
            t.outlined() is None,
            t.is_first(),
    {
        let t = ChunkTable {
            pool: TerrainPool::new(vert_cap, idx_cap),
            entries: Vec::new(),
            evicted: Vec::new(),
            known: ChunkSet::new(),
            refused: 0,
            camera: (0, 2, 0),
            backlog: Vec::new(),
            highlight: None,
            first_frame: true,
        };
        assert(t.waiting() =~= Seq::<(ChunkPos, Seq<u8>)>::empty());
        t
    }

    /// Forgets everything: another world is to be drawn.
    pub fn clear_terrain(&mut self)
        requires
            old(self).wf(),
        ensures
            final(self).wf(),
            final(self)@.entries == Seq::<Entry>::empty(),
            final(self)@.evicted == Seq::<ChunkPos>::empty(),
            final(self)@.known == Set::<ChunkPos>::empty(),
            final(self)@.pool == (PoolView {
                high_v: 0,
                high_i: 0,
                free: Seq::empty(),
                ..old(self)@.pool
            }),
            final(self)@.refused == 0,
            final(self)@.camera == old(self)@.camera,
            final(self).waiting() == Seq::<(ChunkPos, Seq<u8>)>::empty(),
            final(self).outlined() == old(self).outlined(),
            final(self).is_first() == old(self).is_first(),
    {
        self.entries = Vec::new();
        self.backlog = Vec::new();
        self.pool.reset();
        self.evicted = Vec::new();
        self.known = ChunkSet::new();
        self.refused = 0;
        assert(self.waiting() =~= Seq::<(ChunkPos, Seq<u8>)>::empty());
    }

    /// Moves the camera to a cell.
    pub fn set_camera(&mut self, cell: (i32, i32, i32))
        requires
            old(self).wf(),
        ensures
            final(self).wf(),
            final(self)@ == (TableView { camera: cell, ..old(self)@ }),
            final(self).waiting() == old(self).waiting(),
            final(self).outlined() == old(self).outlined(),
            final(self).is_first() == old(self).is_first(),
    {
        self.camera = cell;
    }

    /// Number of chunks in the pool.
    pub fn chunk_count(&self) -> (n: usize)
        ensures
            n == self@.entries.len(),
    {
        self.entries.len()
    }

    /// Number of free slots.
    pub fn free_slots(&self) -> (n: usize)
        ensures
            n == self@.pool.free.len(),
    {
        self.pool.free_slots()
    }

    /// The chunks in the pool.
    pub fn entries(&self) -> (v: &[Entry])
        ensures
            v@ == self@.entries,
    {
        self.entries.as_slice()
    }

    /// Where a chunk is.
    fn find(&self, pos: ChunkPos) -> (r: Option<usize>)
        ensures
            match r {
                Some(k) => is_at(self@.entries, pos, k as int),
                None => !held(self@.entries, pos),
            },
    {
        let mut k: usize = 0;
        while k < self.entries.len()
            invariant
                k <= self.entries@.len(),
                forall|j: int| 0 <= j < k ==> !is_at(self.entries@, pos, j),
            decreases self.entries@.len() - k,
        {
            if self.entries[k].pos == pos {
                return Some(k);
            }
            k = k + 1;
        }
        None
    }

    /// Takes the chunk at a place off the table.
    fn drop_entry(&mut self, k: usize)
        requires
            old(self).wf(),
            k < old(self)@.entries.len(),
        ensures
            final(self).wf(),
            final(self)@ == old(self)@.dropped(k as int),
            final(self).backlog@ == old(self).backlog@,
            final(self).outlined() == old(self).outlined(),
            final(self).is_first() == old(self).is_first(),
    {
        proof {
            dropping_is_sound(self@, k as int);
        }
        let e = self.entries.remove(k);
        self.pool.release(e.slot);
        assert(self@ =~= old(self)@.dropped(k as int));
    }

    /// Lets chunks give way, the farthest first, until there is a slot.
    fn drop_for_slot(&mut self, need_v: u32, need_i: u32) -> (r: Option<Slot>)
        requires
            old(self).wf(),
            need_v > 0,
            need_i > 0,
        ensures
            (final(self)@, r) == old(self)@.made_room(need_v as int, need_i as int),
            final(self).known.wf(),
            final(self).backlog@ == old(self).backlog@,
            final(self).outlined() == old(self).outlined(),
            final(self).is_first() == old(self).is_first(),
            match r {
                Some(s) => exists|t: TableView|
                    {
                        &&& #[trigger] t.sound()
                        &&& t.pool.allocated(need_v as int, need_i as int) == r
                        &&& final(self)@ == t.taken(need_v as int, need_i as int)
                        &&& forall|pos: ChunkPos|
                            !held(old(self)@.entries, pos) ==> !#[trigger] held(t.entries, pos)
                    },
                None => final(self)@.sound(),
            },
    {
        while self.entries.len() > 0
            invariant
                self.wf(),
                need_v > 0,
                need_i > 0,
                self@.made_room(need_v as int, need_i as int) == old(self)@.made_room(
                    need_v as int,
                    need_i as int,
                ),
                self.backlog@ == old(self).backlog@,
                self.outlined() == old(self).outlined(),
                self.is_first() == old(self).is_first(),
                forall|pos: ChunkPos|
                    !held(old(self)@.entries, pos) ==> !#[trigger] held(self@.entries, pos),
            decreases self@.entries.len(),
        {
            let k: usize = victim_of(&self.entries, self.camera);
            let ghost t = self@;
            proof {
                victim_is_one(t.entries, t.camera, k as int);
                dropping_is_sound(t, k as int);
                assert forall|pos: ChunkPos| !held(old(self)@.entries, pos) implies !#[trigger] held(
                    t.evict(k as int).entries,
                    pos,
                ) by {
                    assert(!held(t.entries, pos));
                    dropping_forgets(t, k as int, pos);
                }
            }
            let pos = self.entries[k].pos;
            self.drop_entry(k);
            self.evicted.push(pos);
            assert(self@ =~= t.evict(k as int));
            let ghost u = self@;
            match self.pool.allocate(need_v, need_i) {
                Some(s) => {
                    assert(self@ =~= u.taken(need_v as int, need_i as int));
                    assert(u.sound());
                    return Some(s);
                },
                None => {
                    assert(self@ =~= u);
                },
            }
        }
        None
    }

    /// Takes a chunk off the table, if it is there.
    fn drop_chunk(&mut self, pos: ChunkPos)
        requires
            old(self).wf(),
        ensures
            final(self).wf(),
            final(self)@ == old(self)@.without(pos),
            !held(final(self)@.entries, pos),
            final(self).backlog@ == old(self).backlog@,
            final(self).outlined() == old(self).outlined(),
            final(self).is_first() == old(self).is_first(),
    {
        match self.find(pos) {
            Some(k) => {
                let ghost t = self@;
                proof {
                    let c = choose|c: int| is_at(t.entries, pos, c);
                    assert(is_at(t.entries, pos, c));
                    if c != k {
                        assert(t.entries[c].pos != t.entries[k as int].pos);
                    }
                    dropping_is_sound(t, k as int);
                }
                let e = self.entries.remove(k);
                self.pool.release(e.slot);
                assert(self@ =~= t.dropped(k as int));
                proof {
                    if held(self@.entries, pos) {
                        let j = choose|j: int| is_at(self@.entries, pos, j);
                        assert(t.dropped(k as int).entries[j].pos != t.entries[k as int].pos);
                    }
                }
            },
            None => {},
        }
    }

    /// A chunk arrives: it takes the place of what it was before, others giving way
    /// where there is no room.
    pub fn build_chunk(&mut self, pos: ChunkPos, data: &[u8]) -> (r: Built)
        requires
            old(self).wf(),
            pos.in_limits(),
        ensures
            final(self).wf(),
            (final(self)@, r@) == old(self)@.built(pos, data@),
            r matches Built::Placed { slot, mesh } ==> shows(mesh, pos, data@),
            final(self).waiting() == old(self).waiting(),
            final(self).outlined() == old(self).outlined(),
            final(self).is_first() == old(self).is_first(),
    {
        if data.len() != REGION_BLOCKS {
            return Built::Ignored;
        }
        let p = pos.origin();
        let o = (p.x, p.y, p.z);
        assert(o == origin_of(pos));
        let m = build_chunk_mesh(o, data);
        let ghost v = opaque_count(pos, data@);
        let ghost w = translucent_count(pos, data@);
        proof {
            mesh::meshes_are_bounded(data@, o, 4096);
            mesh::meshes_are_drawable(data@, o, 4096);
            assert(m.indices@.len() == v / 4 * 6);
            assert(m.water_indices@.len() == w / 4 * 6);
        }
        let need_v: u32 = m.vertices.len() as u32 + m.water_vertices.len() as u32;
        let need_i: u32 = m.indices.len() as u32 + m.water_indices.len() as u32;
        self.drop_chunk(pos);
        let ghost base = self@;
        if m.is_empty() {
            return Built::Emptied;
        }
        let mut slot: Option<Slot> = self.pool.allocate(need_v, need_i);
        let ghost mut t = base;
        if slot.is_none() {
            assert(self@ =~= base);
            slot = self.drop_for_slot(need_v, need_i);
            proof {
                if slot is Some {
                    t = choose|t: TableView|
                        {
                            &&& #[trigger] t.sound()
                            &&& t.pool.allocated(need_v as int, need_i as int) == slot
                            &&& self@ == t.taken(need_v as int, need_i as int)
                            &&& forall|q: ChunkPos|
                                !held(base.entries, q) ==> !#[trigger] held(t.entries, q)
                        };
                    assert(!held(t.entries, pos));
                }
            }
        } else {
            assert(self@ =~= base.taken(need_v as int, need_i as int));
        }
        match slot {
            Some(s) => {
                let e = Entry {
                    pos,
                    slot: s,
                    v: m.vertices.len() as u32,
                    i: m.indices.len() as u32,
                };
                let ghost mid = self@;
                proof {
                    allocated_size(t.pool, need_v, need_i);
                    adding_is_sound(t, e);
                }
                self.entries.push(e);
                let _ = self.known.insert(pos);
                assert(self@ =~= (TableView {
                    entries: mid.entries.push(e),
                    known: mid.known.insert(pos),
                    ..mid
                }));
                Built::Placed { slot: s, mesh: m }
            },
            None => {
                let ghost mid = self@;
                self.evicted.push(pos);
                if self.refused < u64::MAX {
                    self.refused = self.refused + 1;
                }
                assert(self@ =~= (TableView {
                    evicted: mid.evicted.push(pos),
                    refused: self.refused,
                    ..mid
                }));
                Built::Refused { warn: self.refused == 1 || self.refused % 120 == 0 }
            },
        }
    }

    /// Forgets meshed chunks that are far off, where very many are remembered.
    fn trim_known(&mut self)
        requires
            old(self).wf(),
        ensures
            final(self).wf(),
            final(self)@ == old(self)@.trimmed(),
            final(self).waiting() == old(self).waiting(),
            final(self).outlined() == old(self).outlined(),
            final(self).is_first() == old(self).is_first(),
    {
        if self.known.len() > MAX_KNOWN {
            self.known.retain_near(self.camera, VIEW_RADIUS as i64 + 2);
            assert(self@.known =~= old(self)@.trimmed().known);
        }
    }

    /// Chunks arrive. They are meshed in order, a few in each frame.
    pub fn apply_updates(&mut self, updates: Vec<WorldUpdate>) -> (r: Vec<Built>)
        requires
            old(self).wf(),
            forall|k: int|
                0 <= k < updates@.len() ==> match #[trigger] updates@[k] {
                    WorldUpdate::Chunk { pos, data } => pos.in_limits(),
                },
        ensures
            final(self).wf(),
            ({
                let all = old(self).waiting() + incoming(updates@);
                let n = if all.len() < CHUNKS_PER_FRAME {
                    all.len()
                } else {
                    CHUNKS_PER_FRAME as nat
                };
                &&& final(self)@ == old(self)@.fed(all, n).trimmed()
                &&& final(self).waiting() == all.skip(n as int)
                &&& r@.len() == n
                &&& forall|k: int| #![trigger r@[k]]
                    0 <= k < n ==> r@[k]@ == old(self)@.fed(all, k as nat).built(
                        all[k].0,
                        all[k].1,
                    ).1 && (r@[k] matches Built::Placed { slot, mesh } ==> shows(
                        mesh,
                        all[k].0,
                        all[k].1,
                    ))
            }),
            r@.len() <= 4,
            r@.len() < 4 ==> final(self).waiting().len() == 0,
            final(self).outlined() == old(self).outlined(),
            final(self).is_first() == old(self).is_first(),
    {
        let ghost all = self.waiting() + incoming(updates@);
        self.enqueue(updates);
        assert(self.waiting() == all);
        let mut r: Vec<Built> = Vec::new();
        let mut k: usize = 0;
        assert(all.skip(0) =~= all);
        while k < CHUNKS_PER_FRAME && self.backlog.len() > 0
            invariant
                k <= CHUNKS_PER_FRAME,
                k <= all.len(),
                self.wf(),
                self@ == old(self)@.fed(all, k as nat),
                self.waiting() == all.skip(k as int),
                self.outlined() == old(self).outlined(),
                self.is_first() == old(self).is_first(),
                r@.len() == k,
                forall|j: int| #![trigger r@[j]]
                    0 <= j < k ==> r@[j]@ == old(self)@.fed(all, j as nat).built(
                        all[j].0,
                        all[j].1,
                    ).1 && (r@[j] matches Built::Placed { slot, mesh } ==> shows(
                        mesh,
                        all[j].0,
                        all[j].1,
                    )),
            decreases CHUNKS_PER_FRAME - k,
        {
            let ghost rest = self.waiting();
            let next = self.backlog.remove(0);
            proof {
                assert(rest[0] == (next.0, next.1@));
                assert(rest.len() == all.len() - k);
                assert(rest[0] == all.skip(k as int)[0]);
                assert(self.waiting() =~= rest.skip(1));
                assert(rest.skip(1) =~= all.skip(k as int + 1));
            }
            let b = self.build_chunk(next.0, next.1.as_slice());
            r.push(b);
            k = k + 1;
        }
        proof {
            assert(self.waiting().len() == all.len() - k);
        }
        self.trim_known();
        r
    }

    /// Puts chunks at the end of those that wait.
    fn enqueue(&mut self, updates: Vec<WorldUpdate>)
        requires
            old(self).wf(),
            forall|k: int|
                0 <= k < updates@.len() ==> match #[trigger] updates@[k] {
                    WorldUpdate::Chunk { pos, data } => pos.in_limits(),
                },
        ensures
            final(self).wf(),
            final(self)@ == old(self)@,
            final(self).waiting() == old(self).waiting() + incoming(updates@),
            final(self).outlined() == old(self).outlined(),
            final(self).is_first() == old(self).is_first(),
    {
        let ghost all = updates@;
        let mut left = updates;
        let mut batch: Vec<(ChunkPos, Vec<u8>)> = Vec::new();
        assert(incoming(all).skip(all.len() as int) =~= Seq::<(ChunkPos, Seq<u8>)>::empty());
        assert(reversed(update_views(batch@)) =~= Seq::<(ChunkPos, Seq<u8>)>::empty());
        while left.len() > 0
            invariant
                left@.len() <= all.len(),
                left@ == all.take(left@.len() as int),
                reversed(update_views(batch@)) == incoming(all).skip(left@.len() as int),
                forall|k: int|
                    0 <= k < all.len() ==> match #[trigger] all[k] {
                        WorldUpdate::Chunk { pos, data } => pos.in_limits(),
                    },
                forall|k: int| 0 <= k < batch@.len() ==> (#[trigger] batch@[k]).0.in_limits(),
            decreases left@.len(),
        {
            let ghost n = left@.len() as int;
            let ghost done = update_views(batch@);
            match left.pop() {
                Some(WorldUpdate::Chunk { pos, data }) => {
                    let ghost e = (pos, data@);
                    assert(all[n - 1] == all.take(n)[n - 1]);
                    batch.push((pos, data));
                    proof {
                        assert(incoming(all)[n - 1] == e);
                        assert(update_views(batch@) =~= done.push(e));
                        assert(reversed(done.push(e)) =~= seq![e] + reversed(done));
                        assert(incoming(all).skip(n - 1) =~= seq![e] + incoming(all).skip(n));
                        assert(left@ =~= all.take(n - 1));
                    }
                },
                None => {},
            }
        }
        assert(incoming(all).skip(0) =~= incoming(all));
        let ghost before = self.waiting();
        let ghost whole = reversed(update_views(batch@));
        while batch.len() > 0
            invariant
                self.wf(),
                self@ == old(self)@,
                self.outlined() == old(self).outlined(),
                self.is_first() == old(self).is_first(),
                self.waiting() + reversed(update_views(batch@)) == before + whole,
                forall|k: int| 0 <= k < batch@.len() ==> (#[trigger] batch@[k]).0.in_limits(),
            decreases batch@.len(),
        {
            let ghost rest = update_views(batch@);
            let ghost q = self.waiting();
            match batch.pop() {
                Some(e) => {
                    let ghost v = (e.0, e.1@);
                    self.backlog.push(e);
                    proof {
                        assert(rest =~= update_views(batch@).push(v));
                        assert(reversed(rest) =~= seq![v] + reversed(update_views(batch@)));
                        assert(self.waiting() =~= q.push(v));
                        assert(self.waiting() + reversed(update_views(batch@)) =~= q + reversed(
                            rest,
                        ));
                    }
                },
                None => {},
            }
        }
        assert(reversed(update_views(batch@)) =~= Seq::<(ChunkPos, Seq<u8>)>::empty());
        assert(self.waiting() + Seq::<(ChunkPos, Seq<u8>)>::empty() =~= self.waiting());
    }

    /// Packs the pool to make room for so many vertices and indices: chunks give way,
    /// the farthest first, and the others move to the front. Returns whether they
    /// did.
    pub fn compact(&mut self, need_v: u32, need_i: u32) -> (r: bool)
        requires
            old(self).wf(),
        ensures
            final(self).wf(),
            final(self)@ == compaction::compacted(old(self)@, need_v as int, need_i as int),
            r == compaction::packs(old(self)@, need_v as int, need_i as int),
            final(self).waiting() == old(self).waiting(),
            final(self).outlined() == old(self).outlined(),
            final(self).is_first() == old(self).is_first(),
    {
        let used = self.pool.used();
        let caps = self.pool.caps();
        match compact_pool(
            &self.entries,
            self.camera,
            used,
            caps,
            need_v,
            need_i,
            Ghost(self@),
        ) {
            Some(p) => {
                let ghost before = self@;
                let mut gone = p.evicted;
                self.pool.repack(p.high_v, p.high_i);
                self.entries = p.entries;
                self.evicted.append(&mut gone);
                assert(self@ =~= compaction::compacted(before, need_v as int, need_i as int));
                true
            },
            None => false,
        }
    }

    /// The chunks that gave way since the last time they were asked for.
    pub fn take_evicted(&mut self) -> (v: Vec<ChunkPos>)
        requires
            old(self).wf(),
        ensures
            final(self).wf(),
            v@ == old(self)@.evicted,
            final(self)@ == (TableView { evicted: Seq::empty(), ..old(self)@ }),
            final(self).waiting() == old(self).waiting(),
            final(self).outlined() == old(self).outlined(),
            final(self).is_first() == old(self).is_first(),
    {
        let mut v: Vec<ChunkPos> = Vec::new();
        std::mem::swap(&mut v, &mut self.evicted);
        assert(self@ =~= (TableView { evicted: Seq::empty(), ..old(self)@ }));
        v
    }

    /// The chunks near the camera that were drawn once and are missing.
    pub fn missing_visible(&self, max_dist: i32) -> (v: Vec<ChunkPos>)
        requires
            self.wf(),
        ensures
            v@.no_duplicates(),
            forall|c: ChunkPos| v@.contains(c) <==> #[trigger] self@.is_hole(c, max_dist as int),
    {
        let items = self.known.items();
        let mut v: Vec<ChunkPos> = Vec::new();
        let mut i: usize = 0;
        while i < items.len()
            invariant
                i <= items@.len(),
                items@.no_duplicates(),
                v@.no_duplicates(),
                forall|c: ChunkPos|
                    (#[trigger] v@.contains(c)) == (items@.take(i as int).contains(c)
                        && chunk_set::distance_h(c, self@.camera) <= max_dist && !held(
                        self@.entries,
                        c,
                    )),
            decreases items@.len() - i,
        {
            let c = items[i];
            let ghost before = v@;
            let ghost part = items@.take(i as int);
            let ghost more = items@.take(i as int + 1);
            assert(more =~= part.push(c));
            assert(!part.contains(c)) by {
                if part.contains(c) {
                    let j = choose|j: int| 0 <= j < part.len() && part[j] == c;
                    assert(items@[j] == items@[i as int]);
                }
            }
            let here = self.find(c);
            assert(here is Some ==> held(self@.entries, c));
            if chunk_dist_h(c, self.camera) <= max_dist as i64 && here.is_none() {
                v.push(c);
                assert(!before.contains(c));
            }
            proof {
                assert forall|d: ChunkPos|
                    (#[trigger] v@.contains(d)) == (more.contains(d) && chunk_set::distance_h(
                        d,
                        self@.camera,
                    ) <= max_dist && !held(self@.entries, d)) by {
                    chunk_set::contains_of_push(part, c, d);
                    chunk_set::contains_of_push(before, c, d);
                    let b = before.contains(d);
                }
            }
            i = i + 1;
        }
        proof {
            assert(items@.take(i as int) =~= items@);
            assert forall|c: ChunkPos| v@.contains(c) <==> #[trigger] self@.is_hole(
                c,
                max_dist as int,
            ) by {
                assert(self@.known.contains(c) == items@.contains(c));
                let h = held(self@.entries, c);
            }
        }
        v
    }

    /// How many chunks in the pool lie within one chunk of a cell, whatever their
    /// heights.
    pub fn spawn_near_count(&self, cell: (i32, i32, i32)) -> (n: usize)
        ensures
            n == near_count(self@.entries, cell),
    {
        let mut n: usize = 0;
        let mut k: usize = 0;
        while k < self.entries.len()
            invariant
                k <= self.entries@.len(),
                n <= k,
                n == near_count(self.entries@.take(k as int), cell),
            decreases self.entries@.len() - k,
        {
            proof {
                let next = self.entries@.take(k as int + 1);
                assert(next.drop_last() =~= self.entries@.take(k as int));
                assert(next.last() == self.entries@[k as int]);
            }
            if chunk_dist_h(self.entries[k].pos, cell) <= 1 {
                n = n + 1;
            }
            k = k + 1;
        }
        assert(self.entries@.take(k as int) =~= self.entries@);
        n
    }

    /// What is to be drawn of the opaque parts.
    pub fn opaque_draws(&self) -> (v: Vec<Draw>)
        requires
            self.wf(),
        ensures
            v@ == Seq::new(self@.entries.len(), |k: int| opaque_draw(self@.entries[k])),
    {
        let mut v: Vec<Draw> = Vec::new();
        let mut k: usize = 0;
        while k < self.entries.len()
            invariant
                k <= self.entries@.len(),
                self.wf(),
                v@.len() == k,
                forall|j: int| 0 <= j < k ==> #[trigger] v@[j] == opaque_draw(self.entries@[j]),
            decreases self.entries@.len() - k,
        {
            let e = self.entries[k];
            assert(slots(self@.entries)[k as int] == e.slot);
            v.push(
                Draw { first: e.slot.base_i, end: e.slot.base_i + e.i, base: e.slot.base_v },
            );
            k = k + 1;
        }
        assert(v@ =~= Seq::new(self@.entries.len(), |k: int| opaque_draw(self@.entries[k])));
        v
    }

    /// What is to be drawn of the translucent parts, after all that is opaque.
    pub fn translucent_draws(&self) -> (v: Vec<Draw>)
        requires
            self.wf(),
        ensures
            v@ == translucent_draws(self@.entries),
    {
        let mut v: Vec<Draw> = Vec::new();
        let mut k: usize = 0;
        assert(self.entries@.take(0).len() == 0);
        while k < self.entries.len()
            invariant
                k <= self.entries@.len(),
                self.wf(),
                v@ == translucent_draws(self.entries@.take(k as int)),
            decreases self.entries@.len() - k,
        {
            let e = self.entries[k];
            proof {
                let next = self.entries@.take(k as int + 1);
                assert(next.drop_last() =~= self.entries@.take(k as int));
                assert(next.last() == e);
                assert(slots(self@.entries)[k as int] == e.slot);
            }
            if e.slot.i_count > e.i {
                v.push(
                    Draw {
                        first: e.slot.base_i + e.i,
                        end: e.slot.base_i + e.slot.i_count,
                        base: e.slot.base_v + e.v,
                    },
                );
            }
            k = k + 1;
        }
        assert(self.entries@.take(k as int) =~= self.entries@);
        v
    }

    /// Outlines a block, or none. Returns the lines to draw where another block is
    /// outlined now.
    pub fn set_highlight(&mut self, target: Option<(i32, i32, i32)>) -> (r: Option<
        Vec<mesh::Vertex>,
    >)
        requires
            old(self).wf(),
        ensures
            final(self).wf(),
            final(self)@ == old(self)@,
            final(self).waiting() == old(self).waiting(),
            final(self).is_first() == old(self).is_first(),
            final(self).outlined() == target,
            match r {
                Some(v) => target is Some && old(self).outlined() != target && v@ == Seq::new(
                    24,
                    |k: int| mesh::wire(target->Some_0, k),
                ),
                None => target is None || old(self).outlined() == target,
            },
    {
        let same = match (self.highlight, target) {
            (Some(a), Some(b)) => a.0 == b.0 && a.1 == b.1 && a.2 == b.2,
            (None, None) => true,
            _ => false,
        };
        if same {
            return None;
        }
        self.highlight = target;
        match target {
            Some(t) => Some(mesh::highlight_vertices(t)),
            None => None,
        }
    }

    /// Whether this is the first time that this is asked.
    pub fn take_first_frame(&mut self) -> (r: bool)
        requires
            old(self).wf(),
        ensures
            final(self).wf(),
            r == old(self).is_first(),
            !final(self).is_first(),
            final(self)@ == old(self)@,
            final(self).waiting() == old(self).waiting(),
            final(self).outlined() == old(self).outlined(),
    {
        let r = self.first_frame;
        self.first_frame = false;
        r
    }
}

/// The chunks of updates.
pub open spec fn incoming(updates: Seq<WorldUpdate>) -> Seq<(ChunkPos, Seq<u8>)> {
    Seq::new(
        updates.len(),
        |k: int|
            match updates[k] {
                WorldUpdate::Chunk { pos, data } => (pos, data@),
            },
    )
}

spec fn reversed(s: Seq<(ChunkPos, Seq<u8>)>) -> Seq<(ChunkPos, Seq<u8>)> {
    Seq::new(s.len(), |k: int| s[s.len() - 1 - k])
}

/// How many chunks lie within one chunk of a cell, whatever their heights.
pub open spec fn near_count(entries: Seq<Entry>, cell: (i32, i32, i32)) -> nat
    decreases entries.len(),
{
    if entries.len() == 0 {
        0
    } else {
        near_count(entries.drop_last(), cell) + if chunk_set::distance_h(
            entries.last().pos,
            cell,
        ) <= 1 {
            1nat
        } else {
            0nat
        }
    }
}

proof fn allocated_size(p: PoolView, need_v: u32, need_i: u32)
    requires
        p.allocated(need_v as int, need_i as int) is Some,
    ensures
        p.allocated(need_v as int, need_i as int)->Some_0.v_count == need_v,
        p.allocated(need_v as int, need_i as int)->Some_0.i_count == need_i,
{
}

} // verus!
