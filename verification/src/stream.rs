//! What is sent to a viewer: the chunks around them, nearest first, each once, and
//! again when it was edited or given back.
use vstd::prelude::*;

use crate::block::Block;
use crate::chunk_set;
use crate::chunk_set::{chunk_dist, chunk_dist_h, ChunkSet};
use crate::chunk_table::VIEW_RADIUS;
use crate::coords::{BlockPos, ChunkPos, REGION_BLOCKS};
use crate::world;
use crate::world::{World, WorldUpdate, WorldView};

verus! {

/// Chunks sent to a viewer in one tick.
pub const CHUNKS_PER_TICK: usize = 8;

/// No viewer is farther out, in chunks, while chunks are sent to them.
pub const INNER_LIMIT: i32 = 134217700;

/// Layers of chunks that can hold blocks.
pub const LAYERS: i32 = 4;

/// Whether a viewer in a cell sees a chunk.
pub open spec fn visible(c: ChunkPos, cell: (i32, i32, i32)) -> bool {
    0 <= c.y < LAYERS && chunk_set::distance_h(c, cell) <= VIEW_RADIUS
}

/// Whether a viewer in a cell is still owed a chunk.
pub open spec fn owed(sent: Set<ChunkPos>, c: ChunkPos, cell: (i32, i32, i32)) -> bool {
    visible(c, cell) && !sent.contains(c)
}

/// Whether a chunk is the next to send: none that is owed is nearer.
pub open spec fn is_next(sent: Set<ChunkPos>, c: ChunkPos, cell: (i32, i32, i32)) -> bool {
    &&& owed(sent, c, cell)
    &&& forall|d: ChunkPos| #[trigger]
        owed(sent, d, cell) ==> chunk_set::distance(c, cell) <= chunk_set::distance(d, cell)
}

/// Whether a cell is far enough from the end of the world to look around.
pub open spec fn can_look_around(cell: (i32, i32, i32)) -> bool {
    &&& i32::MIN + VIEW_RADIUS <= cell.0 <= i32::MAX - VIEW_RADIUS
    &&& i32::MIN + VIEW_RADIUS <= cell.2 <= i32::MAX - VIEW_RADIUS
}

/// The set of listed chunks.
fn collected(cs: &[ChunkPos]) -> (s: ChunkSet)
    ensures
        s.wf(),
        s@ == cs@.to_set(),
{
    let mut s = ChunkSet::new();
    let mut i: usize = 0;
    assert(s@ =~= cs@.take(0).to_set());
    while i < cs.len()
        invariant
            i <= cs@.len(),
            s.wf(),
            s@ == cs@.take(i as int).to_set(),
        decreases cs@.len() - i,
    {
        let ghost part = cs@.take(i as int);
        let _ = s.insert(cs[i]);
        proof {
            let more = cs@.take(i as int + 1);
            assert(more =~= part.push(cs@[i as int]));
            assert forall|d: ChunkPos| #[trigger] s@.contains(d) == more.to_set().contains(d) by {
                chunk_set::contains_of_push(part, cs@[i as int], d);
                assert(part.to_set().contains(d) == part.contains(d));
            }
            assert(s@ =~= more.to_set());
        }
        i = i + 1;
    }
    assert(cs@.take(i as int) =~= cs@);
    s
}

/// Where a chunk is in the walk over all that is seen.
spec fn place_in_view(c: ChunkPos, cell: (i32, i32, i32)) -> int {
    60 * (c.x - cell.0 + VIEW_RADIUS) + 4 * (c.z - cell.2 + VIEW_RADIUS) + c.y
}

/// The chunks that a viewer in a cell sees and has not.
pub fn missing_from_view(cell: (i32, i32, i32), have: &[ChunkPos]) -> (v: Vec<ChunkPos>)
    requires
        can_look_around(cell),
    ensures
        v@.no_duplicates(),
        forall|c: ChunkPos| #[trigger] v@.contains(c) <==> visible(c, cell) && !have@.contains(c),
{
    let had = collected(have);
    let mut v: Vec<ChunkPos> = Vec::new();
    let mut k: i32 = 0;
    while k < 900
        invariant
            0 <= k <= 900,
            can_look_around(cell),
            had.wf(),
            had@ == have@.to_set(),
            v@.no_duplicates(),
            forall|c: ChunkPos| #[trigger]
                v@.contains(c) <==> owed(had@, c, cell) && place_in_view(c, cell) < k,
        decreases 900 - k,
    {
        let c = ChunkPos {
            x: cell.0 - VIEW_RADIUS + k / 60,
            y: k % 4,
            z: cell.2 - VIEW_RADIUS + k % 60 / 4,
        };
        assert(place_in_view(c, cell) == k && visible(c, cell));
        let ghost before = v@;
        assert(!before.contains(c));
        if !had.contains(c) {
            v.push(c);
        }
        proof {
            assert forall|d: ChunkPos| #[trigger]
                v@.contains(d) <==> owed(had@, d, cell) && place_in_view(d, cell) < k + 1 by {
                chunk_set::contains_of_push(before, c, d);
                assert(before.contains(d) <==> owed(had@, d, cell) && place_in_view(d, cell) < k);
                if visible(d, cell) && place_in_view(d, cell) == k {
                    assert(d == c);
                }
            }
        }
        k = k + 1;
    }
    assert forall|c: ChunkPos| #[trigger]
        v@.contains(c) <==> visible(c, cell) && !have@.contains(c) by {
        assert(have@.to_set().contains(c) == have@.contains(c));
        if visible(c, cell) {
            assert(place_in_view(c, cell) < 900);
        }
    }
    v
}

/// What was sent to a viewer.
pub struct Streamer {
    sent: ChunkSet,
}

impl View for Streamer {
    type V = Set<ChunkPos>;

    closed spec fn view(&self) -> Set<ChunkPos> {
        self.sent@
    }
}

impl Streamer {
    pub closed spec fn wf(self) -> bool {
        self.sent.wf()
    }

    /// A new viewer, who has nothing.
    pub fn new() -> (s: Streamer)
        ensures
            s.wf(),
            s@ == Set::<ChunkPos>::empty(),
    {
        Streamer { sent: ChunkSet::new() }
    }

    /// How many chunks the viewer has.
    pub fn sent_count(&self) -> (n: usize)
        requires
            self.wf(),
        ensures
            self@.finite(),
            n == self@.len(),
    {
        self.sent.len()
    }

    /// Whether the viewer has a chunk.
    pub fn was_sent(&self, c: ChunkPos) -> (r: bool)
        requires
            self.wf(),
        ensures
            r == self@.contains(c),
    {
        self.sent.contains(c)
    }

    /// The next chunk to send.
    pub fn next(&self, cell: (i32, i32, i32)) -> (r: Option<ChunkPos>)
        requires
            self.wf(),
            can_look_around(cell),
        ensures
            match r {
                Some(c) => is_next(self@, c, cell),
                None => forall|c: ChunkPos| !#[trigger] owed(self@, c, cell),
            },
    {
        let mut best: Option<ChunkPos> = None;
        let mut x: i32 = cell.0 - VIEW_RADIUS;
        while x <= cell.0 + VIEW_RADIUS
            invariant
                self.wf(),
                can_look_around(cell),
                cell.0 - VIEW_RADIUS <= x <= cell.0 + VIEW_RADIUS + 1,
                best matches Some(b) ==> owed(self@, b, cell),
                forall|d: ChunkPos| #[trigger]
                    owed(self@, d, cell) && d.x < x ==> best is Some && chunk_set::distance(
                        best->Some_0,
                        cell,
                    ) <= chunk_set::distance(d, cell),
            decreases cell.0 + VIEW_RADIUS + 1 - x,
        {
            let here = self.next_at(cell, x);
            match here {
                Some(c) => {
                    let closer: bool = match best {
                        Some(b) => chunk_dist(c, cell) < chunk_dist(b, cell),
                        None => true,
                    };
                    if closer {
                        best = Some(c);
                    }
                },
                None => {},
            }
            if x == i32::MAX {
                assert forall|d: ChunkPos| !(d.x > x) by {}
                return best;
            }
            x = x + 1;
        }
        best
    }

    /// The nearest chunk that is owed with a given first coordinate.
    fn next_at(&self, cell: (i32, i32, i32), x: i32) -> (r: Option<ChunkPos>)
        requires
            self.wf(),
            can_look_around(cell),
        ensures
            match r {
                Some(c) => owed(self@, c, cell) && forall|d: ChunkPos| #[trigger]
                    owed(self@, d, cell) && d.x == x ==> chunk_set::distance(c, cell)
                        <= chunk_set::distance(d, cell),
                None => forall|d: ChunkPos| #[trigger] owed(self@, d, cell) ==> d.x != x,
            },
    {
        let mut best: Option<ChunkPos> = None;
        let mut k: i32 = 0;
        while k < 60
            invariant
                self.wf(),
                can_look_around(cell),
                0 <= k <= 60,
                best matches Some(b) ==> owed(self@, b, cell),
                forall|d: ChunkPos| #[trigger]
                    owed(self@, d, cell) && d.x == x && (d.z - (cell.2 - VIEW_RADIUS)) * 4 + d.y
                        < k ==> best is Some && chunk_set::distance(best->Some_0, cell)
                        <= chunk_set::distance(d, cell),
            decreases 60 - k,
        {
            let c = ChunkPos { x, y: k % 4, z: cell.2 - VIEW_RADIUS + k / 4 };
            if chunk_dist_h(c, cell) <= VIEW_RADIUS as i64 && !self.sent.contains(c) {
                let closer: bool = match best {
                    Some(b) => chunk_dist(c, cell) < chunk_dist(b, cell),
                    None => true,
                };
                if closer {
                    best = Some(c);
                }
            }
            proof {
                assert forall|d: ChunkPos| #[trigger]
                    owed(self@, d, cell) && d.x == x && (d.z - (cell.2 - VIEW_RADIUS)) * 4 + d.y
                        < k + 1 implies best is Some && chunk_set::distance(best->Some_0, cell)
                    <= chunk_set::distance(d, cell) by {
                    if (d.z - (cell.2 - VIEW_RADIUS)) * 4 + d.y == k {
                        assert(d == c);
                    }
                }
            }
            k = k + 1;
        }
        assert forall|d: ChunkPos| #[trigger] owed(self@, d, cell) && d.x == x implies (d.z - (
        cell.2 - VIEW_RADIUS)) * 4 + d.y < 60 by {}
        best
    }

    /// A chunk was sent.
    pub fn note_sent(&mut self, c: ChunkPos)
        requires
            old(self).wf(),
        ensures
            final(self).wf(),
            final(self)@ == old(self)@.insert(c),
    {
        let _ = self.sent.insert(c);
    }

    fn forget(&mut self, cs: &[ChunkPos])
        requires
            old(self).wf(),
        ensures
            final(self).wf(),
            final(self)@ == old(self)@.difference(cs@.to_set()),
    {
        let mut i: usize = 0;
        assert(self@ =~= old(self)@.difference(cs@.take(0).to_set()));
        while i < cs.len()
            invariant
                i <= cs@.len(),
                self.wf(),
                self@ == old(self)@.difference(cs@.take(i as int).to_set()),
            decreases cs@.len() - i,
        {
            let ghost before = self@;
            let _ = self.sent.remove(cs[i]);
            proof {
                let part = cs@.take(i as int);
                let more = cs@.take(i as int + 1);
                assert(more =~= part.push(cs@[i as int]));
                assert forall|d: ChunkPos| #[trigger] self@.contains(d) == old(self)@.difference(
                    more.to_set(),
                ).contains(d) by {
                    if part.contains(d) {
                        let j = choose|j: int| 0 <= j < part.len() && part[j] == d;
                        assert(more[j] == d);
                    }
                    if more.contains(d) && d != cs@[i as int] {
                        let j = choose|j: int| 0 <= j < more.len() && more[j] == d;
                        assert(part[j] == d);
                    }
                    assert(more[i as int] == cs@[i as int]);
                    assert(before.contains(d) == (old(self)@.contains(d) && !part.contains(d)));
                }
                assert(self@ =~= old(self)@.difference(more.to_set()));
            }
            i = i + 1;
        }
        assert(cs@.take(i as int) =~= cs@);
    }

    /// The viewer gave chunks back for want of room: they are sent again as soon as
    /// they are seen.
    pub fn note_evicted(&mut self, cs: &[ChunkPos])
        requires
            old(self).wf(),
        ensures
            final(self).wf(),
            final(self)@ == old(self)@.difference(cs@.to_set()),
    {
        self.forget(cs);
    }

    /// Chunks were edited: the viewer's are out of date.
    pub fn apply_edits(&mut self, dirty: &[ChunkPos])
        requires
            old(self).wf(),
        ensures
            final(self).wf(),
            final(self)@ == old(self)@.difference(dirty@.to_set()),
    {
        self.forget(dirty);
    }

    /// The viewer says what they have: what they see and have not is sent again.
    /// Returns how many chunks these are.
    pub fn resync(&mut self, cell: (i32, i32, i32), have: &[ChunkPos]) -> (n: usize)
        requires
            old(self).wf(),
        ensures
            final(self).wf(),
            final(self)@ == old(self)@.filter(
                |c: ChunkPos| !visible(c, cell) || have@.contains(c),
            ),
            old(self)@.finite(),
            final(self)@.finite(),
            n == old(self)@.len() - final(self)@.len(),
    {
        let before: usize = self.sent.len();
        let had = collected(have);
        let mut lost: Vec<ChunkPos> = Vec::new();
        let items = self.sent.items();
        let mut k: usize = 0;
        while k < items.len()
            invariant
                k <= items@.len(),
                had.wf(),
                had@ == have@.to_set(),
                forall|d: ChunkPos|
                    (#[trigger] lost@.contains(d)) == (items@.take(k as int).contains(d)
                        && visible(d, cell) && !have@.contains(d)),
            decreases items@.len() - k,
        {
            let c = items[k];
            let ghost part = items@.take(k as int);
            let ghost more = items@.take(k as int + 1);
            let ghost was = lost@;
            assert(more =~= part.push(c));
            if 0 <= c.y && c.y < LAYERS && chunk_dist_h(c, cell) <= VIEW_RADIUS as i64
                && !had.contains(c) {
                lost.push(c);
            }
            proof {
                assert forall|d: ChunkPos|
                    (#[trigger] lost@.contains(d)) == (more.contains(d) && visible(d, cell)
                        && !have@.contains(d)) by {
                    chunk_set::contains_of_push(part, c, d);
                    chunk_set::contains_of_push(was, c, d);
                    let w = was.contains(d);
                    assert(have@.to_set().contains(c) == have@.contains(c));
                }
            }
            k = k + 1;
        }
        assert(items@.take(k as int) =~= items@);
        let ghost all = items@;
        self.forget(lost.as_slice());
        proof {
            let kept = old(self)@.filter(|c: ChunkPos| !visible(c, cell) || have@.contains(c));
            assert forall|d: ChunkPos| #[trigger] self@.contains(d) == kept.contains(d) by {
                assert(all.to_set().contains(d) == all.contains(d));
                assert(lost@.contains(d) == (all.contains(d) && visible(d, cell)
                    && !have@.contains(d)));
                assert(lost@.to_set().contains(d) == lost@.contains(d));
            }
            assert(self@ =~= kept);
            vstd::set_lib::lemma_len_subset(self@, old(self)@);
        }
        before - self.sent.len()
    }
}

// ---- Sending ---------------------------------------------------------------------------

/// Whether a chunk is another one or one of those around it.
pub open spec fn touches(c: ChunkPos, d: ChunkPos) -> bool {
    &&& -1 <= d.x - c.x <= 1
    &&& -1 <= d.y - c.y <= 1
    &&& -1 <= d.z - c.z <= 1
}

/// The chunks that a chunk's region shows, but for those above the world.
pub open spec fn around(c: ChunkPos) -> Set<ChunkPos> {
    Set::new(|d: ChunkPos| touches(c, d) && !d.spec_guaranteed_air())
}

/// Whether a region shows the blocks of a world.
pub open spec fn shows(w: WorldView, c: ChunkPos, data: Seq<u8>) -> bool {
    &&& data.len() == REGION_BLOCKS
    &&& forall|x: int, y: int, z: int|
        0 <= x < 26 && 0 <= y < 26 && 0 <= z < 26 ==> (#[trigger] world::region_byte(
            data,
            x,
            y,
            z,
        )) == w.content(world::region_block(c, x, y, z)).id()
}

/// The chunk of an update.
pub open spec fn chunk_of(u: WorldUpdate) -> ChunkPos {
    match u {
        WorldUpdate::Chunk { pos, data } => pos,
    }
}

/// The bytes of an update.
pub open spec fn bytes_of(u: WorldUpdate) -> Seq<u8> {
    match u {
        WorldUpdate::Chunk { pos, data } => data@,
    }
}

/// What a viewer has after updates.
pub open spec fn sent_after(sent: Set<ChunkPos>, v: Seq<WorldUpdate>) -> Set<ChunkPos>
    decreases v.len(),
{
    if v.len() == 0 {
        sent
    } else {
        sent_after(sent, v.drop_last()).insert(chunk_of(v.last()))
    }
}

/// What is materialised after updates: the chunks around those sent.
pub open spec fn drawn_after(chunks: Set<ChunkPos>, v: Seq<WorldUpdate>) -> Set<ChunkPos>
    decreases v.len(),
{
    if v.len() == 0 {
        chunks
    } else {
        drawn_after(chunks, v.drop_last()).union(around(chunk_of(v.last())))
    }
}

/// Whether each update is the next one when it is its turn.
pub open spec fn in_turn(
    sent: Set<ChunkPos>,
    v: Seq<WorldUpdate>,
    cell: (i32, i32, i32),
) -> bool {
    forall|k: int|
        0 <= k < v.len() ==> is_next(
            sent_after(sent, v.take(k)),
            chunk_of(#[trigger] v[k]),
            cell,
        )
}

/// Whether everything seen from a cell has all its neighbours in the world.
pub open spec fn well_inside(cell: (i32, i32, i32)) -> bool {
    &&& -INNER_LIMIT <= cell.0 <= INNER_LIMIT
    &&& -INNER_LIMIT <= cell.2 <= INNER_LIMIT
}

/// Where a number is in the walk round a chunk.
spec fn turn_of(c: ChunkPos, d: ChunkPos) -> int {
    (d.x - c.x + 1) + 3 * (d.y - c.y + 1) + 9 * (d.z - c.z + 1)
}

/// Materialises what a chunk's region shows.
fn materialise(w: &mut World, c: ChunkPos)
    requires
        old(w).wf(),
        c.in_limits(),
    ensures
        final(w).wf(),
        final(w)@ == (WorldView { chunks: old(w)@.chunks.union(around(c)), ..old(w)@ }),
{
    let mut k: i32 = 0;
    let ghost first = w@;
    assert(first.chunks.union(
        Set::new(|d: ChunkPos| around(c).contains(d) && turn_of(c, d) < 0),
    ) =~= first.chunks);
    while k < 27
        invariant
            0 <= k <= 27,
            c.in_limits(),
            w.wf(),
            w@ == (WorldView {
                chunks: first.chunks.union(
                    Set::new(|d: ChunkPos| around(c).contains(d) && turn_of(c, d) < k),
                ),
                ..first
            }),
        decreases 27 - k,
    {
        let d = ChunkPos { x: c.x - 1 + k % 3, y: c.y - 1 + k / 3 % 3, z: c.z - 1 + k / 9 };
        let ghost before = w@;
        w.generate(d);
        proof {
            assert(turn_of(c, d) == k);
            assert forall|e: ChunkPos| touches(c, e) && turn_of(c, e) == k implies e == d by {}
            assert(w@.chunks =~= first.chunks.union(
                Set::new(|e: ChunkPos| around(c).contains(e) && turn_of(c, e) < k + 1),
            ));
        }
        k = k + 1;
    }
    assert(w@.chunks =~= first.chunks.union(around(c)));
}

/// A region taken once its surroundings are materialised shows the world's blocks.
proof fn complete_regions_show_the_world(w: World, c: ChunkPos, data: Seq<u8>)
    requires
        w.wf(),
        c.in_limits(),
        around(c).subset_of(w@.chunks),
        data.len() == REGION_BLOCKS,
        forall|x: int, y: int, z: int|
            0 <= x < 26 && 0 <= y < 26 && 0 <= z < 26 ==> (#[trigger] world::region_byte(
                data,
                x,
                y,
                z,
            )) == w@.region_cell(c, x, y, z),
    ensures
        shows(w@, c, data),
{
    assert forall|x: int, y: int, z: int|
        0 <= x < 26 && 0 <= y < 26 && 0 <= z < 26 implies (#[trigger] world::region_byte(
        data,
        x,
        y,
        z,
    )) == w@.content(world::region_block(c, x, y, z)).id() by {
        let p: BlockPos = world::region_block(c, x, y, z);
        let d = ChunkPos::spec_of(p);
        assert(touches(c, d));
        if d.spec_guaranteed_air() {
            world::above_the_world_is_air(w, p);
            crate::block::ids_and_blocks_correspond();
        } else {
            assert(around(c).contains(d));
        }
    }
}

impl Streamer {
    /// Sends the viewer the next chunks, and materialises what they show.
    pub fn tick(&mut self, w: &mut World, cell: (i32, i32, i32)) -> (v: Vec<WorldUpdate>)
        requires
            old(self).wf(),
            old(w).wf(),
            well_inside(cell),
        ensures
            final(self).wf(),
            final(w).wf(),
            in_turn(old(self)@, v@, cell),
            final(self)@ == sent_after(old(self)@, v@),
            v@.len() <= CHUNKS_PER_TICK,
            v@.len() < CHUNKS_PER_TICK ==> forall|c: ChunkPos| !#[trigger] owed(
                final(self)@,
                c,
                cell,
            ),
            forall|k: int|
                0 <= k < v@.len() ==> shows(old(w)@, chunk_of(#[trigger] v@[k]), bytes_of(v@[k])),
            final(w)@ == (WorldView { chunks: drawn_after(old(w)@.chunks, v@), ..old(w)@ }),
    {
        let mut v: Vec<WorldUpdate> = Vec::new();
        let ghost sent = self@;
        let ghost start = w@;
        while v.len() < CHUNKS_PER_TICK
            invariant
                self.wf(),
                w.wf(),
                well_inside(cell),
                sent == old(self)@,
                start == old(w)@,
                v@.len() <= CHUNKS_PER_TICK,
                in_turn(sent, v@, cell),
                self@ == sent_after(sent, v@),
                forall|k: int|
                    0 <= k < v@.len() ==> shows(start, chunk_of(#[trigger] v@[k]), bytes_of(v@[k])),
                w@ == (WorldView { chunks: drawn_after(start.chunks, v@), ..start }),
            decreases CHUNKS_PER_TICK - v.len(),
        {
            let c = match self.next(cell) {
                Some(c) => c,
                None => {
                    return v;
                },
            };
            materialise(w, c);
            let data = w.region(c);
            proof {
                complete_regions_show_the_world(*w, c, data@);
                assert forall|p: BlockPos| #[trigger] w@.content(p) == start.content(p) by {}
                assert(shows(start, c, data@));
            }
            self.note_sent(c);
            let ghost before = v@;
            v.push(WorldUpdate::Chunk { pos: c, data });
            proof {
                assert(v@.drop_last() =~= before);
                assert forall|k: int| 0 <= k < v@.len() implies is_next(
                    sent_after(sent, v@.take(k)),
                    chunk_of(#[trigger] v@[k]),
                    cell,
                ) by {
                    if k < before.len() {
                        assert(v@.take(k) =~= before.take(k));
                        assert(v@[k] == before[k]);
                    } else {
                        assert(v@.take(k) =~= before);
                    }
                }
            }
        }
        v
    }
}

// ---- Laws ----------------------------------------------------------------------------

/// A chunk sent after an edit shows the edit, and the rest as it was.
pub proof fn edits_reach_viewers(
    w: WorldView,
    p: BlockPos,
    b: Block,
    c: ChunkPos,
    data: Seq<u8>,
    x: int,
    y: int,
    z: int,
)
    requires
        p.spec_in_world_y(),
        shows(w.with_edit(p, b), c, data),
        0 <= x < 26,
        0 <= y < 26,
        0 <= z < 26,
    ensures
        world::region_byte(data, x, y, z) == (if world::region_block(c, x, y, z) == p {
            b.id()
        } else {
            w.content(world::region_block(c, x, y, z)).id()
        }),
{
    world::edits_read_back(w, p, b, world::region_block(c, x, y, z));
}

/// What is sent in a tick was owed before it, and is not sent twice.
pub proof fn ticks_send_what_is_owed(
    sent: Set<ChunkPos>,
    v: Seq<WorldUpdate>,
    cell: (i32, i32, i32),
    k: int,
    m: int,
)
    requires
        in_turn(sent, v, cell),
        0 <= k < m < v.len(),
    ensures
        owed(sent, chunk_of(v[m]), cell),
        chunk_of(v[k]) != chunk_of(v[m]),
        chunk_set::distance(chunk_of(v[k]), cell) <= chunk_set::distance(chunk_of(v[m]), cell),
{
    let u = v.take(m);
    assert(is_next(sent_after(sent, u), chunk_of(v[m]), cell));
    sent_grows(sent, u, k);
    assert(u[k] == v[k]);
    let w = v.take(k);
    assert(is_next(sent_after(sent, w), chunk_of(v[k]), cell));
    assert(u.take(k) =~= w);
    assert(owed(sent_after(sent, w), chunk_of(v[m]), cell));
}

proof fn sent_grows(sent: Set<ChunkPos>, u: Seq<WorldUpdate>, k: int)
    requires
        0 <= k < u.len(),
    ensures
        sent_after(sent, u).contains(chunk_of(u[k])),
        sent.subset_of(sent_after(sent, u)),
        sent_after(sent, u.take(k)).subset_of(sent_after(sent, u)),
    decreases u.len(),
{
    let t = u.drop_last();
    if k < t.len() {
        sent_grows(sent, t, k);
        assert(t.take(k) =~= u.take(k));
        assert(t[k] == u[k]);
    } else {
        assert(u.take(k) =~= t);
        if t.len() > 0 {
            sent_grows(sent, t, 0);
        }
    }
}

/// What is given back and still seen is owed again, and so is what was edited.
pub proof fn what_is_given_back_is_owed(
    sent: Set<ChunkPos>,
    back: Seq<ChunkPos>,
    c: ChunkPos,
    cell: (i32, i32, i32),
)
    requires
        back.contains(c),
        visible(c, cell),
    ensures
        owed(sent.difference(back.to_set()), c, cell),
{
    assert(back.to_set().contains(c));
}

/// After a viewer has said what they have, they are owed just what they see and
/// have not, or never had.
pub proof fn what_was_lost_is_owed(
    sent: Set<ChunkPos>,
    have: Seq<ChunkPos>,
    c: ChunkPos,
    cell: (i32, i32, i32),
)
    ensures
        owed(
            sent.filter(|d: ChunkPos| !visible(d, cell) || have.contains(d)),
            c,
            cell,
        ) <==> visible(c, cell) && (!sent.contains(c) || !have.contains(c)),
{
}

/// Sending the next chunk brings the viewer nearer to having everything: what was
/// owed still is, but for the one that was sent.
pub proof fn sending_pays_one(
    sent: Set<ChunkPos>,
    c: ChunkPos,
    d: ChunkPos,
    cell: (i32, i32, i32),
)
    requires
        is_next(sent, c, cell),
    ensures
        owed(sent.insert(c), d, cell) <==> owed(sent, d, cell) && d != c,
{
}

/// What was sent after a tick is what was sent before it and what was sent in it.
pub proof fn sent_chunks_are_noted(sent: Set<ChunkPos>, v: Seq<WorldUpdate>, c: ChunkPos)
    ensures
        sent_after(sent, v).contains(c) <==> sent.contains(c) || exists|k: int|
            0 <= k < v.len() && ((#[trigger] v[k]) matches WorldUpdate::Chunk { pos, .. } && pos
                == c),
    decreases v.len(),
{
    if v.len() > 0 {
        let t = v.drop_last();
        sent_chunks_are_noted(sent, t, c);
        assert forall|k: int| 0 <= k < t.len() implies #[trigger] t[k] == v[k] by {}
        assert(v[v.len() - 1] == v.last());
        if exists|k: int|
            0 <= k < t.len() && ((#[trigger] t[k]) matches WorldUpdate::Chunk { pos, .. } && pos
                == c) {
            let k = choose|k: int|
                0 <= k < t.len() && ((#[trigger] t[k]) matches WorldUpdate::Chunk { pos, .. } && pos
                    == c);
            assert(v[k] == t[k]);
        }
        if exists|k: int|
            0 <= k < v.len() && ((#[trigger] v[k]) matches WorldUpdate::Chunk { pos, .. } && pos
                == c) {
            let k = choose|k: int|
                0 <= k < v.len() && ((#[trigger] v[k]) matches WorldUpdate::Chunk { pos, .. } && pos
                    == c);
            if k < t.len() {
                assert(t[k] == v[k]);
            }
        }
    }
}

/// Viewers are served in the inner world, which ends 134217700 chunks from the middle.
pub proof fn the_inner_world_is_wide(cell: (i32, i32, i32))
    ensures
        well_inside(cell) <==> -134217700 <= cell.0 <= 134217700 && -134217700 <= cell.2
            <= 134217700,
        CHUNKS_PER_TICK == 8,
{
}

/// What is materialised after a tick is what was before it, and all that touches a chunk
/// that was sent in it, below the top of the world.
pub proof fn surroundings_are_materialised(
    chunks: Set<ChunkPos>,
    v: Seq<WorldUpdate>,
    d: ChunkPos,
)
    ensures
        drawn_after(chunks, v).contains(d) <==> chunks.contains(d) || (d.y < 4 && exists|k: int|
            0 <= k < v.len() && ((#[trigger] v[k]) matches WorldUpdate::Chunk { pos, .. } && -1
                <= d.x - pos.x <= 1 && -1 <= d.y - pos.y <= 1 && -1 <= d.z - pos.z <= 1)),
    decreases v.len(),
{
    if v.len() > 0 {
        let t = v.drop_last();
        surroundings_are_materialised(chunks, t, d);
        assert forall|k: int| 0 <= k < t.len() implies #[trigger] t[k] == v[k] by {}
        assert(v[v.len() - 1] == v.last());
        if d.y < 4 && exists|k: int|
            0 <= k < t.len() && ((#[trigger] t[k]) matches WorldUpdate::Chunk { pos, .. } && -1
                <= d.x - pos.x <= 1 && -1 <= d.y - pos.y <= 1 && -1 <= d.z - pos.z <= 1) {
            let k = choose|k: int|
                0 <= k < t.len() && ((#[trigger] t[k]) matches WorldUpdate::Chunk { pos, .. } && -1
                    <= d.x - pos.x <= 1 && -1 <= d.y - pos.y <= 1 && -1 <= d.z - pos.z <= 1);
            assert(v[k] == t[k]);
        }
        if d.y < 4 && exists|k: int|
            0 <= k < v.len() && ((#[trigger] v[k]) matches WorldUpdate::Chunk { pos, .. } && -1
                <= d.x - pos.x <= 1 && -1 <= d.y - pos.y <= 1 && -1 <= d.z - pos.z <= 1) {
            let k = choose|k: int|
                0 <= k < v.len() && ((#[trigger] v[k]) matches WorldUpdate::Chunk { pos, .. } && -1
                    <= d.x - pos.x <= 1 && -1 <= d.y - pos.y <= 1 && -1 <= d.z - pos.z <= 1);
            if k < t.len() {
                assert(t[k] == v[k]);
            }
        }
    }
}

} // verus!
