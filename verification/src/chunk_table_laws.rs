//! What holds of the table of drawn chunks as a whole.
use vstd::prelude::*;

use crate::chunk_set;
use crate::chunk_table;
use crate::chunk_table::{Entry, Outcome, TableView};
use crate::coords::ChunkPos;
use crate::mesh;
use crate::mesh::MeshData;
use crate::pool_laws;
use crate::world::WorldUpdate;

verus! {

/// No two chunks are drawn from the same place of the pool, whether their opaque or
/// their translucent parts.
pub proof fn draws_do_not_overlap(t: TableView, j: int, k: int)
    requires
        t.sound(),
        0 <= j < k < t.entries.len(),
    ensures
        ({
            let a = chunk_table::opaque_draw(t.entries[j]);
            let b = chunk_table::translucent_draw(t.entries[j]);
            let c = chunk_table::opaque_draw(t.entries[k]);
            let d = chunk_table::translucent_draw(t.entries[k]);
            &&& a.first <= a.end == b.first <= b.end
            &&& c.first <= c.end == d.first <= d.end
            &&& b.end <= c.first || d.end <= a.first
        }),
{
    let s = chunk_table::slots(t.entries);
    assert(s[j] == t.entries[j].slot && s[k] == t.entries[k].slot);
    assert(s[j].apart(s[k]));
    assert(t.entries[j].i <= s[j].i_count && t.entries[k].i <= s[k].i_count);
}

proof fn reports_stay(t: TableView, need_v: int, need_i: int, pos: ChunkPos)
    requires
        t.evicted.contains(pos),
    ensures
        t.made_room(need_v, need_i).0.evicted.contains(pos),
    decreases t.entries.len(),
{
    let k = chunk_table::victim(t.entries, t.camera);
    if 0 <= k < t.entries.len() {
        let u = t.evict(k);
        let i = choose|i: int| 0 <= i < t.evicted.len() && t.evicted[i] == pos;
        assert(u.evicted[i] == pos);
        if u.pool.allocated(need_v, need_i) is None {
            reports_stay(u, need_v, need_i, pos);
        }
    }
}

/// Every chunk that gives way is reported, so that it can be sent again.
pub proof fn chunks_that_give_way_are_reported(
    t: TableView,
    need_v: int,
    need_i: int,
    pos: ChunkPos,
)
    requires
        chunk_table::held(t.entries, pos),
    ensures
        ({
            let u = t.made_room(need_v, need_i).0;
            chunk_table::held(u.entries, pos) || u.evicted.contains(pos)
        }),
    decreases t.entries.len(),
{
    let k = chunk_table::victim(t.entries, t.camera);
    if 0 <= k < t.entries.len() {
        let u = t.evict(k);
        let j = choose|j: int| chunk_table::is_at(t.entries, pos, j);
        if j == k {
            assert(u.evicted[t.evicted.len() as int] == pos);
            if u.pool.allocated(need_v, need_i) is None {
                reports_stay(u, need_v, need_i, pos);
            }
        } else {
            assert(chunk_table::is_at(
                u.entries,
                pos,
                if j < k {
                    j
                } else {
                    j - 1
                },
            ));
            if u.pool.allocated(need_v, need_i) is None {
                chunks_that_give_way_are_reported(u, need_v, need_i, pos);
            }
        }
    }
}

/// When a chunk arrives, every other one that was in the pool still is, or is
/// reported.
pub proof fn no_chunk_is_lost_in_silence(
    t: TableView,
    pos: ChunkPos,
    data: Seq<u8>,
    other: ChunkPos,
)
    requires
        chunk_table::held(t.entries, other),
        other != pos,
    ensures
        ({
            let u = t.built(pos, data).0;
            chunk_table::held(u.entries, other) || u.evicted.contains(other)
        }),
{
    let base = t.without(pos);
    if chunk_table::held(t.entries, pos) {
        let k = choose|k: int| chunk_table::is_at(t.entries, pos, k);
        let j = choose|j: int| chunk_table::is_at(t.entries, other, j);
        assert(chunk_table::is_at(
            base.entries,
            other,
            if j < k {
                j
            } else {
                j - 1
            },
        ));
    }
    assert(chunk_table::held(base.entries, other));
    let v = chunk_table::opaque_count(pos, data);
    let w = chunk_table::translucent_count(pos, data);
    let need_v = (v + w) as int;
    let need_i = (v / 4 * 6 + w / 4 * 6) as int;
    chunks_that_give_way_are_reported(base, need_v, need_i, other);
    let (r, s) = base.reserved(need_v, need_i);
    let u = t.built(pos, data).0;
    if data.len() == crate::coords::REGION_BLOCKS && v + w > 0 {
        if chunk_table::held(r.entries, other) {
            let j = choose|j: int| chunk_table::is_at(r.entries, other, j);
            assert(chunk_table::is_at(u.entries, other, j));
        } else {
            let i = choose|i: int| 0 <= i < r.evicted.len() && r.evicted[i] == other;
            assert(u.evicted[i] == other);
        }
    }
}

/// A chunk that arrives is in the pool afterwards, or has nothing to draw, or is
/// reported itself.
pub proof fn arrivals_are_drawn_or_reported(t: TableView, pos: ChunkPos, data: Seq<u8>)
    requires
        data.len() == crate::coords::REGION_BLOCKS,
        chunk_table::opaque_count(pos, data) + chunk_table::translucent_count(pos, data) > 0,
    ensures
        ({
            let u = t.built(pos, data).0;
            chunk_table::held(u.entries, pos) || u.evicted.contains(pos)
        }),
{
    let u = t.built(pos, data).0;
    let v = chunk_table::opaque_count(pos, data);
    let w = chunk_table::translucent_count(pos, data);
    let (r, s) = t.without(pos).reserved((v + w) as int, (v / 4 * 6 + w / 4 * 6) as int);
    if s is Some {
        assert(chunk_table::is_at(u.entries, pos, r.entries.len() as int));
    } else {
        assert(u.evicted[r.evicted.len() as int] == pos);
    }
}

/// Whoever stays is no farther off than anyone who gave way.
pub proof fn the_farthest_give_way(t: TableView, need_v: int, need_i: int, i: int, j: int)
    requires
        t.evicted.len() <= i < t.made_room(need_v, need_i).0.evicted.len(),
        0 <= j < t.made_room(need_v, need_i).0.entries.len(),
    ensures
        ({
            let u = t.made_room(need_v, need_i).0;
            chunk_set::distance(u.entries[j].pos, t.camera) <= chunk_set::distance(
                u.evicted[i],
                t.camera,
            )
        }),
    decreases t.entries.len(),
{
    let k = chunk_table::victim(t.entries, t.camera);
    if 0 <= k < t.entries.len() {
        let e = t.evict(k);
        let u = t.made_room(need_v, need_i).0;
        chunk_table::a_victim_exists(t.entries, t.camera);
        assert(chunk_table::is_victim(t.entries, t.camera, k));
        if e.pool.allocated(need_v, need_i) is Some {
            let x = if j < k {
                j
            } else {
                j + 1
            };
            assert(u.entries[j] == t.entries[x]);
            assert(!chunk_table::yields(t.entries[x], t.entries[k], t.camera));
        } else {
            survivors_were_there(e, need_v, need_i, j);
            if i == t.evicted.len() {
                let x = choose|x: int|
                    0 <= x < e.entries.len() && #[trigger] e.entries[x] == u.entries[j];
                let y = if x < k {
                    x
                } else {
                    x + 1
                };
                assert(e.entries[x] == t.entries[y]);
                assert(!chunk_table::yields(t.entries[y], t.entries[k], t.camera));
                evictions_are_kept(e, need_v, need_i, i);
                assert(u.evicted[i] == e.evicted[i]);
            } else {
                the_farthest_give_way(e, need_v, need_i, i, j);
            }
        }
    }
}

proof fn survivors_were_there(t: TableView, need_v: int, need_i: int, j: int)
    requires
        0 <= j < t.made_room(need_v, need_i).0.entries.len(),
    ensures
        exists|x: int|
            0 <= x < t.entries.len() && #[trigger] t.entries[x] == t.made_room(
                need_v,
                need_i,
            ).0.entries[j],
    decreases t.entries.len(),
{
    let k = chunk_table::victim(t.entries, t.camera);
    let u = t.made_room(need_v, need_i).0;
    if 0 <= k < t.entries.len() {
        let e = t.evict(k);
        let x = if e.pool.allocated(need_v, need_i) is Some {
            j
        } else {
            survivors_were_there(e, need_v, need_i, j);
            choose|x: int| 0 <= x < e.entries.len() && #[trigger] e.entries[x] == u.entries[j]
        };
        let y = if x < k {
            x
        } else {
            x + 1
        };
        assert(e.entries[x] == t.entries[y]);
    } else {
        assert(t.entries[j] == u.entries[j]);
    }
}

proof fn evictions_are_kept(t: TableView, need_v: int, need_i: int, i: int)
    requires
        0 <= i < t.evicted.len(),
    ensures
        i < t.made_room(need_v, need_i).0.evicted.len(),
        t.made_room(need_v, need_i).0.evicted[i] == t.evicted[i],
    decreases t.entries.len(),
{
    let k = chunk_table::victim(t.entries, t.camera);
    if 0 <= k < t.entries.len() {
        let e = t.evict(k);
        if e.pool.allocated(need_v, need_i) is None {
            evictions_are_kept(e, need_v, need_i, i);
        }
        assert(e.evicted[i] == t.evicted[i]);
    }
}

/// Every chunk is drawn with its own vertices: each index of its opaque part, counted
/// from where the draw begins to count, names a vertex of the first part of its slot,
/// and each of its translucent part one of the rest. What is drawn are the slot's
/// indices, all of them, each in one of the two draws.
pub proof fn draws_read_their_own_slot(t: TableView, k: int, n: int)
    requires
        t.sound(),
        0 <= k < t.entries.len(),
    ensures
        ({
            let e = t.entries[k];
            let a = chunk_table::opaque_draw(e);
            let b = chunk_table::translucent_draw(e);
            &&& a.base == e.slot.base_v
            &&& 0 <= n < e.v ==> e.slot.base_v <= a.base + n < e.slot.base_v + e.slot.v_count
            &&& b.base == e.slot.base_v + e.v
            &&& 0 <= n < e.slot.v_count - e.v ==> e.slot.base_v + e.v <= b.base + n
                < e.slot.base_v + e.slot.v_count
            &&& a.first == e.slot.base_i
            &&& a.end - a.first == e.i
            &&& b.first == a.end
            &&& b.end == e.slot.base_i + e.slot.i_count
        }),
{
    let s = chunk_table::slots(t.entries);
    assert(s[k] == t.entries[k].slot);
    assert(t.entries[k].v <= s[k].v_count && t.entries[k].i <= s[k].i_count);
}

/// Two chunks never read a common vertex, whichever of their parts is drawn.
pub proof fn draws_share_no_vertex(t: TableView, j: int, k: int, m: int, n: int)
    requires
        t.sound(),
        0 <= j < t.entries.len(),
        0 <= k < t.entries.len(),
        j != k,
    ensures
        ({
            let d = t.entries[j];
            let e = t.entries[k];
            let (a, b) = (chunk_table::opaque_draw(d), chunk_table::translucent_draw(d));
            let (p, q) = (chunk_table::opaque_draw(e), chunk_table::translucent_draw(e));
            &&& 0 <= m < d.v && 0 <= n < e.v ==> a.base + m != p.base + n
            &&& 0 <= m < d.v && 0 <= n < e.slot.v_count - e.v ==> a.base + m != q.base + n
            &&& 0 <= m < d.slot.v_count - d.v && 0 <= n < e.slot.v_count - e.v ==> b.base + m
                != q.base + n
        }),
{
    draws_read_their_own_slot(t, j, m);
    draws_read_their_own_slot(t, k, n);
    let s = chunk_table::slots(t.entries);
    assert(s[j] == t.entries[j].slot && s[k] == t.entries[k].slot);
    if j < k {
        assert(s[j].apart(s[k]));
    } else {
        assert(s[k].apart(s[j]));
    }
}

/// The translucent parts are drawn in the order of the table, each chunk that has one
/// and no other.
pub proof fn translucent_parts_are_all_drawn(entries: Seq<Entry>, k: int)
    requires
        0 <= k < entries.len(),
    ensures
        entries[k].slot.i_count > entries[k].i ==> chunk_table::translucent_draws(
            entries,
        ).contains(chunk_table::translucent_draw(entries[k])),
        chunk_table::translucent_draws(entries).len() <= entries.len(),
        (forall|j: int| 0 <= j < entries.len() ==> (#[trigger] entries[j]).slot.i_count
            <= entries[j].i) ==> chunk_table::translucent_draws(entries).len() == 0,
        (forall|j: int| 0 <= j < entries.len() ==> (#[trigger] entries[j]).slot.i_count
            > entries[j].i) ==> chunk_table::translucent_draws(entries) == Seq::new(
            entries.len(),
            |j: int| chunk_table::translucent_draw(entries[j]),
        ),
    decreases entries.len(),
{
    let init = entries.drop_last();
    let last = entries.len() - 1;
    let all = chunk_table::translucent_draws(entries);
    let before = chunk_table::translucent_draws(init);
    assert forall|j: int| 0 <= j < init.len() implies init[j] == #[trigger] entries[j] by {}
    if init.len() > 0 {
        translucent_parts_are_all_drawn(
            init,
            if k < last {
                k
            } else {
                0
            },
        );
    }
    if k < last {
        assert(init[k] == entries[k]);
        if entries[k].slot.i_count > entries[k].i {
            let d = chunk_table::translucent_draw(entries[k]);
            let i = choose|i: int| 0 <= i < before.len() && before[i] == d;
            assert(all[i] == d);
        }
    } else if entries[k].slot.i_count > entries[k].i {
        assert(all[all.len() - 1] == chunk_table::translucent_draw(entries[k]));
    }
    if forall|j: int| 0 <= j < entries.len() ==> (#[trigger] entries[j]).slot.i_count
        > entries[j].i {
        assert forall|j: int| 0 <= j < init.len() implies (#[trigger] init[j]).slot.i_count
            > init[j].i by {
            assert(init[j] == entries[j]);
        }
        assert(entries[last].slot.i_count > entries[last].i);
        assert(all =~= Seq::new(
            entries.len(),
            |j: int| chunk_table::translucent_draw(entries[j]),
        ));
    }
    if forall|j: int| 0 <= j < entries.len() ==> (#[trigger] entries[j]).slot.i_count
        <= entries[j].i {
        assert forall|j: int| 0 <= j < init.len() implies (#[trigger] init[j]).slot.i_count
            <= init[j].i by {
            assert(init[j] == entries[j]);
        }
        assert(entries[last].slot.i_count <= entries[last].i);
    }
}

/// A chunk that is placed is drawn whole from the slot that its mesh goes to: its
/// opaque vertices come first there, its translucent ones after them, and its draws
/// have as many indices as its mesh, each of which names a vertex of the right part.
pub proof fn placed_chunks_are_drawn_whole(t: TableView, pos: ChunkPos, data: Seq<u8>, k: int)
    requires
        t.sound(),
        t.built(pos, data).1 is Placed,
    ensures
        ({
            let e = t.built(pos, data).0.entries.last();
            let slot = t.built(pos, data).1->Placed_0;
            let v = mesh::opaque_vertices(data, chunk_table::origin_of(pos), 4096).len();
            let w = mesh::translucent_vertices(data, chunk_table::origin_of(pos), 4096).len();
            let a = chunk_table::opaque_draw(e);
            let b = chunk_table::translucent_draw(e);
            &&& e.pos == pos
            &&& e.slot == slot
            &&& slot.v_count == v + w
            &&& a.end - a.first == mesh::fan_indices(v).len()
            &&& b.end - b.first == mesh::fan_indices(w).len()
            &&& 0 <= k < mesh::fan_indices(v).len() ==> slot.base_v <= a.base
                + mesh::fan_indices(v)[k] < slot.base_v + v
            &&& 0 <= k < mesh::fan_indices(w).len() ==> slot.base_v + v <= b.base
                + mesh::fan_indices(w)[k] < slot.base_v + v + w
        }),
{
    let o = chunk_table::origin_of(pos);
    let v = mesh::opaque_vertices(data, o, 4096).len();
    let w = mesh::translucent_vertices(data, o, 4096).len();
    mesh::meshes_are_bounded(data, o, 4096);
    mesh::meshes_are_drawable(data, o, 4096);
    let need_v = (v + w) as int;
    let need_i = (v / 4 * 6 + w / 4 * 6) as int;
    assert(need_i > 0);
    let base = t.without(pos);
    if chunk_table::held(t.entries, pos) {
        chunk_table::dropping_is_sound(t, choose|j: int| chunk_table::is_at(t.entries, pos, j));
    }
    slots_have_the_needed_counts(base, need_v, need_i);
    if 0 <= k < mesh::fan_indices(v).len() {
        mesh::indices_name_vertices(v, k);
    }
    if 0 <= k < mesh::fan_indices(w).len() {
        mesh::indices_name_vertices(w, k);
    }
}

proof fn slots_have_the_needed_counts(t: TableView, need_v: int, need_i: int)
    requires
        t.sound(),
        0 < need_v <= u32::MAX,
        0 < need_i <= u32::MAX,
        t.reserved(need_v, need_i).1 is Some,
    ensures
        ({
            let s = t.reserved(need_v, need_i).1->0;
            s.v_count == need_v && s.i_count == need_i && s.countable()
        }),
    decreases t.entries.len(),
{
    if t.pool.allocated(need_v, need_i) is Some {
        pool_laws::allocating_keeps_slots_apart(
            t.pool,
            chunk_table::slots(t.entries),
            need_v as u32,
            need_i as u32,
        );
        let live = chunk_table::slots(t.entries);
        let s = t.pool.allocated(need_v, need_i)->0;
        assert(live.push(s)[live.len() as int] == s);
    } else {
        let k = chunk_table::victim(t.entries, t.camera);
        chunk_table::dropping_is_sound(t, k);
        slots_have_the_needed_counts(t.evict(k), need_v, need_i);
    }
}

/// Of the chunks that found no room, the first is warned of, and every 120th.
pub proof fn few_refusals_are_warned_of(t: TableView, pos: ChunkPos, data: Seq<u8>)
    ensures
        t.built(pos, data).1 matches Outcome::Refused(warn) ==> {
            let n = t.built(pos, data).0.refused;
            &&& t.refused < u64::MAX ==> n == t.refused + 1
            &&& warn <==> n == 1 || n % 120 == 0
        },
        !(t.built(pos, data).1 is Refused) ==> t.built(pos, data).0.refused == t.refused,
        t.built(pos, data).1 is Ignored <==> data.len() != 17576,
        t.built(pos, data).1 is Ignored ==> t.built(pos, data).0 == t,
{
    making_room_refuses_nothing(t.without(pos), pos, data);
}

proof fn making_room_refuses_nothing(t: TableView, pos: ChunkPos, data: Seq<u8>)
    ensures
        ({
            let v = chunk_table::opaque_count(pos, data);
            let w = chunk_table::translucent_count(pos, data);
            t.reserved((v + w) as int, (v / 4 * 6 + w / 4 * 6) as int).0.refused == t.refused
        }),
{
    let v = chunk_table::opaque_count(pos, data);
    let w = chunk_table::translucent_count(pos, data);
    room_is_made_without_refusal(t, (v + w) as int, (v / 4 * 6 + w / 4 * 6) as int);
}

proof fn room_is_made_without_refusal(t: TableView, need_v: int, need_i: int)
    ensures
        t.made_room(need_v, need_i).0.refused == t.refused,
    decreases t.entries.len(),
{
    let k = chunk_table::victim(t.entries, t.camera);
    if 0 <= k < t.entries.len() {
        room_is_made_without_refusal(t.evict(k), need_v, need_i);
    }
}

/// A hole is a chunk that had something to draw, is near enough east and south, and is
/// not drawn.
pub proof fn holes_are_known_and_not_drawn(t: TableView, c: ChunkPos, far: int)
    ensures
        t.is_hole(c, far) <==> t.known.contains(c) && -far <= c.x - t.camera.0 <= far && -far <= c.z
            - t.camera.2 <= far && forall|k: int|
            0 <= k < t.entries.len() ==> (#[trigger] t.entries[k]).pos != c,
{
    if chunk_table::held(t.entries, c) {
        let k = choose|k: int| chunk_table::is_at(t.entries, c, k);
        assert(t.entries[k].pos == c);
    }
    if exists|k: int| 0 <= k < t.entries.len() && (#[trigger] t.entries[k]).pos == c {
        let k = choose|k: int| 0 <= k < t.entries.len() && (#[trigger] t.entries[k]).pos == c;
        assert(chunk_table::is_at(t.entries, c, k));
    }
}

/// Up to 262144 chunks are remembered; of more, those that are at most nine chunks away
/// in every direction. Nothing else is forgotten with them.
pub proof fn far_chunks_are_forgotten(t: TableView, c: ChunkPos)
    requires
        t.known.finite(),
    ensures
        t.known.len() <= 262144 ==> t.trimmed() == t,
        t.known.len() > 262144 ==> (t.trimmed().known.contains(c) <==> t.known.contains(c) && -9
            <= c.x - t.camera.0 <= 9 && -9 <= c.y - t.camera.1 <= 9 && -9 <= c.z - t.camera.2 <= 9),
        t.trimmed() == (TableView { known: t.trimmed().known, ..t }),
{
}

/// Updates are taken in one by one.
pub proof fn updates_are_taken_in_turn(t: TableView, u: Seq<(ChunkPos, Seq<u8>)>, n: nat)
    requires
        n < u.len(),
    ensures
        t.fed(u, 0) == t,
        t.fed(u, n + 1) == t.fed(u, n).built(u[n as int].0, u[n as int].1).0,
{
}

/// A chunk that was placed is known, and nothing else becomes known or is forgotten when a
/// chunk arrives. The camera stays where it is.
pub proof fn placed_chunks_are_known(t: TableView, pos: ChunkPos, data: Seq<u8>)
    ensures
        t.built(pos, data).1 is Placed ==> t.built(pos, data).0.known == t.known.insert(pos),
        !(t.built(pos, data).1 is Placed) ==> t.built(pos, data).0.known == t.known,
        t.built(pos, data).0.camera == t.camera,
{
    let v = chunk_table::opaque_count(pos, data);
    let w = chunk_table::translucent_count(pos, data);
    room_is_made_unseen(t.without(pos), (v + w) as int, (v / 4 * 6 + w / 4 * 6) as int);
}

proof fn room_is_made_unseen(t: TableView, need_v: int, need_i: int)
    ensures
        t.made_room(need_v, need_i).0.known == t.known,
        t.made_room(need_v, need_i).0.camera == t.camera,
    decreases t.entries.len(),
{
    let k = chunk_table::victim(t.entries, t.camera);
    if 0 <= k < t.entries.len() {
        room_is_made_unseen(t.evict(k), need_v, need_i);
    }
}

/// What is drawn of a chunk is drawn at its place: between its corner and the corner
/// sixteen blocks on, in thousandths of a block.
pub proof fn chunks_are_drawn_at_their_place(m: MeshData, pos: ChunkPos, data: Seq<u8>, k: int)
    requires
        chunk_table::shows(m, pos, data),
        pos.in_limits(),
    ensures
        0 <= k < m.vertices@.len() ==> {
            let v = m.vertices@[k];
            &&& 16000 * pos.x <= v.x <= 16000 * pos.x + 16000
            &&& 16000 * pos.y <= v.y <= 16000 * pos.y + 16000
            &&& 16000 * pos.z <= v.z <= 16000 * pos.z + 16000
        },
        0 <= k < m.water_vertices@.len() ==> {
            let v = m.water_vertices@[k];
            &&& 16000 * pos.x <= v.x <= 16000 * pos.x + 16000
            &&& 16000 * pos.y <= v.y <= 16000 * pos.y + 16000
            &&& 16000 * pos.z <= v.z <= 16000 * pos.z + 16000
        },
{
    let o = chunk_table::origin_of(pos);
    mesh::meshes_are_drawable(data, o, 4096);
    if 0 <= k < m.vertices@.len() {
        assert(mesh::drawable(o, m.vertices@[k]));
    }
    if 0 <= k < m.water_vertices@.len() {
        assert(mesh::drawable(o, m.water_vertices@[k]));
    }
}

/// Chunks are counted near a cell where they are at most one chunk from it east and south,
/// at any height.
pub proof fn near_chunks_are_counted(entries: Seq<Entry>, e: Entry, cell: (i32, i32, i32))
    ensures
        chunk_table::near_count(Seq::<Entry>::empty(), cell) == 0,
        chunk_table::near_count(entries.push(e), cell) == chunk_table::near_count(entries, cell) + (
        if -1 <= e.pos.x - cell.0 <= 1 && -1 <= e.pos.z - cell.2 <= 1 {
            1int
        } else {
            0
        }),
{
    assert(entries.push(e).drop_last() =~= entries);
}

/// What comes in is taken in the order in which it came, each chunk with its own bytes.
pub proof fn updates_keep_their_order(u: Seq<WorldUpdate>, k: int)
    requires
        0 <= k < u.len(),
    ensures
        chunk_table::incoming(u).len() == u.len(),
        u[k] matches WorldUpdate::Chunk { pos, data } && chunk_table::incoming(u)[k] == (pos, data@),
{
}

/// Nobody gives way where the pool has room as it is. Where it has none, and a slot is
/// found nevertheless, somebody did; and where none is found, nobody is left.
pub proof fn chunks_give_way_only_for_room(t: TableView, need_v: int, need_i: int)
    ensures
        t.pool.allocated(need_v, need_i) is Some ==> {
            let (u, s) = t.reserved(need_v, need_i);
            &&& s == t.pool.allocated(need_v, need_i)
            &&& u.entries == t.entries
            &&& u.evicted == t.evicted
        },
        t.pool.allocated(need_v, need_i) is None ==> {
            let (u, s) = t.reserved(need_v, need_i);
            &&& s is Some ==> u.entries.len() < t.entries.len()
            &&& s is None ==> u.entries.len() == 0
            &&& u.evicted.len() - t.evicted.len() == t.entries.len() - u.entries.len()
        },
{
    if t.pool.allocated(need_v, need_i) is None {
        room_is_made_one_by_one(t, need_v, need_i);
    }
}

proof fn room_is_made_one_by_one(t: TableView, need_v: int, need_i: int)
    ensures
        ({
            let (u, s) = t.made_room(need_v, need_i);
            &&& s is Some ==> u.entries.len() < t.entries.len()
            &&& s is None ==> u.entries.len() == 0
            &&& u.evicted.len() - t.evicted.len() == t.entries.len() - u.entries.len()
        }),
    decreases t.entries.len(),
{
    let k = chunk_table::victim(t.entries, t.camera);
    if t.entries.len() > 0 {
        chunk_table::a_victim_exists(t.entries, t.camera);
        room_is_made_one_by_one(t.evict(k), need_v, need_i);
    }
}

} // verus!
