//! Packing the terrain pool: chunks give way until there is room, and the others
//! move to the front, one against the other.
use vstd::prelude::*;

use crate::chunk_table;
use crate::chunk_table::{victim_of, Entry, TableView};
use crate::coords::ChunkPos;
use crate::pool;
use crate::pool::{PoolView, Slot};

verus! {

/// Vertices of chunks.
pub open spec fn live_v(entries: Seq<Entry>) -> int {
    pool::sum_v(chunk_table::slots(entries))
}

/// Indices of chunks.
pub open spec fn live_i(entries: Seq<Entry>) -> int {
    pool::sum_i(chunk_table::slots(entries))
}

/// Whether chunks leave room for so many vertices and indices more.
pub open spec fn leaves_room(entries: Seq<Entry>, p: PoolView, need_v: int, need_i: int) -> bool {
    live_v(entries) + need_v <= p.vert_cap && live_i(entries) + need_i <= p.idx_cap
}

/// The table after chunks gave way, the farthest first, until the others leave
/// room.
pub open spec fn thinned(t: TableView, need_v: int, need_i: int) -> TableView
    decreases t.entries.len(),
{
    let k = chunk_table::victim(t.entries, t.camera);
    if !leaves_room(t.entries, t.pool, need_v, need_i) && 0 <= k < t.entries.len() {
        thinned(
            TableView {
                entries: t.entries.remove(k),
                evicted: t.evicted.push(t.entries[k].pos),
                ..t
            },
            need_v,
            need_i,
        )
    } else {
        t
    }
}

/// A chunk with its slot behind all those before it.
pub open spec fn packed_entry(entries: Seq<Entry>, k: int) -> Entry {
    Entry {
        slot: Slot {
            base_v: live_v(entries.take(k)) as u32,
            base_i: live_i(entries.take(k)) as u32,
            ..entries[k].slot
        },
        ..entries[k]
    }
}

/// Chunks, each behind the one before it.
pub open spec fn packed(entries: Seq<Entry>) -> Seq<Entry> {
    Seq::new(entries.len(), |k: int| packed_entry(entries, k))
}

/// Whether the pool holds more than the chunks in it use.
pub open spec fn wasteful(t: TableView) -> bool {
    t.pool.high_v > live_v(t.entries) || t.pool.high_i > live_i(t.entries)
}

/// Whether packing changes anything: somebody has to give way, or something is
/// wasted.
pub open spec fn packs(t: TableView, need_v: int, need_i: int) -> bool {
    thinned(t, need_v, need_i).entries.len() != t.entries.len() || wasteful(t)
}

/// The table after packing. Where nobody has to give way and nothing is wasted, it
/// stays as it is.
pub open spec fn compacted(t: TableView, need_v: int, need_i: int) -> TableView {
    let u = thinned(t, need_v, need_i);
    if !packs(t, need_v, need_i) {
        t
    } else {
        TableView {
            entries: packed(u.entries),
            pool: PoolView {
                high_v: live_v(u.entries),
                high_i: live_i(u.entries),
                free: Seq::empty(),
                ..u.pool
            },
            ..u
        }
    }
}

proof fn live_of_push(entries: Seq<Entry>, e: Entry)
    ensures
        live_v(entries.push(e)) == live_v(entries) + e.slot.v_count,
        live_i(entries.push(e)) == live_i(entries) + e.slot.i_count,
{
    let s = chunk_table::slots(entries.push(e));
    assert(s.drop_last() =~= chunk_table::slots(entries));
    assert(s.last() == e.slot);
}

proof fn live_of_take(entries: Seq<Entry>, k: int)
    requires
        0 <= k < entries.len(),
    ensures
        live_v(entries.take(k + 1)) == live_v(entries.take(k)) + entries[k].slot.v_count,
        live_i(entries.take(k + 1)) == live_i(entries.take(k)) + entries[k].slot.i_count,
{
    assert(entries.take(k + 1) =~= entries.take(k).push(entries[k]));
    live_of_push(entries.take(k), entries[k]);
}

proof fn live_grows(entries: Seq<Entry>, a: int, b: int)
    requires
        0 <= a <= b <= entries.len(),
    ensures
        0 <= live_v(entries.take(a)) <= live_v(entries.take(b)),
        0 <= live_i(entries.take(a)) <= live_i(entries.take(b)),
    decreases b,
{
    if b > 0 {
        live_of_take(entries, b - 1);
        if a < b {
            live_grows(entries, a, b - 1);
        } else {
            live_grows(entries, a - 1, b - 1);
        }
    } else {
        assert(chunk_table::slots(entries.take(0)).len() == 0);
    }
}

proof fn live_is_bounded(entries: Seq<Entry>, k: int)
    requires
        0 <= k <= entries.len(),
    ensures
        0 <= live_v(entries.take(k)) <= k * 4294967295,
        0 <= live_i(entries.take(k)) <= k * 4294967295,
    decreases k,
{
    if k > 0 {
        live_of_take(entries, k - 1);
        live_is_bounded(entries, k - 1);
    } else {
        assert(chunk_table::slots(entries.take(0)).len() == 0);
    }
}

/// Packed chunks have their places for themselves.
pub proof fn packing_keeps_slots_apart(t: TableView)
    requires
        t.sound(),
        live_v(t.entries) <= t.pool.vert_cap,
        live_i(t.entries) <= t.pool.idx_cap,
    ensures
        (TableView {
            entries: packed(t.entries),
            pool: PoolView {
                high_v: live_v(t.entries),
                high_i: live_i(t.entries),
                free: Seq::empty(),
                ..t.pool
            },
            ..t
        }).sound(),
{
    let e = t.entries;
    let p = packed(e);
    let s = chunk_table::slots(p);
    assert(e.take(e.len() as int) =~= e);
    live_grows(e, 0, e.len() as int);
    assert forall|k: int| #![trigger s[k]] 0 <= k < s.len() implies {
        &&& s[k].v_count > 0
        &&& s[k].end_v() <= live_v(e)
        &&& s[k].end_i() <= live_i(e)
    } by {
        live_of_take(e, k);
        live_grows(e, k + 1, e.len() as int);
        live_grows(e, k, e.len() as int);
        assert(chunk_table::slots(e)[k] == e[k].slot);
    }
    assert forall|j: int, k: int| 0 <= j < k < s.len() implies (#[trigger] s[j]).apart(
        #[trigger] s[k],
    ) by {
        live_of_take(e, j);
        live_grows(e, j + 1, k);
        live_grows(e, k, e.len() as int);
        live_grows(e, j, e.len() as int);
    }
    assert forall|j: int, k: int| 0 <= j < p.len() && 0 <= k < p.len() && j != k implies (
    #[trigger] p[j]).pos != (#[trigger] p[k]).pos by {
        assert(e[j].pos != e[k].pos);
    }
    assert forall|k: int| #![trigger p[k]] 0 <= k < p.len() implies p[k].v <= p[k].slot.v_count
        && p[k].i <= p[k].slot.i_count by {
        assert(e[k].v <= e[k].slot.v_count);
    }
}

proof fn removing_is_sound(t: TableView, k: int, evicted: Seq<ChunkPos>)
    requires
        t.sound(),
        0 <= k < t.entries.len(),
    ensures
        (TableView { entries: t.entries.remove(k), evicted, ..t }).sound(),
{
    let e = t.entries;
    let r = e.remove(k);
    let s = chunk_table::slots(e);
    let q = chunk_table::slots(r);
    assert forall|j: int| #![trigger r[j]] 0 <= j < r.len() implies r[j] == e[if j < k {
        j
    } else {
        j + 1
    }] by {}
    assert forall|j: int| #![trigger q[j]] 0 <= j < q.len() implies q[j] == s[if j < k {
        j
    } else {
        j + 1
    }] by {
        assert(r[j] == e[if j < k {
            j
        } else {
            j + 1
        }]);
    }
}

fn totals(entries: &Vec<Entry>) -> (r: (u128, u128))
    ensures
        r.0 == live_v(entries@),
        r.1 == live_i(entries@),
{
    let mut v: u128 = 0;
    let mut i: u128 = 0;
    let mut k: usize = 0;
    assert(chunk_table::slots(entries@.take(0)).len() == 0);
    while k < entries.len()
        invariant
            k <= entries@.len(),
            v == live_v(entries@.take(k as int)),
            i == live_i(entries@.take(k as int)),
        decreases entries@.len() - k,
    {
        proof {
            live_of_take(entries@, k as int);
            live_is_bounded(entries@, k as int);
            assert(k * 4294967295 <= 79228162514264337589248983040) by (nonlinear_arith)
                requires
                    k <= 18446744073709551615,
            ;
        }
        v = v + entries[k].slot.v_count as u128;
        i = i + entries[k].slot.i_count as u128;
        k = k + 1;
    }
    assert(entries@.take(k as int) =~= entries@);
    (v, i)
}

/// What packing makes of a table's chunks: those that are left, in their new places,
/// and those that gave way, in order.
pub struct Packing {
    pub entries: Vec<Entry>,
    pub evicted: Vec<ChunkPos>,
    /// Vertices and indices in use.
    pub high_v: u32,
    pub high_i: u32,
}

/// Packs the chunks of a pool to make room for so many vertices and indices.
/// Nothing comes back where nobody has to give way and nothing is wasted.
pub(crate) fn compact_pool(
    entries: &Vec<Entry>,
    camera: (i32, i32, i32),
    used: (u32, u32),
    caps: (u32, u32),
    need_v: u32,
    need_i: u32,
    Ghost(t): Ghost<TableView>,
) -> (r: Option<Packing>)
    requires
        t.sound(),
        t.entries == entries@,
        t.camera == camera,
        t.pool.high_v == used.0,
        t.pool.high_i == used.1,
        t.pool.vert_cap == caps.0,
        t.pool.idx_cap == caps.1,
    ensures
        r is Some == packs(t, need_v as int, need_i as int),
        match r {
            Some(p) => {
                let c = compacted(t, need_v as int, need_i as int);
                &&& c == (TableView {
                    entries: p.entries@,
                    evicted: t.evicted + p.evicted@,
                    pool: PoolView {
                        high_v: p.high_v as int,
                        high_i: p.high_i as int,
                        free: Seq::empty(),
                        ..t.pool
                    },
                    ..t
                })
                &&& c.sound()
            },
            None => compacted(t, need_v as int, need_i as int) == t,
        },
{
    let start = totals(entries);
    let count: usize = entries.len();
    let mut live = start;
    let mut kept: Vec<Entry> = copy_entries(entries);
    let mut evicted: Vec<ChunkPos> = Vec::new();
    let ghost mut u = t;
    proof {
        assert(t.evicted + evicted@ =~= t.evicted);
        assert(kept@.len() == count);
        live_bound(kept@);
    }
    while kept.len() > 0 && (live.0 + need_v as u128 > caps.0 as u128 || live.1 + need_i as u128
        > caps.1 as u128)
        invariant
            kept@.len() <= entries@.len(),
            live.0 == live_v(kept@),
            live.1 == live_i(kept@),
            u.sound(),
            u == (TableView { entries: kept@, evicted: t.evicted + evicted@, ..t }),
            t.camera == camera,
            t.pool.vert_cap == caps.0,
            t.pool.idx_cap == caps.1,
            live.0 <= 79228162514264337589248983040,
            live.1 <= 79228162514264337589248983040,
            thinned(u, need_v as int, need_i as int) == thinned(t, need_v as int, need_i as int),
        decreases kept@.len(),
    {
        let k: usize = victim_of(&kept, camera);
        proof {
            chunk_table::victim_is_one(kept@, camera, k as int);
            removing_is_sound(u, k as int, u.evicted.push(kept@[k as int].pos));
        }
        let ghost before = kept@;
        let e = kept.remove(k);
        evicted.push(e.pos);
        live = totals(&kept);
        proof {
            let more = TableView {
                entries: before.remove(k as int),
                evicted: u.evicted.push(e.pos),
                ..u
            };
            assert(t.evicted + evicted@ =~= u.evicted.push(e.pos));
            assert(kept@ =~= before.remove(k as int));
            u = more;
            live_bound(kept@);
        }
    }
    proof {
        thinning_stops(u, need_v as int, need_i as int);
    }
    if kept.len() == entries.len() && used.0 as u128 <= start.0 && used.1 as u128 <= start.1 {
        proof {
            thinned_or_shorter(t, need_v as int, need_i as int);
        }
        return None;
    }
    let mut out: Vec<Entry> = Vec::new();
    let mut v: u32 = 0;
    let mut i: u32 = 0;
    let mut k: usize = 0;
    proof {
        assert(chunk_table::slots(kept@.take(0)).len() == 0);
        if kept@.len() > 0 {
            assert(leaves_room(kept@, t.pool, need_v as int, need_i as int));
        } else {
            assert(chunk_table::slots(kept@).len() == 0);
        }
        assert(live_v(kept@) <= caps.0 && live_i(kept@) <= caps.1);
    }
    while k < kept.len()
        invariant
            k <= kept@.len(),
            out@.len() == k,
            v == live_v(kept@.take(k as int)),
            i == live_i(kept@.take(k as int)),
            live_v(kept@) <= caps.0,
            live_i(kept@) <= caps.1,
            forall|j: int| 0 <= j < k ==> #[trigger] out@[j] == packed_entry(kept@, j),
        decreases kept@.len() - k,
    {
        let e = kept[k];
        proof {
            live_of_take(kept@, k as int);
            live_grows(kept@, k as int + 1, kept@.len() as int);
            assert(kept@.take(kept@.len() as int) =~= kept@);
        }
        out.push(
            Entry {
                pos: e.pos,
                slot: Slot {
                    base_v: v,
                    base_i: i,
                    v_count: e.slot.v_count,
                    i_count: e.slot.i_count,
                },
                v: e.v,
                i: e.i,
            },
        );
        v = v + e.slot.v_count;
        i = i + e.slot.i_count;
        k = k + 1;
    }
    proof {
        assert(kept@.take(k as int) =~= kept@);
        assert(out@ =~= packed(kept@));
        packing_keeps_slots_apart(u);
        thinned_or_shorter(t, need_v as int, need_i as int);
    }
    Some(Packing { entries: out, evicted, high_v: v, high_i: i })
}

fn copy_entries(entries: &Vec<Entry>) -> (r: Vec<Entry>)
    ensures
        r@ == entries@,
{
    let mut r: Vec<Entry> = Vec::new();
    let mut k: usize = 0;
    while k < entries.len()
        invariant
            k <= entries@.len(),
            r@ == entries@.take(k as int),
        decreases entries@.len() - k,
    {
        r.push(entries[k]);
        assert(entries@.take(k as int + 1) =~= entries@.take(k as int).push(entries@[k as int]));
        k = k + 1;
    }
    assert(entries@.take(k as int) =~= entries@);
    r
}

proof fn live_bound(entries: Seq<Entry>)
    requires
        entries.len() <= usize::MAX,
    ensures
        live_v(entries) <= 79228162514264337589248983040,
        live_i(entries) <= 79228162514264337589248983040,
{
    let n = entries.len() as int;
    assert(entries.take(n) =~= entries);
    live_is_bounded(entries, n);
    assert(n * 4294967295 <= 79228162514264337589248983040) by (nonlinear_arith)
        requires
            n <= 18446744073709551615,
    ;
}

proof fn thinning_stops(t: TableView, need_v: int, need_i: int)
    requires
        t.entries.len() == 0 || leaves_room(t.entries, t.pool, need_v, need_i),
    ensures
        thinned(t, need_v, need_i) == t,
{
}

proof fn thinned_or_shorter(t: TableView, need_v: int, need_i: int)
    ensures
        thinned(t, need_v, need_i).entries.len() <= t.entries.len(),
        thinned(t, need_v, need_i).entries.len() == t.entries.len() ==> thinned(t, need_v, need_i)
            == t,
    decreases t.entries.len(),
{
    let k = chunk_table::victim(t.entries, t.camera);
    if !leaves_room(t.entries, t.pool, need_v, need_i) && 0 <= k < t.entries.len() {
        thinned_or_shorter(
            TableView {
                entries: t.entries.remove(k),
                evicted: t.evicted.push(t.entries[k].pos),
                ..t
            },
            need_v,
            need_i,
        );
    }
}

// ---- Laws ------------------------------------------------------------------------

/// Packing leaves room for what is needed, unless the pool is too small for it even
/// when it is empty.
pub proof fn packing_makes_room(t: TableView, need_v: int, need_i: int)
    requires
        need_v <= t.pool.vert_cap,
        need_i <= t.pool.idx_cap,
    ensures
        leaves_room(thinned(t, need_v, need_i).entries, t.pool, need_v, need_i),
    decreases t.entries.len(),
{
    if !leaves_room(t.entries, t.pool, need_v, need_i) {
        if t.entries.len() == 0 {
            assert(chunk_table::slots(t.entries).len() == 0);
        } else {
            chunk_table::a_victim_exists(t.entries, t.camera);
            let k = chunk_table::victim(t.entries, t.camera);
            packing_makes_room(
                TableView {
                    entries: t.entries.remove(k),
                    evicted: t.evicted.push(t.entries[k].pos),
                    ..t
                },
                need_v,
                need_i,
            );
        }
    }
}

/// Every chunk that packing takes off the table is reported.
pub proof fn packing_reports_everyone(t: TableView, need_v: int, need_i: int, pos: ChunkPos)
    requires
        chunk_table::held(t.entries, pos),
    ensures
        ({
            let u = thinned(t, need_v, need_i);
            chunk_table::held(u.entries, pos) || u.evicted.contains(pos)
        }),
    decreases t.entries.len(),
{
    let k = chunk_table::victim(t.entries, t.camera);
    if !leaves_room(t.entries, t.pool, need_v, need_i) && 0 <= k < t.entries.len() {
        let u = TableView {
            entries: t.entries.remove(k),
            evicted: t.evicted.push(t.entries[k].pos),
            ..t
        };
        let j = choose|j: int| chunk_table::is_at(t.entries, pos, j);
        if j == k {
            assert(u.evicted[t.evicted.len() as int] == pos);
            thinning_keeps_reports(u, need_v, need_i, pos);
        } else {
            assert(chunk_table::is_at(
                u.entries,
                pos,
                if j < k {
                    j
                } else {
                    j - 1
                },
            ));
            packing_reports_everyone(u, need_v, need_i, pos);
        }
    }
}

proof fn thinning_keeps_reports(t: TableView, need_v: int, need_i: int, pos: ChunkPos)
    requires
        t.evicted.contains(pos),
    ensures
        thinned(t, need_v, need_i).evicted.contains(pos),
    decreases t.entries.len(),
{
    let k = chunk_table::victim(t.entries, t.camera);
    if !leaves_room(t.entries, t.pool, need_v, need_i) && 0 <= k < t.entries.len() {
        let u = TableView {
            entries: t.entries.remove(k),
            evicted: t.evicted.push(t.entries[k].pos),
            ..t
        };
        let i = choose|i: int| 0 <= i < t.evicted.len() && t.evicted[i] == pos;
        assert(u.evicted[i] == pos);
        thinning_keeps_reports(u, need_v, need_i, pos);
    }
}

/// Packed chunks stand one against the other, from the front, in the order in which they
/// were, each with what it had.
pub proof fn packed_chunks_leave_no_gaps(entries: Seq<Entry>, k: int)
    requires
        0 <= k < entries.len(),
        live_v(entries) <= u32::MAX,
        live_i(entries) <= u32::MAX,
    ensures
        packed(entries).len() == entries.len(),
        packed(entries)[k].pos == entries[k].pos,
        packed(entries)[k].v == entries[k].v,
        packed(entries)[k].i == entries[k].i,
        packed(entries)[k].slot.v_count == entries[k].slot.v_count,
        packed(entries)[k].slot.i_count == entries[k].slot.i_count,
        packed(entries)[0].slot.base_v == 0,
        packed(entries)[0].slot.base_i == 0,
        k + 1 < entries.len() ==> packed(entries)[k + 1].slot.base_v
            == packed(entries)[k].slot.base_v + entries[k].slot.v_count,
        k + 1 < entries.len() ==> packed(entries)[k + 1].slot.base_i
            == packed(entries)[k].slot.base_i + entries[k].slot.i_count,
{
    let n = entries.len() as int;
    assert(entries.take(n) =~= entries);
    assert(chunk_table::slots(entries.take(0)).len() == 0);
    live_of_take(entries, k);
    live_grows(entries, k, n);
    live_grows(entries, k + 1, n);
}

/// No chunk gives way where there is room, and no chunk moves where nothing is wasted
/// and nobody gives way.
pub proof fn nothing_is_packed_in_vain(t: TableView, need_v: int, need_i: int)
    requires
        live_v(t.entries) + need_v <= t.pool.vert_cap,
        live_i(t.entries) + need_i <= t.pool.idx_cap,
    ensures
        thinned(t, need_v, need_i) == t,
        t.pool.high_v <= live_v(t.entries) && t.pool.high_i <= live_i(t.entries) ==> compacted(
            t,
            need_v,
            need_i,
        ) == t,
        t.pool.high_v > live_v(t.entries) || t.pool.high_i > live_i(t.entries) ==> compacted(
            t,
            need_v,
            need_i,
        ).pool.high_v == live_v(t.entries) && compacted(t, need_v, need_i).pool.high_i == live_i(
            t.entries,
        ) && compacted(t, need_v, need_i).pool.free.len() == 0 && compacted(
            t,
            need_v,
            need_i,
        ).evicted == t.evicted,
{
}

/// What chunks hold is the sum of what each of them holds.
pub proof fn holdings_add_up(entries: Seq<Entry>, e: Entry)
    ensures
        live_v(Seq::<Entry>::empty()) == 0,
        live_i(Seq::<Entry>::empty()) == 0,
        live_v(entries.push(e)) == live_v(entries) + e.slot.v_count,
        live_i(entries.push(e)) == live_i(entries) + e.slot.i_count,
{
    assert(chunk_table::slots(Seq::<Entry>::empty()).len() == 0);
    live_of_push(entries, e);
}

/// Of those who give way to make room in a packed pool, the first is the farthest, and
/// the biggest of those as far.
pub proof fn the_farthest_and_biggest_goes_first(t: TableView, need_v: int, need_i: int, j: int)
    requires
        0 <= j < t.entries.len(),
        live_v(t.entries) + need_v > t.pool.vert_cap || live_i(t.entries) + need_i > t.pool.idx_cap,
    ensures
        ({
            let k = chunk_table::victim(t.entries, t.camera);
            let gone = t.entries[k];
            let other = t.entries[j];
            let d = crate::chunk_set::distance(gone.pos, t.camera);
            let e = crate::chunk_set::distance(other.pos, t.camera);
            &&& 0 <= k < t.entries.len()
            &&& d > e || (d == e && gone.slot.v_count >= other.slot.v_count)
            &&& thinned(t, need_v, need_i) == thinned(
                TableView {
                    entries: t.entries.remove(k),
                    evicted: t.evicted.push(gone.pos),
                    ..t
                },
                need_v,
                need_i,
            )
        }),
{
    chunk_table::a_victim_exists(t.entries, t.camera);
    let k = chunk_table::victim(t.entries, t.camera);
    assert(!chunk_table::yields(t.entries[j], t.entries[k], t.camera));
}

} // verus!
