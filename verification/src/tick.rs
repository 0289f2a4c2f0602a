//! What a tick of the server does for everyone who plays: what viewers are sent, what
//! the map learns, and what a new connection's first frame says.
use vstd::prelude::*;
use vstd::slice::slice_subrange;

use crate::agent::AgentState;
use crate::coords::ChunkPos;
use crate::map::{MapState, MapView};
use crate::protocol::ServerMsg;
use crate::session::Request;
use crate::stats::ServerStats;
use crate::stream;
use crate::stream::{Streamer, INNER_LIMIT};
use crate::world::{Edit, World, WorldUpdate, WorldView};

verus! {

// ---- What viewers are sent ---------------------------------------------------------------

/// The message of an update.
pub open spec fn chunk_message(u: WorldUpdate) -> ServerMsg {
    match u {
        WorldUpdate::Chunk { pos, data } => ServerMsg::Chunk { pos, data },
    }
}

/// What a viewer is sent in a tick: chunks, their own state, all agents, and the
/// server's numbers, of which the chunks that they have are their own.
pub open spec fn messages(
    u: Seq<WorldUpdate>,
    player: AgentState,
    agents: Vec<AgentState>,
    base: ServerStats,
    sent: usize,
) -> Seq<ServerMsg> {
    u.map_values(|c: WorldUpdate| chunk_message(c)) + seq![
        ServerMsg::PlayerState(player),
        ServerMsg::Agents(agents),
        ServerMsg::Stats(ServerStats { chunks_sent: sent, ..base }),
    ]
}

/// What a viewer is sent in a tick, with chunks that were found for them.
pub fn messages_for(
    updates: Vec<WorldUpdate>,
    player: AgentState,
    agents: Vec<AgentState>,
    base: ServerStats,
    sent: usize,
) -> (v: Vec<ServerMsg>)
    ensures
        v@ == messages(updates@, player, agents, base, sent),
{
    let ghost all = updates@;
    let mut left = updates;
    let mut v: Vec<ServerMsg> = Vec::new();
    v.push(ServerMsg::PlayerState(player));
    v.push(ServerMsg::Agents(agents));
    v.push(ServerMsg::Stats(ServerStats { chunks_sent: sent, ..base }));
    assert(left@ =~= all.take(all.len() as int));
    assert(v@ =~= messages(all.skip(all.len() as int), player, agents, base, sent));
    while left.len() > 0
        invariant
            left@.len() <= all.len(),
            left@ == all.take(left@.len() as int),
            v@ == messages(all.skip(left@.len() as int), player, agents, base, sent),
        decreases left@.len(),
    {
        let ghost n = left@.len() as int;
        let ghost before = v@;
        match left.pop() {
            Some(WorldUpdate::Chunk { pos, data }) => {
                assert(all[n - 1] == all.take(n)[n - 1]);
                v.insert(0, ServerMsg::Chunk { pos, data });
                proof {
                    assert(left@ =~= all.take(n - 1));
                    assert(all.skip(n - 1) =~= seq![all[n - 1]] + all.skip(n));
                    assert(v@ =~= seq![chunk_message(all[n - 1])] + before);
                    assert(v@ =~= messages(all.skip(n - 1), player, agents, base, sent));
                }
            },
            None => {},
        }
    }
    assert(all.skip(0) =~= all);
    v
}

/// Whether chunks are those that a viewer in a cell is due in a tick, when they have
/// those of `sent`. Nothing is due at the end of the world.
pub open spec fn is_due(
    w: WorldView,
    sent: Set<ChunkPos>,
    cell: (i32, i32, i32),
    u: Seq<WorldUpdate>,
) -> bool {
    if stream::well_inside(cell) {
        &&& stream::in_turn(sent, u, cell)
        &&& u.len() <= stream::CHUNKS_PER_TICK
        &&& u.len() < stream::CHUNKS_PER_TICK ==> forall|c: ChunkPos| !#[trigger] stream::owed(
            stream::sent_after(sent, u),
            c,
            cell,
        )
        &&& forall|k: int|
            0 <= k < u.len() ==> stream::shows(
                w,
                stream::chunk_of(#[trigger] u[k]),
                stream::bytes_of(u[k]),
            )
    } else {
        u.len() == 0
    }
}

/// A tick for a viewer: what was edited is out of date, the chunks that are due are
/// found, and what the viewer is sent comes back.
pub fn serve_viewer(
    s: &mut Streamer,
    w: &mut World,
    dirty: &[ChunkPos],
    cell: (i32, i32, i32),
    player: AgentState,
    agents: Vec<AgentState>,
    base: ServerStats,
) -> (v: Vec<ServerMsg>)
    requires
        old(s).wf(),
        old(w).wf(),
    ensures
        final(s).wf(),
        final(w).wf(),
        exists|u: Seq<WorldUpdate>|
            {
                &&& #[trigger] is_due(old(w)@, old(s)@.difference(dirty@.to_set()), cell, u)
                &&& final(s)@ == stream::sent_after(old(s)@.difference(dirty@.to_set()), u)
                &&& final(s)@.finite()
                &&& v@ == messages(u, player, agents, base, final(s)@.len() as usize)
                &&& final(w)@ == (WorldView {
                    chunks: stream::drawn_after(old(w)@.chunks, u),
                    ..old(w)@
                })
            },
{
    s.apply_edits(dirty);
    let ghost had = s@;
    let inside: bool = -INNER_LIMIT <= cell.0 && cell.0 <= INNER_LIMIT && -INNER_LIMIT <= cell.2
        && cell.2 <= INNER_LIMIT;
    let updates: Vec<WorldUpdate> = if inside {
        s.tick(w, cell)
    } else {
        Vec::new()
    };
    let ghost u = updates@;
    let sent: usize = s.sent_count();
    proof {
        assert(is_due(old(w)@, had, cell, u));
        assert(s@ == stream::sent_after(had, u));
    }
    messages_for(updates, player, agents, base, sent)
}

// ---- The load of NPCs --------------------------------------------------------------------

/// Whether bits are those of zero, of either sign.
pub open spec fn is_zero(bits: u32) -> bool {
    bits == 0 || bits == 0x8000_0000
}

/// Whether bits are those of no number.
pub open spec fn is_no_number(bits: u32) -> bool {
    bits / 8388608 % 256 == 255 && bits % 8388608 != 0
}

/// Whether bits are those of the same number.
pub open spec fn same_number(a: u32, b: u32) -> bool {
    !is_no_number(a) && !is_no_number(b) && (a == b || (is_zero(a) && is_zero(b)))
}

/// The load of NPCs that a viewer was last told.
#[derive(Clone, Copy, Debug)]
pub struct NpcEcho {
    pub told: Option<(u32, u32)>,
}

impl NpcEcho {
    /// Whether the viewer was told of a load already.
    pub open spec fn knows(self, load: (u32, u32)) -> bool {
        self.told matches Some(t) && t.0 == load.0 && same_number(t.1, load.1)
    }

    /// The message to the viewer where the load is not what they were told.
    pub fn tell(&mut self, load: (u32, u32)) -> (r: Option<ServerMsg>)
        ensures
            r == (if old(self).knows(load) {
                None
            } else {
                Some(ServerMsg::NpcLoad { count: load.0, spacing: load.1 })
            }),
            final(self).told == (if old(self).knows(load) {
                old(self).told
            } else {
                Some(load)
            }),
    {
        let known: bool = match self.told {
            Some(t) => {
                let (a, b): (u32, u32) = (t.1, load.1);
                let odd_a: bool = a / 8388608 % 256 == 255 && a % 8388608 != 0;
                let odd_b: bool = b / 8388608 % 256 == 255 && b % 8388608 != 0;
                let zero_a: bool = a == 0 || a == 0x8000_0000;
                let zero_b: bool = b == 0 || b == 0x8000_0000;
                t.0 == load.0 && !odd_a && !odd_b && (a == b || (zero_a && zero_b))
            },
            None => false,
        };
        if known {
            None
        } else {
            self.told = Some(load);
            Some(ServerMsg::NpcLoad { count: load.0, spacing: load.1 })
        }
    }
}

// ---- The map -----------------------------------------------------------------------------

/// Tells the map of the edits from `synced` on. Returns of how many edits it knows then.
pub fn feed_map(m: &mut MapState, edits: &[Edit], synced: usize) -> (n: usize)
    requires
        old(m).wf(),
    ensures
        final(m).wf(),
        n == (if edits@.len() > synced {
            edits@.len() as usize
        } else {
            synced
        }),
        final(m)@ == (MapView {
            edits: if edits@.len() > synced {
                old(m)@.edits + edits@.skip(synced as int)
            } else {
                old(m)@.edits
            },
            ..old(m)@
        }),
{
    if edits.len() > synced {
        let fresh = slice_subrange(edits, synced, edits.len());
        assert(fresh@ =~= edits@.skip(synced as int));
        m.sync_edits(fresh);
        edits.len()
    } else {
        synced
    }
}

// ---- The first frame ---------------------------------------------------------------------

/// The token that a connection's first frame shows: that of its first request, where it
/// is one to rejoin.
pub open spec fn token_shown(first: Seq<Request>) -> Option<[u8; 16]> {
    if first.len() > 0 && first[0] is Rejoin {
        Some(first[0]->token)
    } else {
        None
    }
}

/// Takes a connection's first frame apart: the token that it shows, and the requests
/// after the first one, which is spent whatever it asked for.
pub fn handshake(first: Vec<Request>) -> (r: (Option<[u8; 16]>, Vec<Request>))
    ensures
        r.0 == token_shown(first@),
        r.1@ == (if first@.len() > 0 {
            first@.skip(1)
        } else {
            Seq::empty()
        }),
{
    let mut rest = first;
    if rest.len() == 0 {
        return (None, rest);
    }
    let ghost all = rest@;
    let head = rest.remove(0);
    assert(rest@ =~= all.skip(1));
    match head {
        Request::Rejoin { token } => (Some(token), rest),
        _ => (None, rest),
    }
}

// ---- Laws ----------------------------------------------------------------------------

/// A map that is fed after every tick knows all edits, in order.
pub proof fn fed_maps_know_all_edits(known: Seq<Edit>, edits: Seq<Edit>, synced: int)
    requires
        0 <= synced <= edits.len(),
        known == edits.take(synced),
    ensures
        known + edits.skip(synced) == edits,
{
    assert(known + edits.skip(synced) =~= edits);
}

/// Every viewer is told of the load when they are new.
pub proof fn new_viewers_are_told(load: (u32, u32))
    ensures
        !(NpcEcho { told: None }).knows(load),
{
}

/// A viewer is told of a load once, until it changes.
pub proof fn loads_are_told_once(e: NpcEcho, load: (u32, u32))
    requires
        e.told == Some(load),
        !is_no_number(load.1),
    ensures
        e.knows(load),
{
}

/// In a tick at most eight chunks are sent, and fewer only where a viewer is owed no more.
/// Each of them shows the blocks as they are. Far out nothing is sent.
pub proof fn ticks_send_eight_chunks(
    w: WorldView,
    sent: Set<ChunkPos>,
    cell: (i32, i32, i32),
    u: Seq<WorldUpdate>,
    c: ChunkPos,
    k: int,
)
    requires
        is_due(w, sent, cell, u),
    ensures
        u.len() <= 8,
        -134217700 <= cell.0 <= 134217700 && -134217700 <= cell.2 <= 134217700 && u.len() < 8 && 0
            <= c.y < 4 && -7 <= c.x - cell.0 <= 7 && -7 <= c.z - cell.2 <= 7
            ==> stream::sent_after(sent, u).contains(c),
        0 <= k < u.len() ==> (u[k] matches WorldUpdate::Chunk { pos, data } && stream::shows(
            w,
            pos,
            data@,
        ) && !sent.contains(pos) && 0 <= pos.y < 4 && -7 <= pos.x - cell.0 <= 7 && -7 <= pos.z
            - cell.2 <= 7),
        !(-134217700 <= cell.0 <= 134217700 && -134217700 <= cell.2 <= 134217700) ==> u.len() == 0,
{
    if stream::well_inside(cell) {
        if u.len() < 8 {
            assert(!stream::owed(stream::sent_after(sent, u), c, cell));
        }
        if 0 <= k < u.len() {
            let v = u.take(k);
            assert(stream::is_next(stream::sent_after(sent, v), stream::chunk_of(u[k]), cell));
            stream::sent_chunks_are_noted(sent, v, stream::chunk_of(u[k]));
            assert(stream::shows(w, stream::chunk_of(u[k]), stream::bytes_of(u[k])));
        }
    }
}

} // verus!
