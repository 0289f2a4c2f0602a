//! The binary protocol between a server and its clients.
//!
//! A frame is one byte of type, four bytes of payload length and the payload,
//! all numbers little-endian. Each frame stands for itself.
use vstd::prelude::*;
use vstd::utf8;

use crate::agent::{AgentState, AgentView, Vec3Bits};
use crate::coords::{BlockPos, ChunkPos};
use crate::stats::{CacheStats, ServerStats};
use crate::wire;
use crate::wire::{frame_header, frame_len, text_from_bytes, Dec, Enc};

verus! {

broadcast use crate::wire::group_number_lengths;

/// The version of the layout, which a server announces and a client checks.
pub const PROTOCOL_VERSION: u8 = 3;

// Types of the frames that clients send.
pub const T_INPUT: u8 = 0x01;

pub const T_ACTION: u8 = 0x02;

pub const T_EVICTED: u8 = 0x03;

pub const T_SET_NPC_LOAD: u8 = 0x04;

pub const T_PROFILE: u8 = 0x05;

// Types of the frames that servers send.
pub const T_HELLO: u8 = 0x10;

pub const T_PLAYER: u8 = 0x11;

pub const T_AGENTS: u8 = 0x12;

pub const T_CHUNK: u8 = 0x13;

pub const T_STATS: u8 = 0x14;

pub const T_NPC_LOAD: u8 = 0x15;

// Kinds of actions.
pub const A_BREAK: u8 = 0;

pub const A_PLACE: u8 = 1;

pub const A_TOGGLE_FLY: u8 = 2;

pub const A_FLY_FASTER: u8 = 3;

pub const A_FLY_SLOWER: u8 = 4;

pub const A_NPC_LOAD: u8 = 5;

pub const A_NPC_CLEAR: u8 = 6;

pub const A_NPC_COUNT_UP: u8 = 7;

pub const A_NPC_COUNT_DOWN: u8 = 8;

pub const A_NPC_SPACING_UP: u8 = 9;

pub const A_NPC_SPACING_DOWN: u8 = 10;

/// No batch of evictions is longer.
pub const MAX_EVICTED: u32 = 65536;

/// No name that is read has more bytes.
pub const MAX_NAME: u16 = 64;

/// A one-shot action as this version of the layout carries it: a placed block is
/// not named in it. Angles are held by their bits.
#[derive(Clone, Copy, PartialEq, Eq, Structural, Debug)]
pub enum Action {
    Break { yaw: u32, pitch: u32 },
    Place { yaw: u32, pitch: u32 },
    ToggleFly,
    FlyFaster,
    FlySlower,
    NpcLoad,
    NpcClear,
    NpcCountUp,
    NpcCountDown,
    NpcSpacingUp,
    NpcSpacingDown,
}

/// What a client sends. Numbers that are not whole are held by their bits.
#[derive(Clone, Debug, PartialEq, Eq)]
pub enum ClientMsg {
    /// The keys that are held, and how far the view was turned.
    Input { keys: u32, dx: u32, dy: u32 },
    Action(Action),
    /// Chunks that the client has dropped and no longer holds.
    Evicted(Vec<ChunkPos>),
    /// The load of NPCs to spawn: how many, how far apart.
    SetNpcLoad { count: u32, spacing: u32 },
    /// The player's name and colour.
    Profile { name: String, color: [u8; 3] },
}

/// What a server sends.
#[derive(Clone, Debug, PartialEq, Eq)]
pub enum ServerMsg {
    /// The first message of a connection: layout version, seed of the world, and
    /// the id of the connection's own player.
    Hello { version: u8, seed: u64, player_id: u32 },
    PlayerState(AgentState),
    Agents(Vec<AgentState>),
    /// A chunk's region appeared or changed.
    Chunk { pos: ChunkPos, data: Vec<u8> },
    Stats(ServerStats),
    NpcLoad { count: u32, spacing: u32 },
}

/// What a [`ClientMsg`] says.
#[verifier::ext_equal]
pub enum ClientView {
    Input { keys: u32, dx: u32, dy: u32 },
    Action(Action),
    Evicted(Seq<ChunkPos>),
    SetNpcLoad { count: u32, spacing: u32 },
    Profile { name: Seq<char>, color: Seq<u8> },
}

/// What a [`ServerMsg`] says.
#[verifier::ext_equal]
pub enum ServerView {
    Hello { version: u8, seed: u64, player_id: u32 },
    PlayerState(AgentView),
    Agents(Seq<AgentView>),
    Chunk { pos: ChunkPos, data: Seq<u8> },
    Stats(ServerStats),
    NpcLoad { count: u32, spacing: u32 },
}

impl View for ClientMsg {
    type V = ClientView;

    open spec fn view(&self) -> ClientView {
        match *self {
            ClientMsg::Input { keys, dx, dy } => ClientView::Input { keys, dx, dy },
            ClientMsg::Action(a) => ClientView::Action(a),
            ClientMsg::Evicted(v) => ClientView::Evicted(v@),
            ClientMsg::SetNpcLoad { count, spacing } => ClientView::SetNpcLoad { count, spacing },
            ClientMsg::Profile { name, color } => ClientView::Profile {
                name: name@,
                color: color@,
            },
        }
    }
}

/// What each of a list of agents says.
pub open spec fn agent_views(v: Seq<AgentState>) -> Seq<AgentView> {
    Seq::new(v.len(), |k: int| v[k]@)
}

impl View for ServerMsg {
    type V = ServerView;

    open spec fn view(&self) -> ServerView {
        match *self {
            ServerMsg::Hello { version, seed, player_id } => ServerView::Hello {
                version,
                seed,
                player_id,
            },
            ServerMsg::PlayerState(s) => ServerView::PlayerState(s@),
            ServerMsg::Agents(v) => ServerView::Agents(agent_views(v@)),
            ServerMsg::Chunk { pos, data } => ServerView::Chunk { pos, data: data@ },
            ServerMsg::Stats(s) => ServerView::Stats(s),
            ServerMsg::NpcLoad { count, spacing } => ServerView::NpcLoad { count, spacing },
        }
    }
}

// ---- What is written -------------------------------------------------------

/// The payload of an action.
pub open spec fn action_bytes(a: Action) -> Seq<u8> {
    match a {
        Action::Break { yaw, pitch } => seq![A_BREAK] + wire::le4(yaw) + wire::le4(pitch),
        Action::Place { yaw, pitch } => seq![A_PLACE] + wire::le4(yaw) + wire::le4(pitch),
        Action::ToggleFly => seq![A_TOGGLE_FLY],
        Action::FlyFaster => seq![A_FLY_FASTER],
        Action::FlySlower => seq![A_FLY_SLOWER],
        Action::NpcLoad => seq![A_NPC_LOAD],
        Action::NpcClear => seq![A_NPC_CLEAR],
        Action::NpcCountUp => seq![A_NPC_COUNT_UP],
        Action::NpcCountDown => seq![A_NPC_COUNT_DOWN],
        Action::NpcSpacingUp => seq![A_NPC_SPACING_UP],
        Action::NpcSpacingDown => seq![A_NPC_SPACING_DOWN],
    }
}

/// Chunk positions one after the other.
pub open spec fn chunks_bytes(v: Seq<ChunkPos>) -> Seq<u8>
    decreases v.len(),
{
    if v.len() == 0 {
        Seq::empty()
    } else {
        chunks_bytes(v.drop_last()) + wire::triple_bytes(v.last().x, v.last().y, v.last().z)
    }
}

impl ClientView {
    pub open spec fn frame_type(self) -> u8 {
        match self {
            ClientView::Input { .. } => T_INPUT,
            ClientView::Action(_) => T_ACTION,
            ClientView::Evicted(_) => T_EVICTED,
            ClientView::SetNpcLoad { .. } => T_SET_NPC_LOAD,
            ClientView::Profile { .. } => T_PROFILE,
        }
    }

    pub open spec fn payload(self) -> Seq<u8> {
        match self {
            ClientView::Input { keys, dx, dy } => wire::le4(keys) + wire::le4(dx) + wire::le4(dy),
            ClientView::Action(a) => action_bytes(a),
            ClientView::Evicted(v) => wire::le4((v.len() % 4294967296) as u32) + chunks_bytes(v),
            ClientView::SetNpcLoad { count, spacing } => wire::le4(count) + wire::le4(spacing),
            ClientView::Profile { name, color } => wire::text_bytes(name) + color,
        }
    }

    /// The frame of the message.
    pub open spec fn frame(self) -> Seq<u8> {
        wire::framed(self.frame_type(), self.payload())
    }

    /// Whether a reader accepts the message: short lists and names.
    pub open spec fn acceptable(self) -> bool {
        match self {
            ClientView::Evicted(v) => v.len() <= MAX_EVICTED,
            ClientView::Profile { name, color } => utf8::encode_utf8(name).len() <= MAX_NAME
                && color.len() == 3,
            _ => true,
        }
    }
}

/// The three flags of an agent in one byte.
pub open spec fn flag_byte(a: AgentView) -> u8 {
    ((if a.is_player {
        1int
    } else {
        0
    }) + (if a.on_ground {
        2int
    } else {
        0
    }) + (if a.fly {
        4int
    } else {
        0
    })) as u8
}

/// A targeted block, or that there is none.
pub open spec fn target_bytes(t: Option<BlockPos>) -> Seq<u8> {
    match t {
        Some(p) => seq![1u8] + wire::triple_bytes(p.x, p.y, p.z),
        None => seq![0u8],
    }
}

/// The part of an agent's bytes that has always the same length.
pub open spec fn agent_head(a: AgentView) -> Seq<u8> {
    wire::le4(a.id) + seq![flag_byte(a)] + wire::le4(a.pos.x) + wire::le4(a.pos.y) + wire::le4(a.pos.z) + wire::le4(a.yaw) + wire::le4(
        a.pitch,
    ) + wire::le4(a.fly_speed) + a.color + wire::le4(a.radius)
}

#[verifier::opaque]
pub open spec fn agent_bytes(a: AgentView) -> Seq<u8> {
    agent_head(a) + target_bytes(a.target) + wire::text_bytes(a.name)
}

/// Agents one after the other.
pub open spec fn agents_bytes(v: Seq<AgentView>) -> Seq<u8>
    decreases v.len(),
{
    if v.len() == 0 {
        Seq::empty()
    } else {
        agents_bytes(v.drop_last()) + agent_bytes(v.last())
    }
}

/// A count as it is sent: its lowest 32 bits.
pub open spec fn count_bytes(n: usize) -> Seq<u8> {
    wire::le4((n as int % 4294967296) as u32)
}

/// The five counts of the world.
pub open spec fn world_counts(s: ServerStats) -> Seq<u8> {
    count_bytes(s.chunks_generated) + count_bytes(s.chunks_sent) + count_bytes(s.deltas)
        + count_bytes(s.agents) + count_bytes(s.npcs)
}

/// The five counts of the block windows.
pub open spec fn cache_counts(c: CacheStats) -> Seq<u8> {
    wire::le8(c.lookups) + wire::le8(c.hits) + wire::le8(c.solid_misses) + wire::le8(c.rebuilds)
        + wire::le8(c.rebuild_probes)
}

#[verifier::opaque]
pub open spec fn stats_bytes(s: ServerStats) -> Seq<u8> {
    world_counts(s) + cache_counts(s.cache)
}

impl ServerView {
    pub open spec fn frame_type(self) -> u8 {
        match self {
            ServerView::Hello { .. } => T_HELLO,
            ServerView::PlayerState(_) => T_PLAYER,
            ServerView::Agents(_) => T_AGENTS,
            ServerView::Chunk { .. } => T_CHUNK,
            ServerView::Stats(_) => T_STATS,
            ServerView::NpcLoad { .. } => T_NPC_LOAD,
        }
    }

    pub open spec fn payload(self) -> Seq<u8> {
        match self {
            ServerView::Hello { version, seed, player_id } => seq![version] + wire::le8(seed) + wire::le4(
                player_id,
            ),
            ServerView::PlayerState(a) => agent_bytes(a),
            ServerView::Agents(v) => wire::le4((v.len() % 4294967296) as u32) + agents_bytes(v),
            ServerView::Chunk { pos, data } => wire::triple_bytes(pos.x, pos.y, pos.z) + wire::le4(
                (data.len() % 4294967296) as u32,
            ) + data,
            ServerView::Stats(s) => stats_bytes(s),
            ServerView::NpcLoad { count, spacing } => wire::le4(count) + wire::le4(spacing),
        }
    }

    /// The frame of the message.
    pub open spec fn frame(self) -> Seq<u8> {
        wire::framed(self.frame_type(), self.payload())
    }

    /// Whether a reader gets back what was written: names are short, counts and
    /// lengths fit their fields.
    pub open spec fn acceptable(self) -> bool {
        &&& self.payload().len() < 4294967296
        &&& match self {
            ServerView::PlayerState(a) => named_shortly(a),
            ServerView::Agents(v) => v.len() < 4294967296 && forall|k: int|
                0 <= k < v.len() ==> named_shortly(#[trigger] v[k]),
            ServerView::Stats(s) => s.chunks_generated < 4294967296 && s.chunks_sent < 4294967296
                && s.deltas < 4294967296 && s.agents < 4294967296 && s.npcs < 4294967296,
            _ => true,
        }
    }
}

pub open spec fn named_shortly(a: AgentView) -> bool {
    utf8::encode_utf8(a.name).len() <= MAX_NAME && a.color.len() == 3
}

// ---- What is read ----------------------------------------------------------

/// The action that a payload stands for.
pub open spec fn action_of(s: Seq<u8>) -> Option<Action> {
    if s.len() == 9 && s[0] == A_BREAK {
        Some(Action::Break { yaw: wire::val4(s, 1), pitch: wire::val4(s, 5) })
    } else if s.len() == 9 && s[0] == A_PLACE {
        Some(Action::Place { yaw: wire::val4(s, 1), pitch: wire::val4(s, 5) })
    } else if s.len() != 1 {
        None
    } else if s[0] == A_TOGGLE_FLY {
        Some(Action::ToggleFly)
    } else if s[0] == A_FLY_FASTER {
        Some(Action::FlyFaster)
    } else if s[0] == A_FLY_SLOWER {
        Some(Action::FlySlower)
    } else if s[0] == A_NPC_LOAD {
        Some(Action::NpcLoad)
    } else if s[0] == A_NPC_CLEAR {
        Some(Action::NpcClear)
    } else if s[0] == A_NPC_COUNT_UP {
        Some(Action::NpcCountUp)
    } else if s[0] == A_NPC_COUNT_DOWN {
        Some(Action::NpcCountDown)
    } else if s[0] == A_NPC_SPACING_UP {
        Some(Action::NpcSpacingUp)
    } else if s[0] == A_NPC_SPACING_DOWN {
        Some(Action::NpcSpacingDown)
    } else {
        None
    }
}

/// The chunk position in the twelve bytes from `i` on.
pub open spec fn chunk_at(s: Seq<u8>, i: int) -> ChunkPos {
    ChunkPos { x: wire::ival4(s, i), y: wire::ival4(s, i + 4), z: wire::ival4(s, i + 8) }
}

/// The message that a payload of a type stands for.
pub open spec fn client_of(ty: u8, s: Seq<u8>) -> Option<ClientView> {
    if ty == T_INPUT {
        if s.len() == 12 {
            Some(ClientView::Input { keys: wire::val4(s, 0), dx: wire::val4(s, 4), dy: wire::val4(s, 8) })
        } else {
            None
        }
    } else if ty == T_ACTION {
        match action_of(s) {
            Some(a) => Some(ClientView::Action(a)),
            None => None,
        }
    } else if ty == T_EVICTED {
        if s.len() >= 4 && wire::val4(s, 0) <= MAX_EVICTED && s.len() == 4 + 12 * wire::val4(s, 0) {
            Some(
                ClientView::Evicted(
                    Seq::new(wire::val4(s, 0) as nat, |k: int| chunk_at(s, 4 + 12 * k)),
                ),
            )
        } else {
            None
        }
    } else if ty == T_SET_NPC_LOAD {
        if s.len() == 8 {
            Some(ClientView::SetNpcLoad { count: wire::val4(s, 0), spacing: wire::val4(s, 4) })
        } else {
            None
        }
    } else if ty == T_PROFILE {
        if s.len() >= 2 && wire::val2(s, 0) <= MAX_NAME && s.len() == 5 + wire::val2(s, 0) && utf8::valid_utf8(
            s.subrange(2, 2 + wire::val2(s, 0)),
        ) {
            Some(
                ClientView::Profile {
                    name: utf8::decode_utf8(s.subrange(2, 2 + wire::val2(s, 0))),
                    color: s.subrange(2 + wire::val2(s, 0), 5 + wire::val2(s, 0)),
                },
            )
        } else {
            None
        }
    } else {
        None
    }
}

/// The message that a frame stands for.
pub open spec fn client_message(frame: Seq<u8>) -> Option<ClientView> {
    match wire::unframed(frame) {
        Some((ty, payload)) => client_of(ty, payload),
        None => None,
    }
}

/// The agent in the bytes from `i` on, and where they end.
#[verifier::opaque]
pub open spec fn agent_at(s: Seq<u8>, i: int) -> Option<(AgentView, int)> {
    let aimed = s[i + 36] == 1;
    let j = i + 37 + (if aimed {
        12int
    } else {
        0
    });
    if s.len() < i + 37 || s.len() < j + 2 || wire::val2(s, j) > MAX_NAME || s.len() < j + 2 + wire::val2(s, j)
        || !utf8::valid_utf8(s.subrange(j + 2, j + 2 + wire::val2(s, j))) {
        None
    } else {
        Some(
            (
                AgentView {
                    id: wire::val4(s, i),
                    is_player: s[i + 4] % 2 == 1,
                    name: utf8::decode_utf8(s.subrange(j + 2, j + 2 + wire::val2(s, j))),
                    pos: Vec3Bits { x: wire::val4(s, i + 5), y: wire::val4(s, i + 9), z: wire::val4(s, i + 13) },
                    yaw: wire::val4(s, i + 17),
                    pitch: wire::val4(s, i + 21),
                    on_ground: s[i + 4] / 2 % 2 == 1,
                    fly: s[i + 4] / 4 % 2 == 1,
                    fly_speed: wire::val4(s, i + 25),
                    color: s.subrange(i + 29, i + 32),
                    radius: wire::val4(s, i + 32),
                    target: if aimed {
                        Some(
                            BlockPos {
                                x: wire::ival4(s, i + 37),
                                y: wire::ival4(s, i + 41),
                                z: wire::ival4(s, i + 45),
                            },
                        )
                    } else {
                        None
                    },
                },
                j + 2 + wire::val2(s, j),
            ),
        )
    }
}

/// The `n` agents in the bytes from `i` on, and where they end.
pub open spec fn agents_at(s: Seq<u8>, i: int, n: nat) -> Option<(Seq<AgentView>, int)>
    decreases n,
{
    if n == 0 {
        Some((Seq::empty(), i))
    } else {
        match agent_at(s, i) {
            None => None,
            Some((a, j)) => match agents_at(s, j, (n - 1) as nat) {
                None => None,
                Some((rest, end)) => Some((seq![a] + rest, end)),
            },
        }
    }
}

pub open spec fn stats_of(s: Seq<u8>) -> ServerStats {
    ServerStats {
        chunks_generated: wire::val4(s, 0) as usize,
        chunks_sent: wire::val4(s, 4) as usize,
        deltas: wire::val4(s, 8) as usize,
        agents: wire::val4(s, 12) as usize,
        npcs: wire::val4(s, 16) as usize,
        cache: CacheStats {
            lookups: wire::val8(s, 20),
            hits: wire::val8(s, 28),
            solid_misses: wire::val8(s, 36),
            rebuilds: wire::val8(s, 44),
            rebuild_probes: wire::val8(s, 52),
        },
    }
}

/// The message that a payload of a type stands for.
pub open spec fn server_of(ty: u8, s: Seq<u8>) -> Option<ServerView> {
    if ty == T_HELLO {
        if s.len() == 13 {
            Some(
                ServerView::Hello { version: s[0], seed: wire::val8(s, 1), player_id: wire::val4(s, 9) },
            )
        } else {
            None
        }
    } else if ty == T_PLAYER {
        match agent_at(s, 0) {
            Some((a, end)) => if end == s.len() {
                Some(ServerView::PlayerState(a))
            } else {
                None
            },
            None => None,
        }
    } else if ty == T_AGENTS {
        if s.len() < 4 {
            None
        } else {
            match agents_at(s, 4, wire::val4(s, 0) as nat) {
                Some((v, end)) => if end == s.len() {
                    Some(ServerView::Agents(v))
                } else {
                    None
                },
                None => None,
            }
        }
    } else if ty == T_CHUNK {
        if s.len() >= 16 && s.len() == 16 + wire::val4(s, 12) {
            Some(
                ServerView::Chunk { pos: chunk_at(s, 0), data: s.subrange(16, s.len() as int) },
            )
        } else {
            None
        }
    } else if ty == T_STATS {
        if s.len() == 60 {
            Some(ServerView::Stats(stats_of(s)))
        } else {
            None
        }
    } else if ty == T_NPC_LOAD {
        if s.len() == 8 {
            Some(ServerView::NpcLoad { count: wire::val4(s, 0), spacing: wire::val4(s, 4) })
        } else {
            None
        }
    } else {
        None
    }
}

/// The message that a frame stands for.
pub open spec fn server_message(frame: Seq<u8>) -> Option<ServerView> {
    match wire::unframed(frame) {
        Some((ty, payload)) => server_of(ty, payload),
        None => None,
    }
}

// ---- Writing and reading -----------------------------------------------------

fn encode_action(p: &mut Enc, a: Action)
    ensures
        final(p)@ == old(p)@ + action_bytes(a),
{
    match a {
        Action::Break { yaw, pitch } => {
            p.u8(A_BREAK);
            p.float_bits(yaw);
            p.float_bits(pitch);
        },
        Action::Place { yaw, pitch } => {
            p.u8(A_PLACE);
            p.float_bits(yaw);
            p.float_bits(pitch);
        },
        Action::ToggleFly => p.u8(A_TOGGLE_FLY),
        Action::FlyFaster => p.u8(A_FLY_FASTER),
        Action::FlySlower => p.u8(A_FLY_SLOWER),
        Action::NpcLoad => p.u8(A_NPC_LOAD),
        Action::NpcClear => p.u8(A_NPC_CLEAR),
        Action::NpcCountUp => p.u8(A_NPC_COUNT_UP),
        Action::NpcCountDown => p.u8(A_NPC_COUNT_DOWN),
        Action::NpcSpacingUp => p.u8(A_NPC_SPACING_UP),
        Action::NpcSpacingDown => p.u8(A_NPC_SPACING_DOWN),
    }
    assert(p@ =~= old(p)@ + action_bytes(a));
}

fn encode_count(p: &mut Enc, n: usize)
    ensures
        final(p)@ == old(p)@ + count_bytes(n),
{
    p.u32((n as u64 % 4294967296) as u32);
}

/// Writes one agent.
fn encode_agent(p: &mut Enc, s: &AgentState)
    ensures
        final(p)@ == old(p)@ + agent_bytes(s@),
{
    proof {
        reveal(agent_bytes);
    }
    p.u32(s.id);
    let mut flags: u8 = 0;
    if s.is_player {
        flags = flags + 1;
    }
    if s.on_ground {
        flags = flags + 2;
    }
    if s.fly {
        flags = flags + 4;
    }
    p.u8(flags);
    p.float_bits(s.pos.x);
    p.float_bits(s.pos.y);
    p.float_bits(s.pos.z);
    p.float_bits(s.yaw);
    p.float_bits(s.pitch);
    p.float_bits(s.fly_speed);
    p.bytes(s.color.as_slice());
    p.float_bits(s.radius);
    assert(p@ =~= old(p)@ + agent_head(s@));
    let ghost head = p@;
    match s.target {
        Some(t) => {
            p.u8(1);
            p.triple(t.x, t.y, t.z);
            assert(p@ =~= head + target_bytes(s.target));
        },
        None => {
            p.u8(0);
        },
    }
    p.text(&s.name);
    assert(p@ =~= old(p)@ + agent_bytes(s@));
}

/// Reads one agent.
fn decode_agent(d: &mut Dec) -> (r: Option<AgentState>)
    requires
        old(d).wf(),
    ensures
        final(d).wf(),
        final(d).b@ == old(d).b@,
        match r {
            Some(a) => agent_at(old(d).b@, old(d).i as int) == Some((a@, final(d).i as int)),
            None => agent_at(old(d).b@, old(d).i as int) is None,
        },
{
    proof {
        reveal(agent_at);
    }
    let id: u32 = d.u32()?;
    let flags: u8 = d.u8()?;
    let x: u32 = d.float_bits()?;
    let y: u32 = d.float_bits()?;
    let z: u32 = d.float_bits()?;
    let yaw: u32 = d.float_bits()?;
    let pitch: u32 = d.float_bits()?;
    let fly_speed: u32 = d.float_bits()?;
    let red: u8 = d.u8()?;
    let green: u8 = d.u8()?;
    let blue: u8 = d.u8()?;
    let radius: u32 = d.float_bits()?;
    let aimed: u8 = d.u8()?;
    let target = if aimed == 1 {
        let tx: i32 = d.i32()?;
        let ty: i32 = d.i32()?;
        let tz: i32 = d.i32()?;
        Some(BlockPos { x: tx, y: ty, z: tz })
    } else {
        None
    };
    let n: u16 = d.u16()?;
    if n > MAX_NAME {
        return None;
    }
    let bytes = d.bytes(n as usize)?;
    let name = text_from_bytes(bytes)?;
    let a = AgentState {
        id,
        is_player: flags % 2 == 1,
        name,
        pos: Vec3Bits { x, y, z },
        yaw,
        pitch,
        on_ground: flags / 2 % 2 == 1,
        fly: flags / 4 % 2 == 1,
        fly_speed,
        color: [red, green, blue],
        radius,
        target,
    };
    proof {
        let i = old(d).i as int;
        assert(a.color@ =~= old(d).b@.subrange(i + 29, i + 32));
    }
    Some(a)
}

fn decode_action(d: &mut Dec) -> (r: Option<Action>)
    requires
        old(d).wf(),
        old(d).i == 0,
    ensures
        r == action_of(old(d).b@),
{
    let kind: u8 = d.u8()?;
    let a = if kind == A_BREAK || kind == A_PLACE {
        let yaw: u32 = d.float_bits()?;
        let pitch: u32 = d.float_bits()?;
        if kind == A_BREAK {
            Action::Break { yaw, pitch }
        } else {
            Action::Place { yaw, pitch }
        }
    } else if kind == A_TOGGLE_FLY {
        Action::ToggleFly
    } else if kind == A_FLY_FASTER {
        Action::FlyFaster
    } else if kind == A_FLY_SLOWER {
        Action::FlySlower
    } else if kind == A_NPC_LOAD {
        Action::NpcLoad
    } else if kind == A_NPC_CLEAR {
        Action::NpcClear
    } else if kind == A_NPC_COUNT_UP {
        Action::NpcCountUp
    } else if kind == A_NPC_COUNT_DOWN {
        Action::NpcCountDown
    } else if kind == A_NPC_SPACING_UP {
        Action::NpcSpacingUp
    } else if kind == A_NPC_SPACING_DOWN {
        Action::NpcSpacingDown
    } else {
        return None;
    };
    if !d.exhausted() {
        return None;
    }
    Some(a)
}

/// Reads the chunk positions of a payload, all of them, after their count.
fn decode_evicted(d: &mut Dec) -> (r: Option<Vec<ChunkPos>>)
    requires
        old(d).wf(),
        old(d).i == 0,
    ensures
        match r {
            Some(v) => client_of(T_EVICTED, old(d).b@) == Some(ClientView::Evicted(v@)),
            None => client_of(T_EVICTED, old(d).b@) is None,
        },
{
    let ghost s = d.b@;
    let n: u32 = d.u32()?;
    if n > MAX_EVICTED {
        return None;
    }
    let mut v: Vec<ChunkPos> = Vec::new();
    let mut k: u32 = 0;
    while k < n
        invariant
            k <= n,
            n <= MAX_EVICTED,
            s.len() >= 4,
            n == wire::val4(s, 0),
            d.wf(),
            d.b@ == s,
            s == old(d).b@,
            d.i == 4 + 12 * k,
            v@ =~= Seq::new(k as nat, |j: int| chunk_at(s, 4 + 12 * j)),
        decreases n - k,
    {
        let x: i32 = match d.i32() {
            Some(x) => x,
            None => return None,
        };
        let y: i32 = match d.i32() {
            Some(y) => y,
            None => return None,
        };
        let z: i32 = match d.i32() {
            Some(z) => z,
            None => return None,
        };
        v.push(ChunkPos { x, y, z });
        k = k + 1;
    }
    if !d.exhausted() {
        return None;
    }
    Some(v)
}

impl ClientMsg {
    /// The message as one frame.
    pub fn encode(&self) -> (r: Vec<u8>)
        ensures
            r@ == self@.frame(),
    {
        let mut p = Enc::new();
        let ty: u8 = match self {
            ClientMsg::Input { keys, dx, dy } => {
                p.u32(*keys);
                p.float_bits(*dx);
                p.float_bits(*dy);
                T_INPUT
            },
            ClientMsg::Action(a) => {
                encode_action(&mut p, *a);
                T_ACTION
            },
            ClientMsg::Evicted(v) => {
                encode_count(&mut p, v.len());
                let ghost head = p@;
                let mut k: usize = 0;
                while k < v.len()
                    invariant
                        k <= v@.len(),
                        p@ == head + chunks_bytes(v@.take(k as int)),
                    decreases v@.len() - k,
                {
                    let c = v[k];
                    p.triple(c.x, c.y, c.z);
                    proof {
                        let next = v@.take(k as int + 1);
                        assert(next.drop_last() =~= v@.take(k as int));
                        assert(next.last() == c);
                        assert(p@ =~= head + chunks_bytes(next));
                    }
                    k = k + 1;
                }
                assert(v@.take(k as int) =~= v@);
                T_EVICTED
            },
            ClientMsg::SetNpcLoad { count, spacing } => {
                p.u32(*count);
                p.float_bits(*spacing);
                T_SET_NPC_LOAD
            },
            ClientMsg::Profile { name, color } => {
                p.text(name);
                p.bytes(color.as_slice());
                T_PROFILE
            },
        };
        assert(p@ =~= self@.payload());
        p.frame(ty)
    }

    /// The message of one frame.
    pub fn decode(frame: &[u8]) -> (r: Option<ClientMsg>)
        ensures
            match r {
                Some(m) => client_message(frame@) == Some(m@),
                None => client_message(frame@) is None,
            },
    {
        let (ty, payload) = frame_header(frame)?;
        let mut d = Dec::new(payload);
        let ghost s = payload@;
        let msg = if ty == T_INPUT {
            let keys: u32 = d.u32()?;
            let dx: u32 = d.float_bits()?;
            let dy: u32 = d.float_bits()?;
            ClientMsg::Input { keys, dx, dy }
        } else if ty == T_ACTION {
            let a = decode_action(&mut d)?;
            return Some(ClientMsg::Action(a));
        } else if ty == T_EVICTED {
            let v = decode_evicted(&mut d)?;
            return Some(ClientMsg::Evicted(v));
        } else if ty == T_SET_NPC_LOAD {
            let count: u32 = d.u32()?;
            let spacing: u32 = d.float_bits()?;
            ClientMsg::SetNpcLoad { count, spacing }
        } else if ty == T_PROFILE {
            let n: u16 = d.u16()?;
            if n > MAX_NAME {
                return None;
            }
            let bytes = d.bytes(n as usize)?;
            let name = text_from_bytes(bytes)?;
            let red: u8 = d.u8()?;
            let green: u8 = d.u8()?;
            let blue: u8 = d.u8()?;
            let color = [red, green, blue];
            assert(color@ =~= s.subrange(2 + n, 5 + n));
            ClientMsg::Profile { name, color }
        } else {
            return None;
        };
        if !d.exhausted() {
            return None;
        }
        Some(msg)
    }
}

fn encode_stats(p: &mut Enc, s: &ServerStats)
    ensures
        final(p)@ == old(p)@ + stats_bytes(*s),
{
    proof {
        reveal(stats_bytes);
    }
    encode_count(p, s.chunks_generated);
    encode_count(p, s.chunks_sent);
    encode_count(p, s.deltas);
    encode_count(p, s.agents);
    encode_count(p, s.npcs);
    assert(p@ =~= old(p)@ + world_counts(*s));
    let ghost counts = p@;
    p.u64(s.cache.lookups);
    p.u64(s.cache.hits);
    p.u64(s.cache.solid_misses);
    p.u64(s.cache.rebuilds);
    p.u64(s.cache.rebuild_probes);
    assert(p@ =~= counts + cache_counts(s.cache));
    assert(p@ =~= old(p)@ + stats_bytes(*s));
}

impl ServerMsg {
    /// The message as one frame.
    pub fn encode(&self) -> (r: Vec<u8>)
        ensures
            r@ == self@.frame(),
    {
        let mut p = Enc::new();
        let ty: u8 = match self {
            ServerMsg::Hello { version, seed, player_id } => {
                p.u8(*version);
                p.u64(*seed);
                p.u32(*player_id);
                T_HELLO
            },
            ServerMsg::PlayerState(s) => {
                encode_agent(&mut p, s);
                T_PLAYER
            },
            ServerMsg::Agents(v) => {
                encode_count(&mut p, v.len());
                let ghost head = p@;
                let ghost views = agent_views(v@);
                let mut k: usize = 0;
                while k < v.len()
                    invariant
                        k <= v@.len(),
                        views == agent_views(v@),
                        p@ == head + agents_bytes(views.take(k as int)),
                    decreases v@.len() - k,
                {
                    encode_agent(&mut p, &v[k]);
                    proof {
                        let next = views.take(k as int + 1);
                        assert(next.drop_last() =~= views.take(k as int));
                        assert(next.last() == v@[k as int]@);
                        assert(p@ =~= head + agents_bytes(next));
                    }
                    k = k + 1;
                }
                assert(views.take(k as int) =~= views);
                T_AGENTS
            },
            ServerMsg::Chunk { pos, data } => {
                p.triple(pos.x, pos.y, pos.z);
                encode_count(&mut p, data.len());
                p.bytes(data.as_slice());
                T_CHUNK
            },
            ServerMsg::Stats(s) => {
                encode_stats(&mut p, s);
                T_STATS
            },
            ServerMsg::NpcLoad { count, spacing } => {
                p.u32(*count);
                p.float_bits(*spacing);
                T_NPC_LOAD
            },
        };
        assert(p@ =~= self@.payload());
        p.frame(ty)
    }

    /// The message of one frame.
    pub fn decode(frame: &[u8]) -> (r: Option<ServerMsg>)
        ensures
            match r {
                Some(m) => server_message(frame@) == Some(m@),
                None => server_message(frame@) is None,
            },
    {
        let (ty, payload) = frame_header(frame)?;
        let mut d = Dec::new(payload);
        let ghost s = payload@;
        let msg = if ty == T_HELLO {
            let version: u8 = d.u8()?;
            let seed: u64 = d.u64()?;
            let player_id: u32 = d.u32()?;
            ServerMsg::Hello { version, seed, player_id }
        } else if ty == T_PLAYER {
            let a = decode_agent(&mut d)?;
            ServerMsg::PlayerState(a)
        } else if ty == T_AGENTS {
            let v = decode_agents(&mut d)?;
            ServerMsg::Agents(v)
        } else if ty == T_CHUNK {
            let x: i32 = d.i32()?;
            let y: i32 = d.i32()?;
            let z: i32 = d.i32()?;
            let n: u32 = d.u32()?;
            let data = d.bytes(n as usize)?;
            ServerMsg::Chunk { pos: ChunkPos { x, y, z }, data }
        } else if ty == T_STATS {
            let chunks_generated: u32 = d.u32()?;
            let chunks_sent: u32 = d.u32()?;
            let deltas: u32 = d.u32()?;
            let agents: u32 = d.u32()?;
            let npcs: u32 = d.u32()?;
            let lookups: u64 = d.u64()?;
            let hits: u64 = d.u64()?;
            let solid_misses: u64 = d.u64()?;
            let rebuilds: u64 = d.u64()?;
            let rebuild_probes: u64 = d.u64()?;
            ServerMsg::Stats(
                ServerStats {
                    chunks_generated: chunks_generated as usize,
                    chunks_sent: chunks_sent as usize,
                    deltas: deltas as usize,
                    agents: agents as usize,
                    npcs: npcs as usize,
                    cache: CacheStats { lookups, hits, solid_misses, rebuilds, rebuild_probes },
                },
            )
        } else if ty == T_NPC_LOAD {
            let count: u32 = d.u32()?;
            let spacing: u32 = d.float_bits()?;
            ServerMsg::NpcLoad { count, spacing }
        } else {
            return None;
        };
        if !d.exhausted() {
            return None;
        }
        Some(msg)
    }
}

/// Reads a list of agents after their count.
fn decode_agents(d: &mut Dec) -> (r: Option<Vec<AgentState>>)
    requires
        old(d).wf(),
        old(d).i == 0,
    ensures
        final(d).wf(),
        final(d).b@ == old(d).b@,
        match r {
            Some(v) => old(d).b@.len() >= 4 && agents_at(
                old(d).b@,
                4,
                wire::val4(old(d).b@, 0) as nat,
            ) == Some((agent_views(v@), final(d).i as int)),
            None => old(d).b@.len() < 4 || agents_at(
                old(d).b@,
                4,
                wire::val4(old(d).b@, 0) as nat,
            ) is None,
        },
{
    let ghost s = d.b@;
    let n: u32 = d.u32()?;
    let mut v: Vec<AgentState> = Vec::new();
    let mut k: u32 = 0;
    assert(agent_views(v@) =~= Seq::<AgentView>::empty());
    proof {
        match agents_at(s, 4, n as nat) {
            Some((rest, end)) => assert(Seq::<AgentView>::empty() + rest =~= rest),
            None => {},
        }
    }
    while k < n
        invariant
            k <= n,
            d.wf(),
            d.b@ == s,
            s == old(d).b@,
            s.len() >= 4,
            n == wire::val4(s, 0),
            agents_at(s, 4, n as nat) == (match agents_at(s, d.i as int, (n - k) as nat) {
                Some((rest, end)) => Some((agent_views(v@) + rest, end)),
                None => None,
            }),
        decreases n - k,
    {
        let ghost at = d.i as int;
        let ghost seen = agent_views(v@);
        let a = match decode_agent(d) {
            Some(a) => a,
            None => return None,
        };
        let ghost view = a@;
        v.push(a);
        proof {
            assert(agent_views(v@) =~= seen.push(view));
            match agents_at(s, d.i as int, (n - k - 1) as nat) {
                Some((rest, end)) => {
                    assert(seen + (seq![view] + rest) =~= agent_views(v@) + rest);
                },
                None => {},
            }
        }
        k = k + 1;
    }
    assert(agent_views(v@) + Seq::<AgentView>::empty() =~= agent_views(v@));
    Some(v)
}

/// What each of a list of messages says.
pub open spec fn client_views(v: Seq<ClientMsg>) -> Seq<ClientView> {
    Seq::new(v.len(), |k: int| v[k]@)
}

/// The messages of the whole frames at the front of some bytes, and how many bytes
/// those frames take. A frame that stands for no message is passed over.
pub open spec fn client_stream(s: Seq<u8>) -> (Seq<ClientView>, int)
    decreases s.len(),
{
    if s.len() < 5 || s.len() - 5 < wire::val4(s, 1) {
        (Seq::empty(), 0)
    } else {
        let total = 5 + wire::val4(s, 1);
        let (rest, n) = client_stream(s.skip(total));
        match client_message(s.take(total)) {
            Some(m) => (seq![m] + rest, total + n),
            None => (rest, total + n),
        }
    }
}

impl ClientMsg {
    /// The messages of all whole frames in `buf`, and the number of bytes that the
    /// frames take. A partial frame at the end is left over.
    pub fn decode_stream(buf: &[u8]) -> (r: (Vec<ClientMsg>, usize))
        ensures
            (client_views(r.0@), r.1 as int) == client_stream(buf@),
            r.1 <= buf@.len(),
    {
        let mut out: Vec<ClientMsg> = Vec::new();
        let size: usize = buf.len();
        let mut off: usize = 0;
        let ghost s = buf@;
        proof {
            assert(s.skip(0) =~= s);
            assert(client_views(out@) + client_stream(s).0 =~= client_stream(s).0);
        }
        loop
            invariant_except_break
                off <= s.len(),
                s == buf@,
                size == s.len(),
                client_stream(s) == (
                    client_views(out@) + client_stream(s.skip(off as int)).0,
                    off + client_stream(s.skip(off as int)).1,
                ),
            ensures
                off <= s.len(),
                client_stream(s) == (client_views(out@), off as int),
            decreases s.len() - off,
        {
            let ghost here = s.skip(off as int);
            proof {
                if off + 5 <= s.len() {
                    assert(wire::val4(here, 1) == wire::val4(s, off + 1)) by {
                        reveal(wire::val4);
                    }
                }
            }
            match frame_len(buf, off) {
                None => {
                    assert(client_views(out@) + Seq::<ClientView>::empty() =~= client_views(out@));
                    break ;
                },
                Some((_, total)) => {
                    assert(off + total <= size);
                    let frame = vstd::slice::slice_subrange(buf, off, off + total);
                    let ghost seen = client_views(out@);
                    proof {
                        assert(frame@ =~= here.take(total as int));
                        assert(here.skip(total as int) =~= s.skip(off + total));
                    }
                    let ghost rest = client_stream(here.skip(total as int)).0;
                    match ClientMsg::decode(frame) {
                        Some(m) => {
                            let ghost view = m@;
                            out.push(m);
                            proof {
                                assert(client_views(out@) =~= seen.push(view));
                                assert(seen + (seq![view] + rest) =~= client_views(out@) + rest);
                            }
                        },
                        None => {},
                    }
                    off = off + total;
                },
            }
        }
        (out, off)
    }
}

/// What each of a list of messages says.
pub open spec fn server_views(v: Seq<ServerMsg>) -> Seq<ServerView> {
    Seq::new(v.len(), |k: int| v[k]@)
}

/// The messages of the whole frames at the front of some bytes, and how many bytes
/// those frames take. A frame that stands for no message is passed over.
pub open spec fn server_stream(s: Seq<u8>) -> (Seq<ServerView>, int)
    decreases s.len(),
{
    if s.len() < 5 || s.len() - 5 < wire::val4(s, 1) {
        (Seq::empty(), 0)
    } else {
        let total = 5 + wire::val4(s, 1);
        let (rest, n) = server_stream(s.skip(total));
        match server_message(s.take(total)) {
            Some(m) => (seq![m] + rest, total + n),
            None => (rest, total + n),
        }
    }
}

impl ServerMsg {
    /// The messages of all whole frames in `buf`, and the number of bytes that the
    /// frames take. A partial frame at the end is left over.
    pub fn decode_stream(buf: &[u8]) -> (r: (Vec<ServerMsg>, usize))
        ensures
            (server_views(r.0@), r.1 as int) == server_stream(buf@),
            r.1 <= buf@.len(),
    {
        let mut out: Vec<ServerMsg> = Vec::new();
        let size: usize = buf.len();
        let mut off: usize = 0;
        let ghost s = buf@;
        proof {
            assert(s.skip(0) =~= s);
            assert(server_views(out@) + server_stream(s).0 =~= server_stream(s).0);
        }
        loop
            invariant_except_break
                off <= s.len(),
                s == buf@,
                size == s.len(),
                server_stream(s) == (
                    server_views(out@) + server_stream(s.skip(off as int)).0,
                    off + server_stream(s.skip(off as int)).1,
                ),
            ensures
                off <= s.len(),
                server_stream(s) == (server_views(out@), off as int),
            decreases s.len() - off,
        {
            let ghost here = s.skip(off as int);
            proof {
                if off + 5 <= s.len() {
                    assert(wire::val4(here, 1) == wire::val4(s, off + 1)) by {
                        reveal(wire::val4);
                    }
                }
            }
            match frame_len(buf, off) {
                None => {
                    assert(server_views(out@) + Seq::<ServerView>::empty() =~= server_views(out@));
                    break ;
                },
                Some((_, total)) => {
                    assert(off + total <= size);
                    let frame = vstd::slice::slice_subrange(buf, off, off + total);
                    let ghost seen = server_views(out@);
                    proof {
                        assert(frame@ =~= here.take(total as int));
                        assert(here.skip(total as int) =~= s.skip(off + total));
                    }
                    let ghost rest = server_stream(here.skip(total as int)).0;
                    match ServerMsg::decode(frame) {
                        Some(m) => {
                            let ghost view = m@;
                            out.push(m);
                            proof {
                                assert(server_views(out@) =~= seen.push(view));
                                assert(seen + (seq![view] + rest) =~= server_views(out@) + rest);
                            }
                        },
                        None => {},
                    }
                    off = off + total;
                },
            }
        }
        (out, off)
    }
}

} // verus!
