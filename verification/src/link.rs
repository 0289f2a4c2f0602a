//! A page's link to a server: what the server's messages change, and what happens
//! when the link is made, refused or lost.
use vstd::prelude::*;

use crate::agent;
use crate::agent::{AgentState, AgentView};
use crate::chunk_set;
use crate::chunk_set::ChunkSet;
use crate::chunk_table::VIEW_RADIUS;
use crate::coords::{BlockPos, ChunkPos};
use crate::protocol::{ServerMsg, PROTOCOL_VERSION};
use crate::stats;
use crate::stats::ServerStats;
use crate::world::WorldUpdate;

verus! {

/// More chunks than this must be missing before they are asked for again.
pub const RESYNC_GAP_CHUNKS: i64 = 32;

/// So long must no chunk have arrived, in milliseconds.
pub const RESYNC_STALE_MS: u64 = 5000;

/// So long must it be since chunks were asked for, in milliseconds.
pub const RESYNC_COOLDOWN_MS: u64 = 10000;

/// More chunks than this are not remembered as held.
pub const MAX_HELD: usize = 8192;

/// The id of no link.
pub const NO_LINK: u32 = 0xFFFFFFFF;

/// The id of no player.
pub const NO_PLAYER: u32 = 0xFFFFFFFF;

/// What a server sends to this page.
pub enum Incoming {
    Message(ServerMsg),
    /// What a block is that was asked for.
    BlockAt { pos: BlockPos, block: u8 },
}

/// What the status line says.
#[derive(Clone, Copy, PartialEq, Eq, Structural, Debug)]
pub enum Status {
    Connecting,
    Connected { seed: u64 },
    /// The server is newer than the page, which is loaded again.
    Reloading,
    /// The server is newer than the page, and loading it again did not help.
    ReloadFailed,
    /// A link that was made is lost.
    Disconnected,
    /// A link could not be made.
    Failed,
}

/// What is to be done.
#[derive(Clone, Debug)]
pub enum Effect {
    /// The socket is closed.
    Close,
    /// The page is loaded again, if that has not been tried too often.
    TryReload,
    /// The player's name and colour are sent.
    SendProfile,
    /// The chunks that are held are sent, so that the others come again.
    SendResync(Vec<ChunkPos>),
    SendNpcLoad { count: u32, spacing: u32 },
    /// A question is answered: which one, and with which block.
    Answer { ticket: u64, pos: BlockPos, block: u8 },
    /// A question will not be answered.
    Decline { ticket: u64 },
    Status(Status),
    /// The page goes back to its own server.
    Fallback,
}

/// A link to a server.
pub struct Link {
    id: u32,
    connected: bool,
    player_id: u32,
    seed: Option<u64>,
    have: ChunkSet,
    last_chunk: u64,
    last_resync: u64,
    inbound: Vec<WorldUpdate>,
    player: AgentState,
    agents: Vec<AgentState>,
    stats: ServerStats,
    npc_load: (u32, u32),
}

/// What each of a list of agents says.
pub open spec fn agent_views(v: Seq<AgentState>) -> Seq<AgentView> {
    Seq::new(v.len(), |k: int| v[k]@)
}

/// What a link says.
#[verifier::ext_equal]
pub struct LinkView {
    pub id: u32,
    /// Whether the server's first message arrived.
    pub connected: bool,
    pub player_id: u32,
    pub seed: Option<u64>,
    /// The chunks that arrived.
    pub have: Set<ChunkPos>,
    /// When a chunk last arrived, in milliseconds.
    pub last_chunk: u64,
    /// When chunks were last asked for again, in milliseconds.
    pub last_resync: u64,
    /// The chunks that wait to be drawn.
    pub inbound: Seq<WorldUpdate>,
    pub player: AgentView,
    pub agents: Seq<AgentView>,
    pub stats: ServerStats,
    pub npc_load: (u32, u32),
}

impl View for Link {
    type V = LinkView;

    closed spec fn view(&self) -> LinkView {
        LinkView {
            id: self.id,
            connected: self.connected,
            player_id: self.player_id,
            seed: self.seed,
            have: self.have@,
            last_chunk: self.last_chunk,
            last_resync: self.last_resync,
            inbound: self.inbound@,
            player: self.player@,
            agents: agent_views(self.agents@),
            stats: self.stats,
            npc_load: self.npc_load,
        }
    }
}

impl LinkView {
    /// The chunks held once only those near the player are remembered, where they
    /// are very many.
    pub open spec fn near(self, cell: (i32, i32, i32)) -> Set<ChunkPos> {
        if self.have.len() > MAX_HELD {
            self.have.filter(|c: ChunkPos| chunk_set::distance(c, cell) <= VIEW_RADIUS + 2)
        } else {
            self.have
        }
    }

    /// Whether chunks got lost on the way: many more were sent than are held, none
    /// arrived lately, and they were not asked for lately.
    pub open spec fn lost_chunks(self, sent: int, now: int) -> bool {
        &&& self.connected
        &&& sent - self.have.len() > RESYNC_GAP_CHUNKS
        &&& now - self.last_chunk > RESYNC_STALE_MS
        &&& now - self.last_resync > RESYNC_COOLDOWN_MS
    }
}

/// What the page asked and had no answer to: on which link, of which block, and
/// which question.
pub struct Question {
    pub link: u32,
    pub pos: BlockPos,
    pub ticket: u64,
}

/// The page's side of its links.
pub struct Client {
    link: Option<Link>,
    questions: Vec<Question>,
    pending_npcs: Option<(u32, u32)>,
    spawn: Option<(u32, u32)>,
    reloading: bool,
    next_link: u32,
}

/// What a client says.
#[verifier::ext_equal]
pub struct ClientView {
    pub link: Option<LinkView>,
    pub questions: Seq<Question>,
    /// NPCs to ask for when a link is made.
    pub pending_npcs: Option<(u32, u32)>,
    /// Where the player appeared, east and south, by its bits.
    pub spawn: Option<(u32, u32)>,
    /// Whether the page is being loaded again.
    pub reloading: bool,
    pub next_link: u32,
}

impl View for Client {
    type V = ClientView;

    closed spec fn view(&self) -> ClientView {
        ClientView {
            link: match self.link {
                Some(l) => Some(l@),
                None => None,
            },
            questions: self.questions@,
            pending_npcs: self.pending_npcs,
            spawn: self.spawn,
            reloading: self.reloading,
            next_link: self.next_link,
        }
    }
}

impl ClientView {
    /// The id of the link.
    pub open spec fn link_id(self) -> u32 {
        match self.link {
            Some(l) => l.id,
            None => NO_LINK,
        }
    }

    /// Back on the page's own server.
    pub open spec fn fallen_back(self, spawn: (u32, u32)) -> ClientView {
        ClientView { link: None, spawn: Some(spawn), ..self }
    }
}

/// What a batch of messages leaves to be done at its end.
pub struct Batch {
    pub hello: Option<u64>,
    pub answers: Vec<(BlockPos, u8)>,
}

/// The questions of other links.
pub open spec fn without_link(q: Seq<Question>, id: u32) -> Seq<Question>
    decreases q.len(),
{
    if q.len() == 0 {
        q
    } else if q.last().link == id {
        without_link(q.drop_last(), id)
    } else {
        without_link(q.drop_last(), id).push(q.last())
    }
}

/// The questions of a link.
pub open spec fn of_link(q: Seq<Question>, id: u32) -> Seq<Question>
    decreases q.len(),
{
    if q.len() == 0 {
        q
    } else if q.last().link == id {
        of_link(q.drop_last(), id).push(q.last())
    } else {
        of_link(q.drop_last(), id)
    }
}

/// Whether a question of a link is the oldest of a block.
pub open spec fn is_oldest(q: Seq<Question>, id: u32, pos: BlockPos, k: int) -> bool {
    &&& 0 <= k < q.len()
    &&& q[k].link == id
    &&& q[k].pos == pos
    &&& forall|j: int| 0 <= j < k ==> !((#[trigger] q[j]).link == id && q[j].pos == pos)
}

/// Whether there is a question of a link of a block.
pub open spec fn is_asked(q: Seq<Question>, id: u32, pos: BlockPos) -> bool {
    exists|k: int| is_oldest(q, id, pos, k)
}

/// Whether effects are refusals to answer questions, in order.
pub open spec fn declines(e: Seq<Effect>, q: Seq<Question>) -> bool {
    &&& e.len() == q.len()
    &&& forall|k: int|
        0 <= k < q.len() ==> (#[trigger] e[k]) == (Effect::Decline { ticket: q[k].ticket })
}

impl Client {
    /// Whether the link is in order.
    pub closed spec fn wf(self) -> bool {
        match self.link {
            Some(l) => l.have.wf(),
            None => true,
        }
    }

    /// A page on its own server, where the player appeared somewhere.
    pub fn new(spawn: (u32, u32), pending_npcs: Option<(u32, u32)>) -> (c: Client)
        ensures
            c.wf(),
            c@ == (ClientView {
                link: None,
                questions: Seq::empty(),
                pending_npcs,
                spawn: Some(spawn),
                reloading: false,
                next_link: 0,
            }),
    {
        let c = Client {
            link: None,
            questions: Vec::new(),
            pending_npcs,
            spawn: Some(spawn),
            reloading: false,
            next_link: 0,
        };
        assert(c@.questions =~= Seq::<Question>::empty());
        c
    }

    /// The id of the link.
    pub fn remote_id(&self) -> (id: u32)
        ensures
            id == self@.link_id(),
    {
        match &self.link {
            Some(l) => l.id,
            None => NO_LINK,
        }
    }

    /// Whether the server's first message arrived.
    pub fn is_connected(&self) -> (r: bool)
        ensures
            r == (self@.link matches Some(l) && l.connected),
    {
        match &self.link {
            Some(l) => l.connected,
            None => false,
        }
    }

    /// The player's own id: the first one on the page's own server.
    pub fn own_id(&self) -> (id: u32)
        ensures
            id == (match self@.link {
                Some(l) => l.player_id,
                None => 0,
            }),
    {
        match &self.link {
            Some(l) => l.player_id,
            None => 0,
        }
    }

    /// Where the player appeared.
    pub fn spawn(&self) -> (s: Option<(u32, u32)>)
        ensures
            s == self@.spawn,
    {
        self.spawn
    }

    /// What the server last said of the player.
    pub fn player(&self) -> (p: Option<&AgentState>)
        ensures
            match p {
                Some(s) => self@.link matches Some(l) && l.player == s@,
                None => self@.link is None,
            },
    {
        match &self.link {
            Some(l) => Some(&l.player),
            None => None,
        }
    }

    /// What the server last said of all agents.
    pub fn agents(&self) -> (p: Option<&Vec<AgentState>>)
        ensures
            match p {
                Some(v) => self@.link matches Some(l) && l.agents == agent_views(v@),
                None => self@.link is None,
            },
    {
        match &self.link {
            Some(l) => Some(&l.agents),
            None => None,
        }
    }

    /// The server's numbers, and the load of NPCs.
    pub fn numbers(&self) -> (r: Option<(ServerStats, (u32, u32))>)
        ensures
            match r {
                Some((s, n)) => self@.link matches Some(l) && l.stats == s && l.npc_load == n,
                None => self@.link is None,
            },
    {
        match &self.link {
            Some(l) => Some((l.stats, l.npc_load)),
            None => None,
        }
    }

    /// A link is made to another server. Its id comes back.
    pub fn connect(&mut self, npc_load: (u32, u32)) -> (id: u32)
        requires
            old(self).wf(),
            old(self)@.next_link < NO_LINK,
        ensures
            final(self).wf(),
            id == old(self)@.next_link,
            final(self)@.questions == old(self)@.questions,
            final(self)@.pending_npcs == old(self)@.pending_npcs,
            final(self)@.next_link == id + 1,
            final(self)@.spawn is None,
            !final(self)@.reloading,
            final(self)@.link matches Some(l) && {
                &&& l.id == id
                &&& !l.connected
                &&& l.player_id == NO_PLAYER
                &&& l.seed is None
                &&& l.have == Set::<ChunkPos>::empty()
                &&& l.last_chunk == 0
                &&& l.last_resync == 0
                &&& l.inbound == Seq::<WorldUpdate>::empty()
                &&& l.player == agent::unknown_player()
                &&& l.agents == Seq::<AgentView>::empty()
                &&& l.stats == stats::no_stats()
                &&& l.npc_load == npc_load
            },
    {
        let id: u32 = self.next_link;
        self.next_link = id + 1;
        self.reloading = false;
        self.spawn = None;
        let l = Link {
            id,
            connected: false,
            player_id: NO_PLAYER,
            seed: None,
            have: ChunkSet::new(),
            last_chunk: 0,
            last_resync: 0,
            inbound: Vec::new(),
            player: AgentState::default(),
            agents: Vec::new(),
            stats: ServerStats::default(),
            npc_load,
        };
        assert(agent_views(l.agents@) =~= Seq::<AgentView>::empty());
        self.link = Some(l);
        id
    }

    /// Back on the page's own server, where the player appeared somewhere.
    pub fn fallback_to_builtin(&mut self, spawn: (u32, u32))
        requires
            old(self).wf(),
        ensures
            final(self).wf(),
            final(self)@ == old(self)@.fallen_back(spawn),
    {
        self.link = None;
        self.spawn = Some(spawn);
    }

    /// Asks the server of a block. Returns whether it could be asked.
    pub fn ask_block(&mut self, pos: BlockPos, ticket: u64) -> (r: bool)
        requires
            old(self).wf(),
        ensures
            final(self).wf(),
            r == (old(self)@.link matches Some(l) && l.connected),
            final(self)@ == (if r {
                ClientView {
                    questions: old(self)@.questions.push(
                        Question { link: old(self)@.link_id(), pos, ticket },
                    ),
                    ..old(self)@
                }
            } else {
                old(self)@
            }),
    {
        if !self.is_connected() {
            return false;
        }
        let link: u32 = self.remote_id();
        self.questions.push(Question { link, pos, ticket });
        true
    }

    /// The chunks that wait to be drawn, which are taken.
    pub fn take_world_updates(&mut self) -> (v: Vec<WorldUpdate>)
        requires
            old(self).wf(),
        ensures
            final(self).wf(),
            match old(self)@.link {
                Some(l) => v@ == l.inbound && final(self)@ == (ClientView {
                    link: Some(LinkView { inbound: Seq::empty(), ..l }),
                    ..old(self)@
                }),
                None => v@.len() == 0 && final(self)@ == old(self)@,
            },
    {
        let mut v: Vec<WorldUpdate> = Vec::new();
        let mut link: Option<Link> = None;
        std::mem::swap(&mut link, &mut self.link);
        match link {
            Some(mut l) => {
                let ghost before = l@;
                std::mem::swap(&mut v, &mut l.inbound);
                assert(l@ =~= (LinkView { inbound: Seq::empty(), ..before }));
                self.link = Some(l);
            },
            None => {},
        }
        v
    }
}

/// What a message changes in a link, but for what a first message and the server's
/// numbers do: see [`Client::apply`].
pub open spec fn told(l: LinkView, m: ServerMsg, now: u64) -> LinkView {
    match m {
        ServerMsg::Hello { version, seed, player_id } => LinkView {
            connected: true,
            seed: Some(seed),
            player_id,
            ..l
        },
        ServerMsg::PlayerState(s) => LinkView { player: s@, ..l },
        ServerMsg::Agents(v) => LinkView { agents: agent_views(v@), ..l },
        ServerMsg::Chunk { pos, data } => LinkView {
            have: l.have.insert(pos),
            last_chunk: now,
            inbound: l.inbound.push(WorldUpdate::Chunk { pos, data }),
            ..l
        },
        ServerMsg::Stats(s) => LinkView { stats: s, ..l },
        ServerMsg::NpcLoad { count, spacing } => LinkView { npc_load: (count, spacing), ..l },
    }
}

/// What comes of a message.
pub enum Step {
    /// The next one is due, after these are done.
    Next(Vec<Effect>),
    /// The rest of the batch is dropped, after these are done.
    Stop(Vec<Effect>),
}

impl Step {
    /// What is to be done.
    pub open spec fn effects(self) -> Seq<Effect> {
        match self {
            Step::Next(e) => e@,
            Step::Stop(e) => e@,
        }
    }
}

impl Client {
    /// A message of a batch arrives at a time, with the player's chunk in `cell`.
    /// What it leaves to be done at the end goes into the batch.
    pub fn apply(
        &mut self,
        id: u32,
        m: Incoming,
        now: u64,
        cell: (i32, i32, i32),
        batch: &mut Batch,
    ) -> (r: Step)
        requires
            old(self).wf(),
        ensures
            final(self).wf(),
            match old(self)@.link {
                None => {
                    &&& final(self)@ == old(self)@
                    &&& r is Stop && r.effects().len() == 0
                    &&& *final(batch) == *old(batch)
                },
                Some(l) => if l.id != id {
                    &&& final(self)@ == old(self)@
                    &&& r is Stop && r.effects().len() == 0
                    &&& *final(batch) == *old(batch)
                } else {
                    match m {
                        Incoming::BlockAt { pos, block } => {
                            &&& final(self)@ == old(self)@
                            &&& r is Next && r.effects().len() == 0
                            &&& final(batch).hello == old(batch).hello
                            &&& final(batch).answers@ == old(batch).answers@.push((pos, block))
                        },
                        Incoming::Message(ServerMsg::Hello { version, seed, player_id }) => if version
                            == PROTOCOL_VERSION {
                            &&& final(self)@ == (ClientView {
                                link: Some(told(l, m->Message_0, now)),
                                ..old(self)@
                            })
                            &&& r is Next && r.effects() =~= seq![Effect::SendProfile]
                            &&& final(batch).hello == Some(seed)
                            &&& final(batch).answers@ == old(batch).answers@
                        } else {
                            &&& final(self)@ == old(self)@
                            &&& *final(batch) == *old(batch)
                            &&& r is Stop
                            &&& r.effects() =~= (if version > PROTOCOL_VERSION {
                                seq![Effect::Close, Effect::TryReload]
                            } else {
                                seq![Effect::Close]
                            })
                        },
                        Incoming::Message(ServerMsg::PlayerState(s)) => {
                            &&& final(self)@ == (ClientView {
                                link: Some(told(l, m->Message_0, now)),
                                spawn: if old(self)@.spawn is None {
                                    Some((s.pos.x, s.pos.z))
                                } else {
                                    old(self)@.spawn
                                },
                                ..old(self)@
                            })
                            &&& r is Next && r.effects().len() == 0
                            &&& *final(batch) == *old(batch)
                        },
                        Incoming::Message(ServerMsg::Stats(s)) => {
                            let near = LinkView {
                                have: l.near(cell),
                                ..told(l, m->Message_0, now)
                            };
                            let lost = near.lost_chunks(s.chunks_sent as int, now as int);
                            &&& final(self)@ == (ClientView {
                                link: Some(
                                    LinkView {
                                        last_resync: if lost {
                                            now
                                        } else {
                                            l.last_resync
                                        },
                                        ..near
                                    },
                                ),
                                ..old(self)@
                            })
                            &&& *final(batch) == *old(batch)
                            &&& r is Next
                            &&& if lost {
                                &&& r.effects().len() == 1
                                &&& r.effects()[0] matches Effect::SendResync(v)
                                    && v@.no_duplicates() && v@.to_set() == near.have
                            } else {
                                r.effects().len() == 0
                            }
                        },
                        Incoming::Message(other) => {
                            &&& final(self)@ == (ClientView {
                                link: Some(told(l, other, now)),
                                ..old(self)@
                            })
                            &&& r is Next && r.effects().len() == 0
                            &&& *final(batch) == *old(batch)
                        },
                    }
                },
            },
    {
        let mut effects: Vec<Effect> = Vec::new();
        let mut link: Option<Link> = None;
        if self.remote_id() != id {
            return Step::Stop(effects);
        }
        std::mem::swap(&mut link, &mut self.link);
        let mut l: Link = match link {
            Some(l) => l,
            None => {
                return Step::Stop(effects);
            },
        };
        let ghost before = l@;
        match m {
            Incoming::BlockAt { pos, block } => {
                batch.answers.push((pos, block));
            },
            Incoming::Message(ServerMsg::Hello { version, seed, player_id }) => {
                if version != PROTOCOL_VERSION {
                    self.link = Some(l);
                    effects.push(Effect::Close);
                    if version > PROTOCOL_VERSION {
                        effects.push(Effect::TryReload);
                    }
                    return Step::Stop(effects);
                }
                l.connected = true;
                l.seed = Some(seed);
                l.player_id = player_id;
                batch.hello = Some(seed);
                effects.push(Effect::SendProfile);
            },
            Incoming::Message(ServerMsg::PlayerState(s)) => {
                if self.spawn.is_none() {
                    self.spawn = Some((s.pos.x, s.pos.z));
                }
                l.player = s;
            },
            Incoming::Message(ServerMsg::Agents(v)) => {
                l.agents = v;
            },
            Incoming::Message(ServerMsg::Chunk { pos, data }) => {
                let _ = l.have.insert(pos);
                l.last_chunk = now;
                l.inbound.push(WorldUpdate::Chunk { pos, data });
            },
            Incoming::Message(ServerMsg::Stats(s)) => {
                l.stats = s;
                if l.have.len() > MAX_HELD {
                    l.have.retain_near(cell, VIEW_RADIUS as i64 + 2);
                    assert(l.have@ =~= before.near(cell));
                }
                let held: usize = l.have.len();
                let gap: i128 = s.chunks_sent as i128 - held as i128;
                if l.connected && gap > RESYNC_GAP_CHUNKS as i128 && now > l.last_chunk && now
                    - l.last_chunk > RESYNC_STALE_MS && now > l.last_resync && now - l.last_resync
                    > RESYNC_COOLDOWN_MS {
                    let v = copy_chunks(l.have.items());
                    l.last_resync = now;
                    effects.push(Effect::SendResync(v));
                }
            },
            Incoming::Message(ServerMsg::NpcLoad { count, spacing }) => {
                l.npc_load = (count, spacing);
            },
        }
        self.link = Some(l);
        Step::Next(effects)
    }

    /// The page was loaded again because the server is newer, or could not be.
    pub fn reload_outcome(&mut self, reloaded: bool, spawn: (u32, u32)) -> (e: Vec<Effect>)
        requires
            old(self).wf(),
        ensures
            final(self).wf(),
            if reloaded {
                &&& final(self)@ == (ClientView { reloading: true, ..old(self)@ })
                &&& e@ =~= seq![Effect::Status(Status::Reloading)]
            } else {
                &&& final(self)@ == old(self)@.fallen_back(spawn)
                &&& e@ =~= seq![Effect::Status(Status::ReloadFailed), Effect::Fallback]
            },
    {
        let mut e: Vec<Effect> = Vec::new();
        if reloaded {
            self.reloading = true;
            e.push(Effect::Status(Status::Reloading));
        } else {
            e.push(Effect::Status(Status::ReloadFailed));
            self.fallback_to_builtin(spawn);
            e.push(Effect::Fallback);
        }
        e
    }

    /// Answers the oldest question of a link of a block.
    fn settle(&mut self, id: u32, pos: BlockPos) -> (r: Option<u64>)
        requires
            old(self).wf(),
        ensures
            final(self).wf(),
            match r {
                Some(t) => exists|k: int| #[trigger]
                    is_oldest(old(self)@.questions, id, pos, k) && t
                        == old(self)@.questions[k].ticket && final(self)@ == (ClientView {
                        questions: old(self)@.questions.remove(k),
                        ..old(self)@
                    }),
                None => !is_asked(old(self)@.questions, id, pos) && final(self)@ == old(self)@,
            },
    {
        let mut k: usize = 0;
        while k < self.questions.len()
            invariant
                k <= self.questions@.len(),
                self.wf(),
                self@ == old(self)@,
                self.questions@ == old(self)@.questions,
                forall|j: int|
                    0 <= j < k ==> !((#[trigger] self.questions@[j]).link == id
                        && self.questions@[j].pos == pos),
            decreases self.questions@.len() - k,
        {
            if self.questions[k].link == id && self.questions[k].pos == pos {
                let ghost before = self.questions@;
                assert(is_oldest(before, id, pos, k as int));
                let q = self.questions.remove(k);
                assert(self@ =~= (ClientView { questions: before.remove(k as int), ..old(self)@ }));
                return Some(q.ticket);
            }
            k = k + 1;
        }
        None
    }

    /// A batch of messages of a link is over: answers are given, oldest question
    /// first, and the load of NPCs that waited for a link is asked for.
    pub fn finish(&mut self, id: u32, batch: Batch) -> (e: Vec<Effect>)
        requires
            old(self).wf(),
        ensures
            final(self).wf(),
            final(self)@.link == old(self)@.link,
            final(self)@.spawn == old(self)@.spawn,
            final(self)@.reloading == old(self)@.reloading,
            final(self)@.next_link == old(self)@.next_link,
            exists|qs: Seq<Seq<Question>>, n: nat|
                {
                    &&& #[trigger] is_settling(qs, id, batch.answers@, e@, n)
                    &&& qs[0] == old(self)@.questions
                    &&& qs.last() == final(self)@.questions
                    &&& match batch.hello {
                        Some(seed) => match old(self)@.pending_npcs {
                            Some((count, spacing)) => {
                                &&& final(self)@.pending_npcs is None
                                &&& e@.skip(n as int) =~= seq![
                                    Effect::Status(Status::Connected { seed }),
                                    Effect::SendNpcLoad { count, spacing },
                                ]
                            },
                            None => {
                                &&& final(self)@.pending_npcs is None
                                &&& e@.skip(n as int) =~= seq![
                                    Effect::Status(Status::Connected { seed }),
                                ]
                            },
                        },
                        None => {
                            &&& final(self)@.pending_npcs == old(self)@.pending_npcs
                            &&& e@.len() == n
                        },
                    }
                },
    {
        let mut e: Vec<Effect> = Vec::new();
        let ghost mut qs: Seq<Seq<Question>> = seq![self@.questions];
        let mut i: usize = 0;
        while i < batch.answers.len()
            invariant
                i <= batch.answers@.len(),
                self.wf(),
                self@ == (ClientView { questions: qs.last(), ..old(self)@ }),
                qs[0] == old(self)@.questions,
                is_settling(qs, id, batch.answers@.take(i as int), e@, e@.len()),
            decreases batch.answers@.len() - i,
        {
            let (pos, block) = batch.answers[i];
            let ghost before = self@.questions;
            let ghost done = e@;
            let r = self.settle(id, pos);
            match r {
                Some(ticket) => {
                    e.push(Effect::Answer { ticket, pos, block });
                },
                None => {},
            }
            proof {
                let more = qs.push(self@.questions);
                assert(batch.answers@.take(i as int + 1).take(i as int)
                    =~= batch.answers@.take(i as int));
                one_more_answer(
                    qs,
                    more,
                    id,
                    batch.answers@.take(i as int),
                    batch.answers@.take(i as int + 1),
                    done,
                    e@,
                );
                qs = more;
            }
            i = i + 1;
        }
        proof {
            assert(batch.answers@.take(i as int) =~= batch.answers@);
        }
        let ghost n = e@.len();
        let ghost answered = e@;
        match batch.hello {
            Some(seed) => {
                e.push(Effect::Status(Status::Connected { seed }));
                match self.pending_npcs {
                    Some((count, spacing)) => {
                        self.pending_npcs = None;
                        e.push(Effect::SendNpcLoad { count, spacing });
                    },
                    None => {},
                }
            },
            None => {},
        }
        proof {
            assert(e@.take(n as int) =~= answered);
            settling_ignores_the_rest(qs, id, batch.answers@, answered, e@, n);
        }
        e
    }

    /// The socket of a link is closed. Its questions are declined. Where it is the
    /// page's link, and the page is not being loaded again, the page goes back to its
    /// own server.
    pub fn closed(&mut self, id: u32, spawn: (u32, u32)) -> (e: Vec<Effect>)
        requires
            old(self).wf(),
        ensures
            final(self).wf(),
            ({
                let q = of_link(old(self)@.questions, id);
                let kept = ClientView {
                    questions: without_link(old(self)@.questions, id),
                    ..old(self)@
                };
                &&& e@.len() >= q.len()
                &&& declines(e@.take(q.len() as int), q)
                &&& if old(self)@.link matches Some(l) && l.id == id && !old(self)@.reloading {
                    &&& final(self)@ == kept.fallen_back(spawn)
                    &&& e@.skip(q.len() as int) =~= seq![
                        Effect::Fallback,
                        Effect::Status(
                            if old(self)@.link->Some_0.connected {
                                Status::Disconnected
                            } else {
                                Status::Failed
                            },
                        ),
                    ]
                } else {
                    &&& final(self)@ == kept
                    &&& e@.len() == q.len()
                }
            }),
    {
        let mut e = self.decline(id);
        let ghost declined = e@;
        let had_hello: Option<bool> = match &self.link {
            Some(l) => if l.id == id && !self.reloading {
                Some(l.connected)
            } else {
                None
            },
            None => None,
        };
        match had_hello {
            Some(hello) => {
                self.fallback_to_builtin(spawn);
                e.push(Effect::Fallback);
                e.push(
                    Effect::Status(
                        if hello {
                            Status::Disconnected
                        } else {
                            Status::Failed
                        },
                    ),
                );
            },
            None => {},
        }
        assert(e@.take(declined.len() as int) =~= declined);
        e
    }

    /// Declines the questions of a link.
    fn decline(&mut self, id: u32) -> (e: Vec<Effect>)
        requires
            old(self).wf(),
        ensures
            final(self).wf(),
            final(self)@ == (ClientView {
                questions: without_link(old(self)@.questions, id),
                ..old(self)@
            }),
            declines(e@, of_link(old(self)@.questions, id)),
            final(self).link == old(self).link,
            final(self).reloading == old(self).reloading,
    {
        let ghost all = self.questions@;
        let mut kept: Vec<Question> = Vec::new();
        let mut e: Vec<Effect> = Vec::new();
        let mut i: usize = 0;
        assert(all.take(0).len() == 0);
        while i < self.questions.len()
            invariant
                i <= self.questions@.len(),
                self.questions@ == all,
                *self == *old(self),
                kept@ == without_link(all.take(i as int), id),
                declines(e@, of_link(all.take(i as int), id)),
            decreases self.questions@.len() - i,
        {
            let q = Question {
                link: self.questions[i].link,
                pos: self.questions[i].pos,
                ticket: self.questions[i].ticket,
            };
            proof {
                let next = all.take(i as int + 1);
                assert(next.drop_last() =~= all.take(i as int));
                assert(next.last() == q);
            }
            if q.link == id {
                e.push(Effect::Decline { ticket: q.ticket });
            } else {
                kept.push(q);
            }
            i = i + 1;
        }
        assert(all.take(i as int) =~= all);
        self.questions = kept;
        assert(self@ =~= (ClientView { questions: without_link(all, id), ..old(self)@ }));
        e
    }
}

fn copy_chunks(v: &[ChunkPos]) -> (r: Vec<ChunkPos>)
    ensures
        r@ == v@,
{
    let mut r: Vec<ChunkPos> = Vec::new();
    let mut i: usize = 0;
    while i < v.len()
        invariant
            i <= v@.len(),
            r@ == v@.take(i as int),
        decreases v@.len() - i,
    {
        r.push(v[i]);
        assert(v@.take(i as int + 1) =~= v@.take(i as int).push(v@[i as int]));
        i = i + 1;
    }
    assert(v@.take(i as int) =~= v@);
    r
}

/// How many of the first `n` answers found a question: where the list of questions
/// got shorter.
pub open spec fn found(qs: Seq<Seq<Question>>, n: nat) -> nat
    decreases n,
{
    if n == 0 {
        0
    } else {
        found(qs, (n - 1) as nat) + if qs[n as int].len() < qs[n - 1].len() {
            1nat
        } else {
            0nat
        }
    }
}

/// Whether giving an answer turns one list of questions into another: it goes to the
/// oldest question of its block, if there is one, and the effect at a place among the
/// first `n` gives it.
pub open spec fn is_answering(
    q: Seq<Question>,
    r: Seq<Question>,
    id: u32,
    answer: (BlockPos, u8),
    e: Seq<Effect>,
    at: int,
    n: nat,
) -> bool {
    ||| !is_asked(q, id, answer.0) && r == q
    ||| exists|k: int| #[trigger]
        is_oldest(q, id, answer.0, k) && r == q.remove(k) && 0 <= at < n && e[at] == (
        Effect::Answer { ticket: q[k].ticket, pos: answer.0, block: answer.1 })
}

/// Whether a list of lists of questions is what giving answers, one after the other,
/// makes of the first one, and the first `n` effects are those that give them.
pub open spec fn is_settling(
    qs: Seq<Seq<Question>>,
    id: u32,
    answers: Seq<(BlockPos, u8)>,
    e: Seq<Effect>,
    n: nat,
) -> bool {
    &&& qs.len() == answers.len() + 1
    &&& n == found(qs, answers.len())
    &&& n <= e.len()
    &&& forall|i: int| #![trigger answers[i]]
        0 <= i < answers.len() ==> is_answering(
            qs[i],
            qs[i + 1],
            id,
            answers[i],
            e,
            found(qs, i as nat) as int,
            n,
        )
}

proof fn found_of_prefix(qs: Seq<Seq<Question>>, more: Seq<Seq<Question>>, n: nat)
    requires
        n < qs.len() <= more.len(),
        forall|i: int| 0 <= i < qs.len() ==> #[trigger] more[i] == qs[i],
    ensures
        found(more, n) == found(qs, n),
    decreases n,
{
    if n > 0 {
        found_of_prefix(qs, more, (n - 1) as nat);
        assert(more[n as int] == qs[n as int] && more[n - 1] == qs[n - 1]);
    }
}

proof fn answering_goes_on(
    q: Seq<Question>,
    r: Seq<Question>,
    id: u32,
    answer: (BlockPos, u8),
    e: Seq<Effect>,
    at: int,
    n: nat,
    longer: Seq<Effect>,
    m: nat,
)
    requires
        is_answering(q, r, id, answer, e, at, n),
        n <= m,
        0 <= at < n ==> longer[at] == e[at],
    ensures
        is_answering(q, r, id, answer, longer, at, m),
{
    if is_asked(q, id, answer.0) {
        let k = choose|k: int| #[trigger]
            is_oldest(q, id, answer.0, k) && r == q.remove(k) && 0 <= at < n && e[at] == (
            Effect::Answer { ticket: q[k].ticket, pos: answer.0, block: answer.1 });
        assert(is_oldest(q, id, answer.0, k));
    }
}

proof fn one_more_answer(
    qs: Seq<Seq<Question>>,
    more: Seq<Seq<Question>>,
    id: u32,
    part: Seq<(BlockPos, u8)>,
    next: Seq<(BlockPos, u8)>,
    before: Seq<Effect>,
    after: Seq<Effect>,
)
    requires
        is_settling(qs, id, part, before, before.len()),
        next.len() == part.len() + 1,
        next.take(part.len() as int) == part,
        more == qs.push(more.last()),
        ({
            let q = qs.last();
            let a = next.last();
            ||| !is_asked(q, id, a.0) && more.last() == q && after == before
            ||| exists|k: int| #[trigger]
                is_oldest(q, id, a.0, k) && more.last() == q.remove(k) && after == before.push(
                    Effect::Answer { ticket: q[k].ticket, pos: a.0, block: a.1 },
                )
        }),
    ensures
        is_settling(more, id, next, after, after.len()),
{
    let n = part.len();
    let q = qs.last();
    let a = next.last();
    assert(q == qs[n as int]);
    assert(more[n as int] == q);
    assert(more[n as int + 1] == more.last());
    found_of_prefix(qs, more, n);
    assert(found(more, n) == before.len());
    assert(is_answering(q, more.last(), id, a, after, before.len() as int, after.len())
        && found(more, next.len()) == after.len() && before.len() <= after.len() && (forall|k: int|
        0 <= k < before.len() ==> after[k] == before[k])) by {
        assert(found(more, next.len()) == found(more, n) + if more[n as int + 1].len()
            < more[n as int].len() {
            1nat
        } else {
            0nat
        });
        if !(!is_asked(q, id, a.0) && more.last() == q && after == before) {
            let k = choose|k: int| #[trigger]
                is_oldest(q, id, a.0, k) && more.last() == q.remove(k) && after == before.push(
                    Effect::Answer { ticket: q[k].ticket, pos: a.0, block: a.1 },
                );
            assert(is_oldest(q, id, a.0, k));
            assert(more.last().len() < q.len());
        }
    }
    assert forall|i: int| #![trigger next[i]] 0 <= i < next.len() implies is_answering(
        more[i],
        more[i + 1],
        id,
        next[i],
        after,
        found(more, i as nat) as int,
        after.len(),
    ) by {
        if i < n {
            assert(part[i] == next.take(n as int)[i]);
            assert(part[i] == next[i]);
            assert(more[i] == qs[i] && more[i + 1] == qs[i + 1]);
            found_of_prefix(qs, more, i as nat);
            answering_goes_on(
                qs[i],
                qs[i + 1],
                id,
                part[i],
                before,
                found(qs, i as nat) as int,
                before.len(),
                after,
                after.len(),
            );
        }
    }
}

proof fn settling_ignores_the_rest(
    qs: Seq<Seq<Question>>,
    id: u32,
    answers: Seq<(BlockPos, u8)>,
    e: Seq<Effect>,
    longer: Seq<Effect>,
    n: nat,
)
    requires
        is_settling(qs, id, answers, e, n),
        e.len() == n,
        longer.len() >= n,
        longer.take(n as int) == e,
    ensures
        is_settling(qs, id, answers, longer, n),
{
    assert forall|i: int| #![trigger answers[i]] 0 <= i < answers.len() implies is_answering(
        qs[i],
        qs[i + 1],
        id,
        answers[i],
        longer,
        found(qs, i as nat) as int,
        n,
    ) by {
        let at = found(qs, i as nat) as int;
        assert(0 <= at < n ==> longer.take(n as int)[at] == longer[at]);
        answering_goes_on(qs[i], qs[i + 1], id, answers[i], e, at, n, longer, n);
    }
}

// ---- Laws ------------------------------------------------------------------------

/// Every question of a link is declined or stays: none is lost.
pub proof fn questions_are_kept_or_declined(q: Seq<Question>, id: u32)
    ensures
        of_link(q, id).len() + without_link(q, id).len() == q.len(),
        forall|k: int| 0 <= k < of_link(q, id).len() ==> (#[trigger] of_link(q, id)[k]).link == id,
        forall|k: int|
            0 <= k < without_link(q, id).len() ==> (#[trigger] without_link(q, id)[k]).link != id,
    decreases q.len(),
{
    if q.len() > 0 {
        questions_are_kept_or_declined(q.drop_last(), id);
    }
}

/// A link that works is never asked to send again: while chunks arrive, however
/// slowly, or few are missing, nothing is lost.
pub proof fn slow_links_are_left_alone(l: LinkView, sent: int, now: int)
    requires
        now - l.last_chunk <= RESYNC_STALE_MS || sent - l.have.len() <= RESYNC_GAP_CHUNKS,
    ensures
        !l.lost_chunks(sent, now),
{
}

/// Chunks are not asked for twice in a short time.
pub proof fn resyncs_are_rare(l: LinkView, sent: int, now: u64, later: int)
    requires
        later - now <= RESYNC_COOLDOWN_MS,
    ensures
        !(LinkView { last_resync: now, ..l }).lost_chunks(sent, later),
{
}

/// An answer goes to the question that was asked first among those of its link and its
/// place, and takes it off the list; the others stay, in their order. Where nobody asked,
/// nothing happens.
pub proof fn answers_go_to_the_first_question(
    q: Seq<Question>,
    r: Seq<Question>,
    id: u32,
    answer: (BlockPos, u8),
    e: Seq<Effect>,
    at: int,
    n: nat,
    j: int,
)
    requires
        is_answering(q, r, id, answer, e, at, n),
        0 <= j < q.len(),
        q[j].link == id,
        q[j].pos == answer.0,
    ensures
        exists|k: int|
            {
                &&& 0 <= k <= j
                &&& (#[trigger] q[k]).link == id
                &&& q[k].pos == answer.0
                &&& forall|m: int| 0 <= m < k ==> (#[trigger] q[m]).link != id || q[m].pos
                    != answer.0
                &&& r == q.remove(k)
                &&& 0 <= at < n
                &&& e[at] == (Effect::Answer {
                    ticket: q[k].ticket,
                    pos: answer.0,
                    block: answer.1,
                })
            },
{
    let first = first_of(q, id, answer.0, j);
    assert(is_oldest(q, id, answer.0, first));
    assert(is_asked(q, id, answer.0));
    let k = choose|k: int| #[trigger]
        is_oldest(q, id, answer.0, k) && r == q.remove(k) && 0 <= at < n && e[at] == (
        Effect::Answer { ticket: q[k].ticket, pos: answer.0, block: answer.1 });
    assert(q[k].link == id);
    if j < k {
        assert(!(q[j].link == id && q[j].pos == answer.0));
    }
}

proof fn first_of(q: Seq<Question>, id: u32, pos: BlockPos, j: int) -> (k: int)
    requires
        0 <= j < q.len(),
        q[j].link == id,
        q[j].pos == pos,
    ensures
        is_oldest(q, id, pos, k),
    decreases j,
{
    if exists|i: int| 0 <= i < j && (#[trigger] q[i]).link == id && q[i].pos == pos {
        let i = choose|i: int| 0 <= i < j && (#[trigger] q[i]).link == id && q[i].pos == pos;
        first_of(q, id, pos, i)
    } else {
        j
    }
}

/// An answer that nobody asked for changes no question.
pub proof fn unasked_answers_are_passed_over(
    q: Seq<Question>,
    r: Seq<Question>,
    id: u32,
    answer: (BlockPos, u8),
    e: Seq<Effect>,
    at: int,
    n: nat,
)
    requires
        is_answering(q, r, id, answer, e, at, n),
        forall|j: int| 0 <= j < q.len() ==> (#[trigger] q[j]).link != id || q[j].pos != answer.0,
    ensures
        r == q,
{
    if is_asked(q, id, answer.0) {
        let k = choose|k: int| is_oldest(q, id, answer.0, k);
        assert(q[k].link == id);
    }
    if exists|k: int| #[trigger]
        is_oldest(q, id, answer.0, k) && r == q.remove(k) && 0 <= at < n && e[at] == (
        Effect::Answer { ticket: q[k].ticket, pos: answer.0, block: answer.1 }) {
        let k = choose|k: int| #[trigger] is_oldest(q, id, answer.0, k);
        assert(q[k].link == id);
    }
}

/// Questions that are declined are declined by their tickets, each once and in order.
pub proof fn declined_questions_are_told(e: Seq<Effect>, q: Seq<Question>, k: int)
    requires
        declines(e, q),
        0 <= k < q.len(),
    ensures
        e.len() == q.len(),
        e[k] matches Effect::Decline { ticket } && ticket == q[k].ticket,
{
    assert(e[k] == (Effect::Decline { ticket: q[k].ticket }));
}

/// Going back to the page's own server ends the link and sets the spawn; questions and
/// NPCs to ask for are kept.
pub proof fn falling_back_keeps_the_rest(c: ClientView, spawn: (u32, u32))
    ensures
        c.fallen_back(spawn).link is None,
        c.fallen_back(spawn).spawn == Some(spawn),
        c.fallen_back(spawn).questions == c.questions,
        c.fallen_back(spawn).pending_npcs == c.pending_npcs,
        c.fallen_back(spawn).reloading == c.reloading,
        c.fallen_back(spawn).next_link == c.next_link,
        c.fallen_back(spawn).link_id() == 0xFFFFFFFF,
        c.link matches Some(l) ==> c.link_id() == l.id,
{
}

} // verus!
