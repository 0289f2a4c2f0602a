//! Game sessions: who is who, what a client's messages do, and when the world is
//! saved.
use std::collections::VecDeque;

use vstd::prelude::*;

use crate::agent::{AgentState, Vec3Bits};
use crate::block::{Block, PLACEABLE};
use crate::coords::{BlockPos, ChunkPos};
use crate::input::{Action, Input, KeySet};
use crate::protocol;
use crate::protocol::ClientMsg;
use crate::registry;
use crate::registry::{mint_token, same_token, NoEntropy, PlayerRegistry, NO_TOKEN};
use crate::save;
use crate::save::{Player, PlayerRecord, RecordView, SaveError, SaveView};
use crate::world;
use crate::world::{Edit, World};

verus! {

broadcast use vstd::std_specs::vecdeque::group_vec_dequeue_axioms;

// ---- The clock ---------------------------------------------------------------------

/// Calls `SystemTime::elapsed` on the epoch and hands out the whole seconds, or
/// nothing for a clock before the epoch. Nothing is claimed of the time.
#[verifier::external_body]
fn unix_clock() -> (t: Option<u64>) {
    std::time::UNIX_EPOCH.elapsed().ok().map(|d| d.as_secs())
}

/// A reading of the clock; one before the epoch counts as the epoch.
pub fn clock_reading(t: Option<u64>) -> (s: u64)
    ensures
        s == (match t {
            Some(s) => s,
            None => 0,
        }),
{
    match t {
        Some(s) => s,
        None => 0,
    }
}

/// Seconds since the epoch.
pub fn now_unix_secs() -> (s: u64) {
    clock_reading(unix_clock())
}

// ---- Identities ----------------------------------------------------------------------

/// What an agent's state leaves to remember, `now` being when its player left.
pub open spec fn record_view(s: crate::agent::AgentView, now: u64) -> RecordView {
    RecordView {
        pos: s.pos,
        yaw: s.yaw,
        pitch: s.pitch,
        name: s.name,
        color: s.color,
        last_seen: now,
    }
}

/// What an agent's state leaves to remember.
pub fn record_of(s: &AgentState, now: u64) -> (r: PlayerRecord)
    ensures
        r@ == record_view(s@, now),
{
    PlayerRecord {
        pos: s.pos,
        yaw: s.yaw,
        pitch: s.pitch,
        name: s.name.clone(),
        color: s.color,
        last_seen: now,
    }
}

/// How an identity was settled.
#[derive(Clone, Debug, PartialEq, Eq)]
pub enum Identity {
    /// Nothing was claimed.
    Fresh,
    /// The claimed player is here already.
    Denied,
    /// Nobody is remembered under the claimed token.
    Unknown,
    /// The claimed player is back.
    Restored(PlayerRecord),
}

/// How an identity was settled, as it is said.
pub enum IdentityView {
    Fresh,
    Denied,
    Unknown,
    Restored(RecordView),
}

impl View for Identity {
    type V = IdentityView;

    open spec fn view(&self) -> IdentityView {
        match *self {
            Identity::Fresh => IdentityView::Fresh,
            Identity::Denied => IdentityView::Denied,
            Identity::Unknown => IdentityView::Unknown,
            Identity::Restored(r) => IdentityView::Restored(r@),
        }
    }
}

/// So many random tokens are drawn in search of one that nobody has.
pub const TOKEN_TRIES: u8 = 8;

/// Who is remembered and who is here.
pub struct Roster {
    registry: PlayerRegistry,
    active: Vec<([u8; 16], u32)>,
    dirty: bool,
    held: bool,
}

/// What a roster says.
#[verifier::ext_equal]
pub struct RosterView {
    /// Those who are remembered.
    pub known: Map<Seq<u8>, RecordView>,
    /// Those who are here: token and player.
    pub active: Seq<(Seq<u8>, u32)>,
    /// Whether something is remembered that no save has, not even one that is being
    /// written.
    pub dirty: bool,
    /// Whether the save that is being written has something that the disk lacks.
    pub held: bool,
}

/// What each of a list of connections says.
pub open spec fn active_views(v: Seq<([u8; 16], u32)>) -> Seq<(Seq<u8>, u32)> {
    Seq::new(v.len(), |k: int| (v[k].0@, v[k].1))
}

/// Whether the player of a token is here.
pub open spec fn is_here(active: Seq<(Seq<u8>, u32)>, token: Seq<u8>) -> bool {
    exists|i: int| 0 <= i < active.len() && (#[trigger] active[i]).0 == token
}

/// Those who are here without the player of a token.
pub open spec fn without(active: Seq<(Seq<u8>, u32)>, token: Seq<u8>) -> Seq<(Seq<u8>, u32)>
    decreases active.len(),
{
    if active.len() == 0 {
        active
    } else if active.last().0 == token {
        without(active.drop_last(), token)
    } else {
        without(active.drop_last(), token).push(active.last())
    }
}

/// The token that a client claims. The token that stands for none is no claim.
pub open spec fn claim_of(shown: Option<[u8; 16]>) -> Option<Seq<u8>> {
    match shown {
        Some(t) => if registry::is_none_token(t@) {
            None
        } else {
            Some(t@)
        },
        None => None,
    }
}

impl RosterView {
    /// How a claim is settled.
    pub open spec fn settle(self, claim: Option<Seq<u8>>) -> IdentityView {
        match claim {
            None => IdentityView::Fresh,
            Some(t) => if is_here(self.active, t) {
                IdentityView::Denied
            } else if self.known.contains_key(t) {
                IdentityView::Restored(self.known[t])
            } else {
                IdentityView::Unknown
            },
        }
    }

    /// The token of a player who joins: the claimed one of a player who is back, a
    /// new one otherwise.
    pub open spec fn token_for(self, claim: Option<Seq<u8>>, minted: Seq<u8>) -> Seq<u8> {
        match self.settle(claim) {
            IdentityView::Restored(_) => claim->Some_0,
            _ => minted,
        }
    }

    /// Whether a token can be given to someone new, who claims one or none: it is not
    /// the claimed one, and nobody has it, neither someone here nor someone who is
    /// remembered.
    pub open spec fn unused(self, claim: Option<Seq<u8>>, t: Seq<u8>) -> bool {
        &&& Some(t) != claim
        &&& !is_here(self.active, t)
        &&& !self.known.contains_key(t)
    }

    /// Whether something is remembered that the disk lacks.
    pub open spec fn off_disk(self) -> bool {
        self.dirty || self.held
    }

    /// The roster once a save of it is begun: what the disk lacks is in that save.
    pub open spec fn handed_over(self) -> RosterView {
        RosterView { dirty: false, held: self.off_disk(), ..self }
    }

    /// The roster once that save is over: if the disk has it, what was in it is
    /// settled; if not, it waits for the next. What came since waits either way.
    pub open spec fn taken_back(self, on_disk: bool) -> RosterView {
        RosterView { dirty: self.dirty || (self.held && !on_disk), held: false, ..self }
    }
}

/// Whether a player's leaving turned one roster into another.
pub open spec fn has_left(
    before: RosterView,
    token: Seq<u8>,
    r: RecordView,
    after: RosterView,
) -> bool {
    &&& remembered(before.known, token, r, after.known)
    &&& after.active == without(before.active, token)
    &&& after.dirty
    &&& after.held == before.held
}

impl View for Roster {
    type V = RosterView;

    closed spec fn view(&self) -> RosterView {
        RosterView {
            known: self.registry@,
            active: active_views(self.active@),
            dirty: self.dirty,
            held: self.held,
        }
    }
}

/// Whether remembering a player turned one map into another: see
/// [`PlayerRegistry::upsert`].
pub open spec fn remembered(
    before: Map<Seq<u8>, RecordView>,
    token: Seq<u8>,
    r: RecordView,
    after: Map<Seq<u8>, RecordView>,
) -> bool {
    if before.contains_key(token) || before.dom().len() < registry::MAX_PLAYER_RECORDS {
        after == before.insert(token, r)
    } else {
        exists|t: Seq<u8>| #[trigger]
            registry::is_oldest(before, t) && after == before.remove(t).insert(token, r)
    }
}

/// Whether a list of maps is what remembering players one after the other makes.
pub open spec fn is_history(
    maps: Seq<Map<Seq<u8>, RecordView>>,
    players: Seq<(Seq<u8>, RecordView)>,
) -> bool {
    &&& maps.len() == players.len() + 1
    &&& forall|i: int|
        0 <= i < players.len() ==> remembered(
            maps[i],
            (#[trigger] players[i]).0,
            players[i].1,
            maps[i + 1],
        )
}

/// Whether remembering players one after the other turned one map into another.
pub open spec fn all_remembered(
    before: Map<Seq<u8>, RecordView>,
    players: Seq<(Seq<u8>, RecordView)>,
    after: Map<Seq<u8>, RecordView>,
) -> bool {
    exists|maps: Seq<Map<Seq<u8>, RecordView>>| #[trigger]
        is_history(maps, players) && maps[0] == before && maps.last() == after
}

impl Roster {
    /// Whether the registry is sound.
    pub closed spec fn wf(self) -> bool {
        self.registry.wf()
    }

    /// A roster of those whom a registry remembers, with nobody here.
    pub fn new(registry: PlayerRegistry) -> (r: Roster)
        requires
            registry.wf(),
        ensures
            r.wf(),
            r@ == (RosterView {
                known: registry@,
                active: Seq::empty(),
                dirty: false,
                held: false,
            }),
    {
        let r = Roster { registry, active: Vec::new(), dirty: false, held: false };
        assert(active_views(r.active@) =~= Seq::<(Seq<u8>, u32)>::empty());
        r
    }

    /// Whether the player of a token is here.
    fn here(&self, token: &[u8; 16]) -> (r: bool)
        ensures
            r == is_here(self@.active, token@),
    {
        let ghost a = active_views(self.active@);
        let mut i: usize = 0;
        while i < self.active.len()
            invariant
                i <= self.active@.len(),
                a == active_views(self.active@),
                forall|k: int| 0 <= k < i ==> (#[trigger] a[k]).0 != token@,
            decreases self.active@.len() - i,
        {
            if same_token(&self.active[i].0, token) {
                assert(a[i as int].0 == token@);
                return true;
            }
            i = i + 1;
        }
        false
    }

    /// Takes the player of a token off the list of those who are here.
    fn drop_active(&mut self, token: &[u8; 16])
        ensures
            final(self)@ == (RosterView { active: without(old(self)@.active, token@), ..old(self)@ }),
            final(self).registry == old(self).registry,
    {
        let ghost a = active_views(self.active@);
        let mut kept: Vec<([u8; 16], u32)> = Vec::new();
        let mut i: usize = 0;
        assert(active_views(kept@) =~= without(a.take(0), token@));
        while i < self.active.len()
            invariant
                i <= self.active@.len(),
                self.active@ == old(self).active@,
                self.registry == old(self).registry,
                self.dirty == old(self).dirty,
                self.held == old(self).held,
                a == active_views(self.active@),
                active_views(kept@) == without(a.take(i as int), token@),
            decreases self.active@.len() - i,
        {
            let e = self.active[i];
            let ghost before = active_views(kept@);
            proof {
                let next = a.take(i as int + 1);
                assert(next.drop_last() =~= a.take(i as int));
                assert(next.last() == (e.0@, e.1));
            }
            if !same_token(&e.0, token) {
                kept.push(e);
                assert(active_views(kept@) =~= before.push((e.0@, e.1)));
            }
            i = i + 1;
        }
        assert(a.take(i as int) =~= a);
        self.active = kept;
    }

    /// A player joins. A claimed identity is given where it is remembered and its
    /// player is not here; all others get the new token.
    pub fn join(&mut self, id: u32, shown: Option<[u8; 16]>, minted: [u8; 16]) -> (r: (
        [u8; 16],
        Identity,
    ))
        requires
            old(self).wf(),
        ensures
            final(self).wf(),
            r.0@ == old(self)@.token_for(claim_of(shown), minted@),
            r.1@ == old(self)@.settle(claim_of(shown)),
            final(self)@ == (RosterView {
                active: without(old(self)@.active, r.0@).push((r.0@, id)),
                ..old(self)@
            }),
    {
        let mut token = minted;
        let mut identity = Identity::Fresh;
        match shown {
            Some(t) => {
                assert(NO_TOKEN@ =~= Seq::new(16, |i: int| 0u8));
                if !same_token(&t, &NO_TOKEN) {
                    if self.here(&t) {
                        identity = Identity::Denied;
                    } else {
                        match self.registry.get(&t) {
                            Some(rec) => {
                                identity = Identity::Restored(rec.copied());
                                token = t;
                            },
                            None => {
                                identity = Identity::Unknown;
                            },
                        }
                    }
                }
            },
            None => {},
        }
        self.drop_active(&token);
        let ghost before = self@.active;
        self.active.push((token, id));
        assert(self@.active =~= before.push((token@, id)));
        (token, identity)
    }

    /// Whether a player who shows a token is back.
    fn is_back(&self, shown: Option<[u8; 16]>) -> (r: bool)
        requires
            self.wf(),
        ensures
            r == (self@.settle(claim_of(shown)) is Restored),
    {
        match shown {
            Some(t) => {
                assert(NO_TOKEN@ =~= Seq::new(16, |i: int| 0u8));
                !same_token(&t, &NO_TOKEN) && !self.here(&t) && self.registry.get(&t).is_some()
            },
            None => false,
        }
    }

    /// Whether a token can be given to someone new who shows one or none.
    pub fn is_unused(&self, shown: Option<[u8; 16]>, token: &[u8; 16]) -> (r: bool)
        requires
            self.wf(),
        ensures
            r == self@.unused(claim_of(shown), token@),
    {
        let claimed = match shown {
            Some(t) => {
                assert(NO_TOKEN@ =~= Seq::new(16, |i: int| 0u8));
                !same_token(&t, &NO_TOKEN) && same_token(&t, token)
            },
            None => false,
        };
        !claimed && !self.here(token) && self.registry.get(token).is_none()
    }

    /// A random token for someone new who shows one or none. One that is in use is
    /// not given out: another is drawn, a few times over.
    fn unused_token(&self, shown: Option<[u8; 16]>) -> (r: Result<[u8; 16], NoEntropy>)
        requires
            self.wf(),
        ensures
            r matches Ok(t) ==> !registry::is_none_token(t@) && self@.unused(
                claim_of(shown),
                t@,
            ),
    {
        let mut tries: u8 = 0;
        while tries < TOKEN_TRIES
            invariant
                self.wf(),
            decreases TOKEN_TRIES - tries,
        {
            match mint_token() {
                Ok(t) => {
                    if self.is_unused(shown, &t) {
                        return Ok(t);
                    }
                },
                Err(e) => {
                    return Err(e);
                },
            }
            tries = tries + 1;
        }
        Err(NoEntropy)
    }

    /// A player joins: see [`Roster::join`]. One who is back keeps their token, all
    /// others get a new random one, which nobody has. Nothing changes where there is
    /// none, and those who are here stay.
    pub fn join_random(&mut self, id: u32, shown: Option<[u8; 16]>) -> (r: Result<
        ([u8; 16], Identity),
        NoEntropy,
    >)
        requires
            old(self).wf(),
        ensures
            final(self).wf(),
            match r {
                Ok((token, identity)) => {
                    &&& !registry::is_none_token(token@)
                    &&& identity@ == old(self)@.settle(claim_of(shown))
                    &&& identity@ is Restored ==> Some(token@) == claim_of(shown)
                    &&& !(identity@ is Restored) ==> old(self)@.unused(claim_of(shown), token@)
                    &&& final(self)@ == (RosterView {
                        active: old(self)@.active.push((token@, id)),
                        ..old(self)@
                    })
                },
                Err(_) => {
                    &&& final(self)@ == old(self)@
                    &&& !(old(self)@.settle(claim_of(shown)) is Restored)
                },
            },
    {
        if self.is_back(shown) {
            proof {
                without_nobody(self@.active, claim_of(shown)->Some_0);
            }
            return Ok(self.join(id, shown, NO_TOKEN));
        }
        match self.unused_token(shown) {
            Ok(minted) => {
                proof {
                    without_nobody(self@.active, minted@);
                }
                Ok(self.join(id, shown, minted))
            },
            Err(e) => Err(e),
        }
    }

    /// A player leaves and is remembered.
    pub fn leave(&mut self, token: [u8; 16], record: PlayerRecord)
        requires
            old(self).wf(),
        ensures
            final(self).wf(),
            has_left(old(self)@, token@, record@, final(self)@),
    {
        self.registry.upsert(token, record);
        self.drop_active(&token);
        self.dirty = true;
    }

    /// Remembers players who are still here.
    pub fn remember(&mut self, players: Vec<Player>)
        requires
            old(self).wf(),
        ensures
            final(self).wf(),
            all_remembered(
                old(self)@.known,
                save::player_views(players@),
                final(self)@.known,
            ),
            final(self)@.active == old(self)@.active,
            final(self)@.dirty == old(self)@.dirty,
            final(self)@.held == old(self)@.held,
    {
        let ghost s = save::player_views(players@);
        let ghost mut maps: Seq<Map<Seq<u8>, RecordView>> = seq![self@.known];
        let mut i: usize = 0;
        while i < players.len()
            invariant
                i <= players@.len(),
                s == save::player_views(players@),
                self.wf(),
                is_history(maps, s.take(i as int)),
                maps[0] == old(self)@.known,
                maps.last() == self@.known,
                self@.active == old(self)@.active,
                self@.dirty == old(self)@.dirty,
                self@.held == old(self)@.held,
            decreases players@.len() - i,
        {
            let p = &players[i];
            self.registry.upsert(p.0, p.1.copied());
            proof {
                let before = maps;
                maps = maps.push(self@.known);
                let next = s.take(i as int + 1);
                assert forall|k: int| 0 <= k < next.len() implies remembered(
                    maps[k],
                    (#[trigger] next[k]).0,
                    next[k].1,
                    maps[k + 1],
                ) by {
                    if k < i {
                        assert(s.take(i as int)[k] == next[k]);
                        assert(maps[k] == before[k] && maps[k + 1] == before[k + 1]);
                    }
                }
            }
            i = i + 1;
        }
        assert(s.take(i as int) =~= s);
        assert(is_history(maps, s));
    }

    /// Those who are here, in the order in which they came.
    pub fn live(&self) -> (v: &[([u8; 16], u32)])
        ensures
            active_views(v@) == self@.active,
    {
        self.active.as_slice()
    }

    /// Everyone who is remembered, each once.
    pub fn snapshot(&self) -> (v: Vec<Player>)
        requires
            self.wf(),
        ensures
            registry::distinct(save::player_views(v@)),
            registry::collected(save::player_views(v@)) == self@.known,
            v@.len() <= registry::MAX_PLAYER_RECORDS,
    {
        self.registry.snapshot()
    }

    /// Whether something is remembered that the disk lacks.
    pub fn is_dirty(&self) -> (r: bool)
        ensures
            r == self@.off_disk(),
    {
        self.dirty || self.held
    }

    fn hand_over(&mut self)
        requires
            old(self).wf(),
        ensures
            final(self).wf(),
            final(self)@ == old(self)@.handed_over(),
    {
        self.held = self.dirty || self.held;
        self.dirty = false;
    }

    fn take_back(&mut self, on_disk: bool)
        requires
            old(self).wf(),
        ensures
            final(self).wf(),
            final(self)@ == old(self)@.taken_back(on_disk),
    {
        self.dirty = self.dirty || (self.held && !on_disk);
        self.held = false;
    }
}

// ---- Messages --------------------------------------------------------------------------

/// What a client asks for. Numbers that are not whole are held by their bits.
#[derive(Clone, Debug, PartialEq, Eq)]
pub enum Request {
    Input { keys: u32, dx: u32, dy: u32, analog_x: u32, analog_y: u32 },
    Action(Action),
    /// Chunks that the client has dropped.
    Evicted(Vec<ChunkPos>),
    SetNpcLoad { count: u32, spacing: u32 },
    Profile { name: String, color: [u8; 3] },
    /// The chunks that the client holds, after losses on the way.
    Resync(Vec<ChunkPos>),
    GetBlock { pos: BlockPos },
    SetBlock { pos: BlockPos, block: u8 },
    Teleport { pos: Vec3Bits },
    Rejoin { token: [u8; 16] },
}

/// An action off the wire, which does not say which block is placed: the first one
/// that can be.
pub open spec fn action_heard(a: protocol::Action) -> Action {
    match a {
        protocol::Action::Break { yaw, pitch } => Action::Break { yaw, pitch },
        protocol::Action::Place { yaw, pitch } => Action::Place {
            yaw,
            pitch,
            block: PLACEABLE@[0].id(),
        },
        protocol::Action::ToggleFly => Action::ToggleFly,
        protocol::Action::FlyFaster => Action::FlyFaster,
        protocol::Action::FlySlower => Action::FlySlower,
        protocol::Action::NpcLoad => Action::NpcLoad,
        protocol::Action::NpcClear => Action::NpcClear,
        protocol::Action::NpcCountUp => Action::NpcCountUp,
        protocol::Action::NpcCountDown => Action::NpcCountDown,
        protocol::Action::NpcSpacingUp => Action::NpcSpacingUp,
        protocol::Action::NpcSpacingDown => Action::NpcSpacingDown,
    }
}

fn action_from_wire(a: protocol::Action) -> (r: Action)
    ensures
        r == action_heard(a),
{
    match a {
        protocol::Action::Break { yaw, pitch } => Action::Break { yaw, pitch },
        protocol::Action::Place { yaw, pitch } => Action::Place {
            yaw,
            pitch,
            block: PLACEABLE[0].as_u8(),
        },
        protocol::Action::ToggleFly => Action::ToggleFly,
        protocol::Action::FlyFaster => Action::FlyFaster,
        protocol::Action::FlySlower => Action::FlySlower,
        protocol::Action::NpcLoad => Action::NpcLoad,
        protocol::Action::NpcClear => Action::NpcClear,
        protocol::Action::NpcCountUp => Action::NpcCountUp,
        protocol::Action::NpcCountDown => Action::NpcCountDown,
        protocol::Action::NpcSpacingUp => Action::NpcSpacingUp,
        protocol::Action::NpcSpacingDown => Action::NpcSpacingDown,
    }
}

/// An action as the wire carries it.
pub open spec fn action_told(a: Action) -> protocol::Action {
    match a {
        Action::Break { yaw, pitch } => protocol::Action::Break { yaw, pitch },
        Action::Place { yaw, pitch, block } => protocol::Action::Place { yaw, pitch },
        Action::ToggleFly => protocol::Action::ToggleFly,
        Action::FlyFaster => protocol::Action::FlyFaster,
        Action::FlySlower => protocol::Action::FlySlower,
        Action::NpcLoad => protocol::Action::NpcLoad,
        Action::NpcClear => protocol::Action::NpcClear,
        Action::NpcCountUp => protocol::Action::NpcCountUp,
        Action::NpcCountDown => protocol::Action::NpcCountDown,
        Action::NpcSpacingUp => protocol::Action::NpcSpacingUp,
        Action::NpcSpacingDown => protocol::Action::NpcSpacingDown,
    }
}

/// An action as the wire carries it.
pub fn action_for_wire(a: Action) -> (r: protocol::Action)
    ensures
        r == action_told(a),
{
    match a {
        Action::Break { yaw, pitch } => protocol::Action::Break { yaw, pitch },
        Action::Place { yaw, pitch, block: _ } => protocol::Action::Place { yaw, pitch },
        Action::ToggleFly => protocol::Action::ToggleFly,
        Action::FlyFaster => protocol::Action::FlyFaster,
        Action::FlySlower => protocol::Action::FlySlower,
        Action::NpcLoad => protocol::Action::NpcLoad,
        Action::NpcClear => protocol::Action::NpcClear,
        Action::NpcCountUp => protocol::Action::NpcCountUp,
        Action::NpcCountDown => protocol::Action::NpcCountDown,
        Action::NpcSpacingUp => protocol::Action::NpcSpacingUp,
        Action::NpcSpacingDown => protocol::Action::NpcSpacingDown,
    }
}

/// What a message asks for. The wire carries no touch stick.
pub open spec fn asked(m: ClientMsg) -> Request {
    match m {
        ClientMsg::Input { keys, dx, dy } => Request::Input {
            keys,
            dx,
            dy,
            analog_x: 0,
            analog_y: 0,
        },
        ClientMsg::Action(a) => Request::Action(action_heard(a)),
        ClientMsg::Evicted(v) => Request::Evicted(v),
        ClientMsg::SetNpcLoad { count, spacing } => Request::SetNpcLoad { count, spacing },
        ClientMsg::Profile { name, color } => Request::Profile { name, color },
    }
}

/// What a message asks for.
pub fn request_of(m: ClientMsg) -> (r: Request)
    ensures
        r == asked(m),
{
    match m {
        ClientMsg::Input { keys, dx, dy } => Request::Input {
            keys,
            dx,
            dy,
            analog_x: 0,
            analog_y: 0,
        },
        ClientMsg::Action(a) => Request::Action(action_from_wire(a)),
        ClientMsg::Evicted(v) => Request::Evicted(v),
        ClientMsg::SetNpcLoad { count, spacing } => Request::SetNpcLoad { count, spacing },
        ClientMsg::Profile { name, color } => Request::Profile { name, color },
    }
}

/// What is done about a request.
#[derive(Clone, Debug)]
pub enum Effect {
    SetInput(Input),
    PushAction(Action),
    /// The client's stream forgets chunks.
    Forget(Vec<ChunkPos>),
    SetNpcLoad { count: u32, spacing: u32 },
    SetProfile { name: String, color: [u8; 3] },
    /// The client's stream sends what is missing from these chunks.
    Resend(Vec<ChunkPos>),
    /// The client is told of a block.
    TellBlock { pos: BlockPos, block: u8 },
    Edit { pos: BlockPos, block: Block },
    Teleport { pos: Vec3Bits },
}

/// Whether effects are what a request asks for, in a world whose blocks are those
/// of `w`. A token shown in mid-session has no effect.
pub open spec fn answers(w: world::WorldView, m: Request, e: Seq<Effect>) -> bool {
    match m {
        Request::Input { keys, dx, dy, analog_x, analog_y } => {
            &&& e.len() == 1
            &&& e[0] matches Effect::SetInput(i) && i.keys.spec_bits() == keys && i.mouse_dx == dx
                && i.mouse_dy == dy && i.analog_x == analog_x && i.analog_y == analog_y
        },
        Request::Action(a) => e =~= seq![Effect::PushAction(a)],
        Request::Evicted(v) => e =~= seq![Effect::Forget(v)],
        Request::SetNpcLoad { count, spacing } => e =~= seq![
            Effect::SetNpcLoad { count, spacing },
            Effect::PushAction(Action::NpcLoad),
        ],
        Request::Profile { name, color } => e =~= seq![Effect::SetProfile { name, color }],
        Request::Resync(v) => e =~= seq![Effect::Resend(v)],
        Request::GetBlock { pos } => e =~= seq![
            Effect::TellBlock { pos, block: w.content(pos).id() },
        ],
        Request::SetBlock { pos, block } => e =~= seq![
            Effect::Edit { pos, block: Block::spec_from_u8(block) },
        ],
        Request::Teleport { pos } => e =~= seq![Effect::Teleport { pos }],
        Request::Rejoin { token } => e.len() == 0,
    }
}

/// What is done about a request. A block that is asked for is read from the world.
pub fn apply_inbound(w: &mut World, m: Request) -> (e: Vec<Effect>)
    requires
        old(w).wf(),
    ensures
        final(w).wf(),
        answers(old(w)@, m, e@),
        final(w)@ == (match m {
            Request::GetBlock { pos } => old(w)@.looked_at(pos),
            _ => old(w)@,
        }),
{
    let mut e: Vec<Effect> = Vec::new();
    match m {
        Request::Input { keys, dx, dy, analog_x, analog_y } => {
            e.push(
                Effect::SetInput(
                    Input {
                        keys: KeySet::from_bits(keys),
                        mouse_dx: dx,
                        mouse_dy: dy,
                        analog_x,
                        analog_y,
                    },
                ),
            );
        },
        Request::Action(a) => e.push(Effect::PushAction(a)),
        Request::Evicted(v) => e.push(Effect::Forget(v)),
        Request::SetNpcLoad { count, spacing } => {
            e.push(Effect::SetNpcLoad { count, spacing });
            e.push(Effect::PushAction(Action::NpcLoad));
        },
        Request::Profile { name, color } => e.push(Effect::SetProfile { name, color }),
        Request::Resync(v) => e.push(Effect::Resend(v)),
        Request::GetBlock { pos } => {
            let b = w.block_at(pos);
            e.push(Effect::TellBlock { pos, block: b.as_u8() });
        },
        Request::SetBlock { pos, block } => {
            e.push(Effect::Edit { pos, block: Block::from_u8(block) });
        },
        Request::Teleport { pos } => e.push(Effect::Teleport { pos }),
        Request::Rejoin { token: _ } => {},
    }
    e
}

// ---- Saving ------------------------------------------------------------------------------

/// A save is made at the latest this long after the last one, in milliseconds.
pub const SAVE_INTERVAL_MS: u64 = 5000;

/// A save is made at the latest after this many edits.
pub const SAVE_EVERY_EDITS: usize = 64;

/// When the world is saved.
#[derive(Clone, Copy, PartialEq, Eq, Structural, Debug)]
pub struct SaveSchedule {
    /// Edits that the save on disk has.
    pub disk_edits: usize,
    /// When a save was last begun, in milliseconds.
    pub last_try: u64,
    /// Edits that the save has which is being written.
    pub in_flight: Option<usize>,
}

impl SaveSchedule {
    /// Whether anything is not on disk.
    pub open spec fn unsaved(self, edits: int, roster: RosterView) -> bool {
        edits > self.disk_edits || roster.off_disk()
    }

    /// Whether a save is to be made.
    pub open spec fn spec_due(self, edits: int, roster: RosterView, now: int) -> bool {
        &&& self.in_flight is None
        &&& self.unsaved(edits, roster)
        &&& edits - self.disk_edits >= SAVE_EVERY_EDITS || now - self.last_try >= SAVE_INTERVAL_MS
    }

    /// The schedule once a save of so many edits is begun.
    pub open spec fn begun(self, edits: usize, now: u64) -> SaveSchedule {
        SaveSchedule { in_flight: Some(edits), last_try: now, ..self }
    }

    /// Whether a save that was begun is on disk.
    pub open spec fn lands(self, written: bool) -> bool {
        written && self.in_flight is Some
    }

    /// The schedule once that save is written, or has failed.
    pub open spec fn finished(self, written: bool) -> SaveSchedule {
        SaveSchedule {
            in_flight: None,
            disk_edits: if self.lands(written) {
                self.in_flight->Some_0
            } else {
                self.disk_edits
            },
            ..self
        }
    }

    /// Whether a last save is to be made when the server stops: something is not on
    /// disk, or someone is here, whose state is not.
    pub open spec fn last_save_needed(self, edits: int, roster: RosterView) -> bool {
        self.unsaved(edits, roster) || roster.active.len() > 0
    }

    /// A schedule for a world whose edits are all on disk.
    pub fn new(edits: usize, now: u64) -> (s: SaveSchedule)
        ensures
            s == (SaveSchedule { disk_edits: edits, last_try: now, in_flight: None }),
    {
        SaveSchedule { disk_edits: edits, last_try: now, in_flight: None }
    }

    /// Whether a save is to be made.
    pub fn due(&self, edits: usize, roster: &Roster, now: u64) -> (r: bool)
        ensures
            r == self.spec_due(edits as int, roster@, now as int),
    {
        let fresh: usize = edits.saturating_sub(self.disk_edits);
        let waited: u64 = now.saturating_sub(self.last_try);
        self.in_flight.is_none() && (edits > self.disk_edits || roster.is_dirty()) && (fresh
            >= SAVE_EVERY_EDITS || waited >= SAVE_INTERVAL_MS)
    }

    /// A save of so many edits and of all who are remembered is begun.
    pub fn begin(&mut self, roster: &mut Roster, edits: usize, now: u64)
        requires
            old(roster).wf(),
        ensures
            final(roster).wf(),
            *final(self) == old(self).begun(edits, now),
            final(roster)@ == old(roster)@.handed_over(),
    {
        self.in_flight = Some(edits);
        self.last_try = now;
        roster.hand_over();
    }

    /// The save that was begun is written, or has failed. Returns whether the disk
    /// has it now.
    pub fn finish(&mut self, roster: &mut Roster, written: bool) -> (r: bool)
        requires
            old(roster).wf(),
        ensures
            final(roster).wf(),
            r == old(self).lands(written),
            *final(self) == old(self).finished(written),
            final(roster)@ == old(roster)@.taken_back(r),
    {
        let done = match self.in_flight {
            Some(n) => {
                if written {
                    self.disk_edits = n;
                }
                written
            },
            None => false,
        };
        self.in_flight = None;
        roster.take_back(done);
        done
    }

    /// Whether a last save is to be made when the server stops.
    pub fn needed_at_stop(&self, edits: usize, roster: &Roster) -> (r: bool)
        ensures
            r == self.last_save_needed(edits as int, roster@),
    {
        edits > self.disk_edits || roster.is_dirty() || roster.live().len() > 0
    }
}

/// Whether a save has a world and all who are remembered: each edited block once, as
/// it is now, and each player once.
pub open spec fn covers(
    s: SaveView,
    seed: u64,
    edits: Seq<Edit>,
    known: Map<Seq<u8>, RecordView>,
) -> bool {
    &&& s.seed == seed
    &&& s.edits.len() <= u64::MAX
    &&& world::one_per_block(s.edits)
    &&& forall|i: int| 0 <= i < s.edits.len() ==> (#[trigger] s.edits[i]).pos.spec_in_world_y()
    &&& world::same_outcome(s.edits, edits)
    &&& s.players.len() <= registry::MAX_PLAYER_RECORDS
    &&& registry::distinct(s.players)
    &&& registry::collected(s.players) == known
}

/// Whether bytes are a save of a world and of all who are remembered.
pub open spec fn is_save_of(
    bytes: Seq<u8>,
    seed: u64,
    edits: Seq<Edit>,
    known: Map<Seq<u8>, RecordView>,
) -> bool {
    exists|s: SaveView| #[trigger] covers(s, seed, edits, known) && s.bytes() == bytes
}

/// The bytes of a save of a world and of all who are remembered.
pub fn snapshot(seed: u64, w: &World, roster: &Roster) -> (bytes: Vec<u8>)
    requires
        w.wf(),
        roster.wf(),
    ensures
        is_save_of(bytes@, seed, w@.edits, roster@.known),
{
    let edits = w.overrides();
    let players = roster.snapshot();
    let ghost s = SaveView { seed, edits: edits@, players: save::player_views(players@) };
    let bytes = save::encode(seed, edits.as_slice(), players.as_slice());
    assert(covers(s, seed, w@.edits, roster@.known));
    bytes
}

/// Why a save cannot be loaded.
#[derive(Clone, Copy, PartialEq, Eq, Structural, Debug)]
pub enum LoadError {
    /// The file is not a save.
    Corrupt(SaveError),
    /// The save is of a world with another seed.
    OtherSeed { saved: u64 },
}

/// What a save file gives a server of a seed: the overridden blocks and the players.
/// No file is a world without any.
pub open spec fn loaded(file: Option<Seq<u8>>, seed: u64) -> Result<
    (Option<Seq<Edit>>, Seq<(Seq<u8>, RecordView)>),
    LoadError,
> {
    match file {
        None => Ok((None, Seq::empty())),
        Some(bytes) => match save::save_of(bytes) {
            Err(e) => Err(LoadError::Corrupt(e)),
            Ok(s) => if s.seed != seed {
                Err(LoadError::OtherSeed { saved: s.seed })
            } else {
                Ok((Some(s.edits), s.players))
            },
        },
    }
}

/// What a save file gives a server of a seed.
pub fn load_save(file: Option<Vec<u8>>, seed: u64) -> (r: Result<
    (Option<Vec<Edit>>, Vec<Player>),
    LoadError,
>)
    ensures
        ({
            let bytes = match file {
                Some(b) => Some(b@),
                None => None,
            };
            match r {
                Ok((edits, players)) => loaded(bytes, seed) == Ok::<
                    (Option<Seq<Edit>>, Seq<(Seq<u8>, RecordView)>),
                    LoadError,
                >(
                    (
                        match edits {
                            Some(v) => Some(v@),
                            None => None,
                        },
                        save::player_views(players@),
                    ),
                ),
                Err(e) => loaded(bytes, seed) == Err::<
                    (Option<Seq<Edit>>, Seq<(Seq<u8>, RecordView)>),
                    LoadError,
                >(e),
            }
        }),
{
    match file {
        None => {
            let players: Vec<Player> = Vec::new();
            assert(save::player_views(players@) =~= Seq::<(Seq<u8>, RecordView)>::empty());
            Ok((None, players))
        },
        Some(bytes) => match save::decode(bytes.as_slice()) {
            Err(e) => Err(LoadError::Corrupt(e)),
            Ok((saved, edits, players)) => {
                if saved != seed {
                    Err(LoadError::OtherSeed { saved })
                } else {
                    Ok((Some(edits), players))
                }
            },
        },
    }
}

// ---- Events ------------------------------------------------------------------------------

/// The log holds no more events than this.
pub const EVENT_LOG_SIZE: usize = 256;

/// What happened lately: when, by the bits of the seconds since the start, and what.
pub struct EventLog {
    events: VecDeque<(u64, String)>,
}

/// What each of a list of events says.
pub open spec fn event_views(v: Seq<(u64, String)>) -> Seq<(u64, Seq<char>)> {
    Seq::new(v.len(), |k: int| (v[k].0, v[k].1@))
}

impl View for EventLog {
    type V = Seq<(u64, Seq<char>)>;

    closed spec fn view(&self) -> Seq<(u64, Seq<char>)> {
        event_views(self.events@)
    }
}

impl EventLog {
    /// Whether the log is not too long.
    pub closed spec fn wf(self) -> bool {
        self.events@.len() <= EVENT_LOG_SIZE
    }

    /// An empty log.
    pub fn new() -> (l: EventLog)
        ensures
            l.wf(),
            l@ == Seq::<(u64, Seq<char>)>::empty(),
    {
        let l = EventLog { events: VecDeque::new() };
        assert(l@ =~= Seq::<(u64, Seq<char>)>::empty());
        l
    }

    /// Logs an event. A full log drops its oldest one.
    pub fn push(&mut self, t: u64, msg: String)
        requires
            old(self).wf(),
        ensures
            final(self).wf(),
            final(self)@ == (if old(self)@.len() >= EVENT_LOG_SIZE {
                old(self)@.skip(1).push((t, msg@))
            } else {
                old(self)@.push((t, msg@))
            }),
            final(self)@.len() <= 256,
            final(self)@.last() == (t, msg@),
            old(self)@.len() < 256 ==> final(self)@.len() == old(self)@.len() + 1,
    {
        let ghost before = self@;
        if self.events.len() >= EVENT_LOG_SIZE {
            let _ = self.events.pop_front();
            assert(self@ =~= before.skip(1));
        }
        let ghost mid = self@;
        let ghost e = (t, msg@);
        self.events.push_back((t, msg));
        assert(self@ =~= mid.push(e));
    }

    /// The events, oldest first.
    pub fn snapshot(&self) -> (v: Vec<(u64, String)>)
        ensures
            event_views(v@) == self@,
    {
        let mut v: Vec<(u64, String)> = Vec::new();
        let mut i: usize = 0;
        while i < self.events.len()
            invariant
                i <= self.events@.len(),
                v@.len() == i,
                forall|k: int|
                    0 <= k < i ==> (#[trigger] v@[k]).0 == self.events@[k].0 && v@[k].1@
                        == self.events@[k].1@,
            decreases self.events@.len() - i,
        {
            let e = &self.events[i];
            v.push((e.0, e.1.clone()));
            i = i + 1;
        }
        assert(event_views(v@) =~= self@);
        v
    }
}

// ---- Laws --------------------------------------------------------------------------------

proof fn without_has_no_token(active: Seq<(Seq<u8>, u32)>, token: Seq<u8>, t: Seq<u8>)
    ensures
        is_here(without(active, token), t) == (t != token && is_here(active, t)),
    decreases active.len(),
{
    if active.len() > 0 {
        let init = active.drop_last();
        let kept = without(init, token);
        without_has_no_token(init, token, t);
        if is_here(init, t) {
            let i = choose|i: int| 0 <= i < init.len() && (#[trigger] init[i]).0 == t;
            assert(active[i].0 == t);
        }
        if is_here(active, t) && active.last().0 != t {
            let i = choose|i: int| 0 <= i < active.len() && (#[trigger] active[i]).0 == t;
            assert(init[i].0 == t);
        }
        if active.last().0 == t {
            assert(active[active.len() - 1].0 == t);
        }
        if active.last().0 != token {
            let all = kept.push(active.last());
            if is_here(kept, t) {
                let i = choose|i: int| 0 <= i < kept.len() && (#[trigger] kept[i]).0 == t;
                assert(all[i].0 == t);
            }
            if active.last().0 == t {
                assert(all[kept.len() as int].0 == t);
            }
            if is_here(all, t) && active.last().0 != t {
                let i = choose|i: int| 0 <= i < all.len() && (#[trigger] all[i]).0 == t;
                assert(kept[i].0 == t);
            }
        }
    }
}

/// A player who left is restored as they were when they come back, unless they were
/// forgotten in the meantime.
pub proof fn leavers_come_back(before: RosterView, after: RosterView, token: Seq<u8>, r: RecordView)
    requires
        has_left(before, token, r, after),
    ensures
        after.settle(Some(token)) == IdentityView::Restored(r),
{
    without_has_no_token(before.active, token, token);
}

proof fn without_nobody(active: Seq<(Seq<u8>, u32)>, token: Seq<u8>)
    requires
        !is_here(active, token),
    ensures
        without(active, token) == active,
    decreases active.len(),
{
    if active.len() > 0 {
        let init = active.drop_last();
        assert forall|i: int| 0 <= i < init.len() implies (#[trigger] init[i]).0 != token by {
            assert(init[i] == active[i]);
        }
        without_nobody(init, token);
        assert(active[active.len() - 1].0 != token);
        assert(init.push(active.last()) =~= active);
    }
}

/// Nobody takes the place of a player who is here: a second claim of their token
/// gets another one, and with one that is unused all who are here stay, each under
/// their token.
pub proof fn players_are_not_hijacked(w: RosterView, token: Seq<u8>, minted: Seq<u8>)
    requires
        is_here(w.active, token),
    ensures
        w.settle(Some(token)) == IdentityView::Denied,
        w.token_for(Some(token), minted) == minted,
        w.unused(Some(token), minted) ==> minted != token && without(w.active, minted)
            == w.active,
{
    if w.unused(Some(token), minted) {
        without_nobody(w.active, minted);
    }
}

/// A token that is not remembered gives nothing: it comes from another world, or it
/// was forgotten.
pub proof fn unknown_tokens_are_fresh(w: RosterView, token: Seq<u8>, minted: Seq<u8>)
    requires
        !w.known.contains_key(token),
    ensures
        !(w.settle(Some(token)) is Restored),
        w.token_for(Some(token), minted) == minted,
{
}

/// While no save is due and none is being written, little can be lost: fewer edits
/// than make a save due, none of them old.
pub proof fn little_is_ever_unsaved(s: SaveSchedule, edits: int, roster: RosterView, now: int)
    requires
        s.in_flight is None,
        s.unsaved(edits, roster),
        !s.spec_due(edits, roster, now),
    ensures
        edits - s.disk_edits < SAVE_EVERY_EDITS,
        now - s.last_try < SAVE_INTERVAL_MS,
{
}

/// After a save was written, nothing is due until something happens, and a server
/// with nobody on it stops without another save.
pub proof fn saved_worlds_rest(
    s: SaveSchedule,
    roster: RosterView,
    edits: usize,
    then: u64,
    now: int,
)
    ensures
        ({
            let after = s.begun(edits, then).finished(true);
            let settled = roster.handed_over().taken_back(true);
            &&& !after.spec_due(edits as int, settled, now)
            &&& roster.active.len() == 0 ==> !after.last_save_needed(edits as int, settled)
        }),
{
}

/// Who leaves while a save is being written is not forgotten by it: whether that save
/// is written or fails, a last save is needed.
pub proof fn late_leavers_are_saved(
    s: SaveSchedule,
    roster: RosterView,
    edits: usize,
    now: u64,
    token: Seq<u8>,
    r: RecordView,
    left: RosterView,
    written: bool,
    later: int,
)
    requires
        has_left(roster.handed_over(), token, r, left),
    ensures
        ({
            let under_way = s.begun(edits, now);
            under_way.finished(written).last_save_needed(
                later,
                left.taken_back(under_way.lands(written)),
            )
        }),
{
}

/// A save that fails loses nothing: what was not on disk before it is not on disk
/// after it, and is saved with the next.
pub proof fn failed_saves_lose_nothing(
    s: SaveSchedule,
    roster: RosterView,
    edits: usize,
    now: u64,
    later: int,
)
    ensures
        s.begun(edits, now).finished(false).disk_edits == s.disk_edits,
        roster.handed_over().taken_back(false).off_disk() == roster.off_disk(),
        s.begun(edits, now).finished(false).last_save_needed(
            later,
            roster.handed_over().taken_back(false),
        ) == s.last_save_needed(later, roster),
{
}

/// A save that is still being written counts for nothing when the server stops.
pub proof fn unfinished_saves_do_not_count(
    s: SaveSchedule,
    roster: RosterView,
    edits: usize,
    now: u64,
    later: int,
)
    ensures
        s.begun(edits, now).last_save_needed(later, roster.handed_over()) == s.last_save_needed(
            later,
            roster,
        ),
{
}

/// A server that starts from the save of another has its world and knows its
/// players, if all that is remembered of them can be saved.
pub proof fn saves_survive_a_restart(
    bytes: Seq<u8>,
    seed: u64,
    edits: Seq<Edit>,
    known: Map<Seq<u8>, RecordView>,
)
    requires
        is_save_of(bytes, seed, edits, known),
        forall|t: Seq<u8>| #[trigger] known.contains_key(t) ==> save::sound(t, known[t]),
    ensures
        loaded(Some(bytes), seed) is Ok,
        (loaded(Some(bytes), seed)->Ok_0).0 is Some,
        world::same_outcome((loaded(Some(bytes), seed)->Ok_0).0->Some_0, edits),
        registry::collected(registry::newest((loaded(Some(bytes), seed)->Ok_0).1)) == known,
{
    let s = choose|s: SaveView| #[trigger]
        covers(s, seed, edits, known) && s.bytes() == bytes;
    assert forall|i: int| 0 <= i < s.players.len() implies save::sound(
        (#[trigger] s.players[i]).0,
        s.players[i].1,
    ) by {
        registry::collected_value(s.players, i);
        assert(known.contains_key(s.players[i].0));
    }
    save::saves_read_back(s);
    registry::registries_survive_a_save(s.players, s.players);
}

/// A save of another world is never loaded.
pub proof fn saves_stay_with_their_world(bytes: Seq<u8>, seed: u64)
    requires
        save::save_of(bytes) is Ok,
    ensures
        loaded(Some(bytes), seed) is Ok <==> (save::save_of(bytes)->Ok_0).seed == seed,
{
}

/// An action that a client sends is the one that the server hears, but for the block
/// of a placement, which the wire does not carry.
pub proof fn actions_survive_the_wire(a: Action)
    ensures
        match a {
            Action::Place { yaw, pitch, block } => action_heard(action_told(a)) == (Action::Place {
                yaw,
                pitch,
                block: PLACEABLE@[0].id(),
            }),
            _ => action_heard(action_told(a)) == a,
        },
{
}

} // verus!
