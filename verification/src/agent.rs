//! Agents: the players and the NPCs.
//!
//! Positions, angles and speeds are held by their bits: what moves an agent is
//! arithmetic on them, which happens outside. What stands here is the state, what
//! the state becomes on an event, and which blocks stop an agent.
use vstd::prelude::*;

use crate::coords::BlockPos;

verus! {

/// A point or a direction, each coordinate held by its bits.
#[derive(Clone, Copy, PartialEq, Eq, Structural, Debug)]
pub struct Vec3Bits {
    pub x: u32,
    pub y: u32,
    pub z: u32,
}

/// The bits of 0.7.
pub const DEFAULT_YAW: u32 = 0x3F333333;

/// The bits of -0.15.
pub const DEFAULT_PITCH: u32 = 0xBE19999A;

/// The bits of 20.
pub const FLY_BASE_SPEED: u32 = 0x41A00000;

/// The bits of 0.42.
pub const SPHERE_RADIUS: u32 = 0x3ED70A3D;

/// What an agent is.
#[derive(Clone, Copy, PartialEq, Eq, Structural, Debug)]
pub enum AgentKind {
    Player,
    Npc,
}

/// What a client is shown of an agent.
#[derive(Clone, Debug, PartialEq, Eq)]
pub struct AgentState {
    pub id: u32,
    pub is_player: bool,
    /// Display name; empty for an NPC.
    pub name: String,
    /// Position of the feet.
    pub pos: Vec3Bits,
    pub yaw: u32,
    pub pitch: u32,
    pub on_ground: bool,
    /// Whether fly mode is on.
    pub fly: bool,
    /// Speed in fly mode, in blocks per second.
    pub fly_speed: u32,
    /// Colour of the sphere.
    pub color: [u8; 3],
    /// Radius of the sphere.
    pub radius: u32,
    /// The block under the crosshair, where one is in reach.
    pub target: Option<BlockPos>,
}

/// What an [`AgentState`] says.
#[verifier::ext_equal]
pub struct AgentView {
    pub id: u32,
    pub is_player: bool,
    pub name: Seq<char>,
    pub pos: Vec3Bits,
    pub yaw: u32,
    pub pitch: u32,
    pub on_ground: bool,
    pub fly: bool,
    pub fly_speed: u32,
    pub color: Seq<u8>,
    pub radius: u32,
    pub target: Option<BlockPos>,
}

impl View for AgentState {
    type V = AgentView;

    open spec fn view(&self) -> AgentView {
        AgentView {
            id: self.id,
            is_player: self.is_player,
            name: self.name@,
            pos: self.pos,
            yaw: self.yaw,
            pitch: self.pitch,
            on_ground: self.on_ground,
            fly: self.fly,
            fly_speed: self.fly_speed,
            color: self.color@,
            radius: self.radius,
            target: self.target,
        }
    }
}

/// What is said of a player of whom nothing has arrived yet.
pub open spec fn unknown_player() -> AgentView {
    AgentView {
        id: 0,
        is_player: true,
        name: "Player"@,
        pos: Vec3Bits { x: 0, y: 0, z: 0 },
        yaw: DEFAULT_YAW,
        pitch: DEFAULT_PITCH,
        on_ground: false,
        fly: false,
        fly_speed: FLY_BASE_SPEED,
        color: seq![255, 255, 255],
        radius: SPHERE_RADIUS,
        target: None,
    }
}

impl Default for AgentState {
    /// The state of a player of which nothing has arrived yet.
    fn default() -> (s: AgentState)
        ensures
            s@ == unknown_player(),
    {
        let s = AgentState {
            id: 0,
            is_player: true,
            name: "Player".to_owned(),
            pos: Vec3Bits { x: 0, y: 0, z: 0 },
            yaw: DEFAULT_YAW,
            pitch: DEFAULT_PITCH,
            on_ground: false,
            fly: false,
            fly_speed: FLY_BASE_SPEED,
            color: [255, 255, 255],
            radius: SPHERE_RADIUS,
            target: None,
        };
        assert(s.color@ =~= seq![255u8, 255, 255]);
        s
    }
}

/// The colours of NPCs, by id.
pub open spec fn npc_color(id: u32) -> Seq<u8> {
    match id % 8 {
        0 => seq![214u8, 96, 96],
        1 => seq![96u8, 160, 214],
        2 => seq![214u8, 190, 96],
        3 => seq![150u8, 214, 96],
        4 => seq![190u8, 96, 214],
        5 => seq![96u8, 214, 200],
        6 => seq![214u8, 140, 90],
        _ => seq![140u8, 120, 210],
    }
}

/// The colour of an NPC.
pub fn npc_color_of(id: u32) -> (c: [u8; 3])
    ensures
        c@ == npc_color(id),
{
    let c: [u8; 3] = match id % 8 {
        0 => [214, 96, 96],
        1 => [96, 160, 214],
        2 => [214, 190, 96],
        3 => [150, 214, 96],
        4 => [190, 96, 214],
        5 => [96, 214, 200],
        6 => [214, 140, 90],
        _ => [140, 120, 210],
    };
    assert(c@ =~= npc_color(id));
    c
}

/// The state of the random numbers after the next one.
pub open spec fn shuffled(x: u64) -> u64 {
    let a = x ^ (x << 13u64);
    let b = a ^ (a >> 7u64);
    b ^ (b << 17u64)
}

/// The random number of a state: twenty-four bits.
pub open spec fn drawn(x: u64) -> u32 {
    (x >> 40u64) as u32
}

/// A random number below this sends an NPC to rest: the part of twenty-four bits
/// that is 0.22.
pub const REST_BELOW: u32 = 3690988;

/// What an NPC does next. Random numbers have twenty-four bits.
#[derive(Clone, Copy, PartialEq, Eq, Structural, Debug)]
pub enum Wander {
    /// It rests, for a time that the number decides.
    Rest { time: u32 },
    /// It walks, for a time and in a direction that the numbers decide.
    Walk { time: u32, direction: u32 },
}

/// What an NPC does next, and the state of its random numbers then.
pub open spec fn wandered(x: u64) -> (Wander, u64) {
    let a = shuffled(x);
    let time = drawn(a);
    if time < REST_BELOW {
        (Wander::Rest { time }, a)
    } else {
        let b = shuffled(a);
        (Wander::Walk { time, direction: drawn(b) }, b)
    }
}

/// A simulated agent.
#[derive(Clone, Debug)]
pub struct Agent {
    pub id: u32,
    pub kind: AgentKind,
    /// Display name; empty for an NPC.
    pub name: String,
    /// Position of the feet.
    pub pos: Vec3Bits,
    pub vel: Vec3Bits,
    pub yaw: u32,
    pub pitch: u32,
    pub on_ground: bool,
    /// Whether fly mode is on: no gravity and no collisions.
    pub fly: bool,
    pub fly_speed: u32,
    /// Where an NPC walks.
    pub npc_dir: u32,
    /// How long an NPC goes on as it does.
    pub npc_timer: u64,
    /// State of the random numbers.
    pub rng: u64,
    pub color: [u8; 3],
}

/// A velocity of nothing.
pub open spec fn at_rest() -> Vec3Bits {
    Vec3Bits { x: 0, y: 0, z: 0 }
}

impl Agent {
    /// What a client is shown of the agent.
    pub open spec fn shown(self) -> AgentView {
        AgentView {
            id: self.id,
            is_player: self.kind == AgentKind::Player,
            name: self.name@,
            pos: self.pos,
            yaw: self.yaw,
            pitch: self.pitch,
            on_ground: self.on_ground,
            fly: self.fly,
            fly_speed: self.fly_speed,
            color: self.color@,
            radius: SPHERE_RADIUS,
            target: None,
        }
    }

    /// A player who stands still.
    pub fn player(id: u32, pos: Vec3Bits, name: &str, color: [u8; 3]) -> (a: Agent)
        requires
            id * 0x1000000001B3 <= u64::MAX,
        ensures
            a.shown() == (AgentView {
                id,
                is_player: true,
                name: name@,
                pos,
                yaw: DEFAULT_YAW,
                pitch: DEFAULT_PITCH,
                on_ground: false,
                fly: false,
                fly_speed: FLY_BASE_SPEED,
                color: color@,
                radius: SPHERE_RADIUS,
                target: None,
            }),
            a.vel == at_rest(),
            a.npc_dir == 0,
            a.npc_timer == 0,
            a.rng == 0x9E3779B9u64 ^ ((id * 0x1000000001B3) as u64),
    {
        Agent {
            id,
            kind: AgentKind::Player,
            name: name.to_owned(),
            pos,
            vel: Vec3Bits { x: 0, y: 0, z: 0 },
            yaw: DEFAULT_YAW,
            pitch: DEFAULT_PITCH,
            on_ground: false,
            fly: false,
            fly_speed: FLY_BASE_SPEED,
            npc_dir: 0,
            npc_timer: 0,
            rng: 0x9E3779B9u64 ^ (id as u64 * 0x1000000001B3),
            color,
        }
    }

    /// An NPC that stands still, with where it will walk and when it will turn.
    pub fn npc(id: u32, pos: Vec3Bits, npc_dir: u32, npc_timer: u64) -> (a: Agent)
        ensures
            a.shown() == (AgentView {
                id,
                is_player: false,
                name: Seq::empty(),
                pos,
                yaw: 0,
                pitch: 0,
                on_ground: false,
                fly: false,
                fly_speed: FLY_BASE_SPEED,
                color: npc_color(id),
                radius: SPHERE_RADIUS,
                target: None,
            }),
            a.vel == at_rest(),
            a.npc_dir == npc_dir,
            a.npc_timer == npc_timer,
            a.rng == 0xC0FFEEu64 ^ ((id * 0x9E3779B9) as u64),
    {
        Agent {
            id,
            kind: AgentKind::Npc,
            name: String::new(),
            pos,
            vel: Vec3Bits { x: 0, y: 0, z: 0 },
            yaw: 0,
            pitch: 0,
            on_ground: false,
            fly: false,
            fly_speed: FLY_BASE_SPEED,
            npc_dir,
            npc_timer,
            rng: 0xC0FFEEu64 ^ (id as u64 * 0x9E3779B9),
            color: npc_color_of(id),
        }
    }

    /// The next random number: twenty-four bits.
    pub fn next_rand(&mut self) -> (r: u32)
        ensures
            final(self).rng == shuffled(old(self).rng),
            r == drawn(final(self).rng),
            r < 16777216,
            *final(self) == (Agent { rng: final(self).rng, ..*old(self) }),
    {
        let mut x: u64 = self.rng;
        x = x ^ (x << 13u64);
        x = x ^ (x >> 7u64);
        x = x ^ (x << 17u64);
        self.rng = x;
        assert(x >> 40u64 < 16777216) by (bit_vector);
        (x >> 40u64) as u32
    }

    /// What an NPC does next.
    pub fn wander(&mut self) -> (w: Wander)
        ensures
            (w, final(self).rng) == wandered(old(self).rng),
            *final(self) == (Agent { rng: final(self).rng, ..*old(self) }),
    {
        let time: u32 = self.next_rand();
        if time < REST_BELOW {
            return Wander::Rest { time };
        }
        let direction: u32 = self.next_rand();
        Wander::Walk { time, direction }
    }

    /// What a client is shown of the agent.
    pub fn state(&self) -> (s: AgentState)
        ensures
            s@ == self.shown(),
    {
        AgentState {
            id: self.id,
            is_player: matches!(self.kind, AgentKind::Player),
            name: self.name.clone(),
            pos: self.pos,
            yaw: self.yaw,
            pitch: self.pitch,
            on_ground: self.on_ground,
            fly: self.fly,
            fly_speed: self.fly_speed,
            color: self.color,
            radius: SPHERE_RADIUS,
            target: None,
        }
    }

    /// The agent with fly mode turned on or off.
    pub open spec fn toggled(self) -> Agent {
        Agent {
            fly: !self.fly,
            vel: at_rest(),
            on_ground: self.on_ground && self.fly,
            ..self
        }
    }

    /// The agent after something solid stopped it along an axis.
    pub open spec fn stopped(self, axis: u8, falling: bool) -> Agent {
        Agent {
            vel: Vec3Bits {
                x: if axis == 0 {
                    0
                } else {
                    self.vel.x
                },
                y: if axis == 1 {
                    0
                } else {
                    self.vel.y
                },
                z: if axis == 2 {
                    0
                } else {
                    self.vel.z
                },
            },
            on_ground: self.on_ground || (axis == 1 && falling),
            ..self
        }
    }

    /// Turns fly mode on or off. The agent stops.
    pub fn toggle_fly(&mut self)
        ensures
            *final(self) == old(self).toggled(),
            *final(self) == (Agent {
                fly: !old(self).fly,
                vel: at_rest(),
                on_ground: old(self).on_ground && old(self).fly,
                ..*old(self)
            }),
    {
        self.fly = !self.fly;
        self.vel = Vec3Bits { x: 0, y: 0, z: 0 };
        if self.fly {
            self.on_ground = false;
        }
    }

    /// Something solid stopped the agent along an axis: east, up, south. One that
    /// fell stands on it.
    pub fn struck(&mut self, axis: u8, falling: bool)
        ensures
            *final(self) == old(self).stopped(axis, falling),
            *final(self) == (Agent {
                vel: Vec3Bits {
                    x: if axis == 0 {
                        0
                    } else {
                        old(self).vel.x
                    },
                    y: if axis == 1 {
                        0
                    } else {
                        old(self).vel.y
                    },
                    z: if axis == 2 {
                        0
                    } else {
                        old(self).vel.z
                    },
                },
                on_ground: old(self).on_ground || (axis == 1 && falling),
                ..*old(self)
            }),
    {
        if axis == 1 && falling {
            self.on_ground = true;
        }
        if axis == 0 {
            self.vel.x = 0;
        }
        if axis == 1 {
            self.vel.y = 0;
        }
        if axis == 2 {
            self.vel.z = 0;
        }
    }
}

/// Random numbers never run dry: a state that is not zero is followed by one that
/// is not.
pub proof fn random_numbers_go_on(x: u64)
    requires
        x != 0,
    ensures
        shuffled(x) != 0,
{
    assert(({
        let a = x ^ (x << 13u64);
        let b = a ^ (a >> 7u64);
        b ^ (b << 17u64)
    }) != 0) by (bit_vector)
        requires
            x != 0,
    ;
}

/// Fly mode turned on and off again leaves an agent that stands still in the air.
pub proof fn flying_twice_is_landing(a: Agent, b: Agent, c: Agent)
    requires
        b == (Agent {
            fly: !a.fly,
            vel: at_rest(),
            on_ground: a.on_ground && a.fly,
            ..a
        }),
        c == (Agent {
            fly: !b.fly,
            vel: at_rest(),
            on_ground: b.on_ground && b.fly,
            ..b
        }),
    ensures
        c.fly == a.fly,
        c.pos == a.pos,
        c.vel == at_rest(),
        !c.on_ground,
{
}

/// The eight colours of NPCs go round, and no two of them are the same.
pub proof fn npcs_have_eight_colours(a: u32, b: u32)
    ensures
        npc_color(a) == npc_color(b) <==> a % 8 == b % 8,
        npc_color(a).len() == 3,
        npc_color(0) == seq![214u8, 96, 96],
{
    assert(npc_color(a)[0] == npc_color(a)[0] && npc_color(a)[1] == npc_color(a)[1]);
    assert(npc_color(b)[0] == npc_color(b)[0] && npc_color(b)[2] == npc_color(b)[2]);
    if npc_color(a) == npc_color(b) {
        assert(npc_color(a)[0] == npc_color(b)[0]);
        assert(npc_color(a)[1] == npc_color(b)[1]);
        assert(npc_color(a)[2] == npc_color(b)[2]);
    }
}

/// An NPC draws one number, by which it rests where that is among the lowest 22 of a
/// hundred, and else a second one for where to walk.
pub proof fn npcs_rest_now_and_then(x: u64)
    ensures
        wandered(x).0 is Rest <==> drawn(shuffled(x)) < 3690988,
        wandered(x).0 matches Wander::Rest { time } ==> time == drawn(shuffled(x)) && wandered(x).1
            == shuffled(x),
        wandered(x).0 matches Wander::Walk { time, direction } ==> time == drawn(shuffled(x))
            && direction == drawn(shuffled(shuffled(x))) && wandered(x).1 == shuffled(shuffled(x)),
{
}

/// An agent is shown as it is: where it is, where it looks, how it moves, and what it is
/// called. It aims at nothing by itself.
pub proof fn agents_are_shown_as_they_are(a: Agent)
    ensures
        a.shown().id == a.id,
        a.shown().is_player <==> a.kind is Player,
        a.shown().name == a.name@,
        a.shown().pos == a.pos,
        a.shown().yaw == a.yaw,
        a.shown().pitch == a.pitch,
        a.shown().on_ground == a.on_ground,
        a.shown().fly == a.fly,
        a.shown().fly_speed == a.fly_speed,
        a.shown().color == a.color@,
        a.shown().target is None,
{
}

/// Random numbers go on in a linear way from one to the next, and what is drawn of one is
/// its 24 highest bits.
pub proof fn random_numbers_are_linear(x: u64, y: u64)
    ensures
        shuffled(x ^ y) == shuffled(x) ^ shuffled(y),
        shuffled(1) == 0x40822041,
        drawn(x) == x / 1099511627776,
{
    assert(({
        let v = x ^ y;
        let a = v ^ (v << 13u64);
        let b = a ^ (a >> 7u64);
        b ^ (b << 17u64)
    }) == ({
        let a = x ^ (x << 13u64);
        let b = a ^ (a >> 7u64);
        b ^ (b << 17u64)
    }) ^ ({
        let a = y ^ (y << 13u64);
        let b = a ^ (a >> 7u64);
        b ^ (b << 17u64)
    })) by (bit_vector);
    assert(({
        let v = 1u64;
        let a = v ^ (v << 13u64);
        let b = a ^ (a >> 7u64);
        b ^ (b << 17u64)
    }) == 0x40822041u64) by (bit_vector);
    assert(x >> 40u64 == x / 1099511627776u64 && x >> 40u64 < 16777216) by (bit_vector);
}

/// Whoever takes off or lands stops where they are. Nobody who flies stands on the ground,
/// and who toggles twice flies or walks as before.
pub proof fn fliers_do_not_stand(a: Agent)
    ensures
        a.toggled().fly != a.fly,
        a.toggled().pos == a.pos && a.toggled().yaw == a.yaw && a.toggled().pitch == a.pitch,
        a.toggled().vel == (Vec3Bits { x: 0, y: 0, z: 0 }),
        a.toggled().fly ==> !a.toggled().on_ground,
        a.fly ==> a.toggled().on_ground == a.on_ground,
        a.toggled().toggled().fly == a.fly,
        a.toggled().rng == a.rng && a.toggled().id == a.id && a.toggled().fly_speed == a.fly_speed,
{
}

/// What is solid stops an agent along its own axis alone, and only a fall ends on the
/// ground.
pub proof fn walls_stop_one_axis(a: Agent, axis: u8, falling: bool)
    ensures
        a.stopped(axis, falling).vel.x == (if axis == 0 {
            0
        } else {
            a.vel.x
        }),
        a.stopped(axis, falling).vel.y == (if axis == 1 {
            0
        } else {
            a.vel.y
        }),
        a.stopped(axis, falling).vel.z == (if axis == 2 {
            0
        } else {
            a.vel.z
        }),
        a.stopped(axis, falling).on_ground <==> a.on_ground || (axis == 1 && falling),
        a.stopped(axis, falling).pos == a.pos && a.stopped(axis, falling).fly == a.fly,
        a.stopped(axis, falling).stopped(axis, falling) == a.stopped(axis, falling),
{
}

} // verus!
