//! What the page does with what comes in: keys and buttons, frames, the messages of a
//! server, and the players that it shows.
use vstd::prelude::*;

use crate::agent;
use crate::agent::AgentState;
use crate::block::Block;
use crate::chunk_set;
use crate::controls;
use crate::controls::{ControlsView, TouchButton};
use crate::coords::ChunkPos;
use crate::frame::{FrameClock, Walk};
use crate::input;
use crate::input::{Action, Key};
use crate::link;
use crate::link::{LinkView, Question};
use crate::protocol::ServerMsg;
use crate::server_laws;
use crate::session::Request;
use crate::sphere;
use crate::stats;
use crate::stats::ServerStats;
use crate::tags;
use crate::text;
use crate::text_laws;
use crate::tick;
use crate::tick::NpcEcho;
use crate::url;
use crate::world::WorldUpdate;

verus! {

// ---- Keys --------------------------------------------------------------------------------

/// The keys for walking are held, and do nothing at once. Each other key does one thing.
/// Those that switch something do it once, however long they are pressed; those that step
/// something go on.
pub proof fn keys_do_one_thing(k: Key, repeat: bool)
    ensures
        match k {
            Key::W | Key::A | Key::S | Key::D | Key::Space | Key::ShiftLeft
            | Key::Key0 => controls::action_of(k, repeat) is None,
            Key::F => controls::action_of(k, repeat) == (if repeat {
                None
            } else {
                Some(Action::ToggleFly)
            }),
            Key::KeyN => controls::action_of(k, repeat) == (if repeat {
                None
            } else {
                Some(Action::NpcLoad)
            }),
            Key::KeyC => controls::action_of(k, repeat) == (if repeat {
                None
            } else {
                Some(Action::NpcClear)
            }),
            Key::E => controls::action_of(k, repeat) == Some(Action::FlyFaster),
            Key::Q => controls::action_of(k, repeat) == Some(Action::FlySlower),
            Key::KeyI => controls::action_of(k, repeat) == Some(Action::NpcCountUp),
            Key::KeyU => controls::action_of(k, repeat) == Some(Action::NpcCountDown),
            Key::BracketLeft => controls::action_of(k, repeat) == Some(Action::NpcSpacingDown),
            Key::BracketRight => controls::action_of(k, repeat) == Some(Action::NpcSpacingUp),
        },
{
}

/// Each key has its place in a mask, in the order in which masks are sent.
pub proof fn keys_have_their_places(k: Key)
    ensures
        k.place() == match k {
            Key::W => 0u32,
            Key::A => 1,
            Key::S => 2,
            Key::D => 3,
            Key::Space => 4,
            Key::ShiftLeft => 5,
            Key::Key0 => 6,
            Key::F => 7,
            Key::E => 8,
            Key::Q => 9,
            Key::KeyN => 10,
            Key::KeyC => 11,
            Key::KeyI => 12,
            Key::KeyU => 13,
            Key::BracketLeft => 14,
            Key::BracketRight => 15,
        },
{
}

proof fn one_bit_changes(m: u32, a: u32, b: u32)
    requires
        a < 32,
        b < 32,
    ensures
        input::bit_set(m | (1u32 << a), b) <==> a == b || input::bit_set(m, b),
        input::bit_set(m & !(1u32 << a), b) <==> a != b && input::bit_set(m, b),
{
    assert((m | (1u32 << a)) & (1u32 << b) != 0 <==> a == b || m & (1u32 << b) != 0)
        by (bit_vector)
        requires
            a < 32,
            b < 32,
    ;
    assert((m & !(1u32 << a)) & (1u32 << b) != 0 <==> a != b && m & (1u32 << b) != 0)
        by (bit_vector)
        requires
            a < 32,
            b < 32,
    ;
}

/// A key that is pressed is held until it is let go, and no other key is touched by that.
pub proof fn keys_are_held_one_by_one(c: ControlsView, k: Key, j: Key)
    ensures
        input::bit_set(c.with_key(k).keys, j.place()) <==> j == k || input::bit_set(
            c.keys,
            j.place(),
        ),
        input::bit_set(c.without_key(k).keys, j.place()) <==> j != k && input::bit_set(
            c.keys,
            j.place(),
        ),
        c.with_key(k).actions == c.actions,
        c.without_key(k).actions == c.actions,
        c.with_key(k).slot == c.slot,
        c.without_key(k).slot == c.slot,
{
    keys_have_their_places(k);
    keys_have_their_places(j);
    one_bit_changes(c.keys, k.place(), j.place());
}

/// A key by its code either does its one thing or is held. Nothing else changes, and the
/// page takes the key for itself exactly where it knows it.
pub proof fn presses_do_what_their_key_does(c: ControlsView, code: Seq<char>, repeat: bool, k: Key)
    requires
        controls::key_of(code) == Some(k),
        repeat || controls::slot_of(code) is None,
    ensures
        ({
            let d = c.pressed(code, repeat, false).0;
            &&& c.pressed(code, repeat, false).1
            &&& d.slot == c.slot && d.playing == c.playing && d.aim == c.aim && d.stick == c.stick
            &&& controls::action_of(k, repeat) matches Some(a) ==> d.actions == c.actions.push(a)
                && d.keys == c.keys
            &&& controls::action_of(k, repeat) is None ==> d.actions == c.actions
                && input::bit_set(d.keys, k.place())
        }),
{
    keys_are_held_one_by_one(c, k, k);
}

/// The digits from one to nine select the slots in order, and nothing else does.
pub proof fn digits_select_slots(c: ControlsView, d: char)
    requires
        '1' <= d <= '9',
    ensures
        controls::slot_of("Digit"@.push(d)) == Some(d as int - 49),
        c.pressed("Digit"@.push(d), false, false).0.slot == d as int - 49,
        c.pressed("Digit"@.push(d), false, false).0.keys == c.keys,
        c.pressed("Digit"@.push(d), false, false).0.actions == c.actions,
        c.pressed("Digit"@.push(d), true, false) == (c, false),
        forall|code: Seq<char>| #[trigger]
            controls::slot_of(code) is Some ==> text::begins(code, "Digit"@) && 0
                <= controls::slot_of(code)->Some_0 <= 8,
{
    reveal_strlit("Digit");
    let code = "Digit"@.push(d);
    assert(code.take(5) =~= "Digit"@);
    let s = code.subrange(5, 6);
    assert(s =~= seq![d]);
    assert(s.drop_last() =~= Seq::<char>::empty());
    assert(server_laws::value_of(s.drop_last()) == 0);
    assert(server_laws::value_of(s) == d as int - 48);
    server_laws::digits_are_numbers(s, usize::MAX as int);
    text_laws::keys_have_their_codes(code);
    text_laws::codes_differ();
    reveal_strlit("Digit0");
    assert(code.len() == 6);
    assert(code[5] == d && "Digit0"@[5] == '0');
    assert(controls::key_of(code) is None) by {
        if controls::key_of(code) is Some {
            match controls::key_of(code)->Some_0 {
                Key::Key0 => {
                    assert(code[5] == '0');
                },
                _ => {},
            }
        }
    }
}

/// A click breaks or places at the aim of the moment, and what is placed is the block of
/// the selected slot. Nothing else changes.
pub proof fn clicks_use_the_aim(c: ControlsView)
    requires
        0 <= c.slot <= 8,
    ensures
        c.breaking().actions == c.actions.push(Action::Break { yaw: c.aim.0, pitch: c.aim.1 }),
        c.breaking() == (ControlsView { actions: c.breaking().actions, ..c }),
        c.placing() == (ControlsView { actions: c.placing().actions, ..c }),
        c.placing().actions.len() == c.actions.len() + 1,
        c.placing().actions.drop_last() == c.actions,
        c.placing().actions.last() matches Action::Place { yaw, pitch, block } && yaw == c.aim.0
            && pitch == c.aim.1 && block == (if c.slot == 0 {
            1u8
        } else if c.slot == 1 {
            2u8
        } else if c.slot == 2 {
            3u8
        } else if c.slot == 3 {
            4u8
        } else if c.slot == 4 {
            6u8
        } else if c.slot == 5 {
            7u8
        } else if c.slot == 6 {
            8u8
        } else if c.slot == 7 {
            11u8
        } else {
            12u8
        }),
{
    assert(c.placing().actions.drop_last() =~= c.actions);
}

/// The wheel goes to the next slot or to the one before, round nine of them.
pub proof fn the_wheel_goes_round_nine_slots(c: ControlsView)
    requires
        0 <= c.slot <= 8,
    ensures
        c.cycled(true).slot == (if c.slot == 8 {
            0
        } else {
            c.slot + 1
        }),
        c.cycled(false).slot == (if c.slot == 0 {
            8
        } else {
            c.slot - 1
        }),
        c.cycled(true) == (ControlsView { slot: c.cycled(true).slot, ..c }),
        c.cycled(false) == (ControlsView { slot: c.cycled(false).slot, ..c }),
{
}

/// The buttons of the screen jump, fly, break and place.
pub proof fn buttons_do_one_thing(c: ControlsView, b: TouchButton)
    ensures
        match b {
            TouchButton::Jump => c.touched(b).actions == c.actions && input::bit_set(
                c.touched(b).keys,
                4,
            ),
            TouchButton::Fly => c.touched(b).actions == c.actions.push(Action::ToggleFly)
                && c.touched(b).keys == c.keys,
            TouchButton::Break => c.touched(b).actions == c.actions.push(
                Action::Break { yaw: c.aim.0, pitch: c.aim.1 },
            ) && c.touched(b).keys == c.keys,
            TouchButton::Place => c.touched(b).actions.len() == c.actions.len() + 1 && c.touched(
                b,
            ).actions.last() is Place && c.touched(b).keys == c.keys,
        },
        c.released().keys == 0,
        c.released().stick == (0u32, 0u32),
        c.released().actions == c.actions,
        c.released().slot == c.slot,
{
    keys_are_held_one_by_one(c, Key::Space, Key::Space);
}

// ---- Frames ------------------------------------------------------------------------------

/// A frame that comes within eight milliseconds is none. The first one takes no time, and
/// the others the time since the last, but never more than a quarter of a second.
pub proof fn frames_take_their_time(c: FrameClock, now: int)
    ensures
        now - c.last < 8 ==> c.step(now) is None,
        now - c.last >= 8 && c.last == 0 ==> c.step(now) == Some(0int),
        8 <= now - c.last <= 250 && c.last > 0 ==> c.step(now) == Some(now - c.last),
        now - c.last > 250 && c.last > 0 ==> c.step(now) == Some(250int),
{
}

/// A walk that is stuck at the end of a second jumps at the next step, and turns aside
/// too unless it is the first time of four. One that is not stuck does neither.
pub proof fn stuck_walks_jump(w: Walk, frame: u32, next: u32, stuck: bool, near: bool)
    requires
        !w.jump,
        !w.turn,
        w.episodes < u32::MAX,
    ensures
        ({
            let step = w.after(frame, stuck).0.step(next, near).0;
            let caught = stuck && frame % 60 == 59;
            &&& step.jump <==> caught
            &&& step.aside <==> caught && w.episodes % 4 != 0
            &&& w.after(frame, stuck).0.episodes == (if caught {
                w.episodes + 1
            } else {
                w.episodes as int
            })
            &&& !w.after(frame, stuck).0.step(next, near).1.jump
            &&& !w.after(frame, stuck).0.step(next, near).1.turn
        }),
{
}

/// A walk takes off in frame 1800 and flies faster ever after; it turns back in frame
/// 2280, once; it lands on the way back, when it is near or in frame 3300.
pub proof fn walks_go_out_and_back(w: Walk, frame: u32, stuck: bool, near: bool)
    ensures
        w.after(frame, stuck).1 <==> frame == 1800 && !w.flying,
        w.after(frame, stuck).0.flying <==> w.flying || frame == 1800,
        w.step(frame, near).0.faster <==> w.flying,
        w.step(frame, near).0.level <==> frame == 1800,
        w.step(frame, near).0.about <==> frame == 2280 && !w.returning,
        w.step(frame, near).1.returning <==> w.returning || frame == 2280,
        w.step(frame, near).0.land <==> (w.returning || frame == 2280) && !w.landed && (near
            || frame == 3300),
        w.step(frame, near).1.landed <==> w.landed || w.step(frame, near).0.land,
{
}

// ---- Messages ----------------------------------------------------------------------------

/// Each message of a server changes what it speaks of, and nothing else.
pub proof fn messages_change_what_they_speak_of(l: LinkView, m: ServerMsg, now: u64)
    ensures
        ({
            let t = link::told(l, m, now);
            &&& t.id == l.id && t.last_resync == l.last_resync
            &&& m matches ServerMsg::Hello { seed, player_id, .. } ==> t.connected && t.seed
                == Some(seed) && t.player_id == player_id
            &&& !(m is Hello) ==> t.connected == l.connected && t.seed == l.seed && t.player_id
                == l.player_id
            &&& m matches ServerMsg::PlayerState(s) ==> t.player == s@
            &&& !(m is PlayerState) ==> t.player == l.player
            &&& m matches ServerMsg::Agents(v) ==> t.agents.len() == v@.len() && forall|k: int|
                0 <= k < v@.len() ==> #[trigger] t.agents[k] == v@[k]@
            &&& !(m is Agents) ==> t.agents == l.agents
            &&& m matches ServerMsg::Chunk { pos, data } ==> t.have == l.have.insert(pos)
                && t.last_chunk == now && t.inbound == l.inbound.push(
                WorldUpdate::Chunk { pos, data },
            )
            &&& !(m is Chunk) ==> t.have == l.have && t.last_chunk == l.last_chunk && t.inbound
                == l.inbound
            &&& m matches ServerMsg::Stats(s) ==> t.stats == s
            &&& !(m is Stats) ==> t.stats == l.stats
            &&& m matches ServerMsg::NpcLoad { count, spacing } ==> t.npc_load == (count, spacing)
            &&& !(m is NpcLoad) ==> t.npc_load == l.npc_load
        }),
{
}

/// Chunks are asked for again exactly where more than 32 of those that were sent did not
/// arrive, none has arrived for five seconds, and none was asked for within ten.
pub proof fn lost_chunks_are_missed(l: LinkView, sent: int, now: int)
    ensures
        l.lost_chunks(sent, now) <==> l.connected && sent > l.have.len() + 32 && now > l.last_chunk
            + 5000 && now > l.last_resync + 10000,
{
}

/// Up to 8192 chunks are remembered as they came; of more, those that are at most nine
/// chunks away in every direction.
pub proof fn far_chunks_are_not_remembered(l: LinkView, cell: (i32, i32, i32), c: ChunkPos)
    requires
        l.have.finite(),
    ensures
        l.have.len() <= 8192 ==> l.near(cell) == l.have,
        l.have.len() > 8192 ==> (l.near(cell).contains(c) <==> l.have.contains(c) && -9 <= c.x
            - cell.0 <= 9 && -9 <= c.y - cell.1 <= 9 && -9 <= c.z - cell.2 <= 9),
{
}

/// When a link ends, exactly its own questions are declined, in the order in which they
/// were asked, and all others wait on, in theirs.
pub proof fn questions_end_with_their_link(q: Seq<Question>, id: u32, x: Question)
    ensures
        link::of_link(q, id).contains(x) <==> q.contains(x) && x.link == id,
        link::without_link(q, id).contains(x) <==> q.contains(x) && x.link != id,
        link::of_link(q.push(x), id) == (if x.link == id {
            link::of_link(q, id).push(x)
        } else {
            link::of_link(q, id)
        }),
        link::without_link(q.push(x), id) == (if x.link == id {
            link::without_link(q, id)
        } else {
            link::without_link(q, id).push(x)
        }),
    decreases q.len(),
{
    assert(q.push(x).drop_last() =~= q);
    if q.len() > 0 {
        let init = q.drop_last();
        let last = q.last();
        questions_end_with_their_link(init, id, x);
        assert(q =~= init.push(last));
        grown_lists_hold(init, last, x);
        grown_lists_hold(link::of_link(init, id), last, x);
        grown_lists_hold(link::without_link(init, id), last, x);
    }
}

proof fn grown_lists_hold<T>(s: Seq<T>, last: T, x: T)
    ensures
        s.push(last).contains(x) <==> s.contains(x) || x == last,
{
    if s.contains(x) {
        let i = choose|i: int| 0 <= i < s.len() && s[i] == x;
        assert(s.push(last)[i] == x);
    }
    if x == last {
        assert(s.push(last)[s.len() as int] == x);
    }
    if s.push(last).contains(x) && x != last {
        let i = choose|i: int| 0 <= i < s.push(last).len() && s.push(last)[i] == x;
        assert(s[i] == x);
    }
}

// ---- Players -----------------------------------------------------------------------------

/// Exactly the other players have a tag: their name, or their number where they have
/// none.
pub proof fn other_players_have_tags(states: Seq<AgentState>, own: u32, id: u32, l: Seq<char>)
    ensures
        tags::tags_of(states, own).contains((id, l)) <==> exists|i: int|
            0 <= i < states.len() && (#[trigger] states[i]).is_player && states[i].id == id && id
                != own && l == (if states[i].name@.len() == 0 {
                "P"@ + text::decimal(id as nat)
            } else {
                states[i].name@
            }),
    decreases states.len(),
{
    if states.len() > 0 {
        let init = states.drop_last();
        let last = states.last();
        other_players_have_tags(init, own, id, l);
        grown_lists_hold(
            tags::tags_of(init, own),
            (last.id, tags::label(last.name@, last.id)),
            (id, l),
        );
        assert forall|i: int| 0 <= i < init.len() implies #[trigger] init[i] == states[i] by {}
        assert(states[states.len() - 1] == last);
        if tags::tags_of(init, own).contains((id, l)) {
            let i = choose|i: int|
                0 <= i < init.len() && (#[trigger] init[i]).is_player && init[i].id == id && id
                    != own && l == (if init[i].name@.len() == 0 {
                    "P"@ + text::decimal(id as nat)
                } else {
                    init[i].name@
                });
            assert(states[i] == init[i]);
        }
        if exists|i: int|
            0 <= i < states.len() && (#[trigger] states[i]).is_player && states[i].id == id && id
                != own && l == (if states[i].name@.len() == 0 {
                "P"@ + text::decimal(id as nat)
            } else {
                states[i].name@
            }) {
            let i = choose|i: int|
                0 <= i < states.len() && (#[trigger] states[i]).is_player && states[i].id == id
                    && id != own && l == (if states[i].name@.len() == 0 {
                    "P"@ + text::decimal(id as nat)
                } else {
                    states[i].name@
                });
            if i < init.len() {
                assert(init[i] == states[i]);
            }
        }
    }
}

/// A player is called what they typed, without the spaces round it, and "Player" where
/// that is nothing.
pub proof fn players_are_called_what_they_typed(typed: Seq<char>)
    ensures
        text::trimmed(typed).len() > 0 ==> tags::profile_name(typed) == text::trimmed(typed),
        text::trimmed(typed).len() == 0 ==> tags::profile_name(typed) == "Player"@,
{
}

/// Each patch of a ball is two triangles between four neighbours: two on one ring, and
/// the two below them on the next, round sixteen of them. The corners come in the order
/// left, right, below left, and right, below right, below left.
pub proof fn balls_are_made_of_patches(ring: int, segment: int, j: int)
    requires
        0 <= ring < 10,
        0 <= segment < 16,
        0 <= j < 6,
    ensures
        sphere::ball().len() == 960,
        sphere::ball()[96 * ring + 6 * segment + j] == 16 * ring + (if j == 2 || j == 4 || j == 5 {
            16int
        } else {
            0
        }) + (if j == 1 || j == 3 || j == 4 {
            if segment == 15 {
                0
            } else {
                segment + 1
            }
        } else {
            segment
        }),
{
    let k = 96 * ring + 6 * segment + j;
    assert(k / 96 == ring);
    assert(k / 6 == ring * 16 + segment);
    assert(k / 6 % 16 == segment);
    assert(k % 6 == j);
    assert(sphere::ball()[k] == sphere::patch(ring, segment)[j]);
}

/// Exactly those who are drawn and no longer there are taken away.
pub proof fn who_is_gone_is_not_drawn(held: Seq<u32>, states: Seq<AgentState>, id: u32)
    ensures
        sphere::stale_ids(held, states).contains(id) <==> held.contains(id) && forall|i: int|
            0 <= i < states.len() ==> (#[trigger] states[i]).id != id,
{
    broadcast use vstd::seq_lib::group_filter_ensures;

    let gone = |x: u32| !sphere::listed(states, x);
    assert(sphere::stale_ids(held, states) == held.filter(gone));
    if held.filter(gone).contains(id) {
        held.lemma_filter_contains_rev(gone, id);
        let i = choose|i: int| 0 <= i < held.filter(gone).len() && held.filter(gone)[i] == id;
        assert(gone(held.filter(gone)[i]));
    }
    if held.contains(id) && gone(id) {
        let i = choose|i: int| 0 <= i < held.len() && held[i] == id;
        assert(gone(held[i]));
    }
}

// ---- Ticks -------------------------------------------------------------------------------

/// What a viewer gets in a tick is its chunks, in their order, and behind them where it is
/// itself, who is there, and the numbers, with how many chunks were sent to it.
pub proof fn ticks_tell_chunks_first(
    u: Seq<WorldUpdate>,
    player: AgentState,
    agents: Vec<AgentState>,
    base: ServerStats,
    sent: usize,
)
    ensures
        ({
            let v = tick::messages(u, player, agents, base, sent);
            let n = u.len() as int;
            &&& v.len() == n + 3
            &&& forall|k: int|
                0 <= k < n ==> ((#[trigger] v[k]) matches ServerMsg::Chunk { pos, data } && u[k] == (
                WorldUpdate::Chunk { pos, data }))
            &&& v[n] == ServerMsg::PlayerState(player)
            &&& v[n + 1] == ServerMsg::Agents(agents)
            &&& v[n + 2] matches ServerMsg::Stats(s) && s.chunks_sent == sent && s.chunks_generated
                == base.chunks_generated && s.deltas == base.deltas && s.agents == base.agents
                && s.npcs == base.npcs && s.cache == base.cache
        }),
{
    let v = tick::messages(u, player, agents, base, sent);
    assert forall|k: int| 0 <= k < u.len() implies ((#[trigger] v[k]) matches ServerMsg::Chunk {
        pos,
        data,
    } && u[k] == (WorldUpdate::Chunk { pos, data })) by {
        assert(v[k] == tick::chunk_message(u[k]));
    }
}

/// A load of NPCs that a viewer was told of is not told again; another one is.
pub proof fn other_loads_are_told(t: (u32, u32), load: (u32, u32))
    ensures
        t.0 != load.0 ==> !(NpcEcho { told: Some(t) }).knows(load),
        t.1 != load.1 && t.1 % 0x8000_0000 != 0 ==> !(NpcEcho { told: Some(t) }).knows(load),
        t == load && load.1 % 0x8000_0000 <= 0x7F80_0000 ==> (NpcEcho { told: Some(t) }).knows(
            load,
        ),
        t.0 == load.0 && t.1 % 0x8000_0000 == 0 && load.1 % 0x8000_0000 == 0 ==> (NpcEcho {
            told: Some(t),
        }).knows(load),
        t == load && load.1 % 0x8000_0000 > 0x7F80_0000 ==> !(NpcEcho { told: Some(t) }).knows(
            load,
        ),
{
}

/// A token is shown by the first request, and by no other.
pub proof fn tokens_are_shown_first(first: Seq<Request>)
    ensures
        first.len() == 0 ==> tick::token_shown(first) is None,
        first.len() > 0 ==> match first[0] {
            Request::Rejoin { token } => tick::token_shown(first) == Some(token),
            _ => tick::token_shown(first) is None,
        },
{
}

// ---- Odds and ends -----------------------------------------------------------------------

/// A tag is kept exactly while another player of its number is there.
pub proof fn tags_go_with_their_players(states: Seq<AgentState>, own: u32, id: u32)
    ensures
        tags::tagged(states, own, id) <==> id != own && exists|i: int|
            0 <= i < states.len() && (#[trigger] states[i]).id == id && states[i].is_player,
{
    if tags::tagged(states, own, id) {
        let i = choose|i: int|
            0 <= i < states.len() && (#[trigger] states[i]).id == id && tags::is_tagged(
                states[i],
                own,
            );
        assert(states[i].is_player);
    }
    if id != own && exists|i: int|
        0 <= i < states.len() && (#[trigger] states[i]).id == id && states[i].is_player {
        let i = choose|i: int|
            0 <= i < states.len() && (#[trigger] states[i]).id == id && states[i].is_player;
        assert(tags::is_tagged(states[i], own));
    }
}

/// A block is found by its name without regard to case, and no two of them by the same.
pub proof fn blocks_are_found_by_name(name: Seq<char>, b: Block, c: Block)
    ensures
        url::is_named(name, b) ==> text::lowercase(b.spec_name()) == name,
        url::is_named(name, b) && url::is_named(name, c) ==> b == c,
        text::lowercase(b.spec_name()) == name && b.id() == 0 ==> url::is_named(name, b),
{
    if url::is_named(name, b) && url::is_named(name, c) {
        assert(!(c.id() < b.id()));
        assert(!(b.id() < c.id()));
    }
}

/// Of a player that no message spoke of yet, the page shows what every player begins with.
pub proof fn players_begin_alike()
    ensures
        agent::unknown_player().id == 0,
        agent::unknown_player().is_player,
        agent::unknown_player().name == "Player"@,
        agent::unknown_player().pos == (agent::Vec3Bits { x: 0, y: 0, z: 0 }),
        agent::unknown_player().yaw == 0x3F333333,
        agent::unknown_player().pitch == 0xBE19999A,
        agent::unknown_player().fly_speed == 0x41A00000,
        agent::unknown_player().radius == 0x3ED70A3D,
        agent::unknown_player().color == seq![255u8, 255, 255],
        agent::unknown_player().target is None,
        !agent::unknown_player().on_ground && !agent::unknown_player().fly,
        stats::no_stats().chunks_sent == 0 && stats::no_stats().chunks_generated == 0,
        stats::no_stats().deltas == 0 && stats::no_stats().agents == 0 && stats::no_stats().npcs
            == 0,
        stats::no_stats().cache.lookups == 0 && stats::no_stats().cache.hits == 0,
{
}

} // verus!
