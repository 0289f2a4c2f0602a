use qwencraft::agent::{npc_color_of, Agent, AgentKind, AgentState, Vec3Bits, Wander, REST_BELOW};
use qwencraft::block::PLACEABLE;
use qwencraft::controls::{
    find_touch, first_touch, key_from_code, slot_from_code, Controls, Pad, TouchButton,
    HOTBAR_SLOTS,
};
use qwencraft::coords::ChunkPos;
use qwencraft::frame::{FrameClock, FrameRate, Rate, Walk};
use qwencraft::input::{Action, Key};
use qwencraft::sphere::{set_agents, sphere_indices, SPHERE_VERTICES};
use qwencraft::stream::Streamer;
use qwencraft::tags::{player_name, update_name_tags};

fn playing() -> Controls {
    let mut c = Controls::new(false);
    assert!(c.pointer_changed(true));
    c
}

#[test]
fn key_codes_are_known() {
    assert_eq!(key_from_code("KeyW"), Some(Key::W));
    assert_eq!(key_from_code("BracketRight"), Some(Key::BracketRight));
    assert_eq!(key_from_code("KeyZ"), None);
    assert_eq!(slot_from_code("Digit1"), Some(0));
    assert_eq!(slot_from_code("Digit9"), Some(8));
    assert_eq!(slot_from_code("Digit0"), None);
    assert_eq!(slot_from_code("Digit10"), None);
    assert_eq!(slot_from_code("KeyW"), None);
}

#[test]
fn keys_hold_select_and_act() {
    let mut c = playing();
    assert!(c.key_down("KeyW", false, false));
    assert!(c.keys().contains(Key::W));
    assert!(c.key_down("Digit3", false, false));
    assert_eq!(c.selected_slot(), 2);
    assert_eq!(c.selected_block(), PLACEABLE[2]);
    assert!(c.key_down("KeyF", false, false));
    assert!(c.key_down("KeyF", true, false));
    assert!(c.key_down("KeyE", true, false));
    assert!(!c.key_down("KeyZ", false, false));
    assert_eq!(c.take_actions(), vec![Action::ToggleFly, Action::FlyFaster]);
    assert!(c.take_actions().is_empty());
    c.key_up("KeyW", false);
    assert!(!c.keys().contains(Key::W));
}

#[test]
fn typing_does_not_play() {
    let mut c = playing();
    assert!(!c.key_down("KeyW", false, true));
    assert!(!c.key_down("Digit3", false, true));
    assert!(!c.wheel(true, true));
    assert_eq!((c.keys().bits(), c.selected_slot()), (0, 0));
}

#[test]
fn the_mouse_breaks_and_places() {
    let mut c = Controls::new(false);
    c.mouse_down(0);
    assert!(c.take_actions().is_empty());
    assert!(c.wants_pointer(false) && !c.wants_pointer(true));
    c.pointer_changed(true);
    assert!(c.is_playing() && !c.wants_pointer(false));
    c.aim(7, 8);
    assert!(c.select_slot(1));
    assert!(!c.select_slot(HOTBAR_SLOTS));
    c.mouse_down(0);
    c.mouse_down(1);
    c.mouse_down(2);
    let block = PLACEABLE[1].as_u8();
    assert_eq!(
        c.take_actions(),
        vec![Action::Break { yaw: 7, pitch: 8 }, Action::Place { yaw: 7, pitch: 8, block }]
    );
    c.key_down("KeyW", false, false);
    c.pointer_changed(false);
    assert_eq!(c.keys().bits(), 0);
}

#[test]
fn the_wheel_goes_round_and_back() {
    let mut c = playing();
    assert!(c.wheel(false, false));
    assert_eq!(c.selected_slot(), HOTBAR_SLOTS - 1);
    assert!(c.wheel(true, false));
    assert_eq!(c.selected_slot(), 0);
    for i in 0..HOTBAR_SLOTS {
        c.select_slot(i);
        assert!(c.selected_block().is_placeable());
    }
}

#[test]
fn touch_screens_have_buttons() {
    let mut c = Controls::new(true);
    assert!(!c.pointer_changed(true));
    assert!(c.tap(false));
    assert!(c.is_playing());
    c.button_down(TouchButton::Jump);
    assert!(c.keys().contains(Key::Space));
    c.button_up(TouchButton::Jump);
    assert!(!c.keys().contains(Key::Space));
    c.button_down(TouchButton::Fly);
    c.button_down(TouchButton::Break);
    c.button_down(TouchButton::Place);
    assert_eq!(c.take_actions().len(), 3);
    c.set_stick(5, 6);
    assert_eq!(c.stick(), (5, 6));
    c.clear_keys();
    assert_eq!(c.keys().bits(), 0);
    assert!(c.menu());
    assert!(!c.is_playing());
    c.push_action(Action::NpcClear);
    assert_eq!(c.take_actions(), vec![Action::NpcClear]);
}

#[test]
fn pads_follow_one_finger() {
    assert_eq!(first_touch(&[]), None);
    assert_eq!(first_touch(&[4, 5]), Some(4));
    assert_eq!(find_touch(&[4, 5], 5), Some(1));
    assert_eq!(find_touch(&[4], 5), None);
    let mut p = Pad { touch: None };
    assert!(!p.start(false, &[4]));
    assert!(p.start(true, &[4]));
    assert!(!p.start(true, &[5]));
    assert_eq!(p.moved(&[5, 4]), Some(1));
    assert_eq!(p.moved(&[5]), None);
    assert!(!p.end(&[5]));
    assert!(p.end(&[4]));
    assert_eq!(p.touch, None);
}

#[test]
fn frames_keep_their_distance() {
    let mut c = FrameClock { last: 0 };
    assert_eq!(c.tick(1_000), Some(0));
    assert_eq!(c.tick(1_007), None);
    assert_eq!(c.tick(1_008), Some(8));
    assert_eq!(c.tick(2_000), Some(250));
    assert_eq!(c.tick(1_500), None);
}

#[test]
fn frame_rates_are_shown_twice_a_second() {
    let mut r = FrameRate { frames: 0, start: 0, shown: 18 };
    assert_eq!(r.count(1_000), None);
    assert_eq!(r.count(1_250), None);
    assert_eq!(r.count(1_500), Some(Rate { frames: 3, elapsed: 500, log: false }));
    assert_eq!(r.count(2_000), Some(Rate { frames: 1, elapsed: 500, log: true }));
}

fn walk() -> Walk {
    Walk { flying: false, returning: false, landed: false, jump: false, turn: false, episodes: 0 }
}

#[test]
fn the_walk_takes_off_turns_and_lands_once() {
    let mut w = walk();
    let s = w.advance(1_800, false);
    assert!(s.level && !s.faster);
    assert!(w.look_back(1_800, false));
    assert!(!w.look_back(1_800, false));
    assert!(w.advance(1_801, false).faster);
    let s = w.advance(2_280, false);
    assert!(s.about && !s.land);
    assert!(!w.advance(2_280, false).about);
    assert!(!w.advance(2_500, false).land);
    assert!(w.advance(2_600, true).land);
    assert!(!w.advance(2_700, true).land);
    assert!(!w.advance(3_300, true).land);
    let mut late = Walk { returning: true, ..walk() };
    assert!(late.advance(3_300, false).land);
}

#[test]
fn the_walk_gets_unstuck() {
    let mut w = walk();
    w.look_back(58, true);
    assert_eq!(w.episodes, 0);
    w.look_back(59, true);
    assert_eq!((w.episodes, w.jump, w.turn), (1, true, false));
    let s = w.advance(60, false);
    assert!(s.jump && !s.aside);
    w.look_back(119, true);
    let s = w.advance(120, false);
    assert!(s.jump && s.aside);
    assert_eq!((w.jump, w.turn), (false, false));
}

fn state(id: u32, is_player: bool, name: &str) -> AgentState {
    let mut s = AgentState::default();
    s.id = id;
    s.is_player = is_player;
    s.name = name.to_string();
    s
}

#[test]
fn balls_are_whole() {
    let v = sphere_indices();
    assert_eq!(v.len(), 10 * 16 * 6);
    assert_eq!(&v[..6], &[0, 1, 16, 1, 17, 16]);
    assert_eq!(&v[90..96], &[15, 0, 31, 0, 16, 31]);
    assert_eq!(v.iter().copied().max(), Some(SPHERE_VERTICES - 1));
}

#[test]
fn one_sees_the_others() {
    let states = vec![state(3, true, "a"), state(4, false, ""), state(7, true, "")];
    assert_eq!(set_agents(&[3, 5, 7], &states, 3), (vec![5], vec![4, 7]));
    let (tags, gone) = update_name_tags(&[4, 5, 7], &states, 3);
    assert_eq!(tags.iter().map(|t| (t.id, t.label.as_str())).collect::<Vec<_>>(), vec![(7, "P7")]);
    assert_eq!(gone, vec![4, 5]);
    let (tags, _) = update_name_tags(&[], &states, 9);
    assert_eq!(tags.iter().map(|t| t.label.as_str()).collect::<Vec<_>>(), vec!["a", "P7"]);
    assert_eq!(player_name("  "), "Player");
    assert_eq!(player_name(" Zoe "), "Zoe");
}

#[test]
fn random_numbers_follow_their_rule() {
    let at = Vec3Bits { x: 0, y: 0, z: 0 };
    let mut a = Agent::npc(3, at, 1, 2);
    let mut x: u64 = 0xC0FFEE ^ (3 * 0x9E37_79B9);
    assert_eq!(a.rng, x);
    for _ in 0..100 {
        x ^= x << 13;
        x ^= x >> 7;
        x ^= x << 17;
        assert_eq!(a.next_rand(), (x >> 40) as u32);
    }
    let mut b = a.clone();
    let time = b.next_rand();
    match a.wander() {
        Wander::Rest { time: t } => assert!(t == time && t < REST_BELOW),
        Wander::Walk { time: t, direction } => {
            assert!(t == time && t >= REST_BELOW);
            assert_eq!(direction, b.next_rand());
        }
    }
    assert_eq!(a.color, npc_color_of(3));
    assert_eq!(npc_color_of(11), [150, 214, 96]);
    assert_eq!((REST_BELOW as f32 / (1u32 << 24) as f32) < 0.22, false);
    assert!(((REST_BELOW - 1) as f32 / (1u32 << 24) as f32) < 0.22);
}

#[test]
fn players_fly_and_land() {
    let at = Vec3Bits { x: 1, y: 2, z: 3 };
    let mut a = Agent::player(2, at, "Zoe", [1, 2, 3]);
    assert_eq!(a.kind, AgentKind::Player);
    assert_eq!(a.rng, 0x9E37_79B9 ^ (2 * 0x1000_0000_01B3));
    assert_eq!(f32::from_bits(a.yaw), 0.7);
    assert_eq!(f32::from_bits(a.pitch), -0.15);
    assert_eq!(f32::from_bits(a.state().radius), 0.42);
    assert_eq!(f32::from_bits(a.fly_speed), 20.0);
    a.on_ground = true;
    a.vel = at;
    a.toggle_fly();
    assert!(a.fly && !a.on_ground);
    assert_eq!(a.vel, Vec3Bits { x: 0, y: 0, z: 0 });
    a.toggle_fly();
    assert!(!a.fly);
    assert_eq!(a.state().name, "Zoe");
    a.vel = at;
    a.struck(1, true);
    assert!(a.on_ground);
    assert_eq!(a.vel, Vec3Bits { x: 1, y: 0, z: 3 });
    a.struck(0, false);
    assert_eq!(a.vel, Vec3Bits { x: 0, y: 0, z: 3 });
}

#[test]
fn the_nearest_chunks_are_sent_first() {
    let mut s = Streamer::new();
    let cell = (10, 1, -10);
    assert_eq!(s.next(cell), Some(ChunkPos::new(10, 1, -10)));
    let mut last = 0;
    let mut n = 0;
    while let Some(c) = s.next(cell) {
        let d = (c.x - 10).abs().max((c.y - 1).abs()).max((c.z + 10).abs());
        assert!(d >= last);
        last = d;
        s.note_sent(c);
        n += 1;
    }
    assert_eq!((n, s.sent_count()), (15 * 15 * 4, 15 * 15 * 4));
}

#[test]
fn what_is_given_back_or_lost_is_sent_again() {
    let mut s = Streamer::new();
    let cell = (0, 0, 0);
    while let Some(c) = s.next(cell) {
        s.note_sent(c);
    }
    let c = ChunkPos::new(1, 0, 2);
    s.note_evicted(&[c, ChunkPos::new(99, 0, 0)]);
    assert!(!s.was_sent(c));
    assert_eq!(s.next(cell), Some(c));
    s.note_sent(c);
    s.apply_edits(&[c]);
    assert_eq!(s.next(cell), Some(c));
    s.note_sent(c);
    assert_eq!(s.next(cell), None);
    assert_eq!(s.resync(cell, &[c]), 15 * 15 * 4 - 1);
    assert_eq!(s.sent_count(), 1);
}
