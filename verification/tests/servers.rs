use qwencraft::agent::{AgentState, Vec3Bits};
use qwencraft::block::Block;
use qwencraft::coords::{BlockPos, ChunkPos};
use qwencraft::input::Action;
use qwencraft::physics::{collides, first_met, in_water, Axis, CellBox};
use qwencraft::registry::{PlayerRegistry, NO_TOKEN};
use qwencraft::save::{encode, PlayerRecord, SaveError};
use qwencraft::session::{
    apply_inbound, clock_reading, load_save, now_unix_secs, record_of, Effect, EventLog, Identity,
    LoadError, Request, Roster, SaveSchedule, EVENT_LOG_SIZE, snapshot,
};
use qwencraft::world::{Edit, World};

fn record(name: &str) -> PlayerRecord {
    PlayerRecord {
        pos: Vec3Bits { x: 1, y: 2, z: 3 },
        yaw: 4,
        pitch: 5,
        name: name.to_string(),
        color: [6, 7, 8],
        last_seen: 9,
    }
}

#[test]
fn who_leaves_comes_back() {
    let mut r = Roster::new(PlayerRegistry::empty());
    let (token, who) = r.join(1, None, [1; 16]);
    assert_eq!((token, who), ([1; 16], Identity::Fresh));
    assert_eq!(r.live(), &[([1; 16], 1)]);
    assert!(!r.is_dirty());
    r.leave(token, record("Zoe"));
    assert!(r.is_dirty() && r.live().is_empty());
    let (back, who) = r.join(2, Some(token), [2; 16]);
    assert_eq!((back, who), (token, Identity::Restored(record("Zoe"))));
}

#[test]
fn who_is_here_is_not_hijacked() {
    let mut r = Roster::new(PlayerRegistry::empty());
    let (token, _) = r.join(1, None, [1; 16]);
    let (other, who) = r.join(2, Some(token), [2; 16]);
    assert_eq!((other, who), ([2; 16], Identity::Denied));
    assert_eq!(r.live(), &[([1; 16], 1), ([2; 16], 2)]);
}

#[test]
fn unknown_tokens_are_fresh() {
    let mut r = Roster::new(PlayerRegistry::empty());
    assert_eq!(r.join(1, Some([9; 16]), [1; 16]), ([1; 16], Identity::Unknown));
    assert_eq!(r.join(2, Some(NO_TOKEN), [2; 16]), ([2; 16], Identity::Fresh));
}

#[test]
fn new_tokens_are_drawn_at_random() {
    let mut r = Roster::new(PlayerRegistry::empty());
    let (a, who) = r.join_random(1, None).unwrap();
    let (b, _) = r.join_random(2, Some(NO_TOKEN)).unwrap();
    assert_eq!(who, Identity::Fresh);
    assert_ne!(a, b);
    assert_ne!(a, NO_TOKEN);
    r.remember(vec![(a, record("a")), (b, record("b"))]);
    assert_eq!(r.snapshot().len(), 2);
    assert_eq!(r.live().len(), 2);
}

#[test]
fn newcomers_get_tokens_that_nobody_has() {
    let mut r = Roster::new(PlayerRegistry::empty());
    r.join(1, None, [1; 16]);
    r.leave([2; 16], record("Zoe"));
    assert!(!r.is_unused(None, &[1; 16]));
    assert!(!r.is_unused(None, &[2; 16]));
    assert!(!r.is_unused(Some([3; 16]), &[3; 16]));
    assert!(r.is_unused(Some([1; 16]), &[3; 16]));
    assert!(r.is_unused(None, &[3; 16]));
    let (token, who) = r.join_random(2, Some([1; 16])).unwrap();
    assert_eq!(who, Identity::Denied);
    assert_ne!(token, [1; 16]);
    assert_eq!(r.live(), &[([1; 16], 1), (token, 2)]);
    let (token, who) = r.join_random(3, Some([3; 16])).unwrap();
    assert_eq!(who, Identity::Unknown);
    assert_ne!(token, [3; 16]);
    let (token, who) = r.join_random(4, Some([2; 16])).unwrap();
    assert_eq!((token, who), ([2; 16], Identity::Restored(record("Zoe"))));
    assert_eq!(r.live().len(), 4);
}

#[test]
fn players_are_remembered_as_they_were() {
    let mut s = AgentState::default();
    s.pos = Vec3Bits { x: 1, y: 2, z: 3 };
    s.yaw = 4;
    s.pitch = 5;
    s.name = "Zoe".to_string();
    s.color = [6, 7, 8];
    assert_eq!(record_of(&s, 9), record("Zoe"));
}

fn effects(w: &mut World, m: Request) -> String {
    format!("{:?}", apply_inbound(w, m))
}

#[test]
fn requests_have_their_effects() {
    let mut w = World::new(1337);
    let p = BlockPos::new(3, 60, 3);
    w.set_block(p, Block::Brick);
    let want = vec![Effect::TellBlock { pos: p, block: Block::Brick.as_u8() }];
    assert_eq!(effects(&mut w, Request::GetBlock { pos: p }), format!("{want:?}"));
    let want = vec![Effect::Edit { pos: p, block: Block::Air }];
    assert_eq!(effects(&mut w, Request::SetBlock { pos: p, block: 99 }), format!("{want:?}"));
    let want = vec![Effect::SetNpcLoad { count: 2, spacing: 3 }, Effect::PushAction(Action::NpcLoad)];
    assert_eq!(effects(&mut w, Request::SetNpcLoad { count: 2, spacing: 3 }), format!("{want:?}"));
    let c = vec![ChunkPos::new(1, 2, 3)];
    let want = vec![Effect::Forget(c.clone())];
    assert_eq!(effects(&mut w, Request::Evicted(c.clone())), format!("{want:?}"));
    let want = vec![Effect::Resend(c.clone())];
    assert_eq!(effects(&mut w, Request::Resync(c)), format!("{want:?}"));
    let pos = Vec3Bits { x: 1, y: 2, z: 3 };
    let want = vec![Effect::Teleport { pos }];
    assert_eq!(effects(&mut w, Request::Teleport { pos }), format!("{want:?}"));
    let want = vec![Effect::PushAction(Action::ToggleFly)];
    assert_eq!(effects(&mut w, Request::Action(Action::ToggleFly)), format!("{want:?}"));
    assert_eq!(effects(&mut w, Request::Rejoin { token: [1; 16] }), "[]");
    let want = vec![Effect::SetProfile { name: "Zoe".to_string(), color: [1, 2, 3] }];
    let m = Request::Profile { name: "Zoe".to_string(), color: [1, 2, 3] };
    assert_eq!(effects(&mut w, m), format!("{want:?}"));
    let m = Request::Input { keys: 5, dx: 1, dy: 2, analog_x: 3, analog_y: 4 };
    match &apply_inbound(&mut w, m)[..] {
        [Effect::SetInput(i)] => {
            assert_eq!((i.keys.bits(), i.mouse_dx, i.mouse_dy), (5, 1, 2));
            assert_eq!((i.analog_x, i.analog_y), (3, 4));
        }
        other => panic!("{other:?}"),
    }
}

#[test]
fn saves_are_made_in_time() {
    let mut s = SaveSchedule::new(10, 1_000);
    let mut idle = Roster::new(PlayerRegistry::empty());
    let mut left = Roster::new(PlayerRegistry::empty());
    left.leave([1; 16], record("Zoe"));
    assert!(!s.due(10, &idle, 999_999));
    assert!(!s.due(11, &idle, 5_999));
    assert!(s.due(11, &idle, 6_000));
    assert!(s.due(10, &left, 6_000));
    assert!(!s.due(10, &left, 5_999));
    assert!(!s.due(73, &idle, 1_000));
    assert!(s.due(74, &idle, 1_000));
    s.begin(&mut idle, 74, 1_500);
    assert_eq!(s.in_flight, Some(74));
    assert!(!s.due(200, &left, 999_999));
    assert!(s.finish(&mut idle, true));
    assert_eq!(s, SaveSchedule { disk_edits: 74, last_try: 1_500, in_flight: None });
    s.begin(&mut idle, 80, 9_000);
    assert!(!s.finish(&mut idle, false));
    assert_eq!(s.disk_edits, 74);
    assert!(!s.finish(&mut idle, true));
    assert!(s.needed_at_stop(75, &idle));
    assert!(s.needed_at_stop(74, &left));
    assert!(!s.needed_at_stop(74, &idle));
    idle.join(1, None, [1; 16]);
    assert!(s.needed_at_stop(74, &idle));
}

#[test]
fn who_leaves_during_a_save_is_saved_by_the_next() {
    for written in [true, false] {
        let mut s = SaveSchedule::new(10, 0);
        let mut r = Roster::new(PlayerRegistry::empty());
        s.begin(&mut r, 11, 5_000);
        r.leave([1; 16], record("Zoe"));
        assert_eq!(s.finish(&mut r, written), written);
        assert!(r.is_dirty());
        assert!(s.needed_at_stop(11, &r));
        assert!(s.due(11, &r, 10_000));
    }
}

#[test]
fn a_written_save_settles_what_it_holds() {
    let mut s = SaveSchedule::new(10, 0);
    let mut r = Roster::new(PlayerRegistry::empty());
    r.leave([1; 16], record("Zoe"));
    s.begin(&mut r, 10, 5_000);
    assert!(r.is_dirty() && s.needed_at_stop(10, &r));
    assert!(s.finish(&mut r, true));
    assert!(!r.is_dirty() && !s.needed_at_stop(10, &r));
    assert!(!s.due(10, &r, 999_999));
}

#[test]
fn a_failed_save_gives_back_what_it_holds() {
    let mut s = SaveSchedule::new(10, 0);
    let mut r = Roster::new(PlayerRegistry::empty());
    r.leave([1; 16], record("Zoe"));
    s.begin(&mut r, 10, 5_000);
    assert!(!s.finish(&mut r, false));
    assert!(r.is_dirty() && s.needed_at_stop(10, &r));
    assert!(s.due(10, &r, 10_000));
}

#[test]
fn a_snapshot_starts_the_same_server_again() {
    let mut w = World::new(7);
    let p = BlockPos::new(3, 60, 3);
    w.set_block(p, Block::Brick);
    w.set_block(p, Block::Sand);
    let mut r = Roster::new(PlayerRegistry::empty());
    r.leave([1; 16], record("Zoe"));
    let bytes = snapshot(7, &w, &r);
    let edits = vec![Edit { pos: p, block: Block::Sand }];
    let players = vec![([1; 16], record("Zoe"))];
    assert_eq!(bytes, encode(7, &edits, &players));
    assert_eq!(load_save(Some(bytes), 7), Ok((Some(edits), players)));
}

#[test]
fn saves_stay_with_their_world() {
    let edits = vec![Edit { pos: BlockPos::new(1, 2, 3), block: Block::Brick }];
    let bytes = encode(111, &edits, &[([5; 16], record("Zoe"))]);
    let (e, p) = load_save(Some(bytes.clone()), 111).unwrap();
    assert_eq!((e, p), (Some(edits), vec![([5; 16], record("Zoe"))]));
    assert_eq!(load_save(Some(bytes), 222).unwrap_err(), LoadError::OtherSeed { saved: 111 });
    assert_eq!(
        load_save(Some(vec![1]), 1).unwrap_err(),
        LoadError::Corrupt(SaveError::TruncatedHeader)
    );
    assert_eq!(load_save(None, 1).unwrap(), (None, vec![]));
}

#[test]
fn the_log_keeps_the_newest_events() {
    let mut l = EventLog::new();
    for i in 0..EVENT_LOG_SIZE as u64 + 3 {
        l.push(i, format!("event {i}"));
    }
    let v = l.snapshot();
    assert_eq!(v.len(), EVENT_LOG_SIZE);
    assert_eq!(v[0], (3, "event 3".to_string()));
    assert_eq!(v[EVENT_LOG_SIZE - 1].0, EVENT_LOG_SIZE as u64 + 2);
}

#[test]
fn the_clock_is_read() {
    assert_eq!(clock_reading(Some(5)), 5);
    assert_eq!(clock_reading(None), 0);
    assert!(now_unix_secs() > 1_600_000_000);
}

#[test]
fn bodies_stop_at_solid_blocks() {
    let mut w = World::new(1337);
    let b = CellBox { x0: 3, x1: 6, y0: 58, y1: 59, z0: 3, z1: 3 };
    assert!(!collides(&mut w, b));
    assert_eq!(first_met(&mut w, b, Axis::East, true), None);
    w.set_block(BlockPos::new(5, 59, 3), Block::Stone);
    w.set_block(BlockPos::new(6, 58, 3), Block::Stone);
    w.set_block(BlockPos::new(4, 58, 3), Block::Water);
    assert!(collides(&mut w, b));
    assert_eq!(first_met(&mut w, b, Axis::East, true), Some(5));
    assert_eq!(first_met(&mut w, b, Axis::East, false), Some(6));
    assert_eq!(first_met(&mut w, b, Axis::Up, true), Some(58));
    assert_eq!(first_met(&mut w, b, Axis::South, true), Some(3));
    assert!(!collides(&mut w, CellBox { x1: 4, ..b }));
    assert!(in_water(&mut w, BlockPos::new(4, 58, 3)));
    assert!(!in_water(&mut w, BlockPos::new(4, 59, 3)));
}
