use qwencraft::agent::AgentState;
use qwencraft::block::Block;
use qwencraft::chunk_set::{chunk_dist, chunk_dist_h, ChunkSet};
use qwencraft::chunk_table::{Built, ChunkTable, CHUNKS_PER_FRAME};
use qwencraft::coords::{BlockPos, ChunkPos, REGION_BLOCKS};
use qwencraft::light::idx;
use qwencraft::link::{Batch, Client, Effect, Incoming, Status, Step, NO_LINK};
use qwencraft::pool::{Slot, TerrainPool};
use qwencraft::protocol::{ServerMsg, PROTOCOL_VERSION};
use qwencraft::stats::ServerStats;
use qwencraft::world::WorldUpdate;

fn lone_block(b: Block) -> Vec<u8> {
    let mut v = vec![0u8; REGION_BLOCKS];
    v[idx(13, 13, 13)] = b.as_u8();
    v
}

fn at(x: i32) -> ChunkPos {
    ChunkPos::new(x, 2, 0)
}

#[test]
fn chunks_find_their_place() {
    let mut t = ChunkTable::new(100, 200);
    assert!(matches!(t.build_chunk(at(0), &[0; 5]), Built::Ignored));
    assert!(matches!(t.build_chunk(at(0), &vec![0; REGION_BLOCKS]), Built::Emptied));
    match t.build_chunk(at(0), &lone_block(Block::Stone)) {
        Built::Placed { slot, mesh } => {
            assert_eq!((slot.v_count, slot.i_count), (24, 36));
            assert_eq!(mesh.vertices.len(), 24);
        }
        _ => panic!("no room"),
    }
    assert_eq!((t.chunk_count(), t.free_slots()), (1, 0));
    t.build_chunk(at(0), &lone_block(Block::Glass));
    assert_eq!(t.chunk_count(), 1);
    assert_eq!(t.opaque_draws()[0].first, t.opaque_draws()[0].end);
    assert_eq!(t.translucent_draws().len(), 1);
    assert!(matches!(t.build_chunk(at(0), &vec![0; REGION_BLOCKS]), Built::Emptied));
    assert_eq!(t.chunk_count(), 0);
}

#[test]
fn the_farthest_chunks_give_way_and_are_reported() {
    let mut t = ChunkTable::new(72, 108);
    for x in 1..=3 {
        t.build_chunk(at(x), &lone_block(Block::Stone));
    }
    t.set_camera((0, 2, 0));
    assert!(matches!(t.build_chunk(at(0), &lone_block(Block::Stone)), Built::Placed { .. }));
    assert_eq!(t.take_evicted(), vec![at(3)]);
    assert!(t.take_evicted().is_empty());
    assert_eq!(t.missing_visible(7), vec![at(3)]);
    assert_eq!(t.missing_visible(2), vec![]);
    assert_eq!(t.spawn_near_count((0, 0, 0)), 2);
    assert_eq!(t.entries().len(), 3);
    let d = t.opaque_draws();
    for a in 0..3 {
        for b in 0..a {
            assert!(d[a].end <= d[b].first || d[b].end <= d[a].first);
        }
    }
    t.clear_terrain();
    assert_eq!(t.chunk_count(), 0);
}

#[test]
fn chunks_that_never_fit_are_refused() {
    let mut t = ChunkTable::new(20, 36);
    assert!(matches!(
        t.build_chunk(at(1), &lone_block(Block::Stone)),
        Built::Refused { warn: true }
    ));
    assert!(matches!(
        t.build_chunk(at(1), &lone_block(Block::Stone)),
        Built::Refused { warn: false }
    ));
    assert_eq!(t.take_evicted(), vec![at(1), at(1)]);
}

#[test]
fn a_few_chunks_are_meshed_in_a_frame() {
    let mut t = ChunkTable::new(10_000, 20_000);
    let updates: Vec<WorldUpdate> = (0..6)
        .map(|x| WorldUpdate::Chunk { pos: at(x), data: lone_block(Block::Stone) })
        .collect();
    assert_eq!(t.apply_updates(updates).len(), CHUNKS_PER_FRAME);
    assert_eq!(t.chunk_count(), 4);
    assert_eq!(t.apply_updates(vec![]).len(), 2);
    assert_eq!(t.chunk_count(), 6);
    assert!(t.take_first_frame());
    assert!(!t.take_first_frame());
    assert_eq!(t.set_highlight(Some((1, 2, 3))).unwrap().len(), 24);
    assert!(t.set_highlight(Some((1, 2, 3))).is_none());
    assert!(t.set_highlight(None).is_none());
}

#[test]
fn packing_makes_room_in_one_piece() {
    let mut t = ChunkTable::new(96, 144);
    for x in 0..4 {
        t.build_chunk(at(x), &lone_block(Block::Stone));
    }
    t.build_chunk(at(1), &vec![0; REGION_BLOCKS]);
    assert_eq!(t.free_slots(), 1);
    t.set_camera((0, 2, 0));
    assert!(t.compact(48, 72));
    assert_eq!(t.free_slots(), 0);
    assert_eq!(t.take_evicted(), vec![at(3)]);
    assert_eq!(t.entries().iter().map(|e| e.slot.base_v).collect::<Vec<_>>(), vec![0, 24]);
    assert!(!t.compact(48, 72));
}

#[test]
fn pools_count_what_is_free() {
    let mut p = TerrainPool::new(100, 150);
    let a = p.allocate(30, 45).unwrap();
    let _b = p.allocate(30, 45).unwrap();
    p.release(a);
    assert_eq!(p.free_total(), (30, 45));
    assert_eq!(p.caps(), (100, 150));
    assert!(p.free_fits(30, 45));
    assert!(!p.free_fits(31, 45));
    let s = Slot { base_v: 5, base_i: 6, v_count: 10, i_count: 20 };
    assert_eq!(s.tail(4, 8), Some(Slot { base_v: 9, base_i: 14, v_count: 6, i_count: 12 }));
    assert_eq!(s.tail(10, 20), None);
    p.reset();
    assert_eq!((p.used(), p.free_slots()), ((0, 0), 0));
}

#[test]
fn sets_of_chunks_hold_each_once() {
    let mut s = ChunkSet::new();
    assert!(s.insert(at(1)));
    assert!(!s.insert(at(1)));
    assert!(s.insert(at(9)));
    assert_eq!(s.items(), &[at(1), at(9)]);
    s.retain_near((0, 2, 0), 5);
    assert_eq!((s.len(), s.contains(at(9))), (1, false));
    assert!(s.remove(at(1)));
    assert!(!s.remove(at(1)));
    assert_eq!(chunk_dist(ChunkPos::new(1, -5, 3), (0, 0, 0)), 5);
    assert_eq!(chunk_dist_h(ChunkPos::new(1, -5, 3), (0, 0, 0)), 3);
    assert_eq!(chunk_dist(ChunkPos::new(i32::MIN, 0, 0), (i32::MAX, 0, 0)), u32::MAX as i64);
}

fn batch() -> Batch {
    Batch { hello: None, answers: vec![] }
}

fn next(s: Step) -> Vec<Effect> {
    match s {
        Step::Next(e) => e,
        Step::Stop(e) => panic!("stopped: {e:?}"),
    }
}

fn stop(s: Step) -> Vec<Effect> {
    match s {
        Step::Stop(e) => e,
        Step::Next(e) => panic!("went on: {e:?}"),
    }
}

fn shown(e: &[Effect]) -> String {
    format!("{e:?}")
}

fn connected() -> (Client, u32) {
    let mut c = Client::new((1, 2), Some((64, 16)));
    let id = c.connect((8, 4));
    let mut b = batch();
    let hello = ServerMsg::Hello { version: PROTOCOL_VERSION, seed: 9, player_id: 5 };
    let e = next(c.apply(id, Incoming::Message(hello), 100, (0, 0, 0), &mut b));
    assert_eq!(shown(&e), shown(&[Effect::SendProfile]));
    let e = c.finish(id, b);
    assert_eq!(
        shown(&e),
        shown(&[
            Effect::Status(Status::Connected { seed: 9 }),
            Effect::SendNpcLoad { count: 64, spacing: 16 }
        ])
    );
    (c, id)
}

#[test]
fn links_are_made_and_lost() {
    let c = Client::new((1, 2), None);
    assert_eq!((c.remote_id(), c.own_id(), c.spawn()), (NO_LINK, 0, Some((1, 2))));
    assert!(c.player().is_none() && c.agents().is_none() && c.numbers().is_none());
    let (mut c, id) = connected();
    assert!(c.is_connected());
    assert_eq!((c.remote_id(), c.own_id(), c.spawn()), (id, 5, None));
    let mut s = AgentState::default();
    s.pos.x = 3;
    s.pos.z = 4;
    next(c.apply(id, Incoming::Message(ServerMsg::PlayerState(s)), 1, (0, 0, 0), &mut batch()));
    assert_eq!(c.spawn(), Some((3, 4)));
    assert_eq!(c.player().unwrap().pos.x, 3);
    let e = c.closed(id, (7, 8));
    assert_eq!(shown(&e), shown(&[Effect::Fallback, Effect::Status(Status::Disconnected)]));
    assert_eq!((c.remote_id(), c.spawn()), (NO_LINK, Some((7, 8))));
    let id = c.connect((8, 4));
    let e = c.closed(id, (7, 8));
    assert_eq!(shown(&e), shown(&[Effect::Fallback, Effect::Status(Status::Failed)]));
}

#[test]
fn other_versions_are_not_spoken_to() {
    let mut c = Client::new((1, 2), None);
    let id = c.connect((8, 4));
    let hello = |version| Incoming::Message(ServerMsg::Hello { version, seed: 9, player_id: 5 });
    let e = stop(c.apply(id, hello(PROTOCOL_VERSION - 1), 1, (0, 0, 0), &mut batch()));
    assert_eq!(shown(&e), shown(&[Effect::Close]));
    let e = stop(c.apply(id, hello(PROTOCOL_VERSION + 1), 1, (0, 0, 0), &mut batch()));
    assert_eq!(shown(&e), shown(&[Effect::Close, Effect::TryReload]));
    assert!(!c.is_connected());
    let e = c.reload_outcome(true, (0, 0));
    assert_eq!(shown(&e), shown(&[Effect::Status(Status::Reloading)]));
    assert!(c.closed(id, (0, 0)).is_empty());
    let e = c.reload_outcome(false, (0, 0));
    assert_eq!(shown(&e), shown(&[Effect::Status(Status::ReloadFailed), Effect::Fallback]));
}

#[test]
fn messages_of_old_links_are_dropped() {
    let (mut c, id) = connected();
    let m = Incoming::Message(ServerMsg::NpcLoad { count: 1, spacing: 2 });
    assert!(stop(c.apply(id + 1, m, 1, (0, 0, 0), &mut batch())).is_empty());
    assert_eq!(c.numbers().unwrap().1, (8, 4));
}

#[test]
fn questions_are_answered_in_order_or_declined() {
    let (mut c, id) = connected();
    let (p, q) = (BlockPos::new(1, 2, 3), BlockPos::new(4, 5, 6));
    assert!(c.ask_block(p, 10));
    assert!(c.ask_block(q, 11));
    assert!(c.ask_block(p, 12));
    let mut b = batch();
    for (pos, block) in [(p, 3), (BlockPos::new(9, 9, 9), 1)] {
        next(c.apply(id, Incoming::BlockAt { pos, block }, 1, (0, 0, 0), &mut b));
    }
    let e = c.finish(id, b);
    assert_eq!(shown(&e), shown(&[Effect::Answer { ticket: 10, pos: p, block: 3 }]));
    let e = c.closed(id, (0, 0));
    assert_eq!(
        shown(&e[..2]),
        shown(&[Effect::Decline { ticket: 11 }, Effect::Decline { ticket: 12 }])
    );
    assert!(!c.ask_block(p, 13));
}

#[test]
fn lost_chunks_are_asked_for_again() {
    let (mut c, id) = connected();
    let chunk = ServerMsg::Chunk { pos: at(1), data: vec![1] };
    next(c.apply(id, Incoming::Message(chunk), 1_000, (0, 0, 0), &mut batch()));
    assert_eq!(c.take_world_updates().len(), 1);
    assert!(c.take_world_updates().is_empty());
    let stats = |sent: usize| {
        let mut s = ServerStats::default();
        s.chunks_sent = sent;
        Incoming::Message(ServerMsg::Stats(s))
    };
    assert!(next(c.apply(id, stats(34), 6_000, (0, 0, 0), &mut batch())).is_empty());
    assert!(next(c.apply(id, stats(33), 20_000, (0, 0, 0), &mut batch())).is_empty());
    let e = next(c.apply(id, stats(34), 20_000, (0, 0, 0), &mut batch()));
    assert_eq!(shown(&e), shown(&[Effect::SendResync(vec![at(1)])]));
    assert!(next(c.apply(id, stats(34), 30_000, (0, 0, 0), &mut batch())).is_empty());
    assert_eq!(next(c.apply(id, stats(34), 30_001, (0, 0, 0), &mut batch())).len(), 1);
    assert_eq!(c.numbers().unwrap().0.chunks_sent, 34);
    next(c.apply(id, Incoming::Message(ServerMsg::Agents(vec![AgentState::default()])), 1, (0, 0, 0), &mut batch()));
    assert_eq!(c.agents().unwrap().len(), 1);
    c.fallback_to_builtin((5, 6));
    assert_eq!(c.spawn(), Some((5, 6)));
}
