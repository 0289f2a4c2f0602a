use qwencraft::agent::AgentState;
use qwencraft::block::Block;
use qwencraft::coords::{BlockPos, ChunkPos};
use qwencraft::map::MapState;
use qwencraft::protocol::ServerMsg;
use qwencraft::session::Request;
use qwencraft::stats::ServerStats;
use qwencraft::stream::{Streamer, CHUNKS_PER_TICK, INNER_LIMIT};
use qwencraft::tick::{feed_map, handshake, messages_for, serve_viewer, NpcEcho};
use qwencraft::world::{World, WorldUpdate};

fn someone(id: u32) -> AgentState {
    AgentState { id, is_player: true, ..AgentState::default() }
}

#[test]
fn viewers_are_sent_chunks_then_states_then_numbers() {
    let base = ServerStats { agents: 2, ..ServerStats::default() };
    let c = ChunkPos::new(1, 2, 3);
    let d = ChunkPos::new(4, 0, 6);
    let v = messages_for(
        vec![
            WorldUpdate::Chunk { pos: c, data: vec![1] },
            WorldUpdate::Chunk { pos: d, data: vec![2] },
        ],
        someone(7),
        vec![someone(7), someone(8)],
        base,
        12,
    );
    assert_eq!(
        v,
        vec![
            ServerMsg::Chunk { pos: c, data: vec![1] },
            ServerMsg::Chunk { pos: d, data: vec![2] },
            ServerMsg::PlayerState(someone(7)),
            ServerMsg::Agents(vec![someone(7), someone(8)]),
            ServerMsg::Stats(ServerStats { chunks_sent: 12, ..base }),
        ]
    );
}

#[test]
fn edits_are_sent_to_those_who_see_them() {
    let mut w = World::new(7);
    let mut s = Streamer::new();
    let cell = (0, 2, 0);
    let base = ServerStats::default();
    let first = serve_viewer(&mut s, &mut w, &[], cell, someone(0), vec![], base);
    assert_eq!(first.len(), CHUNKS_PER_TICK + 3);
    let dirty = w.set_block(BlockPos::new(5, 40, 5), Block::Brick);
    assert_eq!(dirty, vec![ChunkPos::new(0, 2, 0)]);
    let again = serve_viewer(&mut s, &mut w, &dirty, cell, someone(0), vec![], base);
    assert!(matches!(&again[0], ServerMsg::Chunk { pos, .. } if *pos == ChunkPos::new(0, 2, 0)));
    let sent = 2 * CHUNKS_PER_TICK - 1;
    assert_eq!(s.sent_count(), sent);
    assert_eq!(
        again[CHUNKS_PER_TICK + 2],
        ServerMsg::Stats(ServerStats { chunks_sent: sent, ..base })
    );
}

#[test]
fn nothing_is_sent_at_the_end_of_the_world() {
    let mut w = World::new(7);
    let mut s = Streamer::new();
    let cell = (INNER_LIMIT + 1, 0, 0);
    let v = serve_viewer(&mut s, &mut w, &[], cell, someone(0), vec![], ServerStats::default());
    assert_eq!(v.len(), 3);
    assert_eq!(s.sent_count(), 0);
}

#[test]
fn loads_are_told_when_they_change() {
    let mut e = NpcEcho { told: None };
    let sixteen = 16.0f32.to_bits();
    assert_eq!(e.tell((64, sixteen)), Some(ServerMsg::NpcLoad { count: 64, spacing: sixteen }));
    assert_eq!(e.tell((64, sixteen)), None);
    assert!(e.tell((32, sixteen)).is_some());
    assert!(e.tell((32, 0.0f32.to_bits())).is_some());
    assert_eq!(e.tell((32, (-0.0f32).to_bits())), None);
    let nan = f32::NAN.to_bits();
    assert!(e.tell((32, nan)).is_some());
    assert!(e.tell((32, nan)).is_some());
    let mut new = NpcEcho { told: None };
    e.tell((64, sixteen));
    assert_eq!(e.tell((64, sixteen)), None);
    assert_eq!(new.tell((64, sixteen)), Some(ServerMsg::NpcLoad { count: 64, spacing: sixteen }));
}

#[test]
fn the_map_is_fed_what_is_new() {
    let mut w = World::new(1337);
    let mut m = MapState::new(1337);
    w.set_block(BlockPos::new(0, 63, 0), Block::Brick);
    let n = feed_map(&mut m, w.edits(), 0);
    assert_eq!(n, 1);
    assert_eq!(feed_map(&mut m, w.edits(), n), 1);
    w.set_block(BlockPos::new(1, 62, 0), Block::Planks);
    assert_eq!(feed_map(&mut m, w.edits(), n), 2);
    let r = m.top_map(0, 0, 16, 16);
    let at = |x: i32, z: i32| {
        let i = 2 * ((z - r.z0) * r.w + (x - r.x0)) as usize;
        (r.cols[i], r.cols[i + 1])
    };
    assert_eq!(at(0, 0), (63, Block::Brick.as_u8()));
    assert_eq!(at(1, 0), (62, Block::Planks.as_u8()));
}

#[test]
fn the_first_request_may_show_a_token() {
    let other = Request::GetBlock { pos: BlockPos::new(1, 2, 3) };
    let (shown, rest) = handshake(vec![Request::Rejoin { token: [9; 16] }, other.clone()]);
    assert_eq!(shown, Some([9; 16]));
    assert_eq!(rest, vec![other.clone()]);
    let (shown, rest) = handshake(vec![other.clone(), Request::Rejoin { token: [9; 16] }]);
    assert_eq!(shown, None);
    assert_eq!(rest, vec![Request::Rejoin { token: [9; 16] }]);
    assert_eq!(handshake(vec![]), (None, vec![]));
}
